//! Lists of shared values.
use std::sync::Arc;
use vstd::prelude::*;

verus! {

/// A second pointer to a shared value, from `Arc::clone` of the standard library: it points to what
/// the first points to.
#[verifier::external_body]
pub(crate) fn share<T>(a: &Arc<T>) -> (r: Arc<T>)
    ensures
        r == *a,
{
    Arc::clone(a)
}

/// A second list of the same shared values.
pub fn share_all<T>(list: &Vec<Arc<T>>) -> (r: Vec<Arc<T>>)
    ensures
        r@ == list@,
{
    let mut r: Vec<Arc<T>> = Vec::new();
    let mut i: usize = 0;
    while i < list.len()
        invariant
            i <= list@.len(),
            r@ == list@.subrange(0, i as int),
        decreases list@.len() - i,
    {
        r.push(share(&list[i]));
        i = i + 1;
        assert(r@ =~= list@.subrange(0, i as int));
    }
    assert(r@ =~= list@);
    r
}

/// The values that are there.
pub open spec fn present<T>(list: Seq<Option<T>>) -> Seq<T>
    decreases list.len(),
{
    if list.len() == 0 {
        Seq::empty()
    } else {
        match list.last() {
            Some(x) => present(list.drop_last()).push(x),
            None => present(list.drop_last()),
        }
    }
}

/// A list of the shared values that are there.
pub fn share_present<T>(list: &Vec<Option<Arc<T>>>) -> (r: Vec<Arc<T>>)
    ensures
        r@ == present(list@),
{
    let mut r: Vec<Arc<T>> = Vec::new();
    let mut i: usize = 0;
    assert(list@.subrange(0, 0) =~= Seq::<Option<Arc<T>>>::empty());
    while i < list.len()
        invariant
            i <= list@.len(),
            r@ == present(list@.subrange(0, i as int)),
        decreases list@.len() - i,
    {
        match &list[i] {
            Some(x) => {
                r.push(share(x));
            },
            None => {},
        }
        i = i + 1;
        proof {
            let done = list@.subrange(0, i as int);
            assert(done.drop_last() =~= list@.subrange(0, i - 1));
            assert(done.last() == list@[i - 1]);
        }
    }
    assert(list@.subrange(0, i as int) =~= list@);
    r
}

/// The values that are there, of two lists, are those of the first and then those of the second; of
/// one entry, the value where there is one.
pub proof fn law_present_in_order<T>(a: Seq<Option<T>>, b: Seq<Option<T>>, x: T)
    ensures
        present(a + b) == present(a) + present(b),
        present(seq![Some(x)]) == seq![x],
        present(seq![None::<T>]) == Seq::<T>::empty(),
    decreases b.len(),
{
    assert(seq![Some(x)].drop_last() =~= Seq::<Option<T>>::empty());
    assert(seq![None::<T>].drop_last() =~= Seq::<Option<T>>::empty());
    assert(present(Seq::<Option<T>>::empty()) == Seq::<T>::empty());
    assert(present(seq![Some(x)]) =~= seq![x]);
    if b.len() == 0 {
        assert(a + b =~= a);
        assert(present(a) + present(b) =~= present(a));
    } else {
        law_present_in_order(a, b.drop_last(), x);
        assert((a + b).drop_last() =~= a + b.drop_last());
        assert(present(a + b) =~= present(a) + present(b));
    }
}

} // verus!
