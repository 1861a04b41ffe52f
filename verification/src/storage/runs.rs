//! Runs of keys: the keys of a column that share a prefix, from some key on.
use vstd::prelude::*;

use crate::bytes::{
    copy_bytes, has_prefix, lemma_lex_transitive, lemma_lex_trichotomy, lemma_prefix_convex, lex_le,
    lex_lt, starts_with,
};
use crate::storage::columns::{lemma_slot, slot, sorted, Column, ColumnMap, KeyValues};
use crate::storage::store::{apply_op, apply_ops, Batch, Contents, Op};

verus! {

/// The keys of a column that start with `p`, from `from` on.
pub open spec fn in_run(m: ColumnMap, from: Seq<u8>, p: Seq<u8>, k: Seq<u8>) -> bool {
    m.contains_key(k) && lex_le(from, k) && has_prefix(k, p)
}

/// `k` is the first key of a run.
pub open spec fn is_first(m: ColumnMap, from: Seq<u8>, p: Seq<u8>, k: Seq<u8>) -> bool {
    in_run(m, from, p, k) && forall|q: Seq<u8>| #[trigger] in_run(m, from, p, q) ==> lex_le(k, q)
}

/// A run has at most one first key.
pub proof fn lemma_first_unique(
    m: ColumnMap,
    from: Seq<u8>,
    p: Seq<u8>,
    a: Seq<u8>,
    b: Seq<u8>,
)
    requires
        is_first(m, from, p, a),
        is_first(m, from, p, b),
    ensures
        a == b,
{
    lemma_lex_trichotomy(a, b);
}

/// The first key of a run, and `None` where the run is empty.
pub open spec fn first_key(m: ColumnMap, from: Seq<u8>, p: Seq<u8>) -> Option<Seq<u8>> {
    if exists|k: Seq<u8>| is_first(m, from, p, k) {
        Some(choose|k: Seq<u8>| is_first(m, from, p, k))
    } else {
        None
    }
}

/// The keys of a run that are deleted: all of them, or all but the first.
pub open spec fn run_deleted(
    m: ColumnMap,
    from: Seq<u8>,
    p: Seq<u8>,
    keep_first: bool,
    k: Seq<u8>,
) -> bool {
    in_run(m, from, p, k) && !(keep_first && first_key(m, from, p) == Some(k))
}

/// Writes that delete exactly the keys of column `c` that satisfy `gone`, and do nothing else.
pub open spec fn deletes_exactly(ops: Seq<Op>, c: Column, gone: spec_fn(Seq<u8>) -> bool) -> bool {
    &&& forall|i: int|
        0 <= i < ops.len() ==> ((#[trigger] ops[i]) matches Op::Delete(d, k) && d == c && gone(k))
    &&& forall|k: Seq<u8>| gone(k) ==> #[trigger] ops.contains(Op::Delete(c, k))
}

/// A column without the keys that satisfy `gone`.
pub open spec fn without_keys(m: ColumnMap, gone: spec_fn(Seq<u8>) -> bool) -> ColumnMap {
    Map::new(|k: Seq<u8>| m.contains_key(k) && !gone(k), |k: Seq<u8>| m[k])
}

proof fn lemma_apply_deletes(db: Contents, ops: Seq<Op>, c: Column)
    requires
        forall|i: int| 0 <= i < ops.len() ==> ((#[trigger] ops[i]) matches Op::Delete(d, _) && d == c),
    ensures
        forall|k: Seq<u8>| #[trigger]
            apply_ops(db, ops)[c].contains_key(k) <==> db[c].contains_key(k) && !ops.contains(
                Op::Delete(c, k),
            ),
        forall|k: Seq<u8>| #[trigger]
            apply_ops(db, ops)[c].contains_key(k) ==> apply_ops(db, ops)[c][k] == db[c][k],
        forall|d: Column| d != c ==> #[trigger] apply_ops(db, ops)[d] == db[d],
    decreases ops.len(),
{
    if ops.len() > 0 {
        let front = ops.drop_last();
        assert(forall|i: int| 0 <= i < front.len() ==> front[i] == ops[i]);
        lemma_apply_deletes(db, front, c);
        assert(ops[ops.len() - 1] == ops.last());
        assert forall|k: Seq<u8>| ops.contains(Op::Delete(c, k)) <==> front.contains(
            Op::Delete(c, k),
        ) || ops.last() == Op::Delete(c, k) by {
            if ops.contains(Op::Delete(c, k)) {
                let i = choose|i: int| 0 <= i < ops.len() && ops[i] == Op::Delete(c, k);
                if i < front.len() {
                    assert(front[i] == Op::Delete(c, k));
                }
            }
            if front.contains(Op::Delete(c, k)) {
                let i = choose|i: int| 0 <= i < front.len() && front[i] == Op::Delete(c, k);
                assert(ops[i] == Op::Delete(c, k));
            }
        }
        let before = apply_ops(db, front);
        let after = apply_ops(db, ops);
        if let Op::Delete(d, q) = ops.last() {
            assert(after == apply_op(before, ops.last()));
            assert(after[c] == before[c].remove(q));
            assert forall|k: Seq<u8>| #[trigger] after[c].contains_key(k) <==> db[c].contains_key(k)
                && !ops.contains(Op::Delete(c, k)) by {
                assert(before[c].contains_key(k) <==> db[c].contains_key(k) && !front.contains(
                    Op::Delete(c, k),
                ));
                assert(ops.last() == Op::Delete(c, k) <==> q == k);
            }
            assert forall|k: Seq<u8>| #[trigger] after[c].contains_key(k) implies after[c][k]
                == db[c][k] by {
                assert(before[c].contains_key(k));
            }
        }
    }
}

/// Writes that are all deletes.
pub open spec fn only_deletes(ops: Seq<Op>) -> bool {
    forall|i: int| 0 <= i < ops.len() ==> (#[trigger] ops[i]) is Delete
}

/// Deletes remove the keys that they name, and change nothing else.
pub proof fn lemma_only_deletes(db: Contents, ops: Seq<Op>, c: Column)
    requires
        only_deletes(ops),
    ensures
        forall|k: Seq<u8>| #[trigger]
            apply_ops(db, ops)[c].contains_key(k) <==> db[c].contains_key(k) && !ops.contains(
                Op::Delete(c, k),
            ),
        forall|k: Seq<u8>| #[trigger]
            apply_ops(db, ops)[c].contains_key(k) ==> apply_ops(db, ops)[c][k] == db[c][k],
    decreases ops.len(),
{
    if ops.len() > 0 {
        let front = ops.drop_last();
        assert(forall|i: int| 0 <= i < front.len() ==> front[i] == ops[i]);
        lemma_only_deletes(db, front, c);
        assert(ops[ops.len() - 1] == ops.last());
        assert forall|k: Seq<u8>| #[trigger] ops.contains(Op::Delete(c, k)) <==> front.contains(
            Op::Delete(c, k),
        ) || ops.last() == Op::Delete(c, k) by {
            if ops.contains(Op::Delete(c, k)) {
                let i = choose|i: int| 0 <= i < ops.len() && ops[i] == Op::Delete(c, k);
                if i < front.len() {
                    assert(front[i] == Op::Delete(c, k));
                }
            }
            if front.contains(Op::Delete(c, k)) {
                let i = choose|i: int| 0 <= i < front.len() && front[i] == Op::Delete(c, k);
                assert(ops[i] == Op::Delete(c, k));
            }
        }
        let before = apply_ops(db, front);
        let after = apply_ops(db, ops);
        if let Op::Delete(d, q) = ops.last() {
            assert(after == apply_op(before, ops.last()));
            assert forall|k: Seq<u8>| #[trigger] after[c].contains_key(k) <==> db[c].contains_key(k)
                && !ops.contains(Op::Delete(c, k)) by {
                assert(before[c].contains_key(k) <==> db[c].contains_key(k) && !front.contains(
                    Op::Delete(c, k),
                ));
                assert(ops.contains(Op::Delete(c, k)) <==> front.contains(Op::Delete(c, k))
                    || ops.last() == Op::Delete(c, k));
                assert(ops.last() == Op::Delete(c, k) <==> (d == c && q == k));
            }
            assert forall|k: Seq<u8>| #[trigger] after[c].contains_key(k) implies after[c][k]
                == db[c][k] by {
                assert(before[c].contains_key(k));
            }
        }
    }
}

/// What writes that delete exactly some keys do to the store.
pub proof fn lemma_deletes_exactly(
    db: Contents,
    ops: Seq<Op>,
    c: Column,
    gone: spec_fn(Seq<u8>) -> bool,
)
    requires
        deletes_exactly(ops, c, gone),
    ensures
        apply_ops(db, ops)[c] == without_keys(db[c], gone),
        forall|d: Column| d != c ==> #[trigger] apply_ops(db, ops)[d] == db[d],
{
    lemma_apply_deletes(db, ops, c);
    assert forall|k: Seq<u8>| ops.contains(Op::Delete(c, k)) <==> gone(k) by {
        if ops.contains(Op::Delete(c, k)) {
            let i = choose|i: int| 0 <= i < ops.len() && ops[i] == Op::Delete(c, k);
            assert(ops[i] matches Op::Delete(d, q) && d == c && gone(q));
        }
    }
    assert(apply_ops(db, ops)[c] =~= without_keys(db[c], gone));
}

/// The position of the first key of a run.
pub fn seek_run(column: &KeyValues, from: &[u8], p: &[u8]) -> (r: Option<usize>)
    requires
        has_prefix(from@, p@),
    ensures
        sorted(column.items()),
        match r {
            Some(i) => i < column.items().len() && first_key(column@, from@, p@) == Some(
                column.items()[i as int].0,
            ) && is_first(column@, from@, p@, column.items()[i as int].0) && (forall|j: int|
                0 <= j < i ==> lex_lt((#[trigger] column.items()[j]).0, from@)),
            None => first_key(column@, from@, p@) is None && forall|k: Seq<u8>|
                !in_run(column@, from@, p@, k),
        },
{
    let i: usize = column.seek(from);
    let ghost items = column.items();
    proof {
        assert forall|q: Seq<u8>| #[trigger] in_run(column@, from@, p@, q) implies i < items.len()
            && lex_le(items[i as int].0, q) by {
            let j = slot(items, q);
            assert(items[j].0 == q);
            if j < i {
                assert(lex_lt(items[j].0, from@));
                lemma_lex_trichotomy(from@, q);
            } else if j > i {
                assert(lex_lt(items[i as int].0, items[j].0));
            }
        }
    }
    if i < column.len() && starts_with(column.key_at(i).as_slice(), p) {
        proof {
            let k = items[i as int].0;
            lemma_slot(items, i as int);
            assert(is_first(column@, from@, p@, k));
            let c = choose|c: Seq<u8>| is_first(column@, from@, p@, c);
            lemma_first_unique(column@, from@, p@, c, k);
        }
        Some(i)
    } else {
        proof {
            assert forall|q: Seq<u8>| !in_run(column@, from@, p@, q) by {
                if in_run(column@, from@, p@, q) {
                    lemma_prefix_convex(p@, from@, items[i as int].0, q);
                }
            }
            if exists|k: Seq<u8>| is_first(column@, from@, p@, k) {
                let k = choose|k: Seq<u8>| is_first(column@, from@, p@, k);
                assert(in_run(column@, from@, p@, k));
            }
        }
        None
    }
}

/// Stages the deletes of the keys of a run, or of all but the first.
pub fn delete_run(
    column: &KeyValues,
    c: Column,
    from: &[u8],
    p: &[u8],
    keep_first: bool,
    batch: &mut Batch,
)
    requires
        has_prefix(from@, p@),
    ensures
        exists|ops: Seq<Op>|
            #![trigger old(batch)@ + ops]
            final(batch)@ == old(batch)@ + ops && deletes_exactly(
                ops,
                c,
                |k: Seq<u8>| run_deleted(column@, from@, p@, keep_first, k),
            ),
{
    let ghost gone = |k: Seq<u8>| run_deleted(column@, from@, p@, keep_first, k);
    let ghost mut ops: Seq<Op> = Seq::empty();
    let ghost items = column.items();
    assert(batch@ =~= old(batch)@ + ops);
    match seek_run(column, from, p) {
        None => {
            assert(deletes_exactly(ops, c, gone));
        },
        Some(first) => {
            let n: usize = column.len();
            let mut i: usize = if keep_first {
                first + 1
            } else {
                first
            };
            let ghost start = i as int;
            while i < n && starts_with(column.key_at(i).as_slice(), p)
                invariant
                    items == column.items(),
                    n == items.len(),
                    sorted(items),
                    0 <= first < items.len(),
                    first <= start <= i <= items.len(),
                    ops.len() == i - start,
                    batch@ == old(batch)@ + ops,
                    forall|j: int|
                        0 <= j < ops.len() ==> #[trigger] ops[j] == Op::Delete(
                            c,
                            items[start + j].0,
                        ),
                    forall|j: int| start <= j < i ==> has_prefix((#[trigger] items[j]).0, p@),
                decreases items.len() - i,
            {
                let ghost k = items[i as int].0;
                batch.delete(c, copy_bytes(column.key_at(i).as_slice()));
                proof {
                    ops = ops.push(Op::Delete(c, k));
                    assert(batch@ =~= old(batch)@ + ops);
                }
                i = i + 1;
            }
            proof {
                assert forall|j: int| 0 <= j < ops.len() implies ((#[trigger] ops[j]) matches Op::Delete(
                    d,
                    k,
                ) && d == c && gone(k)) by {
                    let k = items[start + j].0;
                    lemma_slot(items, start + j);
                    let f = items[first as int].0;
                    if start + j > first {
                        assert(lex_lt(f, k));
                        if f != from@ {
                            lemma_lex_transitive(from@, f, k);
                        }
                        lemma_lex_trichotomy(f, k);
                    }
                }
                assert forall|k: Seq<u8>| gone(k) implies #[trigger] ops.contains(
                    Op::Delete(c, k),
                ) by {
                    let j = slot(items, k);
                    assert(items[j].0 == k);
                    let f = items[first as int].0;
                    assert(in_run(column@, from@, p@, k));
                    assert(lex_le(f, k));
                    if j < first {
                        assert(lex_lt(items[j].0, from@));
                        lemma_lex_trichotomy(from@, k);
                    }
                    if j >= i {
                        if j > i {
                            assert(lex_lt(items[i as int].0, k));
                        }
                        assert(lex_le(from@, items[i as int].0)) by {
                            if i > first {
                                assert(lex_lt(f, items[i as int].0));
                                if f != from@ {
                                    lemma_lex_transitive(from@, f, items[i as int].0);
                                }
                            }
                        }
                        lemma_prefix_convex(p@, from@, items[i as int].0, k);
                    }
                    assert(start <= j < i);
                    assert(ops[j - start] == Op::Delete(c, k));
                }
                assert(deletes_exactly(ops, c, gone));
            }
        },
    }
    assert(batch@ == old(batch)@ + ops);
}

} // verus!
