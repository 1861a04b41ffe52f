//! Putting together what the transactions of a block amount to.
use std::sync::Arc;
use vstd::prelude::*;

use crate::felt::Felt;
use crate::felt_map::FeltSet;
use crate::pending::blocks::{Transaction, TxnReceiptAndEvents};
use crate::shared::{present, share};
use crate::state_update::{empty_change, StateChange, StateUpdateData};

verus! {

/// The changes of transactions, one after the other.
pub open spec fn composed(diffs: Seq<Arc<StateUpdateData>>) -> StateChange
    decreases diffs.len(),
{
    if diffs.len() == 0 {
        empty_change()
    } else {
        composed(diffs.drop_last()).then_change(diffs.last()@)
    }
}

/// Composes the changes of those transactions that have any.
pub fn compose(diffs: &Vec<Option<Arc<StateUpdateData>>>) -> (r: StateUpdateData)
    ensures
        r@ == composed(present(diffs@)),
{
    let mut r = StateUpdateData::new();
    let mut i: usize = 0;
    assert(diffs@.subrange(0, 0) =~= Seq::<Option<Arc<StateUpdateData>>>::empty());
    while i < diffs.len()
        invariant
            i <= diffs@.len(),
            r@ == composed(present(diffs@.subrange(0, i as int))),
        decreases diffs@.len() - i,
    {
        proof {
            let done = diffs@.subrange(0, i + 1);
            assert(done.drop_last() =~= diffs@.subrange(0, i as int));
            assert(done.last() == diffs@[i as int]);
            if let Some(d) = diffs@[i as int] {
                assert(present(done).drop_last() =~= present(done.drop_last()));
            }
        }
        match &diffs[i] {
            Some(d) => {
                r.extend(d);
            },
            None => {},
        }
        i = i + 1;
    }
    assert(diffs@.subrange(0, i as int) =~= diffs@);
    r
}

/// The hashes of the transactions that receipts are for.
pub open spec fn receipt_hashes(receipts: Seq<Arc<TxnReceiptAndEvents>>) -> Set<Felt>
    decreases receipts.len(),
{
    if receipts.len() == 0 {
        Set::empty()
    } else {
        receipt_hashes(receipts.drop_last()).insert(receipts.last().receipt.transaction_hash)
    }
}

pub fn collect_receipt_hashes(receipts: &Vec<Arc<TxnReceiptAndEvents>>) -> (r: FeltSet)
    ensures
        r@ == receipt_hashes(receipts@),
{
    let mut r = FeltSet::new();
    let mut i: usize = 0;
    assert(receipts@.subrange(0, 0) =~= Seq::<Arc<TxnReceiptAndEvents>>::empty());
    while i < receipts.len()
        invariant
            i <= receipts@.len(),
            r@ == receipt_hashes(receipts@.subrange(0, i as int)),
        decreases receipts@.len() - i,
    {
        r.insert(receipts[i].receipt.transaction_hash);
        i = i + 1;
        proof {
            let done = receipts@.subrange(0, i as int);
            assert(done.drop_last() =~= receipts@.subrange(0, i - 1));
            assert(done.last() == receipts@[i - 1]);
        }
    }
    assert(receipts@.subrange(0, i as int) =~= receipts@);
    r
}

/// A hash is among those of receipts exactly when one of the receipts is for it.
pub proof fn lemma_receipt_hashes(receipts: Seq<Arc<TxnReceiptAndEvents>>, hash: Felt)
    ensures
        receipt_hashes(receipts).contains(hash) <==> exists|i: int|
            0 <= i < receipts.len() && (#[trigger] receipts[i]).receipt.transaction_hash == hash,
    decreases receipts.len(),
{
    if receipts.len() > 0 {
        let front = receipts.drop_last();
        lemma_receipt_hashes(front, hash);
        if receipt_hashes(receipts).contains(hash) {
            if receipt_hashes(front).contains(hash) {
                let i = choose|i: int|
                    0 <= i < front.len() && (#[trigger] front[i]).receipt.transaction_hash == hash;
                assert(receipts[i].receipt.transaction_hash == hash);
            } else {
                assert(receipts[receipts.len() - 1].receipt.transaction_hash == hash);
            }
        }
        if exists|i: int|
            0 <= i < receipts.len() && (#[trigger] receipts[i]).receipt.transaction_hash == hash {
            let i = choose|i: int|
                0 <= i < receipts.len() && (#[trigger] receipts[i]).receipt.transaction_hash
                    == hash;
            if i < front.len() {
                assert(front[i].receipt.transaction_hash == hash);
            }
        }
    }
}

/// The transactions whose hash is among some, in order; or those whose hash is not.
pub open spec fn select(txs: Seq<Arc<Transaction>>, hashes: Set<Felt>, inside: bool) -> Seq<
    Arc<Transaction>,
>
    decreases txs.len(),
{
    if txs.len() == 0 {
        Seq::empty()
    } else {
        let front = select(txs.drop_last(), hashes, inside);
        if hashes.contains(txs.last().hash) == inside {
            front.push(txs.last())
        } else {
            front
        }
    }
}

/// Parts transactions by whether their hash is among some.
pub fn partition(txs: &Vec<Arc<Transaction>>, hashes: &FeltSet) -> (r: (
    Vec<Arc<Transaction>>,
    Vec<Arc<Transaction>>,
))
    ensures
        r.0@ == select(txs@, hashes@, true),
        r.1@ == select(txs@, hashes@, false),
{
    let mut inside: Vec<Arc<Transaction>> = Vec::new();
    let mut outside: Vec<Arc<Transaction>> = Vec::new();
    let mut i: usize = 0;
    assert(txs@.subrange(0, 0) =~= Seq::<Arc<Transaction>>::empty());
    while i < txs.len()
        invariant
            i <= txs@.len(),
            inside@ == select(txs@.subrange(0, i as int), hashes@, true),
            outside@ == select(txs@.subrange(0, i as int), hashes@, false),
        decreases txs@.len() - i,
    {
        proof {
            let done = txs@.subrange(0, i + 1);
            assert(done.drop_last() =~= txs@.subrange(0, i as int));
            assert(done.last() == txs@[i as int]);
        }
        if hashes.contains(txs[i].hash) {
            inside.push(share(&txs[i]));
        } else {
            outside.push(share(&txs[i]));
        }
        i = i + 1;
    }
    assert(txs@.subrange(0, i as int) =~= txs@);
    (inside, outside)
}

/// Parting loses nothing and adds nothing.
pub proof fn lemma_select_parts(txs: Seq<Arc<Transaction>>, hashes: Set<Felt>)
    ensures
        select(txs, hashes, true).to_multiset().add(select(txs, hashes, false).to_multiset())
            == txs.to_multiset(),
        select(txs, hashes, true).len() + select(txs, hashes, false).len() == txs.len(),
    decreases txs.len(),
{
    broadcast use vstd::seq_lib::group_to_multiset_ensures;

    if txs.len() == 0 {
        assert(select(txs, hashes, true).to_multiset().add(
            select(txs, hashes, false).to_multiset(),
        ) =~= txs.to_multiset());
    } else {
        let front = txs.drop_last();
        lemma_select_parts(front, hashes);
        assert(front.push(txs.last()) =~= txs);
        assert(select(txs, hashes, true).to_multiset().add(
            select(txs, hashes, false).to_multiset(),
        ) =~= txs.to_multiset());
    }
}

/// The first transaction with a hash.
pub open spec fn first_with_hash(txs: Seq<Arc<Transaction>>, hash: Felt) -> Option<int>
    decreases txs.len(),
{
    if txs.len() == 0 {
        None
    } else {
        match first_with_hash(txs.drop_last(), hash) {
            Some(i) => Some(i),
            None => if txs.last().hash == hash {
                Some(txs.len() - 1)
            } else {
                None
            },
        }
    }
}

pub proof fn lemma_first_with_hash(txs: Seq<Arc<Transaction>>, hash: Felt)
    ensures
        match first_with_hash(txs, hash) {
            Some(i) => 0 <= i < txs.len() && txs[i].hash == hash && forall|j: int|
                0 <= j < i ==> (#[trigger] txs[j]).hash != hash,
            None => forall|j: int| 0 <= j < txs.len() ==> (#[trigger] txs[j]).hash != hash,
        },
    decreases txs.len(),
{
    if txs.len() > 0 {
        let front = txs.drop_last();
        lemma_first_with_hash(front, hash);
        assert(forall|j: int| 0 <= j < front.len() ==> front[j] == txs[j]);
    }
}

pub fn find_transaction_in(txs: &Vec<Arc<Transaction>>, hash: Felt) -> (r: Option<usize>)
    ensures
        match first_with_hash(txs@, hash) {
            Some(i) => r matches Some(k) && k == i && k < txs@.len(),
            None => r is None,
        },
{
    proof {
        lemma_first_with_hash(txs@, hash);
    }
    let mut i: usize = 0;
    while i < txs.len()
        invariant
            i <= txs@.len(),
            forall|j: int| 0 <= j < i ==> (#[trigger] txs@[j]).hash != hash,
            match first_with_hash(txs@, hash) {
                Some(i) => 0 <= i < txs@.len() && txs@[i].hash == hash && forall|j: int|
                    0 <= j < i ==> (#[trigger] txs@[j]).hash != hash,
                None => forall|j: int| 0 <= j < txs@.len() ==> (#[trigger] txs@[j]).hash != hash,
            },
        decreases txs@.len() - i,
    {
        if txs[i].hash == hash {
            assert(txs@[i as int].hash == hash);
            return Some(i);
        }
        i = i + 1;
    }
    None
}

/// The first receipt for a transaction.
pub open spec fn first_receipt(receipts: Seq<Arc<TxnReceiptAndEvents>>, hash: Felt) -> Option<int>
    decreases receipts.len(),
{
    if receipts.len() == 0 {
        None
    } else {
        match first_receipt(receipts.drop_last(), hash) {
            Some(i) => Some(i),
            None => if receipts.last().receipt.transaction_hash == hash {
                Some(receipts.len() - 1)
            } else {
                None
            },
        }
    }
}

pub proof fn lemma_first_receipt(receipts: Seq<Arc<TxnReceiptAndEvents>>, hash: Felt)
    ensures
        match first_receipt(receipts, hash) {
            Some(i) => 0 <= i < receipts.len() && receipts[i].receipt.transaction_hash == hash
                && forall|j: int|
                0 <= j < i ==> (#[trigger] receipts[j]).receipt.transaction_hash != hash,
            None => forall|j: int|
                0 <= j < receipts.len() ==> (#[trigger] receipts[j]).receipt.transaction_hash
                    != hash,
        },
        first_receipt(receipts, hash) is Some <==> receipt_hashes(receipts).contains(hash),
    decreases receipts.len(),
{
    if receipts.len() > 0 {
        let front = receipts.drop_last();
        lemma_first_receipt(front, hash);
        assert(forall|j: int| 0 <= j < front.len() ==> front[j] == receipts[j]);
    }
}

pub fn find_receipt_in(receipts: &Vec<Arc<TxnReceiptAndEvents>>, hash: Felt) -> (r: Option<usize>)
    ensures
        match first_receipt(receipts@, hash) {
            Some(i) => r matches Some(k) && k == i && k < receipts@.len(),
            None => r is None,
        },
{
    proof {
        lemma_first_receipt(receipts@, hash);
    }
    let ghost first = first_receipt(receipts@, hash);
    let mut i: usize = 0;
    while i < receipts.len()
        invariant
            i <= receipts@.len(),
            forall|j: int| 0 <= j < i ==> (#[trigger] receipts@[j]).receipt.transaction_hash != hash,
            first == first_receipt(receipts@, hash),
            match first {
                Some(i) => 0 <= i < receipts@.len() && receipts@[i].receipt.transaction_hash == hash
                    && forall|j: int|
                    0 <= j < i ==> (#[trigger] receipts@[j]).receipt.transaction_hash != hash,
                None => forall|j: int|
                    0 <= j < receipts@.len() ==> (#[trigger] receipts@[j]).receipt.transaction_hash
                        != hash,
            },
        decreases receipts@.len() - i,
    {
        if receipts[i].receipt.transaction_hash == hash {
            assert(receipts@[i as int].receipt.transaction_hash == hash);
            return Some(i);
        }
        i = i + 1;
    }
    None
}

} // verus!
