//! The history of contract state hashes.
use vstd::prelude::*;
use vstd::slice::slice_subrange;

use crate::bytes::{
    be_u64, be_value, has_prefix, lemma_be_u64_injective, lemma_be_u64_order, lemma_be_u64_value,
    lemma_be_value_bytes, lemma_lex_prefix, lex_le, lex_lt, u64_from_be_bytes,
};
use crate::felt::{is_felt, left_padded, Felt};
use crate::storage::columns::{Column, ColumnMap, KeyValues};
use crate::storage::keys::{contract_state_hashes_key, state_hash_key};
use crate::storage::roots::{
    floor_key, from_block, is_floor, law_history_needed_is_kept, lemma_floor, value_at,
    without_history,
};
use crate::storage::runs::{
    delete_run, deletes_exactly, first_key, in_run, is_first, lemma_deletes_exactly,
    lemma_first_unique, run_deleted, seek_run, without_keys,
};
use crate::storage::store::{apply_ops, Contents, Op};
use crate::storage::transaction::{prune_before, Transaction, TransactionError, TriePruneMode};

verus! {

/// The length of the key of a contract state hash.
pub const STATE_HASH_KEY_LEN: usize = 40;

/// What a lookup of a contract's state hash gives, by the first key from the one of the block on.
pub open spec fn state_hash_read(
    m: ColumnMap,
    block: u64,
    contract: Felt,
    r: Result<Option<Felt>, TransactionError>,
) -> bool {
    match first_key(m, state_hash_key(block, contract), contract@) {
        None => r matches Ok(None),
        Some(k) => if k.len() != STATE_HASH_KEY_LEN {
            r matches Err(TransactionError::StateHashKeyLength(n)) && n == k.len()
        } else if is_felt(m[k]) {
            r matches Ok(Some(h)) && h@ == left_padded(m[k])
        } else {
            r matches Err(TransactionError::ParsingStateHash)
        },
    }
}

/// The writes that prune the state hashes of a contract once `block` is stored.
pub open spec fn state_hash_prune(
    m: ColumnMap,
    block: u64,
    contract: Felt,
    mode: TriePruneMode,
    ops: Seq<Op>,
) -> bool {
    match (prune_before(mode, block), mode) {
        (Some(before), TriePruneMode::Prune { num_blocks_kept }) => deletes_exactly(
            ops,
            Column::ContractStateHashes,
            |k: Seq<u8>|
                run_deleted(
                    m,
                    state_hash_key(before, contract),
                    contract@,
                    num_blocks_kept > 0,
                    k,
                ),
        ),
        _ => ops == Seq::<Op>::empty(),
    }
}

proof fn lemma_key_has_prefix(block: u64, contract: Felt)
    ensures
        has_prefix(state_hash_key(block, contract), contract@),
        state_hash_key(block, contract).len() == STATE_HASH_KEY_LEN,
        state_hash_key(block, contract).subrange(32, 40) == be_u64((u64::MAX - block) as u64),
{
    Felt::lemma_view_injective(contract, contract);
    lemma_be_u64_value((u64::MAX - block) as u64);
    assert(state_hash_key(block, contract).subrange(32, 40) =~= be_u64((u64::MAX - block) as u64));
}

impl Transaction {
    /// Records the state hash of a contract at a block. Where history is pruned, state hashes that
    /// are no longer needed are deleted.
    pub fn insert_contract_state_hash(
        &mut self,
        block_number: u64,
        contract: Felt,
        state_hash: Felt,
    )
        ensures
            *final(self) == (Transaction { batch: final(self).batch, ..*old(self) }),
            exists|ops: Seq<Op>|
                #![trigger old(self).batch@.push(
                    Op::Put(
                        Column::ContractStateHashes,
                        state_hash_key(block_number, contract),
                        state_hash@,
                    ),
                ) + ops]
                final(self).batch@ == old(self).batch@.push(
                    Op::Put(
                        Column::ContractStateHashes,
                        state_hash_key(block_number, contract),
                        state_hash@,
                    ),
                ) + ops && state_hash_prune(
                    old(self).store@[Column::ContractStateHashes],
                    block_number,
                    contract,
                    old(self).trie_prune_mode,
                    ops,
                ),
    {
        self.batch.put(
            Column::ContractStateHashes,
            contract_state_hashes_key(block_number, &contract),
            state_hash.to_be_bytes(),
        );
        let ghost put = self.batch@;
        if let TriePruneMode::Prune { num_blocks_kept } = self.trie_prune_mode {
            if let Some(before) = block_number.checked_sub(num_blocks_kept) {
                self.delete_contract_state_hashes(contract, before, num_blocks_kept > 0);
                return ;
            }
        }
        assert(self.batch@ =~= put + Seq::<Op>::empty());
    }

    /// Deletes the state hashes of a contract up to a block, except for the latest of them where it
    /// is to be kept.
    fn delete_contract_state_hashes(
        &mut self,
        contract: Felt,
        before_block: u64,
        keep_latest: bool,
    )
        ensures
            *final(self) == (Transaction { batch: final(self).batch, ..*old(self) }),
            exists|ops: Seq<Op>|
                #![trigger old(self).batch@ + ops]
                final(self).batch@ == old(self).batch@ + ops && deletes_exactly(
                    ops,
                    Column::ContractStateHashes,
                    |k: Seq<u8>|
                        run_deleted(
                            old(self).store@[Column::ContractStateHashes],
                            state_hash_key(before_block, contract),
                            contract@,
                            keep_latest,
                            k,
                        ),
                ),
    {
        let key = contract_state_hashes_key(before_block, &contract);
        let prefix = contract.to_be_bytes();
        proof {
            lemma_key_has_prefix(before_block, contract);
        }
        delete_run(
            self.store.column(Column::ContractStateHashes),
            Column::ContractStateHashes,
            key.as_slice(),
            prefix.as_slice(),
            keep_latest,
            &mut self.batch,
        );
    }

    /// The state hash of a contract at a block: the latest one that is not after it.
    pub fn contract_state_hash(&self, block_number: u64, contract: Felt) -> (r: Result<
        Option<Felt>,
        TransactionError,
    >)
        ensures
            state_hash_read(
                self.store@[Column::ContractStateHashes],
                block_number,
                contract,
                r,
            ),
    {
        let column: &KeyValues = self.store.column(Column::ContractStateHashes);
        let key = contract_state_hashes_key(block_number, &contract);
        let prefix = contract.to_be_bytes();
        proof {
            lemma_key_has_prefix(block_number, contract);
        }
        let i: usize = match seek_run(column, key.as_slice(), prefix.as_slice()) {
            None => {
                return Ok(None);
            },
            Some(i) => i,
        };
        let found: &Vec<u8> = column.key_at(i);
        if found.len() != STATE_HASH_KEY_LEN {
            return Err(TransactionError::StateHashKeyLength(found.len()));
        }
        proof {
            crate::storage::columns::lemma_slot(column.items(), i as int);
            lemma_found_not_later(block_number, contract, found@);
        }
        match u64_from_be_bytes(slice_subrange(found.as_slice(), STATE_HASH_KEY_LEN - 8, 40)) {
            None => Ok(None),
            Some(inverted) => {
                if u64::MAX - inverted > block_number {
                    return Ok(None);
                }
                match Felt::from_be_slice(column.value_at(i).as_slice()) {
                    Ok(hash) => Ok(Some(hash)),
                    Err(_) => Err(TransactionError::ParsingStateHash),
                }
            },
        }
    }
}

/// A key of full length in the run of a block is that of a block that is not after it.
proof fn lemma_found_not_later(block: u64, contract: Felt, k: Seq<u8>)
    requires
        k.len() == STATE_HASH_KEY_LEN,
        has_prefix(k, contract@),
        lex_le(state_hash_key(block, contract), k),
    ensures
        u64::MAX - be_value(k.subrange(32, 40)) <= block,
        k == state_hash_key((u64::MAX - be_value(k.subrange(32, 40))) as u64, contract),
{
    let s = k.subrange(32, 40);
    lemma_be_value_bytes(s);
    let x = be_value(s) as u64;
    Felt::lemma_view_injective(contract, contract);
    assert(k =~= contract@ + s);
    let y = (u64::MAX - block) as u64;
    lemma_lex_prefix(contract@, be_u64(y), s);
    lemma_be_u64_order(y, x);
    if state_hash_key(block, contract) == k {
        lemma_key_has_prefix(block, contract);
        lemma_be_u64_injective(x, y);
    }
}

/// The state hashes of a contract by block.
pub open spec fn history(m: ColumnMap, contract: Felt) -> Map<u64, Seq<u8>> {
    Map::new(
        |b: u64| m.contains_key(state_hash_key(b, contract)),
        |b: u64| m[state_hash_key(b, contract)],
    )
}

/// Every key that starts with the contract's address is that of a state hash.
pub open spec fn keys_well_formed(m: ColumnMap, contract: Felt) -> bool {
    forall|k: Seq<u8>| #[trigger]
        m.contains_key(k) && has_prefix(k, contract@) ==> k.len() == STATE_HASH_KEY_LEN
}

/// Later blocks come first.
proof fn lemma_key_order(a: u64, b: u64, contract: Felt)
    ensures
        lex_lt(state_hash_key(a, contract), state_hash_key(b, contract)) == (b < a),
        state_hash_key(a, contract) == state_hash_key(b, contract) ==> a == b,
{
    let x = (u64::MAX - a) as u64;
    let y = (u64::MAX - b) as u64;
    lemma_lex_prefix(contract@, be_u64(x), be_u64(y));
    lemma_be_u64_order(x, y);
    if state_hash_key(a, contract) == state_hash_key(b, contract) {
        lemma_key_has_prefix(a, contract);
        lemma_key_has_prefix(b, contract);
        lemma_be_u64_injective(x, y);
    }
}

/// The keys of the run of a block are those of the state hashes up to that block.
proof fn lemma_run_is_history(m: ColumnMap, block: u64, contract: Felt, k: Seq<u8>)
    requires
        keys_well_formed(m, contract),
    ensures
        in_run(m, state_hash_key(block, contract), contract@, k) <==> exists|b: u64|
            b <= block && #[trigger] history(m, contract).contains_key(b) && k == state_hash_key(
                b,
                contract,
            ),
{
    if in_run(m, state_hash_key(block, contract), contract@, k) {
        lemma_found_not_later(block, contract, k);
        let b = (u64::MAX - be_value(k.subrange(32, 40))) as u64;
        lemma_be_value_bytes(k.subrange(32, 40));
        assert(history(m, contract).contains_key(b));
    }
    if exists|b: u64|
        b <= block && #[trigger] history(m, contract).contains_key(b) && k == state_hash_key(
            b,
            contract,
        ) {
        let b = choose|b: u64|
            b <= block && #[trigger] history(m, contract).contains_key(b) && k == state_hash_key(
                b,
                contract,
            );
        lemma_key_order(block, b, contract);
        lemma_key_has_prefix(b, contract);
        if b == block {
            assert(k == state_hash_key(block, contract));
        }
    }
}

/// The first key of the run of a block is that of the latest state hash up to the block.
proof fn lemma_first_is_floor(m: ColumnMap, block: u64, contract: Felt)
    requires
        keys_well_formed(m, contract),
    ensures
        first_key(m, state_hash_key(block, contract), contract@) == (match floor_key(
            history(m, contract),
            block,
        ) {
            Some(b) => Some(state_hash_key(b, contract)),
            None => None,
        }),
{
    let from = state_hash_key(block, contract);
    let h = history(m, contract);
    if exists|b: u64| is_floor(h, block, b) {
        let b = choose|b: u64| is_floor(h, block, b);
        lemma_floor(h, block, b);
        let k = state_hash_key(b, contract);
        lemma_run_is_history(m, block, contract, k);
        assert(h.contains_key(b));
        assert(in_run(m, from, contract@, k));
        assert forall|q: Seq<u8>| #[trigger] in_run(m, from, contract@, q) implies lex_le(k, q) by {
            lemma_run_is_history(m, block, contract, q);
            let c = choose|c: u64|
                c <= block && #[trigger] h.contains_key(c) && q == state_hash_key(c, contract);
            lemma_key_order(b, c, contract);
        }
        assert(is_first(m, from, contract@, k));
        let f = choose|f: Seq<u8>| is_first(m, from, contract@, f);
        lemma_first_unique(m, from, contract@, f, k);
    } else if exists|k: Seq<u8>| is_first(m, from, contract@, k) {
        let k = choose|k: Seq<u8>| is_first(m, from, contract@, k);
        lemma_run_is_history(m, block, contract, k);
        let b = choose|b: u64|
            b <= block && #[trigger] h.contains_key(b) && k == state_hash_key(b, contract);
        assert forall|c: u64| #[trigger] h.contains_key(c) && c <= block implies c <= b by {
            let q = state_hash_key(c, contract);
            lemma_run_is_history(m, block, contract, q);
            assert(in_run(m, from, contract@, q));
            lemma_key_order(c, b, contract);
            lemma_key_order(b, c, contract);
            if c > b {
                crate::bytes::lemma_lex_trichotomy(k, q);
            }
        }
        assert(is_floor(h, block, b));
    }
}

/// A lookup gives the state hash of the latest block that is not after the one asked for.
pub proof fn law_lookup_is_latest(
    m: ColumnMap,
    block: u64,
    contract: Felt,
    r: Result<Option<Felt>, TransactionError>,
)
    requires
        keys_well_formed(m, contract),
        state_hash_read(m, block, contract, r),
    ensures
        match value_at(history(m, contract), block) {
            None => r matches Ok(None),
            Some(v) => if is_felt(v) {
                r matches Ok(Some(h)) && h@ == left_padded(v)
            } else {
                r matches Err(TransactionError::ParsingStateHash)
            },
        },
{
    lemma_first_is_floor(m, block, contract);
    if let Some(b) = floor_key(history(m, contract), block) {
        lemma_key_has_prefix(b, contract);
        let c = choose|c: u64| is_floor(history(m, contract), block, c);
        assert(history(m, contract).contains_key(b));
    }
}

/// Pruning the state hashes of a contract keeps exactly what is needed to tell the state hash at the
/// block pruned before, or later. Where no history is kept, everything up to that block goes.
pub proof fn law_state_hash_pruning(m: ColumnMap, before: u64, contract: Felt, keep_latest: bool)
    requires
        keys_well_formed(m, contract),
    ensures
        ({
            let gone = |k: Seq<u8>|
                run_deleted(m, state_hash_key(before, contract), contract@, keep_latest, k);
            let after = history(without_keys(m, gone), contract);
            if keep_latest {
                after == without_history(history(m, contract), before)
            } else {
                forall|b: u64| #[trigger]
                    after.contains_key(b) <==> history(m, contract).contains_key(b) && b > before
            }
        }),
{
    let from = state_hash_key(before, contract);
    let gone = |k: Seq<u8>| run_deleted(m, from, contract@, keep_latest, k);
    let h = history(m, contract);
    let after = history(without_keys(m, gone), contract);
    lemma_first_is_floor(m, before, contract);
    assert forall|b: u64| #[trigger] after.contains_key(b) <==> h.contains_key(b) && !(b <= before
        && !(keep_latest && floor_key(h, before) == Some(b))) by {
        let k = state_hash_key(b, contract);
        lemma_run_is_history(m, before, contract, k);
        if in_run(m, from, contract@, k) {
            let c = choose|c: u64|
                c <= before && #[trigger] h.contains_key(c) && k == state_hash_key(c, contract);
            lemma_key_order(b, c, contract);
        }
        assert(in_run(m, from, contract@, k) <==> h.contains_key(b) && b <= before);
        if let Some(f) = floor_key(h, before) {
            lemma_key_order(b, f, contract);
        }
        assert(gone(k) <==> in_run(m, from, contract@, k) && !(keep_latest && floor_key(h, before)
            == Some(b)));
        assert(after.contains_key(b) <==> m.contains_key(k) && !gone(k));
    }
    if keep_latest {
        if let Some(f) = floor_key(h, before) {
            let c = choose|c: u64| is_floor(h, before, c);
            assert(is_floor(h, before, f));
            assert forall|b: u64| after.contains_key(b) <==> from_block(h, f).contains_key(b) by {
                if h.contains_key(b) && b <= before {
                    assert(b <= f);
                }
            }
            assert(after =~= from_block(h, f));
        } else {
            assert forall|b: u64| h.contains_key(b) implies b > before by {
                if b <= before {
                    lemma_some_floor(h, before, b);
                }
            }
            assert(after =~= h);
        }
    }
}

/// Where a block has an entry, there is a latest one up to any later block.
proof fn lemma_some_floor<V>(h: Map<u64, V>, top: u64, b: u64)
    requires
        h.contains_key(b),
        b <= top,
    ensures
        floor_key(h, top) is Some,
    decreases top - b,
{
    if is_floor(h, top, b) {
    } else {
        let c = choose|c: u64| #[trigger] h.contains_key(c) && c <= top && c > b;
        assert(h.contains_key(c) && c <= top && c > b);
        lemma_some_floor(h, top, c);
    }
}

/// A state hash that was recorded is what a lookup at its block gives once the writes are made. The
/// exception is a node that keeps no history and records a state hash for a block that has one
/// already.
pub proof fn law_state_hash_read_back(
    db: Contents,
    block: u64,
    contract: Felt,
    hash: Felt,
    mode: TriePruneMode,
    ops: Seq<Op>,
)
    requires
        keys_well_formed(db[Column::ContractStateHashes], contract),
        state_hash_prune(db[Column::ContractStateHashes], block, contract, mode, ops),
        mode == (TriePruneMode::Prune { num_blocks_kept: 0 }) ==> !db[Column::ContractStateHashes].contains_key(
            state_hash_key(block, contract),
        ),
    ensures
        ({
            let put = Op::Put(
                Column::ContractStateHashes,
                state_hash_key(block, contract),
                hash@,
            );
            let after = apply_ops(db, seq![put] + ops)[Column::ContractStateHashes];
            value_at(history(after, contract), block) == Some(hash@)
        }),
{
    let c = Column::ContractStateHashes;
    let m = db[c];
    let key = state_hash_key(block, contract);
    let put = Op::Put(c, key, hash@);
    crate::storage::store::lemma_apply_concat(db, seq![put], ops);
    let mid = apply_ops(db, seq![put]);
    assert(seq![put].drop_last() =~= Seq::<Op>::empty());
    assert(apply_ops(db, seq![put].drop_last()) == db);
    assert(mid == crate::storage::store::apply_op(db, put));
    assert(mid[c] == m.insert(key, hash@));
    let after = apply_ops(mid, ops)[c];
    match (prune_before(mode, block), mode) {
        (Some(before), TriePruneMode::Prune { num_blocks_kept }) => {
            let gone = |k: Seq<u8>|
                run_deleted(m, state_hash_key(before, contract), contract@, num_blocks_kept > 0, k);
            lemma_deletes_exactly(mid, ops, c, gone);
            if gone(key) {
                lemma_run_is_history(m, before, contract, key);
                let b = choose|b: u64|
                    b <= before && #[trigger] history(m, contract).contains_key(b) && key
                        == state_hash_key(b, contract);
                lemma_key_order(block, b, contract);
            }
        },
        _ => {
            assert(apply_ops(mid, ops) == mid);
        },
    }
    let h = history(after, contract);
    assert(h.contains_key(block) && h[block] == hash@);
    assert(is_floor(h, block, block));
    lemma_floor(h, block, block);
}

/// The pruning that goes with a block keeps what a lookup at any block that is kept gives: nothing is
/// pruned where all history is kept, or where no more blocks than are kept were stored. Where no
/// history is kept, every entry up to the block goes. Other columns are left alone.
pub proof fn law_kept_state_hashes_are_found(
    db: Contents,
    block: u64,
    contract: Felt,
    mode: TriePruneMode,
    ops: Seq<Op>,
    b: u64,
    d: Column,
)
    requires
        keys_well_formed(db[Column::ContractStateHashes], contract),
        state_hash_prune(db[Column::ContractStateHashes], block, contract, mode, ops),
    ensures
        ({
            let before = history(db[Column::ContractStateHashes], contract);
            let after = history(apply_ops(db, ops)[Column::ContractStateHashes], contract);
            &&& match mode {
                TriePruneMode::Archive => ops.len() == 0,
                TriePruneMode::Prune { num_blocks_kept } => {
                    &&& num_blocks_kept > block ==> ops.len() == 0
                    &&& num_blocks_kept > 0 && b + num_blocks_kept >= block ==> value_at(after, b)
                        == value_at(before, b)
                    &&& num_blocks_kept == 0 ==> (after.contains_key(b) <==> before.contains_key(b)
                        && b > block)
                },
            }
            &&& after.contains_key(b) ==> before.contains_key(b) && after[b] == before[b]
            &&& d != Column::ContractStateHashes ==> apply_ops(db, ops)[d] == db[d]
        }),
{
    let c = Column::ContractStateHashes;
    let m = db[c];
    match (prune_before(mode, block), mode) {
        (Some(before), TriePruneMode::Prune { num_blocks_kept }) => {
            let gone = |k: Seq<u8>|
                run_deleted(m, state_hash_key(before, contract), contract@, num_blocks_kept > 0, k);
            lemma_deletes_exactly(db, ops, c, gone);
            law_state_hash_pruning(m, before, contract, num_blocks_kept > 0);
            if num_blocks_kept > 0 && b >= before {
                law_history_needed_is_kept(history(m, contract), before, b);
            }
        },
        _ => {
            assert(apply_ops(db, ops) == db);
        },
    }
}

} // verus!
