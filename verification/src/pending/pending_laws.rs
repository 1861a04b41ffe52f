//! What pending data has of the blocks that it was made from, and how it is found in it.
use std::sync::Arc;
use vstd::prelude::*;

use crate::felt::Felt;
use crate::pending::blocks::{
    blank_header, is_blank_block, is_empty_block_on, pre_confirmed_header_of, pre_latest_header_of,
    BlockHeader, GatewayBlock, PreConfirmedBlock, PreLatestBlock, StateUpdate, Status, Transaction,
};
use crate::pending::compose::{
    composed, lemma_first_with_hash, lemma_receipt_hashes, receipt_hashes, select,
};
use crate::pending::data;
use crate::pending::poll::{
    changes, distance, is_merged, is_planned, is_poll_outcome, HeldView, PollAction, PollPlan,
    PreConfirmedPollResponse,
};
use crate::pending::pre_confirmed;
use crate::pending::watcher::{header_or_blank, is_validated, knows_pre_confirmed, RpcVersion};
use crate::shared::present;
use crate::state_apply::law_changes_associate;
use crate::state_update::{empty_change, StateUpdateData};
use crate::text::{hex_of, law_hex_is_read_back};

verus! {

/// The changes of transactions are put together in order: those of two lists are those of the first
/// and then those of the second, and those of one transaction are its own.
pub proof fn law_changes_are_composed_in_order(
    a: Seq<Arc<StateUpdateData>>,
    b: Seq<Arc<StateUpdateData>>,
    d: Arc<StateUpdateData>,
)
    ensures
        composed(a + b) == composed(a).then_change(composed(b)),
        composed(seq![d]) == d@,
        composed(Seq::empty()) == empty_change(),
{
    let one = seq![d];
    assert(one.drop_last() =~= Seq::<Arc<StateUpdateData>>::empty());
    assert(composed(one.drop_last()) == empty_change());
    assert(one.last() == d);
    crate::state_apply::lemma_nothing_then(d@);
    lemma_composed_concat(a, b);
}

proof fn lemma_composed_concat(a: Seq<Arc<StateUpdateData>>, b: Seq<Arc<StateUpdateData>>)
    ensures
        composed(a + b) == composed(a).then_change(composed(b)),
    decreases b.len(),
{
    if b.len() == 0 {
        assert(a + b =~= a);
        lemma_then_nothing(composed(a));
    } else {
        lemma_composed_concat(a, b.drop_last());
        assert((a + b).drop_last() =~= a + b.drop_last());
        assert((a + b).last() == b.last());
        law_changes_associate(composed(a), composed(b.drop_last()), b.last()@);
    }
}

proof fn lemma_then_nothing(c: crate::state_update::StateChange)
    ensures
        c.then_change(empty_change()) == c,
{
    let e = empty_change();
    assert(c.then_change(e).contracts =~= c.contracts);
    assert(c.then_change(e).systems =~= c.systems);
    assert(c.then_change(e).cairo =~= c.cairo);
    assert(c.then_change(e).sierra =~= c.sierra);
    assert(c.then_change(e).migrated =~= c.migrated);
}

/// Of two lists, the transactions selected are those of the first and then those of the second; one
/// transaction is selected where its hash is among the hashes, or where it is not.
pub proof fn law_selected_in_order(
    a: Seq<Arc<Transaction>>,
    b: Seq<Arc<Transaction>>,
    hashes: Set<Felt>,
    inside: bool,
    tx: Arc<Transaction>,
)
    ensures
        select(a + b, hashes, inside) == select(a, hashes, inside) + select(b, hashes, inside),
        hashes.contains(tx.hash) == inside ==> select(seq![tx], hashes, inside) == seq![tx],
        hashes.contains(tx.hash) != inside ==> select(seq![tx], hashes, inside).len() == 0,
    decreases b.len(),
{
    let one = seq![tx];
    assert(one.drop_last() =~= Seq::<Arc<Transaction>>::empty());
    assert(select(one.drop_last(), hashes, inside) == Seq::<Arc<Transaction>>::empty());
    if hashes.contains(tx.hash) == inside {
        assert(select(one, hashes, inside) =~= one);
    }
    if b.len() == 0 {
        assert(a + b =~= a);
        assert(select(a, hashes, inside) + select(b, hashes, inside) =~= select(a, hashes, inside));
    } else {
        law_selected_in_order(a, b.drop_last(), hashes, inside, tx);
        assert((a + b).drop_last() =~= a + b.drop_last());
        assert((a + b).last() == b.last());
        assert(select(a + b, hashes, inside) =~= select(a, hashes, inside) + select(
            b,
            hashes,
            inside,
        ));
    }
}

/// Pending data has the prices, the sequencer, the time, the version and the transactions of the
/// blocks that it was converted from, under their numbers, and their receipts and state changes.
pub proof fn law_converted_data_keeps_the_blocks(
    d: data::PendingData,
    b: GatewayBlock,
    number: u64,
    pre_latest: Option<data::PreLatestReply>,
)
    requires
        data::is_pending_data_for(d, b, number, pre_latest),
    ensures
        ({
            let p = *d.blocks.pre_confirmed;
            &&& d.number == number
            &&& p.number == number
            &&& p.status == Status::PreConfirmed
            &&& p.l1_gas_price == b.l1_gas_price
            &&& p.l1_data_gas_price == b.l1_data_gas_price
            &&& p.l2_gas_price == b.l2_gas_price
            &&& p.sequencer_address == b.sequencer_address
            &&& p.timestamp == b.timestamp
            &&& p.starknet_version == b.starknet_version
            &&& p.l1_da_mode == b.l1_da_mode
            &&& p.transactions@ == b.transactions@
            &&& p.transaction_receipts@ == present(b.transaction_receipts@)
            &&& d.state_update.data@ == composed(present(b.transaction_state_diffs@))
        }),
        pre_latest is None ==> d.blocks.pre_latest is None && d.aggregated_state_update.data@
            == d.state_update.data@,
        pre_latest matches Some(reply) ==> (d.blocks.pre_latest matches Some(settled) && {
            let q = *settled.block;
            let r = *reply.block;
            &&& q.number == reply.number
            &&& q.parent_hash == reply.parent_hash
            &&& q.status == Status::Pending
            &&& q.l1_gas_price == r.l1_gas_price
            &&& q.l1_data_gas_price == r.l1_data_gas_price
            &&& q.l2_gas_price == r.l2_gas_price
            &&& q.sequencer_address == r.sequencer_address
            &&& q.timestamp == r.timestamp
            &&& q.starknet_version == r.starknet_version
            &&& q.l1_da_mode == r.l1_da_mode
            &&& q.transactions@ == r.transactions@
            &&& q.transaction_receipts@ == present(r.transaction_receipts@)
            &&& settled.state_update.data@ == composed(present(r.transaction_state_diffs@))
            &&& d.aggregated_state_update.data@ == composed(
                present(r.transaction_state_diffs@) + present(b.transaction_state_diffs@),
            )
        }),
{
    if let Some(reply) = pre_latest {
        let x = present(reply.block.transaction_state_diffs@);
        let y = present(b.transaction_state_diffs@);
        lemma_composed_concat(x, y);
    }
}

/// A block is converted exactly where each of its transactions has a receipt and there are as many
/// receipts as transactions. A transaction that is named as lacking one does.
pub proof fn law_only_receipted_blocks_are_converted(b: GatewayBlock)
    ensures
        ({
            let receipts = present(b.transaction_receipts@);
            let receipted = |i: int|
                exists|j: int|
                    0 <= j < receipts.len() && (#[trigger] receipts[j]).receipt.transaction_hash
                        == b.transactions@[i].hash;
            &&& data::receipts_flaw(b) is None <==> receipts.len() == b.transactions@.len() && (
            forall|i: int| 0 <= i < b.transactions@.len() ==> #[trigger] receipted(i))
            &&& data::receipts_flaw(b) == Some(data::ConversionError::MismatchedCount) ==> (
            forall|i: int| 0 <= i < b.transactions@.len() ==> #[trigger] receipted(i))
            &&& data::receipts_flaw(b) matches Some(data::ConversionError::MissingReceipt(hash))
                ==> exists|i: int|
                0 <= i < b.transactions@.len() && #[trigger] b.transactions@[i].hash == hash
                    && !receipted(i) && forall|k: int| 0 <= k < i ==> #[trigger] receipted(k)
        }),
{
    let receipts = present(b.transaction_receipts@);
    let hashes = receipt_hashes(receipts);
    let receipted = |i: int|
        exists|j: int|
            0 <= j < receipts.len() && (#[trigger] receipts[j]).receipt.transaction_hash
                == b.transactions@[i].hash;
    data::lemma_first_outside(b.transactions@, hashes);
    assert forall|i: int| 0 <= i < b.transactions@.len() implies (#[trigger] receipted(i)
        <==> hashes.contains(b.transactions@[i].hash)) by {
        lemma_receipt_hashes(receipts, b.transactions@[i].hash);
    }
    if let Some(i) = data::first_outside(b.transactions@, hashes) {
        assert(!receipted(i));
    }
}

/// Pending data with candidates has the same of the blocks that it was converted from; the
/// transactions with receipts are executed, and the others are candidates.
pub proof fn law_converted_data_tells_candidates_apart(
    d: pre_confirmed::PendingData,
    b: GatewayBlock,
    number: u64,
    pre_latest: Option<pre_confirmed::PreLatestReply>,
    tx: Arc<Transaction>,
)
    requires
        pre_confirmed::is_pending_data_for(d, b, number, pre_latest),
    ensures
        ({
            let p = d.blocks.pre_confirmed;
            &&& d.number == number
            &&& p.number == number
            &&& p.status == Status::PreConfirmed
            &&& p.l1_gas_price == b.l1_gas_price
            &&& p.l1_data_gas_price == b.l1_data_gas_price
            &&& p.l2_gas_price == b.l2_gas_price
            &&& p.sequencer_address == b.sequencer_address
            &&& p.timestamp == b.timestamp
            &&& p.starknet_version == b.starknet_version
            &&& p.l1_da_mode == b.l1_da_mode
            &&& p.transaction_receipts@ == present(b.transaction_receipts@)
            &&& d.state_update.data@ == composed(present(b.transaction_state_diffs@))
            &&& p.transactions@.contains(tx) <==> b.transactions@.contains(tx) && exists|j: int|
                0 <= j < present(b.transaction_receipts@).len() && (#[trigger] present(
                    b.transaction_receipts@,
                )[j]).receipt.transaction_hash == tx.hash
            &&& d.blocks.candidate_transactions@.contains(tx) <==> b.transactions@.contains(tx) && !(
            exists|j: int|
                0 <= j < present(b.transaction_receipts@).len() && (#[trigger] present(
                    b.transaction_receipts@,
                )[j]).receipt.transaction_hash == tx.hash)
        }),
        pre_latest is None ==> d.blocks.pre_latest is None && d.aggregated_state_update.data@
            == d.state_update.data@,
        pre_latest matches Some(reply) ==> (d.blocks.pre_latest matches Some(settled) && {
            let q = *settled.block;
            let r = reply.block;
            &&& q.number == reply.number
            &&& q.parent_hash == r.parent_hash
            &&& q.status == Status::Pending
            &&& q.l1_gas_price == r.l1_gas_price
            &&& q.l1_data_gas_price == r.l1_data_gas_price
            &&& q.l2_gas_price == r.l2_gas_price
            &&& q.sequencer_address == r.sequencer_address
            &&& q.timestamp == r.timestamp
            &&& q.starknet_version == r.starknet_version
            &&& q.l1_da_mode == r.l1_da_mode
            &&& q.transactions == r.transactions
            &&& q.transaction_receipts == r.transaction_receipts
            &&& *settled.state_update == reply.state_update
            &&& d.aggregated_state_update.data@ == reply.state_update.data@.then_change(
                d.state_update.data@,
            )
        }),
{
    let receipts = present(b.transaction_receipts@);
    let hashes = receipt_hashes(receipts);
    lemma_receipt_hashes(receipts, tx.hash);
    pre_confirmed::lemma_selected(b.transactions@, hashes, true, tx);
    pre_confirmed::lemma_selected(b.transactions@, hashes, false, tx);
}

/// A transaction that is found has the hash asked for, and is of the pre-confirmed block where that
/// has one, a candidate where there is one and the block has none, and of the pre-latest block
/// otherwise. Nothing is found only where none of them has one.
pub proof fn law_found_transaction_is_the_one_asked_for(b: pre_confirmed::PendingBlocks, hash: Felt)
    ensures
        ({
            let executed = b.pre_confirmed.transactions@;
            let candidates = b.candidate_transactions@;
            let among = |txs: Seq<Arc<Transaction>>|
                exists|i: int| 0 <= i < txs.len() && (#[trigger] txs[i]).hash == hash;
            match pre_confirmed::found_transaction(b, hash) {
                Some(tx) => tx.hash == hash && {
                    ||| executed.contains(tx)
                    ||| !among(executed) && candidates.contains(tx)
                    ||| !among(executed) && !among(candidates) && (b.pre_latest matches Some(settled)
                        && settled.block.transactions@.contains(tx))
                },
                None => !among(executed) && !among(candidates) && (b.pre_latest matches Some(settled)
                    ==> !among(settled.block.transactions@)),
            }
        }),
{
    lemma_first_with_hash(b.pre_confirmed.transactions@, hash);
    lemma_first_with_hash(b.candidate_transactions@, hash);
    if let Some(settled) = b.pre_latest {
        lemma_first_with_hash(settled.block.transactions@, hash);
    }
}

/// The header of a block has the prices of the block in both currencies, its time, its sequencer,
/// its version and where its data is; that of a settled block has its number and its parent too.
pub proof fn law_header_tells_of_the_block(p: PreConfirmedBlock, q: PreLatestBlock, number: u64)
    ensures
        ({
            let h = pre_confirmed_header_of(p, number);
            &&& h.number == number
            &&& h.timestamp == p.timestamp
            &&& h.eth_l1_gas_price == p.l1_gas_price.price_in_wei
            &&& h.strk_l1_gas_price == p.l1_gas_price.price_in_fri
            &&& h.eth_l1_data_gas_price == p.l1_data_gas_price.price_in_wei
            &&& h.strk_l1_data_gas_price == p.l1_data_gas_price.price_in_fri
            &&& h.eth_l2_gas_price == p.l2_gas_price.price_in_wei
            &&& h.strk_l2_gas_price == p.l2_gas_price.price_in_fri
            &&& h.sequencer_address == p.sequencer_address
            &&& h.starknet_version == p.starknet_version
            &&& h.l1_da_mode == p.l1_da_mode
            &&& h.hash == Felt::zero()
            &&& h.parent_hash == Felt::zero()
            &&& h.state_commitment == Felt::zero()
        }),
        ({
            let h = pre_latest_header_of(q);
            &&& h.number == q.number
            &&& h.parent_hash == q.parent_hash
            &&& h.timestamp == q.timestamp
            &&& h.eth_l1_gas_price == q.l1_gas_price.price_in_wei
            &&& h.strk_l1_gas_price == q.l1_gas_price.price_in_fri
            &&& h.eth_l1_data_gas_price == q.l1_data_gas_price.price_in_wei
            &&& h.strk_l1_data_gas_price == q.l1_data_gas_price.price_in_fri
            &&& h.eth_l2_gas_price == q.l2_gas_price.price_in_wei
            &&& h.strk_l2_gas_price == q.l2_gas_price.price_in_fri
            &&& h.sequencer_address == q.sequencer_address
            &&& h.starknet_version == q.starknet_version
            &&& h.l1_da_mode == q.l1_da_mode
            &&& h.hash == Felt::zero()
            &&& h.state_commitment == Felt::zero()
        }),
{
}

/// An empty block on top of another has a header with the prices, the time, the sequencer and the
/// version of the other, one number higher.
pub proof fn law_empty_block_continues_the_latest(p: PreConfirmedBlock, latest: BlockHeader)
    requires
        is_empty_block_on(p, latest),
    ensures
        ({
            let h = pre_confirmed_header_of(p, p.number);
            &&& h.number == latest.number + 1
            &&& h.timestamp == latest.timestamp
            &&& h.eth_l1_gas_price == latest.eth_l1_gas_price
            &&& h.strk_l1_gas_price == latest.strk_l1_gas_price
            &&& h.eth_l1_data_gas_price == latest.eth_l1_data_gas_price
            &&& h.strk_l1_data_gas_price == latest.strk_l1_data_gas_price
            &&& h.eth_l2_gas_price == latest.eth_l2_gas_price
            &&& h.strk_l2_gas_price == latest.strk_l2_gas_price
            &&& h.sequencer_address == latest.sequencer_address
            &&& h.starknet_version == latest.starknet_version
            &&& h.l1_da_mode == latest.l1_da_mode
            &&& p.transactions@.len() == 0
            &&& p.transaction_receipts@.len() == 0
            &&& p.status == Status::PreConfirmed
        }),
{
}

/// What is new on top of the view that is held is added at its end, receipts and state changes with
/// it, and the rest of the view stays; anything else that is new on top of some view changes
/// nothing. A whole block takes the place of what is held, under the height polled for.
pub proof fn law_answers_build_up_the_view(
    before: Option<HeldView>,
    target: u64,
    response: PreConfirmedPollResponse,
    after: Option<HeldView>,
)
    requires
        is_merged(before, target, response, after),
    ensures
        match response {
            PreConfirmedPollResponse::Unchanged => after == before && !changes(
                before,
                target,
                response,
            ),
            PreConfirmedPollResponse::Delta {
                identifier,
                new_transactions,
                new_receipts,
                new_state_diffs,
            } => match before {
                Some(v) => if v.number == target && v.identifier@ == identifier@
                    && new_transactions@.len() > 0 {
                    &&& changes(before, target, response)
                    &&& after matches Some(w) && {
                        &&& w.number == target
                        &&& w.identifier@ == identifier@
                        &&& w.block.transactions@ == v.block.transactions@ + new_transactions@
                        &&& w.block.transaction_receipts@ == v.block.transaction_receipts@
                            + new_receipts@
                        &&& w.block.transaction_state_diffs@ == v.block.transaction_state_diffs@
                            + new_state_diffs@
                        &&& w.block.l1_gas_price == v.block.l1_gas_price
                        &&& w.block.l1_data_gas_price == v.block.l1_data_gas_price
                        &&& w.block.l2_gas_price == v.block.l2_gas_price
                        &&& w.block.sequencer_address == v.block.sequencer_address
                        &&& w.block.timestamp == v.block.timestamp
                        &&& w.block.starknet_version == v.block.starknet_version
                        &&& w.block.l1_da_mode == v.block.l1_da_mode
                    }
                } else {
                    after == before && !changes(before, target, response)
                },
                None => after is None && !changes(before, target, response),
            },
            PreConfirmedPollResponse::Full { identifier, block, .. } => {
                &&& after matches Some(w) && w.number == target && w.identifier == identifier && w.block
                    == block
                &&& before is None ==> changes(before, target, response)
                &&& before matches Some(v) ==> (changes(before, target, response) <==> !(v.number
                    == target && v.identifier@ == identifier@ && block.transactions@.len()
                    <= v.block.transactions@.len()))
            },
        },
{
}

/// New data is published exactly where the settled block came whole, the view above it changed, and
/// the blocks can be converted; it is then what those blocks are converted to. Without a settled
/// block nothing changes.
pub proof fn law_poll_publishes_what_changed(
    before: Option<HeldView>,
    committed: u64,
    committed_hash: Felt,
    pre_latest: Option<PreConfirmedPollResponse>,
    pre_confirmed: Option<PreConfirmedPollResponse>,
    after: Option<HeldView>,
    action: PollAction,
)
    requires
        committed + 2 <= u64::MAX,
        is_poll_outcome(
            before,
            committed,
            committed_hash,
            pre_latest,
            pre_confirmed,
            after,
            action,
        ),
    ensures
        match pre_latest {
            Some(PreConfirmedPollResponse::Full { block, .. }) => match pre_confirmed {
                Some(response) => {
                    let reply = data::PreLatestReply {
                        number: (committed + 1) as u64,
                        block: Arc::new(block),
                        parent_hash: committed_hash,
                    };
                    let height = (committed + 2) as u64;
                    &&& is_merged(before, height, response, after)
                    &&& action is Publish <==> changes(before, height, response)
                        && data::conversion_flaw(after->0.block, Some(reply)) is None
                    &&& action matches PollAction::Publish(d) ==> data::is_pending_data_for(
                        d,
                        after->0.block,
                        height,
                        Some(reply),
                    )
                },
                None => {
                    &&& after matches Some(w) && w.number == committed + 1 && w.block == block
                    &&& action matches PollAction::Publish(d) ==> data::is_pending_data_for(
                        d,
                        block,
                        (committed + 1) as u64,
                        None,
                    )
                    &&& before is None && data::receipts_flaw(block) is None ==> action is Publish
                },
            },
            _ => after == before && action is MarkFresh,
        },
{
}

/// Two heights are at most so far apart where neither is that much above the other.
pub proof fn law_distance_is_symmetric(a: u64, b: u64, t: int)
    ensures
        distance(a, b) <= t <==> a <= b + t && b <= a + t,
{
}

/// What is handed out of cached data: both blocks where the pre-latest one is the child of the
/// latest stored block; the pre-confirmed block alone where it is the child itself, or where the
/// pre-latest one is the latest stored block; and otherwise nothing of the cached data. The lowest
/// block starts from the state of the latest stored block.
pub proof fn law_validated_data_is_cached_data(
    d: data::PendingData,
    cached: data::PendingData,
    latest: BlockHeader,
)
    requires
        is_validated(d, cached, latest),
    ensures
        match cached.blocks.pre_latest {
            Some(settled) => if settled.block.number == latest.number + 1 {
                &&& d.blocks.pre_confirmed == cached.blocks.pre_confirmed
                &&& d.number == cached.blocks.pre_confirmed.number
                &&& d.state_update == cached.state_update
                &&& d.aggregated_state_update == cached.aggregated_state_update
                &&& d.blocks.pre_latest matches Some(p) && p.block == settled.block
                    && p.state_update.data == settled.state_update.data
                    && p.state_update.parent_state_commitment == latest.state_commitment
            } else if settled.block.number == latest.number {
                &&& d.blocks.pre_confirmed == cached.blocks.pre_confirmed
                &&& d.number == cached.blocks.pre_confirmed.number
                &&& d.blocks.pre_latest is None
                &&& d.state_update.data == cached.state_update.data
                &&& d.aggregated_state_update.data == cached.state_update.data
                &&& d.state_update.parent_state_commitment == latest.state_commitment
            } else {
                &&& d.blocks.pre_confirmed.transactions@.len() == 0
                &&& d.blocks.pre_latest is None
                &&& d.state_update.data@ == empty_change()
                &&& d.number == latest.number + 1
            },
            None => if cached.blocks.pre_confirmed.number == latest.number + 1 {
                &&& d.blocks == cached.blocks
                &&& d.number == cached.blocks.pre_confirmed.number
                &&& d.state_update.data == cached.state_update.data
                &&& d.aggregated_state_update.data == cached.state_update.data
                &&& d.state_update.parent_state_commitment == latest.state_commitment
            } else {
                &&& d.blocks.pre_confirmed.transactions@.len() == 0
                &&& d.blocks.pre_latest is None
                &&& d.state_update.data@ == empty_change()
                &&& d.number == latest.number + 1
            },
        },
{
}

/// The state updates of converted blocks name no block and no state, as neither is settled; the sum
/// of a pre-confirmed block and the one below it starts from the state that the latter starts from,
/// where that is told.
pub proof fn law_converted_updates_name_no_block(
    d: data::PendingData,
    e: pre_confirmed::PendingData,
    b: GatewayBlock,
    number: u64,
    below_d: Option<data::PreLatestReply>,
    below_e: Option<pre_confirmed::PreLatestReply>,
)
    requires
        data::is_pending_data_for(d, b, number, below_d),
        pre_confirmed::is_pending_data_for(e, b, number, below_e),
    ensures
        ({
            let unnamed = |u: StateUpdate|
                u.block_hash == Felt::zero() && u.state_commitment == Felt::zero();
            &&& unnamed(*d.state_update) && d.state_update.parent_state_commitment == Felt::zero()
            &&& unnamed(*e.state_update) && e.state_update.parent_state_commitment == Felt::zero()
            &&& unnamed(*d.aggregated_state_update)
            &&& unnamed(*e.aggregated_state_update)
            &&& d.aggregated_state_update.parent_state_commitment == Felt::zero()
            &&& below_e is None ==> e.aggregated_state_update.parent_state_commitment == Felt::zero()
            &&& below_e matches Some(reply) ==> e.aggregated_state_update.parent_state_commitment
                == reply.state_update.parent_state_commitment
        }),
{
}

/// Blank data is empty: its block has no transactions, no price, no time and no number, and its
/// updates change nothing.
pub proof fn law_blank_data_is_empty(b: PreConfirmedBlock, u: StateUpdate, address: Felt)
    requires
        is_blank_block(b),
        pre_confirmed::bare_update(u, empty_change()),
    ensures
        ({
            let h = pre_confirmed_header_of(b, b.number);
            &&& h == blank_header()
            &&& h.number == 0
            &&& h.timestamp == 0
            &&& h.hash == Felt::zero()
            &&& h.parent_hash == Felt::zero()
            &&& h.state_commitment == Felt::zero()
            &&& h.sequencer_address == Felt::zero()
            &&& h.eth_l1_gas_price == 0
            &&& h.strk_l1_gas_price == 0
            &&& h.eth_l1_data_gas_price == 0
            &&& h.strk_l1_data_gas_price == 0
            &&& h.eth_l2_gas_price == 0
            &&& h.strk_l2_gas_price == 0
            &&& h.l1_da_mode is Calldata
            &&& h.transaction_count == 0
            &&& h.event_count == 0
            &&& b.transactions@.len() == 0
            &&& b.transaction_receipts@.len() == 0
            &&& b.status is NotReceived
            &&& !u.data@.contracts.contains_key(address)
            &&& u.block_hash == Felt::zero()
            &&& u.state_commitment == Felt::zero()
        }),
{
}

/// The versions from 0.9 on, and the node's own interface, know the pre-confirmed block; those
/// before do not.
pub proof fn law_versions_that_know_the_pre_confirmed_block(v: RpcVersion)
    ensures
        knows_pre_confirmed(v) <==> v is V09 || v is V10 || v is PathfinderV01,
{
}

/// What is stored last counts as the latest block, and a blank one where nothing is.
pub proof fn law_latest_block_may_be_blank(latest: Option<BlockHeader>)
    ensures
        latest matches Some(h) ==> header_or_blank(latest) == h,
        latest is None ==> header_or_blank(latest).number == 0 && header_or_blank(
            latest,
        ).state_commitment == Felt::zero(),
{
}

/// The texts of two conversion errors are the same only where the errors are: a missing receipt is
/// told by the hash of its transaction.
pub proof fn law_conversion_errors_are_told_apart(a: data::ConversionError, b: data::ConversionError)
    ensures
        data::conversion_error_text(a) == data::conversion_error_text(b) ==> a == b,
{
    reveal_strlit("Missing transaction receipt for tx (0x");
    reveal_strlit("Mismatched transaction and receipt count in pre-confirmed block");
    let lead = "Missing transaction receipt for tx (0x"@;
    let other = "Mismatched transaction and receipt count in pre-confirmed block"@;
    assert(lead[3] == 's' && other[3] == 'm');
    let (s, t) = (data::conversion_error_text(a), data::conversion_error_text(b));
    if s == t {
        assert(s[3] == t[3]);
        if let (data::ConversionError::MissingReceipt(x), data::ConversionError::MissingReceipt(y)) = (a, b) {
            Felt::lemma_view_injective(x, y);
            Felt::lemma_view_injective(y, x);
            law_hex_is_read_back(x@);
            law_hex_is_read_back(y@);
            let n = lead.len() as int;
            assert(s.subrange(n, n + 64) =~= hex_of(x@));
            assert(t.subrange(n, n + 64) =~= hex_of(y@));
            assert forall|i: int| 0 <= i < 32 implies x@[i] == y@[i] by {
                assert(hex_of(x@)[2 * i] == hex_of(y@)[2 * i]);
                assert(hex_of(x@)[2 * i + 1] == hex_of(y@)[2 * i + 1]);
            }
            assert(x@ =~= y@);
        }
    }
}

/// A poll fetches the two blocks above the committed one, and nothing where the head is further off
/// than the threshold, on either side. What it asks for of the upper block is what is new to the
/// view held: an answer under the same identifier is added to the view, which then has as many
/// transactions as it had by the cursor and as came with the answer. Without a view at that height
/// the whole block is asked for.
pub proof fn law_poll_asks_for_what_is_new(
    held: Option<HeldView>,
    committed: u64,
    latest: u64,
    threshold: u64,
    plan: PollPlan,
    response: PreConfirmedPollResponse,
    after: Option<HeldView>,
)
    requires
        committed + 2 <= u64::MAX,
        is_planned(held, committed, latest, threshold, plan),
        is_merged(held, (committed + 2) as u64, response, after),
    ensures
        plan is Syncing <==> latest > committed + threshold || committed > latest + threshold,
        plan matches PollPlan::Fetch { pre_latest_height, pre_confirmed_height, cursor_id, cursor_count } ==> {
            &&& pre_latest_height == committed + 1
            &&& pre_confirmed_height == pre_latest_height + 1
            &&& cursor_id is Some <==> (held matches Some(v) && v.number == pre_confirmed_height)
            &&& cursor_id is None ==> cursor_count == 0
            &&& cursor_id matches Some(id) ==> response matches PreConfirmedPollResponse::Delta {
                identifier,
                new_transactions,
                ..
            } ==> identifier@ == id@ && new_transactions@.len() > 0 ==> (after matches Some(w)
                && w.number == pre_confirmed_height && w.block.transactions@.len() == cursor_count
                + new_transactions@.len())
        },
{
    law_answers_build_up_the_view(held, (committed + 2) as u64, response, after);
}

/// The receipts of a block match exactly where the data made of it has as many receipts as executed
/// transactions; a block without transactions and receipts does.
pub proof fn law_matching_receipts_are_as_many_as_transactions(
    d: pre_confirmed::PendingData,
    b: GatewayBlock,
    number: u64,
    pre_latest: Option<pre_confirmed::PreLatestReply>,
)
    requires
        pre_confirmed::is_pending_data_for(d, b, number, pre_latest),
    ensures
        pre_confirmed::receipts_match(b) <==> d.blocks.pre_confirmed.transactions@.len()
            == d.blocks.pre_confirmed.transaction_receipts@.len(),
        b.transactions@.len() == 0 && b.transaction_receipts@.len() == 0
            ==> pre_confirmed::receipts_match(b),
{
}

} // verus!
