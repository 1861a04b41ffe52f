//! Keeping up with the block that is being built: what to ask the gateway for, and what to make of
//! its answers.
use std::sync::Arc;
use vstd::prelude::*;

use crate::felt::Felt;
use crate::pending::blocks::{
    GatewayBlock, Transaction, TxnReceiptAndEvents, MAX_BLOCK_NUMBER,
};
use crate::pending::data::{conversion_flaw, is_pending_data_for, PendingData, PreLatestReply};
use crate::state_update::StateUpdateData;

verus! {

/// The pre-confirmed block we're building up, kept between polls so the gateway can send just the
/// new transactions each time instead of the whole block.
#[derive(Debug)]
pub struct HeldView {
    /// The pre-confirmed height this view is for.
    pub number: u64,
    /// The gateway's id for the view we're holding.
    pub identifier: String,
    /// The block we've merged so far, at height `number`.
    pub block: GatewayBlock,
}

impl HeldView {
    pub fn tx_count(&self) -> (r: u64)
        ensures
            r == self.block.transactions@.len(),
    {
        self.block.transactions.len() as u64
    }
}

/// An answer of the gateway.
#[derive(Debug)]
pub enum PreConfirmedPollResponse {
    /// Nothing is new.
    Unchanged,
    /// What is new on top of the view with this identifier.
    Delta {
        identifier: String,
        new_transactions: Vec<Arc<Transaction>>,
        new_receipts: Vec<Option<Arc<TxnReceiptAndEvents>>>,
        new_state_diffs: Vec<Option<Arc<StateUpdateData>>>,
    },
    /// The whole block.
    Full { identifier: String, block_number: Option<u64>, block: GatewayBlock },
}

/// A cursor names the view that is held for a height and the number of its transactions, where one
/// is held.
pub open spec fn is_cursor(
    held: Option<HeldView>,
    height: u64,
    id: Option<String>,
    count: u64,
) -> bool {
    match held {
        Some(t) => if t.number == height {
            id == Some(t.identifier) && count == t.block.transactions@.len()
        } else {
            id is None && count == 0
        },
        None => id is None && count == 0,
    }
}

/// What we already have at `height`: our id and tx count if we're holding it, or empty to fetch the
/// whole block.
pub fn delta_cursor(held: &Option<HeldView>, height: u64) -> (r: (Option<String>, u64))
    ensures
        is_cursor(*held, height, r.0, r.1),
{
    match held {
        Some(t) => if t.number == height {
            (Some(t.identifier.clone()), t.tx_count())
        } else {
            (None, 0)
        },
        None => (None, 0),
    }
}

/// A view that is held for a height, under an identifier.
pub open spec fn holds(held: Option<HeldView>, height: u64, identifier: Seq<char>) -> bool {
    held matches Some(t) && t.number == height && t.identifier@ == identifier
}

/// A block with transactions added at its end.
pub open spec fn is_extended(
    after: GatewayBlock,
    before: GatewayBlock,
    transactions: Seq<Arc<Transaction>>,
    receipts: Seq<Option<Arc<TxnReceiptAndEvents>>>,
    diffs: Seq<Option<Arc<StateUpdateData>>>,
) -> bool {
    &&& after.transactions@ == before.transactions@ + transactions
    &&& after.transaction_receipts@ == before.transaction_receipts@ + receipts
    &&& after.transaction_state_diffs@ == before.transaction_state_diffs@ + diffs
    &&& after == GatewayBlock {
        transactions: after.transactions,
        transaction_receipts: after.transaction_receipts,
        transaction_state_diffs: after.transaction_state_diffs,
        ..before
    }
}

/// Whether an answer changes the view that is published.
pub open spec fn changes(
    held: Option<HeldView>,
    target: u64,
    response: PreConfirmedPollResponse,
) -> bool {
    match response {
        PreConfirmedPollResponse::Unchanged => false,
        PreConfirmedPollResponse::Delta { identifier, new_transactions, .. } => holds(
            held,
            target,
            identifier@,
        ) && new_transactions@.len() > 0,
        PreConfirmedPollResponse::Full { identifier, block, .. } => match held {
            Some(t) => t.number != target || t.identifier@ != identifier@
                || block.transactions@.len() > t.block.transactions@.len(),
            None => true,
        },
    }
}

/// The view after an answer.
pub open spec fn is_merged(
    before: Option<HeldView>,
    target: u64,
    response: PreConfirmedPollResponse,
    after: Option<HeldView>,
) -> bool {
    match response {
        PreConfirmedPollResponse::Unchanged => after == before,
        PreConfirmedPollResponse::Delta {
            identifier,
            new_transactions,
            new_receipts,
            new_state_diffs,
        } => if changes(before, target, response) {
            &&& after matches Some(t) && t.number == before->0.number && t.identifier
                == before->0.identifier && is_extended(
                t.block,
                before->0.block,
                new_transactions@,
                new_receipts@,
                new_state_diffs@,
            )
        } else {
            after == before
        },
        PreConfirmedPollResponse::Full { identifier, block, .. } => after == Some(
            HeldView { number: target, identifier, block },
        ),
    }
}

/// Merge a poll response into the held view at `target`. Returns `true` when the published view
/// should be refreshed.
///
/// A delta only applies on top of the exact view it was computed from, so the height and identifier
/// have to match. A full response can repeat the view we already have: only a new identifier or more
/// transactions are a real change.
pub fn apply(
    held: &mut Option<HeldView>,
    target: u64,
    response: PreConfirmedPollResponse,
) -> (r: bool)
    ensures
        r == changes(*old(held), target, response),
        is_merged(*old(held), target, response, *final(held)),
{
    match response {
        PreConfirmedPollResponse::Unchanged => false,
        PreConfirmedPollResponse::Delta {
            identifier,
            new_transactions,
            new_receipts,
            new_state_diffs,
        } => {
            let mut new_transactions = new_transactions;
            let mut new_receipts = new_receipts;
            let mut new_state_diffs = new_state_diffs;
            match held.take() {
                None => false,
                Some(t) => {
                    if t.number != target || t.identifier != identifier || new_transactions.len()
                        == 0 {
                        *held = Some(t);
                        return false;
                    }
                    let mut block = t.block;
                    block.transactions.append(&mut new_transactions);
                    block.transaction_receipts.append(&mut new_receipts);
                    block.transaction_state_diffs.append(&mut new_state_diffs);
                    *held = Some(
                        HeldView { number: t.number, identifier: t.identifier, block },
                    );
                    true
                },
            }
        },
        PreConfirmedPollResponse::Full { identifier, block, .. } => {
            let changed: bool = match held {
                Some(t) => t.number != target || t.identifier != identifier
                    || block.transactions.len() as u64 > t.tx_count(),
                None => true,
            };
            *held = Some(HeldView { number: target, identifier, block });
            changed
        },
    }
}

/// Whether polling is to be suspended until the next read.
pub fn should_suspend(is_idle: bool, subscriber_count: usize) -> (r: bool)
    ensures
        r == (is_idle && subscriber_count == 0),
{
    is_idle && subscriber_count == 0
}

/// What to do next.
#[derive(Debug)]
pub enum PollPlan {
    /// Too far behind the head of the chain: reads fail until that has changed.
    Syncing,
    /// Fetch the settled block whole, and of the block above it what is new.
    Fetch {
        pre_latest_height: u64,
        pre_confirmed_height: u64,
        cursor_id: Option<String>,
        cursor_count: u64,
    },
}

/// The distance between two block numbers.
pub open spec fn distance(a: u64, b: u64) -> int {
    if a >= b {
        a - b
    } else {
        b - a
    }
}

/// The plan of a poll: nothing while the head is too far off, else the two blocks above the
/// committed one, of the upper of which only what is not held yet.
pub open spec fn is_planned(
    held: Option<HeldView>,
    committed: u64,
    gateway_latest: u64,
    in_sync_threshold: u64,
    plan: PollPlan,
) -> bool {
    if distance(gateway_latest, committed) > in_sync_threshold {
        plan is Syncing
    } else {
        plan matches PollPlan::Fetch {
            pre_latest_height,
            pre_confirmed_height,
            cursor_id,
            cursor_count,
        } && pre_latest_height == committed + 1 && pre_confirmed_height == committed + 2 && is_cursor(
            held,
            (committed + 2) as u64,
            cursor_id,
            cursor_count,
        )
    }
}

/// Plans a poll: nothing is fetched while we are catching up to the head.
///
/// The pre-latest sits above our head, decided in consensus and only awaiting its block hash; the
/// pre-confirmed above it is still building.
pub fn plan_poll(
    held: &Option<HeldView>,
    committed: u64,
    gateway_latest: u64,
    in_sync_threshold: u64,
) -> (r: PollPlan)
    requires
        committed + 2 <= MAX_BLOCK_NUMBER,
    ensures
        is_planned(*held, committed, gateway_latest, in_sync_threshold, r),
{
    let apart: u64 = if gateway_latest >= committed {
        gateway_latest - committed
    } else {
        committed - gateway_latest
    };
    if apart > in_sync_threshold {
        return PollPlan::Syncing;
    }
    let (cursor_id, cursor_count) = delta_cursor(held, committed + 2);
    PollPlan::Fetch {
        pre_latest_height: committed + 1,
        pre_confirmed_height: committed + 2,
        cursor_id,
        cursor_count,
    }
}

/// What to do with the cache once the answers are in.
#[derive(Debug)]
pub enum PollAction {
    /// Store new data.
    Publish(PendingData),
    /// Keep serving the last good view.
    MarkFresh,
}

/// What is made of a view that changed: it is published unless it cannot be converted.
pub open spec fn is_published(
    action: PollAction,
    held: HeldView,
    number: u64,
    pre_latest: Option<PreLatestReply>,
) -> bool {
    if conversion_flaw(held.block, pre_latest) is None {
        action matches PollAction::Publish(d) && is_pending_data_for(
            d,
            held.block,
            number,
            pre_latest,
        )
    } else {
        action is MarkFresh
    }
}

/// Convert a fresh pre-confirmed view. A failed conversion (say, candidate transactions) keeps the
/// last good view.
pub fn store_pre_confirmed(
    held: &HeldView,
    number: u64,
    pre_latest: Option<PreLatestReply>,
) -> (r: PollAction)
    requires
        pre_latest matches Some(reply) ==> reply.number + 1 == number,
    ensures
        is_published(r, *held, number, pre_latest),
{
    match PendingData::try_from_pre_confirmed_and_pre_latest(&held.block, number, pre_latest) {
        Ok(d) => PollAction::Publish(d),
        Err(_) => PollAction::MarkFresh,
    }
}

/// The settled block above the committed one.
pub open spec fn chained(committed: u64, committed_hash: Felt, block: Arc<GatewayBlock>) -> PreLatestReply {
    PreLatestReply { number: (committed + 1) as u64, block, parent_hash: committed_hash }
}

/// What the answers to a poll lead to.
///
/// The pre-latest is the foundation: without it nothing chains onto our head, so we keep serving the
/// last good view. A pre-confirmed above the pre-latest means we serve the two chained. When it isn't
/// there yet, the pre-latest is itself the newest block, so we serve it alone.
pub open spec fn is_poll_outcome(
    before: Option<HeldView>,
    committed: u64,
    committed_hash: Felt,
    pre_latest: Option<PreConfirmedPollResponse>,
    pre_confirmed: Option<PreConfirmedPollResponse>,
    after: Option<HeldView>,
    action: PollAction,
) -> bool {
    match pre_latest {
        Some(PreConfirmedPollResponse::Full { identifier, block_number, block }) => {
            let (number, response, reply) = match pre_confirmed {
                Some(response) => (
                    (committed + 2) as u64,
                    response,
                    Some(chained(committed, committed_hash, Arc::new(block))),
                ),
                None => (
                    (committed + 1) as u64,
                    PreConfirmedPollResponse::Full { identifier, block_number: None, block },
                    None,
                ),
            };
            &&& is_merged(before, number, response, after)
            &&& if changes(before, number, response) {
                after matches Some(t) && is_published(action, t, number, reply)
            } else {
                action is MarkFresh
            }
        },
        _ => after == before && action is MarkFresh,
    }
}

/// Takes the answers to a poll into account. An answer that is missing stands for a fetch that
/// failed.
pub fn resolve_poll(
    held: &mut Option<HeldView>,
    committed: u64,
    committed_hash: Felt,
    pre_latest: Option<PreConfirmedPollResponse>,
    pre_confirmed: Option<PreConfirmedPollResponse>,
) -> (r: PollAction)
    requires
        committed + 2 <= MAX_BLOCK_NUMBER,
    ensures
        is_poll_outcome(
            *old(held),
            committed,
            committed_hash,
            pre_latest,
            pre_confirmed,
            *final(held),
            r,
        ),
{
    let (identifier, block): (String, GatewayBlock) = match pre_latest {
        Some(PreConfirmedPollResponse::Full { identifier, block, .. }) => (identifier, block),
        _ => {
            return PollAction::MarkFresh;
        },
    };
    match pre_confirmed {
        Some(response) => {
            let number: u64 = committed + 2;
            let changed: bool = apply(held, number, response);
            if !changed {
                return PollAction::MarkFresh;
            }
            let reply = PreLatestReply {
                number: committed + 1,
                block: Arc::new(block),
                parent_hash: committed_hash,
            };
            match held {
                Some(t) => store_pre_confirmed(t, number, Some(reply)),
                None => PollAction::MarkFresh,
            }
        },
        None => {
            let number: u64 = committed + 1;
            let response = PreConfirmedPollResponse::Full { identifier, block_number: None, block };
            let changed: bool = apply(held, number, response);
            if !changed {
                return PollAction::MarkFresh;
            }
            match held {
                Some(t) => store_pre_confirmed(t, number, None),
                None => PollAction::MarkFresh,
            }
        },
    }
}

/// What is published chains onto the committed head: either the block above it alone, or that block
/// as pre-latest, with the head as its parent, and the block above both.
pub proof fn law_published_view_chains(
    before: Option<HeldView>,
    committed: u64,
    committed_hash: Felt,
    pre_latest: Option<PreConfirmedPollResponse>,
    pre_confirmed: Option<PreConfirmedPollResponse>,
    after: Option<HeldView>,
    d: PendingData,
)
    requires
        committed + 2 <= MAX_BLOCK_NUMBER,
        is_poll_outcome(
            before,
            committed,
            committed_hash,
            pre_latest,
            pre_confirmed,
            after,
            PollAction::Publish(d),
        ),
    ensures
        d.blocks.pre_confirmed.number == d.number,
        match d.blocks.pre_latest {
            None => d.number == committed + 1 && pre_confirmed is None,
            Some(data) => d.number == committed + 2 && data.block.number == committed + 1
                && data.block.parent_hash == committed_hash,
        },
{
}

} // verus!
