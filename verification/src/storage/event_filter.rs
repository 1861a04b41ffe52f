//! Rebuilding the running event filter from the events of stored blocks.
use vstd::prelude::*;

use crate::felt::Felt;

verus! {

/// The largest block number.
pub const MAX_BLOCK_NUMBER: u64 = 0x7fff_ffff_ffff_ffff;

/// What the filter takes of an event.
#[derive(Debug)]
pub struct FilteredEvent {
    pub from_address: Felt,
    pub keys: Vec<Felt>,
}

/// The events of a block, where they are still kept.
#[derive(Debug)]
pub struct BlockEvents {
    pub block_number: u64,
    pub events: Option<Vec<FilteredEvent>>,
}

/// A filter over a range of blocks that starts at `from_block`, with the events of the blocks that
/// go into it.
#[derive(Debug)]
pub struct RunningEventFilter {
    pub from_block: u64,
    pub blocks: Vec<(u64, Vec<FilteredEvent>)>,
    pub next_block: u64,
}

/// Where the running filter starts, and whether any stored block goes into it.
#[derive(Clone, Copy, Debug, PartialEq, Eq, Structural)]
pub enum FilterStart {
    /// Every stored block is in a complete filter: the running one is empty and starts here.
    Empty(u64),
    /// The stored blocks from here on go into the running filter.
    From(u64),
}

/// The start of the running filter, given the end of the last complete one.
pub open spec fn filter_start(last_to_block: Option<u64>, latest: u64, range_len: u64) -> FilterStart {
    match last_to_block {
        Some(to) => if to == latest {
            FilterStart::Empty((latest + 1) as u64)
        } else {
            FilterStart::From((to + 1) as u64)
        },
        None => FilterStart::From((latest - latest as int % range_len as int) as u64),
    }
}

pub fn first_running_event_filter_block(
    last_to_block: Option<u64>,
    latest: u64,
    range_len: u64,
) -> (r: FilterStart)
    requires
        latest < MAX_BLOCK_NUMBER,
        range_len > 0,
        last_to_block matches Some(to) ==> to <= latest,
    ensures
        r == filter_start(last_to_block, latest, range_len),
        match r {
            FilterStart::Empty(b) => b == latest + 1,
            FilterStart::From(b) => b <= latest,
        },
{
    match last_to_block {
        Some(to) => if to == latest {
            FilterStart::Empty(latest + 1)
        } else {
            FilterStart::From(to + 1)
        },
        None => {
            let rest: u64 = latest % range_len;
            proof {
                vstd::arithmetic::div_mod::lemma_mod_decreases(latest as nat, range_len as nat);
            }
            FilterStart::From(latest - rest)
        },
    }
}

/// The blocks at the front whose events are kept.
pub open spec fn kept_front(rows: Seq<BlockEvents>) -> int
    decreases rows.len(),
{
    if rows.len() == 0 {
        0
    } else {
        let before = kept_front(rows.drop_last());
        if before == rows.len() - 1 && rows.last().events is Some {
            rows.len() as int
        } else {
            before
        }
    }
}

/// The blocks at the front have their events; the block behind them, if there is one, does not.
pub proof fn lemma_kept_front(rows: Seq<BlockEvents>)
    ensures
        0 <= kept_front(rows) <= rows.len(),
        forall|i: int| 0 <= i < kept_front(rows) ==> (#[trigger] rows[i]).events is Some,
        kept_front(rows) < rows.len() ==> rows[kept_front(rows)].events is None,
    decreases rows.len(),
{
    if rows.len() > 0 {
        let front = rows.drop_last();
        lemma_kept_front(front);
        assert forall|i: int| 0 <= i < kept_front(rows) implies (#[trigger] rows[i]).events is Some by {
            if i < front.len() {
                assert(front[i] == rows[i]);
            }
        }
    }
}

/// Rebuilds the running filter from the events of the stored blocks, up to the first block whose
/// events are gone. `load` holds the blocks from the start of the filter on.
pub fn rebuild_running_event_filter(start: FilterStart, latest: u64, load: Vec<BlockEvents>) -> (r:
    RunningEventFilter)
    requires
        latest < MAX_BLOCK_NUMBER,
    ensures
        r.next_block == latest + 1,
        match start {
            FilterStart::Empty(b) => r.from_block == b && r.blocks@.len() == 0,
            FilterStart::From(b) => {
                &&& r.from_block == b
                &&& r.blocks@.len() == kept_front(load@)
                &&& forall|i: int|
                    #![trigger r.blocks@[i]]
                    0 <= i < r.blocks@.len() ==> load@[i].events == Some(r.blocks@[i].1)
                        && load@[i].block_number == r.blocks@[i].0
            },
        },
{
    let mut blocks: Vec<(u64, Vec<FilteredEvent>)> = Vec::new();
    match start {
        FilterStart::Empty(b) => RunningEventFilter {
            from_block: b,
            blocks,
            next_block: latest + 1,
        },
        FilterStart::From(b) => {
            let ghost all = load@;
            let mut rest: Vec<BlockEvents> = load;
            let mut open: bool = true;
            while open && rest.len() > 0
                invariant
                    rest@.len() + blocks@.len() <= all.len(),
                    open ==> rest@ == all.subrange(blocks@.len() as int, all.len() as int),
                    forall|i: int|
                        #![trigger blocks@[i]]
                        0 <= i < blocks@.len() ==> all[i].events == Some(blocks@[i].1)
                            && all[i].block_number == blocks@[i].0,
                    !open ==> blocks@.len() < all.len() && all[blocks@.len() as int].events is None,
                decreases rest@.len() + (if open { 1int } else { 0int }),
            {
                let row = rest.remove(0);
                assert(row == all[blocks@.len() as int]);
                match row.events {
                    None => {
                        open = false;
                    },
                    Some(events) => {
                        blocks.push((row.block_number, events));
                        assert(rest@ =~= all.subrange(blocks@.len() as int, all.len() as int));
                    },
                }
            }
            proof {
                let n = blocks@.len() as int;
                let k = kept_front(all);
                lemma_kept_front(all);
                if k < n {
                    assert(all[k].events == Some(blocks@[k].1));
                } else if n < k {
                    assert(all[n].events is Some);
                    assert(rest@.len() == 0);
                }
            }
            RunningEventFilter { from_block: b, blocks, next_block: latest + 1 }
        },
    }
}

/// The filter of a storage without blocks: empty, from the first block on.
pub fn genesis_event_filter() -> (r: RunningEventFilter)
    ensures
        r.from_block == 0,
        r.next_block == 0,
        r.blocks@.len() == 0,
{
    RunningEventFilter { from_block: 0, blocks: Vec::new(), next_block: 0 }
}

/// The running filter never overlaps the complete ones, and where there are none it starts at the
/// beginning of a range.
pub proof fn law_filter_start(last_to_block: Option<u64>, latest: u64, range_len: u64)
    requires
        latest < MAX_BLOCK_NUMBER,
        range_len > 0,
        last_to_block matches Some(to) ==> to <= latest,
    ensures
        ({
            let from = match filter_start(last_to_block, latest, range_len) {
                FilterStart::Empty(b) => b,
                FilterStart::From(b) => b,
            };
            &&& from <= latest + 1
            &&& last_to_block matches Some(to) ==> from == to + 1
            &&& last_to_block is None ==> from as int % range_len as int == 0 && latest - from
                < range_len
        }),
{
    if last_to_block is None {
        let l = latest as int;
        let n = range_len as int;
        vstd::arithmetic::div_mod::lemma_fundamental_div_mod(l, n);
        vstd::arithmetic::div_mod::lemma_mod_multiples_basic(l / n, n);
        assert(l - l % n == n * (l / n));
        assert(n * (l / n) == (l / n) * n) by (nonlinear_arith);
    }
}

} // verus!
