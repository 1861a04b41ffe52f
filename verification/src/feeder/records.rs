//! Recorded responses that are played back: one after the other as time goes by, or by their block.
use vstd::prelude::*;

use crate::feeder::clock::{now, tick, ticked, SECOND};

verus! {

/// The seconds between two recorded blocks.
pub const BLOCK_SECONDS: u16 = 2;

/// Which block is asked for.
#[derive(Clone, Copy, Debug, PartialEq, Eq, Structural)]
pub enum RecordedBlock {
    Latest,
    Number(u64),
    /// Any other way to name a block.
    Other,
}

/// The state of a playback. The responses themselves are held elsewhere, in the order in which they
/// were loaded.
#[derive(Debug)]
pub struct RecordState {
    /// For each response, the time in seconds that it was stamped with when it was played.
    pub timestamps: Vec<Option<u64>>,
    pub base_block_number: u64,
    pub available_since: Option<u128>,
    pub next_response: usize,
}

/// Why records are not taken.
#[derive(Clone, Copy, Debug, PartialEq, Eq, Structural)]
pub enum LoadError {
    /// A record is not JSON.
    NotJson,
    MissingBlockNumber,
    /// A record is not for the block after that of the record before it.
    NotConsecutive,
    NoRecords,
}

impl LoadError {
    pub fn message(&self) -> (r: &'static str)
        ensures
            r@ == match self {
                LoadError::NotJson => "not JSON"@,
                LoadError::MissingBlockNumber => "missing block number"@,
                LoadError::NotConsecutive => "Condition failed: `running_block_number + 1 == block_number`"@,
                LoadError::NoRecords => "no records"@,
            },
    {
        match self {
            LoadError::NotJson => "not JSON",
            LoadError::MissingBlockNumber => "missing block number",
            LoadError::NotConsecutive => "Condition failed: `running_block_number + 1 == block_number`",
            LoadError::NoRecords => "no records",
        }
    }
}

/// Why there is no response.
#[derive(Clone, Copy, Debug, PartialEq, Eq, Structural)]
pub enum PlaybackError {
    NoMoreRecords,
    OutOfRange,
    NotImplemented,
}

impl PlaybackError {
    pub fn message(&self) -> (r: &'static str)
        ensures
            r@ == match self {
                PlaybackError::NoMoreRecords => "no more records"@,
                PlaybackError::OutOfRange => "block number out of range"@,
                PlaybackError::NotImplemented => "pre-confirmed responses not implemented for specific blocks"@,
            },
    {
        match self {
            PlaybackError::NoMoreRecords => "no more records",
            PlaybackError::OutOfRange => "block number out of range",
            PlaybackError::NotImplemented => "pre-confirmed responses not implemented for specific blocks",
        }
    }
}

/// What is played.
#[derive(Clone, Copy, Debug, PartialEq, Eq, Structural)]
pub enum Playback {
    /// Nothing is new.
    Unchanged,
    /// The response at this place, with the time that it is stamped with.
    Response { index: usize, timestamp: Option<u64> },
}

/// What is wrong with the record at place `i`, given the block numbers of all records.
pub open spec fn record_flaw(numbers: Seq<Option<u64>>, i: int) -> Option<LoadError> {
    match numbers[i] {
        None => Some(LoadError::MissingBlockNumber),
        Some(n) => if i > 0 && !(numbers[i - 1] matches Some(before) && before + 1 == n) {
            Some(LoadError::NotConsecutive)
        } else {
            None
        },
    }
}

/// The records that are in order, from the front.
pub open spec fn good_records(numbers: Seq<Option<u64>>) -> int
    decreases numbers.len(),
{
    if numbers.len() == 0 {
        0
    } else {
        let front = good_records(numbers.drop_last());
        if front == numbers.len() - 1 && record_flaw(numbers, numbers.len() - 1) is None {
            numbers.len() as int
        } else {
            front
        }
    }
}

/// The first records are in order, and the one after them, if there is one, is not.
pub proof fn lemma_good_records(numbers: Seq<Option<u64>>)
    ensures
        0 <= good_records(numbers) <= numbers.len(),
        forall|i: int|
            0 <= i < good_records(numbers) ==> #[trigger] record_flaw(numbers, i) is None,
        good_records(numbers) < numbers.len() ==> record_flaw(numbers, good_records(numbers)) is Some,
    decreases numbers.len(),
{
    if numbers.len() > 0 {
        let front = numbers.drop_last();
        lemma_good_records(front);
        assert forall|i: int| 0 <= i < front.len() implies #[trigger] record_flaw(numbers, i)
            == record_flaw(front, i) by {}
    }
}

/// The times of records that were not played yet.
pub open spec fn not_played(n: int) -> Seq<Option<u64>> {
    Seq::new(n as nat, |i: int| None)
}

/// The state after records were taken in, before it is known where they start.
pub open spec fn is_taken(before: RecordState, n: int, after: RecordState) -> bool {
    &&& after.timestamps@ == before.timestamps@ + not_played(n)
    &&& after.base_block_number == before.base_block_number
    &&& after.available_since == before.available_since
    &&& after.next_response == before.next_response
}

/// The state after loading.
pub open spec fn is_loaded(
    before: RecordState,
    numbers: Seq<Option<u64>>,
    after: RecordState,
    r: Result<(), LoadError>,
) -> bool {
    let good = good_records(numbers);
    &&& after.timestamps@ == before.timestamps@ + not_played(good)
    &&& after.available_since == before.available_since
    &&& after.next_response == before.next_response
    &&& if good < numbers.len() {
        after.base_block_number == before.base_block_number && r == Err::<(), LoadError>(
            record_flaw(numbers, good)->0,
        )
    } else if numbers.len() == 0 {
        after.base_block_number == before.base_block_number && r == Err::<(), LoadError>(
            LoadError::NoRecords,
        )
    } else {
        after.base_block_number == numbers[0]->0 && r is Ok
    }
}

/// The unsigned number in a field of the JSON object that a text denotes, where the field holds one.
/// Nothing, where the text is not JSON.
pub uninterp spec fn json_number(text: Seq<char>, name: Seq<char>) -> Option<Option<u64>>;

/// `serde_json::from_str` into a `serde_json::Value`, of which `get` and `as_u64` give the number in
/// the field. Which texts are JSON, and what they hold, is left to `serde_json`.
#[verifier::external_body]
fn parse_number(text: &str, name: &str) -> (r: Option<Option<u64>>)
    ensures
        r == json_number(text@, name@),
{
    let json = serde_json::from_str::<serde_json::Value>(text).ok()?;
    Some(json.get(name).and_then(serde_json::Value::as_u64))
}

/// What is read of each text: its block number, where it has one, or nothing, where it is not JSON.
pub open spec fn block_numbers(texts: Seq<String>) -> Seq<Option<Option<u64>>> {
    texts.map_values(|text: String| json_number(text@, "block_number"@))
}

/// The texts that are JSON, from the front.
pub open spec fn json_front(parsed: Seq<Option<Option<u64>>>) -> int
    decreases parsed.len(),
{
    if parsed.len() == 0 {
        0
    } else {
        let front = json_front(parsed.drop_last());
        if front == parsed.len() - 1 && parsed.last() is Some {
            parsed.len() as int
        } else {
            front
        }
    }
}

/// The block numbers of the texts that are JSON, from the front.
pub open spec fn front_numbers(parsed: Seq<Option<Option<u64>>>) -> Seq<Option<u64>> {
    parsed.subrange(0, json_front(parsed)).map_values(|n: Option<Option<u64>>| n->0)
}

/// The first texts are JSON, and the one after them, if there is one, is not.
pub proof fn lemma_json_front(parsed: Seq<Option<Option<u64>>>)
    ensures
        0 <= json_front(parsed) <= parsed.len(),
        forall|i: int| 0 <= i < json_front(parsed) ==> (#[trigger] parsed[i]) is Some,
        json_front(parsed) < parsed.len() ==> parsed[json_front(parsed)] is None,
    decreases parsed.len(),
{
    if parsed.len() > 0 {
        lemma_json_front(parsed.drop_last());
        assert forall|i: int| 0 <= i < json_front(parsed) implies (#[trigger] parsed[i]) is Some by {
            if i < parsed.len() - 1 {
                assert(parsed.drop_last()[i] == parsed[i]);
            }
        }
    }
}

/// The state after loading texts. The first one that is not JSON, or whose number is missing or not
/// consecutive, decides; those in front of it stay.
pub open spec fn is_loaded_from(
    before: RecordState,
    parsed: Seq<Option<Option<u64>>>,
    after: RecordState,
    r: Result<(), LoadError>,
) -> bool {
    let numbers = front_numbers(parsed);
    if json_front(parsed) == parsed.len() {
        is_loaded(before, numbers, after, r)
    } else {
        let good = good_records(numbers);
        &&& is_taken(before, good, after)
        &&& r == Err::<(), LoadError>(
            if good < numbers.len() {
                record_flaw(numbers, good)->0
            } else {
                LoadError::NotJson
            },
        )
    }
}

/// What is played for a request at a time, and the state after that.
pub open spec fn is_played(
    before: RecordState,
    block: RecordedBlock,
    now: u128,
    after: RecordState,
    r: Result<Playback, PlaybackError>,
) -> bool {
    match block {
        RecordedBlock::Latest => if before.next_response < before.timestamps@.len() {
            let (since, new) = ticked(before.available_since, BLOCK_SECONDS, now);
            let next = before.next_response;
            let stamp = Some((since->0 / SECOND) as u64);
            &&& after.available_since == since
            &&& after.base_block_number == before.base_block_number
            &&& if new {
                &&& after.next_response == next + 1
                &&& after.timestamps@ == before.timestamps@.update(next as int, stamp)
                &&& r == Ok::<Playback, PlaybackError>(
                    Playback::Response { index: next, timestamp: stamp },
                )
            } else {
                &&& after.next_response == next
                &&& after.timestamps@ == before.timestamps@
                &&& r == Ok::<Playback, PlaybackError>(Playback::Unchanged)
            }
        } else {
            after == before && r == Err::<Playback, PlaybackError>(PlaybackError::NoMoreRecords)
        },
        RecordedBlock::Number(n) => {
            let index = n - before.base_block_number;
            after == before && r == (if 0 <= index < before.timestamps@.len() {
                Ok::<Playback, PlaybackError>(
                    Playback::Response {
                        index: index as usize,
                        timestamp: before.timestamps@[index],
                    },
                )
            } else {
                Err(PlaybackError::OutOfRange)
            })
        },
        RecordedBlock::Other => after == before && r == Err::<Playback, PlaybackError>(
            PlaybackError::NotImplemented,
        ),
    }
}

impl RecordState {
    pub fn new() -> (r: Self)
        ensures
            r.timestamps@.len() == 0,
            r.base_block_number == 0,
            r.available_since is None,
            r.next_response == 0,
    {
        RecordState {
            timestamps: Vec::new(),
            base_block_number: 0,
            available_since: None,
            next_response: 0,
        }
    }

    /// Takes in the records that are in order, from the front.
    fn take_in(&mut self, numbers: &Vec<Option<u64>>) -> (r: Result<(), LoadError>)
        ensures
            is_taken(*old(self), good_records(numbers@), *final(self)),
            0 <= good_records(numbers@) <= numbers@.len(),
            if good_records(numbers@) < numbers@.len() {
                r == Err::<(), LoadError>(record_flaw(numbers@, good_records(numbers@))->0)
            } else {
                r is Ok
            },
    {
        proof {
            lemma_good_records(numbers@);
        }
        let ghost good = good_records(numbers@);
        let mut i: usize = 0;
        let mut running: u64 = 0;
        assert(self.timestamps@ =~= old(self).timestamps@ + not_played(0));
        while i < numbers.len()
            invariant
                i <= numbers@.len(),
                good == good_records(numbers@),
                0 <= good <= numbers@.len(),
                i <= good,
                forall|k: int| 0 <= k < good ==> #[trigger] record_flaw(numbers@, k) is None,
                good < numbers@.len() ==> record_flaw(numbers@, good) is Some,
                i > 0 ==> numbers@[i - 1] == Some(running),
                is_taken(*old(self), i as int, *self),
            decreases numbers@.len() - i,
        {
            let number: u64 = match numbers[i] {
                None => {
                    assert(record_flaw(numbers@, i as int) == Some(LoadError::MissingBlockNumber));
                    return Err(LoadError::MissingBlockNumber);
                },
                Some(n) => n,
            };
            if i > 0 && (running == u64::MAX || running + 1 != number) {
                assert(record_flaw(numbers@, i as int) == Some(LoadError::NotConsecutive));
                return Err(LoadError::NotConsecutive);
            }
            assert(record_flaw(numbers@, i as int) is None);
            running = number;
            self.timestamps.push(None);
            i = i + 1;
            assert(self.timestamps@ =~= old(self).timestamps@ + not_played(i as int));
        }
        Ok(())
    }

    /// Takes records in, given the block number of each, where it has one. The numbers must be
    /// consecutive. Records in front of one that is not taken stay.
    pub fn load(&mut self, numbers: &Vec<Option<u64>>) -> (r: Result<(), LoadError>)
        ensures
            is_loaded(*old(self), numbers@, *final(self), r),
    {
        match self.take_in(numbers) {
            Ok(()) => {},
            Err(e) => {
                return Err(e);
            },
        }
        if numbers.len() == 0 {
            return Err(LoadError::NoRecords);
        }
        proof {
            lemma_good_records(numbers@);
            assert(record_flaw(numbers@, 0) is None);
        }
        match numbers[0] {
            Some(n) => {
                self.base_block_number = n;
            },
            None => {},
        }
        Ok(())
    }

    /// Takes records in, given what was read of each: its block number, where it has one, or
    /// nothing, where it is not JSON.
    pub fn load_parsed(&mut self, parsed: &Vec<Option<Option<u64>>>) -> (r: Result<(), LoadError>)
        ensures
            is_loaded_from(*old(self), parsed@, *final(self), r),
    {
        proof {
            lemma_json_front(parsed@);
        }
        let ghost front = json_front(parsed@);
        let mut numbers: Vec<Option<u64>> = Vec::new();
        let mut i: usize = 0;
        while i < parsed.len()
            invariant
                i <= front <= parsed@.len(),
                front == json_front(parsed@),
                forall|k: int| 0 <= k < front ==> (#[trigger] parsed@[k]) is Some,
                front < parsed@.len() ==> parsed@[front] is None,
                *self == *old(self),
                numbers@ == parsed@.subrange(0, i as int).map_values(
                    |n: Option<Option<u64>>| n->0,
                ),
            decreases parsed@.len() - i,
        {
            match parsed[i] {
                Some(n) => {
                    numbers.push(n);
                },
                None => {
                    return match self.take_in(&numbers) {
                        Err(e) => Err(e),
                        Ok(()) => Err(LoadError::NotJson),
                    };
                },
            }
            i = i + 1;
            assert(numbers@ =~= parsed@.subrange(0, i as int).map_values(
                |n: Option<Option<u64>>| n->0,
            ));
        }
        self.load(&numbers)
    }

    /// Takes in records, given their texts.
    pub fn load_texts(&mut self, texts: &Vec<String>) -> (r: Result<(), LoadError>)
        ensures
            is_loaded_from(*old(self), block_numbers(texts@), *final(self), r),
    {
        let mut parsed: Vec<Option<Option<u64>>> = Vec::new();
        let mut i: usize = 0;
        while i < texts.len()
            invariant
                i <= texts@.len(),
                *self == *old(self),
                parsed@ == block_numbers(texts@.subrange(0, i as int)),
            decreases texts@.len() - i,
        {
            parsed.push(parse_number(texts[i].as_str(), "block_number"));
            i = i + 1;
            assert(parsed@ =~= block_numbers(texts@.subrange(0, i as int)));
        }
        assert(texts@.subrange(0, i as int) =~= texts@);
        self.load_parsed(&parsed)
    }

    /// What is played for a request at a time. The latest block is the next record, once it is due;
    /// it is then stamped with the time since when it is due.
    pub fn get_next_at(&mut self, block: RecordedBlock, now: u128) -> (r: Result<
        Playback,
        PlaybackError,
    >)
        requires
            now <= u64::MAX as u128 * SECOND,
        ensures
            is_played(*old(self), block, now, *final(self), r),
    {
        match block {
            RecordedBlock::Latest => {
                if self.next_response >= self.timestamps.len() {
                    return Err(PlaybackError::NoMoreRecords);
                }
                let new: bool = self.update_time(now);
                if !new {
                    return Ok(Playback::Unchanged);
                }
                let stamp: Option<u64> = self.set_timestamp();
                let index: usize = self.next_response;
                self.next_response = index + 1;
                Ok(Playback::Response { index, timestamp: stamp })
            },
            RecordedBlock::Number(n) => {
                if n >= self.base_block_number {
                    let index: u64 = n - self.base_block_number;
                    if index < self.timestamps.len() as u64 {
                        let index: usize = index as usize;
                        return Ok(Playback::Response { index, timestamp: self.timestamps[index] });
                    }
                }
                Err(PlaybackError::OutOfRange)
            },
            RecordedBlock::Other => Err(PlaybackError::NotImplemented),
        }
    }

    fn update_time(&mut self, now: u128) -> (r: bool)
        ensures
            (final(self).available_since, r) == ticked(
                old(self).available_since,
                BLOCK_SECONDS,
                now,
            ),
            *final(self) == (RecordState {
                available_since: final(self).available_since,
                ..*old(self)
            }),
    {
        tick(&mut self.available_since, BLOCK_SECONDS, now)
    }

    fn set_timestamp(&mut self) -> (r: Option<u64>)
        requires
            old(self).available_since is Some,
            old(self).next_response < old(self).timestamps@.len(),
        ensures
            r == Some((old(self).available_since->0 / SECOND) as u64),
            final(self).timestamps@ == old(self).timestamps@.update(
                old(self).next_response as int,
                r,
            ),
            *final(self) == (RecordState { timestamps: final(self).timestamps, ..*old(self) }),
    {
        let stamp: Option<u64> = match self.available_since {
            Some(since) => Some((since / SECOND) as u64),
            None => None,
        };
        self.timestamps.set(self.next_response, stamp);
        stamp
    }

    /// What is played for a request now. A clock beyond what a time stamp can hold counts as one
    /// that shows its end.
    pub fn get_next(&mut self, block: RecordedBlock) -> (r: Result<Playback, PlaybackError>)
        ensures
            exists|now: u128| #[trigger] is_played(*old(self), block, now, *final(self), r),
    {
        let shown: u128 = now();
        let end: u128 = u64::MAX as u128 * SECOND;
        let time: u128 = if shown > end {
            end
        } else {
            shown
        };
        let r = self.get_next_at(block, time);
        assert(is_played(*old(self), block, time, *self, r));
        r
    }
}

impl Default for RecordState {
    fn default() -> (r: Self)
        ensures
            r.timestamps@.len() == 0,
            r.base_block_number == 0,
            r.available_since is None,
            r.next_response == 0,
    {
        RecordState::new()
    }
}

/// A record that was played as the latest block is found by the number of its block, with the time
/// that it was stamped with.
pub proof fn law_played_record_is_found_by_number(
    before: RecordState,
    now: u128,
    after: RecordState,
    index: usize,
    timestamp: Option<u64>,
    again: RecordState,
    r: Result<Playback, PlaybackError>,
)
    requires
        before.base_block_number + index <= u64::MAX,
        is_played(
            before,
            RecordedBlock::Latest,
            now,
            after,
            Ok(Playback::Response { index, timestamp }),
        ),
        is_played(
            after,
            RecordedBlock::Number((before.base_block_number + index) as u64),
            now,
            again,
            r,
        ),
    ensures
        r == Ok::<Playback, PlaybackError>(Playback::Response { index, timestamp }),
{
}

} // verus!
