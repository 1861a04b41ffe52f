//! How a simulated chain moves on, what its clients are sent, and how records are played.
use vstd::prelude::*;

use crate::feeder::clock::{ticked, SECOND};
use crate::feeder::preconfirmed::{is_response_for, PreConfirmedPollResponse, StoredTransaction};
use crate::feeder::progress::{identifier_for, preconfirmed_step, ProgressState};
use crate::feeder::records::{
    front_numbers, good_records, is_loaded, is_loaded_from, is_played, json_front, lemma_good_records,
    lemma_json_front, record_flaw, LoadError, Playback, PlaybackError, RecordState, RecordedBlock,
};
use crate::pending::blocks::{BlockHeader, Status};

verus! {

/// The first look at the clock makes something available as from the last full second. After that,
/// a look makes the next thing available exactly where a period has passed, and then counts on from
/// the end of that period.
pub proof fn law_ticks_come_by_the_clock(since: Option<u128>, period: u16, now: u128)
    ensures
        since is None ==> (ticked(since, period, now).0 matches Some(s) && ticked(since, period, now).1
            && s <= now < s + 1_000_000_000 && s % 1_000_000_000 == 0),
        since matches Some(s) ==> {
            let length = period * 1_000_000_000;
            &&& ticked(since, period, now).1 <==> now >= s + length
            &&& ticked(since, period, now).0 matches Some(t) && t == if now >= s + length {
                s + length
            } else {
                s as int
            }
        },
{
}

/// The latest block moves on by one exactly where the clock makes the next thing available, and a
/// look at the clock changes nothing else. Without a latest block nothing changes.
pub proof fn law_latest_block_moves_on(s: ProgressState, now: u128)
    requires
        s.latest matches Some(l) ==> l < u64::MAX,
    ensures
        s.latest is None ==> s.at(now) == s,
        s.latest matches Some(l) ==> {
            let (since, new) = ticked(s.since, s.period, now);
            let t = s.at(now);
            &&& t.latest == Some(
                if new {
                    (l + 1) as u64
                } else {
                    l
                },
            )
            &&& t.since == since
            &&& t.period == s.period
            &&& t.sent == s.sent
            &&& t.responses == s.responses
        },
{
}

/// A client is sent the block two above the latest one, unless it was sent that very block before
/// under the identifier that it gives. What it is sent is remembered under a new identifier, which
/// takes the place of the one that it gave; other clients are not affected.
pub proof fn law_clients_are_sent_each_block_once(
    s: ProgressState,
    identifier: Seq<char>,
    now: u128,
    other: Seq<char>,
)
    requires
        s.latest matches Some(l) ==> l + 4 <= u64::MAX,
        s.responses < u64::MAX,
    ensures
        ({
            let (t, sent) = preconfirmed_step(s, identifier, now);
            let known = identifier.len() > 0 && s.sent.contains_key(identifier);
            &&& t.latest == s.at(now).latest
            &&& t.since == s.at(now).since
            &&& t.period == s.period
            &&& s.latest is None ==> sent is None && t == s
            &&& s.latest is Some ==> (sent is None <==> known && s.sent[identifier]
                == s.at(now).latest->0 + 2)
            &&& sent is None ==> t.sent == s.sent && t.responses == s.responses
            &&& sent matches Some((number, id)) ==> {
                &&& number == s.at(now).latest->0 + 2
                &&& t.responses == s.responses + 1
                &&& id == identifier_for((s.responses + 1) as u64)
                &&& t.sent.contains_key(id) && t.sent[id] == number
                &&& id != identifier ==> !t.sent.contains_key(identifier)
                &&& other != id && other != identifier ==> (t.sent.contains_key(other)
                    <==> s.sent.contains_key(other)) && (s.sent.contains_key(other) ==> t.sent[other]
                    == s.sent[other])
            }
        }),
{
}

/// A stored block is handed out with its number, its prices, its time, its sequencer and its
/// version, and with each of its transactions next to its own receipt.
pub proof fn law_stored_block_is_handed_out(
    r: PreConfirmedPollResponse,
    h: BlockHeader,
    data: Seq<StoredTransaction>,
    identifier: String,
    i: int,
)
    requires
        is_response_for(r, h, data, identifier),
    ensures
        r.status == Status::PreConfirmed,
        r.changed,
        r.block_number == h.number,
        r.block_identifier == identifier,
        r.timestamp == h.timestamp,
        r.sequencer_address == Some(h.sequencer_address),
        r.starknet_version == h.starknet_version,
        r.l1_da_mode == h.l1_da_mode,
        r.l1_gas_price.price_in_wei == h.eth_l1_gas_price,
        r.l1_gas_price.price_in_fri == h.strk_l1_gas_price,
        r.l1_data_gas_price.price_in_wei == h.eth_l1_data_gas_price,
        r.l1_data_gas_price.price_in_fri == h.strk_l1_data_gas_price,
        r.l2_gas_price matches Some(p) && p.price_in_wei == h.eth_l2_gas_price && p.price_in_fri
            == h.strk_l2_gas_price,
        r.transactions@.len() == data.len(),
        r.transaction_receipts@.len() == data.len(),
        0 <= i < data.len() ==> r.transactions@[i] == data[i].0 && r.transaction_receipts@[i]
            == data[i].1,
{
}

/// Records are taken exactly where there are some, each has a number, and each number is one above
/// the one before; playing then counts from the first number. Nothing is played by loading.
pub proof fn law_records_are_loaded_in_order(
    before: RecordState,
    numbers: Seq<Option<u64>>,
    after: RecordState,
    r: Result<(), LoadError>,
)
    requires
        is_loaded(before, numbers, after, r),
    ensures
        r is Ok <==> numbers.len() > 0 && numbers[0] is Some && (forall|i: int|
            0 < i < numbers.len() ==> (#[trigger] numbers[i]) is Some && numbers[i - 1] is Some
                && numbers[i - 1]->0 + 1 == numbers[i]->0),
        r is Ok ==> after.base_block_number == numbers[0]->0 && after.timestamps@.len()
            == before.timestamps@.len() + numbers.len(),
        r is Err ==> after.base_block_number == before.base_block_number,
        numbers.len() == 0 ==> r == Err::<(), LoadError>(LoadError::NoRecords),
        numbers.len() > 0 && numbers[0] is None ==> r == Err::<(), LoadError>(
            LoadError::MissingBlockNumber,
        ),
        after.next_response == before.next_response,
        after.available_since == before.available_since,
        forall|i: int|
            0 <= i < before.timestamps@.len() ==> #[trigger] after.timestamps@[i]
                == before.timestamps@[i],
        forall|i: int|
            before.timestamps@.len() <= i < after.timestamps@.len()
                ==> (#[trigger] after.timestamps@[i]) is None,
{
    lemma_good_records(numbers);
    let good = good_records(numbers);
    if good == numbers.len() {
        if numbers.len() > 0 {
            assert(record_flaw(numbers, 0) is None);
        }
        assert forall|i: int| 0 < i < numbers.len() implies (#[trigger] numbers[i]) is Some
            && numbers[i - 1] is Some && numbers[i - 1]->0 + 1 == numbers[i]->0 by {
            assert(record_flaw(numbers, i) is None);
        }
    } else {
        assert(record_flaw(numbers, good) is Some);
        if numbers[0] is None {
            assert(record_flaw(numbers, 0) is Some);
            if good > 0 {
                assert(record_flaw(numbers, 0) is None);
            }
        }
        if numbers[0] is Some && (forall|i: int|
            0 < i < numbers.len() ==> (#[trigger] numbers[i]) is Some && numbers[i - 1] is Some
                && numbers[i - 1]->0 + 1 == numbers[i]->0) {
            assert(good > 0);
            assert(numbers[good] is Some && numbers[good - 1]->0 + 1 == numbers[good]->0);
            assert(false);
        }
    }
}

/// Where a text is not JSON nothing starts to be played: the load fails.
pub proof fn law_texts_must_be_json(
    before: RecordState,
    parsed: Seq<Option<Option<u64>>>,
    after: RecordState,
    r: Result<(), LoadError>,
    i: int,
)
    requires
        is_loaded_from(before, parsed, after, r),
        0 <= i < parsed.len(),
        parsed[i] is None,
    ensures
        r is Err,
        after.base_block_number == before.base_block_number,
        i == 0 ==> r == Err::<(), LoadError>(LoadError::NotJson),
{
    lemma_json_front(parsed);
    if json_front(parsed) == parsed.len() {
        assert(parsed[i] is Some);
    }
    if i == 0 {
        if json_front(parsed) > 0 {
            assert(parsed[0] is Some);
        }
        lemma_good_records(front_numbers(parsed));
    }
}

/// The records are played one after the other, each once and in order, one per tick of a clock of
/// two seconds, stamped with the second of its tick; a record asked for by the number of its block
/// is the one at that distance from the first; nothing is played past the last record.
pub proof fn law_records_are_played_in_order(
    before: RecordState,
    block: RecordedBlock,
    now: u128,
    after: RecordState,
    r: Result<Playback, PlaybackError>,
)
    requires
        is_played(before, block, now, after, r),
        before.timestamps@.len() <= usize::MAX,
        before.available_since matches Some(s) ==> s <= now,
        now / 1_000_000_000 <= u64::MAX,
    ensures
        block == RecordedBlock::Latest && before.next_response >= before.timestamps@.len() ==> r == Err::<
            Playback,
            PlaybackError,
        >(PlaybackError::NoMoreRecords) && after == before,
        block == RecordedBlock::Latest && before.next_response < before.timestamps@.len() ==> {
            let new = ticked(before.available_since, 2, now).1;
            &&& after.available_since == ticked(before.available_since, 2, now).0
            &&& !new ==> r == Ok::<Playback, PlaybackError>(Playback::Unchanged)
                && after.next_response == before.next_response && after.timestamps@
                == before.timestamps@
            &&& new ==> (r matches Ok(Playback::Response { index, timestamp }) && {
                &&& index == before.next_response
                &&& timestamp is Some
                &&& timestamp->0 == after.available_since->0 / 1_000_000_000
                &&& after.next_response == before.next_response + 1
                &&& after.timestamps@[index as int] == timestamp
            })
        },
        block matches RecordedBlock::Number(n) ==> after == before && (r is Ok
            <==> before.base_block_number <= n < before.base_block_number + before.timestamps@.len())
            && (r matches Ok(p) ==> (p matches Playback::Response { index, timestamp } && (
        before.base_block_number + index == n && timestamp == before.timestamps@[index as int]))),
        block == RecordedBlock::Other ==> r == Err::<Playback, PlaybackError>(
            PlaybackError::NotImplemented,
        ) && after == before,
{
}

/// The records in front of a text that is not JSON are taken where they are in order, one place
/// each, and not played yet; it is then the text that is reported. What was there before stays, and
/// what is played next too.
pub proof fn law_records_before_a_flawed_text_are_taken(
    before: RecordState,
    parsed: Seq<Option<Option<u64>>>,
    after: RecordState,
    r: Result<(), LoadError>,
    k: int,
)
    requires
        is_loaded_from(before, parsed, after, r),
        0 <= k < parsed.len(),
        parsed[k] is None,
        forall|i: int| 0 <= i < k ==> (#[trigger] parsed[i]) is Some,
    ensures
        r is Err,
        after.base_block_number == before.base_block_number,
        after.next_response == before.next_response,
        after.available_since == before.available_since,
        before.timestamps@.len() <= after.timestamps@.len() <= before.timestamps@.len() + k,
        forall|i: int|
            0 <= i < before.timestamps@.len() ==> #[trigger] after.timestamps@[i]
                == before.timestamps@[i],
        forall|i: int|
            before.timestamps@.len() <= i < after.timestamps@.len()
                ==> (#[trigger] after.timestamps@[i]) is None,
        (forall|i: int|
            0 <= i < k ==> (#[trigger] parsed[i])->0 is Some && (i > 0 ==> parsed[i - 1]->0->0 + 1
                == parsed[i]->0->0)) ==> r == Err::<(), LoadError>(LoadError::NotJson)
            && after.timestamps@.len() == before.timestamps@.len() + k,
{
    lemma_json_front(parsed);
    let front = json_front(parsed);
    if front < k {
        assert(parsed[front] is Some);
    }
    if front > k {
        assert(parsed[k] is Some);
    }
    let numbers = front_numbers(parsed);
    lemma_good_records(numbers);
    let good = good_records(numbers);
    assert(numbers.len() == k);
    if forall|i: int|
        0 <= i < k ==> (#[trigger] parsed[i])->0 is Some && (i > 0 ==> parsed[i - 1]->0->0 + 1
            == parsed[i]->0->0) {
        if good < k {
            assert(record_flaw(numbers, good) is Some);
            assert(numbers[good] == parsed[good]->0);
            if good > 0 {
                assert(numbers[good - 1] == parsed[good - 1]->0);
                assert(parsed[good - 1]->0 is Some);
            }
        }
    }
}

} // verus!
