//! A simulated chain: a new block becomes the latest one as time goes by.
use vstd::hash_map::StringHashMap;
use vstd::prelude::*;
use vstd::string::*;

use crate::bytes::{be_u64, lemma_be_u64_injective, lemma_be_u64_value, u64_to_be_bytes};
use crate::feeder::clock::{now, tick, ticked};
use crate::text::{lemma_short_hex_injective, push_short_hex, short_hex};

verus! {

/// The progress of a simulated chain.
pub struct Progress {
    block_duration_sec: u16,
    latest_now: Option<u64>,
    // has to be per-session to send unchanged responses only to
    // clients who did previously receive a full response
    preconfirmed_now: StringHashMap<u64>,
    response_counter: u64,
    available_since: Option<u128>,
}

/// The progress of a simulated chain, over a map.
#[verifier::ext_equal]
pub struct ProgressState {
    /// The seconds that a block takes.
    pub period: u16,
    /// The latest block, where progress is simulated at all.
    pub latest: Option<u64>,
    /// The block that was last sent under each identifier.
    pub sent: Map<Seq<char>, u64>,
    /// The number of full responses.
    pub responses: u64,
    /// Since when the latest block is available, in nanoseconds.
    pub since: Option<u128>,
}

impl View for Progress {
    type V = ProgressState;

    closed spec fn view(&self) -> ProgressState {
        ProgressState {
            period: self.block_duration_sec,
            latest: self.latest_now,
            sent: self.preconfirmed_now@,
            responses: self.response_counter,
            since: self.available_since,
        }
    }
}

impl ProgressState {
    /// The state after a look at the clock.
    pub open spec fn at(self, now: u128) -> ProgressState {
        match self.latest {
            None => self,
            Some(latest) => {
                let (since, new) = ticked(self.since, self.period, now);
                ProgressState {
                    latest: if new {
                        Some((latest + 1) as u64)
                    } else {
                        Some(latest)
                    },
                    since,
                    ..self
                }
            },
        }
    }

    /// Whether a client was already sent the block that is being built on top of `latest`. An empty
    /// identifier stands for a client that was sent nothing.
    pub open spec fn is_up_to_date(self, identifier: Seq<char>, latest: u64) -> bool {
        identifier.len() > 0 && self.sent.contains_key(identifier) && self.sent[identifier] == latest
            + 2
    }

    /// The state after the block that is being built was sent under a new identifier.
    pub open spec fn after_sending(self, identifier: Seq<char>, latest: u64) -> ProgressState {
        let count = (self.responses + 1) as u64;
        ProgressState {
            responses: count,
            sent: self.sent.remove(identifier).insert(identifier_for(count), (latest + 2) as u64),
            ..self
        }
    }
}

/// The identifier of a response.
pub open spec fn identifier_for(count: u64) -> Seq<char> {
    short_hex(be_u64(count))
}

/// The identifier of a full response.
pub open spec fn reply_identifier(reply: Option<(u64, Seq<char>)>) -> Seq<char> {
    match reply {
        Some((_, id)) => id,
        None => Seq::empty(),
    }
}

/// What a client is sent, and the state after that.
pub open spec fn preconfirmed_step(s: ProgressState, identifier: Seq<char>, now: u128) -> (
    ProgressState,
    Option<(u64, Seq<char>)>,
) {
    let t = s.at(now);
    match t.latest {
        None => (t, None),
        Some(latest) => if t.is_up_to_date(identifier, latest) {
            (t, None)
        } else {
            let u = t.after_sending(identifier, latest);
            (u, Some(((latest + 2) as u64, identifier_for(u.responses))))
        },
    }
}

impl Progress {
    pub fn new(latest: Option<u64>) -> (r: Self)
        ensures
            r@ == (ProgressState {
                period: 2,
                latest,
                sent: Map::empty(),
                responses: 0,
                since: None,
            }),
    {
        Progress {
            block_duration_sec: 2,
            latest_now: latest,
            preconfirmed_now: StringHashMap::new(),
            response_counter: 0,
            available_since: None,
        }
    }

    /// The latest block at a time. Where none is configured there is none at any time.
    pub fn timed_latest_at(&mut self, now: u128) -> (r: Option<u64>)
        requires
            old(self)@.latest matches Some(l) ==> l < u64::MAX,
        ensures
            final(self)@ == old(self)@.at(now),
            r == final(self)@.latest,
    {
        match self.latest_now {
            None => None,
            Some(latest) => {
                let new: bool = self.update_time(now);
                if new {
                    self.latest_now = Some(latest + 1);
                }
                self.latest_now
            },
        }
    }

    fn update_time(&mut self, now: u128) -> (r: bool)
        ensures
            (final(self)@.since, r) == ticked(old(self)@.since, old(self)@.period, now),
            final(self)@ == (ProgressState { since: final(self)@.since, ..old(self)@ }),
    {
        tick(&mut self.available_since, self.block_duration_sec, now)
    }

    /// The latest block now.
    pub fn timed_latest(&mut self) -> (r: Option<u64>)
        requires
            old(self)@.latest matches Some(l) ==> l < u64::MAX,
        ensures
            exists|now: u128| final(self)@ == #[trigger] old(self)@.at(now),
            r == final(self)@.latest,
    {
        let time: u128 = now();
        let r = self.timed_latest_at(time);
        assert(self@ == old(self)@.at(time));
        r
    }

    fn read_preconfirmed(&self, identifier: &str) -> (r: Option<u64>)
        ensures
            r == (if identifier@.len() > 0 && self@.sent.contains_key(identifier@) {
                Some(self@.sent[identifier@])
            } else {
                None
            }),
    {
        if identifier.unicode_len() == 0 {
            None
        } else {
            match self.preconfirmed_now.get(identifier) {
                Some(n) => Some(*n),
                None => None,
            }
        }
    }

    /// What the client with an identifier is sent at a time: the number of the block that is being
    /// built and a new identifier, or nothing where what it was sent is still valid.
    pub fn timed_preconfirmed_at(&mut self, identifier: &str, now: u128) -> (r: Option<(u64, String)>)
        requires
            old(self)@.latest matches Some(l) ==> l + 3 <= u64::MAX,
            old(self)@.responses < u64::MAX,
        ensures
            final(self)@ == preconfirmed_step(old(self)@, identifier@, now).0,
            match preconfirmed_step(old(self)@, identifier@, now).1 {
                None => r is None,
                Some((number, id)) => r matches Some((n, i)) && n == number && i@ == id,
            },
    {
        let latest: u64 = match self.timed_latest_at(now) {
            None => {
                return None;
            },
            Some(latest) => latest,
        };
        let update: bool = match self.read_preconfirmed(identifier) {
            Some(last) => last != latest + 2,
            None => true,
        };
        if !update {
            return None;
        }
        let ghost before = self@;
        self.response_counter = self.response_counter + 1;
        let mut new_identifier: String = String::new();
        let bytes = u64_to_be_bytes(self.response_counter);
        proof {
            crate::bytes::lemma_be_u64_value(self.response_counter);
        }
        push_short_hex(&mut new_identifier, bytes.as_slice());
        assert(new_identifier@ =~= identifier_for(self.response_counter));
        self.preconfirmed_now.remove(identifier);
        self.preconfirmed_now.insert(new_identifier.clone(), latest + 2);
        assert(self@ =~= before.after_sending(identifier@, latest));
        Some((latest + 2, new_identifier))
    }

    /// What the client with an identifier is sent now.
    pub fn timed_preconfirmed(&mut self, identifier: &str) -> (r: Option<(u64, String)>)
        requires
            old(self)@.latest matches Some(l) ==> l + 3 <= u64::MAX,
            old(self)@.responses < u64::MAX,
        ensures
            exists|now: u128| {
                let (state, reply) = #[trigger] preconfirmed_step(old(self)@, identifier@, now);
                &&& final(self)@ == state
                &&& match reply {
                    None => r is None,
                    Some((number, id)) => r matches Some((n, i)) && n == number && i@ == id,
                }
            },
    {
        let time: u128 = now();
        let r = self.timed_preconfirmed_at(identifier, time);
        assert(self@ == preconfirmed_step(old(self)@, identifier@, time).0);
        r
    }
}

impl Default for Progress {
    fn default() -> (r: Self)
        ensures
            r@ == (ProgressState {
                period: 0,
                latest: None,
                sent: Map::empty(),
                responses: 0,
                since: None,
            }),
    {
        Progress {
            block_duration_sec: 0,
            latest_now: None,
            preconfirmed_now: StringHashMap::new(),
            response_counter: 0,
            available_since: None,
        }
    }
}

/// No two responses have the same identifier: a client never goes by the identifier of another.
pub proof fn law_identifiers_differ(a: u64, b: u64)
    requires
        a != b,
    ensures
        identifier_for(a) != identifier_for(b),
{
    if identifier_for(a) == identifier_for(b) {
        lemma_be_u64_value(a);
        lemma_be_u64_value(b);
        lemma_short_hex_injective(be_u64(a), be_u64(b));
        lemma_be_u64_injective(a, b);
    }
}

/// A client that was sent a block is sent nothing more under its new identifier until the latest
/// block is another.
pub proof fn law_unchanged_until_the_next_block(
    s: ProgressState,
    identifier: Seq<char>,
    now: u128,
    later: u128,
)
    requires
        s.latest matches Some(l) && l + 4 <= u64::MAX,
        s.responses < u64::MAX,
        preconfirmed_step(s, identifier, now).1 is Some,
    ensures
        ({
            let (t, sent) = preconfirmed_step(s, identifier, now);
            let (u, again) = preconfirmed_step(t, reply_identifier(sent), later);
            again is None <==> u.latest == t.latest
        }),
{
    let (t, sent) = preconfirmed_step(s, identifier, now);
    let (number, id) = sent->0;
    assert(id.len() > 0) by {
        reveal_strlit("0x");
    }
}

} // verus!
