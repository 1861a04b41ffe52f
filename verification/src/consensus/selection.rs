//! Who proposes at a height: the answer that the consensus engine uses, and that a validator checks
//! proposals against.
use std::sync::Arc;
use vstd::prelude::*;

use crate::consensus::validator_cache::{is_cached, ValidatorCache};
use crate::consensus::validators::{
    select_proposer, selected, ConsensusConfig, SelectionError, Validator, ValidatorSet,
};
use crate::felt::Felt;

verus! {

/// Upper bound on the number of distinct heights whose proposer sets are kept in memory.
pub const MAX_CACHED_HEIGHTS: usize = 32;

/// What a lookup by height in a cache returns and leaves behind.
pub open spec fn is_looked_up<E, F: FnOnce() -> Result<ValidatorSet, E>>(
    before: Map<u64, Arc<ValidatorSet>>,
    height: u64,
    max: usize,
    fetch: F,
    after: Map<u64, Arc<ValidatorSet>>,
    r: Result<Arc<ValidatorSet>, E>,
) -> bool {
    if before.contains_key(height) {
        r == Ok::<Arc<ValidatorSet>, E>(before[height]) && after == before
    } else {
        match r {
            Ok(set) => call_ensures(fetch, (), Ok::<ValidatorSet, E>(*set)) && is_cached(
                before,
                height,
                max,
                *set,
                after,
                set,
            ),
            Err(e) => call_ensures(fetch, (), Err::<ValidatorSet, E>(e)) && after == before,
        }
    }
}

/// A proposer selector that fetches proposers from config or L2.
#[derive(Debug)]
pub struct L2ProposerSelector {
    /// Memoized proposer sets keyed by height. Proposers are asked for multiple times per height
    /// (once per round, once per incoming proposal), and the lookup on L2 is expensive.
    pub cache: ValidatorCache,
}

impl L2ProposerSelector {
    pub fn new() -> (r: Self)
        ensures
            r.cache@ == Map::<u64, Arc<ValidatorSet>>::empty(),
    {
        L2ProposerSelector { cache: ValidatorCache::new() }
    }

    /// Returns the proposer set for `height`, fetching only on a cache miss.
    pub fn proposer_set_at<E, F: FnOnce() -> Result<ValidatorSet, E>>(
        &mut self,
        height: u64,
        fetch: F,
    ) -> (r: Result<Arc<ValidatorSet>, E>)
        requires
            call_requires(fetch, ()),
        ensures
            is_looked_up(
                old(self).cache@,
                height,
                MAX_CACHED_HEIGHTS,
                fetch,
                final(self).cache@,
                r,
            ),
    {
        self.cache.get_or_insert_with(height, MAX_CACHED_HEIGHTS, fetch)
    }
}

/// Provides the validator sets of heights.
#[derive(Debug)]
pub struct L2ValidatorSetProvider {
    pub max_cached_heights: usize,
    /// Memoized validator sets keyed by height. Consensus repeatedly requests validator sets while
    /// processing a height, and the lookup on L2 is expensive.
    pub cache: ValidatorCache,
}

impl L2ValidatorSetProvider {
    pub fn new(config: &ConsensusConfig) -> (r: Self)
        ensures
            r.max_cached_heights == (if config.history_depth <= usize::MAX {
                config.history_depth as usize
            } else {
                10
            }),
            r.cache@ == Map::<u64, Arc<ValidatorSet>>::empty(),
    {
        L2ValidatorSetProvider {
            max_cached_heights: config.max_cached_heights(),
            cache: ValidatorCache::new(),
        }
    }

    /// Returns the validator set for `height`, fetching only on a cache miss.
    pub fn validator_set_at<E, F: FnOnce() -> Result<ValidatorSet, E>>(
        &mut self,
        height: u64,
        fetch: F,
    ) -> (r: Result<Arc<ValidatorSet>, E>)
        requires
            call_requires(fetch, ()),
        ensures
            final(self).max_cached_heights == old(self).max_cached_heights,
            is_looked_up(
                old(self).cache@,
                height,
                old(self).max_cached_heights,
                fetch,
                final(self).cache@,
                r,
            ),
    {
        self.cache.get_or_insert_with(height, self.max_cached_heights, fetch)
    }
}

/// Why there is no expected proposer.
#[derive(Debug)]
pub enum OracleError<E> {
    /// A set could not be fetched.
    Fetch(E),
    Selection(SelectionError),
}

/// The proposer that is expected, given the sets of a height: the one that the consensus engine
/// selects from the same sets.
pub open spec fn expected<E>(
    validators: Result<Arc<ValidatorSet>, E>,
    proposers: Result<Arc<ValidatorSet>, E>,
) -> Result<Felt, OracleError<E>> {
    match validators {
        Err(e) => Err(OracleError::Fetch(e)),
        Ok(v) => match proposers {
            Err(e) => Err(OracleError::Fetch(e)),
            Ok(p) => match selected(p.validators@, v.validators@) {
                Ok(chosen) => Ok(chosen.address),
                Err(e) => Err(OracleError::Selection(e)),
            },
        },
    }
}

/// The expected proposer, given the sets of a height.
pub fn expected_proposer_of<E>(
    validators: Result<Arc<ValidatorSet>, E>,
    proposers: Result<Arc<ValidatorSet>, E>,
) -> (r: Result<Felt, OracleError<E>>)
    ensures
        r == expected(validators, proposers),
{
    match validators {
        Err(e) => Err(OracleError::Fetch(e)),
        Ok(v) => match proposers {
            Err(e) => Err(OracleError::Fetch(e)),
            Ok(p) => match select_proposer(&p, &v) {
                Ok(chosen) => Ok(chosen.address),
                Err(e) => Err(OracleError::Selection(e)),
            },
        },
    }
}

/// Resolves the expected proposer with the selection that the consensus engine uses, so that the two
/// cannot diverge.
#[derive(Debug)]
pub struct ConsensusProposerOracle {
    pub proposer_selector: L2ProposerSelector,
    pub validator_set_provider: L2ValidatorSetProvider,
}

impl ConsensusProposerOracle {
    pub fn new(
        proposer_selector: L2ProposerSelector,
        validator_set_provider: L2ValidatorSetProvider,
    ) -> (r: Self)
        ensures
            r == (ConsensusProposerOracle { proposer_selector, validator_set_provider }),
    {
        ConsensusProposerOracle { proposer_selector, validator_set_provider }
    }

    /// The proposer expected at a height, whatever the round. The validators are looked up first.
    pub fn expected_proposer<
        E,
        V: FnOnce() -> Result<ValidatorSet, E>,
        P: FnOnce() -> Result<ValidatorSet, E>,
    >(&mut self, height: u64, round: u32, fetch_validators: V, fetch_proposers: P) -> (r: Result<
        Felt,
        OracleError<E>,
    >)
        requires
            call_requires(fetch_validators, ()),
            call_requires(fetch_proposers, ()),
        ensures
            exists|v: Result<Arc<ValidatorSet>, E>, p: Result<Arc<ValidatorSet>, E>|
                #[trigger] is_oracle_outcome(
                    *old(self),
                    height,
                    fetch_validators,
                    fetch_proposers,
                    *final(self),
                    v,
                    p,
                    r,
                ),
    {
        let looked_up = self.validator_set_provider.validator_set_at(height, fetch_validators);
        let ghost v = looked_up;
        match looked_up {
            Err(e) => {
                let r: Result<Felt, OracleError<E>> = Err(OracleError::Fetch(e));
                assert(is_oracle_outcome(
                    *old(self),
                    height,
                    fetch_validators,
                    fetch_proposers,
                    *self,
                    v,
                    v,
                    r,
                ));
                r
            },
            Ok(validators) => {
                let proposers = self.proposer_selector.proposer_set_at(height, fetch_proposers);
                let ghost p = proposers;
                let r: Result<Felt, OracleError<E>> = expected_proposer_of(
                    Ok(validators),
                    proposers,
                );
                assert(is_oracle_outcome(
                    *old(self),
                    height,
                    fetch_validators,
                    fetch_proposers,
                    *self,
                    v,
                    p,
                    r,
                ));
                r
            },
        }
    }
}

/// What asking for the expected proposer comes to, where `v` and `p` are what the lookups of the two
/// sets return: the proposers are looked up only where there are validators.
pub open spec fn is_oracle_outcome<
    E,
    V: FnOnce() -> Result<ValidatorSet, E>,
    P: FnOnce() -> Result<ValidatorSet, E>,
>(
    before: ConsensusProposerOracle,
    height: u64,
    fetch_validators: V,
    fetch_proposers: P,
    after: ConsensusProposerOracle,
    v: Result<Arc<ValidatorSet>, E>,
    p: Result<Arc<ValidatorSet>, E>,
    r: Result<Felt, OracleError<E>>,
) -> bool {
    &&& is_looked_up(
        before.validator_set_provider.cache@,
        height,
        before.validator_set_provider.max_cached_heights,
        fetch_validators,
        after.validator_set_provider.cache@,
        v,
    )
    &&& r == expected(v, p)
    &&& if v is Ok {
        is_looked_up(
            before.proposer_selector.cache@,
            height,
            MAX_CACHED_HEIGHTS,
            fetch_proposers,
            after.proposer_selector.cache@,
            p,
        )
    } else {
        after.proposer_selector == before.proposer_selector
    }
}

/// Resolves the proposer expected to author the block at a given consensus `(height, round)`.
///
/// Implementations must compute the expected proposer using the same logic the consensus engine uses
/// to select proposers, so the validator's "expected proposer" and the engine's selection are
/// guaranteed to agree.
pub trait ExpectedProposer: Send + Sync {
    /// Returns the address of the proposer expected to propose at `(height, round)`.
    ///
    /// Errors are infrastructural (e.g. failing to read the validator or proposer set) and should be
    /// treated as fatal rather than as a rejected proposal.
    fn expected_proposer(&self, height: u64, round: u32) -> (r: Result<Felt, String>);
}

/// An [`ExpectedProposer`] that always resolves to the same proposer, regardless of height or round.
#[derive(Clone, Copy, Debug, PartialEq, Eq, Structural)]
pub struct ConstantProposer(pub Felt);

impl ExpectedProposer for ConstantProposer {
    fn expected_proposer(&self, height: u64, round: u32) -> (r: Result<Felt, String>)
        ensures
            r == Ok::<Felt, String>(self.0),
    {
        Ok(self.0)
    }
}

/// The expected proposer is the validator that the engine selects from the same sets: the first of
/// the proposers, who is a validator.
pub proof fn law_expected_proposer_is_the_selected_one<E>(
    v: Arc<ValidatorSet>,
    p: Arc<ValidatorSet>,
    chosen: Validator,
)
    requires
        selected(p.validators@, v.validators@) == Ok::<Validator, SelectionError>(chosen),
    ensures
        expected::<E>(Ok(v), Ok(p)) == Ok::<Felt, OracleError<E>>(chosen.address),
        v.validators@.contains(chosen),
        chosen.address == p.validators@[0].address,
{
    crate::consensus::validators::lemma_first_with_address(
        v.validators@,
        p.validators@[0].address,
    );
}

} // verus!
