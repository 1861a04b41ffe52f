//! Who is selected as proposer, what sets are made of, and what a cache of sets keeps.
use std::sync::Arc;
use vstd::prelude::*;

use crate::consensus::selection::{
    expected, is_looked_up, is_oracle_outcome, ConsensusProposerOracle, OracleError,
};
use crate::consensus::validator_cache::is_cached;
use crate::consensus::validators::{
    as_validator, equal_validators, lemma_first_with_address, selected, validator_addresses,
    ConsensusConfig, FetchedProposer, SelectionError, Validator, ValidatorSet,
};
use crate::felt::Felt;

verus! {

/// The validator with the address of the first proposer is selected, the first one where there are
/// several. None is selected exactly where there are no proposers, or where the first is no
/// validator.
pub proof fn law_first_proposer_is_selected(proposers: Seq<Validator>, validators: Seq<Validator>)
    ensures
        match selected(proposers, validators) {
            Ok(chosen) => proposers.len() > 0 && exists|i: int|
                0 <= i < validators.len() && #[trigger] validators[i] == chosen && chosen.address
                    == proposers[0].address && forall|j: int|
                    0 <= j < i ==> (#[trigger] validators[j]).address != chosen.address,
            Err(SelectionError::NoProposers) => proposers.len() == 0,
            Err(SelectionError::NotAValidator) => proposers.len() > 0 && forall|j: int|
                0 <= j < validators.len() ==> (#[trigger] validators[j]).address
                    != proposers[0].address,
        },
{
    if proposers.len() > 0 {
        lemma_first_with_address(validators, proposers[0].address);
    }
}

/// Sets that could not be fetched and failures of the selection are told as such, those of the
/// validators before those of the proposers.
pub proof fn law_expected_proposer_fails_as_its_sets<E>(
    v: Result<Arc<ValidatorSet>, E>,
    p: Result<Arc<ValidatorSet>, E>,
)
    ensures
        v matches Err(e) ==> expected(v, p) == Err::<Felt, OracleError<E>>(OracleError::Fetch(e)),
        v is Ok ==> (p matches Err(e) ==> expected(v, p) == Err::<Felt, OracleError<E>>(
            OracleError::Fetch(e),
        )),
        v matches Ok(vs) ==> (p matches Ok(ps) ==> match selected(ps.validators@, vs.validators@) {
            Ok(chosen) => expected(v, p) == Ok::<Felt, OracleError<E>>(chosen.address),
            Err(e) => expected(v, p) == Err::<Felt, OracleError<E>>(OracleError::Selection(e)),
        }),
{
}

/// Of the configured addresses each makes one validator of power one, with the key of its place, in
/// the order of the configuration. The validators start with one's own.
pub proof fn law_configured_sets(config: ConsensusConfig, keys: Seq<[u8; 32]>, i: int)
    requires
        0 <= i,
    ensures
        ({
            let all = equal_validators(validator_addresses(config), keys);
            &&& all.len() == config.validator_addresses@.len() + 1
            &&& all[0].address == config.my_validator_address && all[0].public_key == keys[0]
                && all[0].voting_power == 1
            &&& i < config.validator_addresses@.len() ==> all[i + 1].address
                == config.validator_addresses@[i] && all[i + 1].public_key == keys[i + 1]
                && all[i + 1].voting_power == 1
        }),
        ({
            let all = equal_validators(config.proposer_addresses@, keys);
            &&& all.len() == config.proposer_addresses@.len()
            &&& i < all.len() ==> all[i].address == config.proposer_addresses@[i]
                && all[i].public_key == keys[i] && all[i].voting_power == 1
        }),
{
}

/// A proposer of the contract keeps its address and its key, and its priority is its power.
pub proof fn law_fetched_proposer_keeps_its_priority(p: FetchedProposer)
    ensures
        as_validator(p).address == p.address,
        as_validator(p).public_key == p.public_key,
        as_validator(p).voting_power == p.priority,
{
}

/// After a lookup a cache holds for each height what it held before, or what was fetched just now;
/// nothing goes while there is room; and what goes is below all that stays.
pub proof fn law_cache_keeps_the_highest(
    before: Map<u64, Arc<ValidatorSet>>,
    height: u64,
    max: usize,
    fetched: ValidatorSet,
    after: Map<u64, Arc<ValidatorSet>>,
    r: Arc<ValidatorSet>,
    k: u64,
    other: u64,
)
    requires
        before.dom().finite(),
        is_cached(before, height, max, fetched, after, r),
    ensures
        before.contains_key(height) ==> r == before[height] && after == before,
        !before.contains_key(height) ==> *r == fetched,
        after.contains_key(k) ==> (before.contains_key(k) && after[k] == before[k]) || (k == height
            && after[k] == r),
        before.len() < max && (before.contains_key(k) || k == height) ==> after.contains_key(k),
        before.contains_key(k) && !after.contains_key(k) && after.contains_key(other) ==> k < other,
        !before.contains_key(height) && before.len() >= max ==> after.len() == max,
{
    if !before.contains_key(height) {
        let full = before.insert(height, r);
        assert(full.dom() =~= before.dom().insert(height));
        if after.contains_key(k) {
            assert(full.contains_key(k));
        }
        if before.contains_key(k) {
            assert(full.contains_key(k));
        }
        if before.len() < max {
            assert(after.dom().subset_of(full.dom()));
            vstd::set_lib::lemma_subset_equality(after.dom(), full.dom());
        }
    }
}

/// A height that is cached is served from the cache and nothing is fetched; for another one the set
/// fetched is served, and where none could be fetched the cache stays as it is.
pub proof fn law_cached_height_is_not_fetched<E, F: FnOnce() -> Result<ValidatorSet, E>>(
    before: Map<u64, Arc<ValidatorSet>>,
    height: u64,
    max: usize,
    fetch: F,
    after: Map<u64, Arc<ValidatorSet>>,
    r: Result<Arc<ValidatorSet>, E>,
)
    requires
        is_looked_up(before, height, max, fetch, after, r),
    ensures
        before.contains_key(height) ==> r == Ok::<Arc<ValidatorSet>, E>(before[height]) && after
            == before,
        !before.contains_key(height) ==> (r matches Ok(set) ==> call_ensures(
            fetch,
            (),
            Ok::<ValidatorSet, E>(*set),
        )),
        !before.contains_key(height) ==> (r matches Err(e) ==> after == before && call_ensures(
            fetch,
            (),
            Err::<ValidatorSet, E>(e),
        )),
{
}

/// Where the sets of a height are cached, the proposer that is expected is the one selected from
/// them, and no cache is changed. Where the validators cannot be had, that is the error, and the
/// cache of proposers stays as it is; a proposer is named only where both sets were had, and it is
/// the address of one of the validators.
pub proof fn law_cached_sets_decide_the_proposer<
    E,
    V: FnOnce() -> Result<ValidatorSet, E>,
    P: FnOnce() -> Result<ValidatorSet, E>,
>(
    before: ConsensusProposerOracle,
    height: u64,
    fetch_validators: V,
    fetch_proposers: P,
    after: ConsensusProposerOracle,
    v: Result<Arc<ValidatorSet>, E>,
    p: Result<Arc<ValidatorSet>, E>,
    r: Result<Felt, OracleError<E>>,
)
    requires
        is_oracle_outcome(before, height, fetch_validators, fetch_proposers, after, v, p, r),
    ensures
        ({
            let validators = before.validator_set_provider.cache@;
            let proposers = before.proposer_selector.cache@;
            &&& validators.contains_key(height) && proposers.contains_key(height) ==> {
                &&& after.validator_set_provider.cache@ == validators
                &&& after.proposer_selector.cache@ == proposers
                &&& match selected(
                    proposers[height].validators@,
                    validators[height].validators@,
                ) {
                    Ok(chosen) => r == Ok::<Felt, OracleError<E>>(chosen.address),
                    Err(e) => r == Err::<Felt, OracleError<E>>(OracleError::Selection(e)),
                }
            }
            &&& v matches Err(e) ==> r == Err::<Felt, OracleError<E>>(OracleError::Fetch(e))
                && after.proposer_selector == before.proposer_selector
            &&& r matches Ok(address) ==> v is Ok && p is Ok && exists|i: int|
                0 <= i < v->Ok_0.validators@.len() && (#[trigger] v->Ok_0.validators@[i]).address
                    == address
        }),
{
    if let Ok(address) = r {
        law_first_proposer_is_selected(p->Ok_0.validators@, v->Ok_0.validators@);
    }
}

} // verus!
