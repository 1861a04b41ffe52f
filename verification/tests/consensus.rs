//! Cached validator and proposer sets, and who is expected to propose.
use std::sync::Arc;

use pathfinder::consensus::selection::{
    expected_proposer_of, ConsensusProposerOracle, ConstantProposer, ExpectedProposer,
    L2ProposerSelector, L2ValidatorSetProvider, OracleError, MAX_CACHED_HEIGHTS,
};
use pathfinder::consensus::validator_cache::ValidatorCache;
use pathfinder::consensus::validators::{
    create_proposers_from_config, create_validators_from_config, proposers_from_l2,
    select_proposer, ConsensusConfig, FetchedProposer, SelectionError, SetSource, Validator,
    ValidatorSet,
};
use pathfinder::felt::Felt;

fn config() -> ConsensusConfig {
    let proposer = Felt::from_u64(1);
    ConsensusConfig {
        my_validator_address: proposer,
        validator_addresses: vec![proposer],
        proposer_addresses: vec![proposer],
        history_depth: 0,
    }
}

fn proposer_set_at(selector: &mut L2ProposerSelector, height: u64) -> Arc<ValidatorSet> {
    selector
        .proposer_set_at(height, || {
            Ok::<_, String>(create_proposers_from_config(&config(), &vec![[0; 32]]))
        })
        .unwrap()
}

#[test]
fn fetch_proposers_repeat_lookup_at_same_height_hits_cache() {
    let mut selector = L2ProposerSelector::new();
    let first = proposer_set_at(&mut selector, 42);
    let second = proposer_set_at(&mut selector, 42);
    // One allocation: the second call was served from the cache.
    assert!(Arc::ptr_eq(&first, &second));
}

#[test]
fn fetch_proposers_distinct_heights_get_distinct_entries() {
    let mut selector = L2ProposerSelector::new();
    let a = proposer_set_at(&mut selector, 1);
    let b = proposer_set_at(&mut selector, 2);
    assert!(!Arc::ptr_eq(&a, &b));
}

#[test]
fn fetch_proposers_evicts_oldest_height_when_over_capacity() {
    let mut selector = L2ProposerSelector::new();
    let zero_first = proposer_set_at(&mut selector, 0);
    for h in 1..=MAX_CACHED_HEIGHTS as u64 {
        proposer_set_at(&mut selector, h);
    }
    let zero_again = proposer_set_at(&mut selector, 0);
    assert!(!Arc::ptr_eq(&zero_first, &zero_again));
}

fn validator(address: u64) -> Validator {
    Validator { address: Felt::from_u64(address), public_key: [0; 32], voting_power: 1 }
}

fn validator_set(addresses: &[u64]) -> ValidatorSet {
    ValidatorSet { validators: addresses.iter().map(|a| validator(*a)).collect() }
}

fn cached_validator_set(cache: &mut ValidatorCache, height: u64) -> Arc<ValidatorSet> {
    cache
        .get_or_insert_with(height, 10, || Ok::<_, String>(validator_set(&[1])))
        .unwrap()
}

#[test]
fn validator_cache_repeat_lookup_at_same_height_hits_cache() {
    let mut cache = ValidatorCache::default();
    let first = cached_validator_set(&mut cache, 42);
    let second = cached_validator_set(&mut cache, 42);

    assert!(Arc::ptr_eq(&first, &second));
}

#[test]
fn validator_cache_distinct_heights_get_distinct_entries() {
    let mut cache = ValidatorCache::default();
    let a = cached_validator_set(&mut cache, 1);
    let b = cached_validator_set(&mut cache, 2);

    assert!(!Arc::ptr_eq(&a, &b));
}

#[test]
fn validator_cache_evicts_oldest_height_when_over_capacity() {
    let mut cache = ValidatorCache::default();
    let zero_first = cached_validator_set(&mut cache, 0);
    let max_cached_heights = 10;

    for h in 1..=max_cached_heights as u64 {
        cached_validator_set(&mut cache, h);
    }
    let zero_again = cached_validator_set(&mut cache, 0);

    assert!(!Arc::ptr_eq(&zero_first, &zero_again));
}

#[test]
fn a_full_cache_keeps_the_largest_heights() {
    let mut cache = ValidatorCache::new();
    for h in [5u64, 3, 9, 7] {
        cache.insert_fetched(h, 2, validator_set(&[h]));
    }
    assert!(cache.get(3).is_none());
    assert!(cache.get(5).is_none());
    assert!(cache.get(7).is_some());
    assert_eq!(cache.get(9).unwrap().validators[0].address, Felt::from_u64(9));
    // A set that is there already stays.
    let kept = cache.insert_fetched(9, 2, validator_set(&[1]));
    assert_eq!(kept.validators[0].address, Felt::from_u64(9));
}

#[test]
fn a_failed_fetch_is_not_cached() {
    let mut cache = ValidatorCache::new();
    let failed = cache.get_or_insert_with(1, 10, || Err::<ValidatorSet, _>("down"));
    assert_eq!(failed.unwrap_err(), "down");
    assert!(cache.get(1).is_none());
}

#[test]
fn configured_sets_take_the_keys_given() {
    let mut config = config();
    config.validator_addresses = vec![Felt::from_u64(2)];
    assert_eq!(config.proposer_source(), SetSource::Config);
    assert_eq!(config.validator_source(), SetSource::Config);
    let set = create_validators_from_config(&config, &vec![[7; 32], [8; 32]]);
    assert_eq!(
        set.validators,
        vec![
            Validator { address: Felt::from_u64(1), public_key: [7; 32], voting_power: 1 },
            Validator { address: Felt::from_u64(2), public_key: [8; 32], voting_power: 1 },
        ]
    );
    config.proposer_addresses = vec![];
    config.validator_addresses = vec![];
    assert_eq!(config.proposer_source(), SetSource::L2);
    assert_eq!(config.validator_source(), SetSource::L2);
    config.history_depth = 12;
    assert_eq!(config.max_cached_heights(), 12);
    assert_eq!(L2ValidatorSetProvider::new(&config).max_cached_heights, 12);
}

#[test]
fn the_priority_of_a_fetched_proposer_is_its_power() {
    let set = proposers_from_l2(&vec![FetchedProposer {
        address: Felt::from_u64(4),
        public_key: [1; 32],
        priority: 9,
    }]);
    assert_eq!(
        set.validators,
        vec![Validator { address: Felt::from_u64(4), public_key: [1; 32], voting_power: 9 }]
    );
}

#[test]
fn the_first_proposer_is_selected_from_the_validators() {
    let validators = validator_set(&[1, 2, 3]);
    assert_eq!(select_proposer(&validator_set(&[2, 1]), &validators), Ok(validator(2)));
    let e = select_proposer(&validator_set(&[]), &validators).unwrap_err();
    assert_eq!(e, SelectionError::NoProposers);
    assert_eq!(e.message(), "No proposers found");
    let e = select_proposer(&validator_set(&[9]), &validators).unwrap_err();
    assert_eq!(e, SelectionError::NotAValidator);
    assert_eq!(e.message(), "Proposer must be in validator set");
}

#[test]
fn the_oracle_expects_the_selected_proposer() {
    let mut oracle = ConsensusProposerOracle::new(
        L2ProposerSelector::new(),
        L2ValidatorSetProvider::new(&config()),
    );
    let expected = oracle.expected_proposer(
        3,
        0,
        || Ok::<_, String>(validator_set(&[5, 6])),
        || Ok::<_, String>(validator_set(&[6])),
    );
    assert_eq!(expected.unwrap(), Felt::from_u64(6));
    let failed = oracle.expected_proposer(
        4,
        0,
        || Err::<ValidatorSet, _>("down".to_string()),
        || Ok(validator_set(&[6])),
    );
    assert!(matches!(failed, Err(OracleError::Fetch(e)) if e == "down"));
    let refused = expected_proposer_of::<String>(
        Ok(Arc::new(validator_set(&[5]))),
        Ok(Arc::new(validator_set(&[]))),
    );
    assert!(matches!(refused, Err(OracleError::Selection(SelectionError::NoProposers))));
    let constant = ConstantProposer(Felt::from_u64(8));
    assert_eq!(constant.expected_proposer(1, 2), Ok(Felt::from_u64(8)));
}
