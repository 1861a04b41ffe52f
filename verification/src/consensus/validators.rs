//! The validators and proposers of a height.
use vstd::prelude::*;

use crate::felt::Felt;

verus! {

/// A validator, or a proposer.
#[derive(Clone, Copy, Debug, PartialEq, Eq)]
pub struct Validator {
    pub address: Felt,
    pub public_key: [u8; 32],
    pub voting_power: u64,
}

#[derive(Debug)]
pub struct ValidatorSet {
    pub validators: Vec<Validator>,
}

/// Who takes part in consensus, as far as that is configured.
#[derive(Debug)]
pub struct ConsensusConfig {
    pub my_validator_address: Felt,
    pub validator_addresses: Vec<Felt>,
    pub proposer_addresses: Vec<Felt>,
    pub history_depth: u64,
}

/// Where a set comes from.
#[derive(Clone, Copy, Debug, PartialEq, Eq, Structural)]
pub enum SetSource {
    /// From the configuration.
    Config,
    /// From the contract on L2.
    L2,
}

impl ConsensusConfig {
    /// Config-based proposers are used if proposer addresses are provided in config, otherwise
    /// proposers are fetched from the contract.
    pub fn proposer_source(&self) -> (r: SetSource)
        ensures
            r == (if self.proposer_addresses@.len() == 0 {
                SetSource::L2
            } else {
                SetSource::Config
            }),
    {
        if self.proposer_addresses.len() == 0 {
            SetSource::L2
        } else {
            SetSource::Config
        }
    }

    /// Config-based validators are used if validator addresses are provided in config, otherwise
    /// validators are fetched from the contract.
    pub fn validator_source(&self) -> (r: SetSource)
        ensures
            r == (if self.validator_addresses@.len() == 0 {
                SetSource::L2
            } else {
                SetSource::Config
            }),
    {
        if self.validator_addresses.len() == 0 {
            SetSource::L2
        } else {
            SetSource::Config
        }
    }

    /// The number of heights whose validator sets are kept.
    pub fn max_cached_heights(&self) -> (r: usize)
        ensures
            r == (if self.history_depth <= usize::MAX {
                self.history_depth as usize
            } else {
                10
            }),
    {
        if self.history_depth <= usize::MAX as u64 {
            self.history_depth as usize
        } else {
            10
        }
    }
}

/// Validators of equal power with the given keys.
pub open spec fn equal_validators(addresses: Seq<Felt>, keys: Seq<[u8; 32]>) -> Seq<Validator> {
    Seq::new(
        addresses.len(),
        |i: int| Validator { address: addresses[i], public_key: keys[i], voting_power: 1 },
    )
}

fn with_keys(addresses: &Vec<Felt>, keys: &Vec<[u8; 32]>) -> (r: ValidatorSet)
    requires
        keys@.len() == addresses@.len(),
    ensures
        r.validators@ == equal_validators(addresses@, keys@),
{
    let mut validators: Vec<Validator> = Vec::new();
    let mut i: usize = 0;
    while i < addresses.len()
        invariant
            i <= addresses@.len(),
            keys@.len() == addresses@.len(),
            validators@ == equal_validators(addresses@, keys@).subrange(0, i as int),
        decreases addresses@.len() - i,
    {
        validators.push(
            Validator { address: addresses[i], public_key: keys[i], voting_power: 1 },
        );
        i = i + 1;
        assert(validators@ =~= equal_validators(addresses@, keys@).subrange(0, i as int));
    }
    assert(validators@ =~= equal_validators(addresses@, keys@));
    ValidatorSet { validators }
}

/// Creates proposers from consensus config, with the given keys and equal priority.
pub fn create_proposers_from_config(config: &ConsensusConfig, keys: &Vec<[u8; 32]>) -> (r:
    ValidatorSet)
    requires
        keys@.len() == config.proposer_addresses@.len(),
    ensures
        r.validators@ == equal_validators(config.proposer_addresses@, keys@),
{
    with_keys(&config.proposer_addresses, keys)
}

/// The addresses of the configured validators: one's own comes first.
pub open spec fn validator_addresses(config: ConsensusConfig) -> Seq<Felt> {
    seq![config.my_validator_address] + config.validator_addresses@
}

/// Creates validators from consensus config, with the given keys and equal voting power.
pub fn create_validators_from_config(config: &ConsensusConfig, keys: &Vec<[u8; 32]>) -> (r:
    ValidatorSet)
    requires
        keys@.len() == config.validator_addresses@.len() + 1,
    ensures
        r.validators@ == equal_validators(validator_addresses(*config), keys@),
{
    let mut addresses: Vec<Felt> = Vec::new();
    addresses.push(config.my_validator_address);
    let mut i: usize = 0;
    while i < config.validator_addresses.len()
        invariant
            i <= config.validator_addresses@.len(),
            addresses@ == validator_addresses(*config).subrange(0, i + 1),
        decreases config.validator_addresses@.len() - i,
    {
        addresses.push(config.validator_addresses[i]);
        i = i + 1;
        assert(addresses@ =~= validator_addresses(*config).subrange(0, i + 1));
    }
    assert(addresses@ =~= validator_addresses(*config));
    with_keys(&addresses, keys)
}

/// A proposer as the contract on L2 has it.
#[derive(Clone, Copy, Debug, PartialEq, Eq)]
pub struct FetchedProposer {
    pub address: Felt,
    pub public_key: [u8; 32],
    pub priority: u64,
}

/// The priority of a proposer is its voting power.
pub open spec fn as_validator(p: FetchedProposer) -> Validator {
    Validator { address: p.address, public_key: p.public_key, voting_power: p.priority }
}

/// The set of the proposers that the contract on L2 has.
pub fn proposers_from_l2(fetched: &Vec<FetchedProposer>) -> (r: ValidatorSet)
    ensures
        r.validators@ == fetched@.map_values(|p: FetchedProposer| as_validator(p)),
{
    let mut validators: Vec<Validator> = Vec::new();
    let ghost all = fetched@.map_values(|p: FetchedProposer| as_validator(p));
    let mut i: usize = 0;
    while i < fetched.len()
        invariant
            i <= fetched@.len(),
            all == fetched@.map_values(|p: FetchedProposer| as_validator(p)),
            validators@ == all.subrange(0, i as int),
        decreases fetched@.len() - i,
    {
        validators.push(
            Validator {
                address: fetched[i].address,
                public_key: fetched[i].public_key,
                voting_power: fetched[i].priority,
            },
        );
        i = i + 1;
        assert(validators@ =~= all.subrange(0, i as int));
    }
    assert(validators@ =~= all);
    ValidatorSet { validators }
}

/// The first validator with an address.
pub open spec fn first_with_address(validators: Seq<Validator>, address: Felt) -> Option<int>
    decreases validators.len(),
{
    if validators.len() == 0 {
        None
    } else {
        match first_with_address(validators.drop_last(), address) {
            Some(i) => Some(i),
            None => if validators.last().address == address {
                Some(validators.len() - 1)
            } else {
                None
            },
        }
    }
}

/// Before the first validator with an address there is none.
pub proof fn lemma_first_with_address(validators: Seq<Validator>, address: Felt)
    ensures
        match first_with_address(validators, address) {
            Some(i) => 0 <= i < validators.len() && validators[i].address == address && forall|
                j: int,
            |
                0 <= j < i ==> (#[trigger] validators[j]).address != address,
            None => forall|j: int|
                0 <= j < validators.len() ==> (#[trigger] validators[j]).address != address,
        },
    decreases validators.len(),
{
    if validators.len() > 0 {
        let front = validators.drop_last();
        lemma_first_with_address(front, address);
        assert(forall|j: int| 0 <= j < front.len() ==> front[j] == validators[j]);
    }
}

/// Why no proposer is selected.
#[derive(Clone, Copy, Debug, PartialEq, Eq, Structural)]
pub enum SelectionError {
    NoProposers,
    NotAValidator,
}

impl SelectionError {
    pub fn message(&self) -> (r: &'static str)
        ensures
            r@ == match self {
                SelectionError::NoProposers => "No proposers found"@,
                SelectionError::NotAValidator => "Proposer must be in validator set"@,
            },
    {
        match self {
            SelectionError::NoProposers => "No proposers found",
            SelectionError::NotAValidator => "Proposer must be in validator set",
        }
    }
}

/// The validator that is the first of the proposers.
pub open spec fn selected(proposers: Seq<Validator>, validators: Seq<Validator>) -> Result<
    Validator,
    SelectionError,
> {
    if proposers.len() == 0 {
        Err(SelectionError::NoProposers)
    } else {
        match first_with_address(validators, proposers[0].address) {
            Some(i) => Ok(validators[i]),
            None => Err(SelectionError::NotAValidator),
        }
    }
}

/// Selects the validator that proposes: whatever the round, the first proposer of the height.
pub fn select_proposer(proposer_set: &ValidatorSet, validator_set: &ValidatorSet) -> (r: Result<
    Validator,
    SelectionError,
>)
    ensures
        r == selected(proposer_set.validators@, validator_set.validators@),
{
    if proposer_set.validators.len() == 0 {
        return Err(SelectionError::NoProposers);
    }
    let address: Felt = proposer_set.validators[0].address;
    let ghost all = validator_set.validators@;
    let ghost first = first_with_address(all, address);
    proof {
        lemma_first_with_address(all, address);
    }
    let mut i: usize = 0;
    while i < validator_set.validators.len()
        invariant
            i <= validator_set.validators@.len(),
            all == validator_set.validators@,
            proposer_set.validators@.len() > 0,
            address == proposer_set.validators@[0].address,
            first == first_with_address(all, address),
            forall|j: int| 0 <= j < i ==> (#[trigger] all[j]).address != address,
            match first {
                Some(i) => 0 <= i < all.len() && all[i].address == address && forall|j: int|
                    0 <= j < i ==> (#[trigger] all[j]).address != address,
                None => forall|j: int|
                    0 <= j < all.len() ==> (#[trigger] all[j]).address != address,
            },
        decreases validator_set.validators@.len() - i,
    {
        if validator_set.validators[i].address == address {
            assert(all[i as int].address == address);
            return Ok(validator_set.validators[i]);
        }
        i = i + 1;
    }
    Err(SelectionError::NotAValidator)
}

} // verus!
