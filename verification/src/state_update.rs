//! The changes that a block makes to the state.
use vstd::prelude::*;

use crate::felt::Felt;
use crate::felt_map::{distinct_keys, lemma_items_map, FeltMap, FeltSet};

verus! {

/// How a contract came by its class.
#[derive(Clone, Copy, Debug, PartialEq, Eq, Structural)]
pub enum ContractClassUpdate {
    Deploy(Felt),
    Replace(Felt),
}

/// The hash of the class that a contract has after a change.
pub open spec fn class_hash_of(u: ContractClassUpdate) -> Felt {
    match u {
        ContractClassUpdate::Deploy(h) => h,
        ContractClassUpdate::Replace(h) => h,
    }
}

impl ContractClassUpdate {
    /// The hash of the class that the contract has now.
    pub fn class_hash(&self) -> (r: Felt)
        ensures
            r == class_hash_of(*self),
    {
        match self {
            ContractClassUpdate::Deploy(h) => *h,
            ContractClassUpdate::Replace(h) => *h,
        }
    }
}

/// What a block changes of one contract.
#[derive(Debug)]
pub struct ContractUpdate {
    pub storage: FeltMap<Felt>,
    pub class: Option<ContractClassUpdate>,
    pub nonce: Option<Felt>,
}

/// What a block changes of a contract that has storage alone.
#[derive(Debug)]
pub struct SystemContractUpdate {
    pub storage: FeltMap<Felt>,
}

/// A change of one contract, over maps.
#[verifier::ext_equal]
pub struct ContractChange {
    pub storage: Map<Felt, Felt>,
    pub class: Option<ContractClassUpdate>,
    pub nonce: Option<Felt>,
}

impl View for ContractUpdate {
    type V = ContractChange;

    open spec fn view(&self) -> ContractChange {
        ContractChange { storage: self.storage@, class: self.class, nonce: self.nonce }
    }
}

/// The change that changes nothing.
pub open spec fn no_change() -> ContractChange {
    ContractChange { storage: Map::empty(), class: None, nonce: None }
}

impl ContractUpdate {
    pub fn new() -> (r: Self)
        ensures
            r@ == no_change(),
    {
        ContractUpdate { storage: FeltMap::new(), class: None, nonce: None }
    }

    /// A second update with the same changes.
    pub fn copy(&self) -> (r: Self)
        ensures
            r@ == self@,
    {
        ContractUpdate { storage: self.storage.copy(), class: self.class, nonce: self.nonce }
    }
}

/// The changes that a block makes.
#[derive(Debug)]
pub struct StateUpdateData {
    pub contract_updates: FeltMap<ContractUpdate>,
    pub system_contract_updates: FeltMap<SystemContractUpdate>,
    pub declared_cairo_classes: FeltSet,
    pub declared_sierra_classes: FeltMap<Felt>,
    pub migrated_compiled_classes: FeltMap<Felt>,
}

/// The changes that a block makes, over maps and sets.
#[verifier::ext_equal]
pub struct StateChange {
    pub contracts: Map<Felt, ContractChange>,
    pub systems: Map<Felt, Map<Felt, Felt>>,
    pub cairo: Set<Felt>,
    pub sierra: Map<Felt, Felt>,
    pub migrated: Map<Felt, Felt>,
}

/// The changes of contracts, over maps.
pub open spec fn contract_changes(m: Map<Felt, ContractUpdate>) -> Map<Felt, ContractChange> {
    m.map_values(|u: ContractUpdate| u@)
}

/// The changes of system contracts, over maps.
pub open spec fn system_changes(m: Map<Felt, SystemContractUpdate>) -> Map<Felt, Map<Felt, Felt>> {
    m.map_values(|u: SystemContractUpdate| u.storage@)
}

impl View for StateUpdateData {
    type V = StateChange;

    open spec fn view(&self) -> StateChange {
        StateChange {
            contracts: contract_changes(self.contract_updates@),
            systems: system_changes(self.system_contract_updates@),
            cairo: self.declared_cairo_classes@,
            sierra: self.declared_sierra_classes@,
            migrated: self.migrated_compiled_classes@,
        }
    }
}

/// The changes of a block that changes nothing.
pub open spec fn empty_change() -> StateChange {
    StateChange {
        contracts: Map::empty(),
        systems: Map::empty(),
        cairo: Set::empty(),
        sierra: Map::empty(),
        migrated: Map::empty(),
    }
}

/// What is changed of a contract; nothing, where it does not occur.
pub open spec fn contract_or_none(m: Map<Felt, ContractChange>, address: Felt) -> ContractChange {
    if m.contains_key(address) {
        m[address]
    } else {
        no_change()
    }
}

/// The storage changed of a system contract; nothing, where it does not occur.
pub open spec fn system_or_none(m: Map<Felt, Map<Felt, Felt>>, address: Felt) -> Map<Felt, Felt> {
    if m.contains_key(address) {
        m[address]
    } else {
        Map::empty()
    }
}

impl StateChange {
    /// The changes with one contract's change put in place of what it was.
    pub open spec fn with_contract(self, address: Felt, c: ContractChange) -> StateChange {
        StateChange { contracts: self.contracts.insert(address, c), ..self }
    }

    /// The changes with a contract's nonce set.
    pub open spec fn with_nonce(self, address: Felt, nonce: Felt) -> StateChange {
        self.with_contract(
            address,
            ContractChange {
                nonce: Some(nonce),
                ..contract_or_none(self.contracts, address)
            },
        )
    }

    /// The changes with a contract's class set.
    pub open spec fn with_class(self, address: Felt, class: ContractClassUpdate) -> StateChange {
        self.with_contract(
            address,
            ContractChange {
                class: Some(class),
                ..contract_or_none(self.contracts, address)
            },
        )
    }

    /// The changes with one entry of a contract's storage set.
    pub open spec fn with_storage(self, address: Felt, key: Felt, value: Felt) -> StateChange {
        let c = contract_or_none(self.contracts, address);
        self.with_contract(
            address,
            ContractChange { storage: c.storage.insert(key, value), ..c },
        )
    }

    /// The changes with one entry of a system contract's storage set.
    pub open spec fn with_system_storage(
        self,
        address: Felt,
        key: Felt,
        value: Felt,
    ) -> StateChange {
        StateChange {
            systems: self.systems.insert(
                address,
                system_or_none(self.systems, address).insert(key, value),
            ),
            ..self
        }
    }
}

impl StateUpdateData {
    pub fn new() -> (r: Self)
        ensures
            r@ == empty_change(),
    {
        let r = StateUpdateData {
            contract_updates: FeltMap::new(),
            system_contract_updates: FeltMap::new(),
            declared_cairo_classes: FeltSet::new(),
            declared_sierra_classes: FeltMap::new(),
            migrated_compiled_classes: FeltMap::new(),
        };
        assert(r@ =~= empty_change());
        r
    }

    /// Takes out what is changed of a contract, or starts from nothing.
    fn take_contract(&mut self, address: Felt) -> (r: ContractUpdate)
        ensures
            r@ == contract_or_none(old(self)@.contracts, address),
            final(self)@ == (StateChange {
                contracts: old(self)@.contracts.remove(address),
                ..old(self)@
            }),
    {
        let taken = self.contract_updates.remove(address);
        assert(self@.contracts =~= old(self)@.contracts.remove(address));
        match taken {
            Some(u) => u,
            None => ContractUpdate::new(),
        }
    }

    fn put_contract(&mut self, address: Felt, update: ContractUpdate)
        ensures
            final(self)@ == old(self)@.with_contract(address, update@),
    {
        let ghost u = update@;
        self.contract_updates.insert(address, update);
        assert(self@.contracts =~= old(self)@.contracts.insert(address, u));
    }

    /// Sets the nonce of a contract.
    pub fn set_nonce(&mut self, address: Felt, nonce: Felt)
        ensures
            final(self)@ == old(self)@.with_nonce(address, nonce),
    {
        let mut update = self.take_contract(address);
        update.nonce = Some(nonce);
        self.put_contract(address, update);
        assert(self@ =~= old(self)@.with_nonce(address, nonce));
    }

    /// Sets the class of a contract.
    pub fn set_class(&mut self, address: Felt, class: ContractClassUpdate)
        ensures
            final(self)@ == old(self)@.with_class(address, class),
    {
        let mut update = self.take_contract(address);
        update.class = Some(class);
        self.put_contract(address, update);
        assert(self@ =~= old(self)@.with_class(address, class));
    }

    /// Sets one entry of a contract's storage.
    pub fn set_storage(&mut self, address: Felt, key: Felt, value: Felt)
        ensures
            final(self)@ == old(self)@.with_storage(address, key, value),
    {
        let mut update = self.take_contract(address);
        update.storage.insert(key, value);
        self.put_contract(address, update);
        assert(self@ =~= old(self)@.with_storage(address, key, value));
    }

    /// Sets one entry of a system contract's storage.
    pub fn set_system_storage(&mut self, address: Felt, key: Felt, value: Felt)
        ensures
            final(self)@ == old(self)@.with_system_storage(address, key, value),
    {
        let taken = self.system_contract_updates.remove(address);
        let mut update: SystemContractUpdate = match taken {
            Some(u) => u,
            None => SystemContractUpdate { storage: FeltMap::new() },
        };
        assert(update.storage@ == system_or_none(old(self)@.systems, address));
        update.storage.insert(key, value);
        let ghost s = update.storage@;
        self.system_contract_updates.insert(address, update);
        assert(self@.systems =~= old(self)@.systems.insert(address, s));
        assert(self@ =~= old(self)@.with_system_storage(address, key, value));
    }
}

/// No key of the maps of an update occurs twice.
pub open spec fn keys_once(data: StateUpdateData) -> bool {
    &&& distinct_keys(data.contract_updates.items())
    &&& distinct_keys(data.system_contract_updates.items())
    &&& forall|i: int|
        0 <= i < data.contract_updates.items().len() ==> distinct_keys(
            (#[trigger] data.contract_updates.items()[i]).1.storage.items(),
        )
    &&& forall|i: int|
        0 <= i < data.system_contract_updates.items().len() ==> distinct_keys(
            (#[trigger] data.system_contract_updates.items()[i]).1.storage.items(),
        )
}

/// The changes set the nonce of a contract.
pub open spec fn sets_nonce(change: StateChange, address: Felt) -> bool {
    change.contracts.contains_key(address) && change.contracts[address].nonce is Some
}

/// The changes set an entry of the storage of a contract or a system contract.
pub open spec fn sets_slot(change: StateChange, address: Felt, key: Felt) -> bool {
    ||| change.contracts.contains_key(address) && change.contracts[address].storage.contains_key(key)
    ||| change.systems.contains_key(address) && change.systems[address].contains_key(key)
}

/// The changes speak of a contract or a system contract.
pub open spec fn mentions(change: StateChange, address: Felt) -> bool {
    change.contracts.contains_key(address) || change.systems.contains_key(address)
}

/// An entry of a map is among its items.
pub proof fn lemma_item_of<V>(items: Seq<(Felt, V)>, key: Felt) -> (i: int)
    requires
        distinct_keys(items),
        crate::felt_map::items_map(items).contains_key(key),
    ensures
        0 <= i < items.len(),
        items[i].0 == key,
        crate::felt_map::items_map(items)[key] == items[i].1,
{
    lemma_items_map(items);
    let i = choose|i: int| 0 <= i < items.len() && (#[trigger] items[i]).0 == key;
    assert(items[i].0 == key);
    i
}

/// The items of an update that set a nonce.
pub proof fn lemma_sets_nonce(data: StateUpdateData, address: Felt)
    requires
        keys_once(data),
    ensures
        sets_nonce(data@, address) <==> exists|i: int|
            0 <= i < data.contract_updates.items().len() && (
            #[trigger] data.contract_updates.items()[i]).0 == address
                && data.contract_updates.items()[i].1.nonce is Some,
{
    let items = data.contract_updates.items();
    lemma_items_map(items);
    if sets_nonce(data@, address) {
        let i = lemma_item_of(items, address);
        assert(items[i].0 == address && items[i].1.nonce is Some);
    }
}

/// The items of an update that speak of an address.
pub proof fn lemma_mentions(data: StateUpdateData, address: Felt)
    requires
        keys_once(data),
    ensures
        data@.contracts.contains_key(address) <==> exists|i: int|
            0 <= i < data.contract_updates.items().len() && (
            #[trigger] data.contract_updates.items()[i]).0 == address,
        data@.systems.contains_key(address) <==> exists|i: int|
            0 <= i < data.system_contract_updates.items().len() && (
            #[trigger] data.system_contract_updates.items()[i]).0 == address,
{
    lemma_items_map(data.contract_updates.items());
    lemma_items_map(data.system_contract_updates.items());
}

/// The items of an update that set an entry of storage.
pub proof fn lemma_sets_slot(data: StateUpdateData, address: Felt, key: Felt)
    requires
        keys_once(data),
    ensures
        sets_slot(data@, address, key) <==> {
            ||| exists|i: int|
                0 <= i < data.contract_updates.items().len() && (
                #[trigger] data.contract_updates.items()[i]).0 == address && has_item(
                    data.contract_updates.items()[i].1.storage.items(),
                    key,
                )
            ||| exists|i: int|
                0 <= i < data.system_contract_updates.items().len() && (
                #[trigger] data.system_contract_updates.items()[i]).0 == address && has_item(
                    data.system_contract_updates.items()[i].1.storage.items(),
                    key,
                )
        },
{
    let items = data.contract_updates.items();
    let systems = data.system_contract_updates.items();
    lemma_items_map(items);
    lemma_items_map(systems);
    assert forall|i: int| 0 <= i < items.len() implies (items[i].1.storage@.contains_key(key)
        <==> #[trigger] has_item(items[i].1.storage.items(), key)) by {
        lemma_has_item(items[i].1.storage.items(), key);
    }
    assert forall|i: int| 0 <= i < systems.len() implies (systems[i].1.storage@.contains_key(key)
        <==> #[trigger] has_item(systems[i].1.storage.items(), key)) by {
        lemma_has_item(systems[i].1.storage.items(), key);
    }
    if data@.contracts.contains_key(address) {
        let i = lemma_item_of(items, address);
        assert(has_item(items[i].1.storage.items(), key) ==> items[i].0 == address);
    }
    if data@.systems.contains_key(address) {
        let i = lemma_item_of(systems, address);
        assert(has_item(systems[i].1.storage.items(), key) ==> systems[i].0 == address);
    }
}

/// An item has the key.
pub open spec fn has_item<V>(items: Seq<(Felt, V)>, key: Felt) -> bool {
    exists|j: int| 0 <= j < items.len() && (#[trigger] items[j]).0 == key
}

proof fn lemma_has_item<V>(items: Seq<(Felt, V)>, key: Felt)
    requires
        distinct_keys(items),
    ensures
        crate::felt_map::items_map(items).contains_key(key) <==> has_item(items, key),
{
    lemma_items_map(items);
}

} // verus!
