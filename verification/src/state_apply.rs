//! State changes one after the other, and what can be found in a change.
use vstd::prelude::*;

use crate::felt::Felt;
use crate::felt_map::{items_map, lemma_items_map, FeltMap, FeltSet};
use crate::state_update::{
    class_hash_of, contract_changes, contract_or_none, empty_change, no_change, system_changes,
    system_or_none, ContractChange, ContractClassUpdate, ContractUpdate, StateChange,
    StateUpdateData, SystemContractUpdate,
};

verus! {

/// What is set last.
pub open spec fn latest<T>(before: Option<T>, after: Option<T>) -> Option<T> {
    if after is Some {
        after
    } else {
        before
    }
}

/// A change of a contract after another.
pub open spec fn contract_then(a: ContractChange, b: ContractChange) -> ContractChange {
    ContractChange {
        storage: a.storage.union_prefer_right(b.storage),
        class: latest(a.class, b.class),
        nonce: latest(a.nonce, b.nonce),
    }
}

/// Changes of contracts after others.
pub open spec fn contracts_then(
    a: Map<Felt, ContractChange>,
    b: Map<Felt, ContractChange>,
) -> Map<Felt, ContractChange> {
    Map::new(
        |k: Felt| a.contains_key(k) || b.contains_key(k),
        |k: Felt|
            if b.contains_key(k) {
                contract_then(contract_or_none(a, k), b[k])
            } else {
                a[k]
            },
    )
}

/// Changes of system contracts after others.
pub open spec fn systems_then(
    a: Map<Felt, Map<Felt, Felt>>,
    b: Map<Felt, Map<Felt, Felt>>,
) -> Map<Felt, Map<Felt, Felt>> {
    Map::new(
        |k: Felt| a.contains_key(k) || b.contains_key(k),
        |k: Felt|
            if b.contains_key(k) {
                system_or_none(a, k).union_prefer_right(b[k])
            } else {
                a[k]
            },
    )
}

impl StateChange {
    /// These changes, and then others.
    pub open spec fn then_change(self, other: StateChange) -> StateChange {
        StateChange {
            contracts: contracts_then(self.contracts, other.contracts),
            systems: systems_then(self.systems, other.systems),
            cairo: self.cairo.union(other.cairo),
            sierra: self.sierra.union_prefer_right(other.sierra),
            migrated: self.migrated.union_prefer_right(other.migrated),
        }
    }
}

/// No change before a change leaves it as it is.
pub proof fn lemma_nothing_then(c: StateChange)
    ensures
        empty_change().then_change(c) == c,
{
    let e = empty_change();
    assert forall|k: Felt| c.contracts.contains_key(k) implies contract_then(
        contract_or_none(e.contracts, k),
        c.contracts[k],
    ) == c.contracts[k] by {
        assert(contract_then(no_change(), c.contracts[k]).storage =~= c.contracts[k].storage);
    }
    assert forall|k: Felt| c.systems.contains_key(k) implies system_or_none(
        e.systems,
        k,
    ).union_prefer_right(c.systems[k]) == c.systems[k] by {
        assert(system_or_none(e.systems, k).union_prefer_right(c.systems[k]) =~= c.systems[k]);
    }
    assert(e.then_change(c).contracts =~= c.contracts);
    assert(e.then_change(c).systems =~= c.systems);
    assert(e.then_change(c).cairo =~= c.cairo);
    assert(e.then_change(c).sierra =~= c.sierra);
    assert(e.then_change(c).migrated =~= c.migrated);
}

/// What a key is bound to in changes of contracts that are taken one at a time.
proof fn lemma_contracts_next(
    a: Map<Felt, ContractChange>,
    items: Seq<(Felt, ContractUpdate)>,
    i: int,
)
    requires
        0 <= i < items.len(),
        crate::felt_map::distinct_keys(items),
    ensures
        ({
            let before = contracts_then(a, contract_changes(items_map(items.subrange(0, i))));
            let after = contracts_then(a, contract_changes(items_map(items.subrange(0, i + 1))));
            let (k, u) = items[i];
            after == before.insert(k, contract_then(contract_or_none(before, k), u@))
        }),
{
    let front = items.subrange(0, i);
    let all = items.subrange(0, i + 1);
    assert(all.drop_last() =~= front);
    assert(all.last() == items[i]);
    lemma_items_map(front);
    let (k, u) = items[i];
    let b = contract_changes(items_map(front));
    let c = contract_changes(items_map(all));
    assert(c =~= b.insert(k, u@));
    assert(!b.contains_key(k)) by {
        if b.contains_key(k) {
            assert(items_map(front).contains_key(k));
            let j = choose|j: int| 0 <= j < front.len() && (#[trigger] front[j]).0 == k;
            assert(items[j].0 != items[i].0);
        }
    }
    let before = contracts_then(a, b);
    assert(contract_or_none(before, k) == contract_or_none(a, k));
    assert(contracts_then(a, c) =~= before.insert(
        k,
        contract_then(contract_or_none(before, k), u@),
    ));
}

proof fn lemma_systems_next(
    a: Map<Felt, Map<Felt, Felt>>,
    items: Seq<(Felt, SystemContractUpdate)>,
    i: int,
)
    requires
        0 <= i < items.len(),
        crate::felt_map::distinct_keys(items),
    ensures
        ({
            let before = systems_then(a, system_changes(items_map(items.subrange(0, i))));
            let after = systems_then(a, system_changes(items_map(items.subrange(0, i + 1))));
            let (k, u) = items[i];
            after == before.insert(k, system_or_none(before, k).union_prefer_right(u.storage@))
        }),
{
    let front = items.subrange(0, i);
    let all = items.subrange(0, i + 1);
    assert(all.drop_last() =~= front);
    assert(all.last() == items[i]);
    lemma_items_map(front);
    let (k, u) = items[i];
    let b = system_changes(items_map(front));
    let c = system_changes(items_map(all));
    assert(c =~= b.insert(k, u.storage@));
    assert(!b.contains_key(k)) by {
        if b.contains_key(k) {
            assert(items_map(front).contains_key(k));
            let j = choose|j: int| 0 <= j < front.len() && (#[trigger] front[j]).0 == k;
            assert(items[j].0 != items[i].0);
        }
    }
    let before = systems_then(a, b);
    assert(system_or_none(before, k) == system_or_none(a, k));
    assert(systems_then(a, c) =~= before.insert(
        k,
        system_or_none(before, k).union_prefer_right(u.storage@),
    ));
}

/// Adds the changes of contracts to others.
fn extend_contracts(target: &mut FeltMap<ContractUpdate>, other: &FeltMap<ContractUpdate>)
    ensures
        contract_changes(final(target)@) == contracts_then(
            contract_changes(old(target)@),
            contract_changes(other@),
        ),
{
    let ghost a = contract_changes(target@);
    let n: usize = other.len();
    let mut i: usize = 0;
    proof {
        assert(other.items().subrange(0, 0) =~= Seq::empty());
        assert(contracts_then(a, contract_changes(items_map(other.items().subrange(0, 0)))) =~= a);
    }
    while i < n
        invariant
            i <= n,
            n == other.items().len(),
            crate::felt_map::distinct_keys(other.items()),
            a == contract_changes(old(target)@),
            contract_changes(target@) == contracts_then(
                a,
                contract_changes(items_map(other.items().subrange(0, i as int))),
            ),
        decreases n - i,
    {
        let ghost before = contract_changes(target@);
        let ghost before_map = target@;
        let key: Felt = other.key_at(i);
        let more: &ContractUpdate = other.value_at(i);
        let mut update: ContractUpdate = match target.remove(key) {
            Some(u) => u,
            None => ContractUpdate::new(),
        };
        assert(update@ == contract_or_none(before, key));
        update.storage.extend(&more.storage);
        if more.class.is_some() {
            update.class = more.class;
        }
        if more.nonce.is_some() {
            update.nonce = more.nonce;
        }
        let ghost done = update@;
        assert(done =~= contract_then(contract_or_none(before, key), more@));
        target.insert(key, update);
        proof {
            lemma_contracts_next(a, other.items(), i as int);
            assert(contract_changes(target@) =~= before.insert(key, done));
        }
        i = i + 1;
    }
    assert(other.items().subrange(0, n as int) =~= other.items());
}

/// Adds the changes of system contracts to others.
fn extend_systems(
    target: &mut FeltMap<SystemContractUpdate>,
    other: &FeltMap<SystemContractUpdate>,
)
    ensures
        system_changes(final(target)@) == systems_then(
            system_changes(old(target)@),
            system_changes(other@),
        ),
{
    let ghost a = system_changes(target@);
    let n: usize = other.len();
    let mut i: usize = 0;
    proof {
        assert(other.items().subrange(0, 0) =~= Seq::empty());
        assert(systems_then(a, system_changes(items_map(other.items().subrange(0, 0)))) =~= a);
    }
    while i < n
        invariant
            i <= n,
            n == other.items().len(),
            crate::felt_map::distinct_keys(other.items()),
            a == system_changes(old(target)@),
            system_changes(target@) == systems_then(
                a,
                system_changes(items_map(other.items().subrange(0, i as int))),
            ),
        decreases n - i,
    {
        let ghost before = system_changes(target@);
        let key: Felt = other.key_at(i);
        let more: &SystemContractUpdate = other.value_at(i);
        let mut update: SystemContractUpdate = match target.remove(key) {
            Some(u) => u,
            None => SystemContractUpdate { storage: FeltMap::new() },
        };
        assert(update.storage@ == system_or_none(before, key));
        update.storage.extend(&more.storage);
        let ghost done = update.storage@;
        target.insert(key, update);
        proof {
            lemma_systems_next(a, other.items(), i as int);
            assert(system_changes(target@) =~= before.insert(key, done));
        }
        i = i + 1;
    }
    assert(other.items().subrange(0, n as int) =~= other.items());
}

/// Adds the members of a set to another.
fn extend_set(target: &mut FeltSet, other: &FeltSet)
    ensures
        final(target)@ == old(target)@.union(other@),
{
    let n: usize = other.len();
    let mut i: usize = 0;
    assert(other.items().subrange(0, 0).to_set() =~= Set::empty());
    assert(target@ =~= old(target)@.union(other.items().subrange(0, 0).to_set()));
    while i < n
        invariant
            i <= n,
            n == other.items().len(),
            target@ == old(target)@.union(other.items().subrange(0, i as int).to_set()),
        decreases n - i,
    {
        let ghost before = target@;
        let x: Felt = other.item_at(i);
        target.insert(x);
        proof {
            let done = other.items().subrange(0, i as int);
            let next = other.items().subrange(0, i + 1);
            assert(next =~= done.push(x));
            assert forall|y: Felt| next.contains(y) <==> done.contains(y) || y == x by {
                if done.contains(y) {
                    let j = choose|j: int| 0 <= j < done.len() && done[j] == y;
                    assert(next[j] == y);
                }
                assert(next[i as int] == x);
            }
            assert(target@ =~= old(target)@.union(next.to_set()));
        }
        i = i + 1;
    }
    assert(other.items().subrange(0, n as int) =~= other.items());
}

impl StateUpdateData {
    /// Makes other changes after these.
    pub fn extend(&mut self, other: &StateUpdateData)
        ensures
            final(self)@ == old(self)@.then_change(other@),
    {
        extend_contracts(&mut self.contract_updates, &other.contract_updates);
        extend_systems(&mut self.system_contract_updates, &other.system_contract_updates);
        extend_set(&mut self.declared_cairo_classes, &other.declared_cairo_classes);
        self.declared_sierra_classes.extend(&other.declared_sierra_classes);
        self.migrated_compiled_classes.extend(&other.migrated_compiled_classes);
        assert(self@ =~= old(self)@.then_change(other@));
    }

    /// A second value with the same changes.
    pub fn copy(&self) -> (r: Self)
        ensures
            r@ == self@,
    {
        let mut r = StateUpdateData::new();
        r.extend(self);
        proof {
            lemma_nothing_then(self@);
        }
        r
    }
}

/// The nonce that a contract has after a change, as far as the change tells: a contract that it
/// deploys starts from zero.
pub open spec fn nonce_in(c: StateChange, address: Felt) -> Option<Felt> {
    let u = contract_or_none(c.contracts, address);
    if u.nonce is Some {
        u.nonce
    } else if u.class matches Some(ContractClassUpdate::Deploy(_)) {
        Some(Felt::zero())
    } else {
        None
    }
}

/// A storage value that a change tells, and how.
#[derive(Clone, Copy, Debug, PartialEq, Eq, Structural)]
pub enum FoundStorageValue {
    /// The value is zero because the contract is deployed without it.
    Zero,
    Written(Felt),
}

/// The value of an entry of a contract's storage after a change, as far as the change tells.
pub open spec fn storage_in(c: StateChange, address: Felt, key: Felt) -> Option<FoundStorageValue> {
    let u = contract_or_none(c.contracts, address);
    let s = system_or_none(c.systems, address);
    if u.storage.contains_key(key) {
        Some(FoundStorageValue::Written(u.storage[key]))
    } else if u.class matches Some(ContractClassUpdate::Deploy(_)) {
        Some(FoundStorageValue::Zero)
    } else if s.contains_key(key) {
        Some(FoundStorageValue::Written(s[key]))
    } else {
        None
    }
}

/// The class that a contract has after a change, as far as the change tells.
pub open spec fn class_in(c: StateChange, address: Felt) -> Option<Felt> {
    match contract_or_none(c.contracts, address).class {
        Some(u) => Some(class_hash_of(u)),
        None => None,
    }
}

impl StateUpdateData {
    pub fn contract_nonce(&self, address: Felt) -> (r: Option<Felt>)
        ensures
            r == nonce_in(self@, address),
    {
        match self.contract_updates.get(address) {
            None => None,
            Some(u) => {
                assert(self@.contracts[address] == u@);
                match u.nonce {
                    Some(n) => Some(n),
                    None => match u.class {
                        Some(ContractClassUpdate::Deploy(_)) => Some(Felt::new_zero()),
                        _ => None,
                    },
                }
            },
        }
    }

    pub fn storage_value_with_provenance(&self, address: Felt, key: Felt) -> (r: Option<
        FoundStorageValue,
    >)
        ensures
            r == storage_in(self@, address, key),
    {
        match self.contract_updates.get(address) {
            None => {},
            Some(u) => {
                assert(self@.contracts[address] == u@);
                match u.storage.get(key) {
                    Some(v) => {
                        return Some(FoundStorageValue::Written(*v));
                    },
                    None => match u.class {
                        Some(ContractClassUpdate::Deploy(_)) => {
                            return Some(FoundStorageValue::Zero);
                        },
                        _ => {},
                    },
                }
            },
        }
        match self.system_contract_updates.get(address) {
            None => None,
            Some(s) => {
                assert(self@.systems[address] == s.storage@);
                match s.storage.get(key) {
                    Some(v) => Some(FoundStorageValue::Written(*v)),
                    None => None,
                }
            },
        }
    }

    pub fn contract_class(&self, address: Felt) -> (r: Option<Felt>)
        ensures
            r == class_in(self@, address),
    {
        match self.contract_updates.get(address) {
            None => None,
            Some(u) => {
                assert(self@.contracts[address] == u@);
                match &u.class {
                    Some(c) => Some(c.class_hash()),
                    None => None,
                }
            },
        }
    }

    /// Whether a class is declared by these changes, as either kind of class.
    pub fn class_is_declared(&self, class: Felt) -> (r: bool)
        ensures
            r == (self@.cairo.contains(class) || self@.sierra.contains_key(class)),
    {
        self.declared_cairo_classes.contains(class) || self.declared_sierra_classes.contains_key(
            class,
        )
    }
}

/// What the later of two changes tells of a nonce, a storage entry or a class stands after both;
/// what it leaves open, the earlier one tells.
pub proof fn law_later_change_wins(a: StateChange, b: StateChange, address: Felt, key: Felt)
    ensures
        class_in(a.then_change(b), address) == latest(class_in(a, address), class_in(b, address)),
        contract_or_none(b.contracts, address).nonce is Some ==> nonce_in(a.then_change(b), address)
            == nonce_in(b, address),
        contract_or_none(b.contracts, address) == no_change() ==> nonce_in(
            a.then_change(b),
            address,
        ) == nonce_in(a, address),
        contract_or_none(b.contracts, address).storage.contains_key(key) ==> storage_in(
            a.then_change(b),
            address,
            key,
        ) == storage_in(b, address, key),
{
    let c = a.then_change(b);
    if b.contracts.contains_key(address) {
        if b.contracts[address] == no_change() {
            assert(contract_then(
                contract_or_none(a.contracts, address),
                no_change(),
            ) =~= contract_or_none(a.contracts, address));
        }
    }
}

/// After two changes, what the later one sets stands, and what it leaves alone is as the earlier
/// one has set it: of nonces, classes and storage of contracts, of storage of system contracts, and
/// of compiled class hashes. Classes declared by either are declared.
pub proof fn law_changes_in_turn(a: StateChange, b: StateChange, address: Felt, key: Felt)
    ensures
        ({
            let c = a.then_change(b);
            let in_a = a.contracts.contains_key(address);
            let in_b = b.contracts.contains_key(address);
            let sys_a = a.systems.contains_key(address);
            let sys_b = b.systems.contains_key(address);
            &&& c.contracts.contains_key(address) <==> in_a || in_b
            &&& in_b && b.contracts[address].nonce is Some ==> c.contracts[address].nonce
                == b.contracts[address].nonce
            &&& in_b && b.contracts[address].nonce is None && in_a ==> c.contracts[address].nonce
                == a.contracts[address].nonce
            &&& in_b && b.contracts[address].nonce is None && !in_a ==> c.contracts[address].nonce is None
            &&& in_b && b.contracts[address].class is Some ==> c.contracts[address].class
                == b.contracts[address].class
            &&& in_b && b.contracts[address].class is None && in_a ==> c.contracts[address].class
                == a.contracts[address].class
            &&& in_b && b.contracts[address].class is None && !in_a ==> c.contracts[address].class is None
            &&& in_b && b.contracts[address].storage.contains_key(key)
                ==> c.contracts[address].storage.contains_key(key) && c.contracts[address].storage[key]
                == b.contracts[address].storage[key]
            &&& in_b && !b.contracts[address].storage.contains_key(key) && in_a ==> (
            c.contracts[address].storage.contains_key(key)
                <==> a.contracts[address].storage.contains_key(key)) && (
            a.contracts[address].storage.contains_key(key) ==> c.contracts[address].storage[key]
                == a.contracts[address].storage[key])
            &&& in_b && !b.contracts[address].storage.contains_key(key) && !in_a
                ==> !c.contracts[address].storage.contains_key(key)
            &&& !in_b && in_a ==> c.contracts[address] == a.contracts[address]
            &&& c.systems.contains_key(address) <==> sys_a || sys_b
            &&& sys_b && b.systems[address].contains_key(key) ==> c.systems[address].contains_key(key)
                && c.systems[address][key] == b.systems[address][key]
            &&& sys_a && !(sys_b && b.systems[address].contains_key(key)) ==> (
            c.systems[address].contains_key(key) <==> a.systems[address].contains_key(key)) && (
            a.systems[address].contains_key(key) ==> c.systems[address][key] == a.systems[address][key])
            &&& !sys_a && sys_b && !b.systems[address].contains_key(key)
                ==> !c.systems[address].contains_key(key)
            &&& c.cairo.contains(key) <==> a.cairo.contains(key) || b.cairo.contains(key)
            &&& c.sierra.contains_key(key) <==> a.sierra.contains_key(key) || b.sierra.contains_key(key)
            &&& b.sierra.contains_key(key) ==> c.sierra[key] == b.sierra[key]
            &&& a.sierra.contains_key(key) && !b.sierra.contains_key(key) ==> c.sierra[key]
                == a.sierra[key]
            &&& c.migrated.contains_key(key) <==> a.migrated.contains_key(key)
                || b.migrated.contains_key(key)
            &&& b.migrated.contains_key(key) ==> c.migrated[key] == b.migrated[key]
            &&& a.migrated.contains_key(key) && !b.migrated.contains_key(key) ==> c.migrated[key]
                == a.migrated[key]
        }),
{
}

/// Changes can be put together in any grouping.
pub proof fn law_changes_associate(a: StateChange, b: StateChange, c: StateChange)
    ensures
        a.then_change(b).then_change(c) == a.then_change(b.then_change(c)),
{
    let l = a.then_change(b).then_change(c);
    let r = a.then_change(b.then_change(c));
    assert forall|k: Felt| l.contracts.contains_key(k) implies #[trigger] l.contracts[k]
        == r.contracts[k] by {
        assert(l.contracts[k].storage =~= r.contracts[k].storage);
    }
    assert forall|k: Felt| l.systems.contains_key(k) implies #[trigger] l.systems[k]
        == r.systems[k] by {
        assert(l.systems[k] =~= r.systems[k]);
    }
    assert(l.contracts =~= r.contracts);
    assert(l.systems =~= r.systems);
    assert(l.cairo =~= r.cairo);
    assert(l.sierra =~= r.sierra);
    assert(l.migrated =~= r.migrated);
}

/// What is set is read back, and nothing else is changed by setting it.
pub proof fn law_set_values_are_read(
    c: StateChange,
    address: Felt,
    key: Felt,
    value: Felt,
    class: ContractClassUpdate,
    other: Felt,
    other_key: Felt,
)
    ensures
        nonce_in(c.with_nonce(address, value), address) == Some(value),
        storage_in(c.with_storage(address, key, value), address, key) == Some(
            FoundStorageValue::Written(value),
        ),
        !c.contracts.contains_key(address) ==> storage_in(
            c.with_system_storage(address, key, value),
            address,
            key,
        ) == Some(FoundStorageValue::Written(value)),
        class_in(c.with_class(address, ContractClassUpdate::Deploy(value)), address) == Some(value),
        class_in(c.with_class(address, ContractClassUpdate::Replace(value)), address) == Some(value),
        storage_in(c.with_nonce(address, value), other, other_key) == storage_in(c, other, other_key),
        class_in(c.with_nonce(address, value), other) == class_in(c, other),
        nonce_in(c.with_storage(address, key, value), other) == nonce_in(c, other),
        class_in(c.with_storage(address, key, value), other) == class_in(c, other),
        nonce_in(c.with_system_storage(address, key, value), other) == nonce_in(c, other),
        class_in(c.with_system_storage(address, key, value), other) == class_in(c, other),
        other != address ==> nonce_in(c.with_nonce(address, value), other) == nonce_in(c, other),
        other != address ==> nonce_in(c.with_class(address, class), other) == nonce_in(c, other),
        other != address ==> class_in(c.with_class(address, class), other) == class_in(c, other),
        other != address ==> storage_in(c.with_class(address, class), other, other_key) == storage_in(
            c,
            other,
            other_key,
        ),
        other != address || other_key != key ==> storage_in(
            c.with_storage(address, key, value),
            other,
            other_key,
        ) == storage_in(c, other, other_key),
        other != address || other_key != key ==> storage_in(
            c.with_system_storage(address, key, value),
            other,
            other_key,
        ) == storage_in(c, other, other_key),
{
}

/// A change that deploys a contract tells of its nonce and of all its storage: what it does not set
/// is zero. One that does not tells only of what it sets. The storage of a contract that a change
/// does not speak of may be that of a system contract.
pub proof fn law_deployed_contracts_start_from_zero(c: StateChange, address: Felt, key: Felt)
    ensures
        c.contracts.contains_key(address) ==> {
            let u = c.contracts[address];
            let deployed = u.class matches Some(ContractClassUpdate::Deploy(_));
            &&& u.nonce matches Some(n) ==> nonce_in(c, address) == Some(n)
            &&& u.nonce is None && deployed ==> nonce_in(c, address) == Some(Felt::zero())
            &&& u.nonce is None && !deployed ==> nonce_in(c, address) is None
            &&& u.storage.contains_key(key) ==> storage_in(c, address, key) == Some(
                FoundStorageValue::Written(u.storage[key]),
            )
            &&& !u.storage.contains_key(key) && deployed ==> storage_in(c, address, key) == Some(
                FoundStorageValue::Zero,
            )
            &&& u.class is None ==> class_in(c, address) is None
        },
        !c.contracts.contains_key(address) ==> nonce_in(c, address) is None && class_in(c, address) is None,
        !(c.contracts.contains_key(address) && (c.contracts[address].storage.contains_key(key) || (
        c.contracts[address].class matches Some(ContractClassUpdate::Deploy(_))))) ==> (storage_in(
            c,
            address,
            key,
        ) == if c.systems.contains_key(address) && c.systems[address].contains_key(key) {
            Some(FoundStorageValue::Written(c.systems[address][key]))
        } else {
            None
        }),
{
}

} // verus!
