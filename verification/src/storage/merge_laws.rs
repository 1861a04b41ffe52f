//! Every row that is merged is found in the state update of its block, and nothing else is.
use vstd::prelude::*;

use crate::felt::{
    be_value_256, is_felt, left_padded, lemma_felt_exists, lemma_small_value, Felt,
};
use crate::state_update::{
    contract_or_none, empty_change, system_or_none, ContractClassUpdate, StateChange,
};
use crate::storage::state_merge::{
    address_from, class_hashes, class_step, contract_addresses, declared_step, felt_from, fold_rows, has_address,
    last_changes, law_every_row_lands_in_its_block, lemma_run, merged_change, migrated_step,
    nonce_step, plain_change, redeclared_step, run_start, storage_step, BlockRows, ContractRow,
    DeclaredRow, MergeError, MigratedRow, NonceRow, RedeclaredRow, StateTables, StorageRow,
};

verus! {

/// The last of the positions below `n` that satisfy `p`.
pub open spec fn last_match(p: spec_fn(int) -> bool, n: int) -> Option<int>
    decreases n,
{
    if n <= 0 {
        None
    } else if p(n - 1) {
        Some(n - 1)
    } else {
        last_match(p, n - 1)
    }
}

proof fn lemma_last_match(p: spec_fn(int) -> bool, n: int)
    requires
        0 <= n,
    ensures
        match last_match(p, n) {
            Some(i) => 0 <= i < n && p(i) && forall|j: int| i < j < n ==> !#[trigger] p(j),
            None => forall|j: int| 0 <= j < n ==> !#[trigger] p(j),
        },
    decreases n,
{
    if n > 0 && !p(n - 1) {
        lemma_last_match(p, n - 1);
    }
}

/// Bytes stand for an element.
proof fn lemma_felt_from(f: Felt, s: Seq<u8>)
    requires
        f@ == left_padded(s),
    ensures
        f == felt_from(s),
{
    Felt::lemma_view_injective(f, felt_from(s));
}

proof fn lemma_take<R>(rows: Seq<R>, n: int)
    requires
        0 < n <= rows.len(),
    ensures
        rows.take(n).drop_last() == rows.take(n - 1),
        rows.take(n).last() == rows[n - 1],
        rows.take(n).len() == n,
{
    assert(rows.take(n).drop_last() =~= rows.take(n - 1));
}

/// The contract that a nonce row is for.
pub open spec fn nonce_row_of(rows: Seq<NonceRow>, address: Felt) -> spec_fn(int) -> bool {
    |i: int| felt_from(rows[i].contract_address@) == address
}

/// What nonce rows do to what is changed of a contract, and that they change nothing else.
proof fn lemma_nonce_rows(
    rows: Seq<NonceRow>,
    n: int,
    start: StateChange,
    out: StateChange,
    address: Felt,
)
    requires
        0 <= n <= rows.len(),
        fold_rows(
            rows.take(n),
            start,
            |acc: StateChange, row: NonceRow| nonce_step(acc, row),
        ) == Ok::<StateChange, MergeError>(out),
    ensures
        out == (StateChange { contracts: out.contracts, ..start }),
        ({
            let last = last_match(nonce_row_of(rows, address), n);
            let a = contract_or_none(start.contracts, address);
            let b = contract_or_none(out.contracts, address);
            &&& out.contracts.contains_key(address) <==> start.contracts.contains_key(address)
                || last is Some
            &&& b.storage == a.storage
            &&& b.class == a.class
            &&& b.nonce == match last {
                Some(i) => Some(felt_from(rows[i].nonce@)),
                None => a.nonce,
            }
        }),
        forall|i: int|
            0 <= i < n ==> address_from((#[trigger] rows[i]).contract_address@) is Ok && is_felt(
                rows[i].nonce@,
            ),
    decreases n,
{
    let step = |acc: StateChange, row: NonceRow| nonce_step(acc, row);
    if n > 0 {
        lemma_take(rows, n);
        let mid = fold_rows(rows.take(n - 1), start, step)->Ok_0;
        lemma_nonce_rows(rows, n - 1, start, mid, address);
        assert(step(mid, rows[n - 1]) == Ok::<StateChange, MergeError>(out));
    }
}

/// The entry of storage that a storage row is for.
pub open spec fn storage_row_of(rows: Seq<StorageRow>, address: Felt, key: Felt) -> spec_fn(
    int,
) -> bool {
    |i: int|
        felt_from(rows[i].contract_address@) == address && felt_from(rows[i].storage_address@) == key
}

pub open spec fn storage_row_for(rows: Seq<StorageRow>, address: Felt) -> spec_fn(int) -> bool {
    |i: int| felt_from(rows[i].contract_address@) == address
}

/// An address of a system contract.
pub open spec fn is_one_or_two(address: Felt) -> bool {
    be_value_256(address@) == 1 || be_value_256(address@) == 2
}

/// What storage rows do to an entry of storage, and that they change nothing else.
proof fn lemma_storage_rows(
    rows: Seq<StorageRow>,
    n: int,
    start: StateChange,
    out: StateChange,
    address: Felt,
    key: Felt,
)
    requires
        0 <= n <= rows.len(),
        fold_rows(
            rows.take(n),
            start,
            |acc: StateChange, row: StorageRow| storage_step(acc, row),
        ) == Ok::<StateChange, MergeError>(out),
    ensures
        out == (StateChange { contracts: out.contracts, systems: out.systems, ..start }),
        ({
            let last = last_match(storage_row_of(rows, address, key), n);
            let met = last_match(storage_row_for(rows, address), n) is Some;
            let a = contract_or_none(start.contracts, address);
            let b = contract_or_none(out.contracts, address);
            let s = system_or_none(start.systems, address);
            let t = system_or_none(out.systems, address);
            &&& b.class == a.class
            &&& b.nonce == a.nonce
            &&& if is_one_or_two(address) {
                &&& out.contracts.contains_key(address) <==> start.contracts.contains_key(address)
                &&& b == a
                &&& out.systems.contains_key(address) <==> start.systems.contains_key(address) || met
                &&& match last {
                    Some(i) => t.contains_key(key) && t[key] == felt_from(rows[i].storage_value@),
                    None => (t.contains_key(key) <==> s.contains_key(key)) && (s.contains_key(key)
                        ==> t[key] == s[key]),
                }
            } else {
                &&& out.systems.contains_key(address) <==> start.systems.contains_key(address)
                &&& t == s
                &&& out.contracts.contains_key(address) <==> start.contracts.contains_key(address)
                    || met
                &&& match last {
                    Some(i) => b.storage.contains_key(key) && b.storage[key] == felt_from(
                        rows[i].storage_value@,
                    ),
                    None => (b.storage.contains_key(key) <==> a.storage.contains_key(key)) && (
                    a.storage.contains_key(key) ==> b.storage[key] == a.storage[key]),
                }
            }
        }),
        forall|i: int|
            0 <= i < n ==> address_from((#[trigger] rows[i]).contract_address@) is Ok && is_felt(
                rows[i].storage_address@,
            ) && is_felt(rows[i].storage_value@),
    decreases n,
{
    let step = |acc: StateChange, row: StorageRow| storage_step(acc, row);
    if n > 0 {
        lemma_take(rows, n);
        let mid = fold_rows(rows.take(n - 1), start, step)->Ok_0;
        lemma_storage_rows(rows, n - 1, start, mid, address, key);
        assert(step(mid, rows[n - 1]) == Ok::<StateChange, MergeError>(out));
        lemma_small_value(address, 1);
        lemma_small_value(address, 2);
        let here = felt_from(rows[n - 1].contract_address@);
        if here != address {
            lemma_small_value(here, 1);
            lemma_small_value(here, 2);
        }
    }
}

pub open spec fn cairo_row_of(rows: Seq<DeclaredRow>, class: Felt) -> spec_fn(int) -> bool {
    |i: int| felt_from(rows[i].class_hash@) == class && rows[i].casm_hash is None
}

pub open spec fn sierra_row_of(rows: Seq<DeclaredRow>, class: Felt) -> spec_fn(int) -> bool {
    |i: int| felt_from(rows[i].class_hash@) == class && rows[i].casm_hash is Some
}

/// What declarations do to the classes declared, and that they change nothing else.
proof fn lemma_declared_rows(
    rows: Seq<DeclaredRow>,
    n: int,
    start: StateChange,
    out: StateChange,
    class: Felt,
)
    requires
        0 <= n <= rows.len(),
        fold_rows(
            rows.take(n),
            start,
            |acc: StateChange, row: DeclaredRow| declared_step(acc, row),
        ) == Ok::<StateChange, MergeError>(out),
    ensures
        out == (StateChange { cairo: out.cairo, sierra: out.sierra, ..start }),
        out.cairo.contains(class) <==> start.cairo.contains(class) || last_match(
            cairo_row_of(rows, class),
            n,
        ) is Some,
        match last_match(sierra_row_of(rows, class), n) {
            Some(i) => out.sierra.contains_key(class) && out.sierra[class] == felt_from(
                rows[i].casm_hash->0@,
            ),
            None => (out.sierra.contains_key(class) <==> start.sierra.contains_key(class)) && (
            start.sierra.contains_key(class) ==> out.sierra[class] == start.sierra[class]),
        },
        forall|i: int|
            0 <= i < n ==> is_felt((#[trigger] rows[i]).class_hash@) && (
            rows[i].casm_hash matches Some(casm) ==> is_felt(casm@)),
    decreases n,
{
    let step = |acc: StateChange, row: DeclaredRow| declared_step(acc, row);
    if n > 0 {
        lemma_take(rows, n);
        let mid = fold_rows(rows.take(n - 1), start, step)->Ok_0;
        lemma_declared_rows(rows, n - 1, start, mid, class);
        assert(step(mid, rows[n - 1]) == Ok::<StateChange, MergeError>(out));
    }
}

pub open spec fn redeclared_row_of(rows: Seq<RedeclaredRow>, class: Felt) -> spec_fn(int) -> bool {
    |i: int| felt_from(rows[i].class_hash@) == class
}

/// What redeclarations do to the classes declared, and that they change nothing else.
proof fn lemma_redeclared_rows(
    rows: Seq<RedeclaredRow>,
    n: int,
    start: StateChange,
    out: StateChange,
    class: Felt,
)
    requires
        0 <= n <= rows.len(),
        fold_rows(
            rows.take(n),
            start,
            |acc: StateChange, row: RedeclaredRow| redeclared_step(acc, row),
        ) == Ok::<StateChange, MergeError>(out),
    ensures
        out == (StateChange { cairo: out.cairo, ..start }),
        out.cairo.contains(class) <==> start.cairo.contains(class) || last_match(
            redeclared_row_of(rows, class),
            n,
        ) is Some,
        forall|i: int| 0 <= i < n ==> is_felt((#[trigger] rows[i]).class_hash@),
    decreases n,
{
    let step = |acc: StateChange, row: RedeclaredRow| redeclared_step(acc, row);
    if n > 0 {
        lemma_take(rows, n);
        let mid = fold_rows(rows.take(n - 1), start, step)->Ok_0;
        lemma_redeclared_rows(rows, n - 1, start, mid, class);
        assert(step(mid, rows[n - 1]) == Ok::<StateChange, MergeError>(out));
    }
}

/// The class of a row was met before it: among those given or in an earlier row.
pub open spec fn met_before(rows: Seq<MigratedRow>, seen: Set<Seq<u8>>, i: int) -> bool {
    seen.contains(rows[i].class_hash@) || exists|j: int|
        0 <= j < i && (#[trigger] rows[j]).class_hash@ == rows[i].class_hash@
}

pub open spec fn migrated_row_of(
    rows: Seq<MigratedRow>,
    seen: Set<Seq<u8>>,
    class: Felt,
) -> spec_fn(int) -> bool {
    |i: int| felt_from(rows[i].class_hash@) == class && met_before(rows, seen, i)
}

/// What rows of compiled class hashes do to the migrated classes, and that they change nothing else.
proof fn lemma_migrated_rows(
    rows: Seq<MigratedRow>,
    n: int,
    seen: Set<Seq<u8>>,
    start: StateChange,
    out: (Set<Seq<u8>>, StateChange),
    class: Felt,
)
    requires
        0 <= n <= rows.len(),
        fold_rows(
            rows.take(n),
            (seen, start),
            |acc: (Set<Seq<u8>>, StateChange), row: MigratedRow| migrated_step(acc, row),
        ) == Ok::<(Set<Seq<u8>>, StateChange), MergeError>(out),
    ensures
        forall|x: Seq<u8>| #[trigger]
            out.0.contains(x) <==> seen.contains(x) || exists|j: int|
                0 <= j < n && (#[trigger] rows[j]).class_hash@ == x,
        out.1 == (StateChange { migrated: out.1.migrated, ..start }),
        match last_match(migrated_row_of(rows, seen, class), n) {
            Some(i) => out.1.migrated.contains_key(class) && out.1.migrated[class] == felt_from(
                rows[i].casm_hash@,
            ),
            None => (out.1.migrated.contains_key(class) <==> start.migrated.contains_key(class)) && (
            start.migrated.contains_key(class) ==> out.1.migrated[class] == start.migrated[class]),
        },
        forall|i: int|
            0 <= i < n && #[trigger] met_before(rows, seen, i) ==> is_felt(rows[i].class_hash@)
                && is_felt(rows[i].casm_hash@),
    decreases n,
{
    let step = |acc: (Set<Seq<u8>>, StateChange), row: MigratedRow| migrated_step(acc, row);
    if n > 0 {
        lemma_take(rows, n);
        let mid = fold_rows(rows.take(n - 1), (seen, start), step)->Ok_0;
        lemma_migrated_rows(rows, n - 1, seen, start, mid, class);
        assert(step(mid, rows[n - 1]) == Ok::<(Set<Seq<u8>>, StateChange), MergeError>(out));
        assert(mid.0.contains(rows[n - 1].class_hash@) <==> met_before(rows, seen, n - 1));
        assert forall|x: Seq<u8>| #[trigger] out.0.contains(x) <==> seen.contains(x) || exists|j: int|
            0 <= j < n && (#[trigger] rows[j]).class_hash@ == x by {
            assert(mid.0.contains(x) <==> seen.contains(x) || exists|j: int|
                0 <= j < n - 1 && (#[trigger] rows[j]).class_hash@ == x);
            if x == rows[n - 1].class_hash@ {
                assert(out.0.contains(x));
            }
        }
    }
}

pub open spec fn class_entry_of(list: Seq<(Seq<u8>, Seq<u8>)>, address: Felt) -> spec_fn(int) -> bool {
    |i: int| felt_from(list[i].0) == address
}

/// What class changes do to the class of a contract, and that they change nothing else.
proof fn lemma_class_entries(
    list: Seq<(Seq<u8>, Seq<u8>)>,
    n: int,
    seen: Set<Seq<u8>>,
    start: StateChange,
    out: StateChange,
    address: Felt,
)
    requires
        0 <= n <= list.len(),
        fold_rows(
            list.take(n),
            start,
            |acc: StateChange, entry: (Seq<u8>, Seq<u8>)| class_step(seen, acc, entry),
        ) == Ok::<StateChange, MergeError>(out),
    ensures
        out == (StateChange { contracts: out.contracts, ..start }),
        ({
            let last = last_match(class_entry_of(list, address), n);
            let a = contract_or_none(start.contracts, address);
            let b = contract_or_none(out.contracts, address);
            &&& out.contracts.contains_key(address) <==> start.contracts.contains_key(address)
                || last is Some
            &&& b.storage == a.storage
            &&& b.nonce == a.nonce
            &&& b.class == match last {
                Some(i) => Some(
                    if seen.contains(list[i].0) {
                        ContractClassUpdate::Replace(felt_from(list[i].1))
                    } else {
                        ContractClassUpdate::Deploy(felt_from(list[i].1))
                    },
                ),
                None => a.class,
            }
        }),
        forall|i: int|
            0 <= i < n ==> address_from((#[trigger] list[i]).0) is Ok && is_felt(list[i].1),
    decreases n,
{
    let step = |acc: StateChange, entry: (Seq<u8>, Seq<u8>)| class_step(seen, acc, entry);
    if n > 0 {
        lemma_take(list, n);
        let mid = fold_rows(list.take(n - 1), start, step)->Ok_0;
        lemma_class_entries(list, n - 1, seen, start, mid, address);
        assert(step(mid, list[n - 1]) == Ok::<StateChange, MergeError>(out));
    }
}

/// Of several class changes for one address, given as bytes, the last is the one that counts.
proof fn lemma_last_changes(rows: Seq<ContractRow>, n: int)
    requires
        0 <= n <= rows.len(),
    ensures
        ({
            let list = last_changes(rows.take(n));
            &&& forall|i: int, j: int|
                #![trigger list[i], list[j]]
                0 <= i < j < list.len() ==> list[i].0 != list[j].0
            &&& forall|i: int|
                #![trigger list[i]]
                0 <= i < list.len() ==> exists|r: int|
                    0 <= r < n && (#[trigger] rows[r]).contract_address@ == list[i].0
                        && rows[r].class_hash@ == list[i].1 && forall|q: int|
                        r < q < n ==> (#[trigger] rows[q]).contract_address@ != list[i].0
            &&& forall|r: int|
                #![trigger rows[r]]
                0 <= r < n && (forall|q: int|
                    r < q < n ==> (#[trigger] rows[q]).contract_address@
                        != rows[r].contract_address@) ==> list.contains(
                    (rows[r].contract_address@, rows[r].class_hash@),
                )
        }),
    decreases n,
{
    if n > 0 {
        lemma_take(rows, n);
        lemma_last_changes(rows, n - 1);
        let front = last_changes(rows.take(n - 1));
        let row = rows[n - 1];
        let entry = (row.contract_address@, row.class_hash@);
        let list = last_changes(rows.take(n));
        let slot: int = if has_address(front, entry.0) {
            crate::storage::state_merge::address_slot(front, entry.0)
        } else {
            front.len() as int
        };
        if has_address(front, entry.0) {
            assert(0 <= slot < front.len() && front[slot].0 == entry.0);
            assert(list == front.update(slot, entry));
        } else {
            assert(list == front.push(entry));
        }
        assert(list[slot] == entry);
        assert forall|i: int| 0 <= i < list.len() && i != slot implies #[trigger] list[i] == front[i]
            && list[i].0 != entry.0 by {
            if has_address(front, entry.0) {
                if i < slot {
                    assert(front[i].0 != front[slot].0);
                } else {
                    assert(front[slot].0 != front[i].0);
                }
            } else {
                assert(front[i].0 != entry.0);
            }
        }
        assert forall|i: int, j: int|
            #![trigger list[i], list[j]]
            0 <= i < j < list.len() implies list[i].0 != list[j].0 by {
            if i != slot && j != slot {
                assert(front[i].0 != front[j].0);
            }
        }
        assert forall|i: int| #![trigger list[i]] 0 <= i < list.len() implies exists|r: int|
            0 <= r < n && (#[trigger] rows[r]).contract_address@ == list[i].0
                && rows[r].class_hash@ == list[i].1 && forall|q: int|
                r < q < n ==> (#[trigger] rows[q]).contract_address@ != list[i].0 by {
            if i == slot {
                assert(rows[n - 1].contract_address@ == list[i].0);
            } else {
                assert(list[i] == front[i]);
                let r = choose|r: int|
                    0 <= r < n - 1 && (#[trigger] rows[r]).contract_address@ == front[i].0
                        && rows[r].class_hash@ == front[i].1 && forall|q: int|
                        r < q < n - 1 ==> (#[trigger] rows[q]).contract_address@ != front[i].0;
                assert(rows[r].contract_address@ == list[i].0);
            }
        }
        assert forall|r: int|
            #![trigger rows[r]]
            0 <= r < n && (forall|q: int|
                r < q < n ==> (#[trigger] rows[q]).contract_address@
                    != rows[r].contract_address@) implies list.contains(
            (rows[r].contract_address@, rows[r].class_hash@),
        ) by {
            if r == n - 1 {
                assert(list[slot] == entry);
            } else {
                assert(rows[n - 1].contract_address@ != rows[r].contract_address@);
                let want = (rows[r].contract_address@, rows[r].class_hash@);
                assert(front.contains(want));
                let i = choose|i: int| 0 <= i < front.len() && front[i] == want;
                assert(i != slot);
                assert(list[i] == want);
            }
        }
    } else {
        assert(rows.take(0) =~= Seq::<ContractRow>::empty());
    }
}

/// The row that a class change that counts is from.
proof fn lemma_entry_row(run: Seq<ContractRow>, at: int) -> (r: int)
    requires
        0 <= at < last_changes(run).len(),
    ensures
        0 <= r < run.len(),
        run[r].contract_address@ == last_changes(run)[at].0,
        run[r].class_hash@ == last_changes(run)[at].1,
{
    assert(run.take(run.len() as int) =~= run);
    lemma_last_changes(run, run.len() as int);
    let list = last_changes(run);
    assert(list[at].0 == list[at].0);
    choose|r: int|
        0 <= r < run.len() && (#[trigger] run[r]).contract_address@ == list[at].0
            && run[r].class_hash@ == list[at].1 && forall|q: int|
            r < q < run.len() ==> (#[trigger] run[q]).contract_address@ != list[at].0
}

/// The last row for an address is the one that counts, where no other change that counts is for the
/// same contract.
proof fn lemma_row_entry(run: Seq<ContractRow>, r: int, address: Felt)
    requires
        0 <= r < run.len(),
        felt_from(run[r].contract_address@) == address,
        forall|q: int|
            r < q < run.len() ==> (#[trigger] run[q]).contract_address@ != run[r].contract_address@,
        forall|at: int|
            0 <= at < last_changes(run).len() && felt_from((#[trigger] last_changes(run)[at]).0)
                == address ==> last_changes(run)[at].0 == run[r].contract_address@,
    ensures
        last_match(
            class_entry_of(last_changes(run), address),
            last_changes(run).len() as int,
        ) matches Some(at) && last_changes(run)[at] == (
            run[r].contract_address@,
            run[r].class_hash@,
        ),
{
    assert(run.take(run.len() as int) =~= run);
    lemma_last_changes(run, run.len() as int);
    let list = last_changes(run);
    let want = (run[r].contract_address@, run[r].class_hash@);
    assert(list.contains(want));
    let at = choose|at: int| 0 <= at < list.len() && list[at] == want;
    let p = class_entry_of(list, address);
    assert(p(at));
    lemma_last_match(p, list.len() as int);
    let last = last_match(p, list.len() as int)->0;
    if last != at {
        assert(list[at].0 != list[last].0);
    }
}

/// What the merged rows of a block amount to, for one contract, one entry of its storage and one
/// class.
proof fn lemma_merged(
    rows: BlockRows,
    classes: Set<Seq<u8>>,
    contracts: Set<Seq<u8>>,
    change: StateChange,
    address: Felt,
    key: Felt,
    class: Felt,
)
    requires
        merged_change(rows, classes, contracts) == Ok::<StateChange, MergeError>(change),
    ensures
        ({
            let list = last_changes(rows.contracts);
            let nonce = last_match(nonce_row_of(rows.nonces, address), rows.nonces.len() as int);
            let slot = last_match(
                storage_row_of(rows.storages, address, key),
                rows.storages.len() as int,
            );
            let slots = last_match(storage_row_for(rows.storages, address), rows.storages.len() as int);
            let entry = last_match(class_entry_of(list, address), list.len() as int);
            let cairo = last_match(cairo_row_of(rows.declareds, class), rows.declareds.len() as int);
            let sierra = last_match(sierra_row_of(rows.declareds, class), rows.declareds.len() as int);
            let again = last_match(
                redeclared_row_of(rows.redeclareds, class),
                rows.redeclareds.len() as int,
            );
            let migrated = last_match(
                migrated_row_of(rows.migrateds, classes, class),
                rows.migrateds.len() as int,
            );
            let c = contract_or_none(change.contracts, address);
            &&& change.contracts.contains_key(address) <==> nonce is Some || entry is Some || (
            !is_one_or_two(address) && slots is Some)
            &&& c.nonce == match nonce {
                Some(i) => Some(felt_from(rows.nonces[i].nonce@)),
                None => None,
            }
            &&& c.class == match entry {
                Some(i) => Some(
                    if contracts.contains(list[i].0) {
                        ContractClassUpdate::Replace(felt_from(list[i].1))
                    } else {
                        ContractClassUpdate::Deploy(felt_from(list[i].1))
                    },
                ),
                None => None,
            }
            &&& c.storage.contains_key(key) <==> !is_one_or_two(address) && slot is Some
            &&& c.storage.contains_key(key) ==> c.storage[key] == felt_from(
                rows.storages[slot->0].storage_value@,
            )
            &&& change.systems.contains_key(address) <==> is_one_or_two(address) && slots is Some
            &&& system_or_none(change.systems, address).contains_key(key) <==> is_one_or_two(address)
                && slot is Some
            &&& system_or_none(change.systems, address).contains_key(key) ==> system_or_none(
                change.systems,
                address,
            )[key] == felt_from(rows.storages[slot->0].storage_value@)
            &&& change.cairo.contains(class) <==> cairo is Some || again is Some
            &&& change.sierra.contains_key(class) <==> sierra is Some
            &&& change.sierra.contains_key(class) ==> change.sierra[class] == felt_from(
                rows.declareds[sierra->0].casm_hash->0@,
            )
            &&& change.migrated.contains_key(class) <==> migrated is Some
            &&& change.migrated.contains_key(class) ==> change.migrated[class] == felt_from(
                rows.migrateds[migrated->0].casm_hash@,
            )
        }),
        forall|i: int|
            0 <= i < rows.nonces.len() ==> address_from(
                (#[trigger] rows.nonces[i]).contract_address@,
            ) is Ok && is_felt(rows.nonces[i].nonce@),
        forall|i: int|
            0 <= i < rows.storages.len() ==> address_from(
                (#[trigger] rows.storages[i]).contract_address@,
            ) is Ok && is_felt(rows.storages[i].storage_address@) && is_felt(
                rows.storages[i].storage_value@,
            ),
        forall|i: int|
            0 <= i < rows.declareds.len() ==> is_felt((#[trigger] rows.declareds[i]).class_hash@) && (
            rows.declareds[i].casm_hash matches Some(casm) ==> is_felt(casm@)),
        forall|i: int|
            0 <= i < rows.redeclareds.len() ==> is_felt((#[trigger] rows.redeclareds[i]).class_hash@),
        forall|i: int|
            0 <= i < rows.migrateds.len() && #[trigger] met_before(rows.migrateds, classes, i)
                ==> is_felt(rows.migrateds[i].class_hash@) && is_felt(rows.migrateds[i].casm_hash@),
        forall|i: int|
            0 <= i < last_changes(rows.contracts).len() ==> address_from(
                (#[trigger] last_changes(rows.contracts)[i]).0,
            ) is Ok && is_felt(last_changes(rows.contracts)[i].1),
{
    let nonce_of = |acc: StateChange, row: NonceRow| nonce_step(acc, row);
    let storage_of = |acc: StateChange, row: StorageRow| storage_step(acc, row);
    let declared_of = |acc: StateChange, row: DeclaredRow| declared_step(acc, row);
    let redeclared_of = |acc: StateChange, row: RedeclaredRow| redeclared_step(acc, row);
    let migrated_of = |acc: (Set<Seq<u8>>, StateChange), row: MigratedRow| migrated_step(acc, row);
    let list = last_changes(rows.contracts);
    assert(rows.nonces.take(rows.nonces.len() as int) =~= rows.nonces);
    assert(rows.storages.take(rows.storages.len() as int) =~= rows.storages);
    assert(rows.declareds.take(rows.declareds.len() as int) =~= rows.declareds);
    assert(rows.redeclareds.take(rows.redeclareds.len() as int) =~= rows.redeclareds);
    assert(rows.migrateds.take(rows.migrateds.len() as int) =~= rows.migrateds);
    assert(list.take(list.len() as int) =~= list);
    let none = empty_change();
    let a = fold_rows(rows.nonces, none, nonce_of)->Ok_0;
    let b = fold_rows(rows.storages, a, storage_of)->Ok_0;
    let c = fold_rows(rows.declareds, b, declared_of)->Ok_0;
    let d = fold_rows(rows.redeclareds, c, redeclared_of)->Ok_0;
    let e = fold_rows(rows.migrateds, (classes, d), migrated_of)->Ok_0;
    assert(plain_change(rows) == Ok::<StateChange, MergeError>(d));
    lemma_nonce_rows(rows.nonces, rows.nonces.len() as int, none, a, address);
    lemma_storage_rows(rows.storages, rows.storages.len() as int, a, b, address, key);
    lemma_declared_rows(rows.declareds, rows.declareds.len() as int, b, c, class);
    lemma_redeclared_rows(rows.redeclareds, rows.redeclareds.len() as int, c, d, class);
    lemma_migrated_rows(rows.migrateds, rows.migrateds.len() as int, classes, d, e, class);
    lemma_class_entries(list, list.len() as int, contracts, e.1, change, address);
    lemma_last_match(storage_row_of(rows.storages, address, key), rows.storages.len() as int);
    lemma_last_match(storage_row_for(rows.storages, address), rows.storages.len() as int);
}

/// The blocks are different ones.
pub open spec fn blocks_differ(blocks: Seq<u64>) -> bool {
    forall|i: int, j: int|
        #![trigger blocks[i], blocks[j]]
        0 <= i < j < blocks.len() ==> blocks[i] != blocks[j]
}

/// A row for the `k`-th block is in the run of that block.
proof fn lemma_in_run(number: spec_fn(int) -> u64, len: int, blocks: Seq<u64>, k: int, i: int)
    requires
        0 <= k < blocks.len(),
        0 <= i < len,
        blocks_differ(blocks),
        run_start(number, len, blocks, blocks.len() as int) == len,
        number(i) == blocks[k],
    ensures
        run_start(number, len, blocks, k) <= i < run_start(number, len, blocks, k + 1),
{
    law_every_row_lands_in_its_block(number, len, blocks, i);
    let m = choose|m: int|
        0 <= m < blocks.len() && run_start(number, len, blocks, m) <= i < run_start(
            number,
            len,
            blocks,
            m + 1,
        ) && #[trigger] blocks[m] == number(i);
    if m < k {
        assert(blocks[m] != blocks[k]);
    }
    if k < m {
        assert(blocks[k] != blocks[m]);
    }
}

proof fn lemma_start_within(number: spec_fn(int) -> u64, len: int, blocks: Seq<u64>, k: int)
    requires
        0 <= k <= blocks.len(),
        0 <= len,
    ensures
        0 <= run_start(number, len, blocks, k) <= len,
        k < blocks.len() ==> run_start(number, len, blocks, k) <= run_start(
            number,
            len,
            blocks,
            k + 1,
        ) <= len,
    decreases k,
{
    if k > 0 {
        lemma_start_within(number, len, blocks, k - 1);
        lemma_run(number, len, run_start(number, len, blocks, k - 1), blocks[k - 1]);
    }
    if k < blocks.len() {
        lemma_run(number, len, run_start(number, len, blocks, k), blocks[k]);
    }
}

/// A row in the run of the `k`-th block is for that block.
proof fn lemma_of_run(number: spec_fn(int) -> u64, len: int, blocks: Seq<u64>, k: int, i: int)
    requires
        0 <= k < blocks.len(),
        0 <= len,
        run_start(number, len, blocks, k) <= i < run_start(number, len, blocks, k + 1),
    ensures
        0 <= i < len,
        number(i) == blocks[k],
{
    lemma_start_within(number, len, blocks, k);
    lemma_run(number, len, run_start(number, len, blocks, k), blocks[k]);
}

/// The element that readable bytes stand for has them as its bytes.
proof fn lemma_stands_for(s: Seq<u8>)
    requires
        s.len() <= 32,
    ensures
        felt_from(s)@ == left_padded(s),
{
    lemma_felt_exists(s);
}

/// A table has been used up, where no table has rows left over.
proof fn lemma_used_up(tables: &StateTables, blocks: Seq<u64>)
    requires
        tables.left_over(blocks) is None,
    ensures
        tables.nonce_start(blocks, blocks.len() as int) == tables.nonces@.len(),
        tables.storage_start(blocks, blocks.len() as int) == tables.storages@.len(),
        tables.declared_start(blocks, blocks.len() as int) == tables.declareds@.len(),
        tables.redeclared_start(blocks, blocks.len() as int) == tables.redeclareds@.len(),
        tables.migrated_start(blocks, blocks.len() as int) == tables.migrateds@.len(),
        tables.contract_start(blocks, blocks.len() as int) == tables.contracts@.len(),
{
    let n = blocks.len() as int;
    lemma_start_within(
        |i: int| tables.nonces@[i].block_number,
        tables.nonces@.len() as int,
        blocks,
        n,
    );
    lemma_start_within(
        |i: int| tables.storages@[i].block_number,
        tables.storages@.len() as int,
        blocks,
        n,
    );
    lemma_start_within(
        |i: int| tables.declareds@[i].block_number,
        tables.declareds@.len() as int,
        blocks,
        n,
    );
    lemma_start_within(
        |i: int| tables.redeclareds@[i].block_number,
        tables.redeclareds@.len() as int,
        blocks,
        n,
    );
    lemma_start_within(
        |i: int| tables.migrateds@[i].block_number,
        tables.migrateds@.len() as int,
        blocks,
        n,
    );
    lemma_start_within(
        |i: int| tables.contracts@[i].block_number,
        tables.contracts@.len() as int,
        blocks,
        n,
    );
}

/// A storage row that no later row of its block overwrites is found in the state update of its
/// block: under the system contracts where its address is one or two, and under the other contracts
/// otherwise.
pub proof fn law_storage_rows_are_merged(
    tables: &StateTables,
    blocks: Seq<u64>,
    k: int,
    change: StateChange,
    i: int,
    address: Felt,
    key: Felt,
    value: Felt,
)
    requires
        0 <= k < blocks.len(),
        blocks_differ(blocks),
        tables.block_change(blocks, k) == Ok::<StateChange, MergeError>(change),
        tables.left_over(blocks) is None,
        0 <= i < tables.storages@.len(),
        tables.storages@[i].block_number == blocks[k],
        address@ == left_padded(tables.storages@[i].contract_address@),
        key@ == left_padded(tables.storages@[i].storage_address@),
        value@ == left_padded(tables.storages@[i].storage_value@),
        forall|j: int|
            i < j < tables.storages@.len() && (#[trigger] tables.storages@[j]).block_number == blocks[k]
                ==> left_padded(tables.storages@[j].contract_address@) != address@ || left_padded(
                tables.storages@[j].storage_address@,
            ) != key@,
    ensures
        if be_value_256(address@) == 1 || be_value_256(address@) == 2 {
            &&& change.systems.contains_key(address)
            &&& change.systems[address].contains_key(key)
            &&& change.systems[address][key] == value
        } else {
            &&& change.contracts.contains_key(address)
            &&& change.contracts[address].storage.contains_key(key)
            &&& change.contracts[address].storage[key] == value
        },
{
    let number = |i: int| tables.storages@[i].block_number;
    let len = tables.storages@.len() as int;
    let start = tables.storage_start(blocks, k);
    let rows = tables.block_rows(blocks, k);
    let run = rows.storages;
    lemma_used_up(tables, blocks);
    lemma_in_run(number, len, blocks, k, i);
    lemma_start_within(number, len, blocks, k);
    lemma_merged(
        rows,
        tables.classes_before(blocks, k),
        tables.contracts_before(blocks, k),
        change,
        address,
        key,
        key,
    );
    let row = tables.storages@[i];
    lemma_felt_from(address, row.contract_address@);
    lemma_felt_from(key, row.storage_address@);
    lemma_felt_from(value, row.storage_value@);
    assert(run[i - start] == row);
    let p = storage_row_of(run, address, key);
    let q = storage_row_for(run, address);
    assert(p(i - start) && q(i - start));
    lemma_last_match(p, run.len() as int);
    lemma_last_match(q, run.len() as int);
    let last = last_match(p, run.len() as int)->0;
    if last != i - start {
        assert(last > i - start);
        let j = start + last;
        assert(run[last] == tables.storages@[j]);
        lemma_of_run(number, len, blocks, k, j);
        assert(number(j) == tables.storages@[j].block_number);
        lemma_stands_for(run[last].contract_address@);
        lemma_stands_for(run[last].storage_address@);
    }
}

/// Every entry of storage in the state update of a block comes from a row of that block, the last
/// one for that entry; and entries of system contracts are those of the addresses one and two.
pub proof fn law_merged_storage_comes_from_rows(
    tables: &StateTables,
    blocks: Seq<u64>,
    k: int,
    change: StateChange,
    address: Felt,
    key: Felt,
)
    requires
        0 <= k < blocks.len(),
        tables.block_change(blocks, k) == Ok::<StateChange, MergeError>(change),
    ensures
        change.contracts.contains_key(address) && change.contracts[address].storage.contains_key(key)
            ==> be_value_256(address@) != 1 && be_value_256(address@) != 2 && exists|i: int|
            0 <= i < tables.storages@.len() && (#[trigger] tables.storages@[i]).block_number
                == blocks[k] && left_padded(tables.storages@[i].contract_address@) == address@
                && left_padded(tables.storages@[i].storage_address@) == key@ && left_padded(
                tables.storages@[i].storage_value@,
            ) == change.contracts[address].storage[key]@,
        change.systems.contains_key(address) && change.systems[address].contains_key(key) ==> (
        be_value_256(address@) == 1 || be_value_256(address@) == 2) && exists|i: int|
            0 <= i < tables.storages@.len() && (#[trigger] tables.storages@[i]).block_number
                == blocks[k] && left_padded(tables.storages@[i].contract_address@) == address@
                && left_padded(tables.storages@[i].storage_address@) == key@ && left_padded(
                tables.storages@[i].storage_value@,
            ) == change.systems[address][key]@,
{
    let number = |i: int| tables.storages@[i].block_number;
    let len = tables.storages@.len() as int;
    let start = tables.storage_start(blocks, k);
    let rows = tables.block_rows(blocks, k);
    let run = rows.storages;
    lemma_start_within(number, len, blocks, k);
    lemma_merged(
        rows,
        tables.classes_before(blocks, k),
        tables.contracts_before(blocks, k),
        change,
        address,
        key,
        key,
    );
    let p = storage_row_of(run, address, key);
    lemma_last_match(p, run.len() as int);
    if let Some(last) = last_match(p, run.len() as int) {
        let i = start + last;
        assert(run[last] == tables.storages@[i]);
        lemma_of_run(number, len, blocks, k, i);
        assert(number(i) == tables.storages@[i].block_number);
        lemma_stands_for(run[last].contract_address@);
        lemma_stands_for(run[last].storage_address@);
        lemma_stands_for(run[last].storage_value@);
    }
}

/// A nonce row that no later row of its block overwrites is found in the state update of its block,
/// and every nonce there comes from such a row.
pub proof fn law_nonce_rows_are_merged(
    tables: &StateTables,
    blocks: Seq<u64>,
    k: int,
    change: StateChange,
    i: int,
    address: Felt,
    nonce: Felt,
)
    requires
        0 <= k < blocks.len(),
        blocks_differ(blocks),
        tables.block_change(blocks, k) == Ok::<StateChange, MergeError>(change),
        tables.left_over(blocks) is None,
        0 <= i < tables.nonces@.len(),
        tables.nonces@[i].block_number == blocks[k],
        address@ == left_padded(tables.nonces@[i].contract_address@),
        nonce@ == left_padded(tables.nonces@[i].nonce@),
        forall|j: int|
            i < j < tables.nonces@.len() && (#[trigger] tables.nonces@[j]).block_number == blocks[k]
                ==> left_padded(tables.nonces@[j].contract_address@) != address@,
    ensures
        change.contracts.contains_key(address),
        change.contracts[address].nonce == Some(nonce),
{
    let number = |i: int| tables.nonces@[i].block_number;
    let len = tables.nonces@.len() as int;
    let start = tables.nonce_start(blocks, k);
    let rows = tables.block_rows(blocks, k);
    let run = rows.nonces;
    lemma_used_up(tables, blocks);
    lemma_in_run(number, len, blocks, k, i);
    lemma_start_within(number, len, blocks, k);
    lemma_merged(
        rows,
        tables.classes_before(blocks, k),
        tables.contracts_before(blocks, k),
        change,
        address,
        address,
        address,
    );
    let row = tables.nonces@[i];
    lemma_felt_from(address, row.contract_address@);
    lemma_felt_from(nonce, row.nonce@);
    assert(run[i - start] == row);
    let p = nonce_row_of(run, address);
    assert(p(i - start));
    lemma_last_match(p, run.len() as int);
    let last = last_match(p, run.len() as int)->0;
    if last != i - start {
        let j = start + last;
        assert(run[last] == tables.nonces@[j]);
        lemma_of_run(number, len, blocks, k, j);
        assert(number(j) == tables.nonces@[j].block_number);
        lemma_stands_for(run[last].contract_address@);
    }
}

/// Every nonce in the state update of a block comes from a row of that block.
pub proof fn law_merged_nonces_come_from_rows(
    tables: &StateTables,
    blocks: Seq<u64>,
    k: int,
    change: StateChange,
    address: Felt,
    nonce: Felt,
)
    requires
        0 <= k < blocks.len(),
        tables.block_change(blocks, k) == Ok::<StateChange, MergeError>(change),
        change.contracts.contains_key(address),
        change.contracts[address].nonce == Some(nonce),
    ensures
        exists|i: int|
            0 <= i < tables.nonces@.len() && (#[trigger] tables.nonces@[i]).block_number == blocks[k]
                && left_padded(tables.nonces@[i].contract_address@) == address@ && left_padded(
                tables.nonces@[i].nonce@,
            ) == nonce@,
{
    let number = |i: int| tables.nonces@[i].block_number;
    let len = tables.nonces@.len() as int;
    let start = tables.nonce_start(blocks, k);
    let rows = tables.block_rows(blocks, k);
    let run = rows.nonces;
    lemma_start_within(number, len, blocks, k);
    lemma_merged(
        rows,
        tables.classes_before(blocks, k),
        tables.contracts_before(blocks, k),
        change,
        address,
        address,
        address,
    );
    let p = nonce_row_of(run, address);
    lemma_last_match(p, run.len() as int);
    let last = last_match(p, run.len() as int)->0;
    let i = start + last;
    assert(run[last] == tables.nonces@[i]);
    lemma_of_run(number, len, blocks, k, i);
    assert(number(i) == tables.nonces@[i].block_number);
    lemma_stands_for(run[last].contract_address@);
    lemma_stands_for(run[last].nonce@);
}

/// A class that is declared or redeclared in a row is found in the state update of its block: among
/// the Cairo classes where the row has no compiled class hash, and with that hash, where no later
/// declaration of the block overwrites it, among the Sierra classes otherwise.
pub proof fn law_declarations_are_merged(
    tables: &StateTables,
    blocks: Seq<u64>,
    k: int,
    change: StateChange,
    i: int,
    class: Felt,
)
    requires
        0 <= k < blocks.len(),
        blocks_differ(blocks),
        tables.block_change(blocks, k) == Ok::<StateChange, MergeError>(change),
        tables.left_over(blocks) is None,
        0 <= i,
    ensures
        i < tables.redeclareds@.len() && tables.redeclareds@[i].block_number == blocks[k] && class@
            == left_padded(tables.redeclareds@[i].class_hash@) ==> change.cairo.contains(class),
        i < tables.declareds@.len() && tables.declareds@[i].block_number == blocks[k] && class@
            == left_padded(tables.declareds@[i].class_hash@) ==> match tables.declareds@[i].casm_hash {
            None => change.cairo.contains(class),
            Some(casm) => change.sierra.contains_key(class) && ((forall|j: int|
                i < j < tables.declareds@.len() && (#[trigger] tables.declareds@[j]).block_number
                    == blocks[k] && tables.declareds@[j].casm_hash is Some ==> left_padded(
                    tables.declareds@[j].class_hash@,
                ) != class@) ==> change.sierra[class]@ == left_padded(casm@)),
        },
{
    let rows = tables.block_rows(blocks, k);
    lemma_used_up(tables, blocks);
    lemma_merged(
        rows,
        tables.classes_before(blocks, k),
        tables.contracts_before(blocks, k),
        change,
        class,
        class,
        class,
    );
    if i < tables.redeclareds@.len() && tables.redeclareds@[i].block_number == blocks[k] && class@
        == left_padded(tables.redeclareds@[i].class_hash@) {
        let number = |i: int| tables.redeclareds@[i].block_number;
        let len = tables.redeclareds@.len() as int;
        let start = tables.redeclared_start(blocks, k);
        lemma_in_run(number, len, blocks, k, i);
        lemma_start_within(number, len, blocks, k);
        lemma_felt_from(class, tables.redeclareds@[i].class_hash@);
        let run = rows.redeclareds;
        assert(run[i - start] == tables.redeclareds@[i]);
        let p = redeclared_row_of(run, class);
        assert(p(i - start));
        lemma_last_match(p, run.len() as int);
    }
    if i < tables.declareds@.len() && tables.declareds@[i].block_number == blocks[k] && class@
        == left_padded(tables.declareds@[i].class_hash@) {
        let number = |i: int| tables.declareds@[i].block_number;
        let len = tables.declareds@.len() as int;
        let start = tables.declared_start(blocks, k);
        lemma_in_run(number, len, blocks, k, i);
        lemma_start_within(number, len, blocks, k);
        lemma_felt_from(class, tables.declareds@[i].class_hash@);
        let run = rows.declareds;
        assert(run[i - start] == tables.declareds@[i]);
        let p = cairo_row_of(run, class);
        let q = sierra_row_of(run, class);
        assert(p(i - start) || q(i - start));
        lemma_last_match(p, run.len() as int);
        lemma_last_match(q, run.len() as int);
        if let Some(casm) = tables.declareds@[i].casm_hash {
            assert(q(i - start));
            let last = last_match(q, run.len() as int)->0;
            let j = start + last;
            assert(run[last] == tables.declareds@[j]);
            lemma_of_run(number, len, blocks, k, j);
            assert(number(j) == tables.declareds@[j].block_number);
            lemma_stands_for(run[last].class_hash@);
            lemma_stands_for(casm@);
        }
    }
}

/// Every class declared in the state update of a block comes from a row of that block.
pub proof fn law_merged_declarations_come_from_rows(
    tables: &StateTables,
    blocks: Seq<u64>,
    k: int,
    change: StateChange,
    class: Felt,
)
    requires
        0 <= k < blocks.len(),
        tables.block_change(blocks, k) == Ok::<StateChange, MergeError>(change),
    ensures
        change.cairo.contains(class) ==> (exists|i: int|
            0 <= i < tables.declareds@.len() && (#[trigger] tables.declareds@[i]).block_number
                == blocks[k] && left_padded(tables.declareds@[i].class_hash@) == class@
                && tables.declareds@[i].casm_hash is None) || (exists|i: int|
            0 <= i < tables.redeclareds@.len() && (#[trigger] tables.redeclareds@[i]).block_number
                == blocks[k] && left_padded(tables.redeclareds@[i].class_hash@) == class@),
        change.sierra.contains_key(class) ==> exists|i: int|
            0 <= i < tables.declareds@.len() && (#[trigger] tables.declareds@[i]).block_number
                == blocks[k] && left_padded(tables.declareds@[i].class_hash@) == class@ && (
            tables.declareds@[i].casm_hash matches Some(casm) && left_padded(casm@)
                == change.sierra[class]@),
{
    let rows = tables.block_rows(blocks, k);
    lemma_merged(
        rows,
        tables.classes_before(blocks, k),
        tables.contracts_before(blocks, k),
        change,
        class,
        class,
        class,
    );
    let declared = |i: int| tables.declareds@[i].block_number;
    let redeclared = |i: int| tables.redeclareds@[i].block_number;
    lemma_start_within(declared, tables.declareds@.len() as int, blocks, k);
    lemma_start_within(redeclared, tables.redeclareds@.len() as int, blocks, k);
    let p = cairo_row_of(rows.declareds, class);
    let q = sierra_row_of(rows.declareds, class);
    let r = redeclared_row_of(rows.redeclareds, class);
    lemma_last_match(p, rows.declareds.len() as int);
    lemma_last_match(q, rows.declareds.len() as int);
    lemma_last_match(r, rows.redeclareds.len() as int);
    if let Some(last) = last_match(p, rows.declareds.len() as int) {
        let i = tables.declared_start(blocks, k) + last;
        assert(rows.declareds[last] == tables.declareds@[i]);
        lemma_of_run(declared, tables.declareds@.len() as int, blocks, k, i);
        assert(declared(i) == tables.declareds@[i].block_number);
        lemma_stands_for(rows.declareds[last].class_hash@);
    }
    if let Some(last) = last_match(q, rows.declareds.len() as int) {
        let i = tables.declared_start(blocks, k) + last;
        assert(rows.declareds[last] == tables.declareds@[i]);
        lemma_of_run(declared, tables.declareds@.len() as int, blocks, k, i);
        assert(declared(i) == tables.declareds@[i].block_number);
        lemma_stands_for(rows.declareds[last].class_hash@);
        lemma_stands_for(rows.declareds[last].casm_hash->0@);
    }
    if let Some(last) = last_match(r, rows.redeclareds.len() as int) {
        let i = tables.redeclared_start(blocks, k) + last;
        assert(rows.redeclareds[last] == tables.redeclareds@[i]);
        lemma_of_run(redeclared, tables.redeclareds@.len() as int, blocks, k, i);
        assert(redeclared(i) == tables.redeclareds@[i].block_number);
        lemma_stands_for(rows.redeclareds[last].class_hash@);
    }
}

/// A class was met before a row of a block exactly where an earlier row speaks of it, whatever
/// block that one is for.
proof fn lemma_met_before(tables: &StateTables, blocks: Seq<u64>, k: int, i: int)
    requires
        0 <= k < blocks.len(),
        tables.migrated_start(blocks, k) <= i < tables.migrated_start(blocks, k + 1),
    ensures
        met_before(
            tables.migrated_run(blocks, k),
            tables.classes_before(blocks, k),
            i - tables.migrated_start(blocks, k),
        ) <==> exists|j: int|
            0 <= j < i && (#[trigger] tables.migrateds@[j]).class_hash@
                == tables.migrateds@[i].class_hash@,
{
    let number = |i: int| tables.migrateds@[i].block_number;
    let len = tables.migrateds@.len() as int;
    let start = tables.migrated_start(blocks, k);
    let run = tables.migrated_run(blocks, k);
    lemma_start_within(number, len, blocks, k);
    assert(run[i - start] == tables.migrateds@[i]);
    let x = tables.migrateds@[i].class_hash@;
    let before = tables.migrateds@.subrange(0, start);
    let images = before.map_values(|row: MigratedRow| row.class_hash@);
    assert(tables.classes_before(blocks, k).contains(x) <==> exists|j: int|
        0 <= j < start && (#[trigger] tables.migrateds@[j]).class_hash@ == x) by {
        if images.to_set().contains(x) {
            assert(images.contains(x));
            let j = choose|j: int| 0 <= j < images.len() && images[j] == x;
            assert(before[j] == tables.migrateds@[j]);
        }
        if exists|j: int| 0 <= j < start && (#[trigger] tables.migrateds@[j]).class_hash@ == x {
            let j = choose|j: int| 0 <= j < start && (#[trigger] tables.migrateds@[j]).class_hash@ == x;
            assert(before[j] == tables.migrateds@[j]);
            assert(images[j] == x);
            assert(images.contains(x));
        }
    }
    if exists|j: int| 0 <= j < i - start && (#[trigger] run[j]).class_hash@ == x {
        let j = choose|j: int| 0 <= j < i - start && (#[trigger] run[j]).class_hash@ == x;
        assert(run[j] == tables.migrateds@[start + j]);
    }
    if exists|j: int| 0 <= j < i && (#[trigger] tables.migrateds@[j]).class_hash@ == x {
        let j = choose|j: int| 0 <= j < i && (#[trigger] tables.migrateds@[j]).class_hash@ == x;
        if j >= start {
            assert(run[j - start] == tables.migrateds@[j]);
        }
    }
}

/// A compiled class hash of a class that an earlier row speaks of, and that no later row of its
/// block overwrites, is found among the migrated classes of its block.
pub proof fn law_migrated_rows_are_merged(
    tables: &StateTables,
    blocks: Seq<u64>,
    k: int,
    change: StateChange,
    i: int,
    class: Felt,
    casm: Felt,
)
    requires
        0 <= k < blocks.len(),
        blocks_differ(blocks),
        tables.block_change(blocks, k) == Ok::<StateChange, MergeError>(change),
        tables.left_over(blocks) is None,
        0 <= i < tables.migrateds@.len(),
        tables.migrateds@[i].block_number == blocks[k],
        class@ == left_padded(tables.migrateds@[i].class_hash@),
        casm@ == left_padded(tables.migrateds@[i].casm_hash@),
        exists|j: int|
            0 <= j < i && (#[trigger] tables.migrateds@[j]).class_hash@
                == tables.migrateds@[i].class_hash@,
        forall|j: int|
            i < j < tables.migrateds@.len() && (#[trigger] tables.migrateds@[j]).block_number
                == blocks[k] ==> left_padded(tables.migrateds@[j].class_hash@) != class@,
    ensures
        change.migrated.contains_key(class),
        change.migrated[class] == casm,
{
    let number = |i: int| tables.migrateds@[i].block_number;
    let len = tables.migrateds@.len() as int;
    let start = tables.migrated_start(blocks, k);
    let rows = tables.block_rows(blocks, k);
    let run = rows.migrateds;
    let seen = tables.classes_before(blocks, k);
    lemma_used_up(tables, blocks);
    lemma_in_run(number, len, blocks, k, i);
    lemma_start_within(number, len, blocks, k);
    lemma_merged(rows, seen, tables.contracts_before(blocks, k), change, class, class, class);
    lemma_met_before(tables, blocks, k, i);
    let row = tables.migrateds@[i];
    lemma_felt_from(class, row.class_hash@);
    lemma_felt_from(casm, row.casm_hash@);
    assert(run[i - start] == row);
    let p = migrated_row_of(run, seen, class);
    assert(p(i - start));
    lemma_last_match(p, run.len() as int);
    let last = last_match(p, run.len() as int)->0;
    if last != i - start {
        let j = start + last;
        assert(run[last] == tables.migrateds@[j]);
        lemma_of_run(number, len, blocks, k, j);
        assert(number(j) == tables.migrateds@[j].block_number);
        assert(met_before(run, seen, last));
        lemma_stands_for(run[last].class_hash@);
    }
}

/// Every migrated class of a block comes from a row of that block, and an earlier row speaks of the
/// class.
pub proof fn law_merged_migrations_come_from_rows(
    tables: &StateTables,
    blocks: Seq<u64>,
    k: int,
    change: StateChange,
    class: Felt,
)
    requires
        0 <= k < blocks.len(),
        tables.block_change(blocks, k) == Ok::<StateChange, MergeError>(change),
        change.migrated.contains_key(class),
    ensures
        exists|i: int, j: int|
            0 <= j < i < tables.migrateds@.len() && (#[trigger] tables.migrateds@[i]).block_number
                == blocks[k] && left_padded(tables.migrateds@[i].class_hash@) == class@
                && left_padded(tables.migrateds@[i].casm_hash@) == change.migrated[class]@ && (
            #[trigger] tables.migrateds@[j]).class_hash@ == tables.migrateds@[i].class_hash@,
{
    let number = |i: int| tables.migrateds@[i].block_number;
    let len = tables.migrateds@.len() as int;
    let start = tables.migrated_start(blocks, k);
    let rows = tables.block_rows(blocks, k);
    let run = rows.migrateds;
    let seen = tables.classes_before(blocks, k);
    lemma_start_within(number, len, blocks, k);
    lemma_merged(rows, seen, tables.contracts_before(blocks, k), change, class, class, class);
    let p = migrated_row_of(run, seen, class);
    lemma_last_match(p, run.len() as int);
    let last = last_match(p, run.len() as int)->0;
    let i = start + last;
    assert(run[last] == tables.migrateds@[i]);
    lemma_of_run(number, len, blocks, k, i);
    assert(number(i) == tables.migrateds@[i].block_number);
    assert(met_before(run, seen, last));
    lemma_met_before(tables, blocks, k, i);
    lemma_stands_for(run[last].class_hash@);
    lemma_stands_for(run[last].casm_hash@);
    let j = choose|j: int|
        0 <= j < i && (#[trigger] tables.migrateds@[j]).class_hash@ == tables.migrateds@[i].class_hash@;
    assert(tables.migrateds@[j].class_hash@ == tables.migrateds@[i].class_hash@);
}

/// A contract has been met before the rows of a block exactly where a row in front of them speaks
/// of it.
proof fn lemma_contract_met(tables: &StateTables, blocks: Seq<u64>, k: int, x: Seq<u8>)
    requires
        0 <= k < blocks.len(),
    ensures
        tables.contracts_before(blocks, k).contains(x) <==> exists|j: int|
            0 <= j < tables.contract_start(blocks, k) && (
            #[trigger] tables.contracts@[j]).contract_address@ == x,
{
    let number = |i: int| tables.contracts@[i].block_number;
    let start = tables.contract_start(blocks, k);
    lemma_start_within(number, tables.contracts@.len() as int, blocks, k);
    let before = tables.contracts@.subrange(0, start);
    let images = before.map_values(|row: ContractRow| row.contract_address@);
    if images.to_set().contains(x) {
        assert(images.contains(x));
        let j = choose|j: int| 0 <= j < images.len() && images[j] == x;
        assert(before[j] == tables.contracts@[j]);
    }
    if exists|j: int| 0 <= j < start && (#[trigger] tables.contracts@[j]).contract_address@ == x {
        let j = choose|j: int|
            0 <= j < start && (#[trigger] tables.contracts@[j]).contract_address@ == x;
        assert(before[j] == tables.contracts@[j]);
        assert(images[j] == x);
        assert(images.contains(x));
    }
}

/// The last class row of a contract in a block gives the class of the contract in the state update
/// of that block: as a replacement where an earlier block has a class row of the contract, and as a
/// deployment otherwise. One contract is written in one way within a block.
pub proof fn law_class_rows_are_merged(
    tables: &StateTables,
    blocks: Seq<u64>,
    k: int,
    change: StateChange,
    i: int,
    address: Felt,
    class: Felt,
)
    requires
        0 <= k < blocks.len(),
        blocks_differ(blocks),
        tables.block_change(blocks, k) == Ok::<StateChange, MergeError>(change),
        tables.left_over(blocks) is None,
        0 <= i < tables.contracts@.len(),
        tables.contracts@[i].block_number == blocks[k],
        address@ == left_padded(tables.contracts@[i].contract_address@),
        class@ == left_padded(tables.contracts@[i].class_hash@),
        forall|j: int|
            0 <= j < tables.contracts@.len() && (#[trigger] tables.contracts@[j]).block_number
                == blocks[k] && left_padded(tables.contracts@[j].contract_address@) == address@ ==> j
                <= i && tables.contracts@[j].contract_address@
                == tables.contracts@[i].contract_address@,
    ensures
        change.contracts.contains_key(address),
        change.contracts[address].class == Some(
            if exists|j: int|
                0 <= j < i && (#[trigger] tables.contracts@[j]).contract_address@
                    == tables.contracts@[i].contract_address@ && tables.contracts@[j].block_number
                    != blocks[k] {
                ContractClassUpdate::Replace(class)
            } else {
                ContractClassUpdate::Deploy(class)
            },
        ),
{
    let number = |i: int| tables.contracts@[i].block_number;
    let len = tables.contracts@.len() as int;
    let start = tables.contract_start(blocks, k);
    let rows = tables.block_rows(blocks, k);
    let run = rows.contracts;
    let seen = tables.contracts_before(blocks, k);
    lemma_used_up(tables, blocks);
    lemma_in_run(number, len, blocks, k, i);
    lemma_start_within(number, len, blocks, k);
    lemma_merged(rows, tables.classes_before(blocks, k), seen, change, address, address, address);
    let row = tables.contracts@[i];
    let x = row.contract_address@;
    lemma_felt_from(address, x);
    lemma_felt_from(class, row.class_hash@);
    assert(run[i - start] == row);
    let list = last_changes(run);
    assert forall|q: int| i - start < q < run.len() implies (#[trigger] run[q]).contract_address@ != x by {
        assert(run[q] == tables.contracts@[start + q]);
        lemma_of_run(number, len, blocks, k, start + q);
        assert(number(start + q) == tables.contracts@[start + q].block_number);
    }
    assert forall|at: int|
        0 <= at < list.len() && felt_from((#[trigger] list[at]).0) == address implies list[at].0
        == x by {
        let r = lemma_entry_row(run, at);
        assert(run[r] == tables.contracts@[start + r]);
        lemma_of_run(number, len, blocks, k, start + r);
        assert(number(start + r) == tables.contracts@[start + r].block_number);
        assert(address_from(list[at].0) is Ok);
        lemma_stands_for(list[at].0);
    }
    lemma_row_entry(run, i - start, address);
    lemma_contract_met(tables, blocks, k, x);
    if seen.contains(x) {
        let j = choose|j: int|
            0 <= j < start && (#[trigger] tables.contracts@[j]).contract_address@ == x;
        if tables.contracts@[j].block_number == blocks[k] {
            lemma_in_run(number, len, blocks, k, j);
        }
        assert(tables.contracts@[j].block_number != blocks[k]);
    }
    if exists|j: int|
        0 <= j < i && (#[trigger] tables.contracts@[j]).contract_address@ == x
            && tables.contracts@[j].block_number != blocks[k] {
        let j = choose|j: int|
            0 <= j < i && (#[trigger] tables.contracts@[j]).contract_address@ == x
                && tables.contracts@[j].block_number != blocks[k];
        if j >= start {
            lemma_of_run(number, len, blocks, k, j);
            assert(number(j) == tables.contracts@[j].block_number);
        }
    }
}

/// Every class of a contract in the state update of a block comes from a class row of that block.
pub proof fn law_merged_classes_come_from_rows(
    tables: &StateTables,
    blocks: Seq<u64>,
    k: int,
    change: StateChange,
    address: Felt,
    class: Felt,
)
    requires
        0 <= k < blocks.len(),
        tables.block_change(blocks, k) == Ok::<StateChange, MergeError>(change),
        change.contracts.contains_key(address),
        change.contracts[address].class == Some(ContractClassUpdate::Deploy(class))
            || change.contracts[address].class == Some(ContractClassUpdate::Replace(class)),
    ensures
        exists|i: int|
            0 <= i < tables.contracts@.len() && (#[trigger] tables.contracts@[i]).block_number
                == blocks[k] && left_padded(tables.contracts@[i].contract_address@) == address@
                && left_padded(tables.contracts@[i].class_hash@) == class@,
{
    let number = |i: int| tables.contracts@[i].block_number;
    let len = tables.contracts@.len() as int;
    let start = tables.contract_start(blocks, k);
    let rows = tables.block_rows(blocks, k);
    let run = rows.contracts;
    lemma_start_within(number, len, blocks, k);
    lemma_merged(
        rows,
        tables.classes_before(blocks, k),
        tables.contracts_before(blocks, k),
        change,
        address,
        address,
        address,
    );
    let list = last_changes(run);
    let p = class_entry_of(list, address);
    lemma_last_match(p, list.len() as int);
    let last = last_match(p, list.len() as int)->0;
    assert(address_from(list[last].0) is Ok && is_felt(list[last].1));
    let r = lemma_entry_row(run, last);
    let i = start + r;
    assert(run[r] == tables.contracts@[i]);
    lemma_of_run(number, len, blocks, k, i);
    assert(number(i) == tables.contracts@[i].block_number);
    lemma_stands_for(list[last].0);
    lemma_stands_for(list[last].1);
}

/// A contract is in the state update of a block only where a nonce, storage or class row of that
/// block is for it, and a system contract only where a storage row is.
pub proof fn law_merged_contracts_have_rows(
    tables: &StateTables,
    blocks: Seq<u64>,
    k: int,
    change: StateChange,
    address: Felt,
)
    requires
        0 <= k < blocks.len(),
        tables.block_change(blocks, k) == Ok::<StateChange, MergeError>(change),
        change.contracts.contains_key(address) || change.systems.contains_key(address),
    ensures
        (exists|i: int|
            0 <= i < tables.nonces@.len() && (#[trigger] tables.nonces@[i]).block_number == blocks[k]
                && left_padded(tables.nonces@[i].contract_address@) == address@) || (exists|i: int|
            0 <= i < tables.storages@.len() && (#[trigger] tables.storages@[i]).block_number
                == blocks[k] && left_padded(tables.storages@[i].contract_address@) == address@) || (
        exists|i: int|
            0 <= i < tables.contracts@.len() && (#[trigger] tables.contracts@[i]).block_number
                == blocks[k] && left_padded(tables.contracts@[i].contract_address@) == address@),
{
    let rows = tables.block_rows(blocks, k);
    lemma_merged(
        rows,
        tables.classes_before(blocks, k),
        tables.contracts_before(blocks, k),
        change,
        address,
        address,
        address,
    );
    let nonces = |i: int| tables.nonces@[i].block_number;
    let storages = |i: int| tables.storages@[i].block_number;
    let contracts = |i: int| tables.contracts@[i].block_number;
    lemma_start_within(nonces, tables.nonces@.len() as int, blocks, k);
    lemma_start_within(storages, tables.storages@.len() as int, blocks, k);
    lemma_start_within(contracts, tables.contracts@.len() as int, blocks, k);
    let p = nonce_row_of(rows.nonces, address);
    let q = storage_row_for(rows.storages, address);
    let list = last_changes(rows.contracts);
    let e = class_entry_of(list, address);
    lemma_last_match(p, rows.nonces.len() as int);
    lemma_last_match(q, rows.storages.len() as int);
    lemma_last_match(e, list.len() as int);
    if let Some(last) = last_match(p, rows.nonces.len() as int) {
        let i = tables.nonce_start(blocks, k) + last;
        assert(rows.nonces[last] == tables.nonces@[i]);
        lemma_of_run(nonces, tables.nonces@.len() as int, blocks, k, i);
        assert(nonces(i) == tables.nonces@[i].block_number);
        lemma_stands_for(rows.nonces[last].contract_address@);
    }
    if let Some(last) = last_match(q, rows.storages.len() as int) {
        let i = tables.storage_start(blocks, k) + last;
        assert(rows.storages[last] == tables.storages@[i]);
        lemma_of_run(storages, tables.storages@.len() as int, blocks, k, i);
        assert(storages(i) == tables.storages@[i].block_number);
        lemma_stands_for(rows.storages[last].contract_address@);
    }
    if let Some(last) = last_match(e, list.len() as int) {
        let run = rows.contracts;
        assert(address_from(list[last].0) is Ok);
        let r = lemma_entry_row(run, last);
        let i = tables.contract_start(blocks, k) + r;
        assert(run[r] == tables.contracts@[i]);
        lemma_of_run(contracts, tables.contracts@.len() as int, blocks, k, i);
        assert(contracts(i) == tables.contracts@[i].block_number);
        lemma_stands_for(list[last].0);
    }
}

/// A contract address that can be read is a field element of at most 251 bits.
pub open spec fn is_address(s: Seq<u8>) -> bool {
    is_felt(s) && left_padded(s)[0] < 8
}

proof fn lemma_is_address(s: Seq<u8>)
    ensures
        address_from(s) is Ok <==> is_address(s),
{
    if s.len() <= 32 {
        lemma_stands_for(s);
    }
}

/// Where a nonce, storage or declaration row of a block cannot be read, the rows of that block are
/// not merged.
pub proof fn law_unreadable_rows_are_refused(tables: &StateTables, blocks: Seq<u64>, k: int, i: int)
    requires
        0 <= k < blocks.len(),
        blocks_differ(blocks),
        tables.left_over(blocks) is None,
        0 <= i,
    ensures
        i < tables.nonces@.len() && tables.nonces@[i].block_number == blocks[k] && !(is_address(
            tables.nonces@[i].contract_address@,
        ) && is_felt(tables.nonces@[i].nonce@)) ==> tables.block_change(blocks, k) is Err,
        i < tables.storages@.len() && tables.storages@[i].block_number == blocks[k] && !(is_address(
            tables.storages@[i].contract_address@,
        ) && is_felt(tables.storages@[i].storage_address@) && is_felt(
            tables.storages@[i].storage_value@,
        )) ==> tables.block_change(blocks, k) is Err,
        i < tables.declareds@.len() && tables.declareds@[i].block_number == blocks[k] && !(is_felt(
            tables.declareds@[i].class_hash@,
        ) && (tables.declareds@[i].casm_hash matches Some(casm) ==> is_felt(casm@)))
            ==> tables.block_change(blocks, k) is Err,
        i < tables.redeclareds@.len() && tables.redeclareds@[i].block_number == blocks[k] && !is_felt(
            tables.redeclareds@[i].class_hash@,
        ) ==> tables.block_change(blocks, k) is Err,
{
    if let Ok(change) = tables.block_change(blocks, k) {
        let rows = tables.block_rows(blocks, k);
        let any = Felt::zero();
        lemma_merged(
            rows,
            tables.classes_before(blocks, k),
            tables.contracts_before(blocks, k),
            change,
            any,
            any,
            any,
        );
        lemma_used_up(tables, blocks);
        if i < tables.nonces@.len() && tables.nonces@[i].block_number == blocks[k] {
            let number = |i: int| tables.nonces@[i].block_number;
            lemma_in_run(number, tables.nonces@.len() as int, blocks, k, i);
            lemma_start_within(number, tables.nonces@.len() as int, blocks, k);
            assert(rows.nonces[i - tables.nonce_start(blocks, k)] == tables.nonces@[i]);
            lemma_is_address(tables.nonces@[i].contract_address@);
        }
        if i < tables.storages@.len() && tables.storages@[i].block_number == blocks[k] {
            let number = |i: int| tables.storages@[i].block_number;
            lemma_in_run(number, tables.storages@.len() as int, blocks, k, i);
            lemma_start_within(number, tables.storages@.len() as int, blocks, k);
            assert(rows.storages[i - tables.storage_start(blocks, k)] == tables.storages@[i]);
            lemma_is_address(tables.storages@[i].contract_address@);
        }
        if i < tables.declareds@.len() && tables.declareds@[i].block_number == blocks[k] {
            let number = |i: int| tables.declareds@[i].block_number;
            lemma_in_run(number, tables.declareds@.len() as int, blocks, k, i);
            lemma_start_within(number, tables.declareds@.len() as int, blocks, k);
            assert(rows.declareds[i - tables.declared_start(blocks, k)] == tables.declareds@[i]);
        }
        if i < tables.redeclareds@.len() && tables.redeclareds@[i].block_number == blocks[k] {
            let number = |i: int| tables.redeclareds@[i].block_number;
            lemma_in_run(number, tables.redeclareds@.len() as int, blocks, k, i);
            lemma_start_within(number, tables.redeclareds@.len() as int, blocks, k);
            assert(rows.redeclareds[i - tables.redeclared_start(blocks, k)]
                == tables.redeclareds@[i]);
        }
    }
}

/// A row for a block that is not among the blocks is left over, whichever table it is in.
pub proof fn law_rows_of_other_blocks_are_left_over(tables: &StateTables, blocks: Seq<u64>, i: int)
    requires
        0 <= i,
    ensures
        i < tables.nonces@.len() && !blocks.contains(tables.nonces@[i].block_number)
            ==> tables.left_over(blocks) is Some,
        i < tables.storages@.len() && !blocks.contains(tables.storages@[i].block_number)
            ==> tables.left_over(blocks) is Some,
        i < tables.declareds@.len() && !blocks.contains(tables.declareds@[i].block_number)
            ==> tables.left_over(blocks) is Some,
        i < tables.redeclareds@.len() && !blocks.contains(tables.redeclareds@[i].block_number)
            ==> tables.left_over(blocks) is Some,
        i < tables.migrateds@.len() && !blocks.contains(tables.migrateds@[i].block_number)
            ==> tables.left_over(blocks) is Some,
        i < tables.contracts@.len() && !blocks.contains(tables.contracts@[i].block_number)
            ==> tables.left_over(blocks) is Some,
{
    if tables.left_over(blocks) is None {
        lemma_used_up(tables, blocks);
        let a = |i: int| tables.nonces@[i].block_number;
        let b = |i: int| tables.storages@[i].block_number;
        let c = |i: int| tables.declareds@[i].block_number;
        let d = |i: int| tables.redeclareds@[i].block_number;
        let e = |i: int| tables.migrateds@[i].block_number;
        let f = |i: int| tables.contracts@[i].block_number;
        if i < tables.nonces@.len() {
            law_every_row_lands_in_its_block(a, tables.nonces@.len() as int, blocks, i);
            assert(a(i) == tables.nonces@[i].block_number);
        }
        if i < tables.storages@.len() {
            law_every_row_lands_in_its_block(b, tables.storages@.len() as int, blocks, i);
            assert(b(i) == tables.storages@[i].block_number);
        }
        if i < tables.declareds@.len() {
            law_every_row_lands_in_its_block(c, tables.declareds@.len() as int, blocks, i);
            assert(c(i) == tables.declareds@[i].block_number);
        }
        if i < tables.redeclareds@.len() {
            law_every_row_lands_in_its_block(d, tables.redeclareds@.len() as int, blocks, i);
            assert(d(i) == tables.redeclareds@[i].block_number);
        }
        if i < tables.migrateds@.len() {
            law_every_row_lands_in_its_block(e, tables.migrateds@.len() as int, blocks, i);
            assert(e(i) == tables.migrateds@[i].block_number);
        }
        if i < tables.contracts@.len() {
            law_every_row_lands_in_its_block(f, tables.contracts@.len() as int, blocks, i);
            assert(f(i) == tables.contracts@[i].block_number);
        }
    }
}

} // verus!
