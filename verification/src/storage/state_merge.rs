//! Merging per-row state changes, sorted by block, into one state update per block.
use vstd::prelude::*;

use crate::bytes::copy_bytes;
use crate::felt::{is_felt, left_padded, Felt};
use crate::state_update::{empty_change, ContractClassUpdate, StateChange, StateUpdateData};
use crate::storage::columns::KeyValues;

verus! {

/// A part of a row that is to be a field element.
#[derive(Clone, Copy, Debug, PartialEq, Eq, Structural)]
pub enum Part {
    ContractAddress,
    Nonce,
    StorageAddress,
    StorageValue,
    ClassHash,
    CasmHash,
}

/// A table that rows come from.
#[derive(Clone, Copy, Debug, PartialEq, Eq, Structural)]
pub enum Table {
    NonceUpdates,
    StorageUpdates,
    ClassDefinitions,
    RedeclaredClasses,
    CasmClassHashes,
    ContractUpdates,
}

/// Why rows cannot be merged.
#[derive(Clone, Copy, Debug, PartialEq, Eq, Structural)]
pub enum MergeError {
    /// A part of a row is not a field element.
    Parsing(Part),
    /// A contract address takes more than 251 bits.
    CreatingContractAddress,
    /// A table has rows past the last block.
    RowsPastLastBlock(Table),
}

impl MergeError {
    pub fn message(&self) -> (r: &'static str)
        ensures
            r@ == match self {
                MergeError::Parsing(Part::ContractAddress) => "Parsing contract address felt"@,
                MergeError::Parsing(Part::Nonce) => "Parsing nonce felt"@,
                MergeError::Parsing(Part::StorageAddress) => "Parsing storage address felt"@,
                MergeError::Parsing(Part::StorageValue) => "Parsing storage value felt"@,
                MergeError::Parsing(Part::ClassHash) => "Parsing class hash felt"@,
                MergeError::Parsing(Part::CasmHash) => "Parsing casm hash felt"@,
                MergeError::CreatingContractAddress => "Creating contract address"@,
                MergeError::RowsPastLastBlock(Table::NonceUpdates) =>
                    "nonce_updates has rows past the last block_headers row"@,
                MergeError::RowsPastLastBlock(Table::StorageUpdates) =>
                    "storage_updates has rows past the last block_headers row"@,
                MergeError::RowsPastLastBlock(Table::ClassDefinitions) =>
                    "class_definitions has rows past the last block_headers row"@,
                MergeError::RowsPastLastBlock(Table::RedeclaredClasses) =>
                    "redeclared_classes has rows past the last block_headers row"@,
                MergeError::RowsPastLastBlock(Table::CasmClassHashes) =>
                    "casm_class_hashes has rows past the last block_headers row"@,
                MergeError::RowsPastLastBlock(Table::ContractUpdates) =>
                    "contract_updates has rows past the last block_headers row"@,
            },
    {
        match self {
            MergeError::Parsing(Part::ContractAddress) => "Parsing contract address felt",
            MergeError::Parsing(Part::Nonce) => "Parsing nonce felt",
            MergeError::Parsing(Part::StorageAddress) => "Parsing storage address felt",
            MergeError::Parsing(Part::StorageValue) => "Parsing storage value felt",
            MergeError::Parsing(Part::ClassHash) => "Parsing class hash felt",
            MergeError::Parsing(Part::CasmHash) => "Parsing casm hash felt",
            MergeError::CreatingContractAddress => "Creating contract address",
            MergeError::RowsPastLastBlock(Table::NonceUpdates) =>
                "nonce_updates has rows past the last block_headers row",
            MergeError::RowsPastLastBlock(Table::StorageUpdates) =>
                "storage_updates has rows past the last block_headers row",
            MergeError::RowsPastLastBlock(Table::ClassDefinitions) =>
                "class_definitions has rows past the last block_headers row",
            MergeError::RowsPastLastBlock(Table::RedeclaredClasses) =>
                "redeclared_classes has rows past the last block_headers row",
            MergeError::RowsPastLastBlock(Table::CasmClassHashes) =>
                "casm_class_hashes has rows past the last block_headers row",
            MergeError::RowsPastLastBlock(Table::ContractUpdates) =>
                "contract_updates has rows past the last block_headers row",
        }
    }
}

pub struct NonceRow {
    pub block_number: u64,
    pub contract_address: Vec<u8>,
    pub nonce: Vec<u8>,
}

pub struct StorageRow {
    pub block_number: u64,
    pub contract_address: Vec<u8>,
    pub storage_address: Vec<u8>,
    pub storage_value: Vec<u8>,
}

pub struct DeclaredRow {
    pub block_number: u64,
    pub class_hash: Vec<u8>,
    pub casm_hash: Option<Vec<u8>>,
}

pub struct RedeclaredRow {
    pub block_number: u64,
    pub class_hash: Vec<u8>,
}

pub struct MigratedRow {
    pub block_number: u64,
    pub class_hash: Vec<u8>,
    pub casm_hash: Vec<u8>,
}

pub struct ContractRow {
    pub block_number: u64,
    pub contract_address: Vec<u8>,
    pub class_hash: Vec<u8>,
}

/// The field element that bytes stand for.
pub open spec fn felt_from(s: Seq<u8>) -> Felt {
    choose|f: Felt| f@ == left_padded(s)
}

fn parse_felt(bytes: &Vec<u8>, part: Part) -> (r: Result<Felt, MergeError>)
    ensures
        r == (if is_felt(bytes@) {
            Ok(felt_from(bytes@))
        } else {
            Err(MergeError::Parsing(part))
        }),
{
    match Felt::from_be_slice(bytes.as_slice()) {
        Ok(f) => {
            proof {
                let g = felt_from(bytes@);
                Felt::lemma_view_injective(f, g);
            }
            Ok(f)
        },
        Err(_) => Err(MergeError::Parsing(part)),
    }
}

/// The contract address that bytes stand for.
pub open spec fn address_from(s: Seq<u8>) -> Result<Felt, MergeError> {
    if !is_felt(s) {
        Err(MergeError::Parsing(Part::ContractAddress))
    } else if felt_from(s)@[0] >= 8 {
        Err(MergeError::CreatingContractAddress)
    } else {
        Ok(felt_from(s))
    }
}

fn parse_address(bytes: &Vec<u8>) -> (r: Result<Felt, MergeError>)
    ensures
        r == address_from(bytes@),
{
    match parse_felt(bytes, Part::ContractAddress) {
        Err(e) => Err(e),
        Ok(f) => if f.has_more_than_251_bits() {
            Err(MergeError::CreatingContractAddress)
        } else {
            Ok(f)
        },
    }
}

/// Whether an address is that of a system contract.
pub open spec fn is_system(address: Felt) -> bool {
    address == Felt::small(1) || address == Felt::small(2)
}

fn is_system_contract(address: Felt) -> (r: bool)
    ensures
        r == is_system(address),
{
    address == Felt::from_u64(1) || address == Felt::from_u64(2)
}

/// Takes rows into account one after the other, up to the first error.
pub open spec fn fold_rows<R, S>(
    rows: Seq<R>,
    start: S,
    step: spec_fn(S, R) -> Result<S, MergeError>,
) -> Result<S, MergeError>
    decreases rows.len(),
{
    if rows.len() == 0 {
        Ok(start)
    } else {
        match fold_rows(rows.drop_last(), start, step) {
            Err(e) => Err(e),
            Ok(s) => step(s, rows.last()),
        }
    }
}

proof fn lemma_fold_error<R, S>(
    rows: Seq<R>,
    start: S,
    step: spec_fn(S, R) -> Result<S, MergeError>,
    n: int,
)
    requires
        0 <= n <= rows.len(),
        fold_rows(rows.subrange(0, n), start, step) is Err,
    ensures
        fold_rows(rows, start, step) == fold_rows(rows.subrange(0, n), start, step),
    decreases rows.len() - n,
{
    if n == rows.len() {
        assert(rows.subrange(0, n) =~= rows);
    } else {
        assert(rows.subrange(0, n + 1).drop_last() =~= rows.subrange(0, n));
        lemma_fold_error(rows, start, step, n + 1);
    }
}

proof fn lemma_fold_next<R, S>(
    rows: Seq<R>,
    start: S,
    step: spec_fn(S, R) -> Result<S, MergeError>,
    from: int,
    to: int,
)
    requires
        0 <= from <= to < rows.len(),
        fold_rows(rows.subrange(from, to), start, step) is Ok,
    ensures
        fold_rows(rows.subrange(from, to + 1), start, step) == step(
            fold_rows(rows.subrange(from, to), start, step)->Ok_0,
            rows[to],
        ),
{
    assert(rows.subrange(from, to + 1).drop_last() =~= rows.subrange(from, to));
}

/// The end of the run of rows for block `b` that starts at `from`.
pub open spec fn run_end(number: spec_fn(int) -> u64, len: int, from: int, b: u64) -> int
    decreases len - from,
{
    if from < len && number(from) == b {
        run_end(number, len, from + 1, b)
    } else {
        from
    }
}

/// Every row of a run is for its block; the row after it, if there is one, is not.
pub proof fn lemma_run(number: spec_fn(int) -> u64, len: int, from: int, b: u64)
    requires
        0 <= from <= len,
    ensures
        from <= run_end(number, len, from, b) <= len,
        forall|j: int| from <= j < run_end(number, len, from, b) ==> #[trigger] number(j) == b,
        run_end(number, len, from, b) < len ==> number(run_end(number, len, from, b)) != b,
    decreases len - from,
{
    if from < len && number(from) == b {
        lemma_run(number, len, from + 1, b);
    }
}

/// What a nonce row changes.
pub open spec fn nonce_step(acc: StateChange, row: NonceRow) -> Result<StateChange, MergeError> {
    match address_from(row.contract_address@) {
        Err(e) => Err(e),
        Ok(address) => if is_felt(row.nonce@) {
            Ok(acc.with_nonce(address, felt_from(row.nonce@)))
        } else {
            Err(MergeError::Parsing(Part::Nonce))
        },
    }
}

/// What a storage row changes.
pub open spec fn storage_step(acc: StateChange, row: StorageRow) -> Result<StateChange, MergeError> {
    match address_from(row.contract_address@) {
        Err(e) => Err(e),
        Ok(address) => if !is_felt(row.storage_address@) {
            Err(MergeError::Parsing(Part::StorageAddress))
        } else if !is_felt(row.storage_value@) {
            Err(MergeError::Parsing(Part::StorageValue))
        } else {
            let key = felt_from(row.storage_address@);
            let value = felt_from(row.storage_value@);
            if is_system(address) {
                Ok(acc.with_system_storage(address, key, value))
            } else {
                Ok(acc.with_storage(address, key, value))
            }
        },
    }
}

/// What a class declaration changes.
pub open spec fn declared_step(acc: StateChange, row: DeclaredRow) -> Result<
    StateChange,
    MergeError,
> {
    if !is_felt(row.class_hash@) {
        Err(MergeError::Parsing(Part::ClassHash))
    } else {
        let class = felt_from(row.class_hash@);
        match row.casm_hash {
            None => Ok(StateChange { cairo: acc.cairo.insert(class), ..acc }),
            Some(casm) => if is_felt(casm@) {
                Ok(StateChange { sierra: acc.sierra.insert(class, felt_from(casm@)), ..acc })
            } else {
                Err(MergeError::Parsing(Part::CasmHash))
            },
        }
    }
}

/// What a redeclaration changes.
pub open spec fn redeclared_step(acc: StateChange, row: RedeclaredRow) -> Result<
    StateChange,
    MergeError,
> {
    if is_felt(row.class_hash@) {
        Ok(StateChange { cairo: acc.cairo.insert(felt_from(row.class_hash@)), ..acc })
    } else {
        Err(MergeError::Parsing(Part::ClassHash))
    }
}

/// What a compiled class hash changes: nothing where its class is met for the first time.
pub open spec fn migrated_step(acc: (Set<Seq<u8>>, StateChange), row: MigratedRow) -> Result<
    (Set<Seq<u8>>, StateChange),
    MergeError,
> {
    let (seen, change) = acc;
    if !seen.contains(row.class_hash@) {
        Ok((seen.insert(row.class_hash@), change))
    } else if !is_felt(row.class_hash@) {
        Err(MergeError::Parsing(Part::ClassHash))
    } else if !is_felt(row.casm_hash@) {
        Err(MergeError::Parsing(Part::CasmHash))
    } else {
        Ok(
            (
                seen,
                StateChange {
                    migrated: change.migrated.insert(
                        felt_from(row.class_hash@),
                        felt_from(row.casm_hash@),
                    ),
                    ..change
                },
            ),
        )
    }
}

/// The position of an address among class changes.
pub open spec fn has_address(list: Seq<(Seq<u8>, Seq<u8>)>, a: Seq<u8>) -> bool {
    exists|i: int| 0 <= i < list.len() && (#[trigger] list[i]).0 == a
}

pub open spec fn address_slot(list: Seq<(Seq<u8>, Seq<u8>)>, a: Seq<u8>) -> int {
    choose|i: int| 0 <= i < list.len() && (#[trigger] list[i]).0 == a
}

/// The class changes of a block, one per address: of several for one address the last counts.
pub open spec fn last_changes(rows: Seq<ContractRow>) -> Seq<(Seq<u8>, Seq<u8>)>
    decreases rows.len(),
{
    if rows.len() == 0 {
        Seq::empty()
    } else {
        let front = last_changes(rows.drop_last());
        let entry = (rows.last().contract_address@, rows.last().class_hash@);
        if has_address(front, entry.0) {
            front.update(address_slot(front, entry.0), entry)
        } else {
            front.push(entry)
        }
    }
}

/// What a class change changes, given the contracts that had a class before the block.
pub open spec fn class_step(
    seen: Set<Seq<u8>>,
    acc: StateChange,
    entry: (Seq<u8>, Seq<u8>),
) -> Result<StateChange, MergeError> {
    if !is_felt(entry.1) {
        Err(MergeError::Parsing(Part::ClassHash))
    } else {
        match address_from(entry.0) {
            Err(e) => Err(e),
            Ok(address) => Ok(
                acc.with_class(
                    address,
                    if seen.contains(entry.0) {
                        ContractClassUpdate::Replace(felt_from(entry.1))
                    } else {
                        ContractClassUpdate::Deploy(felt_from(entry.1))
                    },
                ),
            ),
        }
    }
}

/// The addresses of class changes.
pub open spec fn addresses(list: Seq<(Seq<u8>, Seq<u8>)>) -> Set<Seq<u8>> {
    list.map_values(|e: (Seq<u8>, Seq<u8>)| e.0).to_set()
}

/// Byte strings met so far.
pub struct ByteSet {
    members: KeyValues,
}

impl View for ByteSet {
    type V = Set<Seq<u8>>;

    closed spec fn view(&self) -> Set<Seq<u8>> {
        self.members@.dom()
    }
}

impl ByteSet {
    pub fn new() -> (r: Self)
        ensures
            r@ == Set::<Seq<u8>>::empty(),
    {
        let r = ByteSet { members: KeyValues::new() };
        assert(r@ =~= Set::<Seq<u8>>::empty());
        r
    }

    pub fn contains(&self, x: &Vec<u8>) -> (r: bool)
        ensures
            r == self@.contains(x@),
    {
        self.members.get(x.as_slice()).is_some()
    }

    pub fn insert(&mut self, x: &Vec<u8>)
        ensures
            final(self)@ == old(self)@.insert(x@),
    {
        self.members.put(copy_bytes(x.as_slice()), Vec::new());
        assert(self@ =~= old(self)@.insert(x@));
    }
}

/// Takes the nonce rows of a block into account.
fn drain_nonces(
    rows: &Vec<NonceRow>,
    cursor: &mut usize,
    block_number: u64,
    data: &mut StateUpdateData,
) -> (r: Result<(), MergeError>)
    requires
        *old(cursor) <= rows@.len(),
    ensures
        ({
            let end = run_end(
                |i: int| rows@[i].block_number,
                rows@.len() as int,
                *old(cursor) as int,
                block_number,
            );
            match fold_rows(
                rows@.subrange(*old(cursor) as int, end),
                old(data)@,
                |acc: StateChange, row: NonceRow| nonce_step(acc, row),
            ) {
                Ok(change) => r is Ok && final(data)@ == change && *final(cursor) == end && end
                    <= rows@.len(),
                Err(e) => r == Err::<(), MergeError>(e),
            }
        }),
{
    let ghost number = |i: int| rows@[i].block_number;
    let ghost step = |acc: StateChange, row: NonceRow| nonce_step(acc, row);
    let ghost start = *cursor as int;
    let ghost end = run_end(number, rows@.len() as int, start, block_number);
    proof {
        lemma_run(number, rows@.len() as int, start, block_number);
        assert(rows@.subrange(start, start) =~= Seq::<NonceRow>::empty());
    }
    while *cursor < rows.len() && rows[*cursor].block_number == block_number
        invariant
            start <= *cursor <= rows@.len(),
            start == *old(cursor),
            number == (|i: int| rows@[i].block_number),
            step == (|acc: StateChange, row: NonceRow| nonce_step(acc, row)),
            end == run_end(number, rows@.len() as int, start, block_number),
            end == run_end(number, rows@.len() as int, *cursor as int, block_number),
            end <= rows@.len(),
            fold_rows(rows@.subrange(start, *cursor as int), old(data)@, step) == Ok::<
                StateChange,
                MergeError,
            >(data@),
        decreases rows@.len() - *cursor,
    {
        let i: usize = *cursor;
        proof {
            lemma_run(number, rows@.len() as int, i + 1, block_number);
            lemma_fold_next(rows@, old(data)@, step, start, i as int);
            assert(rows@.subrange(start, end).subrange(0, i + 1 - start) =~= rows@.subrange(
                start,
                i + 1,
            ));
            if fold_rows(rows@.subrange(start, i + 1), old(data)@, step) is Err {
                lemma_fold_error(rows@.subrange(start, end), old(data)@, step, i + 1 - start);
            }
        }
        let address: Felt = match parse_address(&rows[i].contract_address) {
            Ok(f) => f,
            Err(e) => {
                return Err(e);
            },
        };
        let nonce: Felt = match parse_felt(&rows[i].nonce, Part::Nonce) {
            Ok(f) => f,
            Err(e) => {
                return Err(e);
            },
        };
        data.set_nonce(address, nonce);
        *cursor = i + 1;
    }
    Ok(())
}

/// Takes the storage rows of a block into account.
fn drain_storages(
    rows: &Vec<StorageRow>,
    cursor: &mut usize,
    block_number: u64,
    data: &mut StateUpdateData,
) -> (r: Result<(), MergeError>)
    requires
        *old(cursor) <= rows@.len(),
    ensures
        ({
            let end = run_end(
                |i: int| rows@[i].block_number,
                rows@.len() as int,
                *old(cursor) as int,
                block_number,
            );
            match fold_rows(
                rows@.subrange(*old(cursor) as int, end),
                old(data)@,
                |acc: StateChange, row: StorageRow| storage_step(acc, row),
            ) {
                Ok(change) => r is Ok && final(data)@ == change && *final(cursor) == end && end
                    <= rows@.len(),
                Err(e) => r == Err::<(), MergeError>(e),
            }
        }),
{
    let ghost number = |i: int| rows@[i].block_number;
    let ghost step = |acc: StateChange, row: StorageRow| storage_step(acc, row);
    let ghost start = *cursor as int;
    let ghost end = run_end(number, rows@.len() as int, start, block_number);
    proof {
        lemma_run(number, rows@.len() as int, start, block_number);
        assert(rows@.subrange(start, start) =~= Seq::<StorageRow>::empty());
    }
    while *cursor < rows.len() && rows[*cursor].block_number == block_number
        invariant
            start <= *cursor <= rows@.len(),
            start == *old(cursor),
            number == (|i: int| rows@[i].block_number),
            step == (|acc: StateChange, row: StorageRow| storage_step(acc, row)),
            end == run_end(number, rows@.len() as int, start, block_number),
            end == run_end(number, rows@.len() as int, *cursor as int, block_number),
            end <= rows@.len(),
            fold_rows(rows@.subrange(start, *cursor as int), old(data)@, step) == Ok::<
                StateChange,
                MergeError,
            >(data@),
        decreases rows@.len() - *cursor,
    {
        let i: usize = *cursor;
        proof {
            lemma_run(number, rows@.len() as int, i + 1, block_number);
            lemma_fold_next(rows@, old(data)@, step, start, i as int);
            assert(rows@.subrange(start, end).subrange(0, i + 1 - start) =~= rows@.subrange(
                start,
                i + 1,
            ));
            if fold_rows(rows@.subrange(start, i + 1), old(data)@, step) is Err {
                lemma_fold_error(rows@.subrange(start, end), old(data)@, step, i + 1 - start);
            }
        }
        let address: Felt = match parse_address(&rows[i].contract_address) {
            Ok(f) => f,
            Err(e) => {
                return Err(e);
            },
        };
        let key: Felt = match parse_felt(&rows[i].storage_address, Part::StorageAddress) {
            Ok(f) => f,
            Err(e) => {
                return Err(e);
            },
        };
        let value: Felt = match parse_felt(&rows[i].storage_value, Part::StorageValue) {
            Ok(f) => f,
            Err(e) => {
                return Err(e);
            },
        };
        if is_system_contract(address) {
            data.set_system_storage(address, key, value);
        } else {
            data.set_storage(address, key, value);
        }
        *cursor = i + 1;
    }
    Ok(())
}

/// Takes the class declarations of a block into account.
fn drain_declareds(
    rows: &Vec<DeclaredRow>,
    cursor: &mut usize,
    block_number: u64,
    data: &mut StateUpdateData,
) -> (r: Result<(), MergeError>)
    requires
        *old(cursor) <= rows@.len(),
    ensures
        ({
            let end = run_end(
                |i: int| rows@[i].block_number,
                rows@.len() as int,
                *old(cursor) as int,
                block_number,
            );
            match fold_rows(
                rows@.subrange(*old(cursor) as int, end),
                old(data)@,
                |acc: StateChange, row: DeclaredRow| declared_step(acc, row),
            ) {
                Ok(change) => r is Ok && final(data)@ == change && *final(cursor) == end && end
                    <= rows@.len(),
                Err(e) => r == Err::<(), MergeError>(e),
            }
        }),
{
    let ghost number = |i: int| rows@[i].block_number;
    let ghost step = |acc: StateChange, row: DeclaredRow| declared_step(acc, row);
    let ghost start = *cursor as int;
    let ghost end = run_end(number, rows@.len() as int, start, block_number);
    proof {
        lemma_run(number, rows@.len() as int, start, block_number);
        assert(rows@.subrange(start, start) =~= Seq::<DeclaredRow>::empty());
    }
    while *cursor < rows.len() && rows[*cursor].block_number == block_number
        invariant
            start <= *cursor <= rows@.len(),
            start == *old(cursor),
            number == (|i: int| rows@[i].block_number),
            step == (|acc: StateChange, row: DeclaredRow| declared_step(acc, row)),
            end == run_end(number, rows@.len() as int, start, block_number),
            end == run_end(number, rows@.len() as int, *cursor as int, block_number),
            end <= rows@.len(),
            fold_rows(rows@.subrange(start, *cursor as int), old(data)@, step) == Ok::<
                StateChange,
                MergeError,
            >(data@),
        decreases rows@.len() - *cursor,
    {
        let i: usize = *cursor;
        proof {
            lemma_run(number, rows@.len() as int, i + 1, block_number);
            lemma_fold_next(rows@, old(data)@, step, start, i as int);
            assert(rows@.subrange(start, end).subrange(0, i + 1 - start) =~= rows@.subrange(
                start,
                i + 1,
            ));
            if fold_rows(rows@.subrange(start, i + 1), old(data)@, step) is Err {
                lemma_fold_error(rows@.subrange(start, end), old(data)@, step, i + 1 - start);
            }
        }
        let class: Felt = match parse_felt(&rows[i].class_hash, Part::ClassHash) {
            Ok(f) => f,
            Err(e) => {
                return Err(e);
            },
        };
        let ghost before = data@;
        match &rows[i].casm_hash {
            None => {
                data.declared_cairo_classes.insert(class);
                assert(data@ =~= (StateChange { cairo: before.cairo.insert(class), ..before }));
            },
            Some(casm) => {
                let casm: Felt = match parse_felt(casm, Part::CasmHash) {
                    Ok(f) => f,
                    Err(e) => {
                        return Err(e);
                    },
                };
                data.declared_sierra_classes.insert(class, casm);
                assert(data@ =~= (StateChange {
                    sierra: before.sierra.insert(class, casm),
                    ..before
                }));
            },
        }
        *cursor = i + 1;
    }
    Ok(())
}

/// Takes the redeclarations of a block into account.
fn drain_redeclareds(
    rows: &Vec<RedeclaredRow>,
    cursor: &mut usize,
    block_number: u64,
    data: &mut StateUpdateData,
) -> (r: Result<(), MergeError>)
    requires
        *old(cursor) <= rows@.len(),
    ensures
        ({
            let end = run_end(
                |i: int| rows@[i].block_number,
                rows@.len() as int,
                *old(cursor) as int,
                block_number,
            );
            match fold_rows(
                rows@.subrange(*old(cursor) as int, end),
                old(data)@,
                |acc: StateChange, row: RedeclaredRow| redeclared_step(acc, row),
            ) {
                Ok(change) => r is Ok && final(data)@ == change && *final(cursor) == end && end
                    <= rows@.len(),
                Err(e) => r == Err::<(), MergeError>(e),
            }
        }),
{
    let ghost number = |i: int| rows@[i].block_number;
    let ghost step = |acc: StateChange, row: RedeclaredRow| redeclared_step(acc, row);
    let ghost start = *cursor as int;
    let ghost end = run_end(number, rows@.len() as int, start, block_number);
    proof {
        lemma_run(number, rows@.len() as int, start, block_number);
        assert(rows@.subrange(start, start) =~= Seq::<RedeclaredRow>::empty());
    }
    while *cursor < rows.len() && rows[*cursor].block_number == block_number
        invariant
            start <= *cursor <= rows@.len(),
            start == *old(cursor),
            number == (|i: int| rows@[i].block_number),
            step == (|acc: StateChange, row: RedeclaredRow| redeclared_step(acc, row)),
            end == run_end(number, rows@.len() as int, start, block_number),
            end == run_end(number, rows@.len() as int, *cursor as int, block_number),
            end <= rows@.len(),
            fold_rows(rows@.subrange(start, *cursor as int), old(data)@, step) == Ok::<
                StateChange,
                MergeError,
            >(data@),
        decreases rows@.len() - *cursor,
    {
        let i: usize = *cursor;
        proof {
            lemma_run(number, rows@.len() as int, i + 1, block_number);
            lemma_fold_next(rows@, old(data)@, step, start, i as int);
            assert(rows@.subrange(start, end).subrange(0, i + 1 - start) =~= rows@.subrange(
                start,
                i + 1,
            ));
            if fold_rows(rows@.subrange(start, i + 1), old(data)@, step) is Err {
                lemma_fold_error(rows@.subrange(start, end), old(data)@, step, i + 1 - start);
            }
        }
        let class: Felt = match parse_felt(&rows[i].class_hash, Part::ClassHash) {
            Ok(f) => f,
            Err(e) => {
                return Err(e);
            },
        };
        let ghost before = data@;
        data.declared_cairo_classes.insert(class);
        assert(data@ =~= (StateChange { cairo: before.cairo.insert(class), ..before }));
        *cursor = i + 1;
    }
    Ok(())
}

/// Takes the compiled class hashes of a block into account.
fn drain_migrateds(
    rows: &Vec<MigratedRow>,
    cursor: &mut usize,
    block_number: u64,
    seen: &mut ByteSet,
    data: &mut StateUpdateData,
) -> (r: Result<(), MergeError>)
    requires
        *old(cursor) <= rows@.len(),
    ensures
        ({
            let end = run_end(
                |i: int| rows@[i].block_number,
                rows@.len() as int,
                *old(cursor) as int,
                block_number,
            );
            match fold_rows(
                rows@.subrange(*old(cursor) as int, end),
                (old(seen)@, old(data)@),
                |acc: (Set<Seq<u8>>, StateChange), row: MigratedRow| migrated_step(acc, row),
            ) {
                Ok((s, change)) => r is Ok && final(seen)@ == s && final(data)@ == change
                    && *final(cursor) == end && end <= rows@.len(),
                Err(e) => r == Err::<(), MergeError>(e),
            }
        }),
{
    let ghost number = |i: int| rows@[i].block_number;
    let ghost step = |acc: (Set<Seq<u8>>, StateChange), row: MigratedRow| migrated_step(acc, row);
    let ghost start = *cursor as int;
    let ghost end = run_end(number, rows@.len() as int, start, block_number);
    let ghost initial = (seen@, data@);
    proof {
        lemma_run(number, rows@.len() as int, start, block_number);
        assert(rows@.subrange(start, start) =~= Seq::<MigratedRow>::empty());
    }
    while *cursor < rows.len() && rows[*cursor].block_number == block_number
        invariant
            start <= *cursor <= rows@.len(),
            start == *old(cursor),
            initial == (old(seen)@, old(data)@),
            number == (|i: int| rows@[i].block_number),
            step == (|acc: (Set<Seq<u8>>, StateChange), row: MigratedRow| migrated_step(acc, row)),
            end == run_end(number, rows@.len() as int, start, block_number),
            end == run_end(number, rows@.len() as int, *cursor as int, block_number),
            end <= rows@.len(),
            fold_rows(rows@.subrange(start, *cursor as int), initial, step) == Ok::<
                (Set<Seq<u8>>, StateChange),
                MergeError,
            >((seen@, data@)),
        decreases rows@.len() - *cursor,
    {
        let i: usize = *cursor;
        proof {
            lemma_run(number, rows@.len() as int, i + 1, block_number);
            lemma_fold_next(rows@, initial, step, start, i as int);
            assert(rows@.subrange(start, end).subrange(0, i + 1 - start) =~= rows@.subrange(
                start,
                i + 1,
            ));
            if fold_rows(rows@.subrange(start, i + 1), initial, step) is Err {
                lemma_fold_error(rows@.subrange(start, end), initial, step, i + 1 - start);
            }
        }
        if seen.contains(&rows[i].class_hash) {
            let class: Felt = match parse_felt(&rows[i].class_hash, Part::ClassHash) {
                Ok(f) => f,
                Err(e) => {
                    return Err(e);
                },
            };
            let casm: Felt = match parse_felt(&rows[i].casm_hash, Part::CasmHash) {
                Ok(f) => f,
                Err(e) => {
                    return Err(e);
                },
            };
            let ghost before = data@;
            data.migrated_compiled_classes.insert(class, casm);
            assert(data@ =~= (StateChange {
                migrated: before.migrated.insert(class, casm),
                ..before
            }));
        } else {
            seen.insert(&rows[i].class_hash);
        }
        *cursor = i + 1;
    }
    Ok(())
}

/// The byte strings of entries.
spec fn entry_views(list: Seq<(Vec<u8>, Vec<u8>)>) -> Seq<(Seq<u8>, Seq<u8>)> {
    list.map_values(|e: (Vec<u8>, Vec<u8>)| (e.0@, e.1@))
}

/// No address occurs twice.
spec fn addresses_once(list: Seq<(Seq<u8>, Seq<u8>)>) -> bool {
    forall|i: int, j: int|
        #![trigger list[i], list[j]]
        0 <= i < j < list.len() ==> list[i].0 != list[j].0
}

/// Puts a class change among those of a block, in place of an earlier one for the same address.
fn put_change(list: &mut Vec<(Vec<u8>, Vec<u8>)>, address: &Vec<u8>, class: &Vec<u8>)
    requires
        addresses_once(entry_views(old(list)@)),
    ensures
        addresses_once(entry_views(final(list)@)),
        entry_views(final(list)@) == (if has_address(entry_views(old(list)@), address@) {
            entry_views(old(list)@).update(
                address_slot(entry_views(old(list)@), address@),
                (address@, class@),
            )
        } else {
            entry_views(old(list)@).push((address@, class@))
        }),
{
    let ghost before = entry_views(list@);
    let mut i: usize = 0;
    while i < list.len()
        invariant
            i <= list@.len(),
            list@ == old(list)@,
            before == entry_views(list@),
            addresses_once(before),
            forall|j: int| 0 <= j < i ==> (#[trigger] before[j]).0 != address@,
        decreases list@.len() - i,
    {
        if crate::bytes::bytes_equal(list[i].0.as_slice(), address.as_slice()) {
            proof {
                assert(before[i as int].0 == address@);
                let s = address_slot(before, address@);
                assert(has_address(before, address@));
                assert(before[s].0 == address@);
                if s < i {
                    assert(before[s].0 != address@);
                } else if s > i {
                    assert(before[i as int].0 != before[s].0);
                }
            }
            list.set(i, (copy_bytes(address.as_slice()), copy_bytes(class.as_slice())));
            assert(entry_views(list@) =~= before.update(i as int, (address@, class@)));
            return ;
        }
        assert(before[i as int].0 != address@);
        i = i + 1;
    }
    list.push((copy_bytes(address.as_slice()), copy_bytes(class.as_slice())));
    assert(entry_views(list@) =~= before.push((address@, class@)));
}

/// Takes the class changes of a block into account. They are judged against the contracts met before
/// the block, so that several changes of one new contract all count as its deployment.
fn drain_contracts(
    rows: &Vec<ContractRow>,
    cursor: &mut usize,
    block_number: u64,
    seen: &mut ByteSet,
    data: &mut StateUpdateData,
) -> (r: Result<(), MergeError>)
    requires
        *old(cursor) <= rows@.len(),
    ensures
        ({
            let end = run_end(
                |i: int| rows@[i].block_number,
                rows@.len() as int,
                *old(cursor) as int,
                block_number,
            );
            let list = last_changes(rows@.subrange(*old(cursor) as int, end));
            match fold_rows(
                list,
                old(data)@,
                |acc: StateChange, entry: (Seq<u8>, Seq<u8>)| class_step(old(seen)@, acc, entry),
            ) {
                Ok(change) => r is Ok && final(data)@ == change && final(seen)@ == old(seen)@.union(
                    addresses(list),
                ) && *final(cursor) == end && end <= rows@.len(),
                Err(e) => r == Err::<(), MergeError>(e),
            }
        }),
{
    let ghost number = |i: int| rows@[i].block_number;
    let ghost start = *cursor as int;
    let ghost end = run_end(number, rows@.len() as int, start, block_number);
    let mut list: Vec<(Vec<u8>, Vec<u8>)> = Vec::new();
    proof {
        lemma_run(number, rows@.len() as int, start, block_number);
        assert(rows@.subrange(start, start) =~= Seq::<ContractRow>::empty());
        assert(entry_views(list@) =~= Seq::empty());
    }
    while *cursor < rows.len() && rows[*cursor].block_number == block_number
        invariant
            start <= *cursor <= rows@.len(),
            start == *old(cursor),
            number == (|i: int| rows@[i].block_number),
            end == run_end(number, rows@.len() as int, start, block_number),
            end == run_end(number, rows@.len() as int, *cursor as int, block_number),
            end <= rows@.len(),
            addresses_once(entry_views(list@)),
            entry_views(list@) == last_changes(rows@.subrange(start, *cursor as int)),
        decreases rows@.len() - *cursor,
    {
        let i: usize = *cursor;
        put_change(&mut list, &rows[i].contract_address, &rows[i].class_hash);
        proof {
            let done = rows@.subrange(start, i + 1);
            assert(done.drop_last() =~= rows@.subrange(start, i as int));
            assert(done.last() == rows@[i as int]);
        }
        *cursor = i + 1;
    }
    let ghost all = entry_views(list@);
    let ghost step = |acc: StateChange, entry: (Seq<u8>, Seq<u8>)|
        class_step(old(seen)@, acc, entry);
    let mut k: usize = 0;
    assert(all.subrange(0, 0) =~= Seq::<(Seq<u8>, Seq<u8>)>::empty());
    while k < list.len()
        invariant
            k <= list@.len(),
            all == entry_views(list@),
            all == last_changes(rows@.subrange(*old(cursor) as int, end)),
            *cursor == end,
            end <= rows@.len(),
            start == *old(cursor),
            number == (|i: int| rows@[i].block_number),
            end == run_end(number, rows@.len() as int, start, block_number),
            seen@ == old(seen)@,
            step == (|acc: StateChange, entry: (Seq<u8>, Seq<u8>)|
                class_step(old(seen)@, acc, entry)),
            fold_rows(all.subrange(0, k as int), old(data)@, step) == Ok::<StateChange, MergeError>(
                data@,
            ),
        decreases list@.len() - k,
    {
        proof {
            lemma_fold_next(all, old(data)@, step, 0, k as int);
            if fold_rows(all.subrange(0, k + 1), old(data)@, step) is Err {
                lemma_fold_error(all, old(data)@, step, k + 1);
            }
            assert(all[k as int] == (list@[k as int].0@, list@[k as int].1@));
        }
        let known: bool = seen.contains(&list[k].0);
        let class: Felt = match parse_felt(&list[k].1, Part::ClassHash) {
            Ok(f) => f,
            Err(e) => {
                return Err(e);
            },
        };
        let update: ContractClassUpdate = if known {
            ContractClassUpdate::Replace(class)
        } else {
            ContractClassUpdate::Deploy(class)
        };
        let address: Felt = match parse_address(&list[k].0) {
            Ok(f) => f,
            Err(e) => {
                return Err(e);
            },
        };
        data.set_class(address, update);
        k = k + 1;
    }
    assert(all.subrange(0, k as int) =~= all);
    let mut j: usize = 0;
    assert(seen@ =~= old(seen)@.union(addresses(all.subrange(0, 0))));
    while j < list.len()
        invariant
            j <= list@.len(),
            all == entry_views(list@),
            seen@ == old(seen)@.union(addresses(all.subrange(0, j as int))),
        decreases list@.len() - j,
    {
        seen.insert(&list[j].0);
        j = j + 1;
        proof {
            lemma_addresses_next(all, j - 1);
            assert(seen@ =~= old(seen)@.union(addresses(all.subrange(0, j as int))));
        }
    }
    assert(all.subrange(0, j as int) =~= all);
    Ok(())
}

proof fn lemma_addresses_next(list: Seq<(Seq<u8>, Seq<u8>)>, i: int)
    requires
        0 <= i < list.len(),
    ensures
        addresses(list.subrange(0, i + 1)) == addresses(list.subrange(0, i)).insert(list[i].0),
{
    let a = list.subrange(0, i).map_values(|e: (Seq<u8>, Seq<u8>)| e.0);
    let b = list.subrange(0, i + 1).map_values(|e: (Seq<u8>, Seq<u8>)| e.0);
    assert(b =~= a.push(list[i].0));
    assert forall|x: Seq<u8>| b.contains(x) <==> a.contains(x) || x == list[i].0 by {
        if a.contains(x) {
            let j = choose|j: int| 0 <= j < a.len() && a[j] == x;
            assert(b[j] == x);
        }
        assert(b[i] == list[i].0);
    }
    assert(b.to_set() =~= a.to_set().insert(list[i].0));
}

/// The rows of a block.
pub struct BlockRows {
    pub nonces: Seq<NonceRow>,
    pub storages: Seq<StorageRow>,
    pub declareds: Seq<DeclaredRow>,
    pub redeclareds: Seq<RedeclaredRow>,
    pub migrateds: Seq<MigratedRow>,
    pub contracts: Seq<ContractRow>,
}

/// What the nonce, storage and declaration rows of a block change.
pub open spec fn plain_change(rows: BlockRows) -> Result<StateChange, MergeError> {
    match fold_rows(
        rows.nonces,
        empty_change(),
        |acc: StateChange, row: NonceRow| nonce_step(acc, row),
    ) {
        Err(e) => Err(e),
        Ok(a) => match fold_rows(
            rows.storages,
            a,
            |acc: StateChange, row: StorageRow| storage_step(acc, row),
        ) {
            Err(e) => Err(e),
            Ok(b) => match fold_rows(
                rows.declareds,
                b,
                |acc: StateChange, row: DeclaredRow| declared_step(acc, row),
            ) {
                Err(e) => Err(e),
                Ok(c) => fold_rows(
                    rows.redeclareds,
                    c,
                    |acc: StateChange, row: RedeclaredRow| redeclared_step(acc, row),
                ),
            },
        },
    }
}

/// What the rows of a block change, given the class hashes and the contracts met before it.
pub open spec fn merged_change(
    rows: BlockRows,
    classes: Set<Seq<u8>>,
    contracts: Set<Seq<u8>>,
) -> Result<StateChange, MergeError> {
    match plain_change(rows) {
        Err(e) => Err(e),
        Ok(d) => match fold_rows(
            rows.migrateds,
            (classes, d),
            |acc: (Set<Seq<u8>>, StateChange), row: MigratedRow| migrated_step(acc, row),
        ) {
            Err(e) => Err(e),
            Ok((_, f)) => fold_rows(
                last_changes(rows.contracts),
                f,
                |acc: StateChange, entry: (Seq<u8>, Seq<u8>)| class_step(contracts, acc, entry),
            ),
        },
    }
}

/// Places in the tables of rows.
#[derive(Clone, Copy, Debug, PartialEq, Eq, Structural)]
pub struct Places {
    pub nonces: usize,
    pub storages: usize,
    pub declareds: usize,
    pub redeclareds: usize,
    pub migrateds: usize,
    pub contracts: usize,
}

/// Places in the tables of rows, as integers.
pub struct Reach {
    pub nonces: int,
    pub storages: int,
    pub declareds: int,
    pub redeclareds: int,
    pub migrateds: int,
    pub contracts: int,
}

impl View for Places {
    type V = Reach;

    open spec fn view(&self) -> Reach {
        Reach {
            nonces: self.nonces as int,
            storages: self.storages as int,
            declareds: self.declareds as int,
            redeclareds: self.redeclareds as int,
            migrateds: self.migrateds as int,
            contracts: self.contracts as int,
        }
    }
}

/// The places at the front of the tables.
pub open spec fn front_places() -> Reach {
    Reach { nonces: 0, storages: 0, declareds: 0, redeclareds: 0, migrateds: 0, contracts: 0 }
}

impl Places {
    /// The places at the front of the tables.
    pub fn front() -> (r: Self)
        ensures
            r@ == front_places(),
    {
        Places { nonces: 0, storages: 0, declareds: 0, redeclareds: 0, migrateds: 0, contracts: 0 }
    }
}

/// The rows to merge, each table sorted by block.
pub struct StateTables {
    pub nonces: Vec<NonceRow>,
    pub storages: Vec<StorageRow>,
    pub declareds: Vec<DeclaredRow>,
    pub redeclareds: Vec<RedeclaredRow>,
    pub migrateds: Vec<MigratedRow>,
    pub contracts: Vec<ContractRow>,
}

/// Where the rows of the `k`-th block start: after the runs of the blocks before it.
pub open spec fn run_start(number: spec_fn(int) -> u64, len: int, blocks: Seq<u64>, k: int) -> int
    decreases k,
{
    if k <= 0 {
        0
    } else {
        run_end(number, len, run_start(number, len, blocks, k - 1), blocks[k - 1])
    }
}

proof fn lemma_run_start(number: spec_fn(int) -> u64, len: int, blocks: Seq<u64>, k: int)
    requires
        0 <= k <= blocks.len(),
        0 <= len,
    ensures
        0 <= run_start(number, len, blocks, k) <= len,
    decreases k,
{
    if k > 0 {
        lemma_run_start(number, len, blocks, k - 1);
        lemma_run(number, len, run_start(number, len, blocks, k - 1), blocks[k - 1]);
    }
}

impl StateTables {
    pub open spec fn nonce_start(&self, blocks: Seq<u64>, k: int) -> int {
        run_start(|i: int| self.nonces@[i].block_number, self.nonces@.len() as int, blocks, k)
    }

    pub open spec fn nonce_run(&self, blocks: Seq<u64>, k: int) -> Seq<NonceRow> {
        self.nonces@.subrange(self.nonce_start(blocks, k), self.nonce_start(blocks, k + 1))
    }

    pub open spec fn storage_start(&self, blocks: Seq<u64>, k: int) -> int {
        run_start(|i: int| self.storages@[i].block_number, self.storages@.len() as int, blocks, k)
    }

    pub open spec fn storage_run(&self, blocks: Seq<u64>, k: int) -> Seq<StorageRow> {
        self.storages@.subrange(self.storage_start(blocks, k), self.storage_start(blocks, k + 1))
    }

    pub open spec fn declared_start(&self, blocks: Seq<u64>, k: int) -> int {
        run_start(|i: int| self.declareds@[i].block_number, self.declareds@.len() as int, blocks, k)
    }

    pub open spec fn declared_run(&self, blocks: Seq<u64>, k: int) -> Seq<DeclaredRow> {
        self.declareds@.subrange(self.declared_start(blocks, k), self.declared_start(blocks, k + 1))
    }

    pub open spec fn redeclared_start(&self, blocks: Seq<u64>, k: int) -> int {
        run_start(|i: int| self.redeclareds@[i].block_number, self.redeclareds@.len() as int, blocks, k)
    }

    pub open spec fn redeclared_run(&self, blocks: Seq<u64>, k: int) -> Seq<RedeclaredRow> {
        self.redeclareds@.subrange(self.redeclared_start(blocks, k), self.redeclared_start(blocks, k + 1))
    }

    pub open spec fn migrated_start(&self, blocks: Seq<u64>, k: int) -> int {
        run_start(|i: int| self.migrateds@[i].block_number, self.migrateds@.len() as int, blocks, k)
    }

    pub open spec fn migrated_run(&self, blocks: Seq<u64>, k: int) -> Seq<MigratedRow> {
        self.migrateds@.subrange(self.migrated_start(blocks, k), self.migrated_start(blocks, k + 1))
    }

    pub open spec fn contract_start(&self, blocks: Seq<u64>, k: int) -> int {
        run_start(|i: int| self.contracts@[i].block_number, self.contracts@.len() as int, blocks, k)
    }

    pub open spec fn contract_run(&self, blocks: Seq<u64>, k: int) -> Seq<ContractRow> {
        self.contracts@.subrange(self.contract_start(blocks, k), self.contract_start(blocks, k + 1))
    }

    /// The class hashes met before the `k`-th block.
    pub open spec fn classes_before(&self, blocks: Seq<u64>, k: int) -> Set<Seq<u8>> {
        class_hashes(self.migrateds@.subrange(0, self.migrated_start(blocks, k)))
    }

    /// The contracts met before the `k`-th block.
    pub open spec fn contracts_before(&self, blocks: Seq<u64>, k: int) -> Set<Seq<u8>> {
        contract_addresses(self.contracts@.subrange(0, self.contract_start(blocks, k)))
    }

    /// What the rows of the `k`-th block change.
    pub open spec fn block_change(&self, blocks: Seq<u64>, k: int) -> Result<
        StateChange,
        MergeError,
    > {
        merged_change(
            self.block_rows(blocks, k),
            self.classes_before(blocks, k),
            self.contracts_before(blocks, k),
        )
    }

    /// The rows of the `k`-th block.
    pub open spec fn block_rows(&self, blocks: Seq<u64>, k: int) -> BlockRows {
        BlockRows {
            nonces: self.nonce_run(blocks, k),
            storages: self.storage_run(blocks, k),
            declareds: self.declared_run(blocks, k),
            redeclareds: self.redeclared_run(blocks, k),
            migrateds: self.migrated_run(blocks, k),
            contracts: self.contract_run(blocks, k),
        }
    }

    /// The rows for a block that follow on places in the tables.
    pub open spec fn rows_at(&self, at: Reach, b: u64) -> BlockRows {
        let end = self.places_after(at, b);
        BlockRows {
            nonces: self.nonces@.subrange(at.nonces, end.nonces),
            storages: self.storages@.subrange(at.storages, end.storages),
            declareds: self.declareds@.subrange(at.declareds, end.declareds),
            redeclareds: self.redeclareds@.subrange(at.redeclareds, end.redeclareds),
            migrateds: self.migrateds@.subrange(at.migrateds, end.migrateds),
            contracts: self.contracts@.subrange(at.contracts, end.contracts),
        }
    }

    /// The places behind the rows for a block that follow on places in the tables.
    pub open spec fn places_after(&self, at: Reach, b: u64) -> Reach {
        Reach {
            nonces: run_end(
                |i: int| self.nonces@[i].block_number,
                self.nonces@.len() as int,
                at.nonces,
                b,
            ),
            storages: run_end(
                |i: int| self.storages@[i].block_number,
                self.storages@.len() as int,
                at.storages,
                b,
            ),
            declareds: run_end(
                |i: int| self.declareds@[i].block_number,
                self.declareds@.len() as int,
                at.declareds,
                b,
            ),
            redeclareds: run_end(
                |i: int| self.redeclareds@[i].block_number,
                self.redeclareds@.len() as int,
                at.redeclareds,
                b,
            ),
            migrateds: run_end(
                |i: int| self.migrateds@[i].block_number,
                self.migrateds@.len() as int,
                at.migrateds,
                b,
            ),
            contracts: run_end(
                |i: int| self.contracts@[i].block_number,
                self.contracts@.len() as int,
                at.contracts,
                b,
            ),
        }
    }

    /// Places within the tables.
    pub open spec fn has_places(&self, at: Reach) -> bool {
        &&& 0 <= at.nonces <= self.nonces@.len()
        &&& 0 <= at.storages <= self.storages@.len()
        &&& 0 <= at.declareds <= self.declareds@.len()
        &&& 0 <= at.redeclareds <= self.redeclareds@.len()
        &&& 0 <= at.migrateds <= self.migrateds@.len()
        &&& 0 <= at.contracts <= self.contracts@.len()
    }

    /// The first table that has rows past the last block.
    pub open spec fn left_over(&self, blocks: Seq<u64>) -> Option<Table> {
        let n = blocks.len() as int;
        (LeftOver {
            nonces: self.nonce_start(blocks, n) < self.nonces@.len(),
            storages: self.storage_start(blocks, n) < self.storages@.len(),
            declareds: self.declared_start(blocks, n) < self.declareds@.len(),
            redeclareds: self.redeclared_start(blocks, n) < self.redeclareds@.len(),
            migrateds: self.migrated_start(blocks, n) < self.migrateds@.len(),
            contracts: self.contract_start(blocks, n) < self.contracts@.len(),
        }).first()
    }
}

/// The class hashes that rows speak of.
pub open spec fn class_hashes(rows: Seq<MigratedRow>) -> Set<Seq<u8>> {
    rows.map_values(|row: MigratedRow| row.class_hash@).to_set()
}

/// The contracts that rows speak of.
pub open spec fn contract_addresses(rows: Seq<ContractRow>) -> Set<Seq<u8>> {
    rows.map_values(|row: ContractRow| row.contract_address@).to_set()
}

proof fn lemma_image_concat<A>(a: Seq<A>, b: Seq<A>, f: spec_fn(A) -> Seq<u8>)
    ensures
        (a + b).map_values(f).to_set() == a.map_values(f).to_set().union(b.map_values(f).to_set()),
{
    let x = a.map_values(f);
    let y = b.map_values(f);
    assert((a + b).map_values(f) =~= x + y);
    assert forall|e: Seq<u8>| (x + y).contains(e) <==> x.contains(e) || y.contains(e) by {
        if x.contains(e) {
            let i = choose|i: int| 0 <= i < x.len() && x[i] == e;
            assert((x + y)[i] == e);
        }
        if y.contains(e) {
            let i = choose|i: int| 0 <= i < y.len() && y[i] == e;
            assert((x + y)[x.len() + i] == e);
        }
    }
    assert((x + y).to_set() =~= x.to_set().union(y.to_set()));
}

proof fn lemma_migrated_seen(rows: Seq<MigratedRow>, start: (Set<Seq<u8>>, StateChange))
    ensures
        ({
            let end = fold_rows(
                rows,
                start,
                |acc: (Set<Seq<u8>>, StateChange), row: MigratedRow| migrated_step(acc, row),
            );
            end is Ok ==> end->Ok_0.0 == start.0.union(class_hashes(rows))
        }),
    decreases rows.len(),
{
    let f = |row: MigratedRow| row.class_hash@;
    if rows.len() == 0 {
        assert(rows.map_values(f).to_set() =~= Set::empty());
        assert(start.0.union(class_hashes(rows)) =~= start.0);
    } else {
        lemma_migrated_seen(rows.drop_last(), start);
        lemma_image_concat(rows.drop_last(), seq![rows.last()], f);
        assert(rows.drop_last() + seq![rows.last()] =~= rows);
        let one = seq![rows.last()].map_values(f);
        assert forall|e: Seq<u8>| one.to_set().contains(e) <==> e == rows.last().class_hash@ by {
            assert(one[0] == rows.last().class_hash@);
        }
        assert(start.0.union(class_hashes(rows)) =~= start.0.union(
            class_hashes(rows.drop_last()),
        ).insert(rows.last().class_hash@));
        assert(start.0.union(class_hashes(rows.drop_last())).contains(rows.last().class_hash@)
            ==> start.0.union(class_hashes(rows)) =~= start.0.union(
            class_hashes(rows.drop_last()),
        ));
    }
}

proof fn lemma_last_changes_addresses(rows: Seq<ContractRow>)
    ensures
        addresses(last_changes(rows)) == contract_addresses(rows),
    decreases rows.len(),
{
    let f = |row: ContractRow| row.contract_address@;
    let g = |e: (Seq<u8>, Seq<u8>)| e.0;
    if rows.len() == 0 {
        assert(addresses(last_changes(rows)) =~= contract_addresses(rows));
    } else {
        let front = last_changes(rows.drop_last());
        let entry = (rows.last().contract_address@, rows.last().class_hash@);
        lemma_last_changes_addresses(rows.drop_last());
        lemma_image_concat(rows.drop_last(), seq![rows.last()], f);
        assert(rows.drop_last() + seq![rows.last()] =~= rows);
        let one = seq![rows.last()].map_values(f);
        assert forall|e: Seq<u8>| one.to_set().contains(e) <==> e == entry.0 by {
            assert(one[0] == entry.0);
        }
        assert(contract_addresses(rows) =~= addresses(front).insert(entry.0));
        if has_address(front, entry.0) {
            let s = address_slot(front, entry.0);
            assert(0 <= s < front.len() && front[s].0 == entry.0);
            assert(last_changes(rows).map_values(g) =~= front.map_values(g));
            assert(front.map_values(g)[s] == entry.0);
            assert(addresses(front).contains(entry.0));
            assert(addresses(front).insert(entry.0) =~= addresses(front));
        } else {
            lemma_image_concat(front, seq![entry], g);
            assert(front + seq![entry] =~= front.push(entry));
            let single = seq![entry].map_values(g);
            assert forall|e: Seq<u8>| single.to_set().contains(e) <==> e == entry.0 by {
                assert(single[0] == entry.0);
            }
            assert(addresses(front.push(entry)) =~= addresses(front).insert(entry.0));
        }
    }
}

/// The places stand in front of the rows of the `k`-th block.
spec fn stands_at(at: Reach, tables: &StateTables, blocks: Seq<u64>, k: int) -> bool {
    &&& at.nonces == tables.nonce_start(blocks, k)
    &&& at.storages == tables.storage_start(blocks, k)
    &&& at.declareds == tables.declared_start(blocks, k)
    &&& at.redeclareds == tables.redeclared_start(blocks, k)
    &&& at.migrateds == tables.migrated_start(blocks, k)
    &&& at.contracts == tables.contract_start(blocks, k)
    &&& tables.has_places(at)
}

/// Merges the rows of one block after the other. It knows the class hashes and the contracts that it
/// has met.
pub struct StateMerger {
    seen_class_hashes: ByteSet,
    seen_contracts: ByteSet,
}

impl StateMerger {
    /// The class hashes met so far.
    pub closed spec fn classes(self) -> Set<Seq<u8>> {
        self.seen_class_hashes@
    }

    /// The contracts met so far.
    pub closed spec fn contracts(self) -> Set<Seq<u8>> {
        self.seen_contracts@
    }

    /// A merger that has met nothing.
    pub fn new() -> (r: Self)
        ensures
            r.classes() == Set::<Seq<u8>>::empty(),
            r.contracts() == Set::<Seq<u8>>::empty(),
    {
        StateMerger { seen_class_hashes: ByteSet::new(), seen_contracts: ByteSet::new() }
    }

    /// Merges the rows for a block that follow on places in the tables, and gives the places behind
    /// them. A merger that failed is not handed back.
    pub fn merge_from(self, tables: &StateTables, at: Places, block_number: u64) -> (r: Result<
        (StateUpdateData, Self, Places),
        MergeError,
    >)
        requires
            tables.has_places(at@),
        ensures
            is_merged(self, tables.rows_at(at@, block_number), match r {
                Ok((data, merger, _)) => Ok((data, merger)),
                Err(e) => Err(e),
            }),
            r matches Ok((_, _, end)) ==> end@ == tables.places_after(at@, block_number)
                && tables.has_places(end@),
    {
        let ghost rows = tables.rows_at(at@, block_number);
        let mut merger = self;
        let mut end = at;
        let mut data = StateUpdateData::new();
        match drain_nonces(&tables.nonces, &mut end.nonces, block_number, &mut data) {
            Ok(()) => {},
            Err(e) => {
                return Err(e);
            },
        }
        match drain_storages(&tables.storages, &mut end.storages, block_number, &mut data) {
            Ok(()) => {},
            Err(e) => {
                return Err(e);
            },
        }
        match drain_declareds(&tables.declareds, &mut end.declareds, block_number, &mut data) {
            Ok(()) => {},
            Err(e) => {
                return Err(e);
            },
        }
        match drain_redeclareds(&tables.redeclareds, &mut end.redeclareds, block_number, &mut data) {
            Ok(()) => {},
            Err(e) => {
                return Err(e);
            },
        }
        let ghost plain = data@;
        assert(plain_change(rows) == Ok::<StateChange, MergeError>(plain));
        match drain_migrateds(
            &tables.migrateds,
            &mut end.migrateds,
            block_number,
            &mut merger.seen_class_hashes,
            &mut data,
        ) {
            Ok(()) => {},
            Err(e) => {
                return Err(e);
            },
        }
        proof {
            lemma_migrated_seen(rows.migrateds, (self.classes(), plain));
        }
        match drain_contracts(
            &tables.contracts,
            &mut end.contracts,
            block_number,
            &mut merger.seen_contracts,
            &mut data,
        ) {
            Ok(()) => {},
            Err(e) => {
                return Err(e);
            },
        }
        proof {
            lemma_last_changes_addresses(rows.contracts);
        }
        Ok((data, merger, end))
    }

    /// Merges the rows of the next block, which stand at the front of the tables. Rows behind them
    /// are left alone.
    pub fn merge_next(self, rows: &StateTables, block_number: u64) -> (r: Result<
        (StateUpdateData, Self),
        MergeError,
    >)
        ensures
            is_merged(self, rows.rows_at(front_places(), block_number), r),
    {
        match self.merge_from(rows, Places::front(), block_number) {
            Ok((data, merger, _)) => Ok((data, merger)),
            Err(e) => Err(e),
        }
    }
}

/// What merging the rows of a block gives.
pub open spec fn is_merged(
    before: StateMerger,
    rows: BlockRows,
    r: Result<(StateUpdateData, StateMerger), MergeError>,
) -> bool {
    match merged_change(rows, before.classes(), before.contracts()) {
        Ok(change) => {
            &&& r matches Ok((data, after))
            &&& data@ == change
            &&& after.classes() == before.classes().union(class_hashes(rows.migrateds))
            &&& after.contracts() == before.contracts().union(contract_addresses(rows.contracts))
        },
        Err(e) => r == Err::<(StateUpdateData, StateMerger), MergeError>(e),
    }
}

/// Which tables have rows past the last block.
#[derive(Clone, Copy, Debug, PartialEq, Eq, Structural)]
pub struct LeftOver {
    pub nonces: bool,
    pub storages: bool,
    pub declareds: bool,
    pub redeclareds: bool,
    pub migrateds: bool,
    pub contracts: bool,
}

impl LeftOver {
    /// The first of the tables.
    pub open spec fn first(self) -> Option<Table> {
        if self.nonces {
            Some(Table::NonceUpdates)
        } else if self.storages {
            Some(Table::StorageUpdates)
        } else if self.declareds {
            Some(Table::ClassDefinitions)
        } else if self.redeclareds {
            Some(Table::RedeclaredClasses)
        } else if self.migrateds {
            Some(Table::CasmClassHashes)
        } else if self.contracts {
            Some(Table::ContractUpdates)
        } else {
            None
        }
    }

    /// Fails where a table has rows that no block accounts for.
    pub fn check(self) -> (r: Result<(), MergeError>)
        ensures
            match self.first() {
                Some(table) => r == Err::<(), MergeError>(MergeError::RowsPastLastBlock(table)),
                None => r is Ok,
            },
    {
        if self.nonces {
            return Err(MergeError::RowsPastLastBlock(Table::NonceUpdates));
        }
        if self.storages {
            return Err(MergeError::RowsPastLastBlock(Table::StorageUpdates));
        }
        if self.declareds {
            return Err(MergeError::RowsPastLastBlock(Table::ClassDefinitions));
        }
        if self.redeclareds {
            return Err(MergeError::RowsPastLastBlock(Table::RedeclaredClasses));
        }
        if self.migrateds {
            return Err(MergeError::RowsPastLastBlock(Table::CasmClassHashes));
        }
        if self.contracts {
            return Err(MergeError::RowsPastLastBlock(Table::ContractUpdates));
        }
        Ok(())
    }
}

/// The rows at places in front of the `k`-th block are those of that block, and the places behind
/// them are in front of the next one.
proof fn lemma_rows_at(at: Reach, tables: &StateTables, blocks: Seq<u64>, k: int)
    requires
        0 <= k < blocks.len(),
        stands_at(at, tables, blocks, k),
    ensures
        tables.rows_at(at, blocks[k]) == tables.block_rows(blocks, k),
        stands_at(tables.places_after(at, blocks[k]), tables, blocks, k + 1),
{
    let b = blocks[k];
    lemma_run(
        |i: int| tables.nonces@[i].block_number,
        tables.nonces@.len() as int,
        at.nonces,
        b,
    );
    lemma_run(
        |i: int| tables.storages@[i].block_number,
        tables.storages@.len() as int,
        at.storages,
        b,
    );
    lemma_run(
        |i: int| tables.declareds@[i].block_number,
        tables.declareds@.len() as int,
        at.declareds,
        b,
    );
    lemma_run(
        |i: int| tables.redeclareds@[i].block_number,
        tables.redeclareds@.len() as int,
        at.redeclareds,
        b,
    );
    lemma_run(
        |i: int| tables.migrateds@[i].block_number,
        tables.migrateds@.len() as int,
        at.migrateds,
        b,
    );
    lemma_run(
        |i: int| tables.contracts@[i].block_number,
        tables.contracts@.len() as int,
        at.contracts,
        b,
    );
}

/// Merging block by block is merging whole tables: a merger that has met what stands before the
/// `k`-th block, and is given the rows of that block, gives what the tables tell of it, and has then
/// met what stands before the next one.
pub proof fn law_blocks_are_merged_one_by_one(
    tables: &StateTables,
    blocks: Seq<u64>,
    k: int,
    merger: StateMerger,
    r: Result<(StateUpdateData, StateMerger), MergeError>,
)
    requires
        0 <= k < blocks.len(),
        merger.classes() == tables.classes_before(blocks, k),
        merger.contracts() == tables.contracts_before(blocks, k),
        is_merged(merger, tables.block_rows(blocks, k), r),
    ensures
        match tables.block_change(blocks, k) {
            Ok(change) => r matches Ok((data, after)) && data@ == change && after.classes()
                == tables.classes_before(blocks, k + 1) && after.contracts()
                == tables.contracts_before(blocks, k + 1),
            Err(e) => r == Err::<(StateUpdateData, StateMerger), MergeError>(e),
        },
{
    let classes = |i: int| tables.migrateds@[i].block_number;
    let contracts = |i: int| tables.contracts@[i].block_number;
    lemma_run_start(classes, tables.migrateds@.len() as int, blocks, k);
    lemma_run_start(contracts, tables.contracts@.len() as int, blocks, k);
    lemma_run(
        classes,
        tables.migrateds@.len() as int,
        tables.migrated_start(blocks, k),
        blocks[k],
    );
    lemma_run(
        contracts,
        tables.contracts@.len() as int,
        tables.contract_start(blocks, k),
        blocks[k],
    );
    let a = tables.migrateds@.subrange(0, tables.migrated_start(blocks, k));
    let b = tables.migrated_run(blocks, k);
    lemma_image_concat(a, b, |row: MigratedRow| row.class_hash@);
    assert(a + b =~= tables.migrateds@.subrange(0, tables.migrated_start(blocks, k + 1)));
    let c = tables.contracts@.subrange(0, tables.contract_start(blocks, k));
    let d = tables.contract_run(blocks, k);
    lemma_image_concat(c, d, |row: ContractRow| row.contract_address@);
    assert(c + d =~= tables.contracts@.subrange(0, tables.contract_start(blocks, k + 1)));
}

/// Merges rows into one state update per block. Fails with the error of the first block whose rows
/// cannot be understood, and otherwise where a table has rows that no block accounts for.
pub fn migrate_state_updates(blocks: &Vec<u64>, tables: &StateTables) -> (r: Result<
    Vec<(u64, StateUpdateData)>,
    MergeError,
>)
    ensures
        match r {
            Ok(updates) => {
                &&& updates@.len() == blocks@.len()
                &&& forall|k: int|
                    #![trigger updates@[k]]
                    0 <= k < blocks@.len() ==> updates@[k].0 == blocks@[k] && tables.block_change(
                        blocks@,
                        k,
                    ) == Ok::<StateChange, MergeError>(updates@[k].1@)
                &&& tables.left_over(blocks@) is None
            },
            Err(e) => {
                ||| exists|k: int|
                    0 <= k < blocks@.len() && #[trigger] tables.block_change(blocks@, k) == Err::<
                        StateChange,
                        MergeError,
                    >(e) && all_merge(tables, blocks@, k)
                ||| all_merge(tables, blocks@, blocks@.len() as int) && tables.left_over(
                    blocks@,
                ) is Some && e == MergeError::RowsPastLastBlock(tables.left_over(blocks@)->0)
            },
        },
{
    let mut merger = StateMerger::new();
    let mut at = Places::front();
    let mut updates: Vec<(u64, StateUpdateData)> = Vec::new();
    proof {
        assert(tables.classes_before(blocks@, 0) =~= Set::empty());
        assert(tables.contracts_before(blocks@, 0) =~= Set::empty());
    }
    let mut k: usize = 0;
    while k < blocks.len()
        invariant
            k <= blocks@.len(),
            stands_at(at@, tables, blocks@, k as int),
            merger.classes() == tables.classes_before(blocks@, k as int),
            merger.contracts() == tables.contracts_before(blocks@, k as int),
            updates@.len() == k,
            forall|j: int|
                #![trigger updates@[j]]
                0 <= j < k ==> updates@[j].0 == blocks@[j] && tables.block_change(blocks@, j)
                    == Ok::<StateChange, MergeError>(updates@[j].1@),
            all_merge(tables, blocks@, k as int),
        decreases blocks@.len() - k,
    {
        let ghost before = merger;
        proof {
            lemma_rows_at(at@, tables, blocks@, k as int);
        }
        match merger.merge_from(tables, at, blocks[k]) {
            Err(e) => {
                proof {
                    law_blocks_are_merged_one_by_one(tables, blocks@, k as int, before, Err(e));
                }
                return Err(e);
            },
            Ok((data, after, end)) => {
                proof {
                    law_blocks_are_merged_one_by_one(
                        tables,
                        blocks@,
                        k as int,
                        before,
                        Ok((data, after)),
                    );
                }
                merger = after;
                at = end;
                updates.push((blocks[k], data));
            },
        }
        k = k + 1;
    }
    let left = LeftOver {
        nonces: at.nonces < tables.nonces.len(),
        storages: at.storages < tables.storages.len(),
        declareds: at.declareds < tables.declareds.len(),
        redeclareds: at.redeclareds < tables.redeclareds.len(),
        migrateds: at.migrateds < tables.migrateds.len(),
        contracts: at.contracts < tables.contracts.len(),
    };
    match left.check() {
        Ok(()) => Ok(updates),
        Err(e) => Err(e),
    }
}

/// The rows of the first `k` blocks can all be understood.
pub open spec fn all_merge(tables: &StateTables, blocks: Seq<u64>, k: int) -> bool {
    forall|j: int| 0 <= j < k ==> (#[trigger] tables.block_change(blocks, j)) is Ok
}

/// Where no row is left over, every row counts towards a block of its own number.
pub proof fn law_every_row_lands_in_its_block(
    number: spec_fn(int) -> u64,
    len: int,
    blocks: Seq<u64>,
    i: int,
)
    requires
        0 <= i < len,
        run_start(number, len, blocks, blocks.len() as int) == len,
    ensures
        exists|k: int|
            0 <= k < blocks.len() && run_start(number, len, blocks, k) <= i < run_start(
                number,
                len,
                blocks,
                k + 1,
            ) && #[trigger] blocks[k] == number(i),
{
    lemma_row_in_run(number, len, blocks, blocks.len() as int, i);
}

proof fn lemma_row_in_run(
    number: spec_fn(int) -> u64,
    len: int,
    blocks: Seq<u64>,
    n: int,
    i: int,
)
    requires
        0 <= n <= blocks.len(),
        0 <= i < len,
        i < run_start(number, len, blocks, n),
    ensures
        exists|k: int|
            0 <= k < n && run_start(number, len, blocks, k) <= i < run_start(
                number,
                len,
                blocks,
                k + 1,
            ) && #[trigger] blocks[k] == number(i),
    decreases n,
{
    if i < run_start(number, len, blocks, n - 1) {
        lemma_row_in_run(number, len, blocks, n - 1, i);
    } else {
        lemma_run_start(number, len, blocks, n - 1);
        lemma_run(number, len, run_start(number, len, blocks, n - 1), blocks[n - 1]);
        assert(blocks[n - 1] == number(i));
    }
}

/// Where rows and blocks are sorted by number and every row is for one of the blocks, no row is left
/// over.
pub proof fn law_no_row_left_over(number: spec_fn(int) -> u64, len: int, blocks: Seq<u64>)
    requires
        0 <= len,
        forall|i: int, j: int|
            #![trigger number(i), number(j)]
            0 <= i < j < len ==> number(i) <= number(j),
        forall|i: int, j: int|
            #![trigger blocks[i], blocks[j]]
            0 <= i < j < blocks.len() ==> blocks[i] < blocks[j],
        forall|i: int| 0 <= i < len ==> blocks.contains(#[trigger] number(i)),
    ensures
        run_start(number, len, blocks, blocks.len() as int) == len,
{
    let n = blocks.len() as int;
    lemma_rows_behind(number, len, blocks, n);
    lemma_run_start(number, len, blocks, n);
    let at = run_start(number, len, blocks, n);
    if at < len {
        assert(blocks.contains(number(at)));
        let k = choose|k: int| 0 <= k < n && blocks[k] == number(at);
        assert(blocks[k] != number(at));
    }
}

proof fn lemma_rows_behind(number: spec_fn(int) -> u64, len: int, blocks: Seq<u64>, n: int)
    requires
        0 <= n <= blocks.len(),
        0 <= len,
        forall|i: int, j: int|
            #![trigger number(i), number(j)]
            0 <= i < j < len ==> number(i) <= number(j),
        forall|i: int, j: int|
            #![trigger blocks[i], blocks[j]]
            0 <= i < j < blocks.len() ==> blocks[i] < blocks[j],
        forall|i: int| 0 <= i < len ==> blocks.contains(#[trigger] number(i)),
    ensures
        run_start(number, len, blocks, n) < len ==> forall|k: int|
            0 <= k < n ==> #[trigger] blocks[k] < number(run_start(number, len, blocks, n)),
    decreases n,
{
    if n > 0 {
        lemma_rows_behind(number, len, blocks, n - 1);
        lemma_run_start(number, len, blocks, n - 1);
        let before = run_start(number, len, blocks, n - 1);
        lemma_run(number, len, before, blocks[n - 1]);
        let at = run_start(number, len, blocks, n);
        if at < len {
            assert(number(before) <= number(at));
            assert(blocks.contains(number(at)));
            let k = choose|k: int| 0 <= k < blocks.len() && blocks[k] == number(at);
            assert(blocks.contains(number(before)));
            let m = choose|m: int| 0 <= m < blocks.len() && blocks[m] == number(before);
            if n > 1 {
                assert(blocks[n - 2] < number(before));
            }
            if m < n - 1 {
                assert(blocks[m] < number(before));
            }
            if k < n - 1 {
                assert(blocks[k] < number(before));
            }
            assert(k > n - 1);
            assert(blocks[n - 1] < blocks[k]);
        }
    }
}

} // verus!
