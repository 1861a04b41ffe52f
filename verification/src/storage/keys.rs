//! The composite keys of the key-value store.
use vstd::prelude::*;

use crate::bytes::{be_u32, be_u64, push_bytes, u32_to_be_bytes, u64_to_be_bytes};
use crate::felt::Felt;

verus! {

/// The key of a contract's state hash at a block: the address, then the block number counted down
/// from the largest one, so that later blocks come first.
pub open spec fn state_hash_key(block: u64, address: Felt) -> Seq<u8> {
    address@ + be_u64((u64::MAX - block) as u64)
}

/// The key of a contract's nonce at a block.
pub open spec fn nonce_key(block: u64, address: Felt) -> Seq<u8> {
    address@ + be_u32((u32::MAX - block) as u32)
}

/// The part of a storage key that does not depend on the block.
pub open spec fn storage_prefix_of(address: Felt, key: Felt) -> Seq<u8> {
    address@ + key@
}

/// The key of an entry of a contract's storage at a block.
pub open spec fn storage_key(block: u64, address: Felt, key: Felt) -> Seq<u8> {
    storage_prefix_of(address, key) + be_u32((u32::MAX - block) as u32)
}

pub fn contract_state_hashes_key(block_number: u64, contract_address: &Felt) -> (r: Vec<u8>)
    ensures
        r@ == state_hash_key(block_number, *contract_address),
{
    let mut key: Vec<u8> = contract_address.to_be_bytes();
    let suffix = u64_to_be_bytes(u64::MAX - block_number);
    push_bytes(&mut key, suffix.as_slice());
    key
}

pub fn nonce_entry_key(block_number: u64, contract_address: &Felt) -> (r: Vec<u8>)
    requires
        block_number <= u32::MAX,
    ensures
        r@ == nonce_key(block_number, *contract_address),
{
    let mut key: Vec<u8> = contract_address.to_be_bytes();
    let suffix = u32_to_be_bytes(u32::MAX - block_number as u32);
    push_bytes(&mut key, suffix.as_slice());
    key
}

pub fn storage_prefix(contract_address: &Felt, storage_address: &Felt) -> (r: Vec<u8>)
    ensures
        r@ == storage_prefix_of(*contract_address, *storage_address),
{
    let mut key: Vec<u8> = contract_address.to_be_bytes();
    let slot = storage_address.to_be_bytes();
    push_bytes(&mut key, slot.as_slice());
    key
}

pub fn storage_entry_key(
    block_number: u64,
    contract_address: &Felt,
    storage_address: &Felt,
) -> (r: Vec<u8>)
    requires
        block_number <= u32::MAX,
    ensures
        r@ == storage_key(block_number, *contract_address, *storage_address),
{
    let mut key: Vec<u8> = storage_prefix(contract_address, storage_address);
    let suffix = u32_to_be_bytes(u32::MAX - block_number as u32);
    push_bytes(&mut key, suffix.as_slice());
    key
}

} // verus!
