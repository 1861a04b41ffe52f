//! The JSON-RPC requests of the load test.
use vstd::prelude::*;

use crate::felt::Felt;

verus! {

/// The path that requests are posted to.
pub const RPC_PATH: &'static str = "/rpc/v0_9";

/// The block that fees are estimated against: the one before the block that the estimated
/// transaction was included in.
pub const ESTIMATE_BLOCK: u64 = 499999;

/// How a request names a block.
#[derive(Clone, Copy, Debug, PartialEq, Eq, Structural)]
pub enum BlockId {
    Number(u64),
    Hash(Felt),
    PreConfirmed,
}

/// Which events are asked for.
#[derive(Debug)]
pub struct EventFilter {
    pub from_block: Option<u64>,
    pub to_block: Option<u64>,
    pub address: Option<Felt>,
    pub keys: Vec<Vec<Felt>>,
    pub chunk_size: u64,
}

/// A transaction whose fee is estimated. Its validation is skipped, so that the historical nonce and
/// the empty signature don't fail.
#[derive(Debug)]
pub struct InvokeEstimate {
    pub sender_address: Felt,
    pub call_data: Vec<Felt>,
    pub nonce: Felt,
    pub max_fee: Felt,
    pub skip_validate: bool,
}

/// A request: its method and its parameters.
#[derive(Debug)]
pub enum Request {
    GetBlockWithTxHashes { block_id: BlockId },
    GetStateUpdate { block_id: BlockId },
    GetTransactionByHash { transaction_hash: Felt },
    GetTransactionByBlockIdAndIndex { block_id: BlockId, index: usize },
    GetTransactionReceipt { transaction_hash: Felt },
    GetBlockTransactionCount { block_id: BlockId },
    GetClass { block_id: BlockId, class_hash: Felt },
    GetClassHashAt { block_id: BlockId, contract_address: Felt },
    GetClassAt { block_id: BlockId, contract_address: Felt },
    BlockNumber,
    Syncing,
    ChainId,
    GetEvents { from_block: Option<BlockId>, to_block: Option<BlockId>, filter: EventFilter },
    GetStorageAt { contract_address: Felt, key: Felt, block_id: BlockId },
    Call {
        contract_address: Felt,
        calldata: Vec<String>,
        entry_point_selector: String,
        block_id: BlockId,
    },
    EstimateFee { transaction: InvokeEstimate, block_id: BlockId },
    GetNonce { block_id: BlockId, contract_address: Felt },
}

/// The name of a request's method.
pub open spec fn method_name(r: Request) -> Seq<char> {
    match r {
        Request::GetBlockWithTxHashes { .. } => "starknet_getBlockWithTxHashes"@,
        Request::GetStateUpdate { .. } => "starknet_getStateUpdate"@,
        Request::GetTransactionByHash { .. } => "starknet_getTransactionByHash"@,
        Request::GetTransactionByBlockIdAndIndex { .. } => "starknet_getTransactionByBlockIdAndIndex"@,
        Request::GetTransactionReceipt { .. } => "starknet_getTransactionReceipt"@,
        Request::GetBlockTransactionCount { .. } => "starknet_getBlockTransactionCount"@,
        Request::GetClass { .. } => "starknet_getClass"@,
        Request::GetClassHashAt { .. } => "starknet_getClassHashAt"@,
        Request::GetClassAt { .. } => "starknet_getClassAt"@,
        Request::BlockNumber => "starknet_blockNumber"@,
        Request::Syncing => "starknet_syncing"@,
        Request::ChainId => "starknet_chainId"@,
        Request::GetEvents { .. } => "starknet_getEvents"@,
        Request::GetStorageAt { .. } => "starknet_getStorageAt"@,
        Request::Call { .. } => "starknet_call"@,
        Request::EstimateFee { .. } => "starknet_estimateFee"@,
        Request::GetNonce { .. } => "starknet_getNonce"@,
    }
}

impl Request {
    pub fn method(&self) -> (r: &'static str)
        ensures
            r@ == method_name(*self),
    {
        match self {
            Request::GetBlockWithTxHashes { .. } => "starknet_getBlockWithTxHashes",
            Request::GetStateUpdate { .. } => "starknet_getStateUpdate",
            Request::GetTransactionByHash { .. } => "starknet_getTransactionByHash",
            Request::GetTransactionByBlockIdAndIndex { .. } => "starknet_getTransactionByBlockIdAndIndex",
            Request::GetTransactionReceipt { .. } => "starknet_getTransactionReceipt",
            Request::GetBlockTransactionCount { .. } => "starknet_getBlockTransactionCount",
            Request::GetClass { .. } => "starknet_getClass",
            Request::GetClassHashAt { .. } => "starknet_getClassHashAt",
            Request::GetClassAt { .. } => "starknet_getClassAt",
            Request::BlockNumber => "starknet_blockNumber",
            Request::Syncing => "starknet_syncing",
            Request::ChainId => "starknet_chainId",
            Request::GetEvents { .. } => "starknet_getEvents",
            Request::GetStorageAt { .. } => "starknet_getStorageAt",
            Request::Call { .. } => "starknet_call",
            Request::EstimateFee { .. } => "starknet_estimateFee",
            Request::GetNonce { .. } => "starknet_getNonce",
        }
    }
}

pub fn get_block_by_number(block_number: u64) -> (r: Request)
    ensures
        r == (Request::GetBlockWithTxHashes { block_id: BlockId::Number(block_number) }),
{
    Request::GetBlockWithTxHashes { block_id: BlockId::Number(block_number) }
}

pub fn get_block_by_hash(block_hash: Felt) -> (r: Request)
    ensures
        r == (Request::GetBlockWithTxHashes { block_id: BlockId::Hash(block_hash) }),
{
    Request::GetBlockWithTxHashes { block_id: BlockId::Hash(block_hash) }
}

pub fn get_state_update(block_hash: Felt) -> (r: Request)
    ensures
        r == (Request::GetStateUpdate { block_id: BlockId::Hash(block_hash) }),
{
    Request::GetStateUpdate { block_id: BlockId::Hash(block_hash) }
}

pub fn get_transaction_by_hash(hash: Felt) -> (r: Request)
    ensures
        r == (Request::GetTransactionByHash { transaction_hash: hash }),
{
    Request::GetTransactionByHash { transaction_hash: hash }
}

pub fn get_transaction_by_block_hash_and_index(block_hash: Felt, index: usize) -> (r: Request)
    ensures
        r == (Request::GetTransactionByBlockIdAndIndex {
            block_id: BlockId::Hash(block_hash),
            index,
        }),
{
    Request::GetTransactionByBlockIdAndIndex { block_id: BlockId::Hash(block_hash), index }
}

pub fn get_transaction_by_block_number_and_index(block_number: u64, index: usize) -> (r: Request)
    ensures
        r == (Request::GetTransactionByBlockIdAndIndex {
            block_id: BlockId::Number(block_number),
            index,
        }),
{
    Request::GetTransactionByBlockIdAndIndex { block_id: BlockId::Number(block_number), index }
}

pub fn get_transaction_receipt_by_hash(hash: Felt) -> (r: Request)
    ensures
        r == (Request::GetTransactionReceipt { transaction_hash: hash }),
{
    Request::GetTransactionReceipt { transaction_hash: hash }
}

pub fn get_block_transaction_count_by_hash(hash: Felt) -> (r: Request)
    ensures
        r == (Request::GetBlockTransactionCount { block_id: BlockId::Hash(hash) }),
{
    Request::GetBlockTransactionCount { block_id: BlockId::Hash(hash) }
}

pub fn get_block_transaction_count_by_number(number: u64) -> (r: Request)
    ensures
        r == (Request::GetBlockTransactionCount { block_id: BlockId::Number(number) }),
{
    Request::GetBlockTransactionCount { block_id: BlockId::Number(number) }
}

pub fn get_class(block_hash: Felt, class_hash: Felt) -> (r: Request)
    ensures
        r == (Request::GetClass { block_id: BlockId::Hash(block_hash), class_hash }),
{
    Request::GetClass { block_id: BlockId::Hash(block_hash), class_hash }
}

pub fn get_class_hash_at(block_hash: Felt, contract_address: Felt) -> (r: Request)
    ensures
        r == (Request::GetClassHashAt { block_id: BlockId::Hash(block_hash), contract_address }),
{
    Request::GetClassHashAt { block_id: BlockId::Hash(block_hash), contract_address }
}

pub fn get_class_at(block_hash: Felt, contract_address: Felt) -> (r: Request)
    ensures
        r == (Request::GetClassAt { block_id: BlockId::Hash(block_hash), contract_address }),
{
    Request::GetClassAt { block_id: BlockId::Hash(block_hash), contract_address }
}

pub fn block_number() -> (r: Request)
    ensures
        r == Request::BlockNumber,
{
    Request::BlockNumber
}

pub fn syncing() -> (r: Request)
    ensures
        r == Request::Syncing,
{
    Request::Syncing
}

pub fn chain_id() -> (r: Request)
    ensures
        r == Request::ChainId,
{
    Request::ChainId
}

/// The block that a bound of an event filter names, where there is one.
pub open spec fn bound_of(number: Option<u64>) -> Option<BlockId> {
    match number {
        Some(n) => Some(BlockId::Number(n)),
        None => None,
    }
}

fn block_number_to_block_id(number: Option<u64>) -> (r: Option<BlockId>)
    ensures
        r == bound_of(number),
{
    match number {
        Some(n) => Some(BlockId::Number(n)),
        None => None,
    }
}

pub fn get_events(filter: EventFilter) -> (r: Request)
    ensures
        r == (Request::GetEvents {
            from_block: bound_of(filter.from_block),
            to_block: bound_of(filter.to_block),
            filter,
        }),
{
    Request::GetEvents {
        from_block: block_number_to_block_id(filter.from_block),
        to_block: block_number_to_block_id(filter.to_block),
        filter,
    }
}

pub fn get_storage_at(contract_address: Felt, key: Felt, block_hash: Felt) -> (r: Request)
    ensures
        r == (Request::GetStorageAt {
            contract_address,
            key,
            block_id: BlockId::Hash(block_hash),
        }),
{
    Request::GetStorageAt { contract_address, key, block_id: BlockId::Hash(block_hash) }
}

pub fn call(contract_address: Felt, call_data: Vec<String>, entry_point_selector: String) -> (r:
    Request)
    ensures
        r == (Request::Call {
            contract_address,
            calldata: call_data,
            entry_point_selector,
            block_id: BlockId::PreConfirmed,
        }),
{
    Request::Call {
        contract_address,
        calldata: call_data,
        entry_point_selector,
        block_id: BlockId::PreConfirmed,
    }
}

pub fn estimate_fee_for_invoke(
    sender_address: Felt,
    call_data: Vec<Felt>,
    nonce: Felt,
    max_fee: Felt,
) -> (r: Request)
    ensures
        r == (Request::EstimateFee {
            transaction: InvokeEstimate {
                sender_address,
                call_data,
                nonce,
                max_fee,
                skip_validate: true,
            },
            block_id: BlockId::Number(ESTIMATE_BLOCK),
        }),
{
    Request::EstimateFee {
        transaction: InvokeEstimate { sender_address, call_data, nonce, max_fee, skip_validate: true },
        block_id: BlockId::Number(ESTIMATE_BLOCK),
    }
}

pub fn get_nonce(contract_address: Felt) -> (r: Request)
    ensures
        r == (Request::GetNonce { block_id: BlockId::PreConfirmed, contract_address }),
{
    Request::GetNonce { block_id: BlockId::PreConfirmed, contract_address }
}

/// Requests have one method exactly where they are of one kind.
pub proof fn law_methods_tell_requests_apart(a: Request, b: Request)
    ensures
        method_name(a) == method_name(b) <==> match a {
            Request::GetBlockWithTxHashes { .. } => b is GetBlockWithTxHashes,
            Request::GetStateUpdate { .. } => b is GetStateUpdate,
            Request::GetTransactionByHash { .. } => b is GetTransactionByHash,
            Request::GetTransactionByBlockIdAndIndex { .. } => b is GetTransactionByBlockIdAndIndex,
            Request::GetTransactionReceipt { .. } => b is GetTransactionReceipt,
            Request::GetBlockTransactionCount { .. } => b is GetBlockTransactionCount,
            Request::GetClass { .. } => b is GetClass,
            Request::GetClassHashAt { .. } => b is GetClassHashAt,
            Request::GetClassAt { .. } => b is GetClassAt,
            Request::BlockNumber => b is BlockNumber,
            Request::Syncing => b is Syncing,
            Request::ChainId => b is ChainId,
            Request::GetEvents { .. } => b is GetEvents,
            Request::GetStorageAt { .. } => b is GetStorageAt,
            Request::Call { .. } => b is Call,
            Request::EstimateFee { .. } => b is EstimateFee,
            Request::GetNonce { .. } => b is GetNonce,
        },
{
    reveal_strlit("starknet_getBlockWithTxHashes");
    reveal_strlit("starknet_getStateUpdate");
    reveal_strlit("starknet_getTransactionByHash");
    reveal_strlit("starknet_getTransactionByBlockIdAndIndex");
    reveal_strlit("starknet_getTransactionReceipt");
    reveal_strlit("starknet_getBlockTransactionCount");
    reveal_strlit("starknet_getClass");
    reveal_strlit("starknet_getClassHashAt");
    reveal_strlit("starknet_getClassAt");
    reveal_strlit("starknet_blockNumber");
    reveal_strlit("starknet_syncing");
    reveal_strlit("starknet_chainId");
    reveal_strlit("starknet_getEvents");
    reveal_strlit("starknet_getStorageAt");
    reveal_strlit("starknet_call");
    reveal_strlit("starknet_estimateFee");
    reveal_strlit("starknet_getNonce");
    assert("starknet_getBlockWithTxHashes"@.len() == 29);
    assert("starknet_getStateUpdate"@.len() == 23);
    assert("starknet_getTransactionByHash"@.len() == 29);
    assert("starknet_getTransactionByBlockIdAndIndex"@.len() == 40);
    assert("starknet_getTransactionReceipt"@.len() == 30);
    assert("starknet_getBlockTransactionCount"@.len() == 33);
    assert("starknet_getClass"@.len() == 17);
    assert("starknet_getClassHashAt"@.len() == 23);
    assert("starknet_getClassAt"@.len() == 19);
    assert("starknet_blockNumber"@.len() == 20);
    assert("starknet_syncing"@.len() == 16);
    assert("starknet_chainId"@.len() == 16);
    assert("starknet_getEvents"@.len() == 18);
    assert("starknet_getStorageAt"@.len() == 21);
    assert("starknet_call"@.len() == 13);
    assert("starknet_estimateFee"@.len() == 20);
    assert("starknet_getNonce"@.len() == 17);
    assert("starknet_getBlockWithTxHashes"@[12] != "starknet_getTransactionByHash"@[12]);
    assert("starknet_getStateUpdate"@[12] != "starknet_getClassHashAt"@[12]);
    assert("starknet_getClass"@[12] != "starknet_getNonce"@[12]);
    assert("starknet_blockNumber"@[9] != "starknet_estimateFee"@[9]);
    assert("starknet_syncing"@[9] != "starknet_chainId"@[9]);
}

} // verus!
