use pathfinder::felt::Felt;
use pathfinder::load_test::requests::{
    block_number, call, chain_id, estimate_fee_for_invoke, get_block_by_hash, get_block_by_number,
    get_class, get_events, get_nonce, get_storage_at, get_transaction_by_block_number_and_index,
    get_transaction_receipt_by_hash, EventFilter, Request,
};
use serde_json::Value;

fn felt(x: u64) -> Felt {
    Felt::from_u64(x)
}

fn object(fields: Vec<(&str, Value)>) -> Value {
    let mut map = serde_json::Map::new();
    for (name, value) in fields {
        map.insert(name.to_string(), value);
    }
    Value::Object(map)
}

/// Holds the text of a request against its method and parameters.
fn check(request: Request, method: &str, params: Value) {
    let expected = object(vec![
        ("jsonrpc", Value::from("2.0")),
        ("id", Value::from("0")),
        ("method", Value::from(method)),
        ("params", params),
    ]);
    let text = request.jsonrpc_request();
    assert_eq!(serde_json::from_str::<Value>(&text).unwrap(), expected);
}

#[test]
fn blocks_are_asked_for_by_number_and_by_hash() {
    let by_number = object(vec![("block_number", Value::from(600000u64))]);
    check(
        get_block_by_number(600000),
        "starknet_getBlockWithTxHashes",
        object(vec![("block_id", by_number)]),
    );
    let by_hash = object(vec![("block_hash", Value::from("0xab"))]);
    check(
        get_block_by_hash(felt(0xab)),
        "starknet_getBlockWithTxHashes",
        object(vec![("block_id", by_hash)]),
    );
}

#[test]
fn requests_without_parameters_have_an_empty_object() {
    check(block_number(), "starknet_blockNumber", object(vec![]));
    check(chain_id(), "starknet_chainId", object(vec![]));
}

#[test]
fn transactions_and_receipts_are_asked_for() {
    let block = object(vec![("block_number", Value::from(7u64))]);
    check(
        get_transaction_by_block_number_and_index(7, 3),
        "starknet_getTransactionByBlockIdAndIndex",
        object(vec![("block_id", block), ("index", Value::from(3u64))]),
    );
    check(
        get_transaction_receipt_by_hash(felt(0)),
        "starknet_getTransactionReceipt",
        object(vec![("transaction_hash", Value::from("0x0"))]),
    );
}

#[test]
fn classes_and_storage_are_asked_for_at_a_hash() {
    let block = object(vec![("block_hash", Value::from("0x1"))]);
    check(
        get_class(felt(1), felt(0x1234)),
        "starknet_getClass",
        object(vec![("block_id", block.clone()), ("class_hash", Value::from("0x1234"))]),
    );
    check(
        get_storage_at(felt(2), felt(3), felt(1)),
        "starknet_getStorageAt",
        object(vec![
            ("contract_address", Value::from("0x2")),
            ("key", Value::from("0x3")),
            ("block_id", block),
        ]),
    );
}

#[test]
fn nonces_are_asked_for_at_the_pre_confirmed_block() {
    check(
        get_nonce(felt(0x10)),
        "starknet_getNonce",
        object(vec![
            ("block_id", Value::from("pre_confirmed")),
            ("contract_address", Value::from("0x10")),
        ]),
    );
}

#[test]
fn event_filters_leave_open_ends_null() {
    let filter = EventFilter {
        from_block: Some(5),
        to_block: None,
        address: Some(felt(0xa)),
        keys: vec![vec![felt(1), felt(2)], vec![]],
        chunk_size: 100,
    };
    let keys = Value::Array(vec![
        Value::Array(vec![Value::from("0x1"), Value::from("0x2")]),
        Value::Array(vec![]),
    ]);
    let expected = object(vec![
        ("from_block", object(vec![("block_number", Value::from(5u64))])),
        ("to_block", Value::Null),
        ("address", Value::from("0xa")),
        ("keys", keys),
        ("chunk_size", Value::from(100u64)),
    ]);
    check(get_events(filter), "starknet_getEvents", object(vec![("filter", expected)]));
}

#[test]
fn event_filters_without_an_address_have_null() {
    let filter = EventFilter {
        from_block: None,
        to_block: Some(9),
        address: None,
        keys: vec![],
        chunk_size: 1,
    };
    let expected = object(vec![
        ("from_block", Value::Null),
        ("to_block", object(vec![("block_number", Value::from(9u64))])),
        ("address", Value::Null),
        ("keys", Value::Array(vec![])),
        ("chunk_size", Value::from(1u64)),
    ]);
    check(get_events(filter), "starknet_getEvents", object(vec![("filter", expected)]));
}

#[test]
fn texts_of_a_call_are_escaped() {
    let data = vec!["0x1".to_string(), "a \"quoted\" \\ word\n".to_string()];
    let request = object(vec![
        ("contract_address", Value::from("0x5")),
        ("calldata", Value::Array(data.iter().map(|s| Value::from(s.as_str())).collect())),
        ("entry_point_selector", Value::from("sel\"ector")),
    ]);
    check(
        call(felt(5), data.clone(), "sel\"ector".to_string()),
        "starknet_call",
        object(vec![("request", request), ("block_id", Value::from("pre_confirmed"))]),
    );
}

#[test]
fn fees_are_estimated_before_the_block_of_the_transaction() {
    let transaction = object(vec![
        ("type", Value::from("INVOKE")),
        ("version", Value::from("0x1")),
        ("max_fee", Value::from("0x4")),
        ("signature", Value::Array(vec![])),
        ("nonce", Value::from("0x3")),
        ("sender_address", Value::from("0x1")),
        ("calldata", Value::Array(vec![Value::from("0x2"), Value::from("0x20")])),
    ]);
    check(
        estimate_fee_for_invoke(felt(1), vec![felt(2), felt(0x20)], felt(3), felt(4)),
        "starknet_estimateFee",
        object(vec![
            ("request", Value::Array(vec![transaction])),
            ("simulation_flags", Value::Array(vec![Value::from("SKIP_VALIDATE")])),
            ("block_id", object(vec![("block_number", Value::from(499999u64))])),
        ]),
    );
}
