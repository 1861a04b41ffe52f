//! Errors, metric labels, message statuses and connection limits of the JSON-RPC interface.
use std::sync::Arc;

use pathfinder::felt::Felt;
use pathfinder::pending::watcher::RpcVersion;
use pathfinder::rpc::compiler::PathfinderCompiler;
use pathfinder::rpc::error::{ApplicationError, ErrorData, RpcError};
use pathfinder::rpc::labels::{classify_block_target, classify_params, BlockTarget, Params};
use pathfinder::rpc::messages::{
    get_messages_status, input_from_params, parse_hash, FinalityStatus, Input, InputError,
    L1HandlerTransactionStatus, Output, TxStatus, TxnExecutionStatus, TxnHashNotFound,
};
use pathfinder::rpc::websocket::{WebsocketContext, WebsocketHistory};

#[test]
fn rpc_error_categories() {
    assert_eq!(RpcError::ParseError("x".into()).metric_label(), "parse_error");
    assert_eq!(RpcError::InvalidRequest("x".into()).metric_label(), "invalid_request");
    assert_eq!(RpcError::MethodNotFound.metric_label(), "method_not_found");
    assert_eq!(RpcError::InvalidParams("x".into()).metric_label(), "invalid_params");
    assert_eq!(RpcError::InternalError("x".into()).metric_label(), "internal_error");
    assert_eq!(
        RpcError::WebsocketSubscriptionClosed { subscription_id: 1, reason: "x".into() }
            .metric_label(),
        "ws_subscription_closed"
    );
}

#[test]
fn application_error_uses_variant_name() {
    assert_eq!(
        RpcError::ApplicationError(ApplicationError::BlockNotFound).metric_label(),
        "block_not_found"
    );
    assert_eq!(
        RpcError::ApplicationError(ApplicationError::ContractNotFound).metric_label(),
        "contract_not_found"
    );
}

#[test]
fn errors_have_the_codes_of_the_protocol() {
    let version = RpcVersion::V09;
    assert_eq!(RpcError::ParseError("x".into()).code(version), -32700);
    assert_eq!(RpcError::InvalidRequest("x".into()).code(version), -32600);
    assert_eq!(RpcError::MethodNotFound.code(version), -32601);
    assert_eq!(RpcError::InvalidParams("x".into()).code(version), -32602);
    assert_eq!(RpcError::InternalError("x".into()).code(version), -32603);
    assert_eq!(
        RpcError::WebsocketSubscriptionClosed { subscription_id: 1, reason: "x".into() }
            .code(version),
        -32099
    );
    assert_eq!(RpcError::from(ApplicationError::TxnHashNotFound).code(version), 29);
    assert_eq!(RpcError::from(ApplicationError::BlockNotFound).code(version), 24);
    assert_eq!(RpcError::from(ApplicationError::ContractNotFound).code(version), 20);
}

#[test]
fn an_error_object_tells_the_reason_but_not_of_internal_errors() {
    let object = RpcError::InvalidParams("why".into()).to_object(RpcVersion::V09);
    assert_eq!(object.code, -32602);
    assert_eq!(object.message, "Invalid params");
    assert!(matches!(object.data, Some(ErrorData::Reason { reason }) if reason == "why"));
    let object = RpcError::InternalError("secret".into()).to_object(RpcVersion::V09);
    assert_eq!(object.message, "Internal error");
    assert!(object.data.is_none());
    let reported = ApplicationError::Reported {
        code: 66,
        metric_label: "custom",
        message: "Custom".into(),
        data: Some("{}".into()),
    };
    let object = RpcError::from(reported).to_object(RpcVersion::V09);
    assert_eq!((object.code, object.message.as_str()), (66, "Custom"));
    assert!(matches!(object.data, Some(ErrorData::Json(json)) if json == "{}"));
    let closed = RpcError::WebsocketSubscriptionClosed { subscription_id: 3, reason: "r".into() };
    assert!(matches!(
        closed.data(RpcVersion::V09),
        Some(ErrorData::SubscriptionClosed { id: 3, reason }) if reason == "r"
    ));
}

#[test]
fn errors_are_equal_by_their_variants() {
    assert_eq!(RpcError::ParseError("a".into()), RpcError::ParseError("b".into()));
    assert_ne!(RpcError::ParseError("a".into()), RpcError::InvalidRequest("a".into()));
    assert_ne!(RpcError::InternalError("a".into()), RpcError::InternalError("b".into()));
    assert_eq!(RpcError::InternalError("a".into()), RpcError::InternalError("a".into()));
    assert_eq!(RpcError::MethodNotFound, RpcError::MethodNotFound);
}

#[test]
fn classifies_block_id_shapes() {
    let cases = [
        (r#"{"block_id":"latest"}"#, BlockTarget::Latest),
        (r#"{"block_id":"pending"}"#, BlockTarget::Pending),
        (r#"{"block_id":{"block_number":5}}"#, BlockTarget::ByNumber),
        (r#"{"block_id":{"block_hash":"0x1"}}"#, BlockTarget::ByHash),
        (r#"{"contract_address":"0x1"}"#, BlockTarget::NoBlock),
        (r#"{"block_id":"l1_accepted"}"#, BlockTarget::Unknown),
    ];
    for (json, expected) in cases {
        assert_eq!(classify_block_target(Some(json)), expected, "json: {json}");
    }
}

#[test]
fn absent_or_empty_params_are_none() {
    assert_eq!(classify_block_target(None), BlockTarget::NoBlock);
    assert_eq!(classify_block_target(Some("[]")), BlockTarget::NoBlock);
}

#[test]
fn non_empty_positional_params_are_unknown() {
    assert_eq!(classify_block_target(Some(r#"["latest","0x1"]"#)), BlockTarget::Unknown);
}

#[test]
fn other_params_are_unknown() {
    assert_eq!(classify_block_target(Some("5")), BlockTarget::Unknown);
    assert_eq!(classify_block_target(Some("{")), BlockTarget::Unknown);
    assert_eq!(classify_block_target(Some(r#"{"block_id":7}"#)), BlockTarget::Unknown);
    assert_eq!(classify_block_target(Some(r#"{"block_id":{"x":7}}"#)), BlockTarget::Unknown);
    assert_eq!(classify_params(&Params::Other), BlockTarget::Unknown);
    assert_eq!(BlockTarget::NoBlock.as_str(), "none");
    assert_eq!(BlockTarget::Latest.as_str(), "latest");
    assert_eq!(BlockTarget::ByHash.as_str(), "by_hash");
}

fn hash_0x1234() -> Vec<u8> {
    let mut hash = vec![0u8; 32];
    hash[30] = 0x12;
    hash[31] = 0x34;
    hash
}

#[test]
fn positional_args() {
    let input = Input::deserialize(r#"["0x1234"]"#).unwrap();
    assert_eq!(input, Input { transaction_hash: hash_0x1234() });
}

#[test]
fn named_args() {
    let input = Input::deserialize(r#"{"transaction_hash": "0x1234"}"#).unwrap();
    assert_eq!(input, Input { transaction_hash: hash_0x1234() });
}

#[test]
fn malformed_inputs_are_refused() {
    assert_eq!(Input::deserialize("7"), Err(InputError::NotParams));
    assert_eq!(Input::deserialize("["), Err(InputError::NotParams));
    assert_eq!(Input::deserialize("[]"), Err(InputError::MissingHash));
    assert_eq!(Input::deserialize("{}"), Err(InputError::MissingHash));
    assert_eq!(Input::deserialize(r#"["0x12g4"]"#), Err(InputError::InvalidHash));
    assert_eq!(Input::deserialize("[12]"), Err(InputError::InvalidHash));
    assert_eq!(input_from_params(&Params::Other), Err(InputError::NotParams));
    assert_eq!(parse_hash("0x"), None);
    assert_eq!(parse_hash("1234"), None);
    assert_eq!(parse_hash(&format!("0x{}", "f".repeat(65))), None);
    assert_eq!(parse_hash(&format!("0x{}", "f".repeat(64))), Some(vec![0xff; 32]));
}

#[test]
fn finality_status_serialization() {
    assert_eq!(FinalityStatus::Received.as_str(), "RECEIVED");
    assert_eq!(FinalityStatus::PreConfirmed.as_str(), "PRE_CONFIRMED");
    assert_eq!(FinalityStatus::AcceptedOnL2.as_str(), "ACCEPTED_ON_L2");
    assert_eq!(FinalityStatus::AcceptedOnL1.as_str(), "ACCEPTED_ON_L1");
}

fn fields(status: &L1HandlerTransactionStatus) -> Vec<(&'static str, String)> {
    status.fields()
}

fn expected(list: &[(&'static str, &str)]) -> Vec<(&'static str, String)> {
    list.iter().map(|(name, value)| (*name, value.to_string())).collect()
}

#[test]
fn output_serialization_v09_includes_execution_status_and_revert_reason() {
    let output = Output(vec![L1HandlerTransactionStatus {
        transaction_hash: Felt::from_u64(0x1234),
        finality_status: FinalityStatus::AcceptedOnL2,
        execution_status: Some(TxnExecutionStatus::Reverted {
            reason: Some("l1 handler reverted".to_owned()),
        }),
        failure_reason: Some("l1 handler reverted".to_owned()),
    }]);
    assert_eq!(output.0.len(), 1);
    assert_eq!(
        fields(&output.0[0]),
        expected(&[
            ("transaction_hash", "0x1234"),
            ("finality_status", "ACCEPTED_ON_L2"),
            ("execution_status", "REVERTED"),
            ("failure_reason", "l1 handler reverted"),
        ])
    );
}

#[test]
fn output_serialization_v09_omits_absent_failure_reason() {
    let output = Output(vec![L1HandlerTransactionStatus {
        transaction_hash: Felt::from_u64(0x1234),
        finality_status: FinalityStatus::AcceptedOnL1,
        execution_status: Some(TxnExecutionStatus::Succeeded),
        failure_reason: None,
    }]);
    assert_eq!(output.0.len(), 1);
    assert_eq!(
        fields(&output.0[0]),
        expected(&[
            ("transaction_hash", "0x1234"),
            ("finality_status", "ACCEPTED_ON_L1"),
            ("execution_status", "SUCCEEDED"),
        ])
    );
}

fn hex_felt(text: &str) -> Felt {
    Felt::from_be_slice(&parse_hash(text).unwrap()).unwrap()
}

#[test]
fn get_messages_status_happy_path_differs_by_rpc_version() {
    let accepted = "0x5fbdcde319efbd314396a673e2883c9e32b4e5240af54e4433e1bdcd53edf8";
    let reverted = "0x4dc69e578dfe0792b2f87c060a973bfca28d2a4d76f68dc4a76fbaf031fd3e7";
    let output = get_messages_status(&vec![
        (hex_felt(accepted), Some(TxStatus::AcceptedOnL1(TxnExecutionStatus::Succeeded))),
        (
            hex_felt(reverted),
            Some(TxStatus::AcceptedOnL2(TxnExecutionStatus::Reverted {
                reason: Some("l1 handler reverted".to_owned()),
            })),
        ),
    ])
    .unwrap();
    assert_eq!(output.0.len(), 2);
    assert_eq!(
        fields(&output.0[0]),
        expected(&[
            ("transaction_hash", accepted),
            ("finality_status", "ACCEPTED_ON_L1"),
            ("execution_status", "SUCCEEDED"),
        ])
    );
    assert_eq!(
        fields(&output.0[1]),
        expected(&[
            ("transaction_hash", reverted),
            ("finality_status", "ACCEPTED_ON_L2"),
            ("execution_status", "REVERTED"),
            ("failure_reason", "l1 handler reverted"),
        ])
    );
}

#[test]
fn received_messages_are_passed_over_and_unknown_ones_refused() {
    let output = get_messages_status(&vec![
        (Felt::from_u64(1), Some(TxStatus::Received)),
        (Felt::from_u64(2), Some(TxStatus::PreConfirmed(TxnExecutionStatus::Succeeded))),
    ])
    .unwrap();
    assert_eq!(output.0.len(), 1);
    assert_eq!(output.0[0].transaction_hash, Felt::from_u64(2));
    assert_eq!(output.0[0].finality_status, FinalityStatus::PreConfirmed);
    assert!(matches!(
        get_messages_status(&vec![(Felt::from_u64(1), None)]),
        Err(TxnHashNotFound)
    ));
}

#[test]
fn connections_are_limited() {
    let mut context = WebsocketContext::for_test(WebsocketHistory::Limited(2));
    context.connection_limit = Arc::new(tokio::sync::Semaphore::new(2));
    let copy = context.copy();
    let first = context.try_acquire_connection().unwrap();
    let _second = copy.try_acquire_connection().unwrap();
    assert!(context.try_acquire_connection().is_none());
    assert!(copy.try_acquire_connection().is_none());
    drop(first);
    assert!(copy.try_acquire_connection().is_some());
}

#[test]
fn websocket_defaults() {
    let context = WebsocketContext::default();
    assert_eq!(context.max_history, WebsocketHistory::Limited(1024));
    assert_eq!(context.max_subscriptions, 1024);
    assert_eq!(context.subscription_max_size, 1024 * 1024);
    assert_eq!(context.send_timeout, 1000);
    assert_eq!(context.initial_frame_timeout, 30000);
    assert_eq!(context.ping_interval, 30000);
    assert_eq!(context.max_missed_pings, 2);
    assert_eq!(context.connection_limit.available_permits(), 1024);
    let context = WebsocketContext::for_test(WebsocketHistory::Unlimited);
    assert_eq!(context.max_history, WebsocketHistory::Unlimited);
    assert_eq!(context.send_timeout, 100);
    assert_eq!(context.connection_limit.available_permits(), 1024);
}

#[test]
fn compiling_returns_what_the_compiler_gives() {
    let compiler = PathfinderCompiler::new(1, 2usize, 9u8);
    let repeat = |bytes: &Vec<u8>, times: usize, end: u8| -> Result<Vec<u8>, String> {
        if bytes.is_empty() {
            Err("empty".to_string())
        } else {
            Ok([bytes.repeat(times).as_slice(), &[end]].concat())
        }
    };
    let sierra = vec![1, 2];
    assert_eq!(compiler.compile_sierra_to_casm(&sierra, repeat), Ok(vec![1, 2, 1, 2, 9]));
    // The permit was given back.
    let shared = compiler.copy();
    assert_eq!(shared.compile_sierra_to_casm(&vec![], repeat), Err("empty".to_string()));
}
