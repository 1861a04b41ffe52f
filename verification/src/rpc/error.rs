//! The errors of the JSON-RPC interface.
use vstd::prelude::*;
use vstd::std_specs::cmp::PartialEqSpec;
use vstd::string::*;

use crate::pending::watcher::RpcVersion;

verus! {

/// What an error tells beside its code and message.
#[derive(Debug)]
pub enum ErrorData {
    Reason { reason: String },
    SubscriptionClosed { id: u32, reason: String },
    /// Data of an application error, as JSON text.
    Json(String),
}

/// An error of the application, under its code.
#[derive(Debug)]
pub enum ApplicationError {
    BlockNotFound,
    ContractNotFound,
    TxnHashNotFound,
    /// Any other, with what it reports of itself.
    Reported { code: i32, metric_label: &'static str, message: String, data: Option<String> },
}

/// The code of an application error.
pub open spec fn application_code(e: ApplicationError) -> int {
    match e {
        ApplicationError::BlockNotFound => 24,
        ApplicationError::ContractNotFound => 20,
        ApplicationError::TxnHashNotFound => 29,
        ApplicationError::Reported { code, .. } => code as int,
    }
}

/// The label of an application error: the name of its variant.
pub open spec fn application_label(e: ApplicationError) -> Seq<char> {
    match e {
        ApplicationError::BlockNotFound => "block_not_found"@,
        ApplicationError::ContractNotFound => "contract_not_found"@,
        ApplicationError::TxnHashNotFound => "txn_hash_not_found"@,
        ApplicationError::Reported { metric_label, .. } => metric_label@,
    }
}

/// The message of an application error.
pub open spec fn application_message(e: ApplicationError) -> Seq<char> {
    match e {
        ApplicationError::BlockNotFound => "Block not found"@,
        ApplicationError::ContractNotFound => "Contract not found"@,
        ApplicationError::TxnHashNotFound => "Transaction hash not found"@,
        ApplicationError::Reported { message, .. } => message@,
    }
}

impl ApplicationError {
    pub fn code(&self, version: RpcVersion) -> (r: i32)
        ensures
            r == application_code(*self),
    {
        match self {
            ApplicationError::BlockNotFound => 24,
            ApplicationError::ContractNotFound => 20,
            ApplicationError::TxnHashNotFound => 29,
            ApplicationError::Reported { code, .. } => *code,
        }
    }

    pub fn metric_label(&self) -> (r: &'static str)
        ensures
            r@ == application_label(*self),
    {
        match self {
            ApplicationError::BlockNotFound => "block_not_found",
            ApplicationError::ContractNotFound => "contract_not_found",
            ApplicationError::TxnHashNotFound => "txn_hash_not_found",
            ApplicationError::Reported { metric_label, .. } => metric_label,
        }
    }

    pub fn message(&self, version: RpcVersion) -> (r: &str)
        ensures
            r@ == application_message(*self),
    {
        match self {
            ApplicationError::BlockNotFound => "Block not found",
            ApplicationError::ContractNotFound => "Contract not found",
            ApplicationError::TxnHashNotFound => "Transaction hash not found",
            ApplicationError::Reported { message, .. } => message.as_str(),
        }
    }
}

/// Why a request fails.
#[derive(Debug)]
pub enum RpcError {
    ParseError(String),
    InvalidRequest(String),
    MethodNotFound,
    InvalidParams(String),
    /// An error inside the node, with its text.
    InternalError(String),
    ApplicationError(ApplicationError),
    WebsocketSubscriptionClosed { subscription_id: u32, reason: String },
}

/// The code of an error, as the JSON-RPC specification gives it.
pub open spec fn rpc_code(e: RpcError) -> int {
    match e {
        RpcError::ParseError(_) => -32700,
        RpcError::InvalidRequest(_) => -32600,
        RpcError::MethodNotFound => -32601,
        RpcError::InvalidParams(_) => -32602,
        RpcError::InternalError(_) => -32603,
        RpcError::ApplicationError(a) => application_code(a),
        RpcError::WebsocketSubscriptionClosed { .. } => -32099,
    }
}

/// The label of an error.
pub open spec fn rpc_label(e: RpcError) -> Seq<char> {
    match e {
        RpcError::ParseError(_) => "parse_error"@,
        RpcError::InvalidRequest(_) => "invalid_request"@,
        RpcError::MethodNotFound => "method_not_found"@,
        RpcError::InvalidParams(_) => "invalid_params"@,
        RpcError::InternalError(_) => "internal_error"@,
        RpcError::ApplicationError(a) => application_label(a),
        RpcError::WebsocketSubscriptionClosed { .. } => "ws_subscription_closed"@,
    }
}

/// The message of an error.
pub open spec fn rpc_message(e: RpcError) -> Seq<char> {
    match e {
        RpcError::ParseError(_) => "Parse error"@,
        RpcError::InvalidRequest(_) => "Invalid request"@,
        RpcError::MethodNotFound => "Method not found"@,
        RpcError::InvalidParams(_) => "Invalid params"@,
        RpcError::InternalError(_) => "Internal error"@,
        RpcError::ApplicationError(a) => application_message(a),
        RpcError::WebsocketSubscriptionClosed { .. } => "Websocket subscription closed"@,
    }
}

/// What an error tells beside its code and message: an internal error tells nothing.
pub open spec fn rpc_data(e: RpcError) -> Option<ErrorData> {
    match e {
        RpcError::ParseError(reason) | RpcError::InvalidRequest(reason)
        | RpcError::InvalidParams(reason) => Some(ErrorData::Reason { reason }),
        RpcError::MethodNotFound => None,
        RpcError::InternalError(_) => None,
        RpcError::ApplicationError(a) => match a {
            ApplicationError::Reported { data: Some(json), .. } => Some(ErrorData::Json(json)),
            _ => None,
        },
        RpcError::WebsocketSubscriptionClosed { subscription_id, reason } => Some(
            ErrorData::SubscriptionClosed { id: subscription_id, reason },
        ),
    }
}

/// The error as it goes into a response.
#[derive(Debug)]
pub struct ErrorObject {
    pub code: i32,
    pub message: String,
    pub data: Option<ErrorData>,
}

impl RpcError {
    pub fn code(&self, version: RpcVersion) -> (r: i32)
        ensures
            r == rpc_code(*self),
    {
        match self {
            RpcError::ParseError(..) => -32700,
            RpcError::InvalidRequest(..) => -32600,
            RpcError::MethodNotFound => -32601,
            RpcError::InvalidParams(..) => -32602,
            RpcError::InternalError(_) => -32603,
            RpcError::ApplicationError(err) => err.code(version),
            RpcError::WebsocketSubscriptionClosed { .. } => -32099,
        }
    }

    /// Stable, low-cardinality label for the `error_kind` metric dimension.
    pub fn metric_label(&self) -> (r: &'static str)
        ensures
            r@ == rpc_label(*self),
    {
        match self {
            RpcError::ParseError(_) => "parse_error",
            RpcError::InvalidRequest(_) => "invalid_request",
            RpcError::MethodNotFound => "method_not_found",
            RpcError::InvalidParams(_) => "invalid_params",
            RpcError::InternalError(_) => "internal_error",
            RpcError::ApplicationError(e) => e.metric_label(),
            RpcError::WebsocketSubscriptionClosed { .. } => "ws_subscription_closed",
        }
    }

    pub fn message(&self, version: RpcVersion) -> (r: &str)
        ensures
            r@ == rpc_message(*self),
    {
        match self {
            RpcError::ParseError(..) => "Parse error",
            RpcError::InvalidRequest(..) => "Invalid request",
            RpcError::MethodNotFound => "Method not found",
            RpcError::InvalidParams(..) => "Invalid params",
            RpcError::InternalError(_) => "Internal error",
            RpcError::ApplicationError(e) => e.message(version),
            RpcError::WebsocketSubscriptionClosed { .. } => "Websocket subscription closed",
        }
    }

    pub fn data(&self, version: RpcVersion) -> (r: Option<ErrorData>)
        ensures
            r == rpc_data(*self),
    {
        match self {
            RpcError::WebsocketSubscriptionClosed { subscription_id, reason } => Some(
                ErrorData::SubscriptionClosed { id: *subscription_id, reason: reason.clone() },
            ),
            RpcError::ApplicationError(e) => match e {
                ApplicationError::Reported { data: Some(json), .. } => Some(
                    ErrorData::Json(json.clone()),
                ),
                _ => None,
            },
            RpcError::InternalError(_) => None,
            RpcError::MethodNotFound => None,
            RpcError::ParseError(e) => Some(ErrorData::Reason { reason: e.clone() }),
            RpcError::InvalidRequest(e) => Some(ErrorData::Reason { reason: e.clone() }),
            RpcError::InvalidParams(e) => Some(ErrorData::Reason { reason: e.clone() }),
        }
    }

    /// The error as it goes into a response.
    pub fn to_object(&self, version: RpcVersion) -> (r: ErrorObject)
        ensures
            r.code == rpc_code(*self),
            r.message@ == rpc_message(*self),
            r.data == rpc_data(*self),
    {
        ErrorObject {
            code: self.code(version),
            message: String::from_str(self.message(version)),
            data: self.data(version),
        }
    }
}

impl PartialEq for RpcError {
    fn eq(&self, other: &Self) -> (r: bool) {
        match (self, other) {
            (RpcError::InternalError(a), RpcError::InternalError(b)) => *a == *b,
            (RpcError::ParseError(_), RpcError::ParseError(_)) => true,
            (RpcError::InvalidRequest(_), RpcError::InvalidRequest(_)) => true,
            (RpcError::MethodNotFound, RpcError::MethodNotFound) => true,
            (RpcError::InvalidParams(_), RpcError::InvalidParams(_)) => true,
            (RpcError::ApplicationError(_), RpcError::ApplicationError(_)) => true,
            (
                RpcError::WebsocketSubscriptionClosed { .. },
                RpcError::WebsocketSubscriptionClosed { .. },
            ) => true,
            _ => false,
        }
    }
}

impl vstd::std_specs::cmp::PartialEqSpecImpl for RpcError {
    open spec fn obeys_eq_spec() -> bool {
        true
    }

    /// Internal errors are compared by their texts, all others by their variants alone.
    open spec fn eq_spec(&self, other: &Self) -> bool {
        match (*self, *other) {
            (RpcError::InternalError(a), RpcError::InternalError(b)) => a@ == b@,
            (RpcError::ParseError(_), RpcError::ParseError(_)) => true,
            (RpcError::InvalidRequest(_), RpcError::InvalidRequest(_)) => true,
            (RpcError::MethodNotFound, RpcError::MethodNotFound) => true,
            (RpcError::InvalidParams(_), RpcError::InvalidParams(_)) => true,
            (RpcError::ApplicationError(_), RpcError::ApplicationError(_)) => true,
            (
                RpcError::WebsocketSubscriptionClosed { .. },
                RpcError::WebsocketSubscriptionClosed { .. },
            ) => true,
            _ => false,
        }
    }
}

impl From<ApplicationError> for RpcError {
    fn from(value: ApplicationError) -> (r: Self) {
        RpcError::ApplicationError(value)
    }
}

impl vstd::std_specs::convert::FromSpecImpl<ApplicationError> for RpcError {
    open spec fn obeys_from_spec() -> bool {
        true
    }

    open spec fn from_spec(value: ApplicationError) -> Self {
        RpcError::ApplicationError(value)
    }
}

/// Errors that are equal have one label and, unless they come from the application, one code and
/// message.
pub proof fn law_equal_errors_look_alike(a: RpcError, b: RpcError)
    requires
        a.eq_spec(&b),
        !(a is ApplicationError),
    ensures
        rpc_label(a) == rpc_label(b),
        rpc_code(a) == rpc_code(b),
        rpc_message(a) == rpc_message(b),
{
}

/// Errors of one kind are equal, whatever they say, but for internal ones, which are equal where
/// they say the same; errors of different kinds are not. Every error equals itself, and equality
/// goes both ways.
pub proof fn law_errors_are_equal_by_kind(a: RpcError, b: RpcError)
    ensures
        a.eq_spec(&a),
        a.eq_spec(&b) <==> b.eq_spec(&a),
        a is ParseError ==> (a.eq_spec(&b) <==> b is ParseError),
        a is InvalidRequest ==> (a.eq_spec(&b) <==> b is InvalidRequest),
        a is MethodNotFound ==> (a.eq_spec(&b) <==> b is MethodNotFound),
        a is InvalidParams ==> (a.eq_spec(&b) <==> b is InvalidParams),
        a is ApplicationError ==> (a.eq_spec(&b) <==> b is ApplicationError),
        a is WebsocketSubscriptionClosed ==> (a.eq_spec(&b) <==> b is WebsocketSubscriptionClosed),
        a matches RpcError::InternalError(x) ==> (a.eq_spec(&b) <==> (b matches RpcError::InternalError(
            y,
        ) && x@ == y@)),
{
}

} // verus!
