//! What requests, errors and statuses are read and written as.
use vstd::prelude::*;

use crate::felt::Felt;
use crate::rpc::error::{
    application_code, application_label, application_message, rpc_code, rpc_data, rpc_label,
    rpc_message, ApplicationError, ErrorData, RpcError,
};
use crate::rpc::labels::{
    lemma_param_found, lemma_param_missing, target_of, ParamShape, ParamsShape,
};
use crate::rpc::messages::{
    finality_name, hash_bytes, hash_digit, hash_of_params, hex_value, is_hash_text, status_fields,
    FinalityStatus, InputError, L1HandlerTransactionStatus,
};
use crate::text::{halves, hex_digit, lemma_trimmed_digits, lower_hex_digit, short_hex, trimmed};

verus! {

/// The first field named `block_id` tells the target of a request with named parameters: by its
/// text, or by the names of its own fields, of which that of a number comes before that of a hash.
pub proof fn law_block_id_tells_the_target(fields: Seq<(Seq<char>, ParamShape)>, i: int)
    requires
        0 <= i < fields.len(),
        fields[i].0 == "block_id"@,
        forall|j: int| 0 <= j < i ==> (#[trigger] fields[j]).0 != "block_id"@,
    ensures
        ({
            let target = target_of(ParamsShape::Named(fields));
            let id = fields[i].1;
            &&& target is Latest <==> id == ParamShape::Text("latest"@)
            &&& target is Pending <==> id == ParamShape::Text("pending"@)
            &&& target is ByNumber <==> (id matches ParamShape::Fields(f) && f.contains(
                "block_number"@,
            ))
            &&& target is ByHash <==> (id matches ParamShape::Fields(f) && f.contains(
                "block_hash"@,
            ) && !f.contains("block_number"@))
            &&& target !is NoBlock
        }),
{
    lemma_param_found(fields, "block_id"@, i);
    reveal_strlit("latest");
    reveal_strlit("pending");
    assert("latest"@.len() != "pending"@.len());
}

/// A request carries no block exactly where it has no positional parameters, or no `block_id` among
/// its named ones. Positional parameters do not tell the target.
pub proof fn law_requests_without_a_block(params: ParamsShape)
    ensures
        target_of(params) is NoBlock <==> match params {
            ParamsShape::List(items) => items.len() == 0,
            ParamsShape::Named(fields) => forall|j: int|
                0 <= j < fields.len() ==> (#[trigger] fields[j]).0 != "block_id"@,
            ParamsShape::Other => false,
        },
        params is List || params is Other ==> target_of(params) is NoBlock || target_of(
            params,
        ) is Unknown,
{
    if let ParamsShape::Named(fields) = params {
        if forall|j: int| 0 <= j < fields.len() ==> (#[trigger] fields[j]).0 != "block_id"@ {
            lemma_param_missing(fields, "block_id"@);
        } else {
            let k = choose|k: int| 0 <= k < fields.len() && (#[trigger] fields[k]).0 == "block_id"@;
            let i = lemma_first_named(fields, "block_id"@, k);
            law_block_id_tells_the_target(fields, i);
        }
    }
}

/// Where a parameter has a name, there is a first one that does.
proof fn lemma_first_named(fields: Seq<(Seq<char>, ParamShape)>, name: Seq<char>, k: int) -> (i: int)
    requires
        0 <= k < fields.len(),
        fields[k].0 == name,
    ensures
        0 <= i < fields.len(),
        fields[i].0 == name,
        forall|j: int| 0 <= j < i ==> (#[trigger] fields[j]).0 != name,
    decreases k,
{
    if exists|j: int| 0 <= j < k && (#[trigger] fields[j]).0 == name {
        let j = choose|j: int| 0 <= j < k && (#[trigger] fields[j]).0 == name;
        lemma_first_named(fields, name, j)
    } else {
        k
    }
}

/// Two errors of the interface itself have one code, one label or one message exactly where they
/// are of one kind. Their codes are in the range that JSON-RPC reserves.
pub proof fn law_errors_are_told_apart(a: RpcError, b: RpcError)
    requires
        !(a is ApplicationError),
        !(b is ApplicationError),
    ensures
        -32768 <= rpc_code(a) <= -32000,
        ({
            let alike = match a {
                RpcError::ParseError(_) => b is ParseError,
                RpcError::InvalidRequest(_) => b is InvalidRequest,
                RpcError::MethodNotFound => b is MethodNotFound,
                RpcError::InvalidParams(_) => b is InvalidParams,
                RpcError::InternalError(_) => b is InternalError,
                RpcError::ApplicationError(_) => b is ApplicationError,
                RpcError::WebsocketSubscriptionClosed { .. } => b is WebsocketSubscriptionClosed,
            };
            &&& rpc_code(a) == rpc_code(b) <==> alike
            &&& rpc_label(a) == rpc_label(b) <==> alike
            &&& rpc_message(a) == rpc_message(b) <==> alike
        }),
{
    reveal_strlit("parse_error");
    reveal_strlit("invalid_request");
    reveal_strlit("method_not_found");
    reveal_strlit("invalid_params");
    reveal_strlit("internal_error");
    reveal_strlit("ws_subscription_closed");
    reveal_strlit("Parse error");
    reveal_strlit("Invalid request");
    reveal_strlit("Method not found");
    reveal_strlit("Invalid params");
    reveal_strlit("Internal error");
    reveal_strlit("Websocket subscription closed");
    assert("parse_error"@.len() == 11);
    assert("invalid_request"@.len() == 15);
    assert("method_not_found"@.len() == 16);
    assert("invalid_params"@.len() == 14);
    assert("internal_error"@.len() == 14);
    assert("ws_subscription_closed"@.len() == 22);
    assert("Parse error"@.len() == 11);
    assert("Invalid request"@.len() == 15);
    assert("Method not found"@.len() == 16);
    assert("Invalid params"@.len() == 14);
    assert("Internal error"@.len() == 14);
    assert("Websocket subscription closed"@.len() == 29);
    assert("invalid_params"@[2] != "internal_error"@[2]);
    assert("Invalid params"@[2] != "Internal error"@[2]);
}

/// An error of the application keeps its own code, label and message, and the data that it reports;
/// named ones report no data, and are told apart by their codes, labels and messages.
pub proof fn law_application_errors_speak_for_themselves(a: ApplicationError, b: ApplicationError)
    ensures
        rpc_code(RpcError::ApplicationError(a)) == application_code(a),
        rpc_label(RpcError::ApplicationError(a)) == application_label(a),
        rpc_message(RpcError::ApplicationError(a)) == application_message(a),
        a matches ApplicationError::Reported { code, metric_label, message, data } ==> {
            &&& application_code(a) == code
            &&& application_label(a) == metric_label@
            &&& application_message(a) == message@
            &&& rpc_data(RpcError::ApplicationError(a)) == (match data {
                Some(json) => Some(ErrorData::Json(json)),
                None => None,
            })
        },
        !(a is Reported) ==> rpc_data(RpcError::ApplicationError(a)) is None,
        !(a is Reported) && !(b is Reported) ==> {
            &&& application_code(a) == application_code(b) <==> a == b
            &&& application_label(a) == application_label(b) <==> a == b
            &&& application_message(a) == application_message(b) <==> a == b
            &&& 0 < application_code(a)
        },
{
    reveal_strlit("block_not_found");
    reveal_strlit("contract_not_found");
    reveal_strlit("txn_hash_not_found");
    reveal_strlit("Block not found");
    reveal_strlit("Contract not found");
    reveal_strlit("Transaction hash not found");
    assert("contract_not_found"@[0] != "txn_hash_not_found"@[0]);
    assert("block_not_found"@.len() == 15);
    assert("contract_not_found"@.len() == 18);
    assert("Block not found"@.len() == 15);
    assert("Contract not found"@.len() == 18);
    assert("Transaction hash not found"@.len() == 26);
}

/// An error about a request passes on the reason given, a closed subscription its identifier and
/// reason. What goes wrong inside the node is not told: two internal errors look the same from
/// outside.
pub proof fn law_reasons_are_passed_on(text: String, other: String, id: u32)
    ensures
        rpc_data(RpcError::ParseError(text)) == Some(ErrorData::Reason { reason: text }),
        rpc_data(RpcError::InvalidRequest(text)) == Some(ErrorData::Reason { reason: text }),
        rpc_data(RpcError::InvalidParams(text)) == Some(ErrorData::Reason { reason: text }),
        rpc_data(RpcError::WebsocketSubscriptionClosed { subscription_id: id, reason: text }) == Some(
            ErrorData::SubscriptionClosed { id, reason: text },
        ),
        rpc_data(RpcError::InternalError(text)) is None,
        rpc_message(RpcError::InternalError(text)) == rpc_message(RpcError::InternalError(other)),
        rpc_data(RpcError::MethodNotFound) is None,
{
}

/// Every digit is read as its value, in either case.
pub proof fn law_digits_have_their_values(d: nat)
    requires
        d < 16,
    ensures
        hex_value(lower_hex_digit(d)) == Some(d as u8),
        hex_value(hex_digit(d)) == Some(d as u8),
{
}

/// A hash that is written in hexadecimal is read back as it was.
pub proof fn law_written_hash_is_read(bytes: Seq<u8>)
    requires
        bytes.len() == 32,
    ensures
        is_hash_text(short_hex(bytes)),
        hash_bytes(short_hex(bytes)) == bytes,
{
    let digits = halves(bytes);
    let shown = trimmed(digits);
    let s = short_hex(bytes);
    reveal_strlit("0x");
    lemma_trimmed_digits(digits);
    lemma_trimmed_tail(digits);
    assert(s.len() == shown.len() + 2);
    assert forall|i: int| 2 <= i < s.len() implies hex_value(#[trigger] s[i]) == Some(
        shown[i - 2],
    ) by {
        assert(s[i] == lower_hex_digit(shown[i - 2] as nat));
        law_digits_have_their_values(shown[i - 2] as nat);
    }
    let dropped = 64 - shown.len();
    assert forall|p: int| 0 <= p < 64 implies #[trigger] hash_digit(s, p) == digits[p] by {
        if p >= dropped {
            assert(hex_value(s[p - dropped + 2]) == Some(shown[p - dropped]));
        }
    }
    assert forall|i: int| 0 <= i < 32 implies hash_bytes(s)[i] == bytes[i] by {
        assert(hash_digit(s, 2 * i) == digits[2 * i]);
        assert(hash_digit(s, 2 * i + 1) == digits[2 * i + 1]);
        assert((2 * i) / 2 == i && (2 * i + 1) / 2 == i);
        assert((2 * i) % 2 == 0 && (2 * i + 1) % 2 == 1);
    }
    assert(hash_bytes(s) =~= bytes);
}

/// What is left of digits is their end, behind zeros only.
proof fn lemma_trimmed_tail(digits: Seq<u8>)
    requires
        digits.len() > 0,
    ensures
        0 < trimmed(digits).len() <= digits.len(),
        forall|i: int|
            0 <= i < trimmed(digits).len() ==> #[trigger] trimmed(digits)[i] == digits[i
                + digits.len() - trimmed(digits).len()],
        forall|i: int|
            0 <= i < digits.len() - trimmed(digits).len() ==> #[trigger] digits[i] == 0,
    decreases digits.len(),
{
    if digits.len() > 1 && digits[0] == 0 {
        let rest = digits.subrange(1, digits.len() as int);
        lemma_trimmed_tail(rest);
        let n = trimmed(rest).len();
        assert forall|i: int| 0 <= i < n implies #[trigger] trimmed(digits)[i] == digits[i
            + digits.len() - n] by {
            assert(trimmed(rest)[i] == rest[i + rest.len() - n]);
        }
        assert forall|i: int| 0 <= i < digits.len() - n implies #[trigger] digits[i] == 0 by {
            if i > 0 {
                assert(rest[i - 1] == 0);
            }
        }
    }
}

/// Zeros in front of the digits do not change the hash, nor does the case in which digits are
/// written.
pub proof fn law_hash_text_may_be_padded(s: Seq<char>, t: Seq<char>)
    requires
        is_hash_text(s),
    ensures
        s.len() < 66 ==> is_hash_text(s.insert(2, '0')) && hash_bytes(s.insert(2, '0'))
            == hash_bytes(s),
        t.len() == s.len() && t[0] == s[0] && t[1] == s[1] && (forall|i: int|
            2 <= i < s.len() ==> hex_value(#[trigger] t[i]) == hex_value(s[i])) ==> is_hash_text(t)
            && hash_bytes(t) == hash_bytes(s),
{
    if s.len() < 66 {
        let padded = s.insert(2, '0');
        assert(forall|i: int|
            2 <= i < padded.len() ==> #[trigger] padded[i] == (if i == 2 {
                '0'
            } else {
                s[i - 1]
            }));
        assert forall|p: int| 0 <= p < 64 implies #[trigger] hash_digit(padded, p) == hash_digit(
            s,
            p,
        ) by {
            let at = p - (66 - padded.len());
            if at > 0 {
                assert(padded[at + 2] == s[at + 1]);
            }
        }
        assert(hash_bytes(padded) =~= hash_bytes(s));
    }
    if t.len() == s.len() && t[0] == s[0] && t[1] == s[1] && (forall|i: int|
        2 <= i < s.len() ==> hex_value(#[trigger] t[i]) == hex_value(s[i])) {
        assert forall|i: int| 2 <= i < t.len() implies hex_value(#[trigger] t[i]) is Some by {
            assert(hex_value(s[i]) is Some);
        }
        assert forall|p: int| 0 <= p < 64 implies #[trigger] hash_digit(t, p) == hash_digit(s, p) by {
            let at = p - (66 - s.len());
            if at >= 0 {
                assert(hex_value(t[at + 2]) == hex_value(s[at + 2]));
            }
        }
        assert(hash_bytes(t) =~= hash_bytes(s));
    }
}

/// A text is no hash where it is empty but for `0x`, has more than 64 digits, does not start with
/// `0x`, or has something else than a digit in it.
pub proof fn law_other_texts_are_no_hash(s: Seq<char>, i: int)
    ensures
        s.len() < 3 || s.len() > 66 ==> !is_hash_text(s),
        s.len() >= 2 && (s[0] != '0' || s[1] != 'x') ==> !is_hash_text(s),
        2 <= i < s.len() && hex_value(s[i]) is None ==> !is_hash_text(s),
{
}

/// A hash may be given by position or by name, and is read in the same way; the other parameters do
/// not matter.
pub proof fn law_hash_is_given_by_position_or_name(
    items: Seq<ParamShape>,
    fields: Seq<(Seq<char>, ParamShape)>,
    i: int,
)
    requires
        items.len() > 0,
        0 <= i < fields.len(),
        fields[i] == ("transaction_hash"@, items[0]),
        forall|j: int| 0 <= j < i ==> (#[trigger] fields[j]).0 != "transaction_hash"@,
    ensures
        hash_of_params(ParamsShape::List(items)) == hash_of_params(ParamsShape::Named(fields)),
        hash_of_params(ParamsShape::List(items)) is Ok <==> (items[0] matches ParamShape::Text(s)
            && is_hash_text(s)),
        items[0] matches ParamShape::Text(s) ==> is_hash_text(s) ==> hash_of_params(
            ParamsShape::List(items),
        ) == Ok::<Seq<u8>, InputError>(hash_bytes(s)),
        hash_of_params(ParamsShape::List(items)) is Err ==> hash_of_params(ParamsShape::List(items))
            == Err::<Seq<u8>, InputError>(InputError::InvalidHash),
{
    lemma_param_found(fields, "transaction_hash"@, i);
}

/// Without a hash among them, parameters are refused as lacking it; what is no parameters, as such.
pub proof fn law_missing_hash_is_reported(fields: Seq<(Seq<char>, ParamShape)>)
    requires
        forall|j: int| 0 <= j < fields.len() ==> (#[trigger] fields[j]).0 != "transaction_hash"@,
    ensures
        hash_of_params(ParamsShape::Named(fields)) == Err::<Seq<u8>, InputError>(
            InputError::MissingHash,
        ),
        hash_of_params(ParamsShape::List(Seq::empty())) == Err::<Seq<u8>, InputError>(
            InputError::MissingHash,
        ),
        hash_of_params(ParamsShape::Other) == Err::<Seq<u8>, InputError>(InputError::NotParams),
{
    lemma_param_missing(fields, "transaction_hash"@);
}

/// Names of different finality statuses differ.
pub proof fn law_finality_names_differ(a: FinalityStatus, b: FinalityStatus)
    ensures
        finality_name(a) == finality_name(b) <==> a == b,
{
    reveal_strlit("RECEIVED");
    reveal_strlit("PRE_CONFIRMED");
    reveal_strlit("ACCEPTED_ON_L2");
    reveal_strlit("ACCEPTED_ON_L1");
    assert("RECEIVED"@.len() == 8);
    assert("PRE_CONFIRMED"@.len() == 13);
    assert("ACCEPTED_ON_L2"@.len() == 14);
    assert("ACCEPTED_ON_L1"@.len() == 14);
    assert("ACCEPTED_ON_L2"@[13] != "ACCEPTED_ON_L1"@[13]);
}

/// The fields of a status tell it: those of two statuses are the same only where the statuses agree
/// in the hash, in the finality, in whether and how execution went, and in the reason for failure.
/// The hash can be read from the first field.
pub proof fn law_fields_tell_the_status(a: L1HandlerTransactionStatus, b: L1HandlerTransactionStatus)
    ensures
        status_fields(a)[0].0 == "transaction_hash"@,
        hash_bytes(status_fields(a)[0].1) == a.transaction_hash@,
        status_fields(a) == status_fields(b) ==> {
            &&& a.transaction_hash == b.transaction_hash
            &&& a.finality_status == b.finality_status
            &&& a.execution_status is Some <==> b.execution_status is Some
            &&& a.execution_status matches Some(e) ==> b.execution_status matches Some(f) ==> (
            e is Succeeded <==> f is Succeeded)
            &&& a.failure_reason is Some <==> b.failure_reason is Some
            &&& a.failure_reason matches Some(x) ==> b.failure_reason matches Some(y) ==> x@ == y@
        },
{
    Felt::lemma_view_injective(a.transaction_hash, b.transaction_hash);
    Felt::lemma_view_injective(b.transaction_hash, a.transaction_hash);
    law_written_hash_is_read(a.transaction_hash@);
    law_written_hash_is_read(b.transaction_hash@);
    law_finality_names_differ(a.finality_status, b.finality_status);
    reveal_strlit("SUCCEEDED");
    reveal_strlit("REVERTED");
    reveal_strlit("execution_status");
    reveal_strlit("failure_reason");
    assert("SUCCEEDED"@.len() == 9);
    assert("REVERTED"@.len() == 8);
    assert("execution_status"@.len() == 16);
    assert("failure_reason"@.len() == 14);
    if status_fields(a) == status_fields(b) {
        let f = status_fields(a);
        let g = status_fields(b);
        assert(f[0] == g[0] && f[1] == g[1]);
        assert(f[0].1 == short_hex(a.transaction_hash@) && g[0].1 == short_hex(b.transaction_hash@));
        assert(f[1].1 == finality_name(a.finality_status) && g[1].1 == finality_name(
            b.finality_status,
        ));
        assert(f.len() == g.len());
        if f.len() > 2 {
            assert(f[2] == g[2]);
        }
        if f.len() > 3 {
            assert(f[3] == g[3]);
        }
    }
}

} // verus!
