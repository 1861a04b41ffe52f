//! The status of the messages that a transaction on L1 sent.
use vstd::prelude::*;
use vstd::string::*;

use crate::felt::Felt;
use crate::rpc::labels::{json_shape, parse_params, param_named, ParamShape, ParamValue, Params, ParamsShape};
use crate::text::{push_short_hex, short_hex};

verus! {

/// How the execution of a transaction went.
#[derive(Debug)]
pub enum TxnExecutionStatus {
    Succeeded,
    Reverted { reason: Option<String> },
}

/// The status of a transaction.
#[derive(Debug)]
pub enum TxStatus {
    Received,
    PreConfirmed(TxnExecutionStatus),
    AcceptedOnL1(TxnExecutionStatus),
    AcceptedOnL2(TxnExecutionStatus),
}

#[derive(Clone, Copy, Debug, PartialEq, Eq, Structural)]
pub enum FinalityStatus {
    Received,
    PreConfirmed,
    AcceptedOnL2,
    AcceptedOnL1,
}

/// The name of a finality status.
pub open spec fn finality_name(s: FinalityStatus) -> Seq<char> {
    match s {
        FinalityStatus::Received => "RECEIVED"@,
        FinalityStatus::PreConfirmed => "PRE_CONFIRMED"@,
        FinalityStatus::AcceptedOnL2 => "ACCEPTED_ON_L2"@,
        FinalityStatus::AcceptedOnL1 => "ACCEPTED_ON_L1"@,
    }
}

impl FinalityStatus {
    pub fn as_str(self) -> (r: &'static str)
        ensures
            r@ == finality_name(self),
    {
        match self {
            FinalityStatus::Received => "RECEIVED",
            FinalityStatus::PreConfirmed => "PRE_CONFIRMED",
            FinalityStatus::AcceptedOnL2 => "ACCEPTED_ON_L2",
            FinalityStatus::AcceptedOnL1 => "ACCEPTED_ON_L1",
        }
    }
}

/// The name of an execution status.
pub open spec fn execution_name(s: TxnExecutionStatus) -> Seq<char> {
    match s {
        TxnExecutionStatus::Succeeded => "SUCCEEDED"@,
        TxnExecutionStatus::Reverted { .. } => "REVERTED"@,
    }
}

impl TxnExecutionStatus {
    pub fn as_str(&self) -> (r: &'static str)
        ensures
            r@ == execution_name(*self),
    {
        match self {
            TxnExecutionStatus::Succeeded => "SUCCEEDED",
            TxnExecutionStatus::Reverted { .. } => "REVERTED",
        }
    }
}

/// The status of a message: that of the transaction that handles it.
#[derive(Debug)]
pub struct L1HandlerTransactionStatus {
    pub transaction_hash: Felt,
    pub finality_status: FinalityStatus,
    pub execution_status: Option<TxnExecutionStatus>,
    pub failure_reason: Option<String>,
}

/// The statuses of the messages, in order.
#[derive(Debug)]
pub struct Output(pub Vec<L1HandlerTransactionStatus>);

/// A transaction is not known.
#[derive(Clone, Copy, Debug, PartialEq, Eq, Structural)]
pub struct TxnHashNotFound;

/// The status of a message for that of its transaction. A transaction that was only received has no
/// execution status, and its message is passed over.
pub open spec fn message_status(hash: Felt, status: TxStatus) -> Option<L1HandlerTransactionStatus> {
    match status {
        TxStatus::Received => None,
        TxStatus::PreConfirmed(e) => Some(executed(hash, FinalityStatus::PreConfirmed, e)),
        TxStatus::AcceptedOnL1(e) => Some(executed(hash, FinalityStatus::AcceptedOnL1, e)),
        TxStatus::AcceptedOnL2(e) => Some(executed(hash, FinalityStatus::AcceptedOnL2, e)),
    }
}

/// The status of a message whose transaction was executed.
pub open spec fn executed(
    hash: Felt,
    finality_status: FinalityStatus,
    e: TxnExecutionStatus,
) -> L1HandlerTransactionStatus {
    L1HandlerTransactionStatus {
        transaction_hash: hash,
        finality_status,
        execution_status: Some(e),
        failure_reason: match e {
            TxnExecutionStatus::Reverted { reason } => reason,
            TxnExecutionStatus::Succeeded => None,
        },
    }
}

/// The statuses of messages.
pub open spec fn message_statuses(list: Seq<(Felt, Option<TxStatus>)>) -> Seq<
    L1HandlerTransactionStatus,
>
    decreases list.len(),
{
    if list.len() == 0 {
        Seq::empty()
    } else {
        let front = message_statuses(list.drop_last());
        match list.last().1 {
            None => front,
            Some(status) => match message_status(list.last().0, status) {
                None => front,
                Some(m) => front.push(m),
            },
        }
    }
}

/// Every transaction is known.
pub open spec fn all_known(list: Seq<(Felt, Option<TxStatus>)>) -> bool {
    forall|i: int| 0 <= i < list.len() ==> (#[trigger] list[i]).1 is Some
}

fn copy_reason(reason: &Option<String>) -> (r: Option<String>)
    ensures
        r == *reason,
{
    match reason {
        Some(s) => Some(s.clone()),
        None => None,
    }
}

fn copy_execution(e: &TxnExecutionStatus) -> (r: TxnExecutionStatus)
    ensures
        r == *e,
{
    match e {
        TxnExecutionStatus::Succeeded => TxnExecutionStatus::Succeeded,
        TxnExecutionStatus::Reverted { reason } => TxnExecutionStatus::Reverted {
            reason: copy_reason(reason),
        },
    }
}

fn status_of(hash: Felt, status: &TxStatus) -> (r: Option<L1HandlerTransactionStatus>)
    ensures
        r == message_status(hash, *status),
{
    let (finality_status, execution): (FinalityStatus, &TxnExecutionStatus) = match status {
        TxStatus::Received => {
            return None;
        },
        TxStatus::PreConfirmed(e) => (FinalityStatus::PreConfirmed, e),
        TxStatus::AcceptedOnL1(e) => (FinalityStatus::AcceptedOnL1, e),
        TxStatus::AcceptedOnL2(e) => (FinalityStatus::AcceptedOnL2, e),
    };
    let failure_reason: Option<String> = match execution {
        TxnExecutionStatus::Reverted { reason } => copy_reason(reason),
        TxnExecutionStatus::Succeeded => None,
    };
    Some(
        L1HandlerTransactionStatus {
            transaction_hash: hash,
            finality_status,
            execution_status: Some(copy_execution(execution)),
            failure_reason,
        },
    )
}

/// The statuses of messages, given the hash of the transaction that handles each and the status of
/// that transaction where it is known. Fails where one is not.
pub fn get_messages_status(list: &Vec<(Felt, Option<TxStatus>)>) -> (r: Result<
    Output,
    TxnHashNotFound,
>)
    ensures
        r is Ok <==> all_known(list@),
        r matches Ok(output) ==> output.0@ == message_statuses(list@),
{
    let mut res: Vec<L1HandlerTransactionStatus> = Vec::new();
    let mut i: usize = 0;
    assert(list@.subrange(0, 0) =~= Seq::<(Felt, Option<TxStatus>)>::empty());
    while i < list.len()
        invariant
            i <= list@.len(),
            forall|j: int| 0 <= j < i ==> (#[trigger] list@[j]).1 is Some,
            res@ == message_statuses(list@.subrange(0, i as int)),
        decreases list@.len() - i,
    {
        proof {
            let done = list@.subrange(0, i + 1);
            assert(done.drop_last() =~= list@.subrange(0, i as int));
            assert(done.last() == list@[i as int]);
        }
        match &list[i].1 {
            None => {
                assert(list@[i as int].1 is None);
                return Err(TxnHashNotFound);
            },
            Some(status) => match status_of(list[i].0, status) {
                None => {},
                Some(m) => {
                    res.push(m);
                },
            },
        }
        i = i + 1;
    }
    assert(list@.subrange(0, i as int) =~= list@);
    Ok(Output(res))
}

/// A field of a status, by its name and its value.
pub open spec fn field(name: Seq<char>, value: Seq<char>) -> (Seq<char>, Seq<char>) {
    (name, value)
}

/// The fields that a status is written with: what is not there is left out.
pub open spec fn status_fields(s: L1HandlerTransactionStatus) -> Seq<(Seq<char>, Seq<char>)> {
    let base = seq![
        field("transaction_hash"@, short_hex(s.transaction_hash@)),
        field("finality_status"@, finality_name(s.finality_status)),
    ];
    let with_execution = match s.execution_status {
        Some(e) => base.push(field("execution_status"@, execution_name(e))),
        None => base,
    };
    match s.failure_reason {
        Some(reason) => with_execution.push(field("failure_reason"@, reason@)),
        None => with_execution,
    }
}

/// The texts of fields.
pub open spec fn field_texts(f: Seq<(&'static str, String)>) -> Seq<(Seq<char>, Seq<char>)> {
    f.map_values(|x: (&'static str, String)| (x.0@, x.1@))
}

impl L1HandlerTransactionStatus {
    /// The fields that the status is written with, in order.
    pub fn fields(&self) -> (r: Vec<(&'static str, String)>)
        ensures
            field_texts(r@) == status_fields(*self),
    {
        let mut r: Vec<(&'static str, String)> = Vec::new();
        let mut hash: String = String::new();
        let bytes = self.transaction_hash.to_be_bytes();
        proof {
            Felt::lemma_view_injective(self.transaction_hash, self.transaction_hash);
        }
        push_short_hex(&mut hash, bytes.as_slice());
        assert(hash@ =~= short_hex(self.transaction_hash@));
        r.push(("transaction_hash", hash));
        r.push(("finality_status", String::from_str(self.finality_status.as_str())));
        assert(field_texts(r@) =~= seq![
            field("transaction_hash"@, short_hex(self.transaction_hash@)),
            field("finality_status"@, finality_name(self.finality_status)),
        ]);
        let ghost base = field_texts(r@);
        match &self.execution_status {
            Some(e) => {
                r.push(("execution_status", String::from_str(e.as_str())));
                assert(field_texts(r@) =~= base.push(
                    field("execution_status"@, execution_name(*e)),
                ));
            },
            None => {},
        }
        let ghost with_execution = field_texts(r@);
        match &self.failure_reason {
            Some(reason) => {
                r.push(("failure_reason", reason.clone()));
                assert(field_texts(r@) =~= with_execution.push(
                    field("failure_reason"@, reason@),
                ));
            },
            None => {},
        }
        r
    }
}

/// Every status that is reported has its execution status, and a reason for failure only where the
/// execution was reverted.
pub proof fn law_reported_messages_are_executed(list: Seq<(Felt, Option<TxStatus>)>, i: int)
    requires
        0 <= i < message_statuses(list).len(),
    ensures
        message_statuses(list)[i].execution_status is Some,
        message_statuses(list)[i].failure_reason is Some ==> message_statuses(
            list,
        )[i].execution_status matches Some(TxnExecutionStatus::Reverted { .. }),
    decreases list.len(),
{
    if list.len() > 0 {
        let front = list.drop_last();
        if i < message_statuses(front).len() {
            law_reported_messages_are_executed(front, i);
        }
    }
}

/// One message is reported with the hash, the finality and the execution status of its transaction,
/// and with the reason for failure where the execution was reverted for one. One whose transaction
/// was only received is not reported.
pub proof fn law_message_reports_its_transaction(hash: Felt, status: TxStatus)
    ensures
        ({
            let out = message_statuses(seq![(hash, Some(status))]);
            match status {
                TxStatus::Received => out.len() == 0,
                TxStatus::PreConfirmed(e) => out.len() == 1 && out[0].transaction_hash == hash
                    && out[0].finality_status == FinalityStatus::PreConfirmed
                    && out[0].execution_status == Some(e) && (e is Succeeded ==> out[0].failure_reason
                    == None::<String>) && (e matches TxnExecutionStatus::Reverted { reason }
                    ==> out[0].failure_reason == reason),
                TxStatus::AcceptedOnL2(e) => out.len() == 1 && out[0].transaction_hash == hash
                    && out[0].finality_status == FinalityStatus::AcceptedOnL2
                    && out[0].execution_status == Some(e) && (e is Succeeded ==> out[0].failure_reason
                    == None::<String>) && (e matches TxnExecutionStatus::Reverted { reason }
                    ==> out[0].failure_reason == reason),
                TxStatus::AcceptedOnL1(e) => out.len() == 1 && out[0].transaction_hash == hash
                    && out[0].finality_status == FinalityStatus::AcceptedOnL1
                    && out[0].execution_status == Some(e) && (e is Succeeded ==> out[0].failure_reason
                    == None::<String>) && (e matches TxnExecutionStatus::Reverted { reason }
                    ==> out[0].failure_reason == reason),
            }
        }),
{
    let one = seq![(hash, Some(status))];
    assert(one.drop_last() =~= Seq::<(Felt, Option<TxStatus>)>::empty());
    assert(message_statuses(one.drop_last()) == Seq::<L1HandlerTransactionStatus>::empty());
}

/// The messages of two lists are reported one list after the other, and what is reported of one
/// message does not depend on the others. All are known where those of both lists are.
pub proof fn law_messages_are_reported_in_order(
    a: Seq<(Felt, Option<TxStatus>)>,
    b: Seq<(Felt, Option<TxStatus>)>,
)
    ensures
        message_statuses(a + b) == message_statuses(a) + message_statuses(b),
        all_known(a + b) <==> all_known(a) && all_known(b),
    decreases b.len(),
{
    if b.len() == 0 {
        assert(a + b =~= a);
    } else {
        let front = b.drop_last();
        law_messages_are_reported_in_order(a, front);
        assert((a + b).drop_last() =~= a + front);
        assert((a + b).last() == b.last());
        assert(message_statuses(a + b) =~= message_statuses(a) + message_statuses(b));
        if all_known(a + b) {
            assert forall|i: int| 0 <= i < a.len() implies (#[trigger] a[i]).1 is Some by {
                assert((a + b)[i] == a[i]);
            }
            assert forall|i: int| 0 <= i < b.len() implies (#[trigger] b[i]).1 is Some by {
                assert((a + b)[a.len() + i] == b[i]);
            }
        }
        if all_known(a) && all_known(b) {
            assert forall|i: int| 0 <= i < (a + b).len() implies (#[trigger] (a + b)[i]).1 is Some by {
                if i < a.len() {
                    assert((a + b)[i] == a[i]);
                } else {
                    assert((a + b)[i] == b[i - a.len()]);
                }
            }
        }
    }
}

/// Whether one message is known: there is a status of its transaction.
pub proof fn law_message_is_known_by_its_status(hash: Felt, status: Option<TxStatus>)
    ensures
        all_known(seq![(hash, status)]) <==> status is Some,
{
    let one = seq![(hash, status)];
    assert(one[0].1 == status);
}

/// What is asked for: the transaction on L1.
#[derive(Debug, PartialEq, Eq)]
pub struct Input {
    pub transaction_hash: Vec<u8>,
}

/// Parameters that do not name a transaction on L1.
#[derive(Clone, Copy, Debug, PartialEq, Eq, Structural)]
pub enum InputError {
    /// The parameters are no JSON list or object.
    NotParams,
    MissingHash,
    /// The hash is no text of at most 64 hexadecimal digits after `0x`.
    InvalidHash,
}

/// The value of a hexadecimal digit.
pub open spec fn hex_value(c: char) -> Option<u8> {
    let x = c as u32;
    if 48 <= x <= 57 {
        Some((x - 48) as u8)
    } else if 97 <= x <= 102 {
        Some((x - 87) as u8)
    } else if 65 <= x <= 70 {
        Some((x - 55) as u8)
    } else {
        None
    }
}

fn hex_value_of(c: char) -> (r: Option<u8>)
    ensures
        r == hex_value(c),
{
    let x: u32 = c as u32;
    if 48 <= x && x <= 57 {
        Some((x - 48) as u8)
    } else if 97 <= x && x <= 102 {
        Some((x - 87) as u8)
    } else if 65 <= x && x <= 70 {
        Some((x - 55) as u8)
    } else {
        None
    }
}

/// Between one and 64 hexadecimal digits after `0x`.
pub open spec fn is_hash_text(s: Seq<char>) -> bool {
    &&& 3 <= s.len() <= 66
    &&& s[0] == '0'
    &&& s[1] == 'x'
    &&& forall|i: int| 2 <= i < s.len() ==> hex_value(#[trigger] s[i]) is Some
}

/// The digit at a place of a 64-digit number, counted from its front, where the digits of `s` come
/// last.
pub open spec fn hash_digit(s: Seq<char>, place: int) -> u8 {
    let at = place - (66 - s.len());
    if at < 0 {
        0
    } else {
        hex_value(s[at + 2])->0
    }
}

/// The 32 bytes that a hash text stands for.
pub open spec fn hash_bytes(s: Seq<char>) -> Seq<u8> {
    Seq::new(
        32,
        |i: int| (hash_digit(s, 2 * i) * 16 + hash_digit(s, 2 * i + 1)) as u8,
    )
}

fn digit_at(s: &str, len: usize, place: usize) -> (r: u8)
    requires
        is_hash_text(s@),
        len == s@.len(),
        place < 64,
    ensures
        r == hash_digit(s@, place as int),
        r < 16,
{
    if place + len < 66 {
        0
    } else {
        let c: char = s.get_char(place + len - 66 + 2);
        assert(hex_value(s@[place + len - 66 + 2]) is Some);
        match hex_value_of(c) {
            Some(d) => d,
            None => 0,
        }
    }
}

/// The bytes that a hash text stands for, left-padded to 32.
pub fn parse_hash(s: &str) -> (r: Option<Vec<u8>>)
    ensures
        match r {
            Some(bytes) => is_hash_text(s@) && bytes@ == hash_bytes(s@),
            None => !is_hash_text(s@),
        },
{
    let n: usize = s.unicode_len();
    if n < 3 || n > 66 {
        return None;
    }
    if s.get_char(0) != '0' || s.get_char(1) != 'x' {
        return None;
    }
    let mut i: usize = 2;
    while i < n
        invariant
            2 <= i <= n,
            n == s@.len(),
            forall|j: int| 2 <= j < i ==> hex_value(#[trigger] s@[j]) is Some,
        decreases n - i,
    {
        if hex_value_of(s.get_char(i)).is_none() {
            assert(hex_value(s@[i as int]) is None);
            return None;
        }
        i = i + 1;
    }
    let mut bytes: Vec<u8> = Vec::new();
    let mut k: usize = 0;
    while k < 32
        invariant
            k <= 32,
            n == s@.len(),
            is_hash_text(s@),
            bytes@ == hash_bytes(s@).subrange(0, k as int),
        decreases 32 - k,
    {
        let high: u8 = digit_at(s, n, 2 * k);
        let low: u8 = digit_at(s, n, 2 * k + 1);
        bytes.push(high * 16 + low);
        k = k + 1;
        assert(bytes@ =~= hash_bytes(s@).subrange(0, k as int));
    }
    assert(bytes@ =~= hash_bytes(s@));
    Some(bytes)
}

/// The parameter that holds the hash: the first one, or the one of that name.
pub open spec fn hash_param(params: ParamsShape) -> Result<ParamShape, InputError> {
    match params {
        ParamsShape::List(items) => if items.len() == 0 {
            Err(InputError::MissingHash)
        } else {
            Ok(items[0])
        },
        ParamsShape::Named(fields) => match param_named(fields, "transaction_hash"@) {
            Some(v) => Ok(v),
            None => Err(InputError::MissingHash),
        },
        ParamsShape::Other => Err(InputError::NotParams),
    }
}

/// The bytes of the hash that parameters name.
pub open spec fn hash_of_params(params: ParamsShape) -> Result<Seq<u8>, InputError> {
    match hash_param(params) {
        Err(e) => Err(e),
        Ok(ParamShape::Text(s)) => if is_hash_text(s) {
            Ok(hash_bytes(s))
        } else {
            Err(InputError::InvalidHash)
        },
        Ok(_) => Err(InputError::InvalidHash),
    }
}

/// The input that parameters of a known shape stand for.
pub fn input_from_params(params: &Params) -> (r: Result<Input, InputError>)
    ensures
        match hash_of_params(params@) {
            Ok(bytes) => r matches Ok(input) && input.transaction_hash@ == bytes,
            Err(e) => r == Err::<Input, InputError>(e),
        },
{
    let value: Option<&ParamValue> = match params {
        Params::List(items) => if items.len() == 0 {
            None
        } else {
            Some(&items[0])
        },
        Params::Named(fields) => crate::rpc::labels::find_param(fields, "transaction_hash"),
        Params::Other => {
            return Err(InputError::NotParams);
        },
    };
    match value {
        None => Err(InputError::MissingHash),
        Some(ParamValue::Text(s)) => match parse_hash(s.as_str()) {
            Some(transaction_hash) => Ok(Input { transaction_hash }),
            None => Err(InputError::InvalidHash),
        },
        Some(_) => Err(InputError::InvalidHash),
    }
}

impl Input {
    /// Reads the input from the raw parameters of a request, positional or named.
    pub fn deserialize(raw: &str) -> (r: Result<Input, InputError>)
        ensures
            match json_shape(raw@) {
                None => r == Err::<Input, InputError>(InputError::NotParams),
                Some(shape) => match hash_of_params(shape) {
                    Ok(bytes) => r matches Ok(input) && input.transaction_hash@ == bytes,
                    Err(e) => r == Err::<Input, InputError>(e),
                },
            },
    {
        match parse_params(raw) {
            None => Err(InputError::NotParams),
            Some(params) => input_from_params(&params),
        }
    }
}

} // verus!
