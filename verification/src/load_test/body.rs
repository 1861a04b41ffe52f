//! The JSON texts of the load test's requests.
use vstd::prelude::*;
use vstd::string::*;

use crate::felt::Felt;
use crate::load_test::requests::{method_name, BlockId, EventFilter, InvokeEstimate, Request};
use crate::text::{
    decimal, law_decimal_is_read_back, lemma_short_hex_injective, push_decimal, push_short_hex,
    short_hex,
};

verus! {

/// The JSON string for a text: in quotation marks, with what needs it escaped.
pub uninterp spec fn json_string(text: Seq<char>) -> Seq<char>;

/// `serde_json::to_string` of a string, which does not fail. How characters are escaped is left to
/// `serde_json`.
#[verifier::external_body]
fn quote(text: &str) -> (r: String)
    ensures
        r@ == json_string(text@),
{
    serde_json::to_string(text).unwrap()
}

/// Texts with commas between them.
pub open spec fn joined(items: Seq<Seq<char>>) -> Seq<char>
    decreases items.len(),
{
    if items.len() == 0 {
        Seq::empty()
    } else if items.len() == 1 {
        items[0]
    } else {
        joined(items.drop_last()) + ","@ + items.last()
    }
}

/// A JSON list.
pub open spec fn list_text(items: Seq<Seq<char>>) -> Seq<char> {
    "["@ + joined(items) + "]"@
}

/// A field element in JSON: its hexadecimal notation.
pub open spec fn felt_text(f: Felt) -> Seq<char> {
    "\""@ + short_hex(f@) + "\""@
}

/// A list of field elements in JSON.
pub open spec fn felts_text(list: Seq<Felt>) -> Seq<char> {
    list_text(list.map_values(|f: Felt| felt_text(f)))
}

/// A list of strings in JSON.
pub open spec fn strings_text(list: Seq<String>) -> Seq<char> {
    list_text(list.map_values(|s: String| json_string(s@)))
}

/// A list of lists of field elements in JSON.
pub open spec fn keys_text(list: Seq<Vec<Felt>>) -> Seq<char> {
    list_text(list.map_values(|l: Vec<Felt>| felts_text(l@)))
}

/// A block in JSON.
pub open spec fn block_id_text(id: BlockId) -> Seq<char> {
    match id {
        BlockId::Number(n) => "{\"block_number\":"@ + decimal(n as nat) + "}"@,
        BlockId::Hash(h) => "{\"block_hash\":"@ + felt_text(h) + "}"@,
        BlockId::PreConfirmed => "\"pre_confirmed\""@,
    }
}

/// A bound of an event filter in JSON.
pub open spec fn bound_text(bound: Option<BlockId>) -> Seq<char> {
    match bound {
        Some(id) => block_id_text(id),
        None => "null"@,
    }
}

/// The address of an event filter in JSON.
pub open spec fn address_text(address: Option<Felt>) -> Seq<char> {
    match address {
        Some(f) => felt_text(f),
        None => "null"@,
    }
}

/// An event filter in JSON.
pub open spec fn filter_text(
    from_block: Option<BlockId>,
    to_block: Option<BlockId>,
    filter: EventFilter,
) -> Seq<char> {
    "{\"filter\":{\"from_block\":"@ + bound_text(from_block) + ",\"to_block\":"@ + bound_text(
        to_block,
    ) + ",\"address\":"@ + address_text(filter.address) + ",\"keys\":"@ + keys_text(filter.keys@)
        + ",\"chunk_size\":"@ + decimal(filter.chunk_size as nat) + "}}"@
}

/// The flags of a simulation in JSON.
pub open spec fn flags_text(skip_validate: bool) -> Seq<char> {
    if skip_validate {
        "[\"SKIP_VALIDATE\"]"@
    } else {
        "[]"@
    }
}

/// A transaction whose fee is estimated, in JSON.
pub open spec fn estimate_text(t: InvokeEstimate, block_id: BlockId) -> Seq<char> {
    "{\"request\":[{\"type\":\"INVOKE\",\"version\":\"0x1\",\"max_fee\":"@ + felt_text(t.max_fee)
        + ",\"signature\":[],\"nonce\":"@ + felt_text(t.nonce) + ",\"sender_address\":"@ + felt_text(
        t.sender_address,
    ) + ",\"calldata\":"@ + felts_text(t.call_data@) + "}],\"simulation_flags\":"@ + flags_text(
        t.skip_validate,
    ) + ",\"block_id\":"@ + block_id_text(block_id) + "}"@
}

/// The parameters of a request in JSON.
pub open spec fn params_text(r: Request) -> Seq<char> {
    match r {
        Request::GetBlockWithTxHashes { block_id } => "{\"block_id\":"@ + block_id_text(block_id)
            + "}"@,
        Request::GetStateUpdate { block_id } => "{\"block_id\":"@ + block_id_text(block_id) + "}"@,
        Request::GetTransactionByHash { transaction_hash } => "{\"transaction_hash\":"@ + felt_text(
            transaction_hash,
        ) + "}"@,
        Request::GetTransactionByBlockIdAndIndex { block_id, index } => "{\"block_id\":"@
            + block_id_text(block_id) + ",\"index\":"@ + decimal(index as nat) + "}"@,
        Request::GetTransactionReceipt { transaction_hash } => "{\"transaction_hash\":"@ + felt_text(
            transaction_hash,
        ) + "}"@,
        Request::GetBlockTransactionCount { block_id } => "{\"block_id\":"@ + block_id_text(block_id)
            + "}"@,
        Request::GetClass { block_id, class_hash } => "{\"block_id\":"@ + block_id_text(block_id)
            + ",\"class_hash\":"@ + felt_text(class_hash) + "}"@,
        Request::GetClassHashAt { block_id, contract_address } => "{\"block_id\":"@ + block_id_text(
            block_id,
        ) + ",\"contract_address\":"@ + felt_text(contract_address) + "}"@,
        Request::GetClassAt { block_id, contract_address } => "{\"block_id\":"@ + block_id_text(
            block_id,
        ) + ",\"contract_address\":"@ + felt_text(contract_address) + "}"@,
        Request::BlockNumber => "{}"@,
        Request::Syncing => "{}"@,
        Request::ChainId => "{}"@,
        Request::GetEvents { from_block, to_block, filter } => filter_text(
            from_block,
            to_block,
            filter,
        ),
        Request::GetStorageAt { contract_address, key, block_id } => "{\"contract_address\":"@
            + felt_text(contract_address) + ",\"key\":"@ + felt_text(key) + ",\"block_id\":"@
            + block_id_text(block_id) + "}"@,
        Request::Call { contract_address, calldata, entry_point_selector, block_id } =>
            "{\"request\":{\"contract_address\":"@ + felt_text(contract_address)
            + ",\"calldata\":"@ + strings_text(calldata@) + ",\"entry_point_selector\":"@
            + json_string(entry_point_selector@) + "},\"block_id\":"@ + block_id_text(block_id)
            + "}"@,
        Request::EstimateFee { transaction, block_id } => estimate_text(transaction, block_id),
        Request::GetNonce { block_id, contract_address } => "{\"block_id\":"@ + block_id_text(
            block_id,
        ) + ",\"contract_address\":"@ + felt_text(contract_address) + "}"@,
    }
}

/// A whole request in JSON.
pub open spec fn request_text(r: Request) -> Seq<char> {
    "{\"jsonrpc\":\"2.0\",\"id\":\"0\",\"method\":\""@ + method_name(r) + "\",\"params\":"@
        + params_text(r) + "}"@
}

fn push_felt(s: &mut String, f: &Felt)
    ensures
        final(s)@ == old(s)@ + felt_text(*f),
{
    let bytes = f.to_be_bytes();
    proof {
        Felt::lemma_view_injective(*f, *f);
    }
    s.append("\"");
    push_short_hex(s, bytes.as_slice());
    s.append("\"");
    assert(s@ =~= old(s)@ + felt_text(*f));
}

/// One more item of a list.
proof fn lemma_joined(items: Seq<Seq<char>>, i: int)
    requires
        0 <= i < items.len(),
    ensures
        joined(items.subrange(0, i + 1)) == (if i == 0 {
            items[i]
        } else {
            joined(items.subrange(0, i)) + ","@ + items[i]
        }),
{
    let done = items.subrange(0, i + 1);
    assert(done.drop_last() =~= items.subrange(0, i));
    assert(done.last() == items[i]);
}

fn push_felts(s: &mut String, list: &Vec<Felt>)
    ensures
        final(s)@ == old(s)@ + felts_text(list@),
{
    let ghost items = list@.map_values(|f: Felt| felt_text(f));
    s.append("[");
    let mut i: usize = 0;
    assert(items.subrange(0, 0) =~= Seq::<Seq<char>>::empty());
    assert(s@ =~= old(s)@ + "["@ + joined(items.subrange(0, 0)));
    while i < list.len()
        invariant
            i <= list@.len(),
            items == list@.map_values(|f: Felt| felt_text(f)),
            s@ == old(s)@ + "["@ + joined(items.subrange(0, i as int)),
        decreases list@.len() - i,
    {
        proof {
            lemma_joined(items, i as int);
        }
        if i > 0 {
            s.append(",");
        }
        push_felt(s, &list[i]);
        i = i + 1;
        assert(s@ =~= old(s)@ + "["@ + joined(items.subrange(0, i as int)));
    }
    s.append("]");
    assert(items.subrange(0, i as int) =~= items);
    assert(s@ =~= old(s)@ + felts_text(list@));
}

fn push_strings(s: &mut String, list: &Vec<String>)
    ensures
        final(s)@ == old(s)@ + strings_text(list@),
{
    let ghost items = list@.map_values(|t: String| json_string(t@));
    s.append("[");
    let mut i: usize = 0;
    assert(items.subrange(0, 0) =~= Seq::<Seq<char>>::empty());
    assert(s@ =~= old(s)@ + "["@ + joined(items.subrange(0, 0)));
    while i < list.len()
        invariant
            i <= list@.len(),
            items == list@.map_values(|t: String| json_string(t@)),
            s@ == old(s)@ + "["@ + joined(items.subrange(0, i as int)),
        decreases list@.len() - i,
    {
        proof {
            lemma_joined(items, i as int);
        }
        if i > 0 {
            s.append(",");
        }
        let quoted: String = quote(list[i].as_str());
        s.append(quoted.as_str());
        i = i + 1;
        assert(s@ =~= old(s)@ + "["@ + joined(items.subrange(0, i as int)));
    }
    s.append("]");
    assert(items.subrange(0, i as int) =~= items);
    assert(s@ =~= old(s)@ + strings_text(list@));
}

fn push_keys(s: &mut String, list: &Vec<Vec<Felt>>)
    ensures
        final(s)@ == old(s)@ + keys_text(list@),
{
    let ghost items = list@.map_values(|l: Vec<Felt>| felts_text(l@));
    s.append("[");
    let mut i: usize = 0;
    assert(items.subrange(0, 0) =~= Seq::<Seq<char>>::empty());
    assert(s@ =~= old(s)@ + "["@ + joined(items.subrange(0, 0)));
    while i < list.len()
        invariant
            i <= list@.len(),
            items == list@.map_values(|l: Vec<Felt>| felts_text(l@)),
            s@ == old(s)@ + "["@ + joined(items.subrange(0, i as int)),
        decreases list@.len() - i,
    {
        proof {
            lemma_joined(items, i as int);
        }
        if i > 0 {
            s.append(",");
        }
        push_felts(s, &list[i]);
        i = i + 1;
        assert(s@ =~= old(s)@ + "["@ + joined(items.subrange(0, i as int)));
    }
    s.append("]");
    assert(items.subrange(0, i as int) =~= items);
    assert(s@ =~= old(s)@ + keys_text(list@));
}

fn push_block_id(s: &mut String, id: &BlockId)
    ensures
        final(s)@ == old(s)@ + block_id_text(*id),
{
    match id {
        BlockId::Number(n) => {
            s.append("{\"block_number\":");
            push_decimal(s, *n);
            s.append("}");
        },
        BlockId::Hash(h) => {
            s.append("{\"block_hash\":");
            push_felt(s, h);
            s.append("}");
        },
        BlockId::PreConfirmed => {
            s.append("\"pre_confirmed\"");
        },
    }
    assert(s@ =~= old(s)@ + block_id_text(*id));
}

fn push_bound(s: &mut String, bound: &Option<BlockId>)
    ensures
        final(s)@ == old(s)@ + bound_text(*bound),
{
    match bound {
        Some(id) => {
            push_block_id(s, id);
        },
        None => {
            s.append("null");
        },
    }
}

/// Appends a name with what separates it from its value, and a block.
fn push_named_block(s: &mut String, name: &str, id: &BlockId)
    ensures
        final(s)@ == old(s)@ + name@ + block_id_text(*id),
{
    s.append(name);
    push_block_id(s, id);
}

/// Appends a name with what separates it from its value, and a field element.
fn push_named_felt(s: &mut String, name: &str, f: &Felt)
    ensures
        final(s)@ == old(s)@ + name@ + felt_text(*f),
{
    s.append(name);
    push_felt(s, f);
}

fn push_filter(
    s: &mut String,
    from_block: &Option<BlockId>,
    to_block: &Option<BlockId>,
    filter: &EventFilter,
)
    ensures
        final(s)@ == old(s)@ + filter_text(*from_block, *to_block, *filter),
{
    s.append("{\"filter\":{\"from_block\":");
    push_bound(s, from_block);
    s.append(",\"to_block\":");
    push_bound(s, to_block);
    s.append(",\"address\":");
    match &filter.address {
        Some(f) => {
            push_felt(s, f);
        },
        None => {
            s.append("null");
        },
    }
    s.append(",\"keys\":");
    push_keys(s, &filter.keys);
    s.append(",\"chunk_size\":");
    push_decimal(s, filter.chunk_size);
    s.append("}}");
    assert(s@ =~= old(s)@ + filter_text(*from_block, *to_block, *filter));
}

fn push_estimate(s: &mut String, t: &InvokeEstimate, block_id: &BlockId)
    ensures
        final(s)@ == old(s)@ + estimate_text(*t, *block_id),
{
    push_named_felt(
        s,
        "{\"request\":[{\"type\":\"INVOKE\",\"version\":\"0x1\",\"max_fee\":",
        &t.max_fee,
    );
    push_named_felt(s, ",\"signature\":[],\"nonce\":", &t.nonce);
    push_named_felt(s, ",\"sender_address\":", &t.sender_address);
    s.append(",\"calldata\":");
    push_felts(s, &t.call_data);
    s.append("}],\"simulation_flags\":");
    if t.skip_validate {
        s.append("[\"SKIP_VALIDATE\"]");
    } else {
        s.append("[]");
    }
    push_named_block(s, ",\"block_id\":", block_id);
    s.append("}");
    assert(s@ =~= old(s)@ + estimate_text(*t, *block_id));
}

impl Request {
    fn push_params(&self, s: &mut String)
        ensures
            final(s)@ == old(s)@ + params_text(*self),
    {
        match self {
            Request::GetBlockWithTxHashes { block_id } => {
                push_named_block(s, "{\"block_id\":", block_id);
                s.append("}");
            },
            Request::GetStateUpdate { block_id } => {
                push_named_block(s, "{\"block_id\":", block_id);
                s.append("}");
            },
            Request::GetTransactionByHash { transaction_hash } => {
                push_named_felt(s, "{\"transaction_hash\":", transaction_hash);
                s.append("}");
            },
            Request::GetTransactionByBlockIdAndIndex { block_id, index } => {
                push_named_block(s, "{\"block_id\":", block_id);
                s.append(",\"index\":");
                push_decimal(s, *index as u64);
                s.append("}");
            },
            Request::GetTransactionReceipt { transaction_hash } => {
                push_named_felt(s, "{\"transaction_hash\":", transaction_hash);
                s.append("}");
            },
            Request::GetBlockTransactionCount { block_id } => {
                push_named_block(s, "{\"block_id\":", block_id);
                s.append("}");
            },
            Request::GetClass { block_id, class_hash } => {
                push_named_block(s, "{\"block_id\":", block_id);
                push_named_felt(s, ",\"class_hash\":", class_hash);
                s.append("}");
            },
            Request::GetClassHashAt { block_id, contract_address } => {
                push_named_block(s, "{\"block_id\":", block_id);
                push_named_felt(s, ",\"contract_address\":", contract_address);
                s.append("}");
            },
            Request::GetClassAt { block_id, contract_address } => {
                push_named_block(s, "{\"block_id\":", block_id);
                push_named_felt(s, ",\"contract_address\":", contract_address);
                s.append("}");
            },
            Request::BlockNumber => {
                s.append("{}");
            },
            Request::Syncing => {
                s.append("{}");
            },
            Request::ChainId => {
                s.append("{}");
            },
            Request::GetEvents { from_block, to_block, filter } => {
                push_filter(s, from_block, to_block, filter);
            },
            Request::GetStorageAt { contract_address, key, block_id } => {
                push_named_felt(s, "{\"contract_address\":", contract_address);
                push_named_felt(s, ",\"key\":", key);
                push_named_block(s, ",\"block_id\":", block_id);
                s.append("}");
            },
            Request::Call { contract_address, calldata, entry_point_selector, block_id } => {
                push_named_felt(s, "{\"request\":{\"contract_address\":", contract_address);
                s.append(",\"calldata\":");
                push_strings(s, calldata);
                s.append(",\"entry_point_selector\":");
                let quoted: String = quote(entry_point_selector.as_str());
                s.append(quoted.as_str());
                push_named_block(s, "},\"block_id\":", block_id);
                s.append("}");
            },
            Request::EstimateFee { transaction, block_id } => {
                push_estimate(s, transaction, block_id);
            },
            Request::GetNonce { block_id, contract_address } => {
                push_named_block(s, "{\"block_id\":", block_id);
                push_named_felt(s, ",\"contract_address\":", contract_address);
                s.append("}");
            },
        }
        assert(s@ =~= old(s)@ + params_text(*self));
    }

    /// The request as it is posted.
    pub fn jsonrpc_request(&self) -> (r: String)
        ensures
            r@ == request_text(*self),
    {
        let mut s: String = String::new();
        s.append("{\"jsonrpc\":\"2.0\",\"id\":\"0\",\"method\":\"");
        s.append(self.method());
        s.append("\",\"params\":");
        self.push_params(&mut s);
        s.append("}");
        assert(s@ =~= request_text(*self));
        s
    }
}

/// Whether a text holds a value under a name.
pub open spec fn names_value(text: Seq<char>, name: Seq<char>, value: Seq<char>) -> bool {
    exists|before: Seq<char>, after: Seq<char>|
        text == #[trigger] (before + name + value + after)
}

proof fn lemma_names_value(
    text: Seq<char>,
    before: Seq<char>,
    name: Seq<char>,
    value: Seq<char>,
    after: Seq<char>,
)
    requires
        text =~= before + name + value + after,
    ensures
        names_value(text, name, value),
{
    assert(text == before + name + value + after);
}

/// What a text holds it holds when more comes behind it.
proof fn lemma_held_in_front(text: Seq<char>, more: Seq<char>)
    ensures
        forall|name: Seq<char>, value: Seq<char>| #[trigger]
            names_value(text, name, value) ==> names_value(text + more, name, value),
{
    assert forall|name: Seq<char>, value: Seq<char>| #[trigger]
        names_value(text, name, value) implies names_value(text + more, name, value) by {
        let (before, after) = choose|before: Seq<char>, after: Seq<char>|
            text == #[trigger] (before + name + value + after);
        lemma_names_value(text + more, before, name, value, after + more);
    }
}

/// A text holds the value that is written behind a name at its end.
proof fn lemma_held_at_end(
    text: Seq<char>,
    lead: Seq<char>,
    open: Seq<char>,
    name: Seq<char>,
    value: Seq<char>,
)
    requires
        lead == open + name,
    ensures
        names_value(lead + value, name, value),
        names_value(text + lead + value, name, value),
        forall|n: Seq<char>, v: Seq<char>| #[trigger]
            names_value(text, n, v) ==> names_value(text + lead + value, n, v),
{
    lemma_names_value(lead + value, open, name, value, Seq::empty());
    lemma_names_value(text + lead + value, text + open, name, value, Seq::empty());
    lemma_held_in_front(text, lead);
    lemma_held_in_front(text + lead, value);
    assert forall|n: Seq<char>, v: Seq<char>| #[trigger]
        names_value(text, n, v) implies names_value(text + lead + value, n, v) by {
        assert(names_value(text + lead, n, v));
    }
}

/// A request holds its method and its parameters under their names.
pub proof fn law_request_holds_method_and_parameters(r: Request)
    ensures
        names_value(request_text(r), "\"method\":\""@, method_name(r)),
        names_value(request_text(r), "\"params\":"@, params_text(r)),
{
    let head = "{\"jsonrpc\":\"2.0\",\"id\":\"0\",\"method\":\""@;
    reveal_strlit("{\"jsonrpc\":\"2.0\",\"id\":\"0\",\"method\":\"");
    reveal_strlit("{\"jsonrpc\":\"2.0\",\"id\":\"0\",");
    reveal_strlit("\"method\":\"");
    reveal_strlit("\",\"params\":");
    reveal_strlit("\",");
    reveal_strlit("\"params\":");
    assert(head =~= "{\"jsonrpc\":\"2.0\",\"id\":\"0\","@ + "\"method\":\""@);
    assert("\",\"params\":"@ =~= "\","@ + "\"params\":"@);
    lemma_names_value(
        request_text(r),
        "{\"jsonrpc\":\"2.0\",\"id\":\"0\","@,
        "\"method\":\""@,
        method_name(r),
        "\",\"params\":"@ + params_text(r) + "}"@,
    );
    lemma_names_value(
        request_text(r),
        head + method_name(r) + "\","@,
        "\"params\":"@,
        params_text(r),
        "}"@,
    );
}

/// The parameters of a request hold every part of it under its name.
pub proof fn law_parameters_hold_the_parts(r: Request)
    ensures
        ({
            let text = params_text(r);
            match r {
                Request::GetBlockWithTxHashes { block_id } => {
                    &&& names_value(text, "\"block_id\":"@, block_id_text(block_id))
                },
                Request::GetStateUpdate { block_id } => {
                    &&& names_value(text, "\"block_id\":"@, block_id_text(block_id))
                },
                Request::GetTransactionByHash { transaction_hash } => {
                    &&& names_value(text, "\"transaction_hash\":"@, felt_text(transaction_hash))
                },
                Request::GetTransactionByBlockIdAndIndex { block_id, index } => {
                    &&& names_value(text, "\"block_id\":"@, block_id_text(block_id))
                    &&& names_value(text, "\"index\":"@, decimal(index as nat))
                },
                Request::GetTransactionReceipt { transaction_hash } => {
                    &&& names_value(text, "\"transaction_hash\":"@, felt_text(transaction_hash))
                },
                Request::GetBlockTransactionCount { block_id } => {
                    &&& names_value(text, "\"block_id\":"@, block_id_text(block_id))
                },
                Request::GetClass { block_id, class_hash } => {
                    &&& names_value(text, "\"block_id\":"@, block_id_text(block_id))
                    &&& names_value(text, "\"class_hash\":"@, felt_text(class_hash))
                },
                Request::GetClassHashAt { block_id, contract_address } => {
                    &&& names_value(text, "\"block_id\":"@, block_id_text(block_id))
                    &&& names_value(text, "\"contract_address\":"@, felt_text(contract_address))
                },
                Request::GetClassAt { block_id, contract_address } => {
                    &&& names_value(text, "\"block_id\":"@, block_id_text(block_id))
                    &&& names_value(text, "\"contract_address\":"@, felt_text(contract_address))
                },
                Request::GetEvents { from_block, to_block, filter } => {
                    &&& names_value(text, "\"from_block\":"@, bound_text(from_block))
                    &&& names_value(text, "\"to_block\":"@, bound_text(to_block))
                    &&& names_value(text, "\"address\":"@, address_text(filter.address))
                    &&& names_value(text, "\"keys\":"@, keys_text(filter.keys@))
                    &&& names_value(text, "\"chunk_size\":"@, decimal(filter.chunk_size as nat))
                },
                Request::GetStorageAt { contract_address, key, block_id } => {
                    &&& names_value(text, "\"contract_address\":"@, felt_text(contract_address))
                    &&& names_value(text, "\"key\":"@, felt_text(key))
                    &&& names_value(text, "\"block_id\":"@, block_id_text(block_id))
                },
                Request::Call { contract_address, calldata, entry_point_selector, block_id } => {
                    &&& names_value(text, "\"contract_address\":"@, felt_text(contract_address))
                    &&& names_value(text, "\"calldata\":"@, strings_text(calldata@))
                    &&& names_value(text, "\"entry_point_selector\":"@, json_string(entry_point_selector@))
                    &&& names_value(text, "\"block_id\":"@, block_id_text(block_id))
                },
                Request::EstimateFee { transaction, block_id } => {
                    &&& names_value(text, "\"max_fee\":"@, felt_text(transaction.max_fee))
                    &&& names_value(text, "\"nonce\":"@, felt_text(transaction.nonce))
                    &&& names_value(text, "\"sender_address\":"@, felt_text(transaction.sender_address))
                    &&& names_value(text, "\"calldata\":"@, felts_text(transaction.call_data@))
                    &&& names_value(text, "\"simulation_flags\":"@, flags_text(transaction.skip_validate))
                    &&& names_value(text, "\"block_id\":"@, block_id_text(block_id))
                },
                Request::GetNonce { block_id, contract_address } => {
                    &&& names_value(text, "\"block_id\":"@, block_id_text(block_id))
                    &&& names_value(text, "\"contract_address\":"@, felt_text(contract_address))
                },
                Request::BlockNumber => text == "{}"@,
                Request::Syncing => text == "{}"@,
                Request::ChainId => text == "{}"@,
            }
        }),
{
    lemma_leads();
    match r {
        Request::GetBlockWithTxHashes { block_id } => {
            lemma_held_at_end(
                Seq::empty(),
                "{\"block_id\":"@,
                "{"@,
                "\"block_id\":"@,
                block_id_text(block_id),
            );
            let t1 = "{\"block_id\":"@ + block_id_text(block_id);
            lemma_held_in_front(t1, "}"@);
        },
        Request::GetStateUpdate { block_id } => {
            lemma_held_at_end(
                Seq::empty(),
                "{\"block_id\":"@,
                "{"@,
                "\"block_id\":"@,
                block_id_text(block_id),
            );
            let t1 = "{\"block_id\":"@ + block_id_text(block_id);
            lemma_held_in_front(t1, "}"@);
        },
        Request::GetTransactionByHash { transaction_hash } => {
            lemma_held_at_end(
                Seq::empty(),
                "{\"transaction_hash\":"@,
                "{"@,
                "\"transaction_hash\":"@,
                felt_text(transaction_hash),
            );
            let t1 = "{\"transaction_hash\":"@ + felt_text(transaction_hash);
            lemma_held_in_front(t1, "}"@);
        },
        Request::GetTransactionByBlockIdAndIndex { block_id, index } => {
            lemma_held_at_end(
                Seq::empty(),
                "{\"block_id\":"@,
                "{"@,
                "\"block_id\":"@,
                block_id_text(block_id),
            );
            let t1 = "{\"block_id\":"@ + block_id_text(block_id);
            lemma_held_at_end(t1, ",\"index\":"@, ","@, "\"index\":"@, decimal(index as nat));
            let t2 = t1 + ",\"index\":"@ + decimal(index as nat);
            lemma_held_in_front(t2, "}"@);
        },
        Request::GetTransactionReceipt { transaction_hash } => {
            lemma_held_at_end(
                Seq::empty(),
                "{\"transaction_hash\":"@,
                "{"@,
                "\"transaction_hash\":"@,
                felt_text(transaction_hash),
            );
            let t1 = "{\"transaction_hash\":"@ + felt_text(transaction_hash);
            lemma_held_in_front(t1, "}"@);
        },
        Request::GetBlockTransactionCount { block_id } => {
            lemma_held_at_end(
                Seq::empty(),
                "{\"block_id\":"@,
                "{"@,
                "\"block_id\":"@,
                block_id_text(block_id),
            );
            let t1 = "{\"block_id\":"@ + block_id_text(block_id);
            lemma_held_in_front(t1, "}"@);
        },
        Request::GetClass { block_id, class_hash } => {
            lemma_held_at_end(
                Seq::empty(),
                "{\"block_id\":"@,
                "{"@,
                "\"block_id\":"@,
                block_id_text(block_id),
            );
            let t1 = "{\"block_id\":"@ + block_id_text(block_id);
            lemma_held_at_end(t1, ",\"class_hash\":"@, ","@, "\"class_hash\":"@, felt_text(class_hash));
            let t2 = t1 + ",\"class_hash\":"@ + felt_text(class_hash);
            lemma_held_in_front(t2, "}"@);
        },
        Request::GetClassHashAt { block_id, contract_address } => {
            lemma_held_at_end(
                Seq::empty(),
                "{\"block_id\":"@,
                "{"@,
                "\"block_id\":"@,
                block_id_text(block_id),
            );
            let t1 = "{\"block_id\":"@ + block_id_text(block_id);
            lemma_held_at_end(
                t1,
                ",\"contract_address\":"@,
                ","@,
                "\"contract_address\":"@,
                felt_text(contract_address),
            );
            let t2 = t1 + ",\"contract_address\":"@ + felt_text(contract_address);
            lemma_held_in_front(t2, "}"@);
        },
        Request::GetClassAt { block_id, contract_address } => {
            lemma_held_at_end(
                Seq::empty(),
                "{\"block_id\":"@,
                "{"@,
                "\"block_id\":"@,
                block_id_text(block_id),
            );
            let t1 = "{\"block_id\":"@ + block_id_text(block_id);
            lemma_held_at_end(
                t1,
                ",\"contract_address\":"@,
                ","@,
                "\"contract_address\":"@,
                felt_text(contract_address),
            );
            let t2 = t1 + ",\"contract_address\":"@ + felt_text(contract_address);
            lemma_held_in_front(t2, "}"@);
        },
        Request::GetEvents { from_block, to_block, filter } => {
            lemma_held_at_end(
                Seq::empty(),
                "{\"filter\":{\"from_block\":"@,
                "{\"filter\":{"@,
                "\"from_block\":"@,
                bound_text(from_block),
            );
            let t1 = "{\"filter\":{\"from_block\":"@ + bound_text(from_block);
            lemma_held_at_end(t1, ",\"to_block\":"@, ","@, "\"to_block\":"@, bound_text(to_block));
            let t2 = t1 + ",\"to_block\":"@ + bound_text(to_block);
            lemma_held_at_end(
                t2,
                ",\"address\":"@,
                ","@,
                "\"address\":"@,
                address_text(filter.address),
            );
            let t3 = t2 + ",\"address\":"@ + address_text(filter.address);
            lemma_held_at_end(t3, ",\"keys\":"@, ","@, "\"keys\":"@, keys_text(filter.keys@));
            let t4 = t3 + ",\"keys\":"@ + keys_text(filter.keys@);
            lemma_held_at_end(
                t4,
                ",\"chunk_size\":"@,
                ","@,
                "\"chunk_size\":"@,
                decimal(filter.chunk_size as nat),
            );
            let t5 = t4 + ",\"chunk_size\":"@ + decimal(filter.chunk_size as nat);
            lemma_held_in_front(t5, "}}"@);
        },
        Request::GetStorageAt { contract_address, key, block_id } => {
            lemma_held_at_end(
                Seq::empty(),
                "{\"contract_address\":"@,
                "{"@,
                "\"contract_address\":"@,
                felt_text(contract_address),
            );
            let t1 = "{\"contract_address\":"@ + felt_text(contract_address);
            lemma_held_at_end(t1, ",\"key\":"@, ","@, "\"key\":"@, felt_text(key));
            let t2 = t1 + ",\"key\":"@ + felt_text(key);
            lemma_held_at_end(t2, ",\"block_id\":"@, ","@, "\"block_id\":"@, block_id_text(block_id));
            let t3 = t2 + ",\"block_id\":"@ + block_id_text(block_id);
            lemma_held_in_front(t3, "}"@);
        },
        Request::Call { contract_address, calldata, entry_point_selector, block_id } => {
            lemma_held_at_end(
                Seq::empty(),
                "{\"request\":{\"contract_address\":"@,
                "{\"request\":{"@,
                "\"contract_address\":"@,
                felt_text(contract_address),
            );
            let t1 = "{\"request\":{\"contract_address\":"@ + felt_text(contract_address);
            lemma_held_at_end(t1, ",\"calldata\":"@, ","@, "\"calldata\":"@, strings_text(calldata@));
            let t2 = t1 + ",\"calldata\":"@ + strings_text(calldata@);
            lemma_held_at_end(
                t2,
                ",\"entry_point_selector\":"@,
                ","@,
                "\"entry_point_selector\":"@,
                json_string(entry_point_selector@),
            );
            let t3 = t2 + ",\"entry_point_selector\":"@ + json_string(entry_point_selector@);
            lemma_held_at_end(t3, "},\"block_id\":"@, "},"@, "\"block_id\":"@, block_id_text(block_id));
            let t4 = t3 + "},\"block_id\":"@ + block_id_text(block_id);
            lemma_held_in_front(t4, "}"@);
        },
        Request::EstimateFee { transaction, block_id } => {
            lemma_held_at_end(
                Seq::empty(),
                "{\"request\":[{\"type\":\"INVOKE\",\"version\":\"0x1\",\"max_fee\":"@,
                "{\"request\":[{\"type\":\"INVOKE\",\"version\":\"0x1\","@,
                "\"max_fee\":"@,
                felt_text(transaction.max_fee),
            );
            let t1 = "{\"request\":[{\"type\":\"INVOKE\",\"version\":\"0x1\",\"max_fee\":"@ + felt_text(
                transaction.max_fee,
            );
            lemma_held_at_end(
                t1,
                ",\"signature\":[],\"nonce\":"@,
                ",\"signature\":[],"@,
                "\"nonce\":"@,
                felt_text(transaction.nonce),
            );
            let t2 = t1 + ",\"signature\":[],\"nonce\":"@ + felt_text(transaction.nonce);
            lemma_held_at_end(
                t2,
                ",\"sender_address\":"@,
                ","@,
                "\"sender_address\":"@,
                felt_text(transaction.sender_address),
            );
            let t3 = t2 + ",\"sender_address\":"@ + felt_text(transaction.sender_address);
            lemma_held_at_end(
                t3,
                ",\"calldata\":"@,
                ","@,
                "\"calldata\":"@,
                felts_text(transaction.call_data@),
            );
            let t4 = t3 + ",\"calldata\":"@ + felts_text(transaction.call_data@);
            lemma_held_at_end(
                t4,
                "}],\"simulation_flags\":"@,
                "}],"@,
                "\"simulation_flags\":"@,
                flags_text(transaction.skip_validate),
            );
            let t5 = t4 + "}],\"simulation_flags\":"@ + flags_text(transaction.skip_validate);
            lemma_held_at_end(t5, ",\"block_id\":"@, ","@, "\"block_id\":"@, block_id_text(block_id));
            let t6 = t5 + ",\"block_id\":"@ + block_id_text(block_id);
            lemma_held_in_front(t6, "}"@);
        },
        Request::GetNonce { block_id, contract_address } => {
            lemma_held_at_end(
                Seq::empty(),
                "{\"block_id\":"@,
                "{"@,
                "\"block_id\":"@,
                block_id_text(block_id),
            );
            let t1 = "{\"block_id\":"@ + block_id_text(block_id);
            lemma_held_at_end(
                t1,
                ",\"contract_address\":"@,
                ","@,
                "\"contract_address\":"@,
                felt_text(contract_address),
            );
            let t2 = t1 + ",\"contract_address\":"@ + felt_text(contract_address);
            lemma_held_in_front(t2, "}"@);
        },
        _ => {},
    }
}

/// The texts that stand in front of values end in the names of the values.
proof fn lemma_leads()
    ensures
        ",\"address\":"@ == ","@ + "\"address\":"@,
        ",\"block_id\":"@ == ","@ + "\"block_id\":"@,
        ",\"calldata\":"@ == ","@ + "\"calldata\":"@,
        ",\"chunk_size\":"@ == ","@ + "\"chunk_size\":"@,
        ",\"class_hash\":"@ == ","@ + "\"class_hash\":"@,
        ",\"contract_address\":"@ == ","@ + "\"contract_address\":"@,
        ",\"entry_point_selector\":"@ == ","@ + "\"entry_point_selector\":"@,
        ",\"index\":"@ == ","@ + "\"index\":"@,
        ",\"key\":"@ == ","@ + "\"key\":"@,
        ",\"keys\":"@ == ","@ + "\"keys\":"@,
        ",\"sender_address\":"@ == ","@ + "\"sender_address\":"@,
        ",\"signature\":[],\"nonce\":"@ == ",\"signature\":[],"@ + "\"nonce\":"@,
        ",\"to_block\":"@ == ","@ + "\"to_block\":"@,
        "{\"block_id\":"@ == "{"@ + "\"block_id\":"@,
        "{\"contract_address\":"@ == "{"@ + "\"contract_address\":"@,
        "{\"filter\":{\"from_block\":"@ == "{\"filter\":{"@ + "\"from_block\":"@,
        "{\"request\":[{\"type\":\"INVOKE\",\"version\":\"0x1\",\"max_fee\":"@
            == "{\"request\":[{\"type\":\"INVOKE\",\"version\":\"0x1\","@ + "\"max_fee\":"@,
        "{\"request\":{\"contract_address\":"@ == "{\"request\":{"@ + "\"contract_address\":"@,
        "{\"transaction_hash\":"@ == "{"@ + "\"transaction_hash\":"@,
        "},\"block_id\":"@ == "},"@ + "\"block_id\":"@,
        "}],\"simulation_flags\":"@ == "}],"@ + "\"simulation_flags\":"@,
{
    assert(",\"address\":"@ == ","@ + "\"address\":"@) by {
        reveal_strlit(",\"address\":");
        reveal_strlit(",");
        reveal_strlit("\"address\":");
    }
    assert(",\"block_id\":"@ == ","@ + "\"block_id\":"@) by {
        reveal_strlit(",\"block_id\":");
        reveal_strlit(",");
        reveal_strlit("\"block_id\":");
    }
    assert(",\"calldata\":"@ == ","@ + "\"calldata\":"@) by {
        reveal_strlit(",\"calldata\":");
        reveal_strlit(",");
        reveal_strlit("\"calldata\":");
    }
    assert(",\"chunk_size\":"@ == ","@ + "\"chunk_size\":"@) by {
        reveal_strlit(",\"chunk_size\":");
        reveal_strlit(",");
        reveal_strlit("\"chunk_size\":");
    }
    assert(",\"class_hash\":"@ == ","@ + "\"class_hash\":"@) by {
        reveal_strlit(",\"class_hash\":");
        reveal_strlit(",");
        reveal_strlit("\"class_hash\":");
    }
    assert(",\"contract_address\":"@ == ","@ + "\"contract_address\":"@) by {
        reveal_strlit(",\"contract_address\":");
        reveal_strlit(",");
        reveal_strlit("\"contract_address\":");
    }
    assert(",\"entry_point_selector\":"@ == ","@ + "\"entry_point_selector\":"@) by {
        reveal_strlit(",\"entry_point_selector\":");
        reveal_strlit(",");
        reveal_strlit("\"entry_point_selector\":");
    }
    assert(",\"index\":"@ == ","@ + "\"index\":"@) by {
        reveal_strlit(",\"index\":");
        reveal_strlit(",");
        reveal_strlit("\"index\":");
    }
    assert(",\"key\":"@ == ","@ + "\"key\":"@) by {
        reveal_strlit(",\"key\":");
        reveal_strlit(",");
        reveal_strlit("\"key\":");
    }
    assert(",\"keys\":"@ == ","@ + "\"keys\":"@) by {
        reveal_strlit(",\"keys\":");
        reveal_strlit(",");
        reveal_strlit("\"keys\":");
    }
    assert(",\"sender_address\":"@ == ","@ + "\"sender_address\":"@) by {
        reveal_strlit(",\"sender_address\":");
        reveal_strlit(",");
        reveal_strlit("\"sender_address\":");
    }
    assert(",\"signature\":[],\"nonce\":"@ == ",\"signature\":[],"@ + "\"nonce\":"@) by {
        reveal_strlit(",\"signature\":[],\"nonce\":");
        reveal_strlit(",\"signature\":[],");
        reveal_strlit("\"nonce\":");
    }
    assert(",\"to_block\":"@ == ","@ + "\"to_block\":"@) by {
        reveal_strlit(",\"to_block\":");
        reveal_strlit(",");
        reveal_strlit("\"to_block\":");
    }
    assert("{\"block_id\":"@ == "{"@ + "\"block_id\":"@) by {
        reveal_strlit("{\"block_id\":");
        reveal_strlit("{");
        reveal_strlit("\"block_id\":");
    }
    assert("{\"contract_address\":"@ == "{"@ + "\"contract_address\":"@) by {
        reveal_strlit("{\"contract_address\":");
        reveal_strlit("{");
        reveal_strlit("\"contract_address\":");
    }
    assert("{\"filter\":{\"from_block\":"@ == "{\"filter\":{"@ + "\"from_block\":"@) by {
        reveal_strlit("{\"filter\":{\"from_block\":");
        reveal_strlit("{\"filter\":{");
        reveal_strlit("\"from_block\":");
    }
    assert("{\"request\":[{\"type\":\"INVOKE\",\"version\":\"0x1\",\"max_fee\":"@
        == "{\"request\":[{\"type\":\"INVOKE\",\"version\":\"0x1\","@ + "\"max_fee\":"@) by {
        reveal_strlit("{\"request\":[{\"type\":\"INVOKE\",\"version\":\"0x1\",\"max_fee\":");
        reveal_strlit("{\"request\":[{\"type\":\"INVOKE\",\"version\":\"0x1\",");
        reveal_strlit("\"max_fee\":");
    }
    assert("{\"request\":{\"contract_address\":"@ == "{\"request\":{"@ + "\"contract_address\":"@) by {
        reveal_strlit("{\"request\":{\"contract_address\":");
        reveal_strlit("{\"request\":{");
        reveal_strlit("\"contract_address\":");
    }
    assert("{\"transaction_hash\":"@ == "{"@ + "\"transaction_hash\":"@) by {
        reveal_strlit("{\"transaction_hash\":");
        reveal_strlit("{");
        reveal_strlit("\"transaction_hash\":");
    }
    assert("},\"block_id\":"@ == "},"@ + "\"block_id\":"@) by {
        reveal_strlit("},\"block_id\":");
        reveal_strlit("},");
        reveal_strlit("\"block_id\":");
    }
    assert("}],\"simulation_flags\":"@ == "}],"@ + "\"simulation_flags\":"@) by {
        reveal_strlit("}],\"simulation_flags\":");
        reveal_strlit("}],");
        reveal_strlit("\"simulation_flags\":");
    }
}

/// Lists are joined with one comma between the last item of the first and the first item of the
/// second.
pub proof fn law_lists_are_joined_in_order(a: Seq<Seq<char>>, b: Seq<Seq<char>>)
    requires
        a.len() > 0,
        b.len() > 0,
    ensures
        joined(a + b) == joined(a) + ","@ + joined(b),
        a.len() == 1 ==> joined(a) == a[0],
    decreases b.len(),
{
    assert((a + b).drop_last() =~= a + b.drop_last());
    assert((a + b).last() == b.last());
    if b.len() == 1 {
        assert(a + b.drop_last() =~= a);
    } else {
        law_lists_are_joined_in_order(a, b.drop_last());
        assert(joined(a + b) =~= joined(a) + ","@ + joined(b));
    }
}

/// Blocks that are written in the same way are the same, and so are field elements.
pub proof fn law_blocks_are_told_apart(a: BlockId, b: BlockId)
    ensures
        block_id_text(a) == block_id_text(b) ==> a == b,
{
    reveal_strlit("{\"block_number\":");
    reveal_strlit("{\"block_hash\":");
    reveal_strlit("\"pre_confirmed\"");
    reveal_strlit("}");
    reveal_strlit("\"");
    let (s, t) = (block_id_text(a), block_id_text(b));
    if s == t {
        assert("{\"block_number\":"@.len() == 16);
        assert("{\"block_hash\":"@.len() == 14);
        assert("\"pre_confirmed\""@.len() == 15);
        match (a, b) {
            (BlockId::Number(m), BlockId::Number(n)) => {
                assert(s.subrange(16, s.len() - 1) =~= decimal(m as nat));
                assert(t.subrange(16, t.len() - 1) =~= decimal(n as nat));
                law_decimal_is_read_back(m as nat);
                law_decimal_is_read_back(n as nat);
            },
            (BlockId::Hash(g), BlockId::Hash(h)) => {
                assert(s.subrange(15, s.len() - 2) =~= short_hex(g@));
                assert(t.subrange(15, t.len() - 2) =~= short_hex(h@));
                Felt::lemma_view_injective(g, h);
                Felt::lemma_view_injective(h, g);
                lemma_short_hex_injective(g@, h@);
            },
            (BlockId::PreConfirmed, BlockId::PreConfirmed) => {},
            (BlockId::Number(_), BlockId::Hash(_)) => {
                assert(s[8] == "{\"block_number\":"@[8] && t[8] == "{\"block_hash\":"@[8]);
            },
            (BlockId::Hash(_), BlockId::Number(_)) => {
                assert(t[8] == "{\"block_number\":"@[8] && s[8] == "{\"block_hash\":"@[8]);
            },
            (BlockId::PreConfirmed, BlockId::Number(_)) => {
                assert(t[0] == "{\"block_number\":"@[0] && s[0] == "\"pre_confirmed\""@[0]);
            },
            (BlockId::PreConfirmed, BlockId::Hash(_)) => {
                assert(t[0] == "{\"block_hash\":"@[0] && s[0] == "\"pre_confirmed\""@[0]);
            },
            (BlockId::Number(_), BlockId::PreConfirmed) => {
                assert(s[0] == "{\"block_number\":"@[0] && t[0] == "\"pre_confirmed\""@[0]);
            },
            (BlockId::Hash(_), BlockId::PreConfirmed) => {
                assert(s[0] == "{\"block_hash\":"@[0] && t[0] == "\"pre_confirmed\""@[0]);
            },
        }
    }
}

} // verus!
