//! Cross-cutting metric labels derived from a request at the router boundary.
use vstd::prelude::*;

use crate::text::same_text;

verus! {

/// How a request targeted a block, derived from the shape of its `block_id` parameter. Used as the
/// `block_target` metric label.
#[derive(Debug, Clone, Copy, PartialEq, Eq, Structural)]
pub enum BlockTarget {
    Latest,
    Pending,
    ByNumber,
    ByHash,
    /// No `block_id` parameter: a method that takes none, or an empty positional argument list.
    NoBlock,
    /// A non-empty positional argument list, or an unrecognised `block_id` shape.
    Unknown,
}

impl BlockTarget {
    pub fn as_str(self) -> (r: &'static str)
        ensures
            r@ == match self {
                BlockTarget::Latest => "latest"@,
                BlockTarget::Pending => "pending"@,
                BlockTarget::ByNumber => "by_number"@,
                BlockTarget::ByHash => "by_hash"@,
                BlockTarget::NoBlock => "none"@,
                BlockTarget::Unknown => "unknown"@,
            },
    {
        match self {
            BlockTarget::Latest => "latest",
            BlockTarget::Pending => "pending",
            BlockTarget::ByNumber => "by_number",
            BlockTarget::ByHash => "by_hash",
            BlockTarget::NoBlock => "none",
            BlockTarget::Unknown => "unknown",
        }
    }
}

/// The shape of a parameter.
#[derive(Debug)]
pub enum ParamValue {
    Text(String),
    /// An object with these fields.
    Fields(Vec<String>),
    Other,
}

/// The shape of the parameters of a request.
#[derive(Debug)]
pub enum Params {
    List(Vec<ParamValue>),
    Named(Vec<(String, ParamValue)>),
    Other,
}

/// The shape of a parameter, over character sequences.
pub enum ParamShape {
    Text(Seq<char>),
    Fields(Seq<Seq<char>>),
    Other,
}

/// The shape of the parameters of a request, over character sequences.
pub enum ParamsShape {
    List(Seq<ParamShape>),
    Named(Seq<(Seq<char>, ParamShape)>),
    Other,
}

impl View for ParamValue {
    type V = ParamShape;

    open spec fn view(&self) -> ParamShape {
        match self {
            ParamValue::Text(s) => ParamShape::Text(s@),
            ParamValue::Fields(f) => ParamShape::Fields(f@.map_values(|s: String| s@)),
            ParamValue::Other => ParamShape::Other,
        }
    }
}

impl View for Params {
    type V = ParamsShape;

    open spec fn view(&self) -> ParamsShape {
        match self {
            Params::List(items) => ParamsShape::List(items@.map_values(|v: ParamValue| v@)),
            Params::Named(fields) => ParamsShape::Named(named_shapes(fields@)),
            Params::Other => ParamsShape::Other,
        }
    }
}

/// The shape of the JSON value that a text denotes, where it denotes one.
pub uninterp spec fn json_shape(text: Seq<char>) -> Option<ParamsShape>;

/// `serde_json::from_str` into a `serde_json::Value`, of which the shape is kept: the items of an
/// array, and the fields of an object in the order in which `serde_json` keeps them, each as the
/// text that it is or by the names of its fields. What shape a text has is left to `serde_json`.
#[verifier::external_body]
pub(crate) fn parse_params(raw: &str) -> (r: Option<Params>)
    ensures
        match r {
            Some(p) => json_shape(raw@) == Some(p@),
            None => json_shape(raw@) is None,
        },
{
    let shape = |v| match v {
        serde_json::Value::String(s) => ParamValue::Text(s),
        serde_json::Value::Object(o) => ParamValue::Fields(o.into_iter().map(|(k, _)| k).collect()),
        _ => ParamValue::Other,
    };
    match serde_json::from_str(raw) {
        Err(_) => None,
        Ok(serde_json::Value::Array(items)) => Some(Params::List(items.into_iter().map(shape).collect())),
        Ok(serde_json::Value::Object(o)) => Some(Params::Named(o.into_iter().map(|(k, v)| (k, shape(v))).collect())),
        Ok(_) => Some(Params::Other),
    }
}

/// The target that a `block_id` stands for.
pub open spec fn target_of_block_id(id: ParamShape) -> BlockTarget {
    match id {
        ParamShape::Text(s) => if s == "latest"@ {
            BlockTarget::Latest
        } else if s == "pending"@ {
            BlockTarget::Pending
        } else {
            BlockTarget::Unknown
        },
        ParamShape::Fields(f) => if f.contains("block_number"@) {
            BlockTarget::ByNumber
        } else if f.contains("block_hash"@) {
            BlockTarget::ByHash
        } else {
            BlockTarget::Unknown
        },
        ParamShape::Other => BlockTarget::Unknown,
    }
}

/// The first parameter with a name.
pub open spec fn param_named(fields: Seq<(Seq<char>, ParamShape)>, name: Seq<char>) -> Option<
    ParamShape,
>
    decreases fields.len(),
{
    if fields.len() == 0 {
        None
    } else {
        match param_named(fields.drop_last(), name) {
            Some(v) => Some(v),
            None => if fields.last().0 == name {
                Some(fields.last().1)
            } else {
                None
            },
        }
    }
}

/// The target of a request with these parameters. Positional parameters: an empty list carries no
/// `block_id`; a non-empty list can't be classified by field name. Named parameters are classified
/// by the shape of the `block_id` field.
pub open spec fn target_of(params: ParamsShape) -> BlockTarget {
    match params {
        ParamsShape::List(items) => if items.len() == 0 {
            BlockTarget::NoBlock
        } else {
            BlockTarget::Unknown
        },
        ParamsShape::Named(fields) => match param_named(fields, "block_id"@) {
            None => BlockTarget::NoBlock,
            Some(id) => target_of_block_id(id),
        },
        ParamsShape::Other => BlockTarget::Unknown,
    }
}

fn contains_text(list: &Vec<String>, text: &str) -> (r: bool)
    ensures
        r == list@.map_values(|s: String| s@).contains(text@),
{
    let ghost views = list@.map_values(|s: String| s@);
    let mut i: usize = 0;
    while i < list.len()
        invariant
            i <= list@.len(),
            views == list@.map_values(|s: String| s@),
            forall|j: int| 0 <= j < i ==> #[trigger] views[j] != text@,
        decreases list@.len() - i,
    {
        if same_text(list[i].as_str(), text) {
            assert(views[i as int] == text@);
            return true;
        }
        assert(views[i as int] != text@);
        i = i + 1;
    }
    false
}

fn classify_block_id(id: &ParamValue) -> (r: BlockTarget)
    ensures
        r == target_of_block_id(id@),
{
    match id {
        ParamValue::Text(s) => if same_text(s.as_str(), "latest") {
            BlockTarget::Latest
        } else if same_text(s.as_str(), "pending") {
            BlockTarget::Pending
        } else {
            BlockTarget::Unknown
        },
        ParamValue::Fields(f) => if contains_text(f, "block_number") {
            BlockTarget::ByNumber
        } else if contains_text(f, "block_hash") {
            BlockTarget::ByHash
        } else {
            BlockTarget::Unknown
        },
        ParamValue::Other => BlockTarget::Unknown,
    }
}

pub proof fn lemma_param_found(fields: Seq<(Seq<char>, ParamShape)>, name: Seq<char>, i: int)
    requires
        0 <= i < fields.len(),
        fields[i].0 == name,
        forall|j: int| 0 <= j < i ==> (#[trigger] fields[j]).0 != name,
    ensures
        param_named(fields, name) == Some(fields[i].1),
    decreases fields.len(),
{
    let front = fields.drop_last();
    if i < front.len() {
        assert(forall|j: int| 0 <= j < front.len() ==> front[j] == fields[j]);
        lemma_param_found(front, name, i);
    } else {
        lemma_param_missing(front, name);
    }
}

pub proof fn lemma_param_missing(fields: Seq<(Seq<char>, ParamShape)>, name: Seq<char>)
    requires
        forall|j: int| 0 <= j < fields.len() ==> (#[trigger] fields[j]).0 != name,
    ensures
        param_named(fields, name) is None,
    decreases fields.len(),
{
    if fields.len() > 0 {
        let front = fields.drop_last();
        assert(forall|j: int| 0 <= j < front.len() ==> front[j] == fields[j]);
        lemma_param_missing(front, name);
    }
}

/// The names and shapes of parameters.
pub open spec fn named_shapes(fields: Seq<(String, ParamValue)>) -> Seq<(Seq<char>, ParamShape)> {
    fields.map_values(|f: (String, ParamValue)| (f.0@, f.1@))
}

/// The first parameter with a name.
pub fn find_param<'a>(fields: &'a Vec<(String, ParamValue)>, name: &str) -> (r: Option<
    &'a ParamValue,
>)
    ensures
        match param_named(named_shapes(fields@), name@) {
            Some(v) => r matches Some(p) && p@ == v,
            None => r is None,
        },
{
    let ghost views = named_shapes(fields@);
    let mut i: usize = 0;
    while i < fields.len()
        invariant
            i <= fields@.len(),
            views == named_shapes(fields@),
            forall|j: int| 0 <= j < i ==> (#[trigger] views[j]).0 != name@,
        decreases fields@.len() - i,
    {
        if same_text(fields[i].0.as_str(), name) {
            proof {
                assert(views[i as int].0 == name@);
                lemma_param_found(views, name@, i as int);
            }
            return Some(&fields[i].1);
        }
        assert(views[i as int].0 != name@);
        i = i + 1;
    }
    proof {
        lemma_param_missing(views, name@);
    }
    None
}

/// Classifies parameters of a known shape.
pub fn classify_params(params: &Params) -> (r: BlockTarget)
    ensures
        r == target_of(params@),
{
    match params {
        Params::List(items) => if items.len() == 0 {
            BlockTarget::NoBlock
        } else {
            BlockTarget::Unknown
        },
        Params::Named(fields) => match find_param(fields, "block_id") {
            None => BlockTarget::NoBlock,
            Some(id) => classify_block_id(id),
        },
        Params::Other => BlockTarget::Unknown,
    }
}

/// Classify the `block_id` of a request from its raw params, without depending on a version-specific
/// deserializer: keys off the stable JSON shape only.
pub fn classify_block_target(params: Option<&str>) -> (r: BlockTarget)
    ensures
        r == match params {
            None => BlockTarget::NoBlock,
            Some(raw) => match json_shape(raw@) {
                None => BlockTarget::Unknown,
                Some(shape) => target_of(shape),
            },
        },
{
    match params {
        None => BlockTarget::NoBlock,
        Some(raw) => match parse_params(raw) {
            None => BlockTarget::Unknown,
            Some(p) => classify_params(&p),
        },
    }
}

} // verus!
