//! The byte form of trie nodes and of lists of storage indices.
use vstd::prelude::*;
use vstd::slice::slice_subrange;

use crate::bytes::push_bytes;

verus! {

pub open spec fn le_u16(x: u64) -> Seq<u8> {
    seq![(x % 256) as u8, ((x / 0x100) % 256) as u8]
}

pub open spec fn le_u32(x: u64) -> Seq<u8> {
    le_u16(x) + seq![((x / 0x1_0000) % 256) as u8, ((x / 0x100_0000) % 256) as u8]
}

pub open spec fn le_u64(x: u64) -> Seq<u8> {
    le_u32(x) + seq![
        ((x / 0x1_0000_0000) % 256) as u8,
        ((x / 0x100_0000_0000) % 256) as u8,
        ((x / 0x1_0000_0000_0000) % 256) as u8,
        (x / 0x100_0000_0000_0000) as u8,
    ]
}

/// The variable-length form of an integer: one byte up to 250, else a byte that names the width
/// and the little-endian bytes.
#[verifier::opaque]
pub open spec fn varint(x: u64) -> Seq<u8> {
    if x <= 250 {
        seq![x as u8]
    } else if x <= 0xffff {
        seq![251u8] + le_u16(x)
    } else if x <= 0xffff_ffff {
        seq![252u8] + le_u32(x)
    } else {
        seq![253u8] + le_u64(x)
    }
}

pub open spec fn le_value_16(s: Seq<u8>) -> int {
    s[1] + s[2] * 0x100
}

pub open spec fn le_value_32(s: Seq<u8>) -> int {
    le_value_16(s) + s[3] * 0x1_0000 + s[4] * 0x100_0000
}

pub open spec fn le_value_64(s: Seq<u8>) -> int {
    le_value_32(s) + s[5] * 0x1_0000_0000 + s[6] * 0x100_0000_0000 + s[7] * 0x1_0000_0000_0000
        + s[8] * 0x100_0000_0000_0000
}

/// Reads a variable-length integer at the front of `s`: its value and the bytes it takes. Eight
/// byte integers are read only where `wide`.
pub open spec fn parse_varint(s: Seq<u8>, wide: bool) -> Option<(int, int)> {
    if s.len() == 0 {
        None
    } else if s[0] <= 250 {
        Some((s[0] as int, 1))
    } else if s[0] == 251 && s.len() >= 3 {
        Some((le_value_16(s), 3))
    } else if s[0] == 252 && s.len() >= 5 {
        Some((le_value_32(s), 5))
    } else if s[0] == 253 && wide && s.len() >= 9 {
        Some((le_value_64(s), 9))
    } else {
        None
    }
}

/// An integer is read back from its variable-length form, whatever follows it.
pub proof fn lemma_varint_read_back(x: u64, rest: Seq<u8>)
    ensures
        1 <= varint(x).len() <= 9,
        parse_varint(varint(x) + rest, true) == Some((x as int, varint(x).len() as int)),
{
    reveal(varint);
    let s = varint(x) + rest;
    let q1: u64 = x / 0x100;
    let q2: u64 = x / 0x1_0000;
    let q3: u64 = x / 0x100_0000;
    let q4: u64 = x / 0x1_0000_0000;
    let q5: u64 = x / 0x100_0000_0000;
    let q6: u64 = x / 0x1_0000_0000_0000;
    let q7: u64 = x / 0x100_0000_0000_0000;
    assert(q2 == q1 / 256 && q3 == q2 / 256 && q4 == q3 / 256 && q5 == q4 / 256 && q6 == q5 / 256
        && q7 == q6 / 256);
    assert(q7 < 256);
    if x > 250 {
        assert(s[1] == x % 256);
        assert(s[2] == q1 % 256);
        if x > 0xffff {
            assert(s[3] == q2 % 256);
            assert(s[4] == q3 % 256);
            if x > 0xffff_ffff {
                assert(s[5] == q4 % 256);
                assert(s[6] == q5 % 256);
                assert(s[7] == q6 % 256);
                assert(s[8] == q7);
            }
        }
    }
}

/// The error of `bincode` when it cannot read a value.
#[verifier::external_type_specification]
#[verifier::external_body]
pub struct ExBincodeDecodeError(bincode::error::DecodeError);

/// `bincode::encode_to_vec` of a `u64` in the standard configuration. The result is the
/// variable-length form of the integer; a vector takes every byte, so the call does not fail.
#[verifier::external_body]
pub(crate) fn bincode_encode_u64(x: u64) -> (r: Vec<u8>)
    ensures
        r@ == varint(x),
{
    bincode::encode_to_vec(x, bincode::config::standard()).expect("a vector takes every byte")
}

/// `bincode::decode_from_slice` of a `u64` in the standard configuration. It reads the
/// variable-length integer at the front of the slice, and fails where there is none.
#[verifier::external_body]
pub(crate) fn bincode_decode_u64(s: &[u8]) -> (r: Result<
    (u64, usize),
    bincode::error::DecodeError,
>)
    ensures
        r is Ok <==> parse_varint(s@, true) is Some,
        r matches Ok((x, n)) ==> parse_varint(s@, true) == Some((x as int, n as int)),
{
    bincode::decode_from_slice(s, bincode::config::standard())
}

/// `bincode::decode_from_slice` of a `u32` in the standard configuration. It reads the
/// variable-length integer at the front of the slice, and fails where there is none or where it
/// is eight bytes wide.
#[verifier::external_body]
pub(crate) fn bincode_decode_u32(s: &[u8]) -> (r: Result<
    (u32, usize),
    bincode::error::DecodeError,
>)
    ensures
        r is Ok <==> parse_varint(s@, false) is Some,
        r matches Ok((x, n)) ==> parse_varint(s@, false) == Some((x as int, n as int)),
{
    bincode::decode_from_slice(s, bincode::config::standard())
}

/// What cannot be read from bytes, and why.
#[derive(Debug)]
pub enum CodecError {
    /// An integer is malformed or cut off.
    Integer(bincode::error::DecodeError),
    /// A byte string is longer than what is left of the input.
    UnexpectedEnd,
    /// No node has this tag.
    UnexpectedVariant(u32),
    /// A storage index is above its range.
    IndexOutOfRange,
    /// An edge has no byte for the length of its path.
    PathLengthMissing,
}

/// Why bytes cannot be read, without what `bincode` says of it.
pub enum Flaw {
    Integer,
    UnexpectedEnd,
    UnexpectedVariant(u32),
    IndexOutOfRange,
    PathLengthMissing,
}

impl View for CodecError {
    type V = Flaw;

    open spec fn view(&self) -> Flaw {
        match self {
            CodecError::Integer(_) => Flaw::Integer,
            CodecError::UnexpectedEnd => Flaw::UnexpectedEnd,
            CodecError::UnexpectedVariant(v) => Flaw::UnexpectedVariant(*v),
            CodecError::IndexOutOfRange => Flaw::IndexOutOfRange,
            CodecError::PathLengthMissing => Flaw::PathLengthMissing,
        }
    }
}

impl CodecError {
    /// The text of the error, where it has a fixed one.
    pub fn message(&self) -> (r: &'static str)
        ensures
            r@ == match self {
                CodecError::Integer(_) => "Malformed integer"@,
                CodecError::UnexpectedEnd => "Unexpected end of input"@,
                CodecError::UnexpectedVariant(_) => "Unexpected variant"@,
                CodecError::IndexOutOfRange => "TrieStorageIndex out of range"@,
                CodecError::PathLengthMissing => "Edge node's path length is missing"@,
            },
    {
        match self {
            CodecError::Integer(_) => "Malformed integer",
            CodecError::UnexpectedEnd => "Unexpected end of input",
            CodecError::UnexpectedVariant(_) => "Unexpected variant",
            CodecError::IndexOutOfRange => "TrieStorageIndex out of range",
            CodecError::PathLengthMissing => "Edge node's path length is missing",
        }
    }
}

/// The largest storage index.
pub const MAX_STORAGE_INDEX: u64 = 0x7fff_ffff_ffff_ffff;

/// The storage index of a trie node. It lies in `0..=i64::MAX`, so that it is a signed 64-bit
/// integer too.
#[derive(Clone, Copy, Debug, PartialEq, Eq, Structural, Hash)]
pub struct TrieStorageIndex(u64);

impl View for TrieStorageIndex {
    type V = u64;

    closed spec fn view(&self) -> u64 {
        self.0
    }
}

impl Default for TrieStorageIndex {
    fn default() -> (r: Self)
        ensures
            r@ == 0,
    {
        TrieStorageIndex(0)
    }
}

impl TrieStorageIndex {
    #[verifier::type_invariant]
    spec fn in_range(self) -> bool {
        self.0 <= MAX_STORAGE_INDEX
    }

    /// Indices with one value are equal.
    pub broadcast proof fn lemma_view_injective(a: TrieStorageIndex, b: TrieStorageIndex)
        ensures
            #![trigger a@, b@]
            a@ == b@ ==> a == b,
    {
    }

    pub fn new(val: u64) -> (r: Option<Self>)
        ensures
            r is Some <==> val <= MAX_STORAGE_INDEX,
            r matches Some(i) ==> i@ == val,
    {
        if val <= MAX_STORAGE_INDEX {
            Some(TrieStorageIndex(val))
        } else {
            None
        }
    }

    pub fn get(&self) -> (r: u64)
        ensures
            r == self@,
            r <= MAX_STORAGE_INDEX,
    {
        proof {
            use_type_invariant(self);
        }
        self.0
    }

    pub fn to_i64(&self) -> (r: i64)
        ensures
            r == self@,
            r >= 0,
    {
        proof {
            use_type_invariant(self);
        }
        self.0 as i64
    }

    /// Reads an index at the front of `s`; gives it with the number of bytes it takes.
    pub fn decode(s: &[u8]) -> (r: Result<(Self, usize), CodecError>)
        ensures
            parse_index(s@) == (match r {
                Ok((i, n)) => Ok((i@, n as int)),
                Err(e) => Err(e@),
            }),
    {
        match bincode_decode_u64(s) {
            Err(e) => Err(CodecError::Integer(e)),
            Ok((x, n)) => match TrieStorageIndex::new(x) {
                Some(i) => Ok((i, n)),
                None => Err(CodecError::IndexOutOfRange),
            },
        }
    }

    /// The variable-length form of the index.
    pub fn encode(&self) -> (r: Vec<u8>)
        ensures
            r@ == varint(self@),
    {
        bincode_encode_u64(self.0)
    }
}

/// Bit `j` of a byte, counted from the most significant one.
pub open spec fn bit(b: u8, j: int) -> bool {
    if j == 0 {
        b / 128 % 2 == 1
    } else if j == 1 {
        b / 64 % 2 == 1
    } else if j == 2 {
        b / 32 % 2 == 1
    } else if j == 3 {
        b / 16 % 2 == 1
    } else if j == 4 {
        b / 8 % 2 == 1
    } else if j == 5 {
        b / 4 % 2 == 1
    } else if j == 6 {
        b / 2 % 2 == 1
    } else {
        b % 2 == 1
    }
}

/// The weight of bit `i` of a bit string in its byte; bits past the end weigh nothing.
pub open spec fn weight(bits: Seq<bool>, i: int, w: int) -> int {
    if i < bits.len() && bits[i] {
        w
    } else {
        0
    }
}

/// The byte that holds eight bits from position `at` on, the first one most significant.
pub open spec fn packed_byte(bits: Seq<bool>, at: int) -> u8 {
    (weight(bits, at, 128) + weight(bits, at + 1, 64) + weight(bits, at + 2, 32) + weight(
        bits,
        at + 3,
        16,
    ) + weight(bits, at + 4, 8) + weight(bits, at + 5, 4) + weight(bits, at + 6, 2) + weight(
        bits,
        at + 7,
        1,
    )) as u8
}

/// A bit string in bytes, the first bit most significant, filled up with zeroes.
pub open spec fn packed(bits: Seq<bool>) -> Seq<u8> {
    Seq::new(((bits.len() + 7) / 8) as nat, |k: int| packed_byte(bits, 8 * k))
}

/// The first `n` bits of a byte string; bits past its end are zero.
pub open spec fn unpacked(data: Seq<u8>, n: nat) -> Seq<bool> {
    Seq::new(n, |i: int| i < 8 * data.len() && bit(data[i / 8], i % 8))
}

proof fn lemma_packed_bit(bits: Seq<bool>, at: int, j: int)
    requires
        0 <= at,
        0 <= j < 8,
        at + j < bits.len(),
    ensures
        bit(packed_byte(bits, at), j) == bits[at + j],
{
}

/// Unpacking gives back the packed bits.
pub proof fn lemma_unpack_packed(bits: Seq<bool>)
    ensures
        unpacked(packed(bits), bits.len()) == bits,
{
    let data = packed(bits);
    assert forall|i: int| 0 <= i < bits.len() implies unpacked(data, bits.len())[i] == bits[i] by {
        lemma_packed_bit(bits, 8 * (i / 8), i % 8);
    }
    assert(unpacked(data, bits.len()) =~= bits);
}

fn bit_weight(bits: &Vec<bool>, at: usize, j: usize, w: u8) -> (r: u8)
    requires
        at <= bits@.len(),
    ensures
        r == weight(bits@, at + j, w as int),
{
    if j < bits.len() - at && bits[at + j] {
        w
    } else {
        0
    }
}

/// Packs bits into bytes.
pub fn pack(bits: &Vec<bool>) -> (r: Vec<u8>)
    ensures
        r@ == packed(bits@),
{
    let mut out: Vec<u8> = Vec::new();
    let mut at: usize = 0;
    let n: usize = bits.len();
    while at < n
        invariant
            n == bits@.len(),
            at <= n,
            at == 8 * out@.len() || (at == n && out@.len() == (n + 7) / 8),
            forall|k: int| 0 <= k < out@.len() ==> out@[k] == packed_byte(bits@, 8 * k),
        decreases n - at,
    {
        out.push(
            bit_weight(bits, at, 0, 128) + bit_weight(bits, at, 1, 64) + bit_weight(
                bits,
                at,
                2,
                32,
            ) + bit_weight(bits, at, 3, 16) + bit_weight(bits, at, 4, 8) + bit_weight(
                bits,
                at,
                5,
                4,
            ) + bit_weight(bits, at, 6, 2) + bit_weight(bits, at, 7, 1),
        );
        if n - at >= 8 {
            at = at + 8;
        } else {
            at = n;
        }
    }
    assert(out@ =~= packed(bits@));
    out
}

fn byte_bit(b: u8, j: usize) -> (r: bool)
    requires
        j < 8,
    ensures
        r == bit(b, j as int),
{
    if j == 0 {
        b / 128 % 2 == 1
    } else if j == 1 {
        b / 64 % 2 == 1
    } else if j == 2 {
        b / 32 % 2 == 1
    } else if j == 3 {
        b / 16 % 2 == 1
    } else if j == 4 {
        b / 8 % 2 == 1
    } else if j == 5 {
        b / 4 % 2 == 1
    } else if j == 6 {
        b / 2 % 2 == 1
    } else {
        b % 2 == 1
    }
}

/// Takes the first `n` bits out of bytes.
pub fn unpack(data: &[u8], n: u8) -> (r: Vec<bool>)
    ensures
        r@ == unpacked(data@, n as nat),
{
    let mut out: Vec<bool> = Vec::new();
    let mut i: usize = 0;
    while i < n as usize
        invariant
            i <= n,
            out@ == unpacked(data@, i as nat),
        decreases n - i,
    {
        let b: bool = i / 8 < data.len() && byte_bit(data[i / 8], i % 8);
        out.push(b);
        i = i + 1;
        assert(out@ =~= unpacked(data@, i as nat));
    }
    out
}

/// A trie node as it is stored: its children are storage indices.
#[derive(Debug)]
pub enum StoredNode {
    Binary { left: TrieStorageIndex, right: TrieStorageIndex },
    Edge { child: TrieStorageIndex, path: Vec<bool> },
    LeafBinary,
    LeafEdge { path: Vec<bool> },
}

/// A stored trie node over integers and bit sequences.
pub enum NodeView {
    Binary { left: u64, right: u64 },
    Edge { child: u64, path: Seq<bool> },
    LeafBinary,
    LeafEdge { path: Seq<bool> },
}

impl View for StoredNode {
    type V = NodeView;

    open spec fn view(&self) -> NodeView {
        match self {
            StoredNode::Binary { left, right } => NodeView::Binary { left: left@, right: right@ },
            StoredNode::Edge { child, path } => NodeView::Edge { child: child@, path: path@ },
            StoredNode::LeafBinary => NodeView::LeafBinary,
            StoredNode::LeafEdge { path } => NodeView::LeafEdge { path: path@ },
        }
    }
}

/// A path: the number of bytes, the packed bits, and the number of bits in one byte.
pub open spec fn path_encoding(path: Seq<bool>) -> Seq<u8> {
    varint((packed(path).len() + 1) as u64) + packed(path).push((path.len() % 256) as u8)
}

/// The byte form of a node: its tag, then its fields.
pub open spec fn node_encoding(n: NodeView) -> Seq<u8> {
    match n {
        NodeView::Binary { left, right } => seq![0u8] + varint(left) + varint(right),
        NodeView::Edge { child, path } => seq![1u8] + varint(child) + path_encoding(path),
        NodeView::LeafBinary => seq![2u8],
        NodeView::LeafEdge { path } => seq![3u8] + path_encoding(path),
    }
}

/// Reads a storage index at the front of `s`.
pub open spec fn parse_index(s: Seq<u8>) -> Result<(u64, int), Flaw> {
    match parse_varint(s, true) {
        Some((x, n)) => if x <= MAX_STORAGE_INDEX {
            Ok((x as u64, n))
        } else {
            Err(Flaw::IndexOutOfRange)
        },
        None => Err(Flaw::Integer),
    }
}

/// Reads a path at the front of `s`.
pub open spec fn parse_path(s: Seq<u8>) -> Result<Seq<bool>, Flaw> {
    match parse_varint(s, true) {
        Some((len, n)) => if len == 0 {
            Err(Flaw::PathLengthMissing)
        } else if n + len > s.len() {
            Err(Flaw::UnexpectedEnd)
        } else {
            Ok(unpacked(s.subrange(n, n + len - 1), s[n + len - 1] as nat))
        },
        None => Err(Flaw::Integer),
    }
}

/// Reads a node at the front of `s`; what follows it is not looked at.
pub open spec fn parse_node(s: Seq<u8>) -> Result<NodeView, Flaw> {
    match parse_varint(s, false) {
        None => Err(Flaw::Integer),
        Some((tag, n)) => {
            let s1 = s.subrange(n, s.len() as int);
            if tag == 0 {
                match parse_index(s1) {
                    Err(e) => Err(e),
                    Ok((left, k)) => match parse_index(s1.subrange(k, s1.len() as int)) {
                        Err(e) => Err(e),
                        Ok((right, _)) => Ok(NodeView::Binary { left, right }),
                    },
                }
            } else if tag == 1 {
                match parse_index(s1) {
                    Err(e) => Err(e),
                    Ok((child, k)) => match parse_path(s1.subrange(k, s1.len() as int)) {
                        Err(e) => Err(e),
                        Ok(path) => Ok(NodeView::Edge { child, path }),
                    },
                }
            } else if tag == 2 {
                Ok(NodeView::LeafBinary)
            } else if tag == 3 {
                match parse_path(s1) {
                    Err(e) => Err(e),
                    Ok(path) => Ok(NodeView::LeafEdge { path }),
                }
            } else {
                Err(Flaw::UnexpectedVariant(tag as u32))
            }
        },
    }
}

/// Whether a node's fields are in the range that its byte form can hold.
pub open spec fn node_fits(n: NodeView) -> bool {
    match n {
        NodeView::Binary { left, right } => left <= MAX_STORAGE_INDEX && right <= MAX_STORAGE_INDEX,
        NodeView::Edge { child, path } => child <= MAX_STORAGE_INDEX && path.len() <= 255,
        NodeView::LeafBinary => true,
        NodeView::LeafEdge { path } => path.len() <= 255,
    }
}

proof fn lemma_path_read_back(path: Seq<bool>, rest: Seq<u8>)
    requires
        path.len() <= 255,
    ensures
        parse_path(path_encoding(path) + rest) == Ok::<Seq<bool>, Flaw>(path),
{
    let data = packed(path);
    let len = (data.len() + 1) as u64;
    let tail = data.push((path.len() % 256) as u8) + rest;
    let s = path_encoding(path) + rest;
    assert(s =~= varint(len) + tail);
    lemma_varint_read_back(len, tail);
    let n = varint(len).len() as int;
    assert(s.subrange(n, n + len - 1) =~= data);
    assert(s[n + len - 1] == path.len());
    lemma_unpack_packed(path);
}

/// A node is read back from its byte form, whatever follows it.
pub proof fn lemma_node_read_back(n: NodeView, rest: Seq<u8>)
    requires
        node_fits(n),
    ensures
        parse_node(node_encoding(n) + rest) == Ok::<NodeView, Flaw>(n),
{
    let s = node_encoding(n) + rest;
    let s1 = s.subrange(1, s.len() as int);
    match n {
        NodeView::Binary { left, right } => {
            assert(s1 =~= varint(left) + (varint(right) + rest));
            lemma_varint_read_back(left, varint(right) + rest);
            let k = varint(left).len() as int;
            assert(s1.subrange(k, s1.len() as int) =~= varint(right) + rest);
            lemma_varint_read_back(right, rest);
        },
        NodeView::Edge { child, path } => {
            assert(s1 =~= varint(child) + (path_encoding(path) + rest));
            lemma_varint_read_back(child, path_encoding(path) + rest);
            let k = varint(child).len() as int;
            assert(s1.subrange(k, s1.len() as int) =~= path_encoding(path) + rest);
            lemma_path_read_back(path, rest);
        },
        NodeView::LeafBinary => {},
        NodeView::LeafEdge { path } => {
            assert(s1 =~= path_encoding(path) + rest);
            lemma_path_read_back(path, rest);
        },
    }
}

/// A node does not fit into the buffer given.
#[derive(Clone, Copy, Debug, PartialEq, Eq, Structural)]
pub struct EncodeError;

fn encode_path(path: &Vec<bool>) -> (r: Vec<u8>)
    ensures
        r@ == path_encoding(path@),
{
    let mut data = pack(path);
    data.push((path.len() % 256) as u8);
    let mut out: Vec<u8> = bincode_encode_u64(data.len() as u64);
    push_bytes(&mut out, data.as_slice());
    out
}

fn decode_path(s: &[u8]) -> (r: Result<Vec<bool>, CodecError>)
    ensures
        parse_path(s@) == (match r {
            Ok(p) => Ok(p@),
            Err(e) => Err(e@),
        }),
{
    match bincode_decode_u64(s) {
        Err(e) => Err(CodecError::Integer(e)),
        Ok((len, n)) => {
            if len == 0 {
                return Err(CodecError::PathLengthMissing);
            }
            if len > (s.len() - n) as u64 {
                return Err(CodecError::UnexpectedEnd);
            }
            let end: usize = n + len as usize;
            Ok(unpack(slice_subrange(s, n, end - 1), s[end - 1]))
        },
    }
}

impl StoredNode {
    /// The byte form of the node.
    pub fn to_bytes(&self) -> (r: Vec<u8>)
        ensures
            r@ == node_encoding(self@),
    {
        match self {
            StoredNode::Binary { left, right } => {
                let mut out: Vec<u8> = vec![0u8];
                push_bytes(&mut out, left.encode().as_slice());
                push_bytes(&mut out, right.encode().as_slice());
                out
            },
            StoredNode::Edge { child, path } => {
                let mut out: Vec<u8> = vec![1u8];
                push_bytes(&mut out, child.encode().as_slice());
                push_bytes(&mut out, encode_path(path).as_slice());
                out
            },
            StoredNode::LeafBinary => vec![2u8],
            StoredNode::LeafEdge { path } => {
                let mut out: Vec<u8> = vec![3u8];
                push_bytes(&mut out, encode_path(path).as_slice());
                out
            },
        }
    }

    /// Writes the byte form of the node to the front of `buffer` and gives its length.
    pub fn encode(&self, buffer: &mut Vec<u8>) -> (r: Result<usize, EncodeError>)
        ensures
            r is Ok <==> node_encoding(self@).len() <= old(buffer)@.len(),
            r matches Ok(n) ==> n == node_encoding(self@).len() && final(buffer)@ == node_encoding(
                self@,
            ) + old(buffer)@.subrange(n as int, old(buffer)@.len() as int),
            r is Err ==> final(buffer)@ == old(buffer)@,
    {
        let data = self.to_bytes();
        if data.len() > buffer.len() {
            return Err(EncodeError);
        }
        let mut i: usize = 0;
        assert(buffer@ =~= data@.subrange(0, 0) + old(buffer)@.subrange(
            0,
            old(buffer)@.len() as int,
        ));
        while i < data.len()
            invariant
                i <= data@.len() <= old(buffer)@.len(),
                buffer@ == data@.subrange(0, i as int) + old(buffer)@.subrange(
                    i as int,
                    old(buffer)@.len() as int,
                ),
            decreases data@.len() - i,
        {
            buffer.set(i, data[i]);
            i = i + 1;
            assert(buffer@ =~= data@.subrange(0, i as int) + old(buffer)@.subrange(
                i as int,
                old(buffer)@.len() as int,
            ));
        }
        assert(data@.subrange(0, i as int) =~= data@);
        Ok(i)
    }

    /// Reads a node from bytes; what follows it is not looked at.
    pub fn decode(data: &[u8]) -> (r: Result<StoredNode, CodecError>)
        ensures
            parse_node(data@) == (match r {
                Ok(node) => Ok(node@),
                Err(e) => Err(e@),
            }),
    {
        match bincode_decode_u32(data) {
            Err(e) => Err(CodecError::Integer(e)),
            Ok((tag, n)) => {
                let s1 = slice_subrange(data, n, data.len());
                if tag == 0 {
                    let (left, k) = match TrieStorageIndex::decode(s1) {
                        Ok(d) => d,
                        Err(e) => {
                            return Err(e);
                        },
                    };
                    match TrieStorageIndex::decode(slice_subrange(s1, k, s1.len())) {
                        Ok((right, _)) => Ok(StoredNode::Binary { left, right }),
                        Err(e) => Err(e),
                    }
                } else if tag == 1 {
                    let (child, k) = match TrieStorageIndex::decode(s1) {
                        Ok(d) => d,
                        Err(e) => {
                            return Err(e);
                        },
                    };
                    match decode_path(slice_subrange(s1, k, s1.len())) {
                        Ok(path) => Ok(StoredNode::Edge { child, path }),
                        Err(e) => Err(e),
                    }
                } else if tag == 2 {
                    Ok(StoredNode::LeafBinary)
                } else if tag == 3 {
                    match decode_path(s1) {
                        Ok(path) => Ok(StoredNode::LeafEdge { path }),
                        Err(e) => Err(e),
                    }
                } else {
                    Err(CodecError::UnexpectedVariant(tag))
                }
            },
        }
    }
}

} // verus!
