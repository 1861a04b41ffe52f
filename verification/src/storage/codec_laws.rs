//! The byte forms of numbers, paths and nodes, and that nothing is lost in them.
use vstd::prelude::*;

use crate::storage::codec::{
    lemma_node_read_back, lemma_unpack_packed, lemma_varint_read_back, node_encoding, node_fits,
    packed, packed_byte, parse_node, path_encoding, unpacked, varint, weight, Flaw, NodeView,
};
use crate::storage::markers::marker_encoding;

verus! {

/// A number up to 250 is one byte. A larger one is a byte that names the width, then the number
/// with its lowest byte first, in two, four or eight bytes, as few as do.
pub proof fn law_numbers_in_bytes(x: u64)
    ensures
        x <= 250 ==> varint(x) == seq![x as u8],
        250 < x <= 0xffff ==> varint(x).len() == 3 && varint(x)[0] == 251 && varint(x)[1]
            + varint(x)[2] * 0x100 == x,
        0xffff < x <= 0xffff_ffff ==> varint(x).len() == 5 && varint(x)[0] == 252,
        0xffff_ffff < x ==> varint(x).len() == 9 && varint(x)[0] == 253,
        x > 250 ==> varint(x)[1] == x % 256,
{
    reveal(varint);
}

/// Bits are packed from the front, eight to a byte: the first of each eight is the most significant
/// one, the last the least. What is left of the last byte is zero.
pub proof fn law_bits_are_packed_from_the_front(bits: Seq<bool>, i: int)
    requires
        0 <= i < bits.len(),
    ensures
        8 * packed(bits).len() >= bits.len() > 8 * (packed(bits).len() - 1),
        i % 8 == 0 ==> (packed(bits)[i / 8] >= 128 <==> bits[i]),
        i % 8 == 7 ==> (packed(bits)[i / 8] % 2 == 1 <==> bits[i]),
        i == bits.len() - 1 && i % 8 == 0 ==> packed(bits)[i / 8] == (if bits[i] {
            128
        } else {
            0int
        }),
        unpacked(packed(bits), bits.len()) == bits,
{
    lemma_unpack_packed(bits);
    let k = i / 8;
    assert(packed(bits)[k] == packed_byte(bits, 8 * k));
    lemma_outer_bits(bits, 8 * k);
    assert(i % 8 == 0 ==> 8 * k == i);
    assert(i % 8 == 7 ==> 8 * k + 7 == i);
}

proof fn lemma_outer_bits(bits: Seq<bool>, at: int)
    requires
        0 <= at < bits.len(),
    ensures
        packed_byte(bits, at) >= 128 <==> bits[at],
        at + 7 < bits.len() ==> (packed_byte(bits, at) % 2 == 1 <==> bits[at + 7]),
        at == bits.len() - 1 ==> packed_byte(bits, at) == (if bits[at] {
            128
        } else {
            0int
        }),
{
    let w0 = weight(bits, at, 128);
    let w1 = weight(bits, at + 1, 64);
    let w2 = weight(bits, at + 2, 32);
    let w3 = weight(bits, at + 3, 16);
    let w4 = weight(bits, at + 4, 8);
    let w5 = weight(bits, at + 5, 4);
    let w6 = weight(bits, at + 6, 2);
    let w7 = weight(bits, at + 7, 1);
    assert(packed_byte(bits, at) == w0 + w1 + w2 + w3 + w4 + w5 + w6 + w7);
}

/// The byte form of a node starts with its kind, and ends with the number of bits of its path where
/// it has one.
pub proof fn law_node_in_bytes(n: NodeView)
    requires
        node_fits(n),
    ensures
        ({
            let s = node_encoding(n);
            match n {
                NodeView::Binary { left, right } => s == seq![0u8] + varint(left) + varint(right),
                NodeView::Edge { child, path } => s.len() > 2 && s[0] == 1 && s.last() == path.len()
                    && s.subrange(1, 1 + varint(child).len() as int) == varint(child),
                NodeView::LeafBinary => s == seq![2u8],
                NodeView::LeafEdge { path } => s.len() > 1 && s[0] == 3 && s.last() == path.len(),
            }
        }),
{
    let s = node_encoding(n);
    match n {
        NodeView::Edge { child, path } => {
            let p = path_encoding(path);
            lemma_path_ends(path);
            assert(s =~= seq![1u8] + varint(child) + p);
            assert(s.subrange(1, 1 + varint(child).len() as int) =~= varint(child));
            assert(s.last() == p.last());
        },
        NodeView::LeafEdge { path } => {
            let p = path_encoding(path);
            lemma_path_ends(path);
            assert(s =~= seq![3u8] + p);
            assert(s.last() == p.last());
        },
        _ => {},
    }
}

proof fn lemma_path_ends(path: Seq<bool>)
    requires
        path.len() <= 255,
    ensures
        path_encoding(path).len() > 1,
        path_encoding(path).last() == path.len(),
{
    lemma_varint_read_back((packed(path).len() + 1) as u64, Seq::empty());
}

/// A node is read back from its byte form, whatever follows that.
pub proof fn law_node_is_read_back(n: NodeView, rest: Seq<u8>)
    requires
        node_fits(n),
    ensures
        parse_node(node_encoding(n) + rest) == Ok::<NodeView, Flaw>(n),
{
    lemma_node_read_back(n, rest);
}

/// A list of numbers starts with their count.
pub proof fn law_marker_starts_with_its_count(indices: Seq<u64>)
    requires
        indices.len() <= 250,
    ensures
        marker_encoding(indices).len() > 0,
        marker_encoding(indices)[0] == indices.len(),
{
    reveal(varint);
}

} // verus!
