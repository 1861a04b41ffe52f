//! Removal markers: lists of the storage indices of trie nodes that are no longer needed.
use vstd::prelude::*;
use vstd::slice::slice_subrange;

use crate::bytes::push_bytes;
use crate::storage::codec::{
    bincode_decode_u64, bincode_encode_u64, lemma_varint_read_back, parse_index, parse_varint,
    varint, CodecError, Flaw, TrieStorageIndex, MAX_STORAGE_INDEX,
};

verus! {

/// The values of a list of indices.
pub open spec fn index_values(indices: Seq<TrieStorageIndex>) -> Seq<u64> {
    indices.map_values(|i: TrieStorageIndex| i@)
}

/// The indices of a list, one behind the other.
pub open spec fn concat_indices(indices: Seq<u64>) -> Seq<u8>
    decreases indices.len(),
{
    if indices.len() == 0 {
        Seq::empty()
    } else {
        concat_indices(indices.drop_last()) + varint(indices.last())
    }
}

/// The byte form of a list of indices: its length, then the indices.
pub open spec fn marker_encoding(indices: Seq<u64>) -> Seq<u8> {
    varint(indices.len() as u64) + concat_indices(indices)
}

/// Reads `n` indices at the front of `s`.
pub open spec fn parse_indices(s: Seq<u8>, n: nat) -> Result<Seq<u64>, Flaw>
    decreases n,
{
    if n == 0 {
        Ok(Seq::empty())
    } else {
        match parse_index(s) {
            Err(e) => Err(e),
            Ok((x, k)) => match parse_indices(s.subrange(k, s.len() as int), (n - 1) as nat) {
                Err(e) => Err(e),
                Ok(rest) => Ok(seq![x] + rest),
            },
        }
    }
}

/// Reads a list of indices at the front of `s`.
pub open spec fn parse_marker(s: Seq<u8>) -> Result<Seq<u64>, Flaw> {
    match parse_varint(s, true) {
        None => Err(Flaw::Integer),
        Some((n, k)) => parse_indices(s.subrange(k, s.len() as int), n as nat),
    }
}

proof fn lemma_concat_front(indices: Seq<u64>)
    requires
        indices.len() > 0,
    ensures
        concat_indices(indices) == varint(indices[0]) + concat_indices(indices.drop_first()),
    decreases indices.len(),
{
    if indices.len() == 1 {
        assert(indices.drop_last() =~= Seq::empty());
        assert(indices.drop_first() =~= Seq::empty());
        assert(concat_indices(indices.drop_last()) =~= Seq::<u8>::empty());
        assert(concat_indices(indices.drop_first()) =~= Seq::<u8>::empty());
        assert(concat_indices(indices) =~= varint(indices[0]));
    } else {
        lemma_concat_front(indices.drop_last());
        assert(indices.drop_last().drop_first() =~= indices.drop_first().drop_last());
        assert(concat_indices(indices) =~= varint(indices[0]) + concat_indices(
            indices.drop_first(),
        ));
    }
}

proof fn lemma_indices_read_back(indices: Seq<u64>, rest: Seq<u8>)
    requires
        forall|i: int| 0 <= i < indices.len() ==> indices[i] <= MAX_STORAGE_INDEX,
    ensures
        parse_indices(concat_indices(indices) + rest, indices.len()) == Ok::<Seq<u64>, Flaw>(
            indices,
        ),
    decreases indices.len(),
{
    if indices.len() == 0 {
        assert(indices =~= Seq::empty());
    } else {
        let s = concat_indices(indices) + rest;
        let tail = concat_indices(indices.drop_first()) + rest;
        lemma_concat_front(indices);
        assert(s =~= varint(indices[0]) + tail);
        lemma_varint_read_back(indices[0], tail);
        let k = varint(indices[0]).len() as int;
        assert(s.subrange(k, s.len() as int) =~= tail);
        lemma_indices_read_back(indices.drop_first(), rest);
        assert(seq![indices[0]] + indices.drop_first() =~= indices);
    }
}

/// A list of indices is read back from its byte form.
pub proof fn law_marker_read_back(indices: Seq<u64>)
    requires
        indices.len() <= u64::MAX,
        forall|i: int| 0 <= i < indices.len() ==> indices[i] <= MAX_STORAGE_INDEX,
    ensures
        parse_marker(marker_encoding(indices)) == Ok::<Seq<u64>, Flaw>(indices),
{
    let n = indices.len() as u64;
    let s = marker_encoding(indices);
    lemma_varint_read_back(n, concat_indices(indices));
    let k = varint(n).len() as int;
    assert(s.subrange(k, s.len() as int) =~= concat_indices(indices) + Seq::<u8>::empty());
    lemma_indices_read_back(indices, Seq::empty());
}

/// The byte form of a list of indices.
pub fn encode_marker(indices: &Vec<TrieStorageIndex>) -> (r: Vec<u8>)
    ensures
        r@ == marker_encoding(index_values(indices@)),
{
    let mut out: Vec<u8> = bincode_encode_u64(indices.len() as u64);
    let ghost head = out@;
    let mut i: usize = 0;
    assert(head + concat_indices(index_values(indices@).subrange(0, 0)) =~= out@);
    while i < indices.len()
        invariant
            i <= indices@.len(),
            out@ == head + concat_indices(index_values(indices@).subrange(0, i as int)),
        decreases indices@.len() - i,
    {
        push_bytes(&mut out, indices[i].encode().as_slice());
        i = i + 1;
        proof {
            let done = index_values(indices@).subrange(0, i as int);
            assert(done.drop_last() =~= index_values(indices@).subrange(0, i - 1));
            assert(out@ =~= head + concat_indices(done));
        }
    }
    assert(index_values(indices@).subrange(0, i as int) =~= index_values(indices@));
    out
}

/// Reads a list of indices.
pub fn decode_marker(s: &[u8]) -> (r: Result<Vec<TrieStorageIndex>, CodecError>)
    ensures
        parse_marker(s@) == (match r {
            Ok(v) => Ok(index_values(v@)),
            Err(e) => Err(e@),
        }),
{
    let (n, k) = match bincode_decode_u64(s) {
        Err(e) => {
            return Err(CodecError::Integer(e));
        },
        Ok(d) => d,
    };
    let mut out: Vec<TrieStorageIndex> = Vec::new();
    let mut left: u64 = n;
    let mut rest: &[u8] = slice_subrange(s, k, s.len());
    let ghost all = parse_indices(rest@, n as nat);
    proof {
        assert(index_values(out@) =~= Seq::empty());
        if let Ok(v) = all {
            assert(index_values(out@) + v =~= v);
        }
    }
    while left > 0
        invariant
            all == (match parse_indices(rest@, left as nat) {
                Ok(v) => Ok(index_values(out@) + v),
                Err(e) => Err(e),
            }),
            parse_marker(s@) == all,
        decreases left,
    {
        match TrieStorageIndex::decode(rest) {
            Err(e) => {
                return Err(e);
            },
            Ok((index, used)) => {
                let ghost before = index_values(out@);
                let ghost tail = parse_indices(
                    rest@.subrange(used as int, rest@.len() as int),
                    (left - 1) as nat,
                );
                out.push(index);
                rest = slice_subrange(rest, used, rest.len());
                left = left - 1;
                proof {
                    assert(index_values(out@) =~= before.push(index@));
                    if let Ok(v) = tail {
                        assert(before + (seq![index@] + v) =~= index_values(out@) + v);
                    }
                }
            },
        }
    }
    assert(index_values(out@) + Seq::<u64>::empty() =~= index_values(out@));
    Ok(out)
}

} // verus!
