//! Field elements and collections keyed by them.
use vstd::prelude::*;

use crate::bytes::{be_u64, be_value, push_bytes, sub_bytes, u64_from_be_bytes, u64_to_be_bytes};

verus! {

broadcast use vstd::seq_lib::group_seq_properties;

/// The prime `2^251 + 17 * 2^192 + 1` below which field elements lie.
pub open spec fn prime() -> int {
    0x0800000000000011000000000000000000000000000000000000000000000001int
}

/// The integer that 32 big-endian bytes stand for.
pub open spec fn be_value_256(s: Seq<u8>) -> int {
    be_value(s.subrange(0, 8)) * 0x1000000000000000000000000000000000000000000000000int + be_value(
        s.subrange(8, 16),
    ) * 0x100000000000000000000000000000000int + be_value(s.subrange(16, 24))
        * 0x10000000000000000int + be_value(s.subrange(24, 32))
}

/// `s` extended to 32 bytes with leading zeroes.
pub open spec fn left_padded(s: Seq<u8>) -> Seq<u8> {
    Seq::new((32 - s.len()) as nat, |i: int| 0u8) + s
}

/// Whether a byte string is the big-endian form of a field element.
pub open spec fn is_felt(s: Seq<u8>) -> bool {
    s.len() <= 32 && be_value_256(left_padded(s)) < prime()
}

/// The number given is not below the prime, or takes more than 32 bytes.
#[derive(Clone, Copy, Debug, PartialEq, Eq, Structural)]
pub struct OverflowError;

/// An element of the Stark field, as four 64-bit words, the most significant one first.
#[derive(Clone, Copy, Debug, PartialEq, Eq, Structural, Hash)]
pub struct Felt {
    w3: u64,
    w2: u64,
    w1: u64,
    w0: u64,
}

impl View for Felt {
    type V = Seq<u8>;

    /// The 32 big-endian bytes.
    closed spec fn view(&self) -> Seq<u8> {
        be_u64(self.w3) + be_u64(self.w2) + be_u64(self.w1) + be_u64(self.w0)
    }
}

impl Felt {
    #[verifier::type_invariant]
    spec fn reduced(self) -> bool {
        is_felt(self@)
    }

    /// The element zero.
    pub closed spec fn zero() -> Felt {
        Felt { w3: 0, w2: 0, w1: 0, w0: 0 }
    }

    /// The element with the given small value.
    pub closed spec fn small(x: u64) -> Felt {
        Felt { w3: 0, w2: 0, w1: 0, w0: x }
    }

    /// Two elements with the same bytes are equal, and every element has 32 bytes.
    pub broadcast proof fn lemma_view_injective(a: Felt, b: Felt)
        ensures
            #![trigger a@, b@]
            a@.len() == 32,
            a@ == b@ ==> a == b,
    {
        lemma_words(a);
        lemma_words(b);
        crate::bytes::lemma_be_u64_value(a.w3);
        crate::bytes::lemma_be_u64_value(a.w2);
        crate::bytes::lemma_be_u64_value(a.w1);
        crate::bytes::lemma_be_u64_value(a.w0);
        crate::bytes::lemma_be_u64_value(b.w3);
        crate::bytes::lemma_be_u64_value(b.w2);
        crate::bytes::lemma_be_u64_value(b.w1);
        crate::bytes::lemma_be_u64_value(b.w0);
    }

    /// The element zero.
    pub fn new_zero() -> (r: Felt)
        ensures
            r == Felt::zero(),
    {
        proof {
            lemma_small_is_felt(0);
        }
        Felt { w3: 0, w2: 0, w1: 0, w0: 0 }
    }

    /// The element with the given value.
    pub fn from_u64(x: u64) -> (r: Felt)
        ensures
            r == Felt::small(x),
    {
        proof {
            lemma_small_is_felt(x);
        }
        Felt { w3: 0, w2: 0, w1: 0, w0: x }
    }

    pub fn is_zero(&self) -> (r: bool)
        ensures
            r == (*self == Felt::zero()),
    {
        self.w3 == 0 && self.w2 == 0 && self.w1 == 0 && self.w0 == 0
    }

    /// Whether the element is `2^251` or more.
    pub fn has_more_than_251_bits(&self) -> (r: bool)
        ensures
            r == (self@[0] >= 8),
    {
        proof {
            lemma_words(*self);
            reveal(be_u64);
            assert(self@[0] == self@.subrange(0, 8)[0]);
        }
        self.w3 / 0x100_0000_0000_0000 >= 8
    }

    /// The 32 big-endian bytes.
    pub fn to_be_bytes(&self) -> (r: Vec<u8>)
        ensures
            r@ == self@,
    {
        let mut r: Vec<u8> = u64_to_be_bytes(self.w3);
        let b2 = u64_to_be_bytes(self.w2);
        push_bytes(&mut r, b2.as_slice());
        let b1 = u64_to_be_bytes(self.w1);
        push_bytes(&mut r, b1.as_slice());
        let b0 = u64_to_be_bytes(self.w0);
        push_bytes(&mut r, b0.as_slice());
        r
    }

    /// Reads up to 32 big-endian bytes; shorter input stands for a smaller number.
    pub fn from_be_slice(s: &[u8]) -> (r: Result<Felt, OverflowError>)
        ensures
            r is Ok <==> is_felt(s@),
            r matches Ok(f) ==> f@ == left_padded(s@),
    {
        if s.len() > 32 {
            return Err(OverflowError);
        }
        let mut padded: Vec<u8> = Vec::new();
        while padded.len() < 32 - s.len()
            invariant
                s@.len() <= 32,
                padded@.len() <= 32 - s@.len(),
                forall|i: int| 0 <= i < padded@.len() ==> padded@[i] == 0,
            decreases 32 - padded@.len(),
        {
            padded.push(0);
        }
        push_bytes(&mut padded, s);
        assert(padded@ =~= left_padded(s@));
        let b3 = sub_bytes(padded.as_slice(), 0, 8);
        let b2 = sub_bytes(padded.as_slice(), 8, 16);
        let b1 = sub_bytes(padded.as_slice(), 16, 24);
        let b0 = sub_bytes(padded.as_slice(), 24, 32);
        match (
            u64_from_be_bytes(b3.as_slice()),
            u64_from_be_bytes(b2.as_slice()),
            u64_from_be_bytes(b1.as_slice()),
            u64_from_be_bytes(b0.as_slice()),
        ) {
            (Some(w3), Some(w2), Some(w1), Some(w0)) => {
                assert(be_u64(w3) + be_u64(w2) + be_u64(w1) + be_u64(w0) =~= padded@);
                assert(left_padded(padded@) =~= padded@);
                if w3 < 0x0800000000000011 || (w3 == 0x0800000000000011 && w2 == 0 && w1 == 0 && w0
                    == 0) {
                    Ok(Felt { w3, w2, w1, w0 })
                } else {
                    Err(OverflowError)
                }
            },
            _ => Err(OverflowError),
        }
    }
}

proof fn lemma_words(f: Felt)
    ensures
        f@.len() == 32,
        f@.subrange(0, 8) == be_u64(f.w3),
        f@.subrange(8, 16) == be_u64(f.w2),
        f@.subrange(16, 24) == be_u64(f.w1),
        f@.subrange(24, 32) == be_u64(f.w0),
{
    crate::bytes::lemma_be_u64_value(f.w3);
    crate::bytes::lemma_be_u64_value(f.w2);
    crate::bytes::lemma_be_u64_value(f.w1);
    crate::bytes::lemma_be_u64_value(f.w0);
    assert(f@.subrange(0, 8) =~= be_u64(f.w3));
    assert(f@.subrange(8, 16) =~= be_u64(f.w2));
    assert(f@.subrange(16, 24) =~= be_u64(f.w1));
    assert(f@.subrange(24, 32) =~= be_u64(f.w0));
}

/// The small element with a value is the one element that has it.
pub proof fn lemma_small_value(f: Felt, x: u64)
    ensures
        be_value_256(f@) == x <==> f == Felt::small(x),
{
    lemma_words(f);
    crate::bytes::lemma_be_u64_value(f.w3);
    crate::bytes::lemma_be_u64_value(f.w2);
    crate::bytes::lemma_be_u64_value(f.w1);
    crate::bytes::lemma_be_u64_value(f.w0);
}

/// Every byte string of at most 32 bytes is, left-padded, that of some value of the four words.
pub proof fn lemma_felt_exists(s: Seq<u8>)
    requires
        s.len() <= 32,
    ensures
        exists|f: Felt| f@ == left_padded(s),
{
    let p = left_padded(s);
    let a = p.subrange(0, 8);
    let b = p.subrange(8, 16);
    let c = p.subrange(16, 24);
    let d = p.subrange(24, 32);
    crate::bytes::lemma_be_value_bytes(a);
    crate::bytes::lemma_be_value_bytes(b);
    crate::bytes::lemma_be_value_bytes(c);
    crate::bytes::lemma_be_value_bytes(d);
    let f = Felt {
        w3: be_value(a) as u64,
        w2: be_value(b) as u64,
        w1: be_value(c) as u64,
        w0: be_value(d) as u64,
    };
    assert(f@ =~= a + b + c + d);
    assert(f@ =~= p);
}

proof fn lemma_small_is_felt(x: u64)
    ensures
        is_felt(Felt::small(x)@),
{
    let f = Felt::small(x);
    lemma_words(f);
    crate::bytes::lemma_be_u64_value(0);
    crate::bytes::lemma_be_u64_value(x);
    assert(left_padded(f@) =~= f@);
}

} // verus!
