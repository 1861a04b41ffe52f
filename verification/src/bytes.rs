//! Big-endian integers and the byte-wise order of keys.
use vstd::prelude::*;

verus! {

/// The big-endian bytes of a 16-bit integer.
pub open spec fn be_u16(x: u16) -> Seq<u8> {
    seq![(x / 256) as u8, (x % 256) as u8]
}

/// The big-endian bytes of a 32-bit integer.
#[verifier::opaque]
pub open spec fn be_u32(x: u32) -> Seq<u8> {
    seq![
        (x / 0x100_0000) as u8,
        ((x / 0x1_0000) % 256) as u8,
        ((x / 0x100) % 256) as u8,
        (x % 256) as u8,
    ]
}

/// Big-endian bytes are ordered as the integers they stand for.
pub proof fn lemma_be_u32_order(x: u32, y: u32)
    ensures
        lex_lt(be_u32(x), be_u32(y)) == (x < y),
        be_u32(x) == be_u32(y) ==> x == y,
{
    reveal(be_u32);
    let a = be_u32(x);
    let b = be_u32(y);
    let xq: u32 = x / 0x100;
    let yq: u32 = y / 0x100;
    let xr: u32 = x / 0x1_0000;
    let yr: u32 = y / 0x1_0000;
    assert(xr == xq / 256 && x / 0x100_0000 == xr / 256);
    assert(yr == yq / 256 && y / 0x100_0000 == yr / 256);
    assert(x == a[0] * 0x100_0000 + a[1] * 0x1_0000 + a[2] * 0x100 + a[3]);
    assert(y == b[0] * 0x100_0000 + b[1] * 0x1_0000 + b[2] * 0x100 + b[3]);
    reveal_with_fuel(lex_lt_from, 5);
}

/// The big-endian bytes of a 64-bit integer.
#[verifier::opaque]
pub open spec fn be_u64(x: u64) -> Seq<u8> {
    seq![
        (x / 0x100_0000_0000_0000) as u8,
        ((x / 0x1_0000_0000_0000) % 256) as u8,
        ((x / 0x100_0000_0000) % 256) as u8,
        ((x / 0x1_0000_0000) % 256) as u8,
        ((x / 0x100_0000) % 256) as u8,
        ((x / 0x1_0000) % 256) as u8,
        ((x / 0x100) % 256) as u8,
        (x % 256) as u8,
    ]
}

/// The integer that eight big-endian bytes stand for.
pub open spec fn be_value(s: Seq<u8>) -> int {
    s[0] * 0x100_0000_0000_0000 + s[1] * 0x1_0000_0000_0000 + s[2] * 0x100_0000_0000 + s[3]
        * 0x1_0000_0000 + s[4] * 0x100_0000 + s[5] * 0x1_0000 + s[6] * 0x100 + s[7]
}

/// Reading back the big-endian bytes of an integer gives the integer.
pub proof fn lemma_be_u64_value(x: u64)
    ensures
        be_u64(x).len() == 8,
        be_value(be_u64(x)) == x,
{
    reveal(be_u64);
    let q1: u64 = x / 0x100;
    let q2: u64 = x / 0x1_0000;
    let q3: u64 = x / 0x100_0000;
    let q4: u64 = x / 0x1_0000_0000;
    let q5: u64 = x / 0x100_0000_0000;
    let q6: u64 = x / 0x1_0000_0000_0000;
    let q7: u64 = x / 0x100_0000_0000_0000;
    assert(q2 == q1 / 256 && q3 == q2 / 256 && q4 == q3 / 256 && q5 == q4 / 256 && q6 == q5 / 256
        && q7 == q6 / 256);
    assert(q7 < 256);
}

proof fn lemma_div_256(v: int, b: u8)
    requires
        0 <= v,
    ensures
        (v * 256 + b) / 256 == v,
        (v * 256 + b) % 256 == b,
{
}

/// Eight bytes are the big-endian bytes of the integer they stand for.
pub proof fn lemma_be_value_bytes(s: Seq<u8>)
    requires
        s.len() == 8,
    ensures
        0 <= be_value(s) <= u64::MAX,
        be_u64(be_value(s) as u64) == s,
{
    reveal(be_u64);
    let v6: int = s[0] * 256 + s[1];
    let v5: int = v6 * 256 + s[2];
    let v4: int = v5 * 256 + s[3];
    let v3: int = v4 * 256 + s[4];
    let v2: int = v3 * 256 + s[5];
    let v1: int = v2 * 256 + s[6];
    let v0: int = v1 * 256 + s[7];
    assert(v0 == be_value(s));
    let x: u64 = v0 as u64;
    lemma_div_256(v1, s[7]);
    lemma_div_256(v2, s[6]);
    lemma_div_256(v3, s[5]);
    lemma_div_256(v4, s[4]);
    lemma_div_256(v5, s[3]);
    lemma_div_256(v6, s[2]);
    lemma_div_256(s[0] as int, s[1]);
    let q2: u64 = x / 0x1_0000;
    let q3: u64 = x / 0x100_0000;
    let q4: u64 = x / 0x1_0000_0000;
    let q5: u64 = x / 0x100_0000_0000;
    let q6: u64 = x / 0x1_0000_0000_0000;
    let q7: u64 = x / 0x100_0000_0000_0000;
    assert(x / 256 == v1);
    assert(q2 == (x / 256) / 256 && q3 == q2 / 256 && q4 == q3 / 256 && q5 == q4 / 256 && q6 == q5
        / 256 && q7 == q6 / 256);
    assert(be_u64(x) =~= s);
}

/// Two integers with the same big-endian bytes are the same integer.
pub proof fn lemma_be_u64_injective(x: u64, y: u64)
    requires
        be_u64(x) == be_u64(y),
    ensures
        x == y,
{
    lemma_be_u64_value(x);
    lemma_be_u64_value(y);
}

pub fn u16_to_be_bytes(x: u16) -> (r: Vec<u8>)
    ensures
        r@ == be_u16(x),
{
    let r: Vec<u8> = vec![(x / 256) as u8, (x % 256) as u8];
    r
}

pub fn u32_to_be_bytes(x: u32) -> (r: Vec<u8>)
    ensures
        r@ == be_u32(x),
{
    proof {
        reveal(be_u32);
    }
    let r: Vec<u8> = vec![
        (x / 0x100_0000) as u8,
        ((x / 0x1_0000) % 256) as u8,
        ((x / 0x100) % 256) as u8,
        (x % 256) as u8,
    ];
    r
}

pub fn u64_to_be_bytes(x: u64) -> (r: Vec<u8>)
    ensures
        r@ == be_u64(x),
{
    proof {
        reveal(be_u64);
    }
    let r: Vec<u8> = vec![
        (x / 0x100_0000_0000_0000) as u8,
        ((x / 0x1_0000_0000_0000) % 256) as u8,
        ((x / 0x100_0000_0000) % 256) as u8,
        ((x / 0x1_0000_0000) % 256) as u8,
        ((x / 0x100_0000) % 256) as u8,
        ((x / 0x1_0000) % 256) as u8,
        ((x / 0x100) % 256) as u8,
        (x % 256) as u8,
    ];
    r
}

/// Reads eight big-endian bytes; any other length gives `None`.
pub fn u64_from_be_bytes(s: &[u8]) -> (r: Option<u64>)
    ensures
        r is Some <==> s@.len() == 8,
        r matches Some(x) ==> x == be_value(s@) && be_u64(x) == s@,
{
    if s.len() != 8 {
        return None;
    }
    proof {
        lemma_be_value_bytes(s@);
    }
    Some(
        s[0] as u64 * 0x100_0000_0000_0000 + s[1] as u64 * 0x1_0000_0000_0000 + s[2] as u64
            * 0x100_0000_0000 + s[3] as u64 * 0x1_0000_0000 + s[4] as u64 * 0x100_0000 + s[5] as u64
            * 0x1_0000 + s[6] as u64 * 0x100 + s[7] as u64,
    )
}

/// Byte-wise order of `a` and `b` from position `i` on, where they agree below `i`.
pub open spec fn lex_lt_from(a: Seq<u8>, b: Seq<u8>, i: int) -> bool
    decreases b.len() - i,
{
    if i >= b.len() {
        false
    } else if i >= a.len() {
        true
    } else if a[i] != b[i] {
        a[i] < b[i]
    } else {
        lex_lt_from(a, b, i + 1)
    }
}

/// Whether key `a` comes before key `b` in a sorted column.
pub open spec fn lex_lt(a: Seq<u8>, b: Seq<u8>) -> bool {
    lex_lt_from(a, b, 0)
}

/// Whether key `a` does not come after key `b` in a sorted column.
pub open spec fn lex_le(a: Seq<u8>, b: Seq<u8>) -> bool {
    a == b || lex_lt(a, b)
}

proof fn lemma_lex_from_trichotomy(a: Seq<u8>, b: Seq<u8>, i: int)
    requires
        0 <= i <= a.len(),
        i <= b.len(),
        forall|j: int| 0 <= j < i ==> a[j] == b[j],
    ensures
        a == b || lex_lt_from(a, b, i) || lex_lt_from(b, a, i),
        !(lex_lt_from(a, b, i) && lex_lt_from(b, a, i)),
        a == b ==> !lex_lt_from(a, b, i),
    decreases b.len() - i,
{
    if i < a.len() && i < b.len() && a[i] == b[i] {
        lemma_lex_from_trichotomy(a, b, i + 1);
    } else if i == a.len() && i == b.len() {
        assert(a =~= b);
    }
}

/// Exactly one of "before", "equal" and "after" holds of two keys.
pub proof fn lemma_lex_trichotomy(a: Seq<u8>, b: Seq<u8>)
    ensures
        a == b || lex_lt(a, b) || lex_lt(b, a),
        !(lex_lt(a, b) && lex_lt(b, a)),
        a == b ==> !lex_lt(a, b),
{
    lemma_lex_from_trichotomy(a, b, 0);
}

proof fn lemma_lex_from_transitive(a: Seq<u8>, b: Seq<u8>, c: Seq<u8>, i: int)
    requires
        0 <= i,
        lex_lt_from(a, b, i),
        lex_lt_from(b, c, i),
    ensures
        lex_lt_from(a, c, i),
    decreases c.len() - i,
{
    if i < a.len() && i < b.len() && i < c.len() && a[i] == b[i] && b[i] == c[i] {
        lemma_lex_from_transitive(a, b, c, i + 1);
    }
}

/// The order of keys is transitive.
pub proof fn lemma_lex_transitive(a: Seq<u8>, b: Seq<u8>, c: Seq<u8>)
    requires
        lex_lt(a, b),
        lex_lt(b, c),
    ensures
        lex_lt(a, c),
{
    lemma_lex_from_transitive(a, b, c, 0);
}

proof fn lemma_lex_from_prefix(p: Seq<u8>, a: Seq<u8>, b: Seq<u8>, i: int)
    requires
        0 <= i,
    ensures
        lex_lt_from(p + a, p + b, p.len() + i) == lex_lt_from(a, b, i),
    decreases b.len() - i,
{
    if i < a.len() && i < b.len() && a[i] == b[i] {
        lemma_lex_from_prefix(p, a, b, i + 1);
    }
}

proof fn lemma_lex_skip_prefix(p: Seq<u8>, a: Seq<u8>, b: Seq<u8>, i: int)
    requires
        0 <= i <= p.len(),
    ensures
        lex_lt_from(p + a, p + b, i) == lex_lt_from(p + a, p + b, p.len() as int),
    decreases p.len() - i,
{
    if i < p.len() {
        assert((p + a)[i] == (p + b)[i]);
        lemma_lex_skip_prefix(p, a, b, i + 1);
    }
}

/// A shared prefix does not change the order of two keys.
pub proof fn lemma_lex_prefix(p: Seq<u8>, a: Seq<u8>, b: Seq<u8>)
    ensures
        lex_lt(p + a, p + b) == lex_lt(a, b),
{
    lemma_lex_skip_prefix(p, a, b, 0);
    lemma_lex_from_prefix(p, a, b, 0);
}

/// Big-endian bytes are ordered as the integers they stand for.
pub proof fn lemma_be_u64_order(x: u64, y: u64)
    ensures
        lex_lt(be_u64(x), be_u64(y)) == (x < y),
{
    reveal(be_u64);
    lemma_be_u64_value(x);
    lemma_be_u64_value(y);
    let a = be_u64(x);
    let b = be_u64(y);
    reveal_with_fuel(lex_lt_from, 9);
    assert(a.len() == 8 && b.len() == 8);
    if a[0] == b[0] && a[1] == b[1] && a[2] == b[2] && a[3] == b[3] && a[4] == b[4] && a[5] == b[5]
        && a[6] == b[6] && a[7] == b[7] {
        assert(x == y);
    }
}

/// Compares two keys byte by byte.
pub fn bytes_before(a: &[u8], b: &[u8]) -> (r: bool)
    ensures
        r == lex_lt(a@, b@),
{
    let mut i: usize = 0;
    while i < a.len() && i < b.len() && a[i] == b[i]
        invariant
            i <= a@.len(),
            i <= b@.len(),
            lex_lt(a@, b@) == lex_lt_from(a@, b@, i as int),
        decreases a@.len() - i,
    {
        i = i + 1;
    }
    if i >= b.len() {
        false
    } else if i >= a.len() {
        true
    } else {
        a[i] < b[i]
    }
}

/// Whether two keys hold the same bytes.
pub fn bytes_equal(a: &[u8], b: &[u8]) -> (r: bool)
    ensures
        r == (a@ == b@),
{
    if a.len() != b.len() {
        return false;
    }
    let mut i: usize = 0;
    while i < a.len()
        invariant
            i <= a@.len(),
            a@.len() == b@.len(),
            forall|j: int| 0 <= j < i ==> a@[j] == b@[j],
        decreases a@.len() - i,
    {
        if a[i] != b[i] {
            return false;
        }
        i = i + 1;
    }
    assert(a@ =~= b@);
    true
}

/// The bytes of `s` from position `from` up to `to`.
pub fn sub_bytes(s: &[u8], from: usize, to: usize) -> (r: Vec<u8>)
    requires
        from <= to <= s@.len(),
    ensures
        r@ == s@.subrange(from as int, to as int),
{
    let mut r: Vec<u8> = Vec::new();
    let mut i: usize = from;
    while i < to
        invariant
            from <= i <= to <= s@.len(),
            r@ == s@.subrange(from as int, i as int),
        decreases to - i,
    {
        r.push(s[i]);
        i = i + 1;
        assert(r@ =~= s@.subrange(from as int, i as int));
    }
    r
}

/// Appends the bytes of `s` to `out`.
pub fn push_bytes(out: &mut Vec<u8>, s: &[u8])
    ensures
        final(out)@ == old(out)@ + s@,
{
    let mut i: usize = 0;
    while i < s.len()
        invariant
            i <= s@.len(),
            out@ == old(out)@ + s@.subrange(0, i as int),
        decreases s@.len() - i,
    {
        out.push(s[i]);
        i = i + 1;
        assert(out@ =~= old(out)@ + s@.subrange(0, i as int));
    }
    assert(s@.subrange(0, s@.len() as int) =~= s@);
}

/// A copy of a byte string.
pub fn copy_bytes(s: &[u8]) -> (r: Vec<u8>)
    ensures
        r@ == s@,
{
    let r = sub_bytes(s, 0, s.len());
    assert(s@.subrange(0, s@.len() as int) =~= s@);
    r
}

/// Whether a key starts with the bytes of `p`.
pub open spec fn has_prefix(k: Seq<u8>, p: Seq<u8>) -> bool {
    p.len() <= k.len() && forall|i: int| 0 <= i < p.len() ==> #[trigger] k[i] == p[i]
}

/// Keys that agree below `i` are ordered as from `i` on.
proof fn lemma_lex_agree(a: Seq<u8>, b: Seq<u8>, i: int, n: int)
    requires
        0 <= i <= n,
        n <= a.len(),
        n <= b.len(),
        forall|j: int| i <= j < n ==> a[j] == b[j],
    ensures
        lex_lt_from(a, b, i) == lex_lt_from(a, b, n),
    decreases n - i,
{
    if i < n {
        lemma_lex_agree(a, b, i + 1, n);
    }
}

/// A key between two keys with a prefix has that prefix.
pub proof fn lemma_prefix_convex(p: Seq<u8>, low: Seq<u8>, mid: Seq<u8>, high: Seq<u8>)
    requires
        has_prefix(low, p),
        has_prefix(high, p),
        lex_le(low, mid),
        lex_le(mid, high),
    ensures
        has_prefix(mid, p),
{
    lemma_prefix_from(p, low, mid, high, 0);
}

proof fn lemma_prefix_from(p: Seq<u8>, low: Seq<u8>, mid: Seq<u8>, high: Seq<u8>, i: int)
    requires
        has_prefix(low, p),
        has_prefix(high, p),
        lex_le(low, mid),
        lex_le(mid, high),
        0 <= i <= p.len(),
        i <= mid.len(),
        forall|j: int| 0 <= j < i ==> mid[j] == p[j],
    ensures
        has_prefix(mid, p),
    decreases p.len() - i,
{
    if i < p.len() {
        assert(low[i] == p[i]);
        assert(high[i] == p[i]);
        assert(forall|j: int| 0 <= j < i ==> low[j] == p[j] && high[j] == p[j]);
        lemma_lex_agree(low, mid, 0, i);
        lemma_lex_agree(mid, high, 0, i);
        assert(i < mid.len() && mid[i] == p[i]);
        lemma_prefix_from(p, low, mid, high, i + 1);
    }
}

/// Whether a key starts with the bytes of `p`.
pub fn starts_with(k: &[u8], p: &[u8]) -> (r: bool)
    ensures
        r == has_prefix(k@, p@),
{
    if p.len() > k.len() {
        return false;
    }
    let mut i: usize = 0;
    while i < p.len()
        invariant
            i <= p@.len() <= k@.len(),
            forall|j: int| 0 <= j < i ==> #[trigger] k@[j] == p@[j],
        decreases p@.len() - i,
    {
        if k[i] != p[i] {
            return false;
        }
        i = i + 1;
    }
    true
}

} // verus!
