//! Strings and the decimal notation of numbers.
use vstd::prelude::*;
use vstd::string::*;

verus! {

/// The decimal digit for a number below ten.
pub open spec fn digit(d: nat) -> char {
    if d == 0 {
        '0'
    } else if d == 1 {
        '1'
    } else if d == 2 {
        '2'
    } else if d == 3 {
        '3'
    } else if d == 4 {
        '4'
    } else if d == 5 {
        '5'
    } else if d == 6 {
        '6'
    } else if d == 7 {
        '7'
    } else if d == 8 {
        '8'
    } else {
        '9'
    }
}

/// The decimal notation of a number.
pub open spec fn decimal(n: nat) -> Seq<char>
    decreases n,
{
    if n < 10 {
        seq![digit(n)]
    } else {
        decimal(n / 10).push(digit(n % 10))
    }
}

fn digit_text(d: u64) -> (r: &'static str)
    requires
        d < 10,
    ensures
        r@ == seq![digit(d as nat)],
{
    proof {
        reveal_strlit("0");
        reveal_strlit("1");
        reveal_strlit("2");
        reveal_strlit("3");
        reveal_strlit("4");
        reveal_strlit("5");
        reveal_strlit("6");
        reveal_strlit("7");
        reveal_strlit("8");
        reveal_strlit("9");
    }
    let r: &'static str = match d {
        0 => "0",
        1 => "1",
        2 => "2",
        3 => "3",
        4 => "4",
        5 => "5",
        6 => "6",
        7 => "7",
        8 => "8",
        _ => "9",
    };
    assert(r@ =~= seq![digit(d as nat)]);
    r
}

/// Appends the decimal notation of a number.
pub fn push_decimal(s: &mut String, n: u64)
    ensures
        final(s)@ == old(s)@ + decimal(n as nat),
    decreases n,
{
    if n >= 10 {
        push_decimal(s, n / 10);
    }
    s.append(digit_text(n % 10));
    proof {
        if n >= 10 {
            assert(decimal(n as nat) =~= decimal((n / 10) as nat) + seq![digit((n % 10) as nat)]);
            assert(old(s)@ + decimal((n / 10) as nat) + seq![digit((n % 10) as nat)] =~= old(s)@
                + decimal(n as nat));
        }
    }
}

/// Whether a string starts with another.
pub open spec fn starts_with_text(s: Seq<char>, prefix: Seq<char>) -> bool {
    prefix.len() <= s.len() && s.subrange(0, prefix.len() as int) == prefix
}

pub fn has_text_prefix(s: &str, prefix: &str) -> (r: bool)
    ensures
        r == starts_with_text(s@, prefix@),
{
    let n: usize = prefix.unicode_len();
    if s.unicode_len() < n {
        return false;
    }
    let mut i: usize = 0;
    while i < n
        invariant
            i <= n,
            n == prefix@.len(),
            n <= s@.len(),
            forall|j: int| 0 <= j < i ==> s@[j] == #[trigger] prefix@[j],
        decreases n - i,
    {
        if s.get_char(i) != prefix.get_char(i) {
            assert(s@.subrange(0, n as int)[i as int] != prefix@[i as int]);
            return false;
        }
        i = i + 1;
    }
    assert(s@.subrange(0, n as int) =~= prefix@);
    true
}

/// The upper-case hexadecimal digit for a number below sixteen.
pub open spec fn hex_digit(d: nat) -> char {
    if d < 10 {
        digit(d)
    } else if d == 10 {
        'A'
    } else if d == 11 {
        'B'
    } else if d == 12 {
        'C'
    } else if d == 13 {
        'D'
    } else if d == 14 {
        'E'
    } else {
        'F'
    }
}

/// The hexadecimal notation of bytes, two digits each.
pub open spec fn hex_of(bytes: Seq<u8>) -> Seq<char>
    decreases bytes.len(),
{
    if bytes.len() == 0 {
        Seq::empty()
    } else {
        hex_of(bytes.drop_last()).push(hex_digit((bytes.last() / 16) as nat)).push(
            hex_digit((bytes.last() % 16) as nat),
        )
    }
}

fn hex_digit_text(d: u8) -> (r: &'static str)
    requires
        d < 16,
    ensures
        r@ == seq![hex_digit(d as nat)],
{
    if d < 10 {
        return digit_text(d as u64);
    }
    proof {
        reveal_strlit("A");
        reveal_strlit("B");
        reveal_strlit("C");
        reveal_strlit("D");
        reveal_strlit("E");
        reveal_strlit("F");
    }
    let r: &'static str = match d {
        10 => "A",
        11 => "B",
        12 => "C",
        13 => "D",
        14 => "E",
        _ => "F",
    };
    assert(r@ =~= seq![hex_digit(d as nat)]);
    r
}

/// Appends the hexadecimal notation of bytes.
pub fn push_hex(s: &mut String, bytes: &[u8])
    ensures
        final(s)@ == old(s)@ + hex_of(bytes@),
{
    let mut i: usize = 0;
    assert(bytes@.subrange(0, 0) =~= Seq::<u8>::empty());
    assert(s@ =~= old(s)@ + hex_of(bytes@.subrange(0, 0)));
    while i < bytes.len()
        invariant
            i <= bytes@.len(),
            s@ == old(s)@ + hex_of(bytes@.subrange(0, i as int)),
        decreases bytes@.len() - i,
    {
        let b: u8 = bytes[i];
        s.append(hex_digit_text(b / 16));
        s.append(hex_digit_text(b % 16));
        i = i + 1;
        proof {
            let done = bytes@.subrange(0, i as int);
            assert(done.drop_last() =~= bytes@.subrange(0, i - 1));
            assert(done.last() == b);
            assert(s@ =~= old(s)@ + hex_of(done));
        }
    }
    assert(bytes@.subrange(0, i as int) =~= bytes@);
}

/// Whether two strings are the same.
pub fn same_text(a: &str, b: &str) -> (r: bool)
    ensures
        r == (a@ == b@),
{
    a.unicode_len() == b.unicode_len() && {
        let r: bool = has_text_prefix(a, b);
        assert(a@.subrange(0, a@.len() as int) =~= a@);
        r
    }
}

/// The lower-case hexadecimal digit for a number below sixteen.
pub open spec fn lower_hex_digit(d: nat) -> char {
    if d < 10 {
        digit(d)
    } else if d == 10 {
        'a'
    } else if d == 11 {
        'b'
    } else if d == 12 {
        'c'
    } else if d == 13 {
        'd'
    } else if d == 14 {
        'e'
    } else {
        'f'
    }
}

fn lower_hex_digit_text(d: u8) -> (r: &'static str)
    requires
        d < 16,
    ensures
        r@ == seq![lower_hex_digit(d as nat)],
{
    if d < 10 {
        return digit_text(d as u64);
    }
    proof {
        reveal_strlit("a");
        reveal_strlit("b");
        reveal_strlit("c");
        reveal_strlit("d");
        reveal_strlit("e");
        reveal_strlit("f");
    }
    let r: &'static str = match d {
        10 => "a",
        11 => "b",
        12 => "c",
        13 => "d",
        14 => "e",
        _ => "f",
    };
    assert(r@ =~= seq![lower_hex_digit(d as nat)]);
    r
}

/// The halves of bytes, from the first half of the first byte on.
pub open spec fn halves(bytes: Seq<u8>) -> Seq<u8> {
    Seq::new(
        2 * bytes.len(),
        |i: int|
            if i % 2 == 0 {
                bytes[i / 2] / 16
            } else {
                bytes[i / 2] % 16
            },
    )
}

/// The digits without the zeros in front; one zero, where there is nothing else.
pub open spec fn trimmed(digits: Seq<u8>) -> Seq<u8>
    decreases digits.len(),
{
    if digits.len() > 1 && digits[0] == 0 {
        trimmed(digits.subrange(1, digits.len() as int))
    } else {
        digits
    }
}

/// The hexadecimal notation of the number that bytes stand for, after `0x`.
pub open spec fn short_hex(bytes: Seq<u8>) -> Seq<char> {
    "0x"@ + trimmed(halves(bytes)).map_values(|d: u8| lower_hex_digit(d as nat))
}

proof fn lemma_trimmed(digits: Seq<u8>, n: int)
    requires
        0 <= n < digits.len(),
        forall|j: int| 0 <= j < n ==> #[trigger] digits[j] == 0,
        digits[n] != 0 || n == digits.len() - 1,
    ensures
        trimmed(digits) == digits.subrange(n, digits.len() as int),
    decreases n,
{
    if n == 0 {
        assert(digits.subrange(0, digits.len() as int) =~= digits);
    } else {
        let rest = digits.subrange(1, digits.len() as int);
        assert(digits[0] == 0);
        assert forall|j: int| 0 <= j < n - 1 implies #[trigger] rest[j] == 0 by {
            assert(rest[j] == digits[j + 1]);
        }
        lemma_trimmed(rest, n - 1);
        assert(rest.subrange(n - 1, rest.len() as int) =~= digits.subrange(n, digits.len() as int));
    }
}

proof fn lemma_trimmed_len(digits: Seq<u8>)
    ensures
        trimmed(digits).len() <= digits.len(),
    decreases digits.len(),
{
    if digits.len() > 1 && digits[0] == 0 {
        lemma_trimmed_len(digits.subrange(1, digits.len() as int));
    }
}

proof fn lemma_trimmed_injective(a: Seq<u8>, b: Seq<u8>)
    requires
        a.len() == b.len(),
        trimmed(a) == trimmed(b),
    ensures
        a == b,
    decreases a.len(),
{
    let a_shrinks = a.len() > 1 && a[0] == 0;
    let b_shrinks = b.len() > 1 && b[0] == 0;
    let a_rest = a.subrange(1, a.len() as int);
    let b_rest = b.subrange(1, b.len() as int);
    if a_shrinks {
        lemma_trimmed_len(a_rest);
    }
    if b_shrinks {
        lemma_trimmed_len(b_rest);
    }
    if a_shrinks && b_shrinks {
        lemma_trimmed_injective(a_rest, b_rest);
        assert(a =~= seq![a[0]] + a_rest);
        assert(b =~= seq![b[0]] + b_rest);
    }
}

/// Digits that are trimmed are digits still.
pub proof fn lemma_trimmed_digits(digits: Seq<u8>)
    requires
        forall|i: int| 0 <= i < digits.len() ==> #[trigger] digits[i] < 16,
    ensures
        forall|i: int| 0 <= i < trimmed(digits).len() ==> #[trigger] trimmed(digits)[i] < 16,
    decreases digits.len(),
{
    if digits.len() > 1 && digits[0] == 0 {
        let rest = digits.subrange(1, digits.len() as int);
        assert forall|i: int| 0 <= i < rest.len() implies #[trigger] rest[i] < 16 by {
            assert(rest[i] == digits[i + 1]);
        }
        lemma_trimmed_digits(rest);
        assert(trimmed(digits) == trimmed(rest));
    } else {
        assert(trimmed(digits) == digits);
    }
}

/// As many bytes with the same hexadecimal notation are the same bytes.
pub proof fn lemma_short_hex_injective(a: Seq<u8>, b: Seq<u8>)
    requires
        a.len() == b.len(),
        short_hex(a) == short_hex(b),
    ensures
        a == b,
{
    let show = |d: u8| lower_hex_digit(d as nat);
    let x = trimmed(halves(a));
    let y = trimmed(halves(b));
    let n = "0x"@.len() as int;
    assert(short_hex(a).subrange(n, short_hex(a).len() as int) =~= x.map_values(show));
    assert(short_hex(b).subrange(n, short_hex(b).len() as int) =~= y.map_values(show));
    assert forall|i: int| 0 <= i < x.len() implies x[i] == y[i] by {
        lemma_trimmed_digits(halves(a));
        lemma_trimmed_digits(halves(b));
        assert(x.map_values(show)[i] == y.map_values(show)[i]);
    }
    assert(x =~= y);
    lemma_trimmed_injective(halves(a), halves(b));
    assert forall|i: int| 0 <= i < a.len() implies a[i] == b[i] by {
        assert(halves(a)[2 * i] == halves(b)[2 * i]);
        assert(halves(a)[2 * i + 1] == halves(b)[2 * i + 1]);
    }
    assert(a =~= b);
}

/// Appends the hexadecimal notation of the number that bytes stand for.
pub fn push_short_hex(s: &mut String, bytes: &[u8])
    requires
        0 < bytes@.len() < 0x1000_0000,
    ensures
        final(s)@ == old(s)@ + short_hex(bytes@),
{
    let ghost digits = halves(bytes@);
    let n: usize = 2 * bytes.len();
    let mut first: usize = 0;
    while first < n - 1 && half(bytes, first) == 0
        invariant
            n == digits.len(),
            n == 2 * bytes@.len(),
            bytes@.len() < 0x1000_0000,
            digits == halves(bytes@),
            first < n,
            forall|j: int| 0 <= j < first ==> #[trigger] digits[j] == 0,
        decreases n - first,
    {
        first = first + 1;
    }
    proof {
        lemma_trimmed(digits, first as int);
    }
    s.append("0x");
    let ghost shown = trimmed(digits).map_values(|d: u8| lower_hex_digit(d as nat));
    let mut i: usize = first;
    assert(shown.subrange(0, 0) =~= Seq::<char>::empty());
    assert(s@ =~= old(s)@ + "0x"@ + shown.subrange(0, 0));
    while i < n
        invariant
            first <= i <= n,
            n == digits.len(),
            n == 2 * bytes@.len(),
            bytes@.len() < 0x1000_0000,
            digits == halves(bytes@),
            shown == digits.subrange(first as int, n as int).map_values(
                |d: u8| lower_hex_digit(d as nat),
            ),
            s@ == old(s)@ + "0x"@ + shown.subrange(0, i - first),
        decreases n - i,
    {
        let d: u8 = half(bytes, i);
        s.append(lower_hex_digit_text(d));
        i = i + 1;
        proof {
            assert(shown[i - 1 - first] == lower_hex_digit(d as nat));
            assert(shown.subrange(0, i - first) =~= shown.subrange(0, i - 1 - first).push(
                shown[i - 1 - first],
            ));
            assert(s@ =~= old(s)@ + "0x"@ + shown.subrange(0, i - first));
        }
    }
    assert(shown.subrange(0, n - first) =~= shown);
    assert(s@ =~= old(s)@ + ("0x"@ + shown));
}

fn half(bytes: &[u8], i: usize) -> (r: u8)
    requires
        i < 2 * bytes@.len(),
    ensures
        r == halves(bytes@)[i as int],
        r < 16,
{
    if i % 2 == 0 {
        bytes[i / 2] / 16
    } else {
        bytes[i / 2] % 16
    }
}

/// The number that decimal digits stand for.
pub open spec fn decimal_value(s: Seq<char>) -> int
    decreases s.len(),
{
    if s.len() == 0 {
        0
    } else {
        10 * decimal_value(s.drop_last()) + (s.last() as int - '0' as int)
    }
}

/// A number is read back from its decimal notation, which has digits only and no zero in front
/// unless the number is zero.
pub proof fn law_decimal_is_read_back(n: nat)
    ensures
        decimal_value(decimal(n)) == n,
        decimal(n).len() > 0,
        forall|i: int| 0 <= i < decimal(n).len() ==> '0' <= #[trigger] decimal(n)[i] <= '9',
        n > 0 ==> decimal(n)[0] != '0',
    decreases n,
{
    let s = decimal(n);
    if n < 10 {
        assert(s.drop_last() =~= Seq::<char>::empty());
        assert(decimal_value(s.drop_last()) == 0);
    } else {
        law_decimal_is_read_back(n / 10);
        assert(s.drop_last() =~= decimal(n / 10));
        assert(s.last() == digit(n % 10));
        assert(s[0] == decimal(n / 10)[0]);
        assert forall|i: int| 0 <= i < s.len() implies '0' <= #[trigger] s[i] <= '9' by {
            if i < decimal(n / 10).len() {
                assert(s[i] == decimal(n / 10)[i]);
            }
        }
    }
}

/// The value of an upper-case hexadecimal digit.
pub open spec fn upper_value(c: char) -> int {
    if c <= '9' {
        c as int - '0' as int
    } else {
        c as int - 'A' as int + 10
    }
}

/// Bytes are written with two upper-case hexadecimal digits each, and are read back from them.
pub proof fn law_hex_is_read_back(bytes: Seq<u8>)
    ensures
        hex_of(bytes).len() == 2 * bytes.len(),
        forall|i: int|
            #![trigger bytes[i]]
            0 <= i < bytes.len() ==> {
                let high = hex_of(bytes)[2 * i];
                let low = hex_of(bytes)[2 * i + 1];
                &&& bytes[i] == 16 * upper_value(high) + upper_value(low)
                &&& 0 <= upper_value(high) < 16
                &&& 0 <= upper_value(low) < 16
            },
    decreases bytes.len(),
{
    if bytes.len() > 0 {
        let front = bytes.drop_last();
        law_hex_is_read_back(front);
        assert forall|i: int| #![trigger bytes[i]] 0 <= i < bytes.len() implies {
            let high = hex_of(bytes)[2 * i];
            let low = hex_of(bytes)[2 * i + 1];
            &&& bytes[i] == 16 * upper_value(high) + upper_value(low)
            &&& 0 <= upper_value(high) < 16
            &&& 0 <= upper_value(low) < 16
        } by {
            if i < front.len() {
                assert(front[i] == bytes[i]);
                assert(hex_of(bytes)[2 * i] == hex_of(front)[2 * i]);
                assert(hex_of(bytes)[2 * i + 1] == hex_of(front)[2 * i + 1]);
            } else {
                let b = bytes[i];
                assert(hex_of(bytes)[2 * i] == hex_digit((b / 16) as nat));
                assert(hex_of(bytes)[2 * i + 1] == hex_digit((b % 16) as nat));
            }
        }
    }
}

} // verus!
