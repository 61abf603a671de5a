//! Little wire formats used by the relay: player ids written as
//! single-precision floats (the browser side reads `Float32Array`s), and
//! decimal numbers in text.
use vstd::prelude::*;
use vstd::arithmetic::power2::{pow2, lemma2_to64, lemma_pow2_unfold, lemma_pow2_adds, lemma_pow2_pos};
use vstd::string::*;

verus! {

// ------------------------------------------------------------------
// Player ids as IEEE 754 single-precision floats, little endian
// ------------------------------------------------------------------

/// Position of the highest set bit of `n` (0 for 0 and 1).
pub open spec fn highest_bit(n: nat) -> nat
    decreases n,
{
    if n < 2 {
        0
    } else {
        1 + highest_bit(n / 2)
    }
}

/// The bits of the single-precision float whose value is the whole number `n`:
/// sign 0, biased exponent `127 + e` where `2^e <= n < 2^(e+1)`, and the bits of
/// `n` below its highest bit as the top of the 23-bit fraction. Zero is all zero bits.
pub open spec fn f32_bits_of_byte(n: u8) -> u32 {
    if n == 0 {
        0
    } else {
        let e = highest_bit(n as nat);
        ((127 + e) * pow2(23) + (n - pow2(e)) * pow2((23 - e) as nat)) as u32
    }
}

/// What the float with bits `bits` gives when it is cast to `u8`: NaN and every
/// value below 1 give 0, values of 256 and above (infinity too) give 255, and
/// the rest are truncated toward zero.
pub open spec fn f32_bits_to_byte(bits: u32) -> u8 {
    let exponent = (bits / 0x80_0000) % 256;
    let fraction = bits % 0x80_0000;
    if exponent == 255 && fraction != 0 {
        0
    } else if bits >= 0x8000_0000 {
        0
    } else if exponent < 127 {
        0
    } else if exponent >= 135 {
        255
    } else {
        ((fraction + 0x80_0000) as int / pow2((150 - exponent) as nat) as int) as u8
    }
}

/// The four bytes of `bits`, least significant first.
pub open spec fn le_bytes(bits: u32) -> Seq<u8> {
    seq![
        (bits % 256) as u8,
        ((bits / 0x100) % 256) as u8,
        ((bits / 0x1_0000) % 256) as u8,
        (bits / 0x100_0000) as u8,
    ]
}

/// The number whose bytes, least significant first, are `b[0..4]`.
pub open spec fn from_le_bytes(b: Seq<u8>) -> u32
    recommends
        b.len() >= 4,
{
    (b[0] + 0x100 * b[1] + 0x1_0000 * b[2] + 0x100_0000 * b[3]) as u32
}

/// The four bytes that carry player id `n` on the wire.
pub open spec fn id_bytes(n: u8) -> Seq<u8> {
    le_bytes(f32_bits_of_byte(n))
}

/// The player id read back from the four bytes `b[0..4]`.
pub open spec fn id_of_bytes(b: Seq<u8>) -> u8
    recommends
        b.len() >= 4,
{
    f32_bits_to_byte(from_le_bytes(b))
}

proof fn lemma_highest_bit(n: nat, e: nat)
    requires
        pow2(e) <= n < pow2(e + 1),
    ensures
        highest_bit(n) == e,
    decreases e,
{
    lemma2_to64();
    if e > 0 {
        lemma_pow2_unfold(e);
        lemma_pow2_unfold(e + 1);
        lemma_highest_bit(n / 2, (e - 1) as nat);
    }
}

proof fn lemma_exact_div(n: int, m: int)
    requires
        m > 0,
    ensures
        (n * m) / m == n,
{
    assert((n * m) / m == n) by (nonlinear_arith)
        requires
            m > 0,
    ;
}

proof fn lemma_le_bytes_roundtrip(bits: u32)
    ensures
        le_bytes(bits).len() == 4,
        from_le_bytes(le_bytes(bits)) == bits,
{
}

/// Returns the bits of the single-precision float whose value is `n`.
pub fn f32_bits_of_id(n: u8) -> (bits: u32)
    ensures
        bits == f32_bits_of_byte(n),
{
    if n == 0 {
        return 0;
    }
    proof {
        lemma2_to64();
    }
    let mut p: u32 = 1;
    let mut e: u32 = 0;
    while p * 2 <= n as u32
        invariant
            1 <= p <= n,
            e <= 7,
            p == pow2(e as nat),
            n <= 255,
        decreases n - p,
    {
        proof {
            lemma2_to64();
            lemma_pow2_unfold((e + 1) as nat);
        }
        p = p * 2;
        e = e + 1;
    }
    proof {
        lemma_pow2_unfold((e + 1) as nat);
        lemma_highest_bit(n as nat, e as nat);
    }
    let mut m: u32 = 0x80_0000;
    let mut k: u32 = 0;
    while k < e
        invariant
            k <= e <= 7,
            m == pow2((23 - k) as nat),
        decreases e - k,
    {
        proof {
            lemma_pow2_unfold((23 - k) as nat);
        }
        m = m / 2;
        k = k + 1;
    }
    proof {
        lemma_pow2_adds(e as nat, (23 - e) as nat);
        assert(p * m == 0x80_0000);
        assert((n - p) * m < 0x80_0000) by (nonlinear_arith)
            requires
                p * m == 0x80_0000,
                n < 2 * p,
                p <= n,
                m > 0,
        ;
        assert((n - p) * m >= 0) by (nonlinear_arith)
            requires
                p <= n,
                m > 0,
        ;
    }
    (127 + e) * 0x80_0000 + (n as u32 - p) * m
}

/// Returns the byte that the float with bits `bits` gives when cast to `u8`.
pub fn byte_of_f32_bits(bits: u32) -> (b: u8)
    ensures
        b == f32_bits_to_byte(bits),
{
    let exponent = (bits / 0x80_0000) % 256;
    let fraction = bits % 0x80_0000;
    if exponent == 255 && fraction != 0 {
        0
    } else if bits >= 0x8000_0000 {
        0
    } else if exponent < 127 {
        0
    } else if exponent >= 135 {
        255
    } else {
        let shift = 150 - exponent;
        let mut d: u32 = 1;
        let mut k: u32 = 0;
        proof {
            lemma2_to64();
        }
        while k < shift
            invariant
                k <= shift,
                16 <= shift <= 23,
                d == pow2(k as nat),
            decreases shift - k,
        {
            proof {
                lemma_pow2_unfold((k + 1) as nat);
                lemma_pow2_strictly_increases_to_23(k as nat);
            }
            d = d * 2;
            k = k + 1;
        }
        proof {
            lemma_pow2_grows(16, shift as nat);
            let x: int = fraction + 0x80_0000;
            let y: int = d as int;
            assert(x / y < 256) by (nonlinear_arith)
                requires
                    y >= 0x1_0000,
                    0 <= x < 0x100_0000,
            ;
        }
        ((fraction + 0x80_0000) / d) as u8
    }
}

proof fn lemma_pow2_strictly_increases_to_23(k: nat)
    requires
        k < 23,
    ensures
        pow2(k + 1) <= 0x80_0000,
{
    lemma2_to64();
    lemma_pow2_grows(k + 1, 23);
}

proof fn lemma_pow2_grows(a: nat, b: nat)
    requires
        a <= b,
    ensures
        pow2(a) <= pow2(b),
    decreases b - a,
{
    if a < b {
        lemma_pow2_unfold(b);
        lemma_pow2_pos((b - 1) as nat);
        lemma_pow2_grows(a, (b - 1) as nat);
    }
}

/// Returns the four bytes, least significant first, that carry player id `n`.
pub fn id_to_bytes(n: u8) -> (b: [u8; 4])
    ensures
        b@ == id_bytes(n),
{
    let bits = f32_bits_of_id(n);
    let b = [
        (bits % 256) as u8,
        ((bits / 0x100) % 256) as u8,
        ((bits / 0x1_0000) % 256) as u8,
        (bits / 0x100_0000) as u8,
    ];
    assert(b@ =~= id_bytes(n));
    b
}

/// Returns the player id carried by `v[at..at + 4]`.
pub fn id_from_bytes(v: &Vec<u8>, at: usize) -> (n: u8)
    requires
        at + 4 <= v.len(),
    ensures
        n == id_of_bytes(v@.subrange(at as int, at + 4)),
{
    let bits: u32 = v[at] as u32 + 0x100 * (v[at + 1] as u32) + 0x1_0000 * (v[at + 2] as u32)
        + 0x100_0000 * (v[at + 3] as u32);
    byte_of_f32_bits(bits)
}

/// A player id written as four float bytes reads back as the same id.
pub proof fn lemma_id_bytes_roundtrip(n: u8)
    ensures
        id_bytes(n).len() == 4,
        id_of_bytes(id_bytes(n)) == n,
{
    let bits = f32_bits_of_byte(n);
    lemma_le_bytes_roundtrip(bits);
    lemma2_to64();
    if n > 0 {
        let e = highest_bit(n as nat);
        lemma_highest_bit_bounds(n as nat);
        assert(e <= 7) by {
            if e > 7 {
                lemma_pow2_grows(8, e);
            }
        }
        let p = pow2(e);
        let m = pow2((23 - e) as nat);
        lemma_pow2_adds(e, (23 - e) as nat);
        assert(p * m == 0x80_0000);
        lemma_pow2_pos((23 - e) as nat);
        let f = (n - p) * m;
        assert(0 <= f < 0x80_0000) by (nonlinear_arith)
            requires
                p * m == 0x80_0000,
                n < 2 * p,
                p <= n,
                m > 0,
                f == (n - p) * m,
        ;
        assert(bits == (127 + e) * 0x80_0000 + f);
        assert(bits / 0x80_0000 == 127 + e);
        assert(bits % 0x80_0000 == f);
        assert(f + 0x80_0000 == n * m) by (nonlinear_arith)
            requires
                p * m == 0x80_0000,
                f == (n - p) * m,
        ;
        lemma_exact_div(n as int, m as int);
        assert((150 - (127 + e)) as nat == (23 - e) as nat);
    }
}

proof fn lemma_highest_bit_bounds(n: nat)
    requires
        n >= 1,
    ensures
        pow2(highest_bit(n)) <= n < pow2(highest_bit(n) + 1),
    decreases n,
{
    lemma2_to64();
    if n >= 2 {
        lemma_highest_bit_bounds(n / 2);
        lemma_pow2_unfold(highest_bit(n / 2) + 1);
        lemma_pow2_unfold(highest_bit(n / 2) + 2);
    }
}

// ------------------------------------------------------------------
// Decimal numbers in text
// ------------------------------------------------------------------

/// The character of decimal digit `d` (for `d < 10`).
pub open spec fn digit_char(d: nat) -> char {
    ('0' as nat + d) as char
}

/// Whether `c` is one of the ASCII digits `0`..`9`.
pub open spec fn is_digit(c: char) -> bool {
    '0' <= c <= '9'
}

/// The value of the digit character `c`.
pub open spec fn digit_value(c: char) -> nat {
    (c as nat - '0' as nat) as nat
}

/// The shortest decimal writing of `n`.
pub open spec fn decimal(n: nat) -> Seq<char>
    decreases n,
{
    if n < 10 {
        seq![digit_char(n)]
    } else {
        decimal(n / 10).push(digit_char(n % 10))
    }
}

/// The value of the digit string `s` (most significant first).
pub open spec fn digits_value(s: Seq<char>) -> nat
    decreases s.len(),
{
    if s.len() == 0 {
        0
    } else {
        digits_value(s.drop_last()) * 10 + digit_value(s.last())
    }
}

/// Whether every character of `s` is a digit.
pub open spec fn all_digits(s: Seq<char>) -> bool {
    forall|i: int| 0 <= i < s.len() ==> is_digit(#[trigger] s[i])
}

/// `s` without one leading `+`, if it has one.
pub open spec fn unsigned_digits(s: Seq<char>) -> Seq<char> {
    if s.len() > 0 && s[0] == '+' {
        s.drop_first()
    } else {
        s
    }
}

/// How an unsigned integer type whose largest value is `max` reads `s`: an
/// optional `+` followed by one or more digits whose value is at most `max`;
/// anything else is refused.
pub open spec fn parse_unsigned(s: Seq<char>, max: nat) -> Option<nat> {
    let d = unsigned_digits(s);
    if d.len() > 0 && all_digits(d) && digits_value(d) <= max {
        Some(digits_value(d))
    } else {
        None
    }
}

fn digit_str(d: u8) -> (s: &'static str)
    requires
        d < 10,
    ensures
        s@ == seq![digit_char(d as nat)],
{
    if d == 0 {
        proof { reveal_strlit("0"); }
        "0"
    } else if d == 1 {
        proof { reveal_strlit("1"); }
        "1"
    } else if d == 2 {
        proof { reveal_strlit("2"); }
        "2"
    } else if d == 3 {
        proof { reveal_strlit("3"); }
        "3"
    } else if d == 4 {
        proof { reveal_strlit("4"); }
        "4"
    } else if d == 5 {
        proof { reveal_strlit("5"); }
        "5"
    } else if d == 6 {
        proof { reveal_strlit("6"); }
        "6"
    } else if d == 7 {
        proof { reveal_strlit("7"); }
        "7"
    } else if d == 8 {
        proof { reveal_strlit("8"); }
        "8"
    } else {
        proof { reveal_strlit("9"); }
        "9"
    }
}

/// Returns `n` written in decimal.
pub fn decimal_text(n: u8) -> (s: String)
    ensures
        s@ == decimal(n as nat),
{
    proof {
        reveal_with_fuel(decimal, 3);
    }
    if n >= 100 {
        let mut s = String::from_str(digit_str(n / 100));
        s.append(digit_str((n / 10) % 10));
        s.append(digit_str(n % 10));
        assert(s@ =~= decimal(n as nat));
        s
    } else if n >= 10 {
        let mut s = String::from_str(digit_str(n / 10));
        s.append(digit_str(n % 10));
        assert(s@ =~= decimal(n as nat));
        s
    } else {
        String::from_str(digit_str(n))
    }
}

proof fn lemma_digits_value_grows(s: Seq<char>, k: int)
    requires
        0 <= k <= s.len(),
        all_digits(s),
    ensures
        digits_value(s.subrange(0, k)) <= digits_value(s),
    decreases s.len() - k,
{
    if k < s.len() {
        let t = s.subrange(0, k + 1);
        assert(t.drop_last() =~= s.subrange(0, k));
        assert(is_digit(s[k]));
        lemma_digits_value_grows(s, k + 1);
    } else {
        assert(s.subrange(0, k) =~= s);
    }
}

fn parse_unsigned_text(s: &str, max: usize) -> (r: Option<usize>)
    requires
        max >= 9,
    ensures
        r matches Some(v) ==> parse_unsigned(s@, max as nat) == Some(v as nat),
        r is None ==> parse_unsigned(s@, max as nat) is None,
{
    let len = s.unicode_len();
    if len == 0 {
        return None;
    }
    let start: usize = if s.get_char(0) == '+' { 1 } else { 0 };
    let ghost d = unsigned_digits(s@);
    assert(d =~= s@.subrange(start as int, len as int));
    if start == len {
        return None;
    }
    let mut acc: usize = 0;
    let mut i: usize = start;
    while i < len
        invariant
            start <= i <= len,
            len == s@.len(),
            d == s@.subrange(start as int, len as int),
            d == unsigned_digits(s@),
            all_digits(s@.subrange(start as int, i as int)),
            acc as nat == digits_value(s@.subrange(start as int, i as int)),
            acc <= max,
            max >= 9,
        decreases len - i,
    {
        let c = s.get_char(i);
        let ghost pre = s@.subrange(start as int, i as int);
        let ghost next = s@.subrange(start as int, i + 1);
        assert(next.drop_last() =~= pre);
        if !('0' <= c && c <= '9') {
            assert(d[i - start] == c);
            assert(!is_digit(d[i - start]));
            return None;
        }
        let dv: usize = (c as u32 - '0' as u32) as usize;
        if acc > (max - dv) / 10 {
            proof {
                assert(all_digits(next));
                assert(next.last() == c);
                assert(digit_value(c) == dv);
                assert(acc * 10 + dv > max);
                assert(digits_value(next) > max);
                if all_digits(d) {
                    assert(d.subrange(0, i + 1 - start) =~= next);
                    lemma_digits_value_grows(d, i + 1 - start);
                }
            }
            return None;
        }
        acc = acc * 10 + dv;
        i = i + 1;
    }
    assert(s@.subrange(start as int, i as int) =~= d);
    Some(acc)
}

/// Reads `s` as a `u8` the way `str::parse::<u8>` does.
pub fn parse_u8(s: &str) -> (r: Option<u8>)
    ensures
        r matches Some(v) ==> parse_unsigned(s@, 255) == Some(v as nat),
        r is None ==> parse_unsigned(s@, 255) is None,
{
    match parse_unsigned_text(s, 255) {
        Some(v) => Some(v as u8),
        None => None,
    }
}

/// Reads `s` as a `usize` the way `str::parse::<usize>` does.
pub fn parse_usize(s: &str) -> (r: Option<usize>)
    ensures
        r matches Some(v) ==> parse_unsigned(s@, usize::MAX as nat) == Some(v as nat),
        r is None ==> parse_unsigned(s@, usize::MAX as nat) is None,
{
    parse_unsigned_text(s, usize::MAX)
}

proof fn lemma_decimal_digits(n: nat)
    ensures
        decimal(n).len() > 0,
        all_digits(decimal(n)),
        digits_value(decimal(n)) == n,
        decimal(n)[0] != '+',
    decreases n,
{
    if n >= 10 {
        lemma_decimal_digits(n / 10);
        let s = decimal(n);
        assert(s.drop_last() =~= decimal(n / 10));
        assert(s[0] == decimal(n / 10)[0]);
        assert forall|i: int| 0 <= i < s.len() implies is_digit(#[trigger] s[i]) by {
            if i < s.len() - 1 {
                assert(s[i] == decimal(n / 10)[i]);
            }
        }
    } else {
        assert(digits_value(decimal(n).drop_last()) == 0);
    }
}

/// A number written in decimal reads back as itself, for any unsigned type
/// large enough to hold it.
pub proof fn lemma_decimal_roundtrip(n: nat, max: nat)
    requires
        n <= max,
    ensures
        parse_unsigned(decimal(n), max) == Some(n),
{
    lemma_decimal_digits(n);
}

} // verus!
