//! Parsing of currency amounts.
//!
//! An amount string denotes whole coins with up to eight decimal
//! places; the base unit (one veni) is a hundred-millionth of a coin.
//! Digits past the eighth decimal place are ignored.

use vstd::prelude::*;
use vstd::string::{StrSliceExecFns, StringSliceAdditionalSpecFns};
use vstd::utf8::encode_utf8;
use crate::network::NetworkType;

verus! {

/// Base units per whole coin.
pub const VENI_PER_VECNO: u64 = 100_000_000;

/// Why an amount string was rejected.
#[derive(Debug, Clone, Copy, PartialEq, Eq, Structural)]
pub enum AmountError {
    /// Not a number: empty, a stray character, or a malformed decimal.
    InvalidAmount,
    /// A well-formed number too large for the base-unit scalar.
    AmountTooLarge,
}

/// An ASCII decimal digit.
pub open spec fn is_digit(c: u8) -> bool {
    48 <= c <= 57
}

/// Every byte is a digit.
pub open spec fn all_digits(s: Seq<u8>) -> bool {
    forall|i: int| 0 <= i < s.len() ==> is_digit(#[trigger] s[i])
}

/// The integer a run of digits denotes.
pub open spec fn digits_val(s: Seq<u8>) -> int
    decreases s.len(),
{
    if s.len() == 0 {
        0
    } else {
        digits_val(s.drop_last()) * 10 + (s.last() - 48)
    }
}

/// A digit value is never negative.
pub proof fn lemma_digits_nonneg(s: Seq<u8>)
    requires
        all_digits(s),
    ensures
        digits_val(s) >= 0,
    decreases s.len(),
{
    if s.len() > 0 {
        assert(all_digits(s.drop_last()));
        lemma_digits_nonneg(s.drop_last());
    }
}

/// A prefix never denotes more than the whole run.
pub proof fn lemma_digits_prefix_le(s: Seq<u8>, m: int)
    requires
        all_digits(s),
        0 <= m <= s.len(),
    ensures
        digits_val(s.take(m)) <= digits_val(s),
    decreases s.len(),
{
    if m == s.len() {
        assert(s.take(m) =~= s);
    } else {
        assert(all_digits(s.drop_last()));
        assert(s.drop_last().take(m) =~= s.take(m));
        lemma_digits_prefix_le(s.drop_last(), m);
        lemma_digits_nonneg(s.drop_last());
        assert(digits_val(s) == digits_val(s.drop_last()) * 10 + (s.last() - 48));
    }
}

/// Ten to a small power.
pub open spec fn pow10(n: int) -> int
    decreases n,
{
    if n <= 0 {
        1
    } else {
        10 * pow10(n - 1)
    }
}

/// The position of the first dot, or the length when there is none.
pub open spec fn dot_pos(s: Seq<u8>) -> int
    decreases s.len(),
{
    if s.len() == 0 {
        0
    } else if s[0] == 46 {
        0
    } else {
        1 + dot_pos(s.drop_first())
    }
}

/// The first dot splits the bytes; before it no dot stands.
pub proof fn lemma_dot_pos_bounds(s: Seq<u8>)
    ensures
        0 <= dot_pos(s) <= s.len(),
        forall|j: int| 0 <= j < dot_pos(s) ==> s[j] != 46,
        dot_pos(s) < s.len() ==> s[dot_pos(s)] == 46,
    decreases s.len(),
{
    if s.len() > 0 && s[0] != 46 {
        lemma_dot_pos_bounds(s.drop_first());
        let p = dot_pos(s.drop_first());
        assert forall|j: int| 0 <= j < 1 + p implies s[j] != 46 by {
            if j > 0 {
                assert(s.drop_first()[j - 1] == s[j]);
            }
        }
        if 1 + p < s.len() {
            assert(s.drop_first()[p] == s[p + 1]);
        }
    }
}

/// The decimal digits an amount keeps: at most the first eight past
/// the dot.
pub open spec fn kept_decimals(dec: Seq<u8>) -> Seq<u8> {
    if dec.len() <= 8 {
        dec
    } else {
        dec.take(8)
    }
}

/// The string is a well-formed amount: digits, with at most one split
/// by a dot whose kept decimals are digits.
pub open spec fn veni_valid(b: Seq<u8>) -> bool {
    let d = dot_pos(b);
    if d == b.len() {
        b.len() > 0 && all_digits(b)
    } else {
        let intpart = b.take(d);
        let dec = b.skip(d + 1);
        intpart.len() > 0 && all_digits(intpart) && all_digits(kept_decimals(dec))
    }
}

/// The base-unit value a well-formed amount denotes.
pub open spec fn veni_value(b: Seq<u8>) -> int {
    let d = dot_pos(b);
    if d == b.len() {
        digits_val(b) * VENI_PER_VECNO
    } else {
        let dec = kept_decimals(b.skip(d + 1));
        digits_val(b.take(d)) * VENI_PER_VECNO + digits_val(dec) * pow10(8 - dec.len())
    }
}

/// Parses the digit run `b[start..end]`, rejecting what a 64-bit
/// scalar cannot hold.
#[verifier::loop_isolation(false)]
fn parse_digits(b: &[u8], start: usize, end: usize) -> (r: Result<u64, AmountError>)
    requires
        start <= end <= b@.len(),
    ensures
        ({
            let seg = b@.subrange(start as int, end as int);
            match r {
                Ok(v) => seg.len() > 0 && all_digits(seg) && v as int == digits_val(seg),
                Err(AmountError::InvalidAmount) => seg.len() == 0 || !all_digits(seg),
                Err(AmountError::AmountTooLarge) => all_digits(seg) && digits_val(seg) > u64::MAX,
            }
        }),
{
    let ghost seg = b@.subrange(start as int, end as int);
    if start == end {
        return Err(AmountError::InvalidAmount);
    }
    let mut val: u64 = 0;
    let mut i: usize = start;
    while i < end
        invariant
            start <= i <= end,
            all_digits(seg.take(i - start)),
            val as int == digits_val(seg.take(i - start)),
        decreases end - i,
    {
        let c = b[i];
        proof {
            assert(seg.take(i - start + 1).drop_last() =~= seg.take(i - start));
            assert(seg.take(i - start + 1).last() == seg[i - start]);
            assert(seg[i - start] == b@[i as int]);
        }
        if c < 48 || c > 57 {
            proof {
                assert(!is_digit(seg[i - start]));
            }
            return Err(AmountError::InvalidAmount);
        }
        let d = (c - 48) as u64;
        if val > (u64::MAX - d) / 10 {
            if all_digits_exec(b, i + 1, end) {
                proof {
                    let pre = seg.take(i - start + 1);
                    assert(all_digits(pre));
                    assert(digits_val(pre) == val * 10 + d);
                    assert(val * 10 + d > u64::MAX) by (nonlinear_arith)
                        requires
                            val > (u64::MAX - d) / 10,
                            d <= 9,
                    ;
                    assert(b@.subrange(i as int + 1, end as int) =~= seg.skip(i - start + 1));
                    assert forall|j: int| 0 <= j < seg.len() implies is_digit(
                        #[trigger] seg[j],
                    ) by {
                        if j < i - start {
                            assert(seg.take(i - start)[j] == seg[j]);
                        } else if j == i - start {
                            assert(is_digit(seg[i - start]));
                        } else {
                            assert(seg.skip(i - start + 1)[j - (i - start) - 1] == seg[j]);
                        }
                    }
                    lemma_digits_prefix_le(seg, i - start + 1);
                }
                return Err(AmountError::AmountTooLarge);
            } else {
                proof {
                    assert(b@.subrange(i as int + 1, end as int) =~= seg.skip(i - start + 1));
                    let sub = seg.skip(i - start + 1);
                    assert(exists|j: int| 0 <= j < sub.len() && !is_digit(#[trigger] sub[j]));
                    let j = choose|j: int| 0 <= j < sub.len() && !is_digit(#[trigger] sub[j]);
                    assert(sub[j] == seg[j + i - start + 1]);
                    assert(!all_digits(seg));
                }
                return Err(AmountError::InvalidAmount);
            }
        }
        val = val * 10 + d;
        i = i + 1;
    }
    proof {
        assert(seg.take(end - start) =~= seg);
    }
    Ok(val)
}

/// Whether `b[start..end]` is all digits.
#[verifier::loop_isolation(false)]
fn all_digits_exec(b: &[u8], start: usize, end: usize) -> (r: bool)
    requires
        start <= end <= b@.len(),
    ensures
        r == all_digits(b@.subrange(start as int, end as int)),
{
    let ghost seg = b@.subrange(start as int, end as int);
    let mut i: usize = start;
    while i < end
        invariant
            start <= i <= end,
            forall|j: int| 0 <= j < i - start ==> is_digit(#[trigger] seg[j]),
        decreases end - i,
    {
        let c = b[i];
        proof {
            assert(seg[i - start] == b@[i as int]);
        }
        if c < 48 || c > 57 {
            return false;
        }
        i = i + 1;
    }
    true
}

/// Ten to a power of at most eight.
fn pow10_exec(n: usize) -> (r: u64)
    requires
        n <= 8,
    ensures
        r as int == pow10(n as int),
{
    proof {
        lemma_pow10_vals();
    }
    if n == 0 {
        1
    } else if n == 1 {
        10
    } else if n == 2 {
        100
    } else if n == 3 {
        1_000
    } else if n == 4 {
        10_000
    } else if n == 5 {
        100_000
    } else if n == 6 {
        1_000_000
    } else if n == 7 {
        10_000_000
    } else {
        100_000_000
    }
}

/// The small powers of ten, written out.
pub proof fn lemma_pow10_vals()
    ensures
        pow10(0) == 1,
        pow10(1) == 10,
        pow10(2) == 100,
        pow10(3) == 1_000,
        pow10(4) == 10_000,
        pow10(5) == 100_000,
        pow10(6) == 1_000_000,
        pow10(7) == 10_000_000,
        pow10(8) == 100_000_000,
{
    reveal_with_fuel(pow10, 10);
}

/// Powers of at most ten to the eight stay within one whole coin.
pub proof fn lemma_pow10_le8(n: int)
    requires
        0 <= n <= 8,
    ensures
        1 <= pow10(n) <= 100_000_000,
    decreases n,
{
    lemma_pow10_vals();
    if n > 0 {
        lemma_pow10_le8(n - 1);
    }
}

/// Parses the kept decimals in `b[dec_start..end]`, already scaled to
/// base units.
fn parse_decimals(b: &[u8], dec_start: usize, end: usize) -> (r: Result<u64, AmountError>)
    requires
        dec_start <= end <= b@.len(),
    ensures
        ({
            let dec = kept_decimals(b@.subrange(dec_start as int, end as int));
            match r {
                Ok(v) => {
                    &&& all_digits(dec)
                    &&& v as int == digits_val(dec) * pow10(8 - dec.len())
                    &&& v <= 100_000_000
                },
                Err(AmountError::InvalidAmount) => !all_digits(dec),
                Err(AmountError::AmountTooLarge) => false,
            }
        }),
{
    let ghost whole = b@.subrange(dec_start as int, end as int);
    let dec_len = end - dec_start;
    if dec_len == 0 {
        proof {
            assert(kept_decimals(whole) =~= Seq::<u8>::empty());
            lemma_pow10_vals();
        }
        Ok(0)
    } else if dec_len <= 8 {
        match parse_digits(b, dec_start, end) {
            Ok(dv) => {
                let scale = pow10_exec(8 - dec_len);
                proof {
                    let dec = kept_decimals(whole);
                    assert(dec == whole);
                    lemma_digits_nonneg(dec);
                    lemma_digits_val_bound(dec);
                    lemma_pow10_mul(dec.len() as int);
                    lemma_pow10_le8(8 - dec.len() as int);
                    lemma_pow10_vals();
                    assert(dv * scale <= 100_000_000) by (nonlinear_arith)
                        requires
                            dv as int == digits_val(dec),
                            digits_val(dec) >= 0,
                            digits_val(dec) < pow10(dec.len() as int),
                            scale as int == pow10(8 - dec.len() as int),
                            scale >= 1,
                            pow10(dec.len() as int) * pow10(8 - dec.len() as int) == pow10(8),
                            pow10(8) == 100_000_000,
                    ;
                }
                Ok(dv * scale)
            },
            Err(AmountError::InvalidAmount) => Err(AmountError::InvalidAmount),
            Err(AmountError::AmountTooLarge) => {
                proof {
                    lemma_digits_val_bound(whole);
                    lemma_pow10_le8(whole.len() as int);
                }
                Err(AmountError::InvalidAmount)
            },
        }
    } else {
        proof {
            assert(b@.subrange(dec_start as int, dec_start + 8) =~= kept_decimals(whole));
        }
        match parse_digits(b, dec_start, dec_start + 8) {
            Ok(dv) => {
                proof {
                    let dec = kept_decimals(whole);
                    lemma_digits_val_bound(dec);
                    lemma_digits_nonneg(dec);
                    lemma_pow10_vals();
                }
                Ok(dv)
            },
            Err(AmountError::InvalidAmount) => Err(AmountError::InvalidAmount),
            Err(AmountError::AmountTooLarge) => {
                proof {
                    let dec = kept_decimals(whole);
                    lemma_digits_val_bound(dec);
                    lemma_pow10_vals();
                }
                Err(AmountError::InvalidAmount)
            },
        }
    }
}

/// Parses the amount in `b[start..end]` to base units.
#[verifier::loop_isolation(false)]
fn veni_from_bytes(b: &[u8], start: usize, end: usize) -> (r: Result<u64, AmountError>)
    requires
        start <= end <= b@.len(),
    ensures
        ({
            let s = b@.subrange(start as int, end as int);
            match r {
                Ok(v) => veni_valid(s) && veni_value(s) <= u64::MAX && v as int == veni_value(s),
                Err(AmountError::InvalidAmount) => !veni_valid(s),
                Err(AmountError::AmountTooLarge) => veni_valid(s) && veni_value(s) > u64::MAX,
            }
        }),
{
    let ghost s = b@.subrange(start as int, end as int);

    // find the first dot
    let mut dot: usize = start;
    while dot < end && b[dot] != 46
        invariant
            start <= dot <= end,
            forall|j: int| 0 <= j < dot - start ==> s[j] != 46,
        decreases end - dot,
    {
        proof {
            assert(s[dot - start] == b@[dot as int]);
        }
        dot = dot + 1;
    }
    proof {
        lemma_dot_pos_bounds(s);
        let p = dot_pos(s);
        if p < dot - start {
            assert(s[p] == 46);
        }
        if p > dot - start {
            assert(dot < end);
            assert(s[dot - start] == b@[dot as int]);
        }
        assert(dot - start == p);
        if dot == end {
            assert(b@.subrange(start as int, dot as int) =~= s);
        } else {
            assert(b@.subrange(start as int, dot as int) =~= s.take(dot - start));
            assert(b@.subrange(dot as int + 1, end as int) =~= s.skip(dot - start + 1));
        }
    }

    let int_val = match parse_digits(b, start, dot) {
        Ok(v) => v,
        Err(AmountError::InvalidAmount) => {
            return Err(AmountError::InvalidAmount);
        },
        Err(AmountError::AmountTooLarge) => {
            if dot == end {
                proof {
                    assert(digits_val(s) * VENI_PER_VECNO > u64::MAX) by (nonlinear_arith)
                        requires
                            digits_val(s) > u64::MAX,
                    ;
                }
                return Err(AmountError::AmountTooLarge);
            }
            match parse_decimals(b, dot + 1, end) {
                Ok(_) => {
                    proof {
                        let ip = s.take(dot - start);
                        let dec = kept_decimals(s.skip(dot - start + 1));
                        lemma_digits_nonneg(dec);
                        lemma_pow10_le8(8 - dec.len());
                        assert(digits_val(ip) * VENI_PER_VECNO > u64::MAX) by (nonlinear_arith)
                            requires
                                digits_val(ip) > u64::MAX,
                        ;
                        assert(digits_val(dec) * pow10(8 - dec.len()) >= 0) by (nonlinear_arith)
                            requires
                                digits_val(dec) >= 0,
                                pow10(8 - dec.len()) >= 1,
                        ;
                    }
                    return Err(AmountError::AmountTooLarge);
                },
                Err(_) => {
                    return Err(AmountError::InvalidAmount);
                },
            }
        },
    };

    let dec_scaled: u64 = if dot == end {
        0
    } else {
        match parse_decimals(b, dot + 1, end) {
            Ok(v) => v,
            Err(_) => {
                return Err(AmountError::InvalidAmount);
            },
        }
    };

    // combine in a wider scalar, then range-check once
    let total: u128 = int_val as u128 * VENI_PER_VECNO as u128 + dec_scaled as u128;
    proof {
        if dot == end {
            assert(veni_valid(s));
            assert(total as int == veni_value(s));
        } else {
            let ip = s.take(dot - start);
            let dec = kept_decimals(s.skip(dot - start + 1));
            assert(all_digits(ip));
            assert(all_digits(dec));
            assert(veni_valid(s));
            assert(total as int == veni_value(s));
        }
    }
    if total > u64::MAX as u128 {
        Err(AmountError::AmountTooLarge)
    } else {
        Ok(total as u64)
    }
}

/// A digit run of length `n` denotes less than ten to the `n`.
pub proof fn lemma_digits_val_bound(s: Seq<u8>)
    requires
        all_digits(s),
    ensures
        digits_val(s) < pow10(s.len() as int),
    decreases s.len(),
{
    if s.len() > 0 {
        assert(all_digits(s.drop_last()));
        lemma_digits_val_bound(s.drop_last());
        assert(digits_val(s) == digits_val(s.drop_last()) * 10 + (s.last() - 48));
        assert(pow10(s.len() as int) == 10 * pow10(s.len() - 1));
    }
}

/// Scaled decimals stay below one whole coin.
pub proof fn lemma_pow10_mul(n: int)
    requires
        0 <= n <= 8,
    ensures
        pow10(n) * pow10(8 - n) == pow10(8),
    decreases n,
{
    lemma_pow10_vals();
    if n > 0 {
        lemma_pow10_mul(n - 1);
        assert(pow10(n) * pow10(8 - n) == pow10(8)) by (nonlinear_arith)
            requires
                pow10(n) == 10 * pow10(n - 1),
                pow10(n - 1) * pow10(8 - (n - 1)) == pow10(8),
                pow10(8 - (n - 1)) == 10 * pow10(8 - n),
        ;
    }
}

/// Parses an amount string to base units. The grammar is unsigned:
/// digits with at most one dot, and no leading sign.
pub fn str_to_veni(amount: &str) -> (r: Result<u64, AmountError>)
    ensures
        ({
            let s = amount.spec_bytes();
            match r {
                Ok(v) => veni_valid(s) && veni_value(s) <= u64::MAX && v as int == veni_value(s),
                Err(AmountError::InvalidAmount) => !veni_valid(s),
                Err(AmountError::AmountTooLarge) => veni_valid(s) && veni_value(s) > u64::MAX,
            }
        }),
{
    let b = amount.as_bytes();
    let n = b.len();
    proof {
        assert(b@.subrange(0, n as int) =~= amount.spec_bytes());
    }
    veni_from_bytes(b, 0, n)
}

/// A whitespace character, as the standard library's trim understands
/// it: the characters with the White_Space property.
pub open spec fn is_ws_char(c: char) -> bool {
    let u = c as u32;
    ||| u == 0x09
    ||| u == 0x0A
    ||| u == 0x0B
    ||| u == 0x0C
    ||| u == 0x0D
    ||| u == 0x20
    ||| u == 0x85
    ||| u == 0xA0
    ||| u == 0x1680
    ||| (0x2000 <= u && u <= 0x200A)
    ||| u == 0x2028
    ||| u == 0x2029
    ||| u == 0x202F
    ||| u == 0x205F
    ||| u == 0x3000
}

/// Whether the character is whitespace.
fn is_ws_exec(c: char) -> (r: bool)
    ensures
        r == is_ws_char(c),
{
    let u = c as u32;
    u == 0x09 || u == 0x0A || u == 0x0B || u == 0x0C || u == 0x0D || u == 0x20 || u == 0x85 || u
        == 0xA0 || u == 0x1680 || (0x2000 <= u && u <= 0x200A) || u == 0x2028 || u == 0x2029 || u
        == 0x202F || u == 0x205F || u == 0x3000
}

/// The first character that is not whitespace.
pub open spec fn trim_lo(s: Seq<char>) -> int
    decreases s.len(),
{
    if s.len() == 0 {
        0
    } else if !is_ws_char(s[0]) {
        0
    } else {
        1 + trim_lo(s.drop_first())
    }
}

/// One past the last character that is not whitespace.
pub open spec fn trim_hi(s: Seq<char>) -> int
    decreases s.len(),
{
    if s.len() == 0 {
        0
    } else if !is_ws_char(s.last()) {
        s.len() as int
    } else {
        trim_hi(s.drop_last())
    }
}

/// The string with surrounding whitespace dropped; empty when nothing
/// else stands in it.
pub open spec fn trimmed_chars(s: Seq<char>) -> Seq<char> {
    if trim_lo(s) >= trim_hi(s) {
        Seq::empty()
    } else {
        s.subrange(trim_lo(s), trim_hi(s))
    }
}

/// The leading-whitespace bound behaves as a first-index search.
pub proof fn lemma_trim_lo(s: Seq<char>)
    ensures
        0 <= trim_lo(s) <= s.len(),
        forall|j: int| 0 <= j < trim_lo(s) ==> is_ws_char(#[trigger] s[j]),
        trim_lo(s) < s.len() ==> !is_ws_char(s[trim_lo(s)]),
    decreases s.len(),
{
    if s.len() > 0 && is_ws_char(s[0]) {
        lemma_trim_lo(s.drop_first());
        let p = trim_lo(s.drop_first());
        assert forall|j: int| 0 <= j < 1 + p implies is_ws_char(#[trigger] s[j]) by {
            if j > 0 {
                assert(s.drop_first()[j - 1] == s[j]);
            }
        }
        if 1 + p < s.len() {
            assert(s.drop_first()[p] == s[p + 1]);
        }
    }
}

/// The trailing bound never exceeds the length.
pub proof fn lemma_trim_hi_le(s: Seq<char>)
    ensures
        0 <= trim_hi(s) <= s.len(),
    decreases s.len(),
{
    if s.len() > 0 && is_ws_char(s.last()) {
        lemma_trim_hi_le(s.drop_last());
    }
}

/// Stepping left over whitespace keeps the trailing bound.
pub proof fn lemma_trim_hi(s: Seq<char>, hi: int)
    requires
        0 < hi <= s.len(),
        is_ws_char(s[hi - 1]),
        forall|j: int| hi <= j < s.len() ==> is_ws_char(#[trigger] s[j]),
        trim_hi(s) <= hi,
    ensures
        trim_hi(s) <= hi - 1,
    decreases s.len(),
{
    if hi == s.len() {
        assert(trim_hi(s) == trim_hi(s.drop_last()));
        lemma_trim_hi_le(s.drop_last());
    } else {
        assert(is_ws_char(s.last()));
        assert(trim_hi(s) == trim_hi(s.drop_last()));
        lemma_trim_hi(s.drop_last(), hi);
    }
}

/// A stop at a non-whitespace character pins the trailing bound.
pub proof fn lemma_trim_hi_exact(s: Seq<char>, hi: int, lo: int)
    requires
        0 <= lo <= hi <= s.len(),
        forall|j: int| hi <= j < s.len() ==> is_ws_char(#[trigger] s[j]),
        trim_hi(s) <= hi,
        hi > lo ==> !is_ws_char(s[hi - 1]),
    ensures
        hi > lo ==> trim_hi(s) == hi,
    decreases s.len(),
{
    if hi > lo {
        if hi == s.len() {
            assert(!is_ws_char(s.last()));
        } else {
            assert(is_ws_char(s.last()));
            assert(trim_hi(s) == trim_hi(s.drop_last()));
            assert forall|j: int| hi <= j < s.drop_last().len() implies is_ws_char(
                #[trigger] s.drop_last()[j],
            ) by {
                assert(s.drop_last()[j] == s[j]);
            }
            assert(s.drop_last()[hi - 1] == s[hi - 1]);
            lemma_trim_hi_exact(s.drop_last(), hi, lo);
        }
    }
}

/// Parses an optional amount string: surrounding whitespace is
/// ignored, and a blank string means "no amount", never an error.
pub fn try_vecno_str_to_veni(s: &str) -> (r: Result<Option<u64>, AmountError>)
    ensures
        ({
            let t = trimmed_chars(s@);
            let tb = encode_utf8(t);
            if t.len() == 0 {
                r == Ok::<Option<u64>, AmountError>(None)
            } else {
                match r {
                    Ok(Some(v)) => veni_valid(tb) && veni_value(tb) <= u64::MAX && v as int
                        == veni_value(tb),
                    Ok(None) => false,
                    Err(AmountError::InvalidAmount) => !veni_valid(tb),
                    Err(AmountError::AmountTooLarge) => veni_valid(tb) && veni_value(tb)
                        > u64::MAX,
                }
            }
        }),
{
    let n = s.unicode_len();
    proof {
        lemma_trim_lo(s@);
        lemma_trim_hi_le(s@);
    }
    let mut lo: usize = 0;
    while lo < n && is_ws_exec(s.get_char(lo))
        invariant
            lo <= n,
            n == s@.len(),
            forall|j: int| 0 <= j < lo ==> is_ws_char(#[trigger] s@[j]),
            lo as int <= trim_lo(s@),
        decreases n - lo,
    {
        proof {
            lemma_trim_lo(s@);
        }
        lo = lo + 1;
    }
    proof {
        lemma_trim_lo(s@);
        assert(lo as int == trim_lo(s@));
    }
    let mut hi: usize = n;
    while hi > lo && is_ws_exec(s.get_char(hi - 1))
        invariant
            lo <= hi <= n,
            n == s@.len(),
            forall|j: int| hi <= j < n ==> is_ws_char(#[trigger] s@[j]),
            trim_hi(s@) <= hi as int,
        decreases hi,
    {
        proof {
            lemma_trim_hi(s@, hi as int);
        }
        hi = hi - 1;
    }
    proof {
        lemma_trim_hi_exact(s@, hi as int, lo as int);
    }
    if lo >= hi {
        return Ok(None);
    }
    let t = s.substring_char(lo, hi);
    let b = t.as_bytes();
    let m = b.len();
    proof {
        assert(t@ == trimmed_chars(s@));
        assert(b@.subrange(0, m as int) =~= encode_utf8(trimmed_chars(s@)));
    }
    match veni_from_bytes(b, 0, m) {
        Ok(v) => Ok(Some(v)),
        Err(e) => Err(e),
    }
}

/// The currency suffix shown for amounts on each network.
pub fn vecno_suffix(network_type: &NetworkType) -> (r: &'static str)
    ensures
        r@ == (match network_type {
            NetworkType::Mainnet => "VE"@,
            NetworkType::Testnet => "TVE"@,
            NetworkType::Simnet => "SVE"@,
        }),
{
    match network_type {
        NetworkType::Mainnet => "VE",
        NetworkType::Testnet => "TVE",
        NetworkType::Simnet => "SVE",
    }
}

} // verus!
