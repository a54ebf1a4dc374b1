//! Reading numbers out of text byte by byte: integers the way Rust's
//! `str::parse` reads them, and decimal prices, written in Rust's float
//! syntax, exactly in basis points.
use vstd::prelude::*;
use crate::text::{digit_char, int_decimal, nat_decimal};
use vstd::string::StringSliceAdditionalSpecFns;
use vstd::arithmetic::div_mod::lemma_div_denominator;
use vstd::utf8::{encode_utf8, is_ascii_chars, is_ascii_chars_encode_utf8};

verus! {

pub open spec fn is_dec_digit(b: u8) -> bool {
    48 <= b <= 57
}

pub open spec fn all_dec_digits(bytes: Seq<u8>) -> bool {
    forall|i: int| 0 <= i < bytes.len() ==> #[trigger] is_dec_digit(bytes[i])
}

/// The value of a string of decimal digits, most significant first.
pub open spec fn dec_value(digits: Seq<u8>) -> int
    decreases digits.len(),
{
    if digits.len() == 0 {
        0
    } else {
        dec_value(digits.drop_last()) * 10 + (digits.last() - 48)
    }
}

/// The number that base-10 integer parsing reads from `bytes`, before its
/// range is checked: an optional `+` or `-`, then one or more ASCII digits.
pub open spec fn decimal_reading(bytes: Seq<u8>) -> Option<int> {
    if bytes.len() == 0 {
        None
    } else if bytes[0] == 43 || bytes[0] == 45 {
        let digits = bytes.skip(1);
        if digits.len() == 0 || !all_dec_digits(digits) {
            None
        } else if bytes[0] == 45 {
            Some(-dec_value(digits))
        } else {
            Some(dec_value(digits))
        }
    } else if all_dec_digits(bytes) {
        Some(dec_value(bytes))
    } else {
        None
    }
}

/// What `text.parse::<i64>()` gives: the reading when it fits in an `i64`.
pub open spec fn parsed_i64(bytes: Seq<u8>) -> Option<i64> {
    match decimal_reading(bytes) {
        Some(v) => if i64::MIN <= v <= i64::MAX {
            Some(v as i64)
        } else {
            None
        },
        None => None,
    }
}

/// What `text.parse::<i16>()` gives: the reading when it fits in an `i16`.
pub open spec fn parsed_i16(bytes: Seq<u8>) -> Option<i16> {
    match decimal_reading(bytes) {
        Some(v) => if i16::MIN <= v <= i16::MAX {
            Some(v as i16)
        } else {
            None
        },
        None => None,
    }
}

proof fn lemma_dec_value_nonneg(digits: Seq<u8>)
    requires
        all_dec_digits(digits),
    ensures
        dec_value(digits) >= 0,
    decreases digits.len(),
{
    if digits.len() > 0 {
        assert(is_dec_digit(digits[digits.len() - 1]));
        assert(all_dec_digits(digits.drop_last())) by {
            assert forall|i: int| 0 <= i < digits.len() - 1 implies #[trigger] is_dec_digit(
                digits.drop_last()[i],
            ) by {
                assert(is_dec_digit(digits[i]));
            }
        }
        lemma_dec_value_nonneg(digits.drop_last());
    }
}

/// Extending a string of digits never lowers its value.
proof fn lemma_dec_value_prefix(digits: Seq<u8>, k: int)
    requires
        all_dec_digits(digits),
        0 <= k <= digits.len(),
    ensures
        dec_value(digits.take(k)) <= dec_value(digits),
    decreases digits.len(),
{
    if k < digits.len() {
        assert(is_dec_digit(digits[digits.len() - 1]));
        assert(all_dec_digits(digits.drop_last())) by {
            assert forall|i: int| 0 <= i < digits.len() - 1 implies #[trigger] is_dec_digit(
                digits.drop_last()[i],
            ) by {
                assert(is_dec_digit(digits[i]));
            }
        }
        lemma_dec_value_prefix(digits.drop_last(), k);
        assert(digits.drop_last().take(k) =~= digits.take(k));
        lemma_dec_value_nonneg(digits.drop_last());
    } else {
        assert(digits.take(k) =~= digits);
    }
}

const I64_MAGNITUDE_LIMIT: u128 = 9_223_372_036_854_775_808u128;

/// Reads the digits `bytes[start..]` as a magnitude; `None` when a byte is not
/// a digit or the magnitude exceeds 2^63.
fn read_magnitude(bytes: &[u8], start: usize) -> (m: Option<u128>)
    requires
        start <= bytes@.len(),
    ensures
        ({
            let digits = bytes@.skip(start as int);
            match m {
                Some(v) => all_dec_digits(digits) && v == dec_value(digits) && v
                    <= I64_MAGNITUDE_LIMIT,
                None => !all_dec_digits(digits) || dec_value(digits) > I64_MAGNITUDE_LIMIT,
            }
        }),
{
    let ghost digits = bytes@.skip(start as int);
    let n = bytes.len();
    let mut acc: u128 = 0;
    let mut i = start;
    while i < n
        invariant
            start <= i <= n,
            n == bytes@.len(),
            digits == bytes@.skip(start as int),
            all_dec_digits(digits.take(i - start)),
            acc == dec_value(digits.take(i - start)),
            acc <= I64_MAGNITUDE_LIMIT,
        decreases n - i,
    {
        let b = bytes[i];
        let ghost k = i - start;
        assert(digits.take(k + 1).drop_last() =~= digits.take(k));
        assert(digits[k] == b);
        if b < 48 || b > 57 {
            assert(!is_dec_digit(digits[k]));
            return None;
        }
        let next = acc * 10 + (b - 48) as u128;
        assert(forall|j: int| 0 <= j < k + 1 ==> #[trigger] digits.take(k + 1)[j] == digits[j]);
        if next > I64_MAGNITUDE_LIMIT {
            proof {
                if all_dec_digits(digits) {
                    lemma_dec_value_prefix(digits, k + 1);
                }
            }
            return None;
        }
        acc = next;
        i = i + 1;
    }
    assert(digits.take(n - start) =~= digits);
    Some(acc)
}

/// Reads `text` as a decimal integer the way `text.parse::<i64>()` does.
pub fn parse_i64(text: &str) -> (v: Option<i64>)
    ensures
        v == parsed_i64(text.spec_bytes()),
{
    let bytes = text.as_bytes();
    let n = bytes.len();
    if n == 0 {
        return None;
    }
    let first = bytes[0];
    if first == 43 || first == 45 {
        if n == 1 {
            return None;
        }
        match read_magnitude(bytes, 1) {
            None => {
                return None;
            },
            Some(m) => {
                proof {
                    lemma_dec_value_nonneg(bytes@.skip(1));
                }
                if first == 45 {
                    if m == I64_MAGNITUDE_LIMIT {
                        return Some(i64::MIN);
                    }
                    return Some(-(m as i64));
                } else {
                    if m == I64_MAGNITUDE_LIMIT {
                        return None;
                    }
                    return Some(m as i64);
                }
            },
        }
    } else {
        assert(bytes@.skip(0) =~= bytes@);
        match read_magnitude(bytes, 0) {
            None => {
                return None;
            },
            Some(m) => {
                if m == I64_MAGNITUDE_LIMIT {
                    return None;
                }
                return Some(m as i64);
            },
        }
    }
}

/// Reads `text` as a decimal integer the way `text.parse::<i16>()` does.
pub fn parse_i16(text: &str) -> (v: Option<i16>)
    ensures
        v == parsed_i16(text.spec_bytes()),
{
    match parse_i64(text) {
        Some(x) => {
            if x >= -32768 && x <= 32767 {
                Some(x as i16)
            } else {
                None
            }
        },
        None => {
            proof {
                let r = decimal_reading(text.spec_bytes());
                if r is Some {
                    assert(r->0 < i64::MIN || r->0 > i64::MAX);
                }
            }
            None
        },
    }
}

/// How many ASCII digits `bytes` starts with.
pub open spec fn digit_run(bytes: Seq<u8>) -> nat
    decreases bytes.len(),
{
    if bytes.len() > 0 && is_dec_digit(bytes[0]) {
        1 + digit_run(bytes.skip(1))
    } else {
        0
    }
}

/// `10` to the power `n`.
pub open spec fn pow10(n: nat) -> int
    decreases n,
{
    if n == 0 {
        1
    } else {
        10 * pow10((n - 1) as nat)
    }
}

/// An ASCII letter in lower case; any other byte as it is.
pub open spec fn ascii_lower(b: u8) -> u8 {
    if 65 <= b <= 90 {
        (b + 32) as u8
    } else {
        b
    }
}

/// `bytes` spell the lower-case `word`, in any mix of cases.
pub open spec fn spells(bytes: Seq<u8>, word: Seq<u8>) -> bool {
    bytes.len() == word.len() && forall|i: int|
        0 <= i < bytes.len() ==> #[trigger] ascii_lower(bytes[i]) == word[i]
}

/// `inf`
pub open spec fn word_inf() -> Seq<u8> {
    seq![105u8, 110u8, 102u8]
}

/// `infinity`
pub open spec fn word_infinity() -> Seq<u8> {
    seq![105u8, 110u8, 102u8, 105u8, 110u8, 105u8, 116u8, 121u8]
}

/// `nan`
pub open spec fn word_nan() -> Seq<u8> {
    seq![110u8, 97u8, 110u8]
}

/// A decimal number as Rust writes a float, after its sign: digits, then
/// optionally `.` and digits, at least one digit in all, then optionally `e`
/// or `E`, an optional sign and one or more digits. Read as all its digits, the
/// count of those after the `.`, and the exponent.
pub open spec fn decimal_parts(body: Seq<u8>) -> Option<(Seq<u8>, nat, int)> {
    let k1 = digit_run(body) as int;
    let r1 = body.skip(k1);
    let dot = r1.len() > 0 && r1[0] == 46;
    let after = if dot {
        r1.skip(1)
    } else {
        r1
    };
    let k2 = if dot {
        digit_run(after) as int
    } else {
        0
    };
    let r2 = after.skip(k2);
    let digits = body.take(k1) + after.take(k2);
    if k1 + k2 == 0 {
        None
    } else if r2.len() == 0 {
        Some((digits, k2 as nat, 0))
    } else if r2[0] == 101 || r2[0] == 69 {
        match decimal_reading(r2.skip(1)) {
            Some(e) => Some((digits, k2 as nat, e)),
            None => None,
        }
    } else {
        None
    }
}

/// `d` times `10^p`, rounded toward zero (for `d >= 0`).
pub open spec fn scaled(d: int, p: int) -> int {
    if p >= 0 {
        d * pow10(p as nat)
    } else {
        d / pow10((-p) as nat)
    }
}

/// `v` held to the range of an `i16`, the way `as i16` holds an out-of-range
/// number: to the nearer end.
pub open spec fn saturate_i16(v: int) -> i16 {
    if v < -32768 {
        -32768i16
    } else if v > 32767 {
        32767i16
    } else {
        v as i16
    }
}

/// A price text in basis points: the number it writes (in Rust's float
/// syntax) times 10 000, rounded toward zero and held to the range of an
/// `i16`; infinities go to the ends of that range and `nan` to 0. `None` when
/// the text writes no number.
pub open spec fn price_bps_reading(bytes: Seq<u8>) -> Option<i16> {
    let signed = bytes.len() > 0 && (bytes[0] == 43 || bytes[0] == 45);
    let negative = signed && bytes[0] == 45;
    let body = if signed {
        bytes.skip(1)
    } else {
        bytes
    };
    if spells(body, word_inf()) || spells(body, word_infinity()) {
        Some(
            if negative {
                -32768i16
            } else {
                32767i16
            },
        )
    } else if spells(body, word_nan()) {
        Some(0i16)
    } else {
        match decimal_parts(body) {
            Some((digits, frac_len, exp)) => {
                let m = scaled(dec_value(digits), exp + 4 - frac_len);
                Some(
                    saturate_i16(
                        if negative {
                            -m
                        } else {
                            m
                        },
                    ),
                )
            },
            None => None,
        }
    }
}

/// A run of `j` digits that ends the text or stops at a non-digit is the
/// text's leading digit run.
proof fn lemma_digit_run_ends(bytes: Seq<u8>, j: int)
    requires
        0 <= j <= bytes.len(),
        all_dec_digits(bytes.take(j)),
        j == bytes.len() || !is_dec_digit(bytes[j]),
    ensures
        digit_run(bytes) == j,
    decreases j,
{
    if j > 0 {
        assert(is_dec_digit(bytes.take(j)[0]));
        let tail = bytes.skip(1);
        assert(all_dec_digits(tail.take(j - 1))) by {
            assert forall|i: int| 0 <= i < j - 1 implies #[trigger] is_dec_digit(tail.take(j - 1)[i]) by {
                assert(tail.take(j - 1)[i] == bytes.take(j)[i + 1]);
            }
        }
        if j < bytes.len() {
            assert(tail[j - 1] == bytes[j]);
        }
        lemma_digit_run_ends(tail, j - 1);
    }
}

proof fn lemma_pow10_positive(n: nat)
    ensures
        pow10(n) >= 1,
    decreases n,
{
    if n > 0 {
        lemma_pow10_positive((n - 1) as nat);
    }
}

proof fn lemma_pow10_monotone(a: nat, b: nat)
    requires
        a <= b,
    ensures
        pow10(a) <= pow10(b),
    decreases b,
{
    if a < b {
        lemma_pow10_monotone(a, (b - 1) as nat);
        lemma_pow10_positive((b - 1) as nat);
    }
}

/// `n` digits are worth less than `10^n`.
proof fn lemma_dec_value_bound(digits: Seq<u8>)
    requires
        all_dec_digits(digits),
    ensures
        0 <= dec_value(digits) < pow10(digits.len()),
    decreases digits.len(),
{
    if digits.len() > 0 {
        assert(is_dec_digit(digits[digits.len() - 1]));
        assert(all_dec_digits(digits.drop_last())) by {
            assert forall|i: int| 0 <= i < digits.len() - 1 implies #[trigger] is_dec_digit(
                digits.drop_last()[i],
            ) by {
                assert(is_dec_digit(digits[i]));
            }
        }
        lemma_dec_value_bound(digits.drop_last());
    }
}

/// Dividing by `10^q` drops the last `q` digits.
proof fn lemma_dec_value_div(digits: Seq<u8>, q: nat)
    requires
        all_dec_digits(digits),
        q <= digits.len(),
    ensures
        dec_value(digits) / pow10(q) == dec_value(digits.take(digits.len() - q)),
    decreases q,
{
    if q == 0 {
        assert(digits.take(digits.len() as int) =~= digits);
    } else {
        let init = digits.drop_last();
        assert(is_dec_digit(digits[digits.len() - 1]));
        assert(all_dec_digits(init)) by {
            assert forall|i: int| 0 <= i < digits.len() - 1 implies #[trigger] is_dec_digit(init[i]) by {
                assert(is_dec_digit(digits[i]));
            }
        }
        lemma_dec_value_nonneg(init);
        lemma_pow10_positive((q - 1) as nat);
        let a = dec_value(init);
        let d = digits.last() - 48;
        assert((a * 10 + d) / 10 == a) by (nonlinear_arith)
            requires
                0 <= d < 10,
        ;
        lemma_div_denominator(a * 10 + d, 10, pow10((q - 1) as nat));
        lemma_dec_value_div(init, (q - 1) as nat);
        assert(init.take(init.len() - (q - 1)) =~= digits.take(digits.len() - q));
    }
}

/// `min(min(x, c) * 10 + d, c) == min(x * 10 + d, c)`: appending a digit to a
/// value held at `c` holds the longer value at `c`.
proof fn lemma_capped_step(x: int, d: int, c: int)
    requires
        x >= 0,
        0 <= d <= 9,
        c > 0,
    ensures
        ({
            let held = if x >= c {
                c
            } else {
                x
            };
            let step = held * 10 + d;
            let longer = x * 10 + d;
            (if step >= c {
                c
            } else {
                step
            }) == (if longer >= c {
                c
            } else {
                longer
            })
        }),
{
}

/// Whether `bytes[from..]` spells the lower-case `word`, in any mix of cases.
fn spells_at(bytes: &[u8], from: usize, word: &[u8]) -> (yes: bool)
    requires
        from <= bytes@.len(),
    ensures
        yes == spells(bytes@.skip(from as int), word@),
{
    let ghost rest = bytes@.skip(from as int);
    if bytes.len() - from != word.len() {
        return false;
    }
    let n = bytes.len();
    let mut i: usize = 0;
    while i < word.len()
        invariant
            n == bytes@.len(),
            rest == bytes@.skip(from as int),
            from <= bytes@.len(),
            bytes@.len() - from == word@.len(),
            rest.len() == word@.len(),
            0 <= i <= word@.len(),
            forall|j: int| 0 <= j < i ==> #[trigger] ascii_lower(rest[j]) == word@[j],
        decreases word@.len() - i,
    {
        let b = bytes[from + i];
        assert(rest[i as int] == b);
        let lower = if 65 <= b && b <= 90 {
            b + 32
        } else {
            b
        };
        if lower != word[i] {
            assert(ascii_lower(rest[i as int]) != word@[i as int]);
            return false;
        }
        i = i + 1;
    }
    true
}

/// Where the run of digits starting at `from` ends.
fn digit_run_end(bytes: &[u8], from: usize) -> (end: usize)
    requires
        from <= bytes@.len(),
    ensures
        from <= end <= bytes@.len(),
        digit_run(bytes@.skip(from as int)) == end - from,
        all_dec_digits(bytes@.skip(from as int).take(end - from)),
{
    let ghost rest = bytes@.skip(from as int);
    let n = bytes.len();
    let mut i: usize = from;
    while i < n && 48 <= bytes[i] && bytes[i] <= 57
        invariant
            from <= i <= n,
            n == bytes@.len(),
            rest == bytes@.skip(from as int),
            all_dec_digits(rest.take(i - from)),
        decreases n - i,
    {
        assert(rest[i - from] == bytes[i as int]);
        assert(all_dec_digits(rest.take(i + 1 - from))) by {
            assert forall|j: int| 0 <= j < i + 1 - from implies #[trigger] is_dec_digit(
                rest.take(i + 1 - from)[j],
            ) by {
                if j < i - from {
                    assert(rest.take(i + 1 - from)[j] == rest.take(i - from)[j]);
                }
            }
        }
        i = i + 1;
    }
    if i < n {
        assert(rest[i - from] == bytes[i as int]);
    }
    proof {
        lemma_digit_run_ends(rest, i - from);
    }
    i
}

/// Reads the exponent digits `bytes[from..]` (an optional sign, then one or
/// more digits), its magnitude held at `cap`.
fn read_exponent(bytes: &[u8], from: usize, cap: u128) -> (e: Option<i128>)
    requires
        from <= bytes@.len(),
        0 < cap < 0x1_0000_0000_0000_0000_0000,
    ensures
        match decimal_reading(bytes@.skip(from as int)) {
            Some(v) => e == Some(
                (if v > cap {
                    cap as int
                } else if v < -cap {
                    -cap
                } else {
                    v
                }) as i128,
            ),
            None => e is None,
        },
{
    let ghost rest = bytes@.skip(from as int);
    let n = bytes.len();
    if from == n {
        return None;
    }
    let mut start = from;
    let mut negative = false;
    assert(rest[0] == bytes[from as int]);
    if bytes[from] == 43 || bytes[from] == 45 {
        negative = bytes[from] == 45;
        start = from + 1;
        if start == n {
            return None;
        }
    }
    let ghost digits = bytes@.skip(start as int);
    assert(digits =~= (if start == from {
        rest
    } else {
        rest.skip(1)
    }));
    let ghost expected = decimal_reading(rest);
    assert(digits.len() > 0);
    assert(!all_dec_digits(digits) ==> expected is None);
    assert(all_dec_digits(digits) ==> expected == Some(
        if negative {
            -dec_value(digits)
        } else {
            dec_value(digits)
        },
    ));
    let mut acc: u128 = 0;
    let mut i: usize = start;
    while i < n
        invariant
            start <= i <= n,
            start < n,
            n == bytes@.len(),
            digits == bytes@.skip(start as int),
            expected == decimal_reading(bytes@.skip(from as int)),
            !all_dec_digits(digits) ==> expected is None,
            all_dec_digits(digits) ==> expected == Some(
                if negative {
                    -dec_value(digits)
                } else {
                    dec_value(digits)
                },
            ),
            0 < cap < 0x1_0000_0000_0000_0000_0000,
            all_dec_digits(digits.take(i - start)),
            dec_value(digits.take(i - start)) >= 0,
            acc == (if dec_value(digits.take(i - start)) >= cap {
                cap as int
            } else {
                dec_value(digits.take(i - start))
            }),
        decreases n - i,
    {
        let ghost k = i - start;
        let b = bytes[i];
        assert(digits[k] == b);
        if b < 48 || b > 57 {
            assert(!is_dec_digit(digits[k]));
            assert(!all_dec_digits(digits));
            return None;
        }
        assert(digits.take(k + 1).drop_last() =~= digits.take(k));
        assert(digits.take(k + 1).last() == b);
        assert(all_dec_digits(digits.take(k + 1))) by {
            assert forall|j: int| 0 <= j < k + 1 implies #[trigger] is_dec_digit(digits.take(k + 1)[j]) by {
                if j < k {
                    assert(digits.take(k + 1)[j] == digits.take(k)[j]);
                }
            }
        }
        proof {
            lemma_capped_step(dec_value(digits.take(k)), (b - 48) as int, cap as int);
        }
        let step = acc * 10 + (b - 48) as u128;
        acc = if step >= cap {
            cap
        } else {
            step
        };
        i = i + 1;
    }
    assert(digits.take(n - start) =~= digits);
    proof {
        lemma_dec_value_nonneg(digits);
    }
    let m = acc as i128;
    if negative {
        Some(-m)
    } else {
        Some(m)
    }
}

/// The digits of a number read by [`parse_price_bps`]: its integer digits
/// `bytes[start..start + k1]`, then its fraction digits `bytes[fs..fs + k2]`.
pub open spec fn number_digits(bytes: Seq<u8>, start: int, k1: int, fs: int, k2: int) -> Seq<u8> {
    bytes.subrange(start, start + k1) + bytes.subrange(fs, fs + k2)
}

/// The value of the first `count` digits of the number, held at 32768.
fn leading_digits_value(bytes: &[u8], start: usize, k1: usize, fs: usize, k2: usize, count: usize) -> (v: u32)
    requires
        start + k1 <= fs,
        fs + k2 <= bytes@.len(),
        count <= k1 + k2,
        all_dec_digits(number_digits(bytes@, start as int, k1 as int, fs as int, k2 as int)),
    ensures
        v == (if dec_value(
            number_digits(bytes@, start as int, k1 as int, fs as int, k2 as int).take(count as int),
        ) >= 32768 {
            32768
        } else {
            dec_value(
                number_digits(bytes@, start as int, k1 as int, fs as int, k2 as int).take(count as int),
            )
        }),
{
    let ghost digits = number_digits(bytes@, start as int, k1 as int, fs as int, k2 as int);
    let n = bytes.len();
    let mut acc: u32 = 0;
    let mut i: usize = 0;
    while i < count
        invariant
            n == bytes@.len(),
            start + k1 <= fs,
            fs + k2 <= bytes@.len(),
            count <= k1 + k2,
            digits == number_digits(bytes@, start as int, k1 as int, fs as int, k2 as int),
            all_dec_digits(digits),
            0 <= i <= count,
            dec_value(digits.take(i as int)) >= 0,
            acc == (if dec_value(digits.take(i as int)) >= 32768 {
                32768
            } else {
                dec_value(digits.take(i as int))
            }),
        decreases count - i,
    {
        let b = if i < k1 {
            bytes[start + i]
        } else {
            bytes[fs + (i - k1)]
        };
        assert(digits[i as int] == b);
        assert(is_dec_digit(digits[i as int]));
        assert(digits.take(i + 1).drop_last() =~= digits.take(i as int));
        assert(digits.take(i + 1).last() == b);
        proof {
            lemma_capped_step(dec_value(digits.take(i as int)), (b - 48) as int, 32768);
        }
        let step = acc * 10 + (b - 48) as u32;
        acc = if step >= 32768 {
            32768
        } else {
            step
        };
        i = i + 1;
    }
    acc
}

/// Scaling a string of digits down by `10^q` leaves the value of all but its
/// last `q` digits, or nothing when it has no more than `q` digits.
proof fn lemma_scaled_shift(digits: Seq<u8>, q: nat)
    requires
        all_dec_digits(digits),
    ensures
        q <= digits.len() ==> scaled(dec_value(digits), -(q as int)) == dec_value(
            digits.take(digits.len() - q),
        ),
        q > digits.len() ==> scaled(dec_value(digits), -(q as int)) == 0,
{
    let d = dec_value(digits);
    if q == 0 {
        assert(digits.take(digits.len() as int) =~= digits);
        assert(pow10(0) == 1);
        assert(scaled(d, 0) == d * 1);
    } else {
        assert(scaled(d, -(q as int)) == d / pow10(q));
        if q <= digits.len() {
            lemma_dec_value_div(digits, q);
        } else {
            lemma_dec_value_bound(digits);
            lemma_pow10_monotone(digits.len(), q);
            let m = pow10(q);
            assert(d / m == 0) by (nonlinear_arith)
                requires
                    0 <= d < m,
            ;
        }
    }
}

/// `scaled(d, p)` held at 32768, for the value `d` of the number's digits.
fn scaled_magnitude(bytes: &[u8], start: usize, k1: usize, fs: usize, k2: usize, p: i128) -> (m: u32)
    requires
        start + k1 <= fs,
        fs + k2 <= bytes@.len(),
        all_dec_digits(number_digits(bytes@, start as int, k1 as int, fs as int, k2 as int)),
        -0x1_0000_0000_0000_0000_0000 < p < 0x1_0000_0000_0000_0000_0000,
    ensures
        ({
            let v = scaled(
                dec_value(number_digits(bytes@, start as int, k1 as int, fs as int, k2 as int)),
                p as int,
            );
            m == (if v >= 32768 {
                32768
            } else {
                v
            })
        }),
{
    let ghost digits = number_digits(bytes@, start as int, k1 as int, fs as int, k2 as int);
    let n = bytes.len();
    let len = k1 + k2;
    proof {
        lemma_dec_value_nonneg(digits);
    }
    if p >= 0 {
        let mut acc = leading_digits_value(bytes, start, k1, fs, k2, len);
        assert(digits.take(len as int) =~= digits);
        let mut t: i128 = 0;
        while t < p
            invariant
                0 <= t <= p,
                dec_value(digits) >= 0,
                acc == (if dec_value(digits) * pow10(t as nat) >= 32768 {
                    32768
                } else {
                    dec_value(digits) * pow10(t as nat)
                }),
            decreases p - t,
        {
            proof {
                lemma_pow10_positive(t as nat);
                let y = dec_value(digits) * pow10(t as nat);
                assert(dec_value(digits) * pow10((t + 1) as nat) == y * 10) by (nonlinear_arith)
                    requires
                        pow10((t + 1) as nat) == 10 * pow10(t as nat),
                        y == dec_value(digits) * pow10(t as nat),
                ;
                assert(y >= 0) by (nonlinear_arith)
                    requires
                        dec_value(digits) >= 0,
                        pow10(t as nat) >= 1,
                        y == dec_value(digits) * pow10(t as nat),
                ;
                lemma_capped_step(y, 0, 32768);
            }
            acc = if acc * 10 >= 32768 {
                32768
            } else {
                acc * 10
            };
            t = t + 1;
        }
        acc
    } else {
        let q = (-p) as u128;
        proof {
            lemma_scaled_shift(digits, q as nat);
        }
        if q >= len as u128 {
            proof {
                if q == len {
                    assert(digits.take(0) =~= Seq::<u8>::empty());
                }
            }
            0
        } else {
            leading_digits_value(bytes, start, k1, fs, k2, len - q as usize)
        }
    }
}

/// The number an unsigned decimal text writes, in basis points, rounded
/// toward zero and held at 32768 (see [`decimal_parts`]).
spec fn held_magnitude(body: Seq<u8>) -> Option<int> {
    match decimal_parts(body) {
        Some((digits, frac_len, exp)) => {
            let v = scaled(dec_value(digits), exp + 4 - frac_len);
            Some(
                if v >= 32768 {
                    32768
                } else {
                    v
                },
            )
        },
        None => None,
    }
}

/// Reads the unsigned decimal number at `bytes[start..]` (see
/// [`held_magnitude`]).
#[verifier::rlimit(100)]
fn read_unsigned_number(bytes: &[u8], start: usize) -> (m: Option<u32>)
    requires
        start <= bytes@.len(),
    ensures
        match held_magnitude(bytes@.skip(start as int)) {
            Some(v) => 0 <= v <= 32768 && m == Some(v as u32),
            None => m is None,
        },
{
    let ghost all = bytes@;
    let ghost body = all.skip(start as int);
    let n = bytes.len();
    let int_end = digit_run_end(bytes, start);
    let k1 = int_end - start;
    let ghost r1 = body.skip(k1 as int);
    assert(r1 =~= all.skip(int_end as int));
    let mut fs = int_end;
    let mut frac_end = int_end;
    if int_end < n && bytes[int_end] == 46 {
        assert(r1[0] == bytes[int_end as int]);
        fs = int_end + 1;
        assert(r1.skip(1) =~= all.skip(fs as int));
        frac_end = digit_run_end(bytes, fs);
    } else {
        if int_end < n {
            assert(r1[0] == bytes[int_end as int]);
        }
    }
    let k2 = frac_end - fs;
    let ghost after = all.skip(fs as int);
    let ghost r2 = all.skip(frac_end as int);
    assert(after.skip(k2 as int) =~= r2);
    let ghost digits = number_digits(all, start as int, k1 as int, fs as int, k2 as int);
    assert(digits =~= body.take(k1 as int) + after.take(k2 as int));
    assert(all_dec_digits(digits)) by {
        assert forall|i: int| 0 <= i < digits.len() implies #[trigger] is_dec_digit(digits[i]) by {
            if i < k1 {
                assert(digits[i] == body.take(k1 as int)[i]);
            } else {
                assert(digits[i] == after.take(k2 as int)[i - k1]);
            }
        }
    }
    if k1 + k2 == 0 {
        return None;
    }
    let len = k1 + k2;
    let cap: u128 = len as u128 + 10;
    let exp: i128 = if frac_end == n {
        0
    } else {
        assert(r2[0] == bytes[frac_end as int]);
        if bytes[frac_end] == 101 || bytes[frac_end] == 69 {
            assert(r2.skip(1) =~= all.skip(frac_end + 1));
            match read_exponent(bytes, frac_end + 1, cap) {
                Some(e) => e,
                None => {
                    return None;
                },
            }
        } else {
            return None;
        }
    };
    let ghost true_exp: int = match decimal_parts(body) {
        Some((_, _, e)) => e,
        None => 0,
    };
    assert(decimal_parts(body) == Some((digits, k2 as nat, true_exp)));
    let p: i128 = exp + 4 - k2 as i128;
    let magnitude = scaled_magnitude(bytes, start, k1, fs, k2, p);
    proof {
        lemma_exponent_held(digits, k2 as int, true_exp, exp as int, cap as int);
        lemma_dec_value_nonneg(digits);
        lemma_scaled_nonneg(dec_value(digits), p as int);
    }
    Some(magnitude)
}

/// Reads a price text in basis points: the number it writes in Rust's float
/// syntax, times 10 000, rounded toward zero and held to the range of an
/// `i16` (see [`price_bps_reading`]).
#[verifier::rlimit(60)]
pub fn parse_price_bps(text: &str) -> (bps: Option<i16>)
    ensures
        bps == price_bps_reading(text.spec_bytes()),
{
    let bytes = text.as_bytes();
    let ghost all = bytes@;
    let n = bytes.len();
    let mut start: usize = 0;
    let mut negative = false;
    if n > 0 && (bytes[0] == 43 || bytes[0] == 45) {
        negative = bytes[0] == 45;
        start = 1;
    }
    let ghost body = all.skip(start as int);
    proof {
        if start == 0 {
            assert(body =~= all);
        }
    }
    let inf: [u8; 3] = [105, 110, 102];
    let infinity: [u8; 8] = [105, 110, 102, 105, 110, 105, 116, 121];
    let nan: [u8; 3] = [110, 97, 110];
    assert(inf@ =~= word_inf());
    assert(infinity@ =~= word_infinity());
    assert(nan@ =~= word_nan());
    if spells_at(bytes, start, &inf) || spells_at(bytes, start, &infinity) {
        return Some(
            if negative {
                -32768
            } else {
                32767
            },
        );
    }
    if spells_at(bytes, start, &nan) {
        return Some(0);
    }
    let magnitude = match read_unsigned_number(bytes, start) {
        Some(m) => m,
        None => {
            return None;
        },
    };
    let value: i32 = if negative {
        -(magnitude as i32)
    } else {
        magnitude as i32
    };
    let bps: i16 = if value < -32768 {
        -32768
    } else if value > 32767 {
        32767
    } else {
        value as i16
    };
    proof {
        if !spells(body, word_inf()) && !spells(body, word_infinity()) && !spells(body, word_nan()) {
            assert(held_magnitude(body) == Some(magnitude as int));
        }
    }
    Some(bps)
}

proof fn lemma_scaled_nonneg(d: int, p: int)
    requires
        d >= 0,
    ensures
        scaled(d, p) >= 0,
{
    if p >= 0 {
        lemma_pow10_positive(p as nat);
        let m = pow10(p as nat);
        assert(d * m >= 0) by (nonlinear_arith)
            requires
                d >= 0,
                m >= 1,
        ;
    } else {
        lemma_pow10_positive((-p) as nat);
        let m = pow10((-p) as nat);
        assert(d / m >= 0) by (nonlinear_arith)
            requires
                d >= 0,
                m >= 1,
        ;
    }
}

/// Holding the exponent's magnitude at `len + 10` for a number of `len`
/// digits changes nothing once the result is held at 32768.
proof fn lemma_exponent_held(digits: Seq<u8>, k2: int, e: int, held: int, cap: int)
    requires
        all_dec_digits(digits),
        0 <= k2 <= digits.len(),
        cap == digits.len() + 10,
        held == (if e > cap {
            cap
        } else if e < -cap {
            -cap
        } else {
            e
        }),
    ensures
        ({
            let a = scaled(dec_value(digits), held + 4 - k2);
            let b = scaled(dec_value(digits), e + 4 - k2);
            (if a >= 32768 {
                32768
            } else {
                a
            }) == (if b >= 32768 {
                32768
            } else {
                b
            })
        }),
{
    let d = dec_value(digits);
    lemma_dec_value_nonneg(digits);
    if e > cap {
        let p1 = held + 4 - k2;
        let p2 = e + 4 - k2;
        assert(p1 >= 5 && p2 >= 5);
        assert(scaled(d, p1) == d * pow10(p1 as nat));
        assert(scaled(d, p2) == d * pow10(p2 as nat));
        if d > 0 {
            lemma_pow10_monotone(5, p1 as nat);
            lemma_pow10_monotone(5, p2 as nat);
            reveal_with_fuel(pow10, 6);
            assert(d * pow10(p1 as nat) >= 32768) by (nonlinear_arith)
                requires
                    d >= 1,
                    pow10(p1 as nat) >= pow10(5),
                    pow10(5) == 100000,
            ;
            assert(d * pow10(p2 as nat) >= 32768) by (nonlinear_arith)
                requires
                    d >= 1,
                    pow10(p2 as nat) >= pow10(5),
                    pow10(5) == 100000,
            ;
        } else {
            assert(d == 0);
            assert(0 * pow10(p1 as nat) == 0);
            assert(0 * pow10(p2 as nat) == 0);
        }
    } else if e < -cap {
        let q1 = (-(held + 4 - k2)) as nat;
        let q2 = (-(e + 4 - k2)) as nat;
        assert(q1 > digits.len() && q2 > digits.len());
        lemma_scaled_shift(digits, q1);
        lemma_scaled_shift(digits, q2);
        assert(-(q1 as int) == held + 4 - k2);
        assert(-(q2 as int) == e + 4 - k2);
    }
}

/// The value of digits `a` followed by digits `b`.
proof fn lemma_dec_value_concat(a: Seq<u8>, b: Seq<u8>)
    ensures
        dec_value(a + b) == dec_value(a) * pow10(b.len()) + dec_value(b),
    decreases b.len(),
{
    if b.len() == 0 {
        assert(a + b =~= a);
    } else {
        let b0 = b.drop_last();
        assert((a + b).drop_last() =~= a + b0);
        assert((a + b).last() == b.last());
        lemma_dec_value_concat(a, b0);
        let x = dec_value(a);
        let p = pow10(b0.len());
        let y = dec_value(b0);
        let d = b.last() - 48;
        assert((x * p + y) * 10 + d == x * (10 * p) + (y * 10 + d)) by (nonlinear_arith);
    }
}

/// A price written as digits, `.` and at most four more digits, with an
/// optional `-`, is read exactly: the integer part times 10 000 plus the
/// fraction in ten-thousandths (so `0.57` is 5 700), negated for `-` and held
/// to the range of an `i16`.
pub proof fn law_plain_price_is_exact(negative: bool, whole: Seq<u8>, frac: Seq<u8>)
    requires
        whole.len() >= 1,
        all_dec_digits(whole),
        all_dec_digits(frac),
        frac.len() <= 4,
    ensures
        ({
            let text = (if negative {
                seq![45u8]
            } else {
                Seq::<u8>::empty()
            }) + whole + seq![46u8] + frac;
            let unit: int = if frac.len() == 0 {
                10000
            } else if frac.len() == 1 {
                1000
            } else if frac.len() == 2 {
                100
            } else if frac.len() == 3 {
                10
            } else {
                1
            };
            let m = dec_value(whole) * 10000 + dec_value(frac) * unit;
            let v = if negative {
                -m
            } else {
                m
            };
            price_bps_reading(text) == Some(
                if v < -32768 {
                    -32768i16
                } else if v > 32767 {
                    32767i16
                } else {
                    v as i16
                },
            )
        }),
{
    let sign = if negative {
        seq![45u8]
    } else {
        Seq::<u8>::empty()
    };
    let text = sign + whole + seq![46u8] + frac;
    let body = whole + seq![46u8] + frac;
    if negative {
        assert(text[0] == 45u8);
        assert(text.skip(1) =~= body);
    } else {
        assert(text =~= body);
        assert(is_dec_digit(whole[0]));
        assert(text[0] == whole[0]);
    }
    assert(body[0] == whole[0]);
    assert(is_dec_digit(whole[0]));
    assert(ascii_lower(body[0]) == body[0]);
    assert(word_inf()[0] == 105u8);
    assert(word_infinity()[0] == 105u8);
    assert(word_nan()[0] == 110u8);
    assert(!spells(body, word_inf()));
    assert(!spells(body, word_infinity()));
    assert(!spells(body, word_nan()));
    let k1 = whole.len() as int;
    assert(body.take(k1) =~= whole);
    assert(body[k1] == 46u8);
    lemma_digit_run_ends(body, k1);
    let r1 = body.skip(k1);
    assert(r1 =~= seq![46u8] + frac);
    let after = r1.skip(1);
    assert(after =~= frac);
    assert(frac.take(frac.len() as int) =~= frac);
    lemma_digit_run_ends(frac, frac.len() as int);
    assert(after.skip(frac.len() as int).len() == 0);
    assert(body.take(k1) + after.take(frac.len() as int) =~= whole + frac);
    assert(decimal_parts(body) == Some((whole + frac, frac.len(), 0int)));
    lemma_dec_value_concat(whole, frac);
    reveal_with_fuel(pow10, 5);
    let f = frac.len();
    let x = dec_value(whole);
    let y = dec_value(frac);
    let q = pow10((4 - f) as nat);
    let unit: int = if f == 0 {
        10000
    } else if f == 1 {
        1000
    } else if f == 2 {
        100
    } else if f == 3 {
        10
    } else {
        1
    };
    assert(pow10(f) * q == 10000 && q == unit);
    assert((x * pow10(f) + y) * q == x * 10000 + y * unit) by (nonlinear_arith)
        requires
            pow10(f) * q == 10000,
            q == unit,
    ;
    assert(scaled(dec_value(whole + frac), 0 + 4 - f) == (x * pow10(f) + y) * q);
}

/// The decimal digits of `n` are ASCII digits whose value is `n`.
proof fn lemma_nat_decimal_reads_back(n: nat)
    ensures
        is_ascii_chars(nat_decimal(n)),
        nat_decimal(n).len() >= 1,
        all_dec_digits(nat_decimal(n).map_values(|c: char| c as u8)),
        dec_value(nat_decimal(n).map_values(|c: char| c as u8)) == n,
    decreases n,
{
    let s = nat_decimal(n);
    let b = s.map_values(|c: char| c as u8);
    if n < 10 {
        assert(s == seq![digit_char(n as int)]);
        assert(b.drop_last() =~= Seq::<u8>::empty());
        assert(b.last() == (48 + n) as u8);
        assert(dec_value(b.drop_last()) == 0);
        assert(dec_value(b) == dec_value(b.drop_last()) * 10 + (b.last() - 48));
    } else {
        lemma_nat_decimal_reads_back(n / 10);
        let init = nat_decimal(n / 10);
        assert(s == init.push(digit_char((n % 10) as int)));
        assert(b.drop_last() =~= init.map_values(|c: char| c as u8));
        assert(b.last() == (48 + n % 10) as u8);
        assert forall|i: int| 0 <= i < b.len() implies #[trigger] is_dec_digit(b[i]) by {
            if i < b.len() - 1 {
                assert(b[i] == init.map_values(|c: char| c as u8)[i]);
            }
        }
        assert forall|i: int| 0 <= i < s.len() implies '\0' <= #[trigger] s[i] <= '\u{7f}' by {
            if i < s.len() - 1 {
                assert(s[i] == init[i]);
            }
        }
        assert(dec_value(b.drop_last()) == n / 10);
        assert(b.last() - 48 == n % 10);
        assert(dec_value(b) == dec_value(b.drop_last()) * 10 + (b.last() - 48));
        assert((n / 10) * 10 + n % 10 == n);
    }
}

/// Rendering an `i64` in decimal and reading the text back with
/// `parse::<i64>()` gives the same number.
pub proof fn law_decimal_reads_back(x: i64)
    ensures
        parsed_i64(encode_utf8(int_decimal(x as int))) == Some(x),
{
    let text = int_decimal(x as int);
    if x < 0 {
        let mag = nat_decimal((-x) as nat);
        lemma_nat_decimal_reads_back((-x) as nat);
        assert(is_ascii_chars(text)) by {
            assert forall|i: int| 0 <= i < text.len() implies '\0' <= #[trigger] text[i] <= '\u{7f}' by {
                if i > 0 {
                    assert(text[i] == mag[i - 1]);
                }
            }
        }
        is_ascii_chars_encode_utf8(text);
        let bytes = encode_utf8(text);
        assert(bytes.skip(1) =~= mag.map_values(|c: char| c as u8));
        assert(bytes[0] == 45);
    } else {
        let mag = nat_decimal(x as nat);
        lemma_nat_decimal_reads_back(x as nat);
        is_ascii_chars_encode_utf8(text);
        let bytes = encode_utf8(text);
        assert(bytes =~= mag.map_values(|c: char| c as u8));
        assert(is_dec_digit(bytes[0]));
    }
}

} // verus!
