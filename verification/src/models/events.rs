use crate::text::str_eq;
use vstd::prelude::*;
use vstd::string::StringSliceAdditionalSpecFns;

verus! {

/// One price level of an order book (or one change to it), as logged.
#[derive(Debug, Clone, Copy, PartialEq, Eq, Structural)]
pub struct BookLevel {
    /// Unix time of the event.
    pub timestamp: i64,
    /// Which outcome token: 0 or 1.
    pub asset_binary: u8,
    /// 0 = bid, 1 = ask (for price changes: 0 = buy, 1 = sell).
    pub side: u8,
    /// Price in basis points (USDC price * 10_000).
    pub price_bps: i16,
    /// Number of contracts, as the bit pattern of an `f32`.
    pub size_bits: u32,
}

/// A filled trade, as logged.
#[derive(Debug, Clone, Copy, PartialEq, Eq, Structural)]
pub struct Trade {
    pub timestamp: i64,
    pub asset_binary: u8,
    /// The first 32 hex digits of the transaction hash.
    pub transaction_hash: u128,
    pub price_bps: i16,
    /// Number of contracts, as the bit pattern of an `f64`.
    pub size_bits: u64,
    /// 0 = buy, 1 = sell.
    pub side: u8,
    pub fee_rate_bps: i16,
}

pub open spec fn is_hex_digit(b: u8) -> bool {
    (48 <= b <= 57) || (65 <= b <= 70) || (97 <= b <= 102)
}

pub open spec fn hex_digit_value(b: u8) -> int {
    if 48 <= b <= 57 {
        b - 48
    } else if 65 <= b <= 70 {
        b - 55
    } else {
        b - 87
    }
}

pub open spec fn all_hex_digits(bytes: Seq<u8>) -> bool {
    forall|i: int| 0 <= i < bytes.len() ==> #[trigger] is_hex_digit(bytes[i])
}

/// The value of a string of hex digits, most significant first.
pub open spec fn hex_value(digits: Seq<u8>) -> int
    decreases digits.len(),
{
    if digits.len() == 0 {
        0
    } else {
        hex_value(digits.drop_last()) * 16 + hex_digit_value(digits.last())
    }
}

/// What `u128::from_str_radix(text, 16)` reads from `bytes` before its range
/// check: an optional `+`, then one or more hex digits of either case.
pub open spec fn hex_reading(bytes: Seq<u8>) -> Option<int> {
    if bytes.len() == 0 {
        None
    } else if bytes[0] == 43 {
        let digits = bytes.skip(1);
        if digits.len() == 0 || !all_hex_digits(digits) {
            None
        } else {
            Some(hex_value(digits))
        }
    } else if all_hex_digits(bytes) {
        Some(hex_value(bytes))
    } else {
        None
    }
}

/// The bytes of a hash once a leading `0x` is stripped.
pub open spec fn hash_hex_part(bytes: Seq<u8>) -> Seq<u8> {
    if bytes.len() >= 2 && bytes[0] == 48 && bytes[1] == 120 {
        bytes.skip(2)
    } else {
        bytes
    }
}

/// Whether byte offset `index` of `bytes` starts a character (or is the end),
/// as `str::is_char_boundary` decides it.
pub open spec fn byte_char_boundary(bytes: Seq<u8>, index: int) -> bool {
    index == bytes.len() || (0 <= index < bytes.len() && !(0x80 <= bytes[index] < 0xC0))
}

/// The hash a transaction-hash text stands for: its first 32 hex digits read
/// as a number, or 0 when they do not read as one.
pub open spec fn hash_prefix_value(bytes: Seq<u8>) -> u128 {
    match hex_reading(hash_hex_part(bytes).take(32)) {
        Some(v) => v as u128,
        None => 0,
    }
}

proof fn lemma_hex_value_bound(digits: Seq<u8>)
    requires
        all_hex_digits(digits),
    ensures
        0 <= hex_value(digits) < pow16(digits.len()),
    decreases digits.len(),
{
    if digits.len() > 0 {
        let init = digits.drop_last();
        assert(is_hex_digit(digits[digits.len() - 1]));
        assert(all_hex_digits(init)) by {
            assert forall|i: int| 0 <= i < init.len() implies #[trigger] is_hex_digit(init[i]) by {
                assert(is_hex_digit(digits[i]));
            }
        }
        lemma_hex_value_bound(init);
        assert(pow16(digits.len()) == pow16(init.len()) * 16);
        assert(hex_value(init) * 16 + 15 < pow16(init.len()) * 16) by (nonlinear_arith)
            requires
                hex_value(init) < pow16(init.len()),
        ;
    }
}

pub open spec fn pow16(n: nat) -> int
    decreases n,
{
    if n == 0 {
        1
    } else {
        16 * pow16((n - 1) as nat)
    }
}

proof fn lemma_pow16_monotone(a: nat, b: nat)
    requires
        a <= b,
    ensures
        1 <= pow16(a) <= pow16(b),
    decreases b,
{
    if b > 0 && a < b {
        lemma_pow16_monotone(a, (b - 1) as nat);
    } else if b > 0 {
        lemma_pow16_monotone(0, (b - 1) as nat);
    }
}

proof fn lemma_pow16_32()
    ensures
        pow16(32) == 0x1_0000_0000_0000_0000_0000_0000_0000_0000,
{
    reveal_with_fuel(pow16, 33);
}

impl Trade {
    /// The first 32 hex digits of a transaction hash (after an optional `0x`)
    /// read as a `u128`, or 0 when they are not all hex digits.
    pub fn parse_hash_hex(hash_str: &str) -> (hash: u128)
        requires
            hash_hex_part(hash_str.spec_bytes()).len() >= 32,
            byte_char_boundary(hash_hex_part(hash_str.spec_bytes()), 32),
        ensures
            hash == hash_prefix_value(hash_str.spec_bytes()),
    {
        let bytes = hash_str.as_bytes();
        let ghost all = bytes@;
        let start: usize = if bytes.len() >= 2 && bytes[0] == 48 && bytes[1] == 120 {
            2
        } else {
            0
        };
        let ghost part = hash_hex_part(all);
        assert(part =~= all.skip(start as int));
        let ghost window = part.take(32);
        let mut first = start;
        if bytes[start] == 43 {
            first = start + 1;
        }
        let ghost digits = all.subrange(first as int, start + 32);
        assert(window[0] == 43 ==> digits =~= window.skip(1));
        assert(window[0] != 43 ==> digits =~= window);
        let end = start + 32;
        let mut acc: u128 = 0;
        let mut i = first;
        proof {
            lemma_pow16_32();
        }
        while i < end
            invariant
                first <= i <= end,
                end == start + 32,
                end <= bytes@.len(),
                start <= first <= start + 1,
                bytes@ == all,
                all == hash_str.spec_bytes(),
                window == hash_hex_part(all).take(32),
                window[0] == 43 ==> digits == window.skip(1),
                window[0] != 43 ==> digits == window,
                digits == all.subrange(first as int, end as int),
                all_hex_digits(digits.take(i - first)),
                acc == hex_value(digits.take(i - first)),
                pow16(32) == 0x1_0000_0000_0000_0000_0000_0000_0000_0000,
            decreases end - i,
        {
            let b = bytes[i];
            let ghost k = i - first;
            assert(digits.take(k + 1).drop_last() =~= digits.take(k));
            assert(digits[k] == b);
            let d: u128 = if b >= 48 && b <= 57 {
                (b - 48) as u128
            } else if b >= 65 && b <= 70 {
                (b - 55) as u128
            } else if b >= 97 && b <= 102 {
                (b - 87) as u128
            } else {
                assert(!is_hex_digit(digits[k]));
                return 0;
            };
            assert forall|j: int| 0 <= j < k + 1 implies #[trigger] is_hex_digit(
                digits.take(k + 1)[j],
            ) by {
                if j < k {
                    assert(digits.take(k + 1)[j] == digits.take(k)[j]);
                }
            }
            proof {
                lemma_hex_value_bound(digits.take(k + 1));
                lemma_pow16_monotone((k + 1) as nat, 32);
            }
            acc = acc * 16 + d;
            i = i + 1;
        }
        assert(digits.take(end - first) =~= digits);
        acc
    }
}

/// The side of an order or trade.
#[derive(Debug, Clone, Copy, PartialEq, Eq, Structural)]
pub enum Side {
    Buy,
    Sell,
}

impl Side {
    /// `"BUY"` and `"SELL"`; anything else is no side.
    pub fn from_str(s: &str) -> (side: Option<Self>)
        ensures
            side == (if s@ == "BUY"@ {
                Some(Side::Buy)
            } else if s@ == "SELL"@ {
                Some(Side::Sell)
            } else {
                None
            }),
    {
        if str_eq(s, "BUY") {
            Some(Side::Buy)
        } else if str_eq(s, "SELL") {
            Some(Side::Sell)
        } else {
            None
        }
    }

    /// The logged code: 0 = buy, 1 = sell.
    pub fn to_u8(self) -> (code: u8)
        ensures
            code == (match self {
                Side::Buy => 0u8,
                Side::Sell => 1u8,
            }),
    {
        match self {
            Side::Buy => 0,
            Side::Sell => 1,
        }
    }
}

/// The side of an order book.
#[derive(Debug, Clone, Copy, PartialEq, Eq, Structural)]
pub enum BookSide {
    Bid,
    Ask,
}

impl BookSide {
    /// The logged code: 0 = bid, 1 = ask.
    pub fn to_u8(self) -> (code: u8)
        ensures
            code == (match self {
                BookSide::Bid => 0u8,
                BookSide::Ask => 1u8,
            }),
    {
        match self {
            BookSide::Bid => 0,
            BookSide::Ask => 1,
        }
    }
}

} // verus!
