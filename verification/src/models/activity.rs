use crate::text::str_eq;
use vstd::prelude::*;

verus! {

/// One user activity entry as the data API reports it.
///
/// Its floating-point amounts are held as the bit patterns of their `f64` values.
pub struct UserActivity {
    pub timestamp: i64,
    pub proxy_wallet: String,
    pub condition_id: String,
    pub type_: String,
    pub size_bits: u64,
    pub usdc_size_bits: u64,
    pub transaction_hash: String,
    pub price_bits: u64,
    pub asset: String,
    pub side: String,
    pub outcome_index: u32,
    pub title: String,
    pub event_slug: String,
    pub outcome: String,
}

/// A user activity entry in the form it is stored: the activity type and side
/// as codes.
pub struct UserActivityRecord {
    pub timestamp: i64,
    pub proxy_wallet: String,
    pub condition_id: String,
    pub type_: u8,
    pub size_bits: u64,
    pub usdc_size_bits: u64,
    pub transaction_hash: String,
    pub price_bits: u64,
    pub asset: String,
    pub side: u8,
    pub outcome_index: u32,
    pub title: String,
    pub event_slug: String,
    pub outcome: String,
}

/// The kinds of user activity that are recorded.
#[derive(Debug, Clone, Copy, PartialEq, Eq, Structural)]
pub enum ActivityType {
    Trade,
}

impl ActivityType {
    /// `"TRADE"`; anything else is not a recorded kind.
    pub fn from_str(s: &str) -> (kind: Option<Self>)
        ensures
            kind == (if s@ == "TRADE"@ {
                Some(ActivityType::Trade)
            } else {
                None
            }),
    {
        if str_eq(s, "TRADE") {
            Some(ActivityType::Trade)
        } else {
            None
        }
    }

    /// The stored code: 0 = trade.
    pub fn to_u8(self) -> (code: u8)
        ensures
            code == 0,
    {
        match self {
            ActivityType::Trade => 0,
        }
    }
}

/// The stored code of a side text: `"BUY"` is 0, `"SELL"` is 1, anything else 255.
pub open spec fn side_code(side: Seq<char>) -> u8 {
    if side == "BUY"@ {
        0
    } else if side == "SELL"@ {
        1
    } else {
        255
    }
}

impl UserActivity {
    /// The stored form of this entry; `None` when its type is not a recorded kind.
    pub fn to_record(self) -> (record: Option<UserActivityRecord>)
        ensures
            match record {
                Some(r) => {
                    &&& self.type_@ == "TRADE"@
                    &&& r.type_ == 0
                    &&& r.side == side_code(self.side@)
                    &&& r.timestamp == self.timestamp
                    &&& r.proxy_wallet == self.proxy_wallet
                    &&& r.condition_id == self.condition_id
                    &&& r.size_bits == self.size_bits
                    &&& r.usdc_size_bits == self.usdc_size_bits
                    &&& r.transaction_hash == self.transaction_hash
                    &&& r.price_bits == self.price_bits
                    &&& r.asset == self.asset
                    &&& r.outcome_index == self.outcome_index
                    &&& r.title == self.title
                    &&& r.event_slug == self.event_slug
                    &&& r.outcome == self.outcome
                },
                None => self.type_@ != "TRADE"@,
            },
    {
        let side: u8 = if str_eq(self.side.as_str(), "BUY") {
            0
        } else if str_eq(self.side.as_str(), "SELL") {
            1
        } else {
            255
        };
        let kind = match ActivityType::from_str(self.type_.as_str()) {
            Some(k) => k,
            None => {
                return None;
            },
        };
        Some(
            UserActivityRecord {
                timestamp: self.timestamp,
                proxy_wallet: self.proxy_wallet,
                condition_id: self.condition_id,
                type_: kind.to_u8(),
                size_bits: self.size_bits,
                usdc_size_bits: self.usdc_size_bits,
                transaction_hash: self.transaction_hash,
                price_bits: self.price_bits,
                asset: self.asset,
                side,
                outcome_index: self.outcome_index,
                title: self.title,
                event_slug: self.event_slug,
                outcome: self.outcome,
            },
        )
    }
}

/// The side code stored with a user activity is the code a side text reads
/// as ([`crate::models::events::Side::from_str`] then `to_u8`), and 255 for
/// a text that names no side.
pub proof fn law_side_code_agrees(side: Seq<char>)
    ensures
        side_code(side) == (match crate::api::websocket::side_of(side) {
            Some(code) => code,
            None => 255u8,
        }),
{
}

} // verus!
