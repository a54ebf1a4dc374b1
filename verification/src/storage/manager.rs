use crate::numeric::{law_decimal_reads_back, parsed_i64};
use crate::text::{int_decimal, nat_decimal, push_decimal_i64};
use vstd::utf8::encode_utf8;
use chrono::{DateTime, Datelike, Timelike};
use std::time::{Duration, SystemTime, UNIX_EPOCH};
use chrono_tz::America::New_York;
use vstd::prelude::*;
use vstd::string::*;

verus! {

/// The system clock's time, `std::time::SystemTime`, carried as it is.
#[verifier::external_type_specification]
#[verifier::external_body]
pub struct ExSystemTime(SystemTime);

/// The earliest Unix second a `chrono::DateTime<Utc>` can hold (-262143-01-01T00:00:00).
pub const MIN_UTC_TIMESTAMP: i64 = -8_334_601_228_800;

/// The latest Unix second a `chrono::DateTime<Utc>` can hold (+262142-12-31T23:59:59).
pub const MAX_UTC_TIMESTAMP: i64 = 8_210_266_876_799;

pub open spec fn utc_representable(ts: int) -> bool {
    MIN_UTC_TIMESTAMP <= ts <= MAX_UTC_TIMESTAMP
}

/// The month (1..=12), day of month (1..=31) and hour (0..=23) that New York
/// wall clocks show at Unix second `ts`.
pub uninterp spec fn new_york_wall_clock(ts: int) -> (u32, u32, u32);

/// Converts Unix second `ts` to New York local time with `chrono-tz`'s
/// `America/New_York` zone and reads its month, day and hour; chrono documents
/// their ranges.
#[verifier::external_body]
fn new_york_month_day_hour(ts: i64) -> (mdh: (u32, u32, u32))
    requires
        utc_representable(ts as int),
    ensures
        mdh == new_york_wall_clock(ts as int),
        1 <= mdh.0 <= 12,
        1 <= mdh.1 <= 31,
        mdh.2 <= 23,
{
    let local = DateTime::from_timestamp(ts, 0).unwrap().with_timezone(&New_York);
    (local.month(), local.day(), local.hour())
}

/// The system clock's current reading, `std::time::SystemTime::now()`. What
/// it reads depends on the machine and the moment, so nothing is stated of it.
#[verifier::external_body]
fn system_clock_now() -> (now: SystemTime) {
    SystemTime::now()
}

/// How long after the Unix epoch `t` lies, by
/// `t.duration_since(UNIX_EPOCH)`; `None` where that gives its error (`t`
/// lies before the epoch). Which instant `t` is cannot be seen from verified
/// code, so the span is not stated.
#[verifier::external_body]
fn time_since_epoch(t: &SystemTime) -> (span: Option<Duration>) {
    match t.duration_since(UNIX_EPOCH) {
        Ok(d) => Some(d),
        Err(_) => None,
    }
}

/// The whole seconds of `span`, `Duration::as_secs`. A `Duration` is opaque
/// to verified code, so the number is not stated.
#[verifier::external_body]
fn whole_seconds(span: &Duration) -> (secs: u64) {
    span.as_secs()
}

/// The lengths of market that are followed.
#[derive(Debug, Clone, Copy, PartialEq, Eq, Structural)]
pub enum MarketInterval {
    FifteenMin,
    Hour,
    FourHour,
}

pub open spec fn interval_secs_of(interval: MarketInterval) -> i64 {
    match interval {
        MarketInterval::FifteenMin => 900,
        MarketInterval::Hour => 3600,
        MarketInterval::FourHour => 14400,
    }
}

impl MarketInterval {
    /// Every interval, shortest first.
    pub fn all() -> (all: Vec<MarketInterval>)
        ensures
            all@ == seq![MarketInterval::FifteenMin, MarketInterval::Hour, MarketInterval::FourHour],
    {
        let mut v = Vec::new();
        v.push(MarketInterval::FifteenMin);
        v.push(MarketInterval::Hour);
        v.push(MarketInterval::FourHour);
        v
    }

    /// How long a session for one market of this interval runs, in seconds:
    /// 16 minutes for 15-minute markets, otherwise the interval itself.
    pub fn duration_secs(&self) -> (secs: u64)
        ensures
            secs == duration_secs_of(*self),
    {
        match self {
            MarketInterval::FifteenMin => 16 * 60,
            MarketInterval::Hour => 60 * 60,
            MarketInterval::FourHour => 4 * 60 * 60,
        }
    }

    /// The interval in minutes.
    pub fn interval_mins(&self) -> (mins: i64)
        ensures
            mins * 60 == interval_secs_of(*self),
    {
        match self {
            MarketInterval::FifteenMin => 15,
            MarketInterval::Hour => 60,
            MarketInterval::FourHour => 240,
        }
    }

    /// The interval in seconds.
    pub fn interval_secs(&self) -> (secs: i64)
        ensures
            secs == interval_secs_of(*self),
    {
        match self {
            MarketInterval::FifteenMin => 15 * 60,
            MarketInterval::Hour => 60 * 60,
            MarketInterval::FourHour => 4 * 60 * 60,
        }
    }

    /// The directory that holds this interval's markets.
    pub fn dir_name(&self) -> (name: &'static str)
        ensures
            name@ == dir_name_of(*self),
    {
        match self {
            MarketInterval::FifteenMin => "15min",
            MarketInterval::Hour => "hour",
            MarketInterval::FourHour => "4hour",
        }
    }
}

/// The coins whose up-or-down markets are followed.
#[derive(Debug, Clone, Copy, PartialEq, Eq, Structural)]
pub enum Coin {
    Bitcoin,
    Ethereum,
    Solana,
    XRP,
}

pub open spec fn coin_long(coin: Coin) -> Seq<char> {
    match coin {
        Coin::Bitcoin => "bitcoin"@,
        Coin::Ethereum => "ethereum"@,
        Coin::Solana => "solana"@,
        Coin::XRP => "xrp"@,
    }
}

pub open spec fn coin_short(coin: Coin) -> Seq<char> {
    match coin {
        Coin::Bitcoin => "btc"@,
        Coin::Ethereum => "eth"@,
        Coin::Solana => "sol"@,
        Coin::XRP => "xrp"@,
    }
}

impl Coin {
    /// Every coin.
    pub fn all() -> (all: Vec<Coin>)
        ensures
            all@ == seq![Coin::Bitcoin, Coin::Ethereum, Coin::Solana, Coin::XRP],
    {
        let mut v = Vec::new();
        v.push(Coin::Bitcoin);
        v.push(Coin::Ethereum);
        v.push(Coin::Solana);
        v.push(Coin::XRP);
        v
    }

    /// The coin's name as hourly market slugs spell it.
    pub fn as_str_long(&self) -> (name: &'static str)
        ensures
            name@ == coin_long(*self),
    {
        match self {
            Coin::Bitcoin => "bitcoin",
            Coin::Ethereum => "ethereum",
            Coin::Solana => "solana",
            Coin::XRP => "xrp",
        }
    }

    /// The coin's ticker as 15-minute and 4-hour market slugs spell it.
    pub fn as_str_short(&self) -> (name: &'static str)
        ensures
            name@ == coin_short(*self),
    {
        match self {
            Coin::Bitcoin => "btc",
            Coin::Ethereum => "eth",
            Coin::Solana => "sol",
            Coin::XRP => "xrp",
        }
    }
}

/// The lower-case English name of month `m` (1..=12).
pub open spec fn month_name(m: u32) -> Seq<char> {
    if m == 1 {
        "january"@
    } else if m == 2 {
        "february"@
    } else if m == 3 {
        "march"@
    } else if m == 4 {
        "april"@
    } else if m == 5 {
        "may"@
    } else if m == 6 {
        "june"@
    } else if m == 7 {
        "july"@
    } else if m == 8 {
        "august"@
    } else if m == 9 {
        "september"@
    } else if m == 10 {
        "october"@
    } else if m == 11 {
        "november"@
    } else {
        "december"@
    }
}

/// A day of the month in two digits, zero-padded, as `%d` prints it.
pub open spec fn two_digit_day(d: u32) -> Seq<char> {
    if d < 10 {
        seq!['0'] + nat_decimal(d as nat)
    } else {
        nat_decimal(d as nat)
    }
}

/// The hour on a 12-hour clock (1..=12) for hour `h` (0..=23).
pub open spec fn twelve_hour(h: u32) -> nat {
    if h % 12 == 0 {
        12
    } else {
        (h % 12) as nat
    }
}

pub open spec fn am_pm(h: u32) -> Seq<char> {
    if h < 12 {
        "am"@
    } else {
        "pm"@
    }
}

/// The slug of the `coin` market of `interval` that starts at Unix second
/// `start`: `<ticker>-updown-15m-<start>`, `<name>-up-or-down-<month>-<dd>-<h><am|pm>-et`
/// in New York time, or `<ticker>-updown-4h-<start + 1 hour>`.
pub open spec fn market_slug(coin: Coin, interval: MarketInterval, start: int) -> Seq<char> {
    match interval {
        MarketInterval::FifteenMin => coin_short(coin) + "-updown-15m-"@ + int_decimal(start),
        MarketInterval::Hour => {
            let (m, d, h) = new_york_wall_clock(start);
            coin_long(coin) + "-up-or-down-"@ + month_name(m) + "-"@ + two_digit_day(d) + "-"@
                + nat_decimal(twelve_hour(h)) + am_pm(h) + "-et"@
        },
        MarketInterval::FourHour => coin_short(coin) + "-updown-4h-"@ + int_decimal(start + 3600),
    }
}

fn month_str(m: u32) -> (name: &'static str)
    requires
        1 <= m <= 12,
    ensures
        name@ == month_name(m),
{
    if m == 1 {
        "january"
    } else if m == 2 {
        "february"
    } else if m == 3 {
        "march"
    } else if m == 4 {
        "april"
    } else if m == 5 {
        "may"
    } else if m == 6 {
        "june"
    } else if m == 7 {
        "july"
    } else if m == 8 {
        "august"
    } else if m == 9 {
        "september"
    } else if m == 10 {
        "october"
    } else if m == 11 {
        "november"
    } else {
        "december"
    }
}

/// Rounds `ts` toward zero to a multiple of `step`, as `(ts / step) * step`
/// does with Rust's integer division.
pub open spec fn round_toward_zero(ts: int, step: int) -> int {
    if ts >= 0 {
        (ts / step) * step
    } else {
        -(((-ts) / step) * step)
    }
}

/// The multiple of `step` after `round_toward_zero(ts, step)`.
pub open spec fn next_boundary(ts: int, step: int) -> int {
    round_toward_zero(ts, step) + step
}

/// Where and for how long the session for one market runs.
pub struct SessionPlan {
    /// The market's slug, to look it up by.
    pub slug: String,
    /// The directory for its files, one path component per entry.
    pub dir_parts: Vec<String>,
    /// How long the session runs, in seconds.
    pub duration_secs: u64,
}

/// How a scheduler starts: the market under way now, the next boundary, and
/// how long until it.
pub struct SchedulerStart {
    pub current_start: i64,
    pub next_start: i64,
    pub secs_until_next: u64,
}

pub open spec fn duration_secs_of(interval: MarketInterval) -> u64 {
    match interval {
        MarketInterval::FifteenMin => 960u64,
        MarketInterval::Hour => 3600u64,
        MarketInterval::FourHour => 14400u64,
    }
}

pub open spec fn dir_name_of(interval: MarketInterval) -> Seq<char> {
    match interval {
        MarketInterval::FifteenMin => "15min"@,
        MarketInterval::Hour => "hour"@,
        MarketInterval::FourHour => "4hour"@,
    }
}

/// Decides how the logger names, places and schedules its market sessions.
pub struct SessionManager {
    base_dir: String,
}

impl SessionManager {
    pub closed spec fn spec_base_dir(&self) -> Seq<char> {
        self.base_dir@
    }

    /// A manager that keeps its markets' data under `base_dir`.
    pub fn new(base_dir: String) -> (m: Self)
        ensures
            m.spec_base_dir() == base_dir@,
    {
        SessionManager { base_dir }
    }

    /// The slug of the `coin` market of `interval` starting at Unix second `start_time`.
    pub fn generate_slug(coin: &Coin, interval: &MarketInterval, start_time: i64) -> (slug: String)
        requires
            utc_representable(start_time as int),
            *interval == MarketInterval::FourHour ==> start_time + 3600 <= MAX_UTC_TIMESTAMP,
        ensures
            slug@ == market_slug(*coin, *interval, start_time as int),
    {
        match interval {
            MarketInterval::FifteenMin => {
                let mut slug = String::from_str(coin.as_str_short());
                slug.append("-updown-15m-");
                push_decimal_i64(&mut slug, start_time);
                slug
            },
            MarketInterval::Hour => {
                let (month, day, hour) = new_york_month_day_hour(start_time);
                let mut slug = String::from_str(coin.as_str_long());
                slug.append("-up-or-down-");
                slug.append(month_str(month));
                slug.append("-");
                if day < 10 {
                    slug.append("0");
                }
                push_decimal_i64(&mut slug, day as i64);
                slug.append("-");
                let h12: u32 = if hour % 12 == 0 {
                    12
                } else {
                    hour % 12
                };
                push_decimal_i64(&mut slug, h12 as i64);
                if hour < 12 {
                    slug.append("am");
                } else {
                    slug.append("pm");
                }
                slug.append("-et");
                proof {
                    reveal_strlit("0");
                    assert(int_decimal(day as int) == nat_decimal(day as nat));
                    assert(int_decimal(h12 as int) == nat_decimal(twelve_hour(hour)));
                    assert(slug@ =~= market_slug(*coin, *interval, start_time as int));
                }
                slug
            },
            MarketInterval::FourHour => {
                let mut slug = String::from_str(coin.as_str_short());
                slug.append("-updown-4h-");
                push_decimal_i64(&mut slug, start_time + 3600);
                slug
            },
        }
    }

    /// The start of the interval that holds Unix second `ts`:
    /// `(ts / secs) * secs` with Rust's integer division.
    pub fn aligned_start(ts: i64, interval: &MarketInterval) -> (start: i64)
        ensures
            start == round_toward_zero(ts as int, interval_secs_of(*interval) as int),
    {
        let step = interval.interval_secs() as i128;
        let t = ts as i128;
        let q: i128 = if t >= 0 {
            t / step
        } else {
            -((-t) / step)
        };
        proof {
            let ti = t as int;
            let si = step as int;
            if ti >= 0 {
                assert(0 <= (ti / si) * si <= ti) by (nonlinear_arith)
                    requires
                        ti >= 0,
                        si > 0,
                ;
            } else {
                let mi = -ti;
                assert(0 <= (mi / si) * si <= mi) by (nonlinear_arith)
                    requires
                        mi > 0,
                        si > 0,
                ;
            }
        }
        (q * step) as i64
    }

    /// The next interval boundary after the one that holds Unix second `now`;
    /// `None` when a `DateTime<Utc>` cannot hold it.
    pub fn next_aligned_after(now: i64, interval: &MarketInterval) -> (next: Option<i64>)
        ensures
            match next {
                Some(t) => t == next_boundary(now as int, interval_secs_of(*interval) as int)
                    && utc_representable(t as int),
                None => !utc_representable(
                    next_boundary(now as int, interval_secs_of(*interval) as int),
                ),
            },
    {
        let start = Self::aligned_start(now, interval);
        let step = interval.interval_secs();
        if start > MAX_UTC_TIMESTAMP - step {
            return None;
        }
        let next = start + step;
        if next < MIN_UTC_TIMESTAMP {
            return None;
        }
        Some(next)
    }

    /// The next interval boundary after the current time (see
    /// [`Self::next_aligned_after`]), the time read from the system clock;
    /// `None` when the clock reads before the Unix epoch or beyond what a
    /// `DateTime<Utc>` can hold.
    pub fn next_aligned_time(interval: &MarketInterval) -> (next: Option<i64>)
        ensures
            next matches Some(t) ==> {
                &&& exists|now: int|
                    #![trigger next_boundary(now, interval_secs_of(*interval) as int)]
                    0 <= now <= MAX_UTC_TIMESTAMP && t == next_boundary(
                        now,
                        interval_secs_of(*interval) as int,
                    )
                &&& utc_representable(t as int)
                &&& t % interval_secs_of(*interval) == 0
            },
    {
        let clock = system_clock_now();
        let secs = match time_since_epoch(&clock) {
            Some(span) => whole_seconds(&span),
            None => {
                return None;
            },
        };
        Self::next_aligned_from_clock_secs(secs, interval)
    }

    /// The next interval boundary after the clock reading `secs` (seconds
    /// since the Unix epoch); `None` when `secs` or that boundary lies beyond
    /// what a `DateTime<Utc>` can hold.
    pub fn next_aligned_from_clock_secs(secs: u64, interval: &MarketInterval) -> (next: Option<
        i64,
    >)
        ensures
            ({
                let step = interval_secs_of(*interval) as int;
                match next {
                    Some(t) => secs <= MAX_UTC_TIMESTAMP && t == next_boundary(secs as int, step)
                        && utc_representable(t as int) && t % interval_secs_of(*interval) == 0,
                    None => secs > MAX_UTC_TIMESTAMP || !utc_representable(
                        next_boundary(secs as int, step),
                    ),
                }
            }),
    {
        if secs > MAX_UTC_TIMESTAMP as u64 {
            return None;
        }
        let now = secs as i64;
        let next = Self::next_aligned_after(now, interval);
        proof {
            let step = interval_secs_of(*interval) as int;
            let t = now as int;
            assert(((t / step) * step + step) % step == 0) by (nonlinear_arith)
                requires
                    step > 0,
            ;
        }
        next
    }

    /// When the scheduler for `interval` next wakes after Unix second `now`:
    /// at the next interval boundary, `(at, secs_until)` with `secs_until`
    /// the wait from `now`; `None` when a `DateTime<Utc>` cannot hold it.
    pub fn next_wake(now: i64, interval: &MarketInterval) -> (wake: Option<(i64, u64)>)
        ensures
            match wake {
                Some((at, secs_until)) => {
                    let step = interval_secs_of(*interval) as int;
                    &&& at == next_boundary(now as int, step)
                    &&& (at as int) % step == 0
                    &&& now < at
                    &&& secs_until == at - now
                    &&& now >= 0 ==> secs_until <= step
                    &&& utc_representable(at as int)
                },
                None => !utc_representable(
                    next_boundary(now as int, interval_secs_of(*interval) as int),
                ),
            },
    {
        let at = match Self::next_aligned_after(now, interval) {
            Some(t) => t,
            None => {
                return None;
            },
        };
        proof {
            let step = interval_secs_of(*interval) as int;
            let t = now as int;
            if t >= 0 {
                assert(((t / step) * step + step) % step == 0 && (t / step) * step <= t < (t / step)
                    * step + step) by (nonlinear_arith)
                    requires
                        t >= 0,
                        step > 0,
                ;
            } else {
                let m = -t;
                assert((-((m / step) * step) + step) % step == 0 && (m / step) * step <= m)
                    by (nonlinear_arith)
                    requires
                        m > 0,
                        step > 0,
                ;
            }
        }
        Some((at, (at - now) as u64))
    }

    /// The slug, directory and duration of the session for the `coin` market
    /// of `interval` starting at `start_time`: its files go under
    /// `<base_dir>/<ticker>/<interval dir>/<start_time>`.
    pub fn session_plan(&self, coin: &Coin, interval: &MarketInterval, start_time: i64) -> (plan:
        SessionPlan)
        requires
            utc_representable(start_time as int),
            *interval == MarketInterval::FourHour ==> start_time + 3600 <= MAX_UTC_TIMESTAMP,
        ensures
            plan.slug@ == market_slug(*coin, *interval, start_time as int),
            plan.dir_parts@.len() == 4,
            plan.dir_parts@[0]@ == self.spec_base_dir(),
            plan.dir_parts@[1]@ == coin_short(*coin),
            plan.dir_parts@[2]@ == dir_name_of(*interval),
            plan.dir_parts@[3]@ == int_decimal(start_time as int),
            plan.duration_secs == duration_secs_of(*interval),
    {
        let slug = Self::generate_slug(coin, interval, start_time);
        let mut dir_parts: Vec<String> = Vec::new();
        dir_parts.push(self.base_dir.clone());
        dir_parts.push(String::from_str(coin.as_str_short()));
        dir_parts.push(String::from_str(interval.dir_name()));
        let mut stamp = String::new();
        push_decimal_i64(&mut stamp, start_time);
        dir_parts.push(stamp);
        SessionPlan { slug, dir_parts, duration_secs: interval.duration_secs() }
    }

    /// Every (coin, interval) pair that gets a scheduler: each coin in turn,
    /// with each interval.
    pub fn scheduler_pairs() -> (pairs: Vec<(Coin, MarketInterval)>)
        ensures
            pairs@.len() == 12,
            forall|i: int|
                0 <= i < 12 ==> #[trigger] pairs@[i] == (
                    seq![Coin::Bitcoin, Coin::Ethereum, Coin::Solana, Coin::XRP][i / 3],
                    seq![MarketInterval::FifteenMin, MarketInterval::Hour, MarketInterval::FourHour][i
                        % 3],
                ),
    {
        let coins = Coin::all();
        let intervals = MarketInterval::all();
        let mut pairs: Vec<(Coin, MarketInterval)> = Vec::new();
        let mut c: usize = 0;
        while c < 4
            invariant
                coins@ == seq![Coin::Bitcoin, Coin::Ethereum, Coin::Solana, Coin::XRP],
                intervals@ == seq![MarketInterval::FifteenMin, MarketInterval::Hour, MarketInterval::FourHour],
                0 <= c <= 4,
                pairs@.len() == 3 * c,
                forall|i: int|
                    0 <= i < 3 * c ==> #[trigger] pairs@[i] == (coins@[i / 3], intervals@[i % 3]),
            decreases 4 - c,
        {
            let mut k: usize = 0;
            while k < 3
                invariant
                    coins@ == seq![Coin::Bitcoin, Coin::Ethereum, Coin::Solana, Coin::XRP],
                    intervals@ == seq![MarketInterval::FifteenMin, MarketInterval::Hour, MarketInterval::FourHour],
                    0 <= c < 4,
                    0 <= k <= 3,
                    pairs@.len() == 3 * c + k,
                    forall|i: int|
                        0 <= i < 3 * c + k ==> #[trigger] pairs@[i] == (coins@[i / 3], intervals@[i % 3]),
                decreases 3 - k,
            {
                pairs.push((coins[c], intervals[k]));
                assert((3 * c + k) / 3 == c && (3 * c + k) % 3 == k as int) by (nonlinear_arith)
                    requires
                        0 <= k < 3,
                        0 <= c,
                ;
                k = k + 1;
            }
            c = c + 1;
        }
        pairs
    }

    /// How the scheduler for `interval` starts at Unix second `now`: with the
    /// market that began at the last boundary, waiting until the next one;
    /// `None` when a `DateTime<Utc>` cannot hold the next boundary.
    pub fn scheduler_start(now: i64, interval: &MarketInterval) -> (start: Option<SchedulerStart>)
        requires
            utc_representable(now as int),
        ensures
            match start {
                Some(s) => {
                    let step = interval_secs_of(*interval) as int;
                    &&& s.current_start == round_toward_zero(now as int, step)
                    &&& s.next_start == next_boundary(now as int, step)
                    &&& s.secs_until_next == s.next_start - now
                    &&& utc_representable(s.current_start as int)
                    &&& utc_representable(s.next_start as int)
                },
                None => !utc_representable(
                    next_boundary(now as int, interval_secs_of(*interval) as int),
                ),
            },
    {
        let current_start = Self::aligned_start(now, interval);
        let next_start = match Self::next_aligned_after(now, interval) {
            Some(t) => t,
            None => {
                return None;
            },
        };
        proof {
            let step = interval_secs_of(*interval) as int;
            let t = now as int;
            if t >= 0 {
                assert(0 <= (t / step) * step <= t && t < (t / step) * step + step) by (nonlinear_arith)
                    requires
                        t >= 0,
                        step > 0,
                ;
            } else {
                let m = -t;
                assert(0 <= (m / step) * step <= m) by (nonlinear_arith)
                    requires
                        m > 0,
                        step > 0,
                ;
            }
        }
        Some(
            SchedulerStart {
                current_start,
                next_start,
                secs_until_next: (next_start - now) as u64,
            },
        )
    }
}

/// Interval boundaries: the start of the interval holding a non-negative
/// Unix second is a multiple of the interval at or before it, and the next
/// boundary is one interval later and after it.
pub proof fn law_alignment(ts: int, interval: MarketInterval)
    requires
        ts >= 0,
    ensures
        ({
            let step = interval_secs_of(interval) as int;
            let start = round_toward_zero(ts, step);
            &&& start % step == 0
            &&& start <= ts < next_boundary(ts, step)
            &&& next_boundary(ts, step) - start == step
            &&& ts - start < step
        }),
{
    let step = interval_secs_of(interval) as int;
    assert(((ts / step) * step) % step == 0 && (ts / step) * step <= ts < (ts / step) * step + step)
        by (nonlinear_arith)
        requires
            ts >= 0,
            step > 0,
    ;
}

/// The scheduler serves every market in turn: woken at a boundary, it next
/// wakes one interval later, so no market between is skipped.
pub proof fn law_wakes_step_by_one_interval(b: int, interval: MarketInterval)
    requires
        b >= 0,
        b % (interval_secs_of(interval) as int) == 0,
    ensures
        round_toward_zero(b, interval_secs_of(interval) as int) == b,
        next_boundary(b, interval_secs_of(interval) as int) == b + interval_secs_of(interval),
{
    let step = interval_secs_of(interval) as int;
    assert((b / step) * step == b) by (nonlinear_arith)
        requires
            b % step == 0,
            step > 0,
    ;
}

/// An hourly market's slug ends in `am-et` exactly when the market opens in
/// New York hours 0..=11 and in `pm-et` for hours 12..=23 (noon is 12pm), so
/// the noon and midnight markets of a day never share a slug; before that
/// stands the hour on a 12-hour clock, 1..=12 (midnight and noon are 12).
pub proof fn law_hourly_slug_am_pm(coin: Coin, start: int)
    ensures
        ({
            let slug = market_slug(coin, MarketInterval::Hour, start);
            let hour = new_york_wall_clock(start).2;
            &&& slug.len() >= 5
            &&& slug.subrange(slug.len() - 5, slug.len() as int) == (if hour < 12 {
                "am-et"@
            } else {
                "pm-et"@
            })
            &&& exists|n: nat|
                1 <= n <= 12 && n % 12 == hour % 12 && slug.len() >= 5 + nat_decimal(n).len()
                    && #[trigger] slug.subrange(
                    slug.len() - 5 - nat_decimal(n).len(),
                    slug.len() - 5,
                ) == nat_decimal(n)
        }),
{
    reveal_strlit("am");
    reveal_strlit("pm");
    reveal_strlit("-et");
    reveal_strlit("am-et");
    reveal_strlit("pm-et");
    let (m, d, h) = new_york_wall_clock(start);
    let head = coin_long(coin) + "-up-or-down-"@ + month_name(m) + "-"@ + two_digit_day(d) + "-"@
        + nat_decimal(twelve_hour(h));
    let slug = market_slug(coin, MarketInterval::Hour, start);
    assert(slug == head + am_pm(h) + "-et"@);
    assert(slug.subrange(slug.len() - 5, slug.len() as int) =~= am_pm(h) + "-et"@);
    let n = twelve_hour(h);
    let digits = nat_decimal(n);
    assert(slug.subrange(slug.len() - 5 - digits.len(), slug.len() - 5) =~= digits);
}

/// A 15-minute market's slug is its ticker, `-updown-15m-` and its start
/// second; a 4-hour market's is its ticker, `-updown-4h-` and the second one
/// hour after its start. The number reads back as that second.
pub proof fn law_timestamp_slugs_read_back(coin: Coin, start: i64)
    requires
        start + 3600 <= i64::MAX,
    ensures
        ({
            let slug = market_slug(coin, MarketInterval::FifteenMin, start as int);
            let head = coin_short(coin) + "-updown-15m-"@;
            &&& slug.len() > head.len()
            &&& slug.subrange(0, head.len() as int) == head
            &&& parsed_i64(encode_utf8(slug.skip(head.len() as int))) == Some(start)
        }),
        ({
            let slug = market_slug(coin, MarketInterval::FourHour, start as int);
            let head = coin_short(coin) + "-updown-4h-"@;
            &&& slug.len() > head.len()
            &&& slug.subrange(0, head.len() as int) == head
            &&& parsed_i64(encode_utf8(slug.skip(head.len() as int))) == Some((start + 3600) as i64)
        }),
{
    let later = (start + 3600) as i64;
    law_decimal_reads_back(start);
    law_decimal_reads_back(later);
    lemma_int_decimal_nonempty(start as int);
    lemma_int_decimal_nonempty(later as int);
    let h15 = coin_short(coin) + "-updown-15m-"@;
    let s15 = market_slug(coin, MarketInterval::FifteenMin, start as int);
    assert(s15.subrange(0, h15.len() as int) =~= h15);
    assert(s15.skip(h15.len() as int) =~= int_decimal(start as int));
    let h4 = coin_short(coin) + "-updown-4h-"@;
    let s4 = market_slug(coin, MarketInterval::FourHour, start as int);
    assert(later as int == start + 3600);
    assert(s4.subrange(0, h4.len() as int) =~= h4);
    assert(s4.skip(h4.len() as int) =~= int_decimal(later as int));
}

proof fn lemma_int_decimal_nonempty(x: int)
    ensures
        int_decimal(x).len() >= 1,
{
    if x < 0 {
        lemma_nat_decimal_nonempty((-x) as nat);
    } else {
        lemma_nat_decimal_nonempty(x as nat);
    }
}

proof fn lemma_nat_decimal_nonempty(n: nat)
    ensures
        nat_decimal(n).len() >= 1,
    decreases n,
{
    if n >= 10 {
        lemma_nat_decimal_nonempty(n / 10);
    }
}

/// A session lasts as long as its market, except that a 15-minute market's
/// session runs one minute past the market's end.
pub proof fn law_session_covers_market(interval: MarketInterval)
    ensures
        duration_secs_of(interval) == interval_secs_of(interval) + (if interval
            == MarketInterval::FifteenMin {
            60int
        } else {
            0int
        }),
{
}

/// Different coins have different names and tickers, so their markets' slugs
/// and directories never collide.
pub proof fn law_coin_names_distinct(a: Coin, b: Coin)
    requires
        a != b,
    ensures
        coin_long(a) != coin_long(b),
        coin_short(a) != coin_short(b),
{
    reveal_strlit("bitcoin");
    reveal_strlit("ethereum");
    reveal_strlit("solana");
    reveal_strlit("xrp");
    reveal_strlit("btc");
    reveal_strlit("eth");
    reveal_strlit("sol");
    assert(coin_long(a).len() != coin_long(b).len() || coin_long(a)[0] != coin_long(b)[0]);
    assert(coin_short(a)[0] != coin_short(b)[0] || coin_short(a)[2] != coin_short(b)[2]);
}

/// Different intervals keep their markets in different directories.
pub proof fn law_interval_dirs_distinct(a: MarketInterval, b: MarketInterval)
    requires
        a != b,
    ensures
        dir_name_of(a) != dir_name_of(b),
{
    reveal_strlit("15min");
    reveal_strlit("hour");
    reveal_strlit("4hour");
    assert(dir_name_of(a).len() != dir_name_of(b).len() || dir_name_of(a)[0] != dir_name_of(b)[0]);
}

} // verus!
