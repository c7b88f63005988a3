//! Moments and lengths of time.

use vstd::prelude::*;

verus! {

/// Nanoseconds in a second.
pub const SECOND: i128 = 1_000_000_000;

/// The first moment that has a date.
pub const FIRST_MOMENT: i128 = -8_334_601_228_800_000_000_000;

/// The last moment that has a date.
pub const LAST_MOMENT: i128 = 8_210_266_876_799_999_999_999;

/// A moment, as nanoseconds since the beginning of 1970 in UTC.
#[derive(Clone, Copy, PartialEq, Eq, Structural, PartialOrd, Ord, Hash, Debug)]
pub struct Timestamp {
    nanos: i128,
}

impl View for Timestamp {
    type V = int;

    closed spec fn view(&self) -> int {
        self.nanos as int
    }
}

/// A moment in RFC 3339, by its seconds and nanoseconds.
pub uninterp spec fn rfc3339_text(secs: int, nanos: int) -> Seq<char>;

/// `chrono::DateTime::<Utc>::from_timestamp` and `to_rfc3339`: the date and
/// time of a moment, in UTC, with as many digits after the seconds as it
/// needs. The moments that have a date are those from the first day of the
/// year -262143 to the last of the year 262142.
#[verifier::external_body]
fn chrono_rfc3339(secs: i64, nanos: u32) -> (out: String)
    requires
        -8_334_601_228_800 <= secs <= 8_210_266_876_799,
        nanos < 1_000_000_000,
    ensures
        out@ == rfc3339_text(secs as int, nanos as int),
{
    let at: Option<chrono::DateTime<chrono::Utc>> = chrono::DateTime::from_timestamp(secs, nanos);
    at.expect("a moment that has a date").to_rfc3339()
}

impl Timestamp {
    /// A moment has a date.
    #[verifier::type_invariant]
    spec fn has_a_date(self) -> bool {
        FIRST_MOMENT <= self.nanos <= LAST_MOMENT
    }

    /// Two moments are one if they are as long after the beginning of 1970.
    pub proof fn view_is_injective(a: Timestamp, b: Timestamp)
        ensures
            (a@ == b@) == (a == b),
    {
    }

    /// The moment so many nanoseconds after the beginning of 1970, if it has
    /// a date.
    pub fn from_nanos(nanos: i128) -> (at: Option<Timestamp>)
        ensures
            match at {
                Some(at) => at@ == nanos,
                None => nanos < FIRST_MOMENT || nanos > LAST_MOMENT,
            },
    {
        if nanos < FIRST_MOMENT || nanos > LAST_MOMENT {
            None
        } else {
            Some(Timestamp { nanos })
        }
    }

    /// The moment so many milliseconds after the beginning of 1970, if it has
    /// a date.
    pub fn from_timestamp_millis(ms: i64) -> (at: Option<Timestamp>)
        ensures
            match at {
                Some(at) => at@ == ms * 1_000_000,
                None => ms * 1_000_000 < FIRST_MOMENT || ms * 1_000_000 > LAST_MOMENT,
            },
    {
        Timestamp::from_nanos((ms as i128) * 1_000_000)
    }

    /// Nanoseconds since the beginning of 1970.
    pub fn nanos(&self) -> (n: i128)
        ensures
            n == self@,
            FIRST_MOMENT <= n <= LAST_MOMENT,
    {
        proof {
            use_type_invariant(self);
        }
        self.nanos
    }

    /// Whole milliseconds since the beginning of 1970.
    pub open spec fn ms(self) -> int {
        self@ / 1_000_000
    }

    /// Whole milliseconds since the beginning of 1970.
    pub fn timestamp_millis(&self) -> (ms: i64)
        ensures
            ms == self.ms(),
    {
        let n: i128 = self.nanos();
        let since: i128 = n - FIRST_MOMENT;
        let ms: i128 = since / 1_000_000 + FIRST_MOMENT / 1_000_000;
        assert(ms == n / 1_000_000);
        ms as i64
    }

    /// The moment without what is finer than a millisecond.
    pub fn trunc_to_millis(&self) -> (at: Timestamp)
        ensures
            at == truncated(*self),
            at@ == self@ - self@ % 1_000_000,
    {
        let n: i128 = self.nanos();
        let back: i128 = (n - FIRST_MOMENT) % 1_000_000;
        assert(back == n % 1_000_000);
        let at = Timestamp { nanos: n - back };
        proof {
            Timestamp::view_is_injective(at, truncated(*self));
        }
        at
    }

    /// The moment in RFC 3339.
    pub fn to_rfc3339(&self) -> (out: String)
        ensures
            out@ == rfc3339_text(self@ / 1_000_000_000, self@ % 1_000_000_000),
    {
        let n: i128 = self.nanos();
        let since: i128 = n - FIRST_MOMENT;
        let fine: i128 = since % SECOND;
        let secs: i128 = since / SECOND + FIRST_MOMENT / SECOND;
        assert(fine == n % 1_000_000_000 && secs == n / 1_000_000_000);
        chrono_rfc3339(secs as i64, fine as u32)
    }
}

/// A moment in RFC 3339.
pub open spec fn written_at(t: Timestamp) -> Seq<char> {
    rfc3339_text(t@ / 1_000_000_000, t@ % 1_000_000_000)
}

/// The RFC 3339 form of a moment that may be absent.
pub open spec fn opt_written_at(t: Option<Timestamp>) -> Option<Seq<char>> {
    match t {
        Some(t) => Some(written_at(t)),
        None => None,
    }
}

/// The RFC 3339 form of a moment that may be absent.
pub fn opt_rfc3339(t: &Option<Timestamp>) -> (out: Option<String>)
    ensures
        crate::text::opt_text(out) == opt_written_at(*t),
{
    match t {
        Some(t) => Some(t.to_rfc3339()),
        None => None,
    }
}

/// A moment without what is finer than a millisecond.
pub open spec fn truncated(t: Timestamp) -> Timestamp {
    choose|at: Timestamp| #[trigger] at@ == t@ - t@ % 1_000_000
}

/// Every moment has a whole millisecond that it falls in.
pub proof fn truncated_is_the_millisecond(t: Timestamp)
    requires
        FIRST_MOMENT <= t@ <= LAST_MOMENT,
    ensures
        truncated(t)@ == t@ - t@ % 1_000_000,
        truncated(t).ms() == t.ms(),
{
    let at = Timestamp { nanos: (t.nanos - t.nanos % 1_000_000) as i128 };
    assert(at@ == t@ - t@ % 1_000_000);
}

/// The longest length of time there is: every second a `u64` can count, and
/// the nanoseconds up to the next.
pub const SPAN_MAX: u128 = 18_446_744_073_709_551_615_999_999_999;

/// A length of time.
#[derive(Clone, Copy, PartialEq, Eq, Structural, PartialOrd, Ord, Hash, Debug)]
pub struct Span {
    /// In nanoseconds.
    pub nanos: u128,
}

impl Span {
    /// So many seconds.
    pub fn from_secs(secs: u64) -> (span: Span)
        ensures
            span.nanos == secs * 1_000_000_000,
    {
        assert(secs * 1_000_000_000 <= SPAN_MAX) by (nonlinear_arith)
            requires
                secs <= 0xffff_ffff_ffff_ffff,
        ;
        Span { nanos: (secs as u128) * 1_000_000_000 }
    }

    /// So many milliseconds.
    pub fn from_millis(ms: u64) -> (span: Span)
        ensures
            span.nanos == ms * 1_000_000,
    {
        Span { nanos: (ms as u128) * 1_000_000 }
    }

    /// The longest there is.
    pub fn max() -> (span: Span)
        ensures
            span.nanos == SPAN_MAX,
    {
        Span { nanos: SPAN_MAX }
    }

    /// Twice as long, or the longest there is.
    pub open spec fn twice(self) -> nat {
        if 2 * self.nanos <= SPAN_MAX {
            (2 * self.nanos) as nat
        } else {
            SPAN_MAX as nat
        }
    }

    /// Twice as long, or the longest there is.
    pub fn doubled(&self) -> (span: Span)
        ensures
            span.nanos == self.twice(),
    {
        if self.nanos <= SPAN_MAX / 2 {
            Span { nanos: 2 * self.nanos }
        } else {
            Span { nanos: SPAN_MAX }
        }
    }
}

/// How long before `now` a moment was, or nothing where it is still to come.
pub open spec fn age(now: Timestamp, then: Timestamp) -> Option<int> {
    if then@ <= now@ {
        Some(now@ - then@)
    } else {
        None
    }
}

/// How long before `now` a moment was, or nothing where it is still to come.
pub fn age_of(now: &Timestamp, at: &Timestamp) -> (out: Option<Span>)
    ensures
        match out {
            Some(span) => age(*now, *at) == Some(span.nanos as int),
            None => age(*now, *at) is None,
        },
{
    let n: i128 = now.nanos();
    let t: i128 = at.nanos();
    if t <= n {
        Some(Span { nanos: (n - t) as u128 })
    } else {
        None
    }
}

/// Whether something that happens every so often is due: it never happened,
/// or the time has passed, or the clock was set back since.
pub open spec fn is_due(last: Option<Timestamp>, now: Timestamp, every: nat) -> bool {
    match last {
        None => true,
        Some(last) => match age(now, last) {
            None => true,
            Some(since) => since >= every,
        },
    }
}

/// Whether something that happens every so often is due: it never happened,
/// or the time has passed, or the clock was set back since.
pub fn due_again(last: &Option<Timestamp>, now: &Timestamp, every: &Span) -> (due: bool)
    ensures
        due == is_due(*last, *now, every.nanos as nat),
{
    match last {
        None => true,
        Some(at) => match age_of(now, at) {
            None => true,
            Some(since) => since.nanos >= every.nanos,
        },
    }
}

/// What is due stays due until it happens.
pub proof fn due_stays_due(last: Option<Timestamp>, now: Timestamp, later: Timestamp, every: nat)
    requires
        now@ <= later@,
        last matches Some(at) ==> at@ <= now@,
        is_due(last, now, every),
    ensures
        is_due(last, later, every),
{
}

} // verus!
