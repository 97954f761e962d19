//! Instants on the UTC time line, as the calendar crate counts them.
//!
//! A [`Timestamp`] holds what the calendar crate `chrono` holds of an
//! instant in UTC: the seconds since the epoch and the nanoseconds of the
//! second. Its order and its range are stated and proved here. Three private
//! functions call the calendar crate and are believed without proof: the
//! one that prints the year and the month of an instant, the one that prints
//! an instant in RFC 3339 form, and the one that measures the time between
//! two instants.

use vstd::prelude::*;

verus! {

/// Seconds since the epoch of the first instant that the calendar can hold:
/// midnight before 1 January of the year -262143.
pub const MIN_SECS: i64 = -8_334_601_228_800;

/// Seconds since the epoch of the last second that the calendar can hold:
/// the one before midnight after 31 December of the year 262142.
pub const MAX_SECS: i64 = 8_210_266_876_799;

/// Nanoseconds in a second. A nanosecond count at or above it denotes a leap
/// second.
pub const NANOS_PER_SEC: u32 = 1_000_000_000;

/// A length of time: whole seconds and nanoseconds.
#[derive(Clone, Copy, Debug, PartialEq, Eq)]
pub struct Wait {
    pub secs: u64,
    pub nanos: u32,
}

/// Mathematical value of a [`Timestamp`]: whole seconds since the epoch and
/// nanoseconds since that second.
pub struct Instant {
    pub secs: int,
    pub nanos: int,
}

impl Instant {
    /// The instants that the calendar can represent. A leap second is written
    /// as second 59 of its minute with a nanosecond count from one billion up.
    pub open spec fn in_range(self) -> bool {
        &&& MIN_SECS <= self.secs <= MAX_SECS
        &&& 0 <= self.nanos < 2 * NANOS_PER_SEC
        &&& (self.nanos >= NANOS_PER_SEC ==> self.secs % 60 == 59)
    }

    /// Strict order of the time line: by seconds, then by nanoseconds.
    pub open spec fn before(self, other: Instant) -> bool {
        self.secs < other.secs || (self.secs == other.secs && self.nanos < other.nanos)
    }
}

/// An instant in UTC that the calendar can represent.
#[derive(Clone, Copy, Debug, PartialEq, Eq)]
pub struct Timestamp {
    secs: i64,
    nanos: u32,
}

impl View for Timestamp {
    type V = Instant;

    closed spec fn view(&self) -> Instant {
        Instant { secs: self.secs as int, nanos: self.nanos as int }
    }
}

impl Timestamp {
    /// Every timestamp is one that the calendar can represent.
    #[verifier::type_invariant]
    pub open spec fn representable(self) -> bool {
        self@.in_range()
    }

    /// The instant `nanos` nanoseconds after second `secs` of the epoch, or
    /// `None` where the calendar cannot represent it.
    pub fn new(secs: i64, nanos: u32) -> (res: Option<Timestamp>)
        ensures
            res is Some <==> (Instant { secs: secs as int, nanos: nanos as int }).in_range(),
            res matches Some(t) ==> t@ == (Instant { secs: secs as int, nanos: nanos as int }),
    {
        if secs < MIN_SECS || secs > MAX_SECS || nanos >= 2 * NANOS_PER_SEC {
            return None;
        }
        if nanos >= NANOS_PER_SEC {
            let since_min: i64 = secs - MIN_SECS;
            if since_min % 60 != 59 {
                return None;
            }
        }
        Some(Timestamp { secs, nanos })
    }

    /// Whole seconds since the epoch.
    pub fn secs(&self) -> (res: i64)
        ensures
            res == self@.secs,
    {
        self.secs
    }

    /// Nanoseconds since the last whole second.
    pub fn nanos(&self) -> (res: u32)
        ensures
            res == self@.nanos,
    {
        self.nanos
    }

    /// Whether `self` lies strictly before `other`.
    pub fn is_before(&self, other: &Timestamp) -> (res: bool)
        ensures
            res == self@.before(other@),
    {
        self.secs < other.secs || (self.secs == other.secs && self.nanos < other.nanos)
    }
}

/// The year and month of an instant in UTC, as the calendar crate prints them
/// for the pattern `%Y-%m`: the year in four digits, or with a sign and in as
/// many digits as it has where it lies outside 0 to 9999, then a hyphen, and
/// the month in two digits.
pub uninterp spec fn month_key(secs: int, nanos: int) -> Seq<char>;

/// The text of an instant in UTC in the RFC 3339 form that the calendar crate
/// prints.
pub uninterp spec fn rfc3339_text(secs: int, nanos: int) -> Seq<char>;

/// Seconds in a day.
pub const SECS_PER_DAY: i64 = 86_400;

/// The nanoseconds from `from` to `to` as the calendar crate counts them:
/// the difference of the two counts of seconds and of nanoseconds, with one
/// second more where `from` lies in a leap second and `to` is later in its
/// day, and one second less where `to` lies in a leap second and `from` is
/// later in its day.
pub open spec fn nanos_between(from: Instant, to: Instant) -> int {
    let leap: int = if to.secs % (SECS_PER_DAY as int) > from.secs % (SECS_PER_DAY as int)
        && from.nanos >= NANOS_PER_SEC {
        1
    } else if to.secs % (SECS_PER_DAY as int) < from.secs % (SECS_PER_DAY as int) && to.nanos
        >= NANOS_PER_SEC {
        -1
    } else {
        0
    };
    (to.secs - from.secs + leap) * NANOS_PER_SEC + (to.nanos - from.nanos)
}

/// The time from `from` to `to` in whole seconds and nanoseconds below a
/// second, or `None` where `to` lies before `from`.
pub open spec fn between(from: Instant, to: Instant) -> Option<Wait> {
    let nanos = nanos_between(from, to);
    if nanos < 0 {
        None
    } else {
        Some(
            Wait {
                secs: (nanos / (NANOS_PER_SEC as int)) as u64,
                nanos: (nanos % (NANOS_PER_SEC as int)) as u32,
            },
        )
    }
}

impl Timestamp {
    /// The key of the month that holds this instant.
    ///
    /// Trusted: builds the instant with `chrono::DateTime::from_timestamp`,
    /// which accepts every instant in range, and prints it with
    /// `DateTime::format` for the pattern `%Y-%m`. The contract only names
    /// the text that comes back.
    #[verifier::external_body]
    pub(crate) fn month(self) -> (key: String)
        requires
            self@.in_range(),
        ensures
            key@ == month_key(self@.secs, self@.nanos),
    {
        chrono::DateTime::from_timestamp(self.secs, self.nanos).unwrap().format("%Y-%m").to_string()
    }

    /// This instant in RFC 3339 form.
    ///
    /// Trusted: builds the instant with `chrono::DateTime::from_timestamp`,
    /// which accepts every instant in range, and prints it with
    /// `DateTime::to_rfc3339`. The contract only names the text that comes
    /// back.
    #[verifier::external_body]
    pub(crate) fn rfc3339(self) -> (text: String)
        requires
            self@.in_range(),
        ensures
            text@ == rfc3339_text(self@.secs, self@.nanos),
    {
        chrono::DateTime::from_timestamp(self.secs, self.nanos).unwrap().to_rfc3339()
    }

    /// The time from `self` to `later`, or `None` where `later` is the
    /// earlier of the two.
    ///
    /// Trusted: builds both instants with `chrono::DateTime::from_timestamp`,
    /// which accepts every instant in range, subtracts them with
    /// `DateTime::signed_duration_since` and turns the difference into a
    /// `std::time::Duration` with `TimeDelta::to_std`, which fails on a
    /// negative one. The contract states the difference as the calendar
    /// crate computes it: the days and the seconds of the day are
    /// subtracted, a leap second of the earlier time of day is counted, and
    /// so are the nanoseconds.
    #[verifier::external_body]
    pub(crate) fn time_to(self, later: Timestamp) -> (gap: Option<Wait>)
        requires
            self@.in_range(),
            later@.in_range(),
        ensures
            gap == between(self@, later@),
    {
        let from = chrono::DateTime::from_timestamp(self.secs, self.nanos).unwrap();
        let to = chrono::DateTime::from_timestamp(later.secs, later.nanos).unwrap();
        match to.signed_duration_since(from).to_std() {
            Ok(d) => Some(Wait { secs: d.as_secs(), nanos: d.subsec_nanos() }),
            Err(_) => None,
        }
    }

    /// The key of the month that holds this instant: the year, a hyphen and
    /// the month in two digits. A year outside 0 to 9999 is signed.
    pub fn pack_date(&self) -> (key: String)
        ensures
            key@ == month_key(self@.secs, self@.nanos),
    {
        proof {
            use_type_invariant(self);
        }
        self.month()
    }

    /// The time from `self` until `later`, or `None` where `later` is the
    /// earlier of the two.
    pub fn time_until(&self, later: &Timestamp) -> (gap: Option<Wait>)
        ensures
            gap == between(self@, later@),
    {
        proof {
            use_type_invariant(self);
            use_type_invariant(later);
        }
        self.time_to(*later)
    }

    /// This instant in RFC 3339 form.
    pub fn to_rfc3339(&self) -> (text: String)
        ensures
            text@ == rfc3339_text(self@.secs, self@.nanos),
    {
        proof {
            use_type_invariant(self);
        }
        self.rfc3339()
    }
}

} // verus!
