//! Instants: when a fragment was created or last changed.

use vstd::prelude::*;

verus! {

/// Whether chrono has an instant `secs` seconds after 1970-01-01T00:00:00Z
/// plus `nanos` nanoseconds (`DateTime::from_timestamp(secs, nanos)` is `Some`).
pub uninterp spec fn instant_exists(secs: int, nanos: int) -> bool;

/// What `DateTime<Utc>::to_rfc3339_opts(SecondsFormat::Secs, true)` prints
/// for that instant (`2026-02-21T10:30:00Z`).
pub uninterp spec fn rfc3339_secs(secs: int, nanos: int) -> Seq<char>;

/// What `DateTime<Utc>::to_rfc3339()` prints for that instant
/// (`2026-02-21T10:30:00+00:00`).
pub uninterp spec fn rfc3339_full(secs: int, nanos: int) -> Seq<char>;

/// The instant `DateTime::parse_from_rfc3339(s)` reads, taken to UTC as
/// (`timestamp()`, `timestamp_subsec_nanos()`); `None` when it refuses `s`.
pub uninterp spec fn rfc3339_parsed(s: Seq<char>) -> Option<(int, int)>;

/// An instant as chrono's `DateTime<Utc>` holds it: whole seconds since
/// 1970-01-01T00:00:00Z and the nanoseconds after them. Only instants
/// chrono can represent are values of this type.
#[derive(Debug, Clone, Copy, PartialEq, Eq)]
pub struct Timestamp {
    secs: i64,
    nanos: u32,
}

impl Timestamp {
    #[verifier::type_invariant]
    spec fn inv(self) -> bool {
        instant_exists(self.secs as int, self.nanos as int)
    }

    pub closed spec fn secs_spec(self) -> int {
        self.secs as int
    }

    pub closed spec fn nanos_spec(self) -> int {
        self.nanos as int
    }

    /// Seconds since 1970-01-01T00:00:00Z.
    pub fn secs(&self) -> (r: i64)
        ensures
            r == self.secs_spec(),
    {
        self.secs
    }

    /// Nanoseconds after the second.
    pub fn nanos(&self) -> (r: u32)
        ensures
            r == self.nanos_spec(),
    {
        self.nanos
    }

    /// The instant, if chrono has it.
    pub fn from_parts(secs: i64, nanos: u32) -> (r: Option<Timestamp>)
        ensures
            r.is_some() == instant_exists(secs as int, nanos as int),
            r matches Some(t) ==> t.secs_spec() == secs && t.nanos_spec() == nanos,
    {
        if instant_ok(secs, nanos) {
            Some(Timestamp { secs, nanos })
        } else {
            None
        }
    }

    /// The current instant on the system clock.
    pub fn now() -> (r: Timestamp) {
        let (secs, nanos) = utc_now_parts();
        Timestamp { secs, nanos }
    }

    /// The instant an RFC 3339 text names, if chrono reads it.
    pub fn parse_rfc3339(s: &str) -> (r: Option<Timestamp>)
        ensures
            match rfc3339_parsed(s@) {
                Some((a, b)) => r matches Some(t) && t.secs_spec() == a && t.nanos_spec() == b,
                None => r.is_none(),
            },
    {
        match parse_rfc3339_parts(s) {
            Some((secs, nanos)) => Some(Timestamp { secs, nanos }),
            None => None,
        }
    }

    /// `2026-02-21T10:30:00Z`: whole seconds, `Z` for UTC.
    pub fn to_rfc3339_secs(&self) -> (r: String)
        ensures
            r@ == rfc3339_secs(self.secs_spec(), self.nanos_spec()),
    {
        proof {
            use_type_invariant(self);
        }
        format_rfc3339_secs(self.secs, self.nanos)
    }

    /// `2026-02-21T10:30:00+00:00`, with a fraction when there is one.
    pub fn to_rfc3339(&self) -> (r: String)
        ensures
            r@ == rfc3339_full(self.secs_spec(), self.nanos_spec()),
    {
        proof {
            use_type_invariant(self);
        }
        format_rfc3339_full(self.secs, self.nanos)
    }
}

/// `DateTime::from_timestamp(secs, nanos).is_some()`.
#[verifier::external_body]
fn instant_ok(secs: i64, nanos: u32) -> (b: bool)
    ensures
        b == instant_exists(secs as int, nanos as int),
{
    chrono::DateTime::from_timestamp(secs, nanos).is_some()
}

/// `chrono::Utc::now()`, as (`timestamp()`, `timestamp_subsec_nanos()`).
/// It depends on the clock; what is stated is what chrono documents of
/// any `DateTime`: `from_timestamp` of those two parts gives it back.
#[verifier::external_body]
fn utc_now_parts() -> (r: (i64, u32))
    ensures
        instant_exists(r.0 as int, r.1 as int),
{
    let now = chrono::Utc::now();
    (now.timestamp(), now.timestamp_subsec_nanos())
}

/// `DateTime::parse_from_rfc3339(s)`, taken to UTC, as (`timestamp()`,
/// `timestamp_subsec_nanos()`); those parts give the instant back.
#[verifier::external_body]
fn parse_rfc3339_parts(s: &str) -> (r: Option<(i64, u32)>)
    ensures
        match rfc3339_parsed(s@) {
            Some((a, b)) => r matches Some((x, y)) && x == a && y == b && instant_exists(a, b),
            None => r.is_none(),
        },
{
    match chrono::DateTime::parse_from_rfc3339(s) {
        Ok(dt) => {
            let u = dt.with_timezone(&chrono::Utc);
            Some((u.timestamp(), u.timestamp_subsec_nanos()))
        },
        Err(_) => None,
    }
}

/// `to_rfc3339_opts(SecondsFormat::Secs, true)` of the instant.
#[verifier::external_body]
fn format_rfc3339_secs(secs: i64, nanos: u32) -> (r: String)
    requires
        instant_exists(secs as int, nanos as int),
    ensures
        r@ == rfc3339_secs(secs as int, nanos as int),
{
    chrono::DateTime::from_timestamp(secs, nanos).unwrap().to_rfc3339_opts(
        chrono::SecondsFormat::Secs,
        true,
    )
}

/// `to_rfc3339()` of the instant.
#[verifier::external_body]
fn format_rfc3339_full(secs: i64, nanos: u32) -> (r: String)
    requires
        instant_exists(secs as int, nanos as int),
    ensures
        r@ == rfc3339_full(secs as int, nanos as int),
{
    chrono::DateTime::from_timestamp(secs, nanos).unwrap().to_rfc3339()
}

} // verus!
