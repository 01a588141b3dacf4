//! The current time, for timestamps written into exports and graphs.
use vstd::prelude::*;

verus! {

/// A reading of the system clock against 1970-01-01T00:00:00Z: whole
/// seconds and the nanoseconds beyond them, after or before that instant.
pub enum ClockReading {
    Since(u64, u32),
    Before(u64, u32),
}

/// The reading as signed nanoseconds since 1970.
pub open spec fn reading_nanos(c: ClockReading) -> int {
    match c {
        ClockReading::Since(s, n) => s * 1_000_000_000 + n,
        ClockReading::Before(s, n) => -(s * 1_000_000_000 + n),
    }
}

/// Calls `std::time::SystemTime::now`, then `duration_since(UNIX_EPOCH)`;
/// when that fails because the clock is before 1970, `SystemTimeError::duration`
/// gives how far before. The nanoseconds are `Duration::subsec_nanos`, below
/// one second; nothing more is claimed of the values.
#[verifier::external_body]
fn unix_time() -> (r: ClockReading)
    ensures
        match r {
            ClockReading::Since(_, n) => n < 1_000_000_000,
            ClockReading::Before(_, n) => n < 1_000_000_000,
        },
{
    match std::time::SystemTime::now().duration_since(std::time::UNIX_EPOCH) {
        Ok(d) => ClockReading::Since(d.as_secs(), d.subsec_nanos()),
        Err(e) => ClockReading::Before(e.duration().as_secs(), e.duration().subsec_nanos()),
    }
}

/// The reading as a signed count of seconds and the nanoseconds after it
/// (below one second), the form chrono takes; `None` when the seconds do
/// not fit in an `i64`.
pub fn signed_timestamp(c: ClockReading) -> (r: Option<(i64, u32)>)
    requires
        match c {
            ClockReading::Since(_, n) => n < 1_000_000_000,
            ClockReading::Before(_, n) => n < 1_000_000_000,
        },
    ensures
        match r {
            Some((secs, nanos)) => nanos < 1_000_000_000 && secs * 1_000_000_000 + nanos
                == reading_nanos(c),
            None => match c {
                ClockReading::Since(s, _) => s > i64::MAX,
                ClockReading::Before(s, n) => s + (if n == 0 {
                    0int
                } else {
                    1int
                }) > i64::MAX + 1,
            },
        },
{
    match c {
        ClockReading::Since(s, n) => {
            if s > i64::MAX as u64 {
                None
            } else {
                Some((s as i64, n))
            }
        },
        ClockReading::Before(s, n) => {
            let whole: i128 = if n == 0 {
                -(s as i128)
            } else {
                -(s as i128) - 1
            };
            if whole < i64::MIN as i128 {
                None
            } else if n == 0 {
                Some((whole as i64, 0))
            } else {
                Some((whole as i64, 1_000_000_000 - n))
            }
        },
    }
}

/// Calls `chrono::DateTime::<Utc>::from_timestamp` and `to_rfc3339`:
/// `None` when the instant is outside chrono's range, else its text.
/// Nothing is claimed of the text; neither call panics.
#[verifier::external_body]
fn rfc3339_of(secs: i64, nanos: u32) -> (r: Option<String>) {
    match chrono::DateTime::<chrono::Utc>::from_timestamp(secs, nanos) {
        Some(t) => Some(t.to_rfc3339()),
        None => None,
    }
}

/// The current UTC time as RFC 3339 text, before 1970 as well as after;
/// the empty text when the clock reads beyond the dates chrono represents.
pub(crate) fn now_rfc3339() -> (r: String) {
    match signed_timestamp(unix_time()) {
        Some((secs, nanos)) => match rfc3339_of(secs, nanos) {
            Some(t) => t,
            None => String::new(),
        },
        None => String::new(),
    }
}

} // verus!
