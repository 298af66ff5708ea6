use vstd::prelude::*;

verus! {

/// A point in time with microsecond resolution: the number of microseconds
/// since the Unix epoch, possibly negative.
///
/// A run compares the modification instant of the local certificate against
/// the instant of the last successful push.  When no such instant has ever
/// been recorded, the sentinel minimum stands in, so that any real
/// certificate counts as newer and a first run always synchronizes.
#[derive(Clone, Copy, Debug, PartialEq, Eq, Structural)]
pub struct Timestamp {
    pub micros: i64,
}

impl Timestamp {
    /// The sentinel minimum instant: what an absent cache reads as.
    pub fn new() -> (t: Timestamp)
        ensures
            t.micros == i64::MIN,
    {
        Timestamp { micros: i64::MIN }
    }

    /// The instant that sits exactly `micros` microseconds from the epoch.
    pub fn from_micros(micros: i64) -> (t: Timestamp)
        ensures
            t.micros == micros,
    {
        Timestamp { micros }
    }

    /// A copy of the wrapped microsecond count.
    pub fn get(&self) -> (m: i64)
        ensures
            m == self.micros,
    {
        self.micros
    }

    /// Whether `self` is strictly later than `other`.
    pub open spec fn spec_newer_than(self, other: Timestamp) -> bool {
        self.micros > other.micros
    }

    /// The freshness comparison that decides whether to synchronize.
    pub fn newer_than(&self, other: &Timestamp) -> (r: bool)
        ensures
            r == self.spec_newer_than(*other),
    {
        self.micros > other.micros
    }

    /// Replace the wrapped instant with the current wall-clock time.
    ///
    /// Nothing is promised of the clock's value: every caller that needs an
    /// exact relation takes the new instant as an argument instead.
    pub fn bump(&mut self) {
        let m = current_instant_micros();
        self.micros = m;
    }
}

/// Relies on std's `SystemTime::now` and `SystemTime::duration_since`: the
/// current wall-clock time as signed microseconds since the Unix epoch,
/// negative when the clock stands before the epoch and saturated at the
/// ends of the `i64` range, so the read never aborts.  The clock promises
/// nothing about its value, so no clause constrains the result.
#[verifier::external_body]
fn current_instant_micros() -> i64 {
    let now = std::time::SystemTime::now();
    match now.duration_since(std::time::UNIX_EPOCH) {
        Ok(after) => i64::try_from(after.as_micros()).unwrap_or(i64::MAX),
        Err(before) => match i64::try_from(before.duration().as_micros()) {
            Ok(m) => -m,
            Err(_) => i64::MIN,
        },
    }
}

} // verus!
