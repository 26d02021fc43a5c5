//! Points in time, as `jiff` represents them: whole seconds since the Unix epoch
//! and a fraction of a second in nanoseconds, both carrying the same sign.

use vstd::prelude::*;

verus! {

/// Nanoseconds in one second.
pub open spec fn nanos_per_second() -> int {
    1_000_000_000
}

/// The earliest second that `jiff::Timestamp` represents.
pub open spec fn min_second() -> int {
    -377_705_023_201
}

/// The latest second that `jiff::Timestamp` represents.
pub open spec fn max_second() -> int {
    253_402_207_200
}

/// An instant, with the components of a `jiff::Timestamp`.
#[derive(Debug, Clone, Copy, PartialEq, Eq, Structural)]
pub struct Timestamp {
    /// Whole seconds since the Unix epoch, truncated toward zero.
    pub second: i64,
    /// The remaining fraction of a second in nanoseconds; it has the sign of `second`.
    pub nanosecond: i32,
}

/// A protobuf `google.protobuf.Timestamp`: seconds and a non-negative fraction.
#[derive(Debug, Clone, Copy, PartialEq, Eq, Structural)]
pub struct ProtoTimestamp {
    pub seconds: i64,
    pub nanos: i32,
}

impl Timestamp {
    /// The components are those of a timestamp that `jiff` can hold.
    pub open spec fn wf(&self) -> bool {
        &&& min_second() <= self.second <= max_second()
        &&& -999_999_999 <= self.nanosecond <= 999_999_999
        &&& self.second == 0 || self.nanosecond == 0 || ((self.second > 0) == (self.nanosecond > 0))
        &&& self.second == min_second() ==> self.nanosecond >= 0
    }

    /// The instant as a signed count of nanoseconds since the Unix epoch.
    pub open spec fn total_nanos(&self) -> int {
        self.second * nanos_per_second() + self.nanosecond
    }

    /// The same instant as a protobuf timestamp, as converting through
    /// `std::time::SystemTime` into `prost_types::Timestamp` gives it: the count of
    /// nanoseconds split into whole seconds rounded down and a fraction in
    /// `0..1_000_000_000`.
    pub open spec fn proto_spec(&self) -> ProtoTimestamp {
        ProtoTimestamp {
            seconds: (self.total_nanos() / nanos_per_second()) as i64,
            nanos: (self.total_nanos() % nanos_per_second()) as i32,
        }
    }

    /// Converts the instant to a protobuf timestamp (see [`proto_spec`](Self::proto_spec)).
    pub fn to_proto(&self) -> (proto: ProtoTimestamp)
        requires
            self.wf(),
        ensures
            proto == self.proto_spec(),
            proto.seconds * nanos_per_second() + proto.nanos == self.total_nanos(),
            0 <= proto.nanos < nanos_per_second(),
    {
        let proto = if self.nanosecond < 0 {
            ProtoTimestamp { seconds: self.second - 1, nanos: self.nanosecond + 1_000_000_000 }
        } else {
            ProtoTimestamp { seconds: self.second, nanos: self.nanosecond }
        };
        proof {
            let x = self.total_nanos();
            assert(x == proto.seconds * nanos_per_second() + proto.nanos);
            vstd::arithmetic::div_mod::lemma_fundamental_div_mod_converse(
                x,
                nanos_per_second(),
                proto.seconds as int,
                proto.nanos as int,
            );
        }
        proto
    }
}

/// Reads the system clock with `std::time::SystemTime::now()` and converts it
/// with jiff's `Timestamp::try_from(SystemTime)`; on success returns the
/// timestamp's `as_second()` and `subsec_nanosecond()`, and `None` when jiff
/// refuses the clock's value (it lies outside jiff's range).
///
/// The contract claims only what jiff keeps of every timestamp it builds: the
/// seconds lie in jiff's range, the fraction is below one second in magnitude
/// and has the sign of the seconds. Which instant comes back, and whether the
/// conversion succeeds, depend on the clock and are not stated.
#[verifier::external_body]
pub(crate) fn timestamp_now() -> (ts: Option<Timestamp>)
    ensures
        ts matches Some(t) ==> t.wf(),
{
    match jiff::Timestamp::try_from(std::time::SystemTime::now()) {
        Ok(now) => Some(Timestamp { second: now.as_second(), nanosecond: now.subsec_nanosecond() }),
        Err(_) => None,
    }
}

} // verus!
