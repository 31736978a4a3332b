//! Instants of time as plain integers.
use std::cmp::Ordering;

use vstd::prelude::*;
use vstd::std_specs::cmp::PartialOrdSpec;

verus! {

/// An instant in UTC: the whole seconds since the Unix epoch, and the
/// nanoseconds into that second.
///
/// Inside a leap second `nanos` goes on past one billion, so the pair still
/// orders instants as they follow each other.
#[derive(Clone, Copy, Debug, PartialEq, Eq, Structural)]
pub struct Timestamp {
    pub seconds: i64,
    pub nanos: u32,
}

impl Timestamp {
    /// `self` comes before `other`.
    pub open spec fn before(self, other: Timestamp) -> bool {
        ||| self.seconds < other.seconds
        ||| self.seconds == other.seconds && self.nanos < other.nanos
    }
}

impl PartialOrd for Timestamp {
    fn partial_cmp(&self, other: &Timestamp) -> (order: Option<Ordering>)
        ensures
            order == Some(
                if self.seconds < other.seconds {
                    Ordering::Less
                } else if self.seconds > other.seconds {
                    Ordering::Greater
                } else if self.nanos < other.nanos {
                    Ordering::Less
                } else if self.nanos > other.nanos {
                    Ordering::Greater
                } else {
                    Ordering::Equal
                },
            ),
    {
        if self.seconds < other.seconds {
            Some(Ordering::Less)
        } else if other.seconds < self.seconds {
            Some(Ordering::Greater)
        } else if self.nanos < other.nanos {
            Some(Ordering::Less)
        } else if other.nanos < self.nanos {
            Some(Ordering::Greater)
        } else {
            Some(Ordering::Equal)
        }
    }
}

impl vstd::std_specs::cmp::PartialOrdSpecImpl for Timestamp {
    open spec fn obeys_partial_cmp_spec() -> bool {
        true
    }

    open spec fn partial_cmp_spec(&self, other: &Timestamp) -> Option<Ordering> {
        if self.before(*other) {
            Some(Ordering::Less)
        } else if other.before(*self) {
            Some(Ordering::Greater)
        } else {
            Some(Ordering::Equal)
        }
    }
}

/// Instants are ordered by time: a later second comes later, and within a second
/// the one with more nanoseconds. The time is written as one number, in which the
/// nanoseconds never reach the next second.
pub proof fn instants_are_ordered_by_time(first: Timestamp, second: Timestamp)
    ensures
        first.before(second) <==> first.seconds * 10_000_000_000 + first.nanos < second.seconds
            * 10_000_000_000 + second.nanos,
        first == second <==> first.seconds * 10_000_000_000 + first.nanos == second.seconds
            * 10_000_000_000 + second.nanos,
{
}

/// A comparison of two instants gives how their times stand to each other.
pub proof fn comparison_goes_by_time(first: Timestamp, second: Timestamp)
    ensures
        Timestamp::obeys_partial_cmp_spec(),
        first.partial_cmp_spec(&second) == Some(Ordering::Less) <==> first.seconds * 10_000_000_000
            + first.nanos < second.seconds * 10_000_000_000 + second.nanos,
        first.partial_cmp_spec(&second) == Some(Ordering::Greater) <==> first.seconds
            * 10_000_000_000 + first.nanos > second.seconds * 10_000_000_000 + second.nanos,
        first.partial_cmp_spec(&second) == Some(Ordering::Equal) <==> first.seconds
            * 10_000_000_000 + first.nanos == second.seconds * 10_000_000_000 + second.nanos,
{
}

} // verus!
