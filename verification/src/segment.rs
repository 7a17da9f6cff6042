//! Segments: sequences tagged with the interval of time that they cover.

use crate::greedy::GreedyMultipleSequenceAlignerItem;
use crate::msa::{AlignedSequence, AlignedSequenceView};
use crate::text::{payloads, Printable};
use crate::token::TokenData;
use std::time::Duration;
use vstd::prelude::*;

verus! {

/// The length of `d` in nanoseconds, as `Duration::as_nanos` gives it.
pub uninterp spec fn nanos(d: Duration) -> nat;

/// `Duration::as_nanos` gives the whole length of the duration in
/// nanoseconds; two durations compare as these numbers do.
pub assume_specification[ Duration::as_nanos ](d: &Duration) -> (n: u128)
    ensures
        n == nanos(*d),
;

/// Calls the `-` of `Duration`, which gives the duration that is left of `a`
/// after `b` and panics where `b` is the longer one.
#[verifier::external_body]
fn minus(a: Duration, b: Duration) -> (left: Duration)
    requires
        nanos(a) >= nanos(b),
    ensures
        nanos(left) == nanos(a) - nanos(b),
{
    a - b
}

/// The shorter of two durations; the first where they are alike.
pub open spec fn shorter(a: Duration, b: Duration) -> Duration {
    if nanos(b) < nanos(a) {
        b
    } else {
        a
    }
}

/// The longer of two durations; the second where they are alike.
pub open spec fn longer(a: Duration, b: Duration) -> Duration {
    if nanos(b) < nanos(a) {
        a
    } else {
        b
    }
}

/// The interval from `t0` to `t1`.
#[derive(Clone, Copy, Debug, PartialEq, Eq, PartialOrd, Ord)]
pub struct SegmentKey {
    // the order of the fields is the order of the keys
    pub t1: Duration,
    pub t0: Duration,
}

impl SegmentKey {
    /// The length of the interval.
    pub fn duration(&self) -> (length: Duration)
        requires
            nanos(self.t1) >= nanos(self.t0),
        ensures
            nanos(length) == nanos(self.t1) - nanos(self.t0),
    {
        minus(self.t1, self.t0)
    }

    /// The length of the interval, or nothing where it ends before it
    /// begins.
    pub fn checked_duration(&self) -> (length: Option<Duration>)
        ensures
            length is Some <==> nanos(self.t1) >= nanos(self.t0),
            length matches Some(d) ==> nanos(d) == nanos(self.t1) - nanos(self.t0),
    {
        if self.t1.as_nanos() >= self.t0.as_nanos() {
            Some(self.duration())
        } else {
            None
        }
    }

    /// The interval from the earlier beginning of the two to their later
    /// end.
    pub open spec fn span(self, other: SegmentKey) -> SegmentKey {
        SegmentKey { t0: shorter(self.t0, other.t0), t1: longer(self.t1, other.t1) }
    }

    /// The interval from the earlier beginning of the two to their later
    /// end.
    pub fn spanning(&self, other: &SegmentKey) -> (key: SegmentKey)
        ensures
            key == self.span(*other),
    {
        SegmentKey {
            t0: if other.t0.as_nanos() < self.t0.as_nanos() {
                other.t0
            } else {
                self.t0
            },
            t1: if other.t1.as_nanos() < self.t1.as_nanos() {
                self.t1
            } else {
                other.t1
            },
        }
    }

    /// Whether the interval ends after `other` has begun.
    pub open spec fn overlaps(self, other: SegmentKey) -> bool {
        nanos(self.t1) > nanos(other.t0)
    }

    /// Whether the interval ends after `other` has begun.
    pub fn ends_after(&self, other: &SegmentKey) -> (overlap: bool)
        ensures
            overlap == self.overlaps(*other),
    {
        self.t1.as_nanos() > other.t0.as_nanos()
    }
}

/// What kind of segment a recogniser has put out.
#[derive(Clone, Copy, Debug)]
pub enum SegmentKind {
    Normal { last_index: usize, last_offset: Option<Duration>, total_period: Duration },
    Selected,
}

/// What a recogniser has put out for one segment.
#[derive(Clone, Debug)]
pub struct SegmentValue {
    pub kind: SegmentKind,
    pub text: String,
    pub tokens: Vec<TokenData>,
}

/// A value tagged with a key; by default what a recogniser has put out,
/// tagged with its interval.
#[derive(Clone, Debug)]
pub struct Segment<K = SegmentKey, V = SegmentValue> {
    pub key: K,
    pub value: V,
}

impl<K, V: View> View for Segment<K, V> {
    type V = Segment<K, V::V>;

    open spec fn view(&self) -> Segment<K, V::V> {
        Segment { key: self.key, value: self.value@ }
    }
}

impl<T> GreedyMultipleSequenceAlignerItem<T> for Segment<SegmentKey, AlignedSequence<T>> {
    open spec fn sequence(item: Self::V) -> AlignedSequenceView<T> {
        item.value
    }

    open spec fn built(x: Self::V, y: Self::V, seq: AlignedSequenceView<T>) -> Self::V {
        Segment { key: x.key.span(y.key), value: seq }
    }

    fn as_sequence(&self) -> (seq: &AlignedSequence<T>) {
        &self.value
    }

    fn build(x: &Self, y: &Self, seq: AlignedSequence<T>) -> (item: Self) {
        Segment { key: x.key.spanning(&y.key), value: seq }
    }
}

impl<K, T: Printable> Segment<K, AlignedSequence<T>> {
    /// The sequence of the segment as text.
    pub fn to_string(&self) -> (text: String)
        ensures
            text@ == T::printed(payloads(self.value.value@)),
    {
        self.value.to_string()
    }
}

} // verus!
