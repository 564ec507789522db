//! Closed intervals of event values.

use vstd::prelude::*;
use crate::event::EventValue;

verus! {

/// The values `min ..= max`. A range with `min > max` holds nothing.
#[derive(PartialEq, Eq, Structural, Clone, Copy, Debug)]
pub struct Range {
    pub min: EventValue,
    pub max: EventValue,
}

impl Range {
    pub open spec fn contains_spec(&self, value: EventValue) -> bool {
        self.min <= value <= self.max
    }

    pub open spec fn is_empty_spec(&self) -> bool {
        self.min > self.max
    }

    pub open spec fn full() -> Range {
        Range { min: i32::MIN, max: i32::MAX }
    }

    /// The part that `self` and `other` share.
    pub open spec fn intersect_spec(&self, other: &Range) -> Range {
        Range {
            min: if self.min >= other.min { self.min } else { other.min },
            max: if self.max <= other.max { self.max } else { other.max },
        }
    }

    /// The smallest range that holds what `self` and `other` hold.
    pub open spec fn hull_spec(&self, other: &Range) -> Range {
        if self.is_empty_spec() {
            *other
        } else if other.is_empty_spec() {
            *self
        } else {
            Range {
                min: if self.min <= other.min { self.min } else { other.min },
                max: if self.max >= other.max { self.max } else { other.max },
            }
        }
    }

    /// The part of `self` that lies under every value of `other`, if there is one.
    pub open spec fn below_spec(&self, other: &Range) -> Option<Range> {
        if self.min < other.min && self.min <= self.max {
            Some(Range { min: self.min, max: if self.max < other.min { self.max } else { (other.min - 1) as i32 } })
        } else {
            None
        }
    }

    /// The part of `self` that lies over every value of `other`, if there is one.
    pub open spec fn above_spec(&self, other: &Range) -> Option<Range> {
        if self.max > other.max && self.min <= self.max {
            Some(Range { min: if self.min > other.max { self.min } else { (other.max + 1) as i32 }, max: self.max })
        } else {
            None
        }
    }

    /// The nearest value inside the range; the range must hold something.
    pub open spec fn bound_spec(&self, value: EventValue) -> EventValue {
        if value < self.min {
            self.min
        } else if value > self.max {
            self.max
        } else {
            value
        }
    }

    pub fn new(min: EventValue, max: EventValue) -> (r: Range)
        ensures
            r == (Range { min, max }),
    {
        Range { min, max }
    }

    /// The range of every value.
    pub fn everything() -> (r: Range)
        ensures
            r == Range::full(),
            forall|v: EventValue| r.contains_spec(v),
    {
        Range { min: i32::MIN, max: i32::MAX }
    }

    /// The range of `value` alone.
    pub fn single(value: EventValue) -> (r: Range)
        ensures
            r == (Range { min: value, max: value }),
    {
        Range { min: value, max: value }
    }

    #[verifier::when_used_as_spec(contains_spec)]
    pub fn contains(&self, value: EventValue) -> (r: bool)
        ensures
            r == self.contains_spec(value),
    {
        self.min <= value && value <= self.max
    }

    #[verifier::when_used_as_spec(is_empty_spec)]
    pub fn is_empty(&self) -> (r: bool)
        ensures
            r == self.is_empty_spec(),
    {
        self.min > self.max
    }

    #[verifier::when_used_as_spec(intersect_spec)]
    pub fn intersect(&self, other: &Range) -> (r: Range)
        ensures
            r == self.intersect_spec(other),
            forall|v: EventValue| r.contains_spec(v) <==> self.contains_spec(v) && other.contains_spec(v),
    {
        Range {
            min: if self.min >= other.min { self.min } else { other.min },
            max: if self.max <= other.max { self.max } else { other.max },
        }
    }

    #[verifier::when_used_as_spec(hull_spec)]
    pub fn hull(&self, other: &Range) -> (r: Range)
        ensures
            r == self.hull_spec(other),
            forall|v: EventValue| self.contains_spec(v) || other.contains_spec(v) ==> r.contains_spec(v),
    {
        if self.is_empty() {
            *other
        } else if other.is_empty() {
            *self
        } else {
            Range {
                min: if self.min <= other.min { self.min } else { other.min },
                max: if self.max >= other.max { self.max } else { other.max },
            }
        }
    }

    #[verifier::when_used_as_spec(bound_spec)]
    pub fn bound(&self, value: EventValue) -> (r: EventValue)
        ensures
            r == self.bound_spec(value),
            !self.is_empty_spec() ==> self.contains_spec(r),
    {
        if value < self.min {
            self.min
        } else if value > self.max {
            self.max
        } else {
            value
        }
    }

    #[verifier::when_used_as_spec(below_spec)]
    pub fn below(&self, other: &Range) -> (r: Option<Range>)
        ensures
            r == self.below_spec(other),
            r matches Some(part) ==> !part.is_empty_spec() && forall|v: EventValue|
                part.contains_spec(v) <==> self.contains_spec(v) && v < other.min,
            r is None ==> forall|v: EventValue| !(self.contains_spec(v) && v < other.min),
    {
        if self.min < other.min && self.min <= self.max {
            Some(Range { min: self.min, max: if self.max < other.min { self.max } else { other.min - 1 } })
        } else {
            None
        }
    }

    #[verifier::when_used_as_spec(above_spec)]
    pub fn above(&self, other: &Range) -> (r: Option<Range>)
        ensures
            r == self.above_spec(other),
            r matches Some(part) ==> !part.is_empty_spec() && forall|v: EventValue|
                part.contains_spec(v) <==> self.contains_spec(v) && v > other.max,
            r is None ==> forall|v: EventValue| !(self.contains_spec(v) && v > other.max),
    {
        if self.max > other.max && self.min <= self.max {
            Some(Range { min: if self.min > other.max { self.min } else { other.max + 1 }, max: self.max })
        } else {
            None
        }
    }
}

} // verus!
