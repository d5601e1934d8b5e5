//! The smallest and the largest of the values seen so far.

use std::cmp::Ordering;
use vstd::prelude::*;
use vstd::std_specs::cmp::{OrdSpec, PartialOrdSpec};

verus! {

/// The smallest and the largest of some values, as far as they can be
/// compared.
#[derive(Debug)]
pub enum MinMax<T: PartialOrd> {
    /// No value was seen.
    Empty,
    /// One value was seen.
    One(T),
    /// Two or more values were seen.
    Complete { min: T, max: T },
}

impl<T: PartialOrd> MinMax<T> {
    /// What `update` makes of this and one more value. A value that cannot
    /// be compared with the one value seen before is dropped.
    pub open spec fn updated(self, value: T) -> MinMax<T> {
        match self {
            MinMax::Empty => MinMax::Empty,
            MinMax::One(prev) => match prev.partial_cmp_spec(&value) {
                Some(Ordering::Greater) => MinMax::Complete { min: value, max: prev },
                Some(Ordering::Equal) => MinMax::Complete { min: value, max: prev },
                Some(Ordering::Less) => MinMax::Complete { min: prev, max: value },
                None => MinMax::One(prev),
            },
            MinMax::Complete { min, max } => if min.partial_cmp_spec(&value) == Some(
                Ordering::Greater,
            ) {
                MinMax::Complete { min: value, max }
            } else if max.partial_cmp_spec(&value) == Some(Ordering::Less) {
                MinMax::Complete { min, max: value }
            } else {
                MinMax::Complete { min, max }
            },
        }
    }

    /// The smallest value seen.
    pub open spec fn smallest(self) -> Option<T> {
        match self {
            MinMax::Empty => None,
            MinMax::One(it) => Some(it),
            MinMax::Complete { min, .. } => Some(min),
        }
    }

    /// The largest value seen.
    pub open spec fn largest(self) -> Option<T> {
        match self {
            MinMax::Empty => None,
            MinMax::One(it) => Some(it),
            MinMax::Complete { max, .. } => Some(max),
        }
    }

    /// No value seen yet.
    pub fn new() -> (fresh: MinMax<T>)
        ensures
            fresh is Empty,
    {
        MinMax::Empty
    }

    /// Takes one more value into account. The first value is not taken this
    /// way: it is given as `MinMax::One`.
    pub fn update(self, value: T) -> (next: MinMax<T>)
        requires
            !(self is Empty),
        ensures
            T::obeys_partial_cmp_spec() ==> next == self.updated(value),
            !(next is Empty),
    {
        match self {
            MinMax::Empty => MinMax::Empty,
            MinMax::One(prev) => match prev.partial_cmp(&value) {
                Some(Ordering::Greater) => MinMax::Complete { min: value, max: prev },
                Some(Ordering::Equal) => MinMax::Complete { min: value, max: prev },
                Some(Ordering::Less) => MinMax::Complete { min: prev, max: value },
                None => MinMax::One(prev),
            },
            MinMax::Complete { min, max } => {
                if let Some(Ordering::Greater) = min.partial_cmp(&value) {
                    MinMax::Complete { min: value, max }
                } else if let Some(Ordering::Less) = max.partial_cmp(&value) {
                    MinMax::Complete { min, max: value }
                } else {
                    MinMax::Complete { min, max }
                }
            },
        }
    }

    /// The smallest value seen.
    pub fn min(&self) -> (min: Option<&T>)
        ensures
            min is Some <==> self.smallest() is Some,
            min is Some ==> *min->0 == self.smallest()->0,
    {
        match self {
            MinMax::Empty => None,
            MinMax::One(it) => Some(it),
            MinMax::Complete { min, .. } => Some(min),
        }
    }

    /// The smallest value seen, by value.
    pub fn to_min(self) -> (min: Option<T>)
        ensures
            min == self.smallest(),
    {
        match self {
            MinMax::Empty => None,
            MinMax::One(it) => Some(it),
            MinMax::Complete { min, .. } => Some(min),
        }
    }

    /// The largest value seen.
    pub fn max(&self) -> (max: Option<&T>)
        ensures
            max is Some <==> self.largest() is Some,
            max is Some ==> *max->0 == self.largest()->0,
    {
        match self {
            MinMax::Empty => None,
            MinMax::One(it) => Some(it),
            MinMax::Complete { max, .. } => Some(max),
        }
    }

    /// The largest value seen, by value.
    pub fn to_max(self) -> (max: Option<T>)
        ensures
            max == self.largest(),
    {
        match self {
            MinMax::Empty => None,
            MinMax::One(it) => Some(it),
            MinMax::Complete { max, .. } => Some(max),
        }
    }
}

impl<T: PartialOrd + Ord> MinMax<T> {
    /// The smaller and the larger of two values.
    pub fn new_complete(a: T, b: T) -> (both: MinMax<T>)
        ensures
            T::obeys_cmp_spec() ==> both == (match a.cmp_spec(&b) {
                Ordering::Less => MinMax::Complete { min: a, max: b },
                Ordering::Equal => MinMax::Complete { min: a, max: b },
                Ordering::Greater => MinMax::Complete { min: b, max: a },
            }),
            both is Complete,
    {
        match a.cmp(&b) {
            Ordering::Less => MinMax::Complete { min: a, max: b },
            Ordering::Equal => MinMax::Complete { min: a, max: b },
            Ordering::Greater => MinMax::Complete { min: b, max: a },
        }
    }
}

} // verus!
