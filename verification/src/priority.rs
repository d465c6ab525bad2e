//! Priorities of system-prompt fragments and tool prompt hooks.

use core::cmp::Ordering;
use vstd::prelude::*;
use vstd::std_specs::cmp::PartialOrdSpecImpl;

verus! {

/// System-prompt fragment priority. Lower values render first.
#[derive(Clone, Copy, Debug, Default, PartialEq, Eq, Structural, Hash, Ord)]
pub struct PromptPriority(pub u16);

impl PromptPriority {
    /// A priority with numeric ordering value `v`.
    pub fn new(v: u16) -> (res: Self)
        ensures
            res.0 == v,
    {
        PromptPriority(v)
    }

    /// The numeric ordering value.
    pub fn get(self) -> (res: u16)
        ensures
            res == self.0,
    {
        self.0
    }
}

/// The order of two priorities: the order of their values.
pub open spec fn priority_order(a: PromptPriority, b: PromptPriority) -> Option<Ordering> {
    if a.0 < b.0 {
        Some(Ordering::Less)
    } else if a.0 == b.0 {
        Some(Ordering::Equal)
    } else {
        Some(Ordering::Greater)
    }
}

impl PartialOrd for PromptPriority {
    fn partial_cmp(&self, other: &Self) -> (res: Option<Ordering>) {
        if self.0 < other.0 {
            Some(Ordering::Less)
        } else if self.0 == other.0 {
            Some(Ordering::Equal)
        } else {
            Some(Ordering::Greater)
        }
    }
}

impl PartialOrdSpecImpl for PromptPriority {
    open spec fn obeys_partial_cmp_spec() -> bool {
        true
    }

    open spec fn partial_cmp_spec(&self, other: &Self) -> Option<Ordering> {
        priority_order(*self, *other)
    }
}

/// Lower priority values render first: one priority is less than another
/// exactly when its value is lower, and the two are equal in the order
/// exactly when their values are.
pub proof fn law_lower_priority_first(a: PromptPriority, b: PromptPriority)
    ensures
        (priority_order(a, b) == Some(Ordering::Less)) == (a.0 < b.0),
        (priority_order(a, b) == Some(Ordering::Equal)) == (a.0 == b.0),
        (priority_order(a, b) == Some(Ordering::Greater)) == (a.0 > b.0),
{
}

/// Comparing with `<` orders priorities by value.
pub fn priority_less(a: PromptPriority, b: PromptPriority) -> (res: bool)
    ensures
        res == (a.0 < b.0),
{
    a < b
}

} // verus!
