//! The order of identifiers: by manufacturer id, then by device id, which
//! is the order of their 48-bit values.

use vstd::prelude::*;
use core::cmp::Ordering;
use vstd::std_specs::cmp::PartialOrdSpec;
use crate::uid::Uid;

verus! {

impl PartialOrd for Uid {
    fn partial_cmp(&self, other: &Self) -> (r: Option<Ordering>) {
        if self.mfg == other.mfg {
            if self.dev < other.dev {
                Some(Ordering::Less)
            } else if self.dev > other.dev {
                Some(Ordering::Greater)
            } else {
                Some(Ordering::Equal)
            }
        } else if self.mfg < other.mfg {
            Some(Ordering::Less)
        } else {
            Some(Ordering::Greater)
        }
    }
}

impl vstd::std_specs::cmp::PartialOrdSpecImpl for Uid {
    open spec fn obeys_partial_cmp_spec() -> bool {
        true
    }

    open spec fn partial_cmp_spec(&self, other: &Uid) -> Option<Ordering> {
        if self.mfg == other.mfg {
            if self.dev < other.dev {
                Some(Ordering::Less)
            } else if self.dev > other.dev {
                Some(Ordering::Greater)
            } else {
                Some(Ordering::Equal)
            }
        } else if self.mfg < other.mfg {
            Some(Ordering::Less)
        } else {
            Some(Ordering::Greater)
        }
    }
}

/// The order of identifiers is total and is the order of their 48-bit
/// values: one identifier is less than another exactly when its value is
/// less, and equal exactly when the values are equal.
pub proof fn lemma_order_is_order_of_values(a: Uid, b: Uid)
    ensures
        a.partial_cmp_spec(&b).is_some(),
        a.partial_cmp_spec(&b) == Some(Ordering::Less) <==> a.value() < b.value(),
        a.partial_cmp_spec(&b) == Some(Ordering::Equal) <==> a.value() == b.value(),
        a.partial_cmp_spec(&b) == Some(Ordering::Greater) <==> a.value() > b.value(),
        a.partial_cmp_spec(&b) == Some(Ordering::Equal) <==> a == b,
{
}

/// Tells whether `a` comes before `b`.
pub fn uid_less(a: &Uid, b: &Uid) -> (less: bool)
    ensures
        less == (a.value() < b.value()),
{
    proof {
        lemma_order_is_order_of_values(*a, *b);
    }
    *a < *b
}

} // verus!
