use vstd::prelude::*;
use vstd::std_specs::cmp::PartialOrdSpec;
use crate::find::{FindOrd, FindOrdering, Snap};

verus! {

/// A target value that may accept its nearest neighbour on one side where no
/// element matches it.
pub struct SnappingTarget<T> {
    pub value: T,
    pub snap: Option<Snap>,
}

/// The outcome of comparing a value against a snapping target, given the
/// target's place in the partial order relative to the value: a value above the
/// target may be kept when snapping upwards, one below it when snapping
/// downwards. Values that the order does not relate count as matching.
pub open spec fn snapped_outcome(
    place: Option<core::cmp::Ordering>,
    snap: Option<Snap>,
) -> FindOrdering {
    match place {
        Some(core::cmp::Ordering::Less) => FindOrdering::ValAboveTarget {
            is_valid_res: snap == Some(Snap::Upwards),
        },
        Some(core::cmp::Ordering::Greater) => FindOrdering::ValBelowTarget {
            is_valid_res: snap == Some(Snap::Downwards),
        },
        _ => FindOrdering::ValMatchesTarget,
    }
}

/// Whether the outcome keeps a value only on the side that `snap` names.
pub open spec fn keeps_towards(o: FindOrdering, snap: Option<Snap>) -> bool {
    match o {
        FindOrdering::ValBelowTarget { is_valid_res } => is_valid_res == (snap == Some(
            Snap::Downwards,
        )),
        FindOrdering::ValAboveTarget { is_valid_res } => is_valid_res == (snap == Some(
            Snap::Upwards,
        )),
        FindOrdering::ValMatchesTarget => true,
    }
}

/// The comparison never fails, and keeps a value that does not match only on the
/// side that the target snaps to. Its outcome is the [`snapped_outcome`] of the
/// target's place in the order, for every type whose order has a specification.
impl<T: PartialOrd, E> FindOrd<T, E> for SnappingTarget<T> {
    open spec fn compares(&self, t: &T, r: Result<FindOrdering, E>) -> bool {
        &&& r matches Ok(o)
        &&& keeps_towards(o, self.snap)
        &&& T::obeys_partial_cmp_spec() ==> o == snapped_outcome(
            self.value.partial_cmp_spec(t),
            self.snap,
        )
    }

    fn cmp(&self, t: &T) -> (r: Result<FindOrdering, E>) {
        Ok(
            if self.value.lt(t) {
                FindOrdering::ValAboveTarget {
                    is_valid_res: matches!(self.snap, Some(Snap::Upwards)),
                }
            } else if self.value.gt(t) {
                FindOrdering::ValBelowTarget {
                    is_valid_res: matches!(self.snap, Some(Snap::Downwards)),
                }
            } else {
                FindOrdering::ValMatchesTarget
            },
        )
    }
}

/// A target for `value` that snaps in the given direction.
pub fn with_snap<T>(value: T, snap: Snap) -> (target: SnappingTarget<T>)
    ensures
        target == (SnappingTarget { value, snap: Some(snap) }),
{
    SnappingTarget { value, snap: Some(snap) }
}

} // verus!
