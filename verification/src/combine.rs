use vstd::prelude::*;
use crate::find::{FindOrd, FindOrdering};

verus! {

/// Whether each of the first `outs.len()` targets may report the outcome that
/// `outs` holds in its place when comparing `t`.
pub open spec fn children_report<T, E>(
    combined: Seq<Box<dyn FindOrd<T, E>>>,
    t: &T,
    outs: Seq<FindOrdering>,
) -> bool {
    &&& outs.len() <= combined.len()
    &&& forall|i: int|
        0 <= i < outs.len() ==> #[trigger] combined[i].compares(t, Ok::<FindOrdering, E>(outs[i]))
}

/// Whether a combined comparison may end in `r` after the first of its targets
/// reported `outs`, one by one and in order: with `verdict` where all of them
/// have reported, and else with a failure of the target that comes next.
pub open spec fn combination_yields<T, E>(
    combined: Seq<Box<dyn FindOrd<T, E>>>,
    t: &T,
    outs: Seq<FindOrdering>,
    verdict: FindOrdering,
    r: Result<FindOrdering, E>,
) -> bool {
    &&& children_report(combined, t, outs)
    &&& if outs.len() == combined.len() {
        r == Ok::<FindOrdering, E>(verdict)
    } else {
        r is Err && combined[outs.len() as int].compares(t, r)
    }
}

/// Whether every outcome places the value below its target.
pub open spec fn all_below(outs: Seq<FindOrdering>) -> bool {
    forall|i: int| 0 <= i < outs.len() ==> #[trigger] outs[i] is ValBelowTarget
}

/// Whether every outcome places the value above its target.
pub open spec fn all_above(outs: Seq<FindOrdering>) -> bool {
    forall|i: int| 0 <= i < outs.len() ==> #[trigger] outs[i] is ValAboveTarget
}

/// Whether some outcome places the value below its target.
pub open spec fn any_below(outs: Seq<FindOrdering>) -> bool {
    exists|i: int| 0 <= i < outs.len() && #[trigger] outs[i] is ValBelowTarget
}

/// Whether some outcome places the value above its target.
pub open spec fn any_above(outs: Seq<FindOrdering>) -> bool {
    exists|i: int| 0 <= i < outs.len() && #[trigger] outs[i] is ValAboveTarget
}

/// The outcome against the lowermost of the targets: below where the value is
/// below all of them, above where it is above any, a match otherwise. What the
/// targets said of keeping the value is dropped for the combination's own flags.
pub open spec fn lower_verdict(
    outs: Seq<FindOrdering>,
    snap_downwards: bool,
    snap_upwards: bool,
) -> FindOrdering {
    if all_below(outs) {
        FindOrdering::ValBelowTarget { is_valid_res: snap_downwards }
    } else if any_above(outs) {
        FindOrdering::ValAboveTarget { is_valid_res: snap_upwards }
    } else {
        FindOrdering::ValMatchesTarget
    }
}

/// The outcome against the uppermost of the targets: above where the value is
/// above all of them, below where it is below any, a match otherwise. What the
/// targets said of keeping the value is dropped for the combination's own flags.
pub open spec fn upper_verdict(
    outs: Seq<FindOrdering>,
    snap_downwards: bool,
    snap_upwards: bool,
) -> FindOrdering {
    if all_above(outs) {
        FindOrdering::ValAboveTarget { is_valid_res: snap_upwards }
    } else if any_below(outs) {
        FindOrdering::ValBelowTarget { is_valid_res: snap_downwards }
    } else {
        FindOrdering::ValMatchesTarget
    }
}

/// A target that compares a value against the lowermost of a list of targets.
///
/// As a lower limit it is the disjunction of its targets, as an upper limit
/// their conjunction.
#[verifier::reject_recursive_types(T)]
#[verifier::reject_recursive_types(E)]
pub struct FindOrdCombineLower<T, E> {
    pub combined: Vec<Box<dyn FindOrd<T, E>>>,
    pub snap_downwards: bool,
    pub snap_upwards: bool,
}

impl<T, E> FindOrd<T, E> for FindOrdCombineLower<T, E> {
    open spec fn compares(&self, t: &T, r: Result<FindOrdering, E>) -> bool {
        exists|outs: Seq<FindOrdering>| #[trigger]
            combination_yields(
                self.combined@,
                t,
                outs,
                lower_verdict(outs, self.snap_downwards, self.snap_upwards),
                r,
            )
    }

    fn cmp(&self, t: &T) -> (r: Result<FindOrdering, E>)
        ensures
            self.combined@.len() == 0 ==> r == Ok::<FindOrdering, E>(
                FindOrdering::ValBelowTarget { is_valid_res: self.snap_downwards },
            ),
            r matches Ok(FindOrdering::ValBelowTarget { is_valid_res }) ==> is_valid_res
                == self.snap_downwards,
            r matches Ok(FindOrdering::ValAboveTarget { is_valid_res }) ==> is_valid_res
                == self.snap_upwards,
    {
        let mut val_below_all_targets = true;
        let mut val_above_any_target = false;
        let ghost mut outs: Seq<FindOrdering> = Seq::empty();
        let mut i: usize = 0;
        while i < self.combined.len()
            invariant
                i <= self.combined.len(),
                outs.len() == i,
                children_report(self.combined@, t, outs),
                val_below_all_targets == all_below(outs),
                val_above_any_target == any_above(outs),
            decreases self.combined.len() - i,
        {
            let ghost before = outs;
            match self.combined[i].cmp(t) {
                Err(e) => {
                    proof {
                        assert(combination_yields(
                            self.combined@,
                            t,
                            outs,
                            lower_verdict(outs, self.snap_downwards, self.snap_upwards),
                            Err::<FindOrdering, E>(e),
                        ));
                    }
                    return Err(e);
                },
                Ok(o) => {
                    proof {
                        outs = before.push(o);
                        assert(forall|j: int| 0 <= j < before.len() ==> outs[j] == before[j]);
                        assert(outs[outs.len() - 1] == o);
                    }
                    match o {
                        FindOrdering::ValBelowTarget { .. } => {},
                        FindOrdering::ValAboveTarget { .. } => {
                            val_below_all_targets = false;
                            val_above_any_target = true;
                        },
                        FindOrdering::ValMatchesTarget => {
                            val_below_all_targets = false;
                        },
                    }
                    proof {
                        if any_above(before) {
                            let j = choose|j: int| 0 <= j < before.len() && #[trigger] before[j] is ValAboveTarget;
                            assert(outs[j] is ValAboveTarget);
                        }
                        if any_above(outs) && !(o is ValAboveTarget) {
                            let j = choose|j: int| 0 <= j < outs.len() && #[trigger] outs[j] is ValAboveTarget;
                            assert(before[j] is ValAboveTarget);
                        }
                        if all_below(outs) {
                            assert forall|j: int| 0 <= j < before.len() implies #[trigger] before[j] is ValBelowTarget by {
                                assert(outs[j] is ValBelowTarget);
                            }
                        }
                    }
                },
            }
            i += 1;
        }
        proof {
            assert(combination_yields(
                self.combined@,
                t,
                outs,
                lower_verdict(outs, self.snap_downwards, self.snap_upwards),
                Ok::<FindOrdering, E>(lower_verdict(outs, self.snap_downwards, self.snap_upwards)),
            ));
        }
        Ok(
            if val_below_all_targets {
                FindOrdering::ValBelowTarget { is_valid_res: self.snap_downwards }
            } else if val_above_any_target {
                FindOrdering::ValAboveTarget { is_valid_res: self.snap_upwards }
            } else {
                FindOrdering::ValMatchesTarget
            },
        )
    }
}

/// A target that compares a value against the uppermost of a list of targets.
///
/// As a lower limit it is the conjunction of its targets, as an upper limit
/// their disjunction.
#[verifier::reject_recursive_types(T)]
#[verifier::reject_recursive_types(E)]
pub struct FindOrdCombineUpper<T, E> {
    pub combined: Vec<Box<dyn FindOrd<T, E>>>,
    pub snap_downwards: bool,
    pub snap_upwards: bool,
}

impl<T, E> FindOrd<T, E> for FindOrdCombineUpper<T, E> {
    open spec fn compares(&self, t: &T, r: Result<FindOrdering, E>) -> bool {
        exists|outs: Seq<FindOrdering>| #[trigger]
            combination_yields(
                self.combined@,
                t,
                outs,
                upper_verdict(outs, self.snap_downwards, self.snap_upwards),
                r,
            )
    }

    fn cmp(&self, t: &T) -> (r: Result<FindOrdering, E>)
        ensures
            self.combined@.len() == 0 ==> r == Ok::<FindOrdering, E>(
                FindOrdering::ValAboveTarget { is_valid_res: self.snap_upwards },
            ),
            r matches Ok(FindOrdering::ValBelowTarget { is_valid_res }) ==> is_valid_res
                == self.snap_downwards,
            r matches Ok(FindOrdering::ValAboveTarget { is_valid_res }) ==> is_valid_res
                == self.snap_upwards,
    {
        let mut val_below_any_target = false;
        let mut val_above_all_targets = true;
        let ghost mut outs: Seq<FindOrdering> = Seq::empty();
        let mut i: usize = 0;
        while i < self.combined.len()
            invariant
                i <= self.combined.len(),
                outs.len() == i,
                children_report(self.combined@, t, outs),
                val_below_any_target == any_below(outs),
                val_above_all_targets == all_above(outs),
            decreases self.combined.len() - i,
        {
            let ghost before = outs;
            match self.combined[i].cmp(t) {
                Err(e) => {
                    proof {
                        assert(combination_yields(
                            self.combined@,
                            t,
                            outs,
                            upper_verdict(outs, self.snap_downwards, self.snap_upwards),
                            Err::<FindOrdering, E>(e),
                        ));
                    }
                    return Err(e);
                },
                Ok(o) => {
                    proof {
                        outs = before.push(o);
                        assert(forall|j: int| 0 <= j < before.len() ==> outs[j] == before[j]);
                        assert(outs[outs.len() - 1] == o);
                    }
                    match o {
                        FindOrdering::ValBelowTarget { .. } => {
                            val_below_any_target = true;
                            val_above_all_targets = false;
                        },
                        FindOrdering::ValAboveTarget { .. } => {},
                        FindOrdering::ValMatchesTarget => {
                            val_above_all_targets = false;
                        },
                    }
                    proof {
                        if any_below(before) {
                            let j = choose|j: int| 0 <= j < before.len() && #[trigger] before[j] is ValBelowTarget;
                            assert(outs[j] is ValBelowTarget);
                        }
                        if any_below(outs) && !(o is ValBelowTarget) {
                            let j = choose|j: int| 0 <= j < outs.len() && #[trigger] outs[j] is ValBelowTarget;
                            assert(before[j] is ValBelowTarget);
                        }
                        if all_above(outs) {
                            assert forall|j: int| 0 <= j < before.len() implies #[trigger] before[j] is ValAboveTarget by {
                                assert(outs[j] is ValAboveTarget);
                            }
                        }
                    }
                },
            }
            i += 1;
        }
        proof {
            assert(combination_yields(
                self.combined@,
                t,
                outs,
                upper_verdict(outs, self.snap_downwards, self.snap_upwards),
                Ok::<FindOrdering, E>(upper_verdict(outs, self.snap_downwards, self.snap_upwards)),
            ));
        }
        Ok(
            if val_above_all_targets {
                FindOrdering::ValAboveTarget { is_valid_res: self.snap_upwards }
            } else if val_below_any_target {
                FindOrdering::ValBelowTarget { is_valid_res: self.snap_downwards }
            } else {
                FindOrdering::ValMatchesTarget
            },
        )
    }
}

/// Whether each of the targets always reports the outcome that `outs` holds in
/// its place when comparing `t`, and never fails.
pub open spec fn children_settled<T, E>(
    combined: Seq<Box<dyn FindOrd<T, E>>>,
    t: &T,
    outs: Seq<FindOrdering>,
) -> bool {
    &&& outs.len() == combined.len()
    &&& forall|i: int, c: Result<FindOrdering, E>|
        0 <= i < combined.len() && #[trigger] combined[i].compares(t, c) ==> c == Ok::<
            FindOrdering,
            E,
        >(outs[i])
}

/// A combined comparison over targets that each always report one outcome
/// reports `verdict` of these outcomes, whatever outcomes it is said to have
/// gone through.
proof fn lemma_combination_settled<T, E>(
    combined: Seq<Box<dyn FindOrd<T, E>>>,
    t: &T,
    outs: Seq<FindOrdering>,
    seen: Seq<FindOrdering>,
    verdict: FindOrdering,
    r: Result<FindOrdering, E>,
)
    requires
        children_settled(combined, t, outs),
        combination_yields(combined, t, seen, verdict, r),
    ensures
        seen == outs,
        r == Ok::<FindOrdering, E>(verdict),
{
    if seen.len() < combined.len() {
        assert(combined[seen.len() as int].compares(t, r));
    }
    assert forall|i: int| 0 <= i < seen.len() implies seen[i] == outs[i] by {
        assert(combined[i].compares(t, Ok::<FindOrdering, E>(seen[i])));
    }
    assert(seen =~= outs);
}

/// Where each of its targets always reports one outcome, the combination
/// against the lowermost target reports below if all of them do, above if any
/// of them does, and a match otherwise, with its own flags for keeping the value.
pub proof fn law_lower_combines_settled<T, E>(
    target: &FindOrdCombineLower<T, E>,
    t: &T,
    outs: Seq<FindOrdering>,
    r: Result<FindOrdering, E>,
)
    requires
        children_settled(target.combined@, t, outs),
        target.compares(t, r),
    ensures
        r == Ok::<FindOrdering, E>(
            lower_verdict(outs, target.snap_downwards, target.snap_upwards),
        ),
{
    let seen = choose|seen: Seq<FindOrdering>| #[trigger]
        combination_yields(
            target.combined@,
            t,
            seen,
            lower_verdict(seen, target.snap_downwards, target.snap_upwards),
            r,
        );
    lemma_combination_settled(
        target.combined@,
        t,
        outs,
        seen,
        lower_verdict(seen, target.snap_downwards, target.snap_upwards),
        r,
    );
}

/// Where each of its targets always reports one outcome, the combination
/// against the uppermost target reports above if all of them do, below if any
/// of them does, and a match otherwise, with its own flags for keeping the value.
pub proof fn law_upper_combines_settled<T, E>(
    target: &FindOrdCombineUpper<T, E>,
    t: &T,
    outs: Seq<FindOrdering>,
    r: Result<FindOrdering, E>,
)
    requires
        children_settled(target.combined@, t, outs),
        target.compares(t, r),
    ensures
        r == Ok::<FindOrdering, E>(
            upper_verdict(outs, target.snap_downwards, target.snap_upwards),
        ),
{
    let seen = choose|seen: Seq<FindOrdering>| #[trigger]
        combination_yields(
            target.combined@,
            t,
            seen,
            upper_verdict(seen, target.snap_downwards, target.snap_upwards),
            r,
        );
    lemma_combination_settled(
        target.combined@,
        t,
        outs,
        seen,
        upper_verdict(seen, target.snap_downwards, target.snap_upwards),
        r,
    );
}

/// A combined comparison fails only with a failure of one of its targets.
pub proof fn law_combination_failure_comes_from_a_target<T, E>(
    combined: Seq<Box<dyn FindOrd<T, E>>>,
    t: &T,
    outs: Seq<FindOrdering>,
    verdict: FindOrdering,
    r: Result<FindOrdering, E>,
)
    requires
        combination_yields(combined, t, outs, verdict, r),
        r is Err,
    ensures
        exists|i: int| 0 <= i < combined.len() && #[trigger] combined[i].compares(t, r),
{
    assert(combined[outs.len() as int].compares(t, r));
}

} // verus!
