use vstd::prelude::*;
use crate::find::{
    find, find_yields, lemma_bisects_bounds, lemma_bisects_failure, lookup_outcomes, probe_fails,
    probe_gives, searchable, target_outcomes, Element, FindOrd, FindOrdering, FindResult,
};

verus! {

/// The target that a pair of boundary targets spans: a value is above it where
/// the upper target finds it above, below it where the lower target finds it
/// below, and matches otherwise. It never keeps a value that does not match.
pub struct FindOrdRange<'a, L: ?Sized, U: ?Sized> {
    pub lower: &'a L,
    pub upper: &'a U,
}

/// What the spanned target reports where the upper target reports `u` and the
/// lower target `l`: above where the upper target says so, else below where the
/// lower target says so, else a match. What the two targets said of keeping the
/// value is dropped. A failure of the upper target comes first.
pub open spec fn spanned_outcome<E>(
    u: Result<FindOrdering, E>,
    l: Result<FindOrdering, E>,
) -> Result<FindOrdering, E> {
    match u {
        Err(e) => Err(e),
        Ok(FindOrdering::ValAboveTarget { .. }) => Ok(
            FindOrdering::ValAboveTarget { is_valid_res: false },
        ),
        Ok(_) => match l {
            Err(e) => Err(e),
            Ok(FindOrdering::ValBelowTarget { .. }) => Ok(
                FindOrdering::ValBelowTarget { is_valid_res: false },
            ),
            Ok(_) => Ok(FindOrdering::ValMatchesTarget),
        },
    }
}

/// Whether the lower target is asked at all once the upper target has reported
/// `u`: not where the upper target failed or found the value above it.
pub open spec fn asks_lower<E>(u: Result<FindOrdering, E>) -> bool {
    u is Ok && !(u matches Ok(FindOrdering::ValAboveTarget { .. }))
}

/// Whether comparing `t` against the target spanned by `lower` and `upper` may
/// report `r` where the upper target reports `u` and the lower target, if it is
/// asked, reports `l`.
pub open spec fn spans<T, E, L: FindOrd<T, E> + ?Sized, U: FindOrd<T, E> + ?Sized>(
    lower: &L,
    upper: &U,
    t: &T,
    u: Result<FindOrdering, E>,
    l: Result<FindOrdering, E>,
    r: Result<FindOrdering, E>,
) -> bool {
    &&& upper.compares(t, u)
    &&& asks_lower(u) ==> lower.compares(t, l)
    &&& r == spanned_outcome(u, l)
}

impl<'a, T, E, L: FindOrd<T, E> + ?Sized, U: FindOrd<T, E> + ?Sized> FindOrd<T, E> for FindOrdRange<'a, L, U> {
    open spec fn compares(&self, t: &T, r: Result<FindOrdering, E>) -> bool {
        exists|u: Result<FindOrdering, E>, l: Result<FindOrdering, E>| #[trigger]
            spans(self.lower, self.upper, t, u, l, r)
    }

    fn cmp(&self, t: &T) -> (r: Result<FindOrdering, E>)
        ensures
            r matches Ok(FindOrdering::ValBelowTarget { is_valid_res }) ==> !is_valid_res,
            r matches Ok(FindOrdering::ValAboveTarget { is_valid_res }) ==> !is_valid_res,
    {
        let u = self.upper.cmp(t);
        let ghost upper_out = u;
        match u {
            Err(e) => {
                assert(spans(self.lower, self.upper, t, upper_out, upper_out, Err::<FindOrdering, E>(e)));
                Err(e)
            },
            Ok(FindOrdering::ValAboveTarget { .. }) => {
                let r = Ok(FindOrdering::ValAboveTarget { is_valid_res: false });
                assert(spans(self.lower, self.upper, t, upper_out, upper_out, r));
                r
            },
            Ok(_) => {
                let l = self.lower.cmp(t);
                let ghost lower_out = l;
                let r = match l {
                    Err(e) => Err(e),
                    Ok(FindOrdering::ValBelowTarget { .. }) => Ok(
                        FindOrdering::ValBelowTarget { is_valid_res: false },
                    ),
                    Ok(_) => Ok(FindOrdering::ValMatchesTarget),
                };
                assert(spans(self.lower, self.upper, t, upper_out, lower_out, r));
                r
            },
        }
    }
}

/// Where the search for the lower boundary starts: one index below the bounds
/// that the search for any element in the range ended with, but not below the
/// caller's floor.
pub open spec fn lower_search_start<T>(hit: FindResult<T>, lower_idx: i64) -> i64 {
    if hit.last_lower_idx > lower_idx {
        (hit.last_lower_idx - 1) as i64
    } else {
        lower_idx
    }
}

/// Where the search for the lower boundary ends: at the element found in the
/// range, or at the upper of the bounds that bracket where it would be.
pub open spec fn lower_search_end<T>(hit: FindResult<T>) -> i64 {
    match hit.element {
        Some(el) => el.idx,
        None => hit.last_upper_idx,
    }
}

/// Where the search for the upper boundary starts: at the element found in the
/// range, or at the lower of the bounds that bracket where it would be.
pub open spec fn upper_search_start<T>(hit: FindResult<T>) -> i64 {
    match hit.element {
        Some(el) => el.idx,
        None => hit.last_lower_idx,
    }
}

/// Where the search for the upper boundary ends: one index above the bounds that
/// the search for any element in the range ended with, but not above the
/// caller's ceiling.
pub open spec fn upper_search_end<T>(hit: FindResult<T>, upper_idx: i64) -> i64 {
    if hit.last_upper_idx < upper_idx {
        (hit.last_upper_idx + 1) as i64
    } else {
        upper_idx
    }
}

/// Whether a range search of `lower_idx..=upper_idx` may end in `out` where its
/// three searches end in `first`, `l` and `u`.
///
/// The search for the spanned target comes first. The search for the lower
/// boundary follows where the first did not fail, and the search for the upper
/// boundary where the second did not. The first failure among them is the
/// failure of the range search; without one, it ends in the elements that the
/// second and the third search settled on.
pub open spec fn range_searches<T, E, F: Fn(i64) -> Result<T, E>, L: FindOrd<T, E> + ?Sized, U: FindOrd<T, E> + ?Sized>(
    lookup: &F,
    lower_target: &L,
    upper_target: &U,
    lower_idx: i64,
    upper_idx: i64,
    first: Result<FindResult<T>, E>,
    l: Result<FindResult<T>, E>,
    u: Result<FindResult<T>, E>,
    out: Result<(Option<Element<T>>, Option<Element<T>>), E>,
) -> bool {
    &&& find_yields(
        lookup,
        &(FindOrdRange { lower: lower_target, upper: upper_target }),
        lower_idx,
        upper_idx,
        None,
        first,
    )
    &&& match first {
        Err(e) => out == Err::<(Option<Element<T>>, Option<Element<T>>), E>(e),
        Ok(hit) => {
            &&& find_yields(
                lookup,
                lower_target,
                lower_search_start(hit, lower_idx),
                lower_search_end(hit),
                None,
                l,
            )
            &&& match l {
                Err(e) => out == Err::<(Option<Element<T>>, Option<Element<T>>), E>(e),
                Ok(lower_res) => {
                    &&& find_yields(
                        lookup,
                        upper_target,
                        upper_search_start(hit),
                        upper_search_end(hit, upper_idx),
                        None,
                        u,
                    )
                    &&& match u {
                        Err(e) => out == Err::<(Option<Element<T>>, Option<Element<T>>), E>(e),
                        Ok(upper_res) => out == Ok::<(Option<Element<T>>, Option<Element<T>>), E>(
                            (lower_res.element, upper_res.element),
                        ),
                    }
                },
            }
        },
    }
}

/// Whether a range search of `lower_idx..=upper_idx` may end in `out`.
pub open spec fn find_range_yields<T, E, F: Fn(i64) -> Result<T, E>, L: FindOrd<T, E> + ?Sized, U: FindOrd<T, E> + ?Sized>(
    lookup: &F,
    lower_target: &L,
    upper_target: &U,
    lower_idx: i64,
    upper_idx: i64,
    out: Result<(Option<Element<T>>, Option<Element<T>>), E>,
) -> bool {
    exists|first: Result<FindResult<T>, E>, l: Result<FindResult<T>, E>, u: Result<FindResult<T>, E>| #[trigger]
        range_searches(
            lookup,
            lower_target,
            upper_target,
            lower_idx,
            upper_idx,
            first,
            l,
            u,
            out,
        )
}

/// Whether a probe of index `i` in a range search may fail with `e`: in the
/// lookup, or in comparing a value that the lookup gave against the lower or the
/// upper target.
pub open spec fn range_probe_fails<T, E, F: Fn(i64) -> Result<T, E>, L: FindOrd<T, E> + ?Sized, U: FindOrd<T, E> + ?Sized>(
    lookup: &F,
    lower_target: &L,
    upper_target: &U,
    i: i64,
    e: E,
) -> bool {
    ||| probe_fails(lookup_outcomes(lookup), target_outcomes(lower_target), i, e)
    ||| probe_fails(lookup_outcomes(lookup), target_outcomes(upper_target), i, e)
}

/// Whether a range search of `lower_idx..=upper_idx` may fail with `e`: a probe
/// of an index in that range may.
pub open spec fn range_fails_within<T, E, F: Fn(i64) -> Result<T, E>, L: FindOrd<T, E> + ?Sized, U: FindOrd<T, E> + ?Sized>(
    lookup: &F,
    lower_target: &L,
    upper_target: &U,
    lower_idx: i64,
    upper_idx: i64,
    e: E,
) -> bool {
    exists|i: i64|
        lower_idx <= i <= upper_idx && #[trigger] range_probe_fails(
            lookup,
            lower_target,
            upper_target,
            i,
            e,
        )
}

/// Whether the element `found` at a boundary, if there is one, comes from a
/// probe of an index in `lower_idx..=upper_idx` against the boundary's target.
pub open spec fn boundary_within<T, E, F: Fn(i64) -> Result<T, E>, P: FindOrd<T, E> + ?Sized>(
    lookup: &F,
    target: &P,
    lower_idx: i64,
    upper_idx: i64,
    found: Option<Element<T>>,
) -> bool {
    found matches Some(el) ==> lower_idx <= el.idx <= upper_idx && probe_gives(
        lookup_outcomes(lookup),
        target_outcomes(target),
        el,
    )
}

/// A probe fails against the spanned target only where it fails against the
/// lower or the upper target.
pub proof fn lemma_spanned_failure<T, E, F: Fn(i64) -> Result<T, E>, L: FindOrd<T, E> + ?Sized, U: FindOrd<T, E> + ?Sized>(
    lookup: &F,
    lower_target: &L,
    upper_target: &U,
    i: i64,
    e: E,
)
    requires
        probe_fails(
            lookup_outcomes(lookup),
            target_outcomes(&(FindOrdRange { lower: lower_target, upper: upper_target })),
            i,
            e,
        ),
    ensures
        range_probe_fails(lookup, lower_target, upper_target, i, e),
{
    let looks = lookup_outcomes(lookup);
    let spanned = FindOrdRange { lower: lower_target, upper: upper_target };
    let failed = Err::<FindOrdering, E>(e);
    if !looks(i, Err::<T, E>(e)) {
        let val = choose|val: T| #[trigger]
            looks(i, Ok::<T, E>(val)) && target_outcomes(&spanned)(val, failed);
        assert(spanned.compares(&val, failed));
        let (u, l) = choose|u: Result<FindOrdering, E>, l: Result<FindOrdering, E>| #[trigger]
            spans(lower_target, upper_target, &val, u, l, failed);
        if u is Err {
            assert(target_outcomes(upper_target)(val, failed));
        } else {
            assert(target_outcomes(lower_target)(val, failed));
        }
    }
}

/// A range search fails only with a failure that a probe of an index in its
/// range had: the failure of the lookup, or of the comparison against one of the
/// two targets, handed on as it is.
pub proof fn law_range_failure_comes_from_a_probe<T, E, F: Fn(i64) -> Result<T, E>, L: FindOrd<T, E> + ?Sized, U: FindOrd<T, E> + ?Sized>(
    lookup: &F,
    lower_target: &L,
    upper_target: &U,
    lower_idx: i64,
    upper_idx: i64,
    e: E,
)
    requires
        searchable(lower_idx, upper_idx),
        find_range_yields(
            lookup,
            lower_target,
            upper_target,
            lower_idx,
            upper_idx,
            Err::<(Option<Element<T>>, Option<Element<T>>), E>(e),
        ),
    ensures
        range_fails_within(lookup, lower_target, upper_target, lower_idx, upper_idx, e),
{
    let looks = lookup_outcomes(lookup);
    let spanned = FindOrdRange { lower: lower_target, upper: upper_target };
    let out = Err::<(Option<Element<T>>, Option<Element<T>>), E>(e);
    let (first, l, u) = choose|
        first: Result<FindResult<T>, E>,
        l: Result<FindResult<T>, E>,
        u: Result<FindResult<T>, E>,
    | #[trigger]
        range_searches(lookup, lower_target, upper_target, lower_idx, upper_idx, first, l, u, out);
    match first {
        Err(_) => {
            lemma_bisects_failure(
                looks,
                target_outcomes(&spanned),
                lower_idx as int,
                upper_idx as int,
                None,
                e,
            );
            let i = choose|i: i64|
                lower_idx <= i <= upper_idx && #[trigger] probe_fails(
                    looks,
                    target_outcomes(&spanned),
                    i,
                    e,
                );
            lemma_spanned_failure(lookup, lower_target, upper_target, i, e);
        },
        Ok(hit) => {
            lemma_bisects_bounds(
                looks,
                target_outcomes(&spanned),
                lower_idx as int,
                upper_idx as int,
                None,
                hit,
            );
            match l {
                Err(_) => {
                    let start = lower_search_start(hit, lower_idx);
                    let end = lower_search_end(hit);
                    lemma_bisects_failure(
                        looks,
                        target_outcomes(lower_target),
                        start as int,
                        end as int,
                        None,
                        e,
                    );
                    let i = choose|i: i64|
                        start <= i <= end && #[trigger] probe_fails(
                            looks,
                            target_outcomes(lower_target),
                            i,
                            e,
                        );
                    assert(lower_idx <= i <= upper_idx && range_probe_fails(
                        lookup,
                        lower_target,
                        upper_target,
                        i,
                        e,
                    ));
                },
                Ok(_) => {
                    let start = upper_search_start(hit);
                    let end = upper_search_end(hit, upper_idx);
                    lemma_bisects_failure(
                        looks,
                        target_outcomes(upper_target),
                        start as int,
                        end as int,
                        None,
                        e,
                    );
                    let i = choose|i: i64|
                        start <= i <= end && #[trigger] probe_fails(
                            looks,
                            target_outcomes(upper_target),
                            i,
                            e,
                        );
                    assert(lower_idx <= i <= upper_idx && range_probe_fails(
                        lookup,
                        lower_target,
                        upper_target,
                        i,
                        e,
                    ));
                },
            }
        },
    }
}

/// Finds the elements at the lower and at the upper boundary of a range, each
/// with its own target, within `lower_idx..=upper_idx`. An empty range holds
/// neither, and nothing is looked up in it.
pub fn find_range<T, E>(
    lookup: &impl Fn(i64) -> Result<T, E>,
    lower_target: &(impl FindOrd<T, E> + ?Sized),
    upper_target: &(impl FindOrd<T, E> + ?Sized),
    lower_idx: i64,
    upper_idx: i64,
) -> (r: Result<(Option<Element<T>>, Option<Element<T>>), E>)
    requires
        searchable(lower_idx, upper_idx),
        forall|i: i64| lower_idx <= i <= upper_idx ==> lookup.requires((i,)),
    ensures
        find_range_yields(lookup, lower_target, upper_target, lower_idx, upper_idx, r),
        lower_idx > upper_idx ==> r == Ok::<(Option<Element<T>>, Option<Element<T>>), E>(
            (None, None),
        ),
        r matches Ok(found) ==> {
            &&& boundary_within(lookup, lower_target, lower_idx, upper_idx, found.0)
            &&& boundary_within(lookup, upper_target, lower_idx, upper_idx, found.1)
        },
        r matches Err(e) ==> range_fails_within(
            lookup,
            lower_target,
            upper_target,
            lower_idx,
            upper_idx,
            e,
        ),
{
    let spanned = FindOrdRange { lower: lower_target, upper: upper_target };
    let first = find(lookup, &spanned, lower_idx, upper_idx);
    let ghost first_out = first;
    let hit = match first {
        Ok(hit) => hit,
        Err(e) => {
            assert(range_searches(
                lookup,
                lower_target,
                upper_target,
                lower_idx,
                upper_idx,
                first_out,
                first_out,
                first_out,
                Err::<(Option<Element<T>>, Option<Element<T>>), E>(e),
            ));
            proof {
                law_range_failure_comes_from_a_probe(
                    lookup,
                    lower_target,
                    upper_target,
                    lower_idx,
                    upper_idx,
                    e,
                );
            }
            return Err(e);
        },
    };
    let lower_start = if hit.last_lower_idx > lower_idx {
        hit.last_lower_idx - 1
    } else {
        lower_idx
    };
    let upper_end = if hit.last_upper_idx < upper_idx {
        hit.last_upper_idx + 1
    } else {
        upper_idx
    };
    let (lower_end, upper_start) = match hit.element {
        None => (hit.last_upper_idx, hit.last_lower_idx),
        Some(Element { idx, .. }) => (idx, idx),
    };
    let lower_found = find(lookup, lower_target, lower_start, lower_end);
    let ghost lower_out = lower_found;
    let lower_res = match lower_found {
        Ok(res) => res,
        Err(e) => {
            assert(range_searches(
                lookup,
                lower_target,
                upper_target,
                lower_idx,
                upper_idx,
                first_out,
                lower_out,
                lower_out,
                Err::<(Option<Element<T>>, Option<Element<T>>), E>(e),
            ));
            proof {
                law_range_failure_comes_from_a_probe(
                    lookup,
                    lower_target,
                    upper_target,
                    lower_idx,
                    upper_idx,
                    e,
                );
            }
            return Err(e);
        },
    };
    let upper_found = find(lookup, upper_target, upper_start, upper_end);
    let ghost upper_out = upper_found;
    let upper_res = match upper_found {
        Ok(res) => res,
        Err(e) => {
            assert(range_searches(
                lookup,
                lower_target,
                upper_target,
                lower_idx,
                upper_idx,
                first_out,
                lower_out,
                upper_out,
                Err::<(Option<Element<T>>, Option<Element<T>>), E>(e),
            ));
            proof {
                law_range_failure_comes_from_a_probe(
                    lookup,
                    lower_target,
                    upper_target,
                    lower_idx,
                    upper_idx,
                    e,
                );
            }
            return Err(e);
        },
    };
    let found = (lower_res.element, upper_res.element);
    assert(range_searches(
        lookup,
        lower_target,
        upper_target,
        lower_idx,
        upper_idx,
        first_out,
        lower_out,
        upper_out,
        Ok::<(Option<Element<T>>, Option<Element<T>>), E>(found),
    ));
    Ok(found)
}

} // verus!
