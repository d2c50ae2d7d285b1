use vstd::prelude::*;
use vstd::std_specs::cmp::PartialOrdSpec;

verus! {

/// The side of an absent target on which the nearest element may stand in for it.
#[derive(Clone)]
pub enum Snap {
    Downwards,
    Upwards,
}

/// How a probed value relates to the target it was compared against.
pub enum FindOrdering {
    /// The target is greater than the value.
    ValBelowTarget {
        /// Whether the value may be kept as a preliminary result.
        is_valid_res: bool,
    },
    /// The target is less than the value.
    ValAboveTarget {
        /// Whether the value may be kept as a preliminary result.
        is_valid_res: bool,
    },
    /// The value is neither below nor above the target.
    ValMatchesTarget,
}

/// A target that values of type `T` can be compared against.
pub trait FindOrd<T, E> {
    /// Whether `r` is an outcome that comparing `t` against the target may have.
    /// A comparison that always gives the same outcome admits exactly one `r`;
    /// one that says nothing of its outcomes admits them all.
    open spec fn compares(&self, t: &T, r: Result<FindOrdering, E>) -> bool {
        true
    }

    /// Places `t` below, above or at the target.
    fn cmp(&self, t: &T) -> (r: Result<FindOrdering, E>)
        ensures
            self.compares(t, r),
    ;
}

/// The outcome of comparing a value against a plain target of its own type: the
/// value's place in its partial order, never kept unless it matches. Values that
/// the order does not relate count as matching.
pub open spec fn plain_outcome(place: Option<core::cmp::Ordering>) -> FindOrdering {
    match place {
        Some(core::cmp::Ordering::Less) => FindOrdering::ValAboveTarget { is_valid_res: false },
        Some(core::cmp::Ordering::Greater) => FindOrdering::ValBelowTarget { is_valid_res: false },
        _ => FindOrdering::ValMatchesTarget,
    }
}

/// Whether a value with this outcome may be kept: it matches, or is called valid.
pub open spec fn keeps(o: FindOrdering) -> bool {
    match o {
        FindOrdering::ValBelowTarget { is_valid_res } => is_valid_res,
        FindOrdering::ValAboveTarget { is_valid_res } => is_valid_res,
        FindOrdering::ValMatchesTarget => true,
    }
}

/// Every partially ordered value is a target for values of its own type. The
/// comparison never fails and keeps no value that does not match. Its outcome is
/// the [`plain_outcome`] of the value's place in the order, for every type whose
/// order has a specification.
impl<T: PartialOrd<T>, E> FindOrd<T, E> for T {
    open spec fn compares(&self, t: &T, r: Result<FindOrdering, E>) -> bool {
        &&& r matches Ok(o)
        &&& keeps(o) ==> o == FindOrdering::ValMatchesTarget
        &&& T::obeys_partial_cmp_spec() ==> o == plain_outcome(self.partial_cmp_spec(t))
    }

    fn cmp(&self, t: &T) -> (r: Result<FindOrdering, E>) {
        Ok(
            match self.partial_cmp(t) {
                Some(core::cmp::Ordering::Less) => FindOrdering::ValAboveTarget {
                    is_valid_res: false,
                },
                Some(core::cmp::Ordering::Greater) => FindOrdering::ValBelowTarget {
                    is_valid_res: false,
                },
                _ => FindOrdering::ValMatchesTarget,
            },
        )
    }
}

/// A value together with the index it was found at.
#[derive(Debug)]
pub struct Element<T> {
    pub val: T,
    pub idx: i64,
}

/// What a search ends with: the element it settled on, if any, and the bounds it
/// had narrowed the range to. Without a match the bounds have crossed, and lie on
/// the two sides of the gap where a matching value would be.
#[derive(Debug)]
pub struct FindResult<T> {
    /// The matching element, or the last value that was kept in its place.
    pub element: Option<Element<T>>,
    /// The lower bound that the search ended with: the index after the last one
    /// that it found below the target, or the lower bound it was given.
    pub last_lower_idx: i64,
    /// The upper bound that the search ended with: the index before the last one
    /// that it found above the target, or the upper bound it was given.
    pub last_upper_idx: i64,
}

/// The index probed in the inclusive range `lo..=hi`: half the sum of the bounds,
/// rounded towards zero.
pub open spec fn midpoint(lo: int, hi: int) -> int {
    if lo + hi >= 0 {
        (lo + hi) / 2
    } else {
        -((-(lo + hi)) / 2)
    }
}

/// The element that is kept after a probe at `idx` found `val` off the target.
pub open spec fn kept_after<T>(kept: Option<Element<T>>, val: T, idx: int, is_valid_res: bool) -> Option<Element<T>> {
    if is_valid_res {
        Some(Element { val, idx: idx as i64 })
    } else {
        kept
    }
}

/// The outcomes that a lookup may have, as a relation between an index and a
/// value or failure.
pub open spec fn lookup_outcomes<T, E, F: Fn(i64) -> Result<T, E>>(lookup: &F) -> spec_fn(
    i64,
    Result<T, E>,
) -> bool {
    |i: i64, v: Result<T, E>| lookup.ensures((i,), v)
}

/// The outcomes that comparing against a target may have, as a relation between
/// a value and an outcome or failure.
pub open spec fn target_outcomes<T, E, P: FindOrd<T, E> + ?Sized>(target: &P) -> spec_fn(
    T,
    Result<FindOrdering, E>,
) -> bool {
    |t: T, c: Result<FindOrdering, E>| target.compares(&t, c)
}

/// Whether a probe of index `i` may see the lookup give `v` and, where that is a
/// value, the comparison of that value give `c`.
pub open spec fn probes<T, E>(
    looks: spec_fn(i64, Result<T, E>) -> bool,
    places: spec_fn(T, Result<FindOrdering, E>) -> bool,
    i: i64,
    v: Result<T, E>,
    c: Result<FindOrdering, E>,
) -> bool {
    looks(i, v) && (v matches Ok(val) ==> places(val, c))
}

/// Whether a bisection of `lo..=hi` that has kept `kept` so far may end in `out`,
/// where `looks` holds the outcomes of the lookup and `places` those of the
/// comparison.
///
/// An empty range ends the search with what was kept and the bounds as they
/// stand. Otherwise the search probes the midpoint and goes on as [`proceeds`]
/// says. On a sequence that is not ordered, what a search finds depends on the
/// indices it probes, so this follows it probe by probe; what it comes to on an
/// ordered sequence is stated in [`crate::ordered`].
pub open spec fn bisects<T, E>(
    looks: spec_fn(i64, Result<T, E>) -> bool,
    places: spec_fn(T, Result<FindOrdering, E>) -> bool,
    lo: int,
    hi: int,
    kept: Option<Element<T>>,
    out: Result<FindResult<T>, E>,
) -> bool
    decreases hi - lo + 1, 1int,
{
    if lo > hi {
        out == Ok::<FindResult<T>, E>(
            FindResult { element: kept, last_lower_idx: lo as i64, last_upper_idx: hi as i64 },
        )
    } else {
        exists|v: Result<T, E>, c: Result<FindOrdering, E>| #[trigger]
            probes(looks, places, midpoint(lo, hi) as i64, v, c) && proceeds(
                looks,
                places,
                lo,
                hi,
                kept,
                v,
                c,
                out,
            )
    }
}

/// Whether a bisection of `lo..=hi` may end in `out` once the probe of the
/// midpoint has seen the lookup give `v` and the comparison give `c`.
///
/// A failure of either ends the search with that failure. A match ends it with
/// the matching element and the bounds as they stand. Any other outcome narrows
/// the range to the side of the midpoint on which the target lies, and keeps the
/// probed value where the outcome calls it valid.
pub open spec fn proceeds<T, E>(
    looks: spec_fn(i64, Result<T, E>) -> bool,
    places: spec_fn(T, Result<FindOrdering, E>) -> bool,
    lo: int,
    hi: int,
    kept: Option<Element<T>>,
    v: Result<T, E>,
    c: Result<FindOrdering, E>,
    out: Result<FindResult<T>, E>,
) -> bool
    decreases hi - lo + 1, 0int,
{
    let mid = midpoint(lo, hi);
    match v {
        Err(e) => out == Err::<FindResult<T>, E>(e),
        Ok(val) => match c {
            Err(e) => out == Err::<FindResult<T>, E>(e),
            Ok(FindOrdering::ValBelowTarget { is_valid_res }) => lo <= hi && bisects(
                looks,
                places,
                mid + 1,
                hi,
                kept_after(kept, val, mid, is_valid_res),
                out,
            ),
            Ok(FindOrdering::ValAboveTarget { is_valid_res }) => lo <= hi && bisects(
                looks,
                places,
                lo,
                mid - 1,
                kept_after(kept, val, mid, is_valid_res),
                out,
            ),
            Ok(FindOrdering::ValMatchesTarget) => out == Ok::<FindResult<T>, E>(
                FindResult {
                    element: Some(Element { val, idx: mid as i64 }),
                    last_lower_idx: lo as i64,
                    last_upper_idx: hi as i64,
                },
            ),
        },
    }
}

/// Whether a search of `lower_idx..=upper_idx` that has kept `kept` may end in `out`.
pub open spec fn find_yields<T, E, F: Fn(i64) -> Result<T, E>, P: FindOrd<T, E> + ?Sized>(
    lookup: &F,
    target: &P,
    lower_idx: i64,
    upper_idx: i64,
    kept: Option<Element<T>>,
    out: Result<FindResult<T>, E>,
) -> bool {
    bisects(
        lookup_outcomes(lookup),
        target_outcomes(target),
        lower_idx as int,
        upper_idx as int,
        kept,
        out,
    )
}

/// Whether the bounds admit a search: a range that holds an index stays clear of
/// both ends of `i64`, so that the bounds next to it can be reported.
pub open spec fn searchable(lower_idx: i64, upper_idx: i64) -> bool {
    lower_idx <= upper_idx ==> i64::MIN < lower_idx && upper_idx < i64::MAX
}

/// A search of the non-empty `lower_idx..=upper_idx` whose probe of the midpoint
/// may see `v` and `c` may end in whatever that probe may proceed to.
pub proof fn lemma_probe_proceeds<T, E>(
    looks: spec_fn(i64, Result<T, E>) -> bool,
    places: spec_fn(T, Result<FindOrdering, E>) -> bool,
    lower_idx: i64,
    upper_idx: i64,
    kept: Option<Element<T>>,
    v: Result<T, E>,
    c: Result<FindOrdering, E>,
    out: Result<FindResult<T>, E>,
)
    requires
        lower_idx <= upper_idx,
        probes(looks, places, midpoint(lower_idx as int, upper_idx as int) as i64, v, c),
        proceeds(looks, places, lower_idx as int, upper_idx as int, kept, v, c, out),
    ensures
        bisects(looks, places, lower_idx as int, upper_idx as int, kept, out),
{
}

/// Whether a probe of index `i` may fail with `e`: in the lookup, or in comparing
/// a value that the lookup gave.
pub open spec fn probe_fails<T, E>(
    looks: spec_fn(i64, Result<T, E>) -> bool,
    places: spec_fn(T, Result<FindOrdering, E>) -> bool,
    i: i64,
    e: E,
) -> bool {
    ||| looks(i, Err::<T, E>(e))
    ||| exists|val: T| #[trigger] looks(i, Ok::<T, E>(val)) && places(val, Err::<FindOrdering, E>(e))
}

/// Whether the element `el` may come from a probe: the lookup gave its value at
/// its index, and the comparison found that value to match, or to be off the
/// target and valid.
pub open spec fn probe_gives<T, E>(
    looks: spec_fn(i64, Result<T, E>) -> bool,
    places: spec_fn(T, Result<FindOrdering, E>) -> bool,
    el: Element<T>,
) -> bool {
    &&& looks(el.idx, Ok::<T, E>(el.val))
    &&& exists|o: FindOrdering| #[trigger] places(el.val, Ok::<FindOrdering, E>(o)) && keeps(o)
}

/// Whether the outcome `res` of a search of `lo..=hi` is within its bounds: the
/// search has only narrowed the range, not past the point where its bounds
/// cross, and the element it ends on is the one kept before or comes from a
/// probe within the range.
pub open spec fn within_bounds<T, E>(
    looks: spec_fn(i64, Result<T, E>) -> bool,
    places: spec_fn(T, Result<FindOrdering, E>) -> bool,
    lo: int,
    hi: int,
    kept: Option<Element<T>>,
    res: FindResult<T>,
) -> bool {
    &&& lo <= res.last_lower_idx
    &&& res.last_upper_idx <= hi
    &&& lo <= hi + 1 ==> res.last_lower_idx <= res.last_upper_idx + 1
    &&& res.element != kept ==> (res.element matches Some(el) && lo <= el.idx <= hi && probe_gives(
        looks,
        places,
        el,
    ))
}

/// Whether the outcome `res` of a search of `lower_idx..=upper_idx` that had kept
/// nothing is within its bounds.
pub open spec fn found_within<T, E, F: Fn(i64) -> Result<T, E>, P: FindOrd<T, E> + ?Sized>(
    lookup: &F,
    target: &P,
    lower_idx: i64,
    upper_idx: i64,
    res: FindResult<T>,
) -> bool {
    within_bounds(
        lookup_outcomes(lookup),
        target_outcomes(target),
        lower_idx as int,
        upper_idx as int,
        None,
        res,
    )
}

/// Whether a search of `lower_idx..=upper_idx` may fail with `e`: a probe of an
/// index in that range may.
pub open spec fn fails_within<T, E, F: Fn(i64) -> Result<T, E>, P: FindOrd<T, E> + ?Sized>(
    lookup: &F,
    target: &P,
    lower_idx: i64,
    upper_idx: i64,
    e: E,
) -> bool {
    exists|i: i64|
        lower_idx <= i <= upper_idx && #[trigger] probe_fails(
            lookup_outcomes(lookup),
            target_outcomes(target),
            i,
            e,
        )
}

/// Every failure that a bisection of `lo..=hi` may end in is the failure of a
/// probe of an index in that range.
pub proof fn lemma_bisects_failure<T, E>(
    looks: spec_fn(i64, Result<T, E>) -> bool,
    places: spec_fn(T, Result<FindOrdering, E>) -> bool,
    lo: int,
    hi: int,
    kept: Option<Element<T>>,
    e: E,
)
    requires
        i64::MIN <= lo,
        hi <= i64::MAX,
        bisects(looks, places, lo, hi, kept, Err::<FindResult<T>, E>(e)),
    ensures
        exists|i: i64| lo <= i <= hi && #[trigger] probe_fails(looks, places, i, e),
    decreases hi - lo + 1,
{
    if lo <= hi {
        let mid = midpoint(lo, hi);
        let out = Err::<FindResult<T>, E>(e);
        let (v, c) = choose|v: Result<T, E>, c: Result<FindOrdering, E>| #[trigger]
            probes(looks, places, mid as i64, v, c) && proceeds(looks, places, lo, hi, kept, v, c, out);
        assert(lo <= mid <= hi);
        match v {
            Err(_) => {
                assert(probe_fails(looks, places, mid as i64, e));
            },
            Ok(val) => match c {
                Err(_) => {
                    assert(probe_fails(looks, places, mid as i64, e));
                },
                Ok(FindOrdering::ValBelowTarget { is_valid_res }) => {
                    lemma_bisects_failure(
                        looks,
                        places,
                        mid + 1,
                        hi,
                        kept_after(kept, val, mid, is_valid_res),
                        e,
                    );
                    let i = choose|i: i64|
                        mid + 1 <= i <= hi && #[trigger] probe_fails(looks, places, i, e);
                    assert(lo <= i <= hi && probe_fails(looks, places, i, e));
                },
                Ok(FindOrdering::ValAboveTarget { is_valid_res }) => {
                    lemma_bisects_failure(
                        looks,
                        places,
                        lo,
                        mid - 1,
                        kept_after(kept, val, mid, is_valid_res),
                        e,
                    );
                    let i = choose|i: i64|
                        lo <= i <= mid - 1 && #[trigger] probe_fails(looks, places, i, e);
                    assert(lo <= i <= hi && probe_fails(looks, places, i, e));
                },
                Ok(FindOrdering::ValMatchesTarget) => {},
            },
        }
    }
}

/// Every outcome that a bisection of `lo..=hi` may end in without failing is
/// within its bounds.
pub proof fn lemma_bisects_bounds<T, E>(
    looks: spec_fn(i64, Result<T, E>) -> bool,
    places: spec_fn(T, Result<FindOrdering, E>) -> bool,
    lo: int,
    hi: int,
    kept: Option<Element<T>>,
    res: FindResult<T>,
)
    requires
        i64::MIN <= lo <= i64::MAX,
        i64::MIN <= hi <= i64::MAX,
        lo <= hi ==> i64::MIN < lo && hi < i64::MAX,
        bisects(looks, places, lo, hi, kept, Ok::<FindResult<T>, E>(res)),
    ensures
        within_bounds(looks, places, lo, hi, kept, res),
    decreases hi - lo + 1,
{
    if lo <= hi {
        let mid = midpoint(lo, hi);
        let out = Ok::<FindResult<T>, E>(res);
        let (v, c) = choose|v: Result<T, E>, c: Result<FindOrdering, E>| #[trigger]
            probes(looks, places, mid as i64, v, c) && proceeds(looks, places, lo, hi, kept, v, c, out);
        assert(lo <= mid <= hi);
        match v {
            Err(_) => {},
            Ok(val) => match c {
                Err(_) => {},
                Ok(FindOrdering::ValBelowTarget { is_valid_res }) => {
                    let next = kept_after(kept, val, mid, is_valid_res);
                    lemma_bisects_bounds(looks, places, mid + 1, hi, next, res);
                    if res.element != kept && res.element == next {
                        let el = next->Some_0;
                        assert(looks(el.idx, Ok::<T, E>(el.val)));
                        assert(places(el.val, Ok::<FindOrdering, E>(c->Ok_0)));
                    }
                },
                Ok(FindOrdering::ValAboveTarget { is_valid_res }) => {
                    let next = kept_after(kept, val, mid, is_valid_res);
                    lemma_bisects_bounds(looks, places, lo, mid - 1, next, res);
                    if res.element != kept && res.element == next {
                        let el = next->Some_0;
                        assert(looks(el.idx, Ok::<T, E>(el.val)));
                        assert(places(el.val, Ok::<FindOrdering, E>(c->Ok_0)));
                    }
                },
                Ok(FindOrdering::ValMatchesTarget) => {
                    let el = res.element->Some_0;
                    assert(looks(el.idx, Ok::<T, E>(el.val)));
                    assert(places(el.val, Ok::<FindOrdering, E>(c->Ok_0)));
                },
            },
        }
    }
}

/// A search fails only with a failure that a probe of an index in its range had:
/// the failure of the lookup or of the comparison, handed on as it is.
pub proof fn law_failure_comes_from_a_probe<T, E, F: Fn(i64) -> Result<T, E>, P: FindOrd<T, E> + ?Sized>(
    lookup: &F,
    target: &P,
    lower_idx: i64,
    upper_idx: i64,
    e: E,
)
    requires
        find_yields(lookup, target, lower_idx, upper_idx, None, Err::<FindResult<T>, E>(e)),
    ensures
        fails_within(lookup, target, lower_idx, upper_idx, e),
{
    lemma_bisects_failure(
        lookup_outcomes(lookup),
        target_outcomes(target),
        lower_idx as int,
        upper_idx as int,
        None,
        e,
    );
}

/// A search of a range that holds an index fails where looking up the midpoint
/// can only fail, and with a failure that this lookup may have.
pub proof fn law_failing_lookup_fails_the_search<T, E, F: Fn(i64) -> Result<T, E>, P: FindOrd<T, E> + ?Sized>(
    lookup: &F,
    target: &P,
    lower_idx: i64,
    upper_idx: i64,
    out: Result<FindResult<T>, E>,
)
    requires
        lower_idx <= upper_idx,
        forall|v: Result<T, E>| #[trigger]
            lookup.ensures((midpoint(lower_idx as int, upper_idx as int) as i64,), v) ==> v is Err,
        find_yields(lookup, target, lower_idx, upper_idx, None, out),
    ensures
        out matches Err(e) && lookup.ensures(
            (midpoint(lower_idx as int, upper_idx as int) as i64,),
            Err::<T, E>(e),
        ),
{
}

/// The element that a search ends on comes from a probe of an index in its
/// range, and the bounds it reports lie within that range.
pub proof fn law_found_was_probed<T, E, F: Fn(i64) -> Result<T, E>, P: FindOrd<T, E> + ?Sized>(
    lookup: &F,
    target: &P,
    lower_idx: i64,
    upper_idx: i64,
    res: FindResult<T>,
)
    requires
        searchable(lower_idx, upper_idx),
        find_yields(lookup, target, lower_idx, upper_idx, None, Ok::<FindResult<T>, E>(res)),
    ensures
        found_within(lookup, target, lower_idx, upper_idx, res),
{
    lemma_bisects_bounds(
        lookup_outcomes(lookup),
        target_outcomes(target),
        lower_idx as int,
        upper_idx as int,
        None,
        res,
    );
}

/// The index to probe in `lo..=hi`.
fn probe_index(lo: i64, hi: i64) -> (mid: i64)
    requires
        lo <= hi,
    ensures
        mid == midpoint(lo as int, hi as int),
        lo <= mid <= hi,
{
    let sum: i128 = lo as i128 + hi as i128;
    (sum / 2) as i64
}

/// Searches `lower_idx..=upper_idx` for the target by bisection: probes the
/// midpoint of the range, narrows the range to the side on which the target lies,
/// and ends on a match or when the range is empty. An empty range is searched
/// without a lookup. The first failure of the lookup or of the comparison ends
/// the search, and is returned as it is.
pub fn find<T, E>(
    lookup: &impl Fn(i64) -> Result<T, E>,
    target: &(impl FindOrd<T, E> + ?Sized),
    lower_idx: i64,
    upper_idx: i64,
) -> (r: Result<FindResult<T>, E>)
    requires
        searchable(lower_idx, upper_idx),
        forall|i: i64| lower_idx <= i <= upper_idx ==> lookup.requires((i,)),
    ensures
        find_yields(lookup, target, lower_idx, upper_idx, None, r),
        lower_idx > upper_idx ==> r == Ok::<FindResult<T>, E>(
            FindResult { element: None, last_lower_idx: lower_idx, last_upper_idx: upper_idx },
        ),
        r matches Ok(res) ==> found_within(lookup, target, lower_idx, upper_idx, res),
        r matches Err(e) ==> fails_within(lookup, target, lower_idx, upper_idx, e),
{
    let mut lo = lower_idx;
    let mut hi = upper_idx;
    let mut res: Option<Element<T>> = None;
    let ghost looks = lookup_outcomes(lookup);
    let ghost places = target_outcomes(target);
    while lo <= hi
        invariant
            searchable(lower_idx, upper_idx),
            forall|i: i64| lower_idx <= i <= upper_idx ==> lookup.requires((i,)),
            looks == lookup_outcomes(lookup),
            places == target_outcomes(target),
            lower_idx <= lo,
            hi <= upper_idx,
            lower_idx > upper_idx ==> lo == lower_idx && hi == upper_idx && res.is_none(),
            forall|out: Result<FindResult<T>, E>|
                find_yields(lookup, target, lo, hi, res, out) ==> find_yields(
                    lookup,
                    target,
                    lower_idx,
                    upper_idx,
                    None,
                    out,
                ),
        decreases hi - lo + 1,
    {
        let idx = probe_index(lo, hi);
        let found = lookup(idx);
        let val = match found {
            Ok(val) => val,
            Err(e) => {
                proof {
                    let unplaced = Err::<FindOrdering, E>(e);
                    assert(probes(looks, places, idx, found, unplaced));
                    lemma_probe_proceeds(looks, places, lo, hi, res, found, unplaced, Err(e));
                    law_failure_comes_from_a_probe(lookup, target, lower_idx, upper_idx, e);
                }
                return Err(e);
            },
        };
        let placed = target.cmp(&val);
        assert(probes(looks, places, idx, found, placed));
        let ghost before = (lo, hi, res);
        match placed {
            Err(e) => {
                proof {
                    lemma_probe_proceeds(looks, places, lo, hi, res, found, placed, Err(e));
                    law_failure_comes_from_a_probe(lookup, target, lower_idx, upper_idx, e);
                }
                return Err(e);
            },
            Ok(FindOrdering::ValBelowTarget { is_valid_res }) => {
                if is_valid_res {
                    res = Some(Element { val, idx });
                }
                lo = idx + 1;
            },
            Ok(FindOrdering::ValAboveTarget { is_valid_res }) => {
                if is_valid_res {
                    res = Some(Element { val, idx });
                }
                hi = idx - 1;
            },
            Ok(FindOrdering::ValMatchesTarget) => {
                let hit = FindResult {
                    element: Some(Element { val, idx }),
                    last_lower_idx: lo,
                    last_upper_idx: hi,
                };
                proof {
                    lemma_probe_proceeds(looks, places, lo, hi, res, found, placed, Ok(hit));
                    law_found_was_probed(lookup, target, lower_idx, upper_idx, hit);
                }
                return Ok(hit);
            },
        }
        proof {
            assert forall|out: Result<FindResult<T>, E>|
                find_yields(lookup, target, lo, hi, res, out) implies find_yields(
                lookup,
                target,
                lower_idx,
                upper_idx,
                None,
                out,
            ) by {
                lemma_probe_proceeds(looks, places, before.0, before.1, before.2, found, placed, out);
            }
        }
    }
    let ended = FindResult { element: res, last_lower_idx: lo, last_upper_idx: hi };
    proof {
        law_found_was_probed(lookup, target, lower_idx, upper_idx, ended);
    }
    Ok(ended)
}

} // verus!
