//! What a search finds in a sequence that is ordered with respect to its target.

use vstd::prelude::*;
use crate::find::{
    bisects, find_yields, kept_after, lookup_outcomes, midpoint, target_outcomes, Element, FindOrd,
    FindOrdering, FindResult, Snap,
};
use crate::find_range::{
    find_range_yields, lower_search_end, lower_search_start, range_searches, spans,
    upper_search_end, upper_search_start, FindOrdRange,
};
use crate::snapping::SnappingTarget;

verus! {

/// Whether the lookup reads the sequence `s` on `lo..=hi`: each of these indices
/// lies in `s`, and looking it up gives the value there and nothing else.
pub open spec fn reads<T, E>(
    looks: spec_fn(i64, Result<T, E>) -> bool,
    s: Seq<T>,
    lo: int,
    hi: int,
) -> bool {
    &&& 0 <= lo
    &&& hi < s.len()
    &&& hi < i64::MAX
    &&& forall|i: i64, v: Result<T, E>|
        lo <= i <= hi && #[trigger] looks(i, v) ==> v == Ok::<T, E>(s[i as int])
}

/// Whether comparing `t` never fails and always has the outcome `o`.
pub open spec fn always<T, E>(
    places: spec_fn(T, Result<FindOrdering, E>) -> bool,
    t: T,
    o: FindOrdering,
) -> bool {
    forall|c: Result<FindOrdering, E>| #[trigger] places(t, c) ==> c == Ok::<FindOrdering, E>(o)
}

/// Whether `s` is ordered with respect to the target on `lo..=hi`: the values
/// before `first_match` are below the target, those from `first_match` up to
/// `first_above` match it, and those from `first_above` on are above it. A value
/// below the target may be kept where `down` holds, one above it where `up` holds.
pub open spec fn ordered<T, E>(
    places: spec_fn(T, Result<FindOrdering, E>) -> bool,
    s: Seq<T>,
    lo: int,
    hi: int,
    first_match: int,
    first_above: int,
    down: bool,
    up: bool,
) -> bool {
    &&& lo <= first_match <= first_above <= hi + 1
    &&& forall|i: int|
        lo <= i < first_match ==> #[trigger] always(
            places,
            s[i],
            FindOrdering::ValBelowTarget { is_valid_res: down },
        )
    &&& forall|i: int|
        first_match <= i < first_above ==> #[trigger] always(
            places,
            s[i],
            FindOrdering::ValMatchesTarget,
        )
    &&& forall|i: int|
        first_above <= i <= hi ==> #[trigger] always(
            places,
            s[i],
            FindOrdering::ValAboveTarget { is_valid_res: up },
        )
}

/// The element of `s` at `i`.
pub open spec fn element_at<T>(s: Seq<T>, i: int) -> Element<T> {
    Element { val: s[i], idx: i as i64 }
}

/// Whether `found` is what a search of `lo..=hi` may settle on when no value
/// matches and `gap` is the index of the first value above the target: the
/// nearest value on a side that may be kept, and with both sides one of the two
/// neighbours; what was kept before where there is no such value.
pub open spec fn settles<T>(
    s: Seq<T>,
    lo: int,
    hi: int,
    gap: int,
    down: bool,
    up: bool,
    kept: Option<Element<T>>,
    found: Option<Element<T>>,
) -> bool {
    if down && up {
        if lo > hi {
            found == kept
        } else {
            ||| lo < gap && found == Some(element_at(s, gap - 1))
            ||| gap <= hi && found == Some(element_at(s, gap))
        }
    } else if down && lo < gap {
        found == Some(element_at(s, gap - 1))
    } else if up && gap <= hi {
        found == Some(element_at(s, gap))
    } else {
        found == kept
    }
}

/// Whether `out` is what a search of an ordered sequence comes to. It never
/// fails. Where values match, it ends on one of them, with bounds that enclose
/// it and have not passed any matching value. Where none does, it ends with the
/// bounds crossed at the gap where a match would be, on the value that
/// [`settles`] describes.
pub open spec fn ordered_outcome<T, E>(
    s: Seq<T>,
    lo: int,
    hi: int,
    first_match: int,
    first_above: int,
    down: bool,
    up: bool,
    kept: Option<Element<T>>,
    out: Result<FindResult<T>, E>,
) -> bool {
    &&& out matches Ok(res)
    &&& if first_match < first_above {
        &&& lo <= res.last_lower_idx <= first_match
        &&& first_above - 1 <= res.last_upper_idx <= hi
        &&& res.element matches Some(el)
        &&& first_match <= el.idx < first_above
        &&& res.last_lower_idx <= el.idx <= res.last_upper_idx
        &&& el.val == s[el.idx as int]
    } else {
        &&& res.last_lower_idx == first_match
        &&& res.last_upper_idx == first_match - 1
        &&& settles(s, lo, hi, first_match, down, up, kept, res.element)
    }
}

/// A bisection of a sequence that is ordered with respect to the target comes to
/// an [`ordered_outcome`], whatever it had kept before.
pub proof fn lemma_bisects_ordered<T, E>(
    looks: spec_fn(i64, Result<T, E>) -> bool,
    places: spec_fn(T, Result<FindOrdering, E>) -> bool,
    s: Seq<T>,
    lo: int,
    hi: int,
    first_match: int,
    first_above: int,
    down: bool,
    up: bool,
    kept: Option<Element<T>>,
    out: Result<FindResult<T>, E>,
)
    requires
        reads(looks, s, lo, hi),
        ordered(places, s, lo, hi, first_match, first_above, down, up),
        bisects(looks, places, lo, hi, kept, out),
    ensures
        ordered_outcome(s, lo, hi, first_match, first_above, down, up, kept, out),
    decreases hi - lo + 1,
{
    if lo <= hi {
        let mid = midpoint(lo, hi);
        assert(lo <= mid <= hi);
        if mid < first_match {
            let next = kept_after(kept, s[mid], mid, down);
            assert(always(places, s[mid], FindOrdering::ValBelowTarget { is_valid_res: down }));
            assert(bisects(looks, places, mid + 1, hi, next, out));
            lemma_bisects_ordered(looks, places, s, mid + 1, hi, first_match, first_above, down, up, next, out);
        } else if mid < first_above {
            assert(always(places, s[mid], FindOrdering::ValMatchesTarget));
        } else {
            let next = kept_after(kept, s[mid], mid, up);
            assert(always(places, s[mid], FindOrdering::ValAboveTarget { is_valid_res: up }));
            assert(bisects(looks, places, lo, mid - 1, next, out));
            lemma_bisects_ordered(looks, places, s, lo, mid - 1, first_match, first_above, down, up, next, out);
        }
    }
}

/// Searching an ordered sequence for a target that exactly one of its values
/// matches finds that value, with its index, whether or not the target snaps.
pub proof fn law_finds_the_match<T, E, F: Fn(i64) -> Result<T, E>, P: FindOrd<T, E> + ?Sized>(
    lookup: &F,
    target: &P,
    s: Seq<T>,
    lower_idx: i64,
    upper_idx: i64,
    i: int,
    down: bool,
    up: bool,
    out: Result<FindResult<T>, E>,
)
    requires
        reads(lookup_outcomes(lookup), s, lower_idx as int, upper_idx as int),
        ordered(
            target_outcomes(target),
            s,
            lower_idx as int,
            upper_idx as int,
            i,
            i + 1,
            down,
            up,
        ),
        find_yields(lookup, target, lower_idx, upper_idx, None, out),
    ensures
        out matches Ok(res) && res.element == Some(element_at(s, i)),
{
    lemma_bisects_ordered(
        lookup_outcomes(lookup),
        target_outcomes(target),
        s,
        lower_idx as int,
        upper_idx as int,
        i,
        i + 1,
        down,
        up,
        None,
        out,
    );
}

/// Searching an ordered sequence for a target that none of its values matches,
/// and that does not snap, finds no element. The bounds it reports are crossed
/// at the gap where the target would sit: the lower one is the index of the
/// first value above the target, the upper one the index before it.
pub proof fn law_absent_without_snap<T, E, F: Fn(i64) -> Result<T, E>, P: FindOrd<T, E> + ?Sized>(
    lookup: &F,
    target: &P,
    s: Seq<T>,
    lower_idx: i64,
    upper_idx: i64,
    gap: int,
    out: Result<FindResult<T>, E>,
)
    requires
        reads(lookup_outcomes(lookup), s, lower_idx as int, upper_idx as int),
        ordered(
            target_outcomes(target),
            s,
            lower_idx as int,
            upper_idx as int,
            gap,
            gap,
            false,
            false,
        ),
        find_yields(lookup, target, lower_idx, upper_idx, None, out),
    ensures
        out == Ok::<FindResult<T>, E>(
            FindResult {
                element: None,
                last_lower_idx: gap as i64,
                last_upper_idx: (gap - 1) as i64,
            },
        ),
{
    lemma_bisects_ordered(
        lookup_outcomes(lookup),
        target_outcomes(target),
        s,
        lower_idx as int,
        upper_idx as int,
        gap,
        gap,
        false,
        false,
        None,
        out,
    );
}

/// Searching an ordered sequence for a target that none of its values matches,
/// and that snaps downwards, finds the nearest value below the target: the last
/// one where the target is above them all, and none where it is below them all.
pub proof fn law_snaps_downwards<T, E, F: Fn(i64) -> Result<T, E>, P: FindOrd<T, E> + ?Sized>(
    lookup: &F,
    target: &P,
    s: Seq<T>,
    lower_idx: i64,
    upper_idx: i64,
    gap: int,
    out: Result<FindResult<T>, E>,
)
    requires
        reads(lookup_outcomes(lookup), s, lower_idx as int, upper_idx as int),
        ordered(
            target_outcomes(target),
            s,
            lower_idx as int,
            upper_idx as int,
            gap,
            gap,
            true,
            false,
        ),
        find_yields(lookup, target, lower_idx, upper_idx, None, out),
    ensures
        out matches Ok(res) && res.element == (if lower_idx < gap {
            Some(element_at(s, gap - 1))
        } else {
            None
        }),
{
    lemma_bisects_ordered(
        lookup_outcomes(lookup),
        target_outcomes(target),
        s,
        lower_idx as int,
        upper_idx as int,
        gap,
        gap,
        true,
        false,
        None,
        out,
    );
}

/// Searching an ordered sequence for a target that none of its values matches,
/// and that snaps upwards, finds the nearest value above the target: the first
/// one where the target is below them all, and none where it is above them all.
pub proof fn law_snaps_upwards<T, E, F: Fn(i64) -> Result<T, E>, P: FindOrd<T, E> + ?Sized>(
    lookup: &F,
    target: &P,
    s: Seq<T>,
    lower_idx: i64,
    upper_idx: i64,
    gap: int,
    out: Result<FindResult<T>, E>,
)
    requires
        reads(lookup_outcomes(lookup), s, lower_idx as int, upper_idx as int),
        ordered(
            target_outcomes(target),
            s,
            lower_idx as int,
            upper_idx as int,
            gap,
            gap,
            false,
            true,
        ),
        find_yields(lookup, target, lower_idx, upper_idx, None, out),
    ensures
        out matches Ok(res) && res.element == (if gap <= upper_idx {
            Some(element_at(s, gap))
        } else {
            None
        }),
{
    lemma_bisects_ordered(
        lookup_outcomes(lookup),
        target_outcomes(target),
        s,
        lower_idx as int,
        upper_idx as int,
        gap,
        gap,
        false,
        true,
        None,
        out,
    );
}

/// Whether `found` is the element at a boundary of an ordered sequence: one of
/// the values that match the boundary's target where there are any, and else the
/// value next to the gap that [`settles`] describes.
pub open spec fn boundary<T>(
    s: Seq<T>,
    lo: int,
    hi: int,
    first_match: int,
    first_above: int,
    down: bool,
    up: bool,
    found: Option<Element<T>>,
) -> bool {
    if first_match < first_above {
        &&& found matches Some(el)
        &&& first_match <= el.idx < first_above
        &&& el.val == s[el.idx as int]
    } else {
        settles(s, lo, hi, first_match, down, up, None, found)
    }
}

/// The index in `lo..=hi + 1` that is nearest to `i`.
pub open spec fn clamped(i: int, lo: int, hi: int) -> int {
    if i < lo {
        lo
    } else if i > hi + 1 {
        hi + 1
    } else {
        i
    }
}

/// A sequence that is ordered with respect to a target on a range is so on every
/// range within it.
pub proof fn lemma_ordered_within<T, E>(
    places: spec_fn(T, Result<FindOrdering, E>) -> bool,
    s: Seq<T>,
    lo: int,
    hi: int,
    first_match: int,
    first_above: int,
    down: bool,
    up: bool,
    sub_lo: int,
    sub_hi: int,
)
    requires
        ordered(places, s, lo, hi, first_match, first_above, down, up),
        lo <= sub_lo <= sub_hi + 1 <= hi + 1,
    ensures
        ordered(
            places,
            s,
            sub_lo,
            sub_hi,
            clamped(first_match, sub_lo, sub_hi),
            clamped(first_above, sub_lo, sub_hi),
            down,
            up,
        ),
{
}

/// A sequence that is ordered with respect to two targets is ordered with
/// respect to the target that they span: the values below the lower target are
/// below it, unless the upper target finds them above; the values above the
/// upper target are above it; and those between match. It keeps none that does
/// not match.
pub proof fn lemma_spanned_ordered<T, E, L: FindOrd<T, E> + ?Sized, U: FindOrd<T, E> + ?Sized>(
    lower_target: &L,
    upper_target: &U,
    s: Seq<T>,
    lo: int,
    hi: int,
    lower_match: int,
    lower_above: int,
    lower_down: bool,
    lower_up: bool,
    upper_match: int,
    upper_above: int,
    upper_down: bool,
    upper_up: bool,
)
    requires
        ordered(target_outcomes(lower_target), s, lo, hi, lower_match, lower_above, lower_down, lower_up),
        ordered(target_outcomes(upper_target), s, lo, hi, upper_match, upper_above, upper_down, upper_up),
    ensures
        ordered(
            target_outcomes(&(FindOrdRange { lower: lower_target, upper: upper_target })),
            s,
            lo,
            hi,
            if lower_match < upper_above { lower_match } else { upper_above },
            upper_above,
            false,
            false,
        ),
{
    let spanned = FindOrdRange { lower: lower_target, upper: upper_target };
    let places = target_outcomes(&spanned);
    let first = if lower_match < upper_above { lower_match } else { upper_above };
    assert forall|i: int, c: Result<FindOrdering, E>| lo <= i <= hi && #[trigger] places(s[i], c) implies c == Ok::<FindOrdering, E>(
        if i < first {
            FindOrdering::ValBelowTarget { is_valid_res: false }
        } else if i < upper_above {
            FindOrdering::ValMatchesTarget
        } else {
            FindOrdering::ValAboveTarget { is_valid_res: false }
        },
    ) by {
        let (u, l) = choose|u: Result<FindOrdering, E>, l: Result<FindOrdering, E>| #[trigger]
            spans(lower_target, upper_target, &s[i], u, l, c);
        assert(target_outcomes(upper_target)(s[i], u));
        if i < upper_match {
            assert(always(target_outcomes(upper_target), s[i], FindOrdering::ValBelowTarget { is_valid_res: upper_down }));
        } else if i < upper_above {
            assert(always(target_outcomes(upper_target), s[i], FindOrdering::ValMatchesTarget));
        } else {
            assert(always(target_outcomes(upper_target), s[i], FindOrdering::ValAboveTarget { is_valid_res: upper_up }));
        }
        if i < upper_above {
            assert(target_outcomes(lower_target)(s[i], l));
            if i < lower_match {
                assert(always(target_outcomes(lower_target), s[i], FindOrdering::ValBelowTarget { is_valid_res: lower_down }));
            } else if i < lower_above {
                assert(always(target_outcomes(lower_target), s[i], FindOrdering::ValMatchesTarget));
            } else {
                assert(always(target_outcomes(lower_target), s[i], FindOrdering::ValAboveTarget { is_valid_res: lower_up }));
            }
        }
    }
}

/// A range search of a sequence that is ordered with respect to both targets
/// never fails, and what it finds depends on whether any value is in the range,
/// that is neither below the lower target nor above the upper one.
///
/// Where one is, each side is the [`boundary`] of its target in the whole
/// sequence. Where none is, the bounds of the range cross at a gap, and each
/// side can only snap outwards: the lower side is the value before the gap where
/// the lower target snaps downwards, the upper side the value after it where the
/// upper target snaps upwards, and else there is none.
pub proof fn law_range_over_ordered<T, E, F: Fn(i64) -> Result<T, E>, L: FindOrd<T, E> + ?Sized, U: FindOrd<T, E> + ?Sized>(
    lookup: &F,
    lower_target: &L,
    upper_target: &U,
    s: Seq<T>,
    lower_idx: i64,
    upper_idx: i64,
    lower_match: int,
    lower_above: int,
    lower_down: bool,
    lower_up: bool,
    upper_match: int,
    upper_above: int,
    upper_down: bool,
    upper_up: bool,
    out: Result<(Option<Element<T>>, Option<Element<T>>), E>,
)
    requires
        reads(lookup_outcomes(lookup), s, lower_idx as int, upper_idx as int),
        ordered(
            target_outcomes(lower_target),
            s,
            lower_idx as int,
            upper_idx as int,
            lower_match,
            lower_above,
            lower_down,
            lower_up,
        ),
        ordered(
            target_outcomes(upper_target),
            s,
            lower_idx as int,
            upper_idx as int,
            upper_match,
            upper_above,
            upper_down,
            upper_up,
        ),
        find_range_yields(lookup, lower_target, upper_target, lower_idx, upper_idx, out),
    ensures
        out matches Ok(found) && if lower_match < upper_above {
            &&& boundary(
                s,
                lower_idx as int,
                upper_idx as int,
                lower_match,
                lower_above,
                lower_down,
                lower_up,
                found.0,
            )
            &&& boundary(
                s,
                lower_idx as int,
                upper_idx as int,
                upper_match,
                upper_above,
                upper_down,
                upper_up,
                found.1,
            )
        } else {
            &&& found.0 == (if lower_down && lower_idx < upper_above {
                Some(element_at(s, upper_above - 1))
            } else {
                None
            })
            &&& found.1 == (if upper_up && upper_above <= upper_idx {
                Some(element_at(s, upper_above))
            } else {
                None
            })
        },
{
    let looks = lookup_outcomes(lookup);
    let lo = lower_idx as int;
    let hi = upper_idx as int;
    let spanned = FindOrdRange { lower: lower_target, upper: upper_target };
    let (first, l, u) = choose|
        first: Result<FindResult<T>, E>,
        l: Result<FindResult<T>, E>,
        u: Result<FindResult<T>, E>,
    | #[trigger]
        range_searches(lookup, lower_target, upper_target, lower_idx, upper_idx, first, l, u, out);
    let first_match = if lower_match < upper_above { lower_match } else { upper_above };
    lemma_spanned_ordered(
        lower_target,
        upper_target,
        s,
        lo,
        hi,
        lower_match,
        lower_above,
        lower_down,
        lower_up,
        upper_match,
        upper_above,
        upper_down,
        upper_up,
    );
    lemma_bisects_ordered(
        looks,
        target_outcomes(&spanned),
        s,
        lo,
        hi,
        first_match,
        upper_above,
        false,
        false,
        None,
        first,
    );
    let hit = first->Ok_0;
    let lower_lo = lower_search_start(hit, lower_idx) as int;
    let lower_hi = lower_search_end(hit) as int;
    let upper_lo = upper_search_start(hit) as int;
    let upper_hi = upper_search_end(hit, upper_idx) as int;
    lemma_ordered_within(
        target_outcomes(lower_target),
        s,
        lo,
        hi,
        lower_match,
        lower_above,
        lower_down,
        lower_up,
        lower_lo,
        lower_hi,
    );
    lemma_bisects_ordered(
        looks,
        target_outcomes(lower_target),
        s,
        lower_lo,
        lower_hi,
        clamped(lower_match, lower_lo, lower_hi),
        clamped(lower_above, lower_lo, lower_hi),
        lower_down,
        lower_up,
        None,
        l,
    );
    lemma_ordered_within(
        target_outcomes(upper_target),
        s,
        lo,
        hi,
        upper_match,
        upper_above,
        upper_down,
        upper_up,
        upper_lo,
        upper_hi,
    );
    lemma_bisects_ordered(
        looks,
        target_outcomes(upper_target),
        s,
        upper_lo,
        upper_hi,
        clamped(upper_match, upper_lo, upper_hi),
        clamped(upper_above, upper_lo, upper_hi),
        upper_down,
        upper_up,
        None,
        u,
    );
}

/// A range search of an ordered sequence whose two targets match the same single
/// value finds that value, with its index, on both sides.
pub proof fn law_range_of_one_match<T, E, F: Fn(i64) -> Result<T, E>, L: FindOrd<T, E> + ?Sized, U: FindOrd<T, E> + ?Sized>(
    lookup: &F,
    lower_target: &L,
    upper_target: &U,
    s: Seq<T>,
    lower_idx: i64,
    upper_idx: i64,
    i: int,
    lower_down: bool,
    lower_up: bool,
    upper_down: bool,
    upper_up: bool,
    out: Result<(Option<Element<T>>, Option<Element<T>>), E>,
)
    requires
        reads(lookup_outcomes(lookup), s, lower_idx as int, upper_idx as int),
        ordered(
            target_outcomes(lower_target),
            s,
            lower_idx as int,
            upper_idx as int,
            i,
            i + 1,
            lower_down,
            lower_up,
        ),
        ordered(
            target_outcomes(upper_target),
            s,
            lower_idx as int,
            upper_idx as int,
            i,
            i + 1,
            upper_down,
            upper_up,
        ),
        find_range_yields(lookup, lower_target, upper_target, lower_idx, upper_idx, out),
    ensures
        out == Ok::<(Option<Element<T>>, Option<Element<T>>), E>(
            (Some(element_at(s, i)), Some(element_at(s, i))),
        ),
{
    law_range_over_ordered(
        lookup,
        lower_target,
        upper_target,
        s,
        lower_idx,
        upper_idx,
        i,
        i + 1,
        lower_down,
        lower_up,
        i,
        i + 1,
        upper_down,
        upper_up,
        out,
    );
}

/// Whether the integers of `s` on `lo..=hi` are split around `target`: those
/// before `first_match` are less than it, those from `first_match` up to
/// `first_above` equal it, and those from `first_above` on are greater.
pub open spec fn split_around(
    s: Seq<i64>,
    target: i64,
    lo: int,
    hi: int,
    first_match: int,
    first_above: int,
) -> bool {
    &&& 0 <= lo <= first_match <= first_above <= hi + 1 <= s.len()
    &&& forall|i: int| lo <= i < first_match ==> #[trigger] s[i] < target
    &&& forall|i: int| first_match <= i < first_above ==> #[trigger] s[i] == target
    &&& forall|i: int| first_above <= i <= hi ==> #[trigger] s[i] > target
}

/// Integers that are split around an integer are ordered with respect to it as
/// a plain target, which keeps no value that does not match.
pub proof fn lemma_integers_ordered<E>(
    target: &i64,
    s: Seq<i64>,
    lo: int,
    hi: int,
    first_match: int,
    first_above: int,
)
    requires
        split_around(s, *target, lo, hi, first_match, first_above),
    ensures
        ordered(
            target_outcomes::<i64, E, i64>(target),
            s,
            lo,
            hi,
            first_match,
            first_above,
            false,
            false,
        ),
{
}

/// Integers that are split around an integer are ordered with respect to a
/// snapping target for it, which keeps the values on the side that it snaps to.
pub proof fn lemma_integers_ordered_snapping<E>(
    target: &SnappingTarget<i64>,
    s: Seq<i64>,
    lo: int,
    hi: int,
    first_match: int,
    first_above: int,
)
    requires
        split_around(s, target.value, lo, hi, first_match, first_above),
    ensures
        ordered(
            target_outcomes::<i64, E, SnappingTarget<i64>>(target),
            s,
            lo,
            hi,
            first_match,
            first_above,
            target.snap == Some(Snap::Downwards),
            target.snap == Some(Snap::Upwards),
        ),
{
}

} // verus!
