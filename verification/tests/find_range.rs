use b_section::find::{FindOrd, Snap};
use b_section::find_range::find_range;
use b_section::snapping::with_snap;

fn new_lookup<T: Clone>(arr: &[T]) -> impl Fn(i64) -> Result<T, String> + '_ {
    |idx| {
        if idx < 0 {
            return Err(format!("negative index {}", idx));
        }
        let idx = idx as usize;
        if idx >= arr.len() {
            return Err(format!("index {} out of bounds", idx));
        }
        Ok(arr[idx].clone())
    }
}

fn all_snap_variants<E>(v: i64) -> Vec<Box<dyn FindOrd<i64, E>>> {
    vec![
        Box::new(v),
        Box::new(with_snap(v, Snap::Downwards)),
        Box::new(with_snap(v, Snap::Upwards)),
    ]
}

#[test]
fn full_range() {
    let arr = &[0, 2, 4];
    for lt in all_snap_variants(0) {
        for ut in all_snap_variants(4) {
            assert!(matches!(
                find_range(&new_lookup(arr), lt.as_ref(), ut.as_ref(), 0, arr.len() as i64 - 1),
                Ok((Some(l), Some(u))) if l.val == 0 && u.val == 4
            ));
        }
    }
}

#[test]
fn matching_sub_range() {
    let arr = &[0, 2, 4];
    for lt in all_snap_variants(0) {
        for ut in all_snap_variants(2) {
            assert!(matches!(
                find_range(&new_lookup(arr), lt.as_ref(), ut.as_ref(), 0, arr.len() as i64 - 1),
                Ok((Some(l), Some(u))) if l.val == 0 && u.val == 2
            ));
        }
    }
    for lt in all_snap_variants(2) {
        for ut in all_snap_variants(4) {
            assert!(matches!(
                find_range(&new_lookup(arr), lt.as_ref(), ut.as_ref(), 0, arr.len() as i64 - 1),
                Ok((Some(l), Some(u))) if l.val == 2 && u.val == 4
            ));
        }
    }
}

#[test]
fn matching_single_element() {
    let arr = [0, 2, 4];
    for v in arr {
        for lt in all_snap_variants(v) {
            for ut in all_snap_variants(v) {
                assert!(matches!(
                    find_range(&new_lookup(&arr), lt.as_ref(), ut.as_ref(), 0, arr.len() as i64 - 1),
                    Ok((Some(l), Some(u))) if l.val == v && u.val == v
                ));
            }
        }
    }
}

#[test]
fn snap_lower() {
    let arr = &[0, 2, 4];
    assert!(matches!(
        find_range(&new_lookup(arr), &1, &4, 0, arr.len() as i64 - 1),
        Ok((None, Some(u))) if u.val == 4
    ));
    assert!(matches!(
        find_range(&new_lookup(arr), &with_snap(1, Snap::Downwards), &4, 0, arr.len() as i64 - 1),
        Ok((Some(l), Some(u))) if l.val == 0 && u.val == 4
    ));
    assert!(matches!(
        find_range(&new_lookup(arr), &with_snap(1, Snap::Upwards), &4, 0, arr.len() as i64 - 1),
        Ok((Some(l), Some(u))) if l.val == 2 && u.val == 4
    ));
}

#[test]
fn snap_upper() {
    let arr = &[0, 2, 4];
    assert!(matches!(
        find_range(&new_lookup(arr), &0, &3, 0, arr.len() as i64 - 1),
        Ok((Some(l), None)) if l.val == 0
    ));
    assert!(matches!(
        find_range(&new_lookup(arr), &0, &with_snap(3, Snap::Downwards), 0, arr.len() as i64 - 1),
        Ok((Some(l), Some(u))) if l.val == 0 && u.val == 2
    ));
    assert!(matches!(
        find_range(&new_lookup(arr), &0, &with_snap(3, Snap::Upwards), 0, arr.len() as i64 - 1),
        Ok((Some(l), Some(u))) if l.val == 0 && u.val == 4
    ));
}

#[test]
fn snap_lower_and_upper() {
    let arr = &[0, 2, 4];
    assert!(matches!(
        find_range(&new_lookup(arr), &with_snap(1, Snap::Downwards), &with_snap(3, Snap::Downwards), 0, arr.len() as i64 - 1),
        Ok((Some(l), Some(u))) if l.val == 0 && u.val == 2
    ));
    assert!(matches!(
        find_range(&new_lookup(arr), &with_snap(1, Snap::Downwards), &with_snap(3, Snap::Upwards), 0, arr.len() as i64 - 1),
        Ok((Some(l), Some(u))) if l.val == 0 && u.val == 4
    ));
    assert!(matches!(
        find_range(&new_lookup(arr), &with_snap(1, Snap::Upwards), &with_snap(3, Snap::Downwards), 0, arr.len() as i64 - 1),
        Ok((Some(l), Some(u))) if l.val == 2 && u.val == 2
    ));
    assert!(matches!(
        find_range(&new_lookup(arr), &with_snap(1, Snap::Upwards), &with_snap(3, Snap::Upwards), 0, arr.len() as i64 - 1),
        Ok((Some(l), Some(u))) if l.val == 2 && u.val == 4
    ));
}

#[test]
fn lower_bound_from_range_match_is_above_downwards_snap_value() {
    // Array is chosen such that when looking for lower value, the lower bound is above the downwards snap.
    // If this bound is used directly, then the snap value won't be found.
    let arr = &[-1, 0, 2, 4];
    assert!(matches!(
        find_range(&new_lookup(arr), &with_snap(1, Snap::Downwards), &4, 0, arr.len() as i64 - 1),
        Ok((Some(l), Some(u))) if l.val == 0 && u.val == 4
    ));
}

#[test]
fn upper_bound_from_range_match_is_below_upwards_snap_value() {
    // Array is chosen such that when looking for upper value, the upper bound is below the upwards snap.
    // If this bound is used directly, then the snap value won't be found.
    let arr = &[0, 2, 4, 5];
    assert!(matches!(
        find_range(&new_lookup(arr), &0, &with_snap(1, Snap::Upwards), 0, arr.len() as i64 - 1),
        Ok((Some(l), Some(u))) if l.val == 0 && u.val == 2
    ));
}

#[test]
fn between_elements() {
    let arr = &[0, 2];
    assert!(matches!(
        find_range(&new_lookup(arr), &1, &1, 0, arr.len() as i64 - 1),
        Ok((None, None))
    ));
    assert!(matches!(
        find_range(&new_lookup(arr), &with_snap(1, Snap::Downwards), &1, 0, arr.len() as i64 - 1),
        Ok((Some(l), None)) if l.val == 0
    ));
    assert!(matches!(
        find_range(&new_lookup(arr), &with_snap(1, Snap::Upwards), &1, 0, arr.len() as i64 - 1),
        Ok((None, None))
    ));
    assert!(matches!(
        find_range(&new_lookup(arr), &1, &with_snap(1, Snap::Downwards), 0, arr.len() as i64 - 1),
        Ok((None, None))
    ));
    assert!(matches!(
        find_range(&new_lookup(arr), &1, &with_snap(1, Snap::Upwards), 0, arr.len() as i64 - 1),
        Ok((None, Some(u))) if u.val == 2
    ));
    assert!(matches!(
        find_range(&new_lookup(arr), &with_snap(1, Snap::Upwards), &with_snap(1, Snap::Downwards), 0, arr.len() as i64 - 1),
        Ok((None, None))
    ));
    assert!(matches!(
        find_range(&new_lookup(arr), &with_snap(1, Snap::Downwards), &with_snap(1, Snap::Upwards), 0, arr.len() as i64 - 1),
        Ok((Some(l), Some(u))) if l.val == 0 && u.val == 2
    ));
}

#[test]
fn below_element() {
    let arr = &[0];
    assert!(matches!(
        find_range(&new_lookup(arr), &-1, &-1, 0, arr.len() as i64 - 1),
        Ok((None, None))
    ));
    assert!(matches!(
        find_range(&new_lookup(arr), &with_snap(-1, Snap::Upwards), &-1, 0, arr.len() as i64 - 1),
        Ok((None, None))
    ));
    assert!(matches!(
        find_range(&new_lookup(arr), &-1, &with_snap(-1, Snap::Upwards), 0, arr.len() as i64 - 1),
        Ok((None, Some(u))) if u.val == 0
    ));
    assert!(matches!(
        find_range(&new_lookup(arr), &with_snap(-1, Snap::Upwards), &with_snap(-1, Snap::Upwards), 0, arr.len() as i64 - 1),
        Ok((None, Some(u))) if u.val == 0
    ));
}

#[test]
fn above_element() {
    let arr = &[0];
    assert!(matches!(
        find_range(&new_lookup(arr), &1, &1, 0, arr.len() as i64 - 1),
        Ok((None, None))
    ));
    assert!(matches!(
        find_range(&new_lookup(arr), &with_snap(1, Snap::Downwards), &1, 0, arr.len() as i64 - 1),
        Ok((Some(l), None)) if l.val == 0
    ));
    assert!(matches!(
        find_range(&new_lookup(arr), &1, &with_snap(1, Snap::Downwards), 0, arr.len() as i64 - 1),
        Ok((None, None))
    ));
    assert!(matches!(
        find_range(&new_lookup(arr), &with_snap(1, Snap::Downwards), &with_snap(1, Snap::Downwards), 0, arr.len() as i64 - 1),
        Ok((Some(l), None)) if l.val == 0
    ));
}

/* REVERSED TARGETS */

#[test]
fn reversed_targets_subrange() {
    let arr = &[0, 1, 2, 3, 4];
    // What a query returns when the lower target is above the upper one is left open.
    // These cases pin the present answers so that they do not change unnoticed.
    assert!(matches!(
        find_range(&new_lookup(arr), &3, &1, 0, arr.len() as i64 - 1),
        Ok((None, None))
    ));
    assert!(matches!(
        find_range(&new_lookup(arr), &3, &with_snap(1, Snap::Downwards), 0, arr.len() as i64 - 1),
        Ok((None, None))
    ));
    assert!(matches!(
        find_range(&new_lookup(arr), &3, &with_snap(1, Snap::Upwards), 0, arr.len() as i64 - 1),
        Ok((None, Some(u))) if u.val == 2
    ));
    assert!(matches!(
        find_range(&new_lookup(arr), &with_snap(3, Snap::Downwards), &1, 0, arr.len() as i64 - 1),
        Ok((Some(l), None)) if l.val == 1
    ));
    assert!(matches!(
        find_range(&new_lookup(arr), &with_snap(3, Snap::Downwards), &with_snap(1, Snap::Downwards), 0, arr.len() as i64 - 1),
        Ok((Some(l), None)) if l.val == 1
    ));
    assert!(matches!(
        find_range(&new_lookup(arr), &with_snap(3, Snap::Downwards), &with_snap(1, Snap::Upwards), 0, arr.len() as i64 - 1),
        Ok((Some(l), Some(u))) if l.val == 1 && u.val == 2
    ));
    assert!(matches!(
        find_range(&new_lookup(arr), &with_snap(3, Snap::Upwards), &1, 0, arr.len() as i64 - 1),
        Ok((None, None))
    ));
    assert!(matches!(
        find_range(&new_lookup(arr), &with_snap(3, Snap::Upwards), &with_snap(1, Snap::Downwards), 0, arr.len() as i64 - 1),
        Ok((None, None))
    ));
    assert!(matches!(
        find_range(&new_lookup(arr), &with_snap(3, Snap::Upwards), &with_snap(1, Snap::Upwards), 0, arr.len() as i64 - 1),
        Ok((None, Some(u))) if u.val == 2
    ));
}

#[test]
fn reversed_targets_between() {
    let arr = &[0, 2, 4];
    // What a query returns when the lower target is above the upper one is left open.
    // These cases pin the present answers so that they do not change unnoticed.
    assert!(matches!(
        find_range(&new_lookup(arr), &3, &1, 0, arr.len() as i64 - 1),
        Ok((None, None))
    ));
    assert!(matches!(
        find_range(&new_lookup(arr), &3, &with_snap(1, Snap::Downwards), 0, arr.len() as i64 - 1),
        Ok((None, None))
    ));
    assert!(matches!(
        find_range(&new_lookup(arr), &3, &with_snap(1, Snap::Upwards), 0, arr.len() as i64 - 1),
        Ok((None, Some(u))) if u.val == 2
    ));
    assert!(matches!(
        find_range(&new_lookup(arr), &with_snap(3, Snap::Downwards), &1, 0, arr.len() as i64 - 1),
        Ok((Some(l), None)) if l.val == 0
    ));
    assert!(matches!(
        find_range(&new_lookup(arr), &with_snap(3, Snap::Downwards), &with_snap(1, Snap::Downwards), 0, arr.len() as i64 - 1),
        Ok((Some(l), None)) if l.val == 0
    ));
    assert!(matches!(
        find_range(&new_lookup(arr), &with_snap(3, Snap::Downwards), &with_snap(1, Snap::Upwards), 0, arr.len() as i64 - 1),
        Ok((Some(l), Some(u))) if l.val == 0 && u.val == 2
    ));
    assert!(matches!(
        find_range(&new_lookup(arr), &with_snap(3, Snap::Upwards), &1, 0, arr.len() as i64 - 1),
        Ok((None, None))
    ));
    assert!(matches!(
        find_range(&new_lookup(arr), &with_snap(3, Snap::Upwards), &with_snap(1, Snap::Downwards), 0, arr.len() as i64 - 1),
        Ok((None, None))
    ));
    assert!(matches!(
        find_range(&new_lookup(arr), &with_snap(3, Snap::Upwards), &with_snap(1, Snap::Upwards), 0, arr.len() as i64 - 1),
        Ok((None, Some(u))) if u.val == 2
    ));
}
