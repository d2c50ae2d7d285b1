use std::cell::Cell;
use std::rc::Rc;

use b_section::combine::{FindOrdCombineLower, FindOrdCombineUpper};
use b_section::find::{find, FindOrd, FindOrdering, Snap};
use b_section::find_range::FindOrdRange;
use b_section::snapping::{with_snap, SnappingTarget};

const BELOW: i8 = -1;
const MATCH: i8 = 0;
const ABOVE: i8 = 1;

/// The outcome as a number for its side and the flag it carries.
fn code<E>(r: Result<FindOrdering, E>) -> Result<(i8, Option<bool>), E> {
    r.map(|o| match o {
        FindOrdering::ValBelowTarget { is_valid_res } => (BELOW, Some(is_valid_res)),
        FindOrdering::ValAboveTarget { is_valid_res } => (ABOVE, Some(is_valid_res)),
        FindOrdering::ValMatchesTarget => (MATCH, None),
    })
}

fn place<P: FindOrd<i64, String> + ?Sized>(target: &P, t: i64) -> Result<(i8, Option<bool>), String> {
    code(target.cmp(&t))
}

type Answer = Result<(i8, bool), &'static str>;

/// A target with a fixed answer that counts how often it was asked.
struct Fixed {
    answer: Answer,
    asked: Rc<Cell<u32>>,
}

impl FindOrd<i64, String> for Fixed {
    fn cmp(&self, _: &i64) -> Result<FindOrdering, String> {
        self.asked.set(self.asked.get() + 1);
        match self.answer {
            Err(msg) => Err(msg.to_string()),
            Ok((BELOW, is_valid_res)) => Ok(FindOrdering::ValBelowTarget { is_valid_res }),
            Ok((ABOVE, is_valid_res)) => Ok(FindOrdering::ValAboveTarget { is_valid_res }),
            Ok(_) => Ok(FindOrdering::ValMatchesTarget),
        }
    }
}

fn fixed(answers: &[Answer], asked: &Rc<Cell<u32>>) -> Vec<Box<dyn FindOrd<i64, String>>> {
    let mut combined: Vec<Box<dyn FindOrd<i64, String>>> = Vec::new();
    for a in answers {
        combined.push(Box::new(Fixed { answer: *a, asked: asked.clone() }));
    }
    combined
}

fn ask_lower(answers: &[Answer], down: bool, up: bool) -> (Result<(i8, Option<bool>), String>, u32) {
    let asked = Rc::new(Cell::new(0));
    let target = FindOrdCombineLower {
        combined: fixed(answers, &asked),
        snap_downwards: down,
        snap_upwards: up,
    };
    let r = place(&target, 0);
    (r, asked.get())
}

fn ask_upper(answers: &[Answer], down: bool, up: bool) -> (Result<(i8, Option<bool>), String>, u32) {
    let asked = Rc::new(Cell::new(0));
    let target = FindOrdCombineUpper {
        combined: fixed(answers, &asked),
        snap_downwards: down,
        snap_upwards: up,
    };
    let r = place(&target, 0);
    (r, asked.get())
}

#[test]
fn plain_target_places_values_and_keeps_none() {
    assert_eq!(place(&5i64, 4), Ok((BELOW, Some(false))));
    assert_eq!(place(&5i64, 6), Ok((ABOVE, Some(false))));
    assert_eq!(place(&5i64, 5), Ok((MATCH, None)));
    assert_eq!(place(&i64::MIN, i64::MAX), Ok((ABOVE, Some(false))));
}

#[test]
fn plain_target_matches_what_it_cannot_be_compared_with() {
    let r: Result<FindOrdering, String> = FindOrd::cmp(&1.5f64, &f64::NAN);
    assert_eq!(code(r), Ok((MATCH, None)));
    let r: Result<FindOrdering, String> = FindOrd::cmp(&1.5f64, &2.5f64);
    assert_eq!(code(r), Ok((ABOVE, Some(false))));
    let r: Result<FindOrdering, String> = FindOrd::cmp(&1.5f64, &0.5f64);
    assert_eq!(code(r), Ok((BELOW, Some(false))));
}

#[test]
fn snapping_target_keeps_values_on_its_side_only() {
    let down = with_snap(5i64, Snap::Downwards);
    assert_eq!(place(&down, 4), Ok((BELOW, Some(true))));
    assert_eq!(place(&down, 6), Ok((ABOVE, Some(false))));
    assert_eq!(place(&down, 5), Ok((MATCH, None)));
    let up = with_snap(5i64, Snap::Upwards);
    assert_eq!(place(&up, 4), Ok((BELOW, Some(false))));
    assert_eq!(place(&up, 6), Ok((ABOVE, Some(true))));
    assert_eq!(place(&up, 5), Ok((MATCH, None)));
    let none = SnappingTarget { value: 5i64, snap: None };
    assert_eq!(place(&none, 4), Ok((BELOW, Some(false))));
    assert_eq!(place(&none, 6), Ok((ABOVE, Some(false))));
    assert_eq!(place(&none, 5), Ok((MATCH, None)));
}

#[test]
fn with_snap_holds_the_value_and_the_direction() {
    let target = with_snap(17i64, Snap::Upwards);
    assert_eq!(target.value, 17);
    assert!(matches!(target.snap, Some(Snap::Upwards)));
    let target = with_snap(-3i64, Snap::Downwards);
    assert_eq!(target.value, -3);
    assert!(matches!(target.snap, Some(Snap::Downwards)));
}

#[test]
fn lower_combination_is_below_all_or_above_any() {
    let b = |v| Ok((BELOW, v));
    let a = |v| Ok((ABOVE, v));
    let m = Ok((MATCH, false));
    assert_eq!(ask_lower(&[b(false), b(true)], true, false).0, Ok((BELOW, Some(true))));
    assert_eq!(ask_lower(&[b(true), b(true)], false, true).0, Ok((BELOW, Some(false))));
    assert_eq!(ask_lower(&[b(false), a(false)], false, true).0, Ok((ABOVE, Some(true))));
    assert_eq!(ask_lower(&[a(true), b(true)], true, false).0, Ok((ABOVE, Some(false))));
    assert_eq!(ask_lower(&[a(true), m], true, true).0, Ok((ABOVE, Some(true))));
    assert_eq!(ask_lower(&[a(true), a(true)], false, false).0, Ok((ABOVE, Some(false))));
    assert_eq!(ask_lower(&[b(true), m], true, true).0, Ok((MATCH, None)));
    assert_eq!(ask_lower(&[m, m], true, true).0, Ok((MATCH, None)));
    assert_eq!(ask_lower(&[m, b(true), b(false)], true, true), (Ok((MATCH, None)), 3));
}

#[test]
fn upper_combination_is_above_all_or_below_any() {
    let b = |v| Ok((BELOW, v));
    let a = |v| Ok((ABOVE, v));
    let m = Ok((MATCH, false));
    assert_eq!(ask_upper(&[a(false), a(true)], false, true).0, Ok((ABOVE, Some(true))));
    assert_eq!(ask_upper(&[a(true), a(true)], true, false).0, Ok((ABOVE, Some(false))));
    assert_eq!(ask_upper(&[a(false), b(false)], true, false).0, Ok((BELOW, Some(true))));
    assert_eq!(ask_upper(&[b(true), a(true)], false, true).0, Ok((BELOW, Some(false))));
    assert_eq!(ask_upper(&[b(true), m], true, true).0, Ok((BELOW, Some(true))));
    assert_eq!(ask_upper(&[b(true), b(true)], false, false).0, Ok((BELOW, Some(false))));
    assert_eq!(ask_upper(&[a(true), m], true, true).0, Ok((MATCH, None)));
    assert_eq!(ask_upper(&[m, m], true, true).0, Ok((MATCH, None)));
    assert_eq!(ask_upper(&[m, a(true), a(false)], true, true), (Ok((MATCH, None)), 3));
}

#[test]
fn combination_of_nothing_is_on_its_own_side() {
    assert_eq!(ask_lower(&[], true, false), (Ok((BELOW, Some(true))), 0));
    assert_eq!(ask_lower(&[], false, true), (Ok((BELOW, Some(false))), 0));
    assert_eq!(ask_upper(&[], false, true), (Ok((ABOVE, Some(true))), 0));
    assert_eq!(ask_upper(&[], true, false), (Ok((ABOVE, Some(false))), 0));
}

#[test]
fn combination_fails_with_its_first_failing_target_and_asks_no_further() {
    let b = Ok((BELOW, false));
    let a = Ok((ABOVE, false));
    assert_eq!(
        ask_lower(&[b, Err("second"), a, Err("fourth")], true, true),
        (Err("second".to_string()), 2)
    );
    assert_eq!(
        ask_upper(&[a, b, Err("third"), Err("fourth")], true, true),
        (Err("third".to_string()), 3)
    );
    assert_eq!(ask_lower(&[Err("first")], false, false), (Err("first".to_string()), 1));
    assert_eq!(ask_upper(&[Err("first"), a], false, false), (Err("first".to_string()), 1));
}

#[test]
fn nested_combinations_of_integer_targets() {
    let at_least = |v: i64| -> Box<dyn FindOrd<i64, String>> { Box::new(with_snap(v, Snap::Upwards)) };
    let all = FindOrdCombineUpper {
        combined: vec![at_least(3), at_least(7)],
        snap_downwards: false,
        snap_upwards: true,
    };
    let any = FindOrdCombineLower {
        combined: vec![at_least(3), at_least(7)],
        snap_downwards: false,
        snap_upwards: true,
    };
    assert_eq!(place(&all, 2), Ok((BELOW, Some(false))));
    assert_eq!(place(&all, 5), Ok((BELOW, Some(false))));
    assert_eq!(place(&all, 7), Ok((MATCH, None)));
    assert_eq!(place(&all, 8), Ok((ABOVE, Some(true))));
    assert_eq!(place(&any, 2), Ok((BELOW, Some(false))));
    assert_eq!(place(&any, 3), Ok((MATCH, None)));
    assert_eq!(place(&any, 5), Ok((ABOVE, Some(true))));
    let arr = [0i64, 2, 4, 6, 8, 10];
    let lookup = |idx: i64| -> Result<i64, String> { Ok(arr[idx as usize]) };
    let first_all = find(&lookup, &all, 0, 5).unwrap().element.unwrap();
    assert_eq!((first_all.val, first_all.idx), (8, 4));
    let first_any = find(&lookup, &any, 0, 5).unwrap().element.unwrap();
    assert_eq!((first_any.val, first_any.idx), (4, 2));
}

#[test]
fn spanned_target_is_above_the_upper_or_below_the_lower() {
    let lower = with_snap(3i64, Snap::Downwards);
    let upper = with_snap(7i64, Snap::Upwards);
    let spanned = FindOrdRange { lower: &lower, upper: &upper };
    assert_eq!(place(&spanned, 2), Ok((BELOW, Some(false))));
    assert_eq!(place(&spanned, 3), Ok((MATCH, None)));
    assert_eq!(place(&spanned, 5), Ok((MATCH, None)));
    assert_eq!(place(&spanned, 7), Ok((MATCH, None)));
    assert_eq!(place(&spanned, 8), Ok((ABOVE, Some(false))));
    let crossed = FindOrdRange { lower: &upper, upper: &lower };
    assert_eq!(place(&crossed, 2), Ok((BELOW, Some(false))));
    assert_eq!(place(&crossed, 3), Ok((BELOW, Some(false))));
    assert_eq!(place(&crossed, 5), Ok((ABOVE, Some(false))));
    assert_eq!(place(&crossed, 8), Ok((ABOVE, Some(false))));
}

#[test]
fn spanned_target_asks_the_upper_target_first() {
    let asked_lower = Rc::new(Cell::new(0));
    let asked_upper = Rc::new(Cell::new(0));
    let span = |l: Answer, u: Answer| {
        asked_lower.set(0);
        asked_upper.set(0);
        let lower = Fixed { answer: l, asked: asked_lower.clone() };
        let upper = Fixed { answer: u, asked: asked_upper.clone() };
        let r = place(&FindOrdRange { lower: &lower, upper: &upper }, 0);
        (r, asked_lower.get(), asked_upper.get())
    };
    assert_eq!(span(Err("lower"), Err("upper")), (Err("upper".to_string()), 0, 1));
    assert_eq!(span(Err("lower"), Ok((ABOVE, true))), (Ok((ABOVE, Some(false))), 0, 1));
    assert_eq!(span(Err("lower"), Ok((BELOW, true))), (Err("lower".to_string()), 1, 1));
    assert_eq!(span(Err("lower"), Ok((MATCH, true))), (Err("lower".to_string()), 1, 1));
    assert_eq!(span(Ok((BELOW, true)), Ok((BELOW, true))), (Ok((BELOW, Some(false))), 1, 1));
    assert_eq!(span(Ok((ABOVE, true)), Ok((MATCH, true))), (Ok((MATCH, None)), 1, 1));
    assert_eq!(span(Ok((MATCH, true)), Ok((BELOW, true))), (Ok((MATCH, None)), 1, 1));
}
