use std::cmp::Ordering;

use option_vec::compare::{slots_cmp, slots_eq, slots_partial_cmp};
use option_vec::OptionVec;

#[test]
fn equality_ignores_vacant_slots() {
    let a = OptionVec::from(vec![Some(1), None, Some(2)]);
    let b = OptionVec::from(vec![None, Some(1), Some(2), None]);
    let c = OptionVec::from(vec![Some(1), Some(2)]);
    assert!(a == b);
    assert!(b == a);
    assert!(a == c);
    assert!(!(a != b));
}

#[test]
fn equality_tells_contents_apart() {
    let a = OptionVec::from(vec![Some(1), None, Some(2)]);
    assert!(a != OptionVec::from(vec![Some(1), None, Some(3)]));
    assert!(a != OptionVec::from(vec![Some(2), Some(1)]));
    assert!(a != OptionVec::from(vec![Some(1)]));
    assert!(a != OptionVec::from(vec![Some(1), Some(2), Some(3)]));
    assert!(a != OptionVec::<i32>::new());
    assert!(OptionVec::<i32>::new() == OptionVec::from(vec![None, None]));
}

#[test]
fn equality_with_plain_slots() {
    let a = OptionVec::from(vec![Some(1), None, Some(2)]);
    assert!(a == vec![None, Some(1), Some(2)]);
    assert!(a != vec![Some(1)]);
    let slots = [Some(1), Some(2), None];
    assert!(a == &slots[..]);
    assert!(a != &slots[..1]);
}

#[test]
fn equality_across_value_types() {
    let a = OptionVec::from(vec![Some(String::from("x")), None]);
    let b = OptionVec::from(vec![None, Some("x")]);
    assert!(a == b);
}

#[test]
fn order_is_lexicographic_over_values() {
    let a = OptionVec::from(vec![Some(1), None, Some(2)]);
    let b = OptionVec::from(vec![None, Some(1), Some(3)]);
    let c = OptionVec::from(vec![Some(1)]);
    let d = OptionVec::from(vec![None, None, Some(1), Some(2), None]);
    assert_eq!(a.partial_cmp(&b), Some(Ordering::Less));
    assert_eq!(b.partial_cmp(&a), Some(Ordering::Greater));
    assert_eq!(c.partial_cmp(&a), Some(Ordering::Less));
    assert_eq!(a.partial_cmp(&c), Some(Ordering::Greater));
    assert_eq!(a.partial_cmp(&d), Some(Ordering::Equal));
    assert!(a < b);
    assert!(a <= d);
    assert!(b > c);
    assert!(a >= d);
    assert_eq!(a.cmp(&b), Ordering::Less);
    assert_eq!(b.cmp(&c), Ordering::Greater);
    assert_eq!(a.cmp(&d), Ordering::Equal);
    let e: OptionVec<i32> = OptionVec::new();
    assert_eq!(e.cmp(&OptionVec::from(vec![None])), Ordering::Equal);
    assert_eq!(e.cmp(&c), Ordering::Less);
}

#[test]
fn order_of_incomparable_values() {
    let a = OptionVec::from(vec![Some(1.0), Some(f64::NAN), Some(0.0)]);
    let b = OptionVec::from(vec![Some(1.0), Some(2.0), Some(9.0)]);
    let c = OptionVec::from(vec![Some(0.5), Some(f64::NAN)]);
    assert_eq!(a.partial_cmp(&b), None);
    assert_eq!(c.partial_cmp(&a), Some(Ordering::Less));
    assert!(!(a < b));
    assert!(!(a >= b));
    assert!(a != a.clone());
}

#[test]
fn slot_comparisons() {
    let a = [Some(1), None, Some(2)];
    let b = [None, None, Some(1), Some(2)];
    let c = [Some(1), Some(3)];
    assert!(slots_eq(&a, &b));
    assert!(!slots_eq(&a, &c));
    assert_eq!(slots_partial_cmp(&a, &c), Some(Ordering::Less));
    assert_eq!(slots_cmp(&c, &b), Ordering::Greater);
    assert_eq!(slots_cmp(&a, &b), Ordering::Equal);
}
