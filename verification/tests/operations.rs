use option_vec::OptionVec;

fn raw<T>(v: &OptionVec<T>) -> &Vec<Option<T>> {
    v.inner()
}

#[test]
fn new_has_no_slots() {
    let v: OptionVec<i32> = OptionVec::new();
    assert_eq!(v.capacity(), 0);
    assert_eq!(v.len(), 0);
    assert!(v.is_empty());
    assert_eq!(raw(&v).len(), 0);
}

#[test]
fn default_has_no_slots() {
    let v: OptionVec<i32> = Default::default();
    assert_eq!(v.capacity(), 0);
    assert!(v.is_empty());
}

#[test]
fn with_capacity_gives_vacant_slots() {
    let mut v: OptionVec<i32> = OptionVec::with_capacity(3);
    assert_eq!(v.capacity(), 3);
    assert_eq!(v.len(), 0);
    assert!(v.is_empty());
    assert_eq!(raw(&v), &vec![None, None, None]);
    assert_eq!(v.insert(10), 0);
    assert_eq!(v.insert(11), 1);
    assert_eq!(v.insert(12), 2);
    assert_eq!(v.insert(13), 3);
    assert_eq!(v.capacity(), 4);
}

#[test]
fn with_capacity_zero_is_new() {
    let v: OptionVec<i32> = OptionVec::with_capacity(0);
    assert_eq!(v.capacity(), 0);
    assert!(v == OptionVec::<i32>::new());
}

#[test]
fn count_never_exceeds_capacity() {
    let mut v = OptionVec::from(vec![Some(1), None, Some(3), None]);
    assert!(v.len() <= v.capacity());
    v.insert(5);
    v.insert(6);
    v.insert(7);
    assert_eq!(v.len(), 5);
    assert_eq!(v.capacity(), 5);
    v.remove(0);
    assert!(v.len() <= v.capacity());
}

#[test]
fn empty_exactly_when_no_handle_is_valid() {
    let v: OptionVec<i32> = OptionVec::from(vec![None, None]);
    assert_eq!(v.capacity(), 2);
    assert_eq!(v.len(), 0);
    assert!(v.is_empty());
    assert!(!v.contains(0));
    assert!(!v.contains(1));
    let w = OptionVec::from(vec![None, Some(1)]);
    assert!(!w.is_empty());
    assert!(w.contains(1));
}

#[test]
fn insert_takes_smallest_vacant_handle() {
    let mut v = OptionVec::from(vec![Some('a'), None, Some('b')]);
    assert_eq!(v.insert('c'), 1);
    assert_eq!(raw(&v), &vec![Some('a'), Some('c'), Some('b')]);
}

#[test]
fn insert_appends_when_full() {
    let mut v = OptionVec::from(vec![Some('a'), Some('b')]);
    assert_eq!(v.insert('c'), 2);
    assert_eq!(raw(&v), &vec![Some('a'), Some('b'), Some('c')]);
    let mut e: OptionVec<char> = OptionVec::new();
    assert_eq!(e.insert('x'), 0);
    assert_eq!(raw(&e), &vec![Some('x')]);
}

#[test]
fn removed_handle_is_reused() {
    let mut v = OptionVec::from(vec![Some(1), Some(2), Some(3)]);
    assert_eq!(v.remove(1), Some(2));
    assert_eq!(v.get(0), Some(&1));
    assert_eq!(v.get(2), Some(&3));
    assert_eq!(v.insert(9), 1);
    assert_eq!(v.remove(2), Some(3));
    assert_eq!(v.remove(0), Some(1));
    assert_eq!(v.insert(7), 0);
    assert_eq!(v.insert(8), 2);
    assert_eq!(raw(&v), &vec![Some(7), Some(9), Some(8)]);
}

#[test]
fn remove_of_vacant_or_out_of_range_changes_nothing() {
    let mut v = OptionVec::from(vec![Some(1), None, Some(3)]);
    assert_eq!(v.remove(1), None);
    assert_eq!(v.remove(3), None);
    assert_eq!(v.remove(usize::MAX), None);
    assert_eq!(raw(&v), &vec![Some(1), None, Some(3)]);
    assert_eq!(v.remove(2), Some(3));
    assert_eq!(v.remove(2), None);
    assert_eq!(raw(&v), &vec![Some(1), None, None]);
}

#[test]
fn contains_and_get() {
    let mut v = OptionVec::from(vec![Some(1), None, Some(3)]);
    assert!(v.contains(0));
    assert!(!v.contains(1));
    assert!(v.contains(2));
    assert!(!v.contains(3));
    assert_eq!(v.get(0), Some(&1));
    assert_eq!(v.get(1), None);
    assert_eq!(v.get(3), None);
    assert_eq!(v.get_mut(1), None);
    assert_eq!(v.get_mut(7), None);
    match v.get_mut(2) {
        Some(x) => *x = 30,
        None => panic!("handle 2 holds a value"),
    }
    assert_eq!(raw(&v), &vec![Some(1), None, Some(30)]);
}

#[test]
fn index_reads_and_writes() {
    let mut v = OptionVec::from(vec![Some(1), None, Some(3)]);
    assert_eq!(v[0], 1);
    assert_eq!(v[2], 3);
    v[2] = 33;
    v[0] += 1;
    assert_eq!(raw(&v), &vec![Some(2), None, Some(33)]);
}

#[test]
fn inner_mut_changes_the_slots() {
    let mut v = OptionVec::from(vec![Some(1)]);
    v.inner_mut().push(None);
    v.inner_mut().push(Some(3));
    assert_eq!(v.capacity(), 3);
    assert_eq!(v.len(), 2);
    assert_eq!(v.insert(2), 1);
}

#[test]
fn round_trip_through_vec() {
    let slots = vec![None, Some(1), None, Some(2), None];
    let v = OptionVec::from(slots.clone());
    let back: Vec<Option<i32>> = v.into();
    assert_eq!(back, slots);
}

#[test]
fn retain_vacates_in_place() {
    let mut v = OptionVec::from(vec![Some(1), Some(2), Some(3)]);
    v.retain(|n| *n >= 2);
    assert_eq!(v.len(), 2);
    assert_eq!(raw(&v), &vec![None, Some(2), Some(3)]);
    assert_eq!(v.iter().collect::<Vec<_>>(), vec![&2, &3]);
    assert_eq!(v.insert(0), 0);
}

#[test]
fn retain_keeps_vacant_slots_vacant() {
    let mut v = OptionVec::from(vec![None, Some(5), None, Some(6), None]);
    v.retain(|_| true);
    assert_eq!(raw(&v), &vec![None, Some(5), None, Some(6), None]);
    v.retain(|_| false);
    assert_eq!(raw(&v), &vec![None, None, None, None, None]);
    assert_eq!(v.capacity(), 5);
}

#[test]
fn retain_may_change_values_and_asks_in_handle_order() {
    let mut v = OptionVec::from(vec![Some(1), None, Some(2), Some(3), Some(4)]);
    let mut seen = Vec::new();
    v.retain(|n| {
        seen.push(*n);
        *n *= 10;
        *n != 30
    });
    assert_eq!(seen, vec![1, 2, 3, 4]);
    assert_eq!(raw(&v), &vec![Some(10), None, Some(20), None, Some(40)]);
}

#[test]
fn pop_front_and_back_on_sparse_slots() {
    let mut v = OptionVec::from(vec![None, Some(1), None, Some(2), Some(3), None]);
    assert_eq!(v.pop_front(), Some(1));
    assert_eq!(raw(&v), &vec![None, None, None, Some(2), Some(3), None]);
    assert_eq!(v.pop_back(), Some(3));
    assert_eq!(raw(&v), &vec![None, None, None, Some(2), None, None]);
    assert_eq!(v.pop_back(), Some(2));
    assert_eq!(v.pop_front(), None);
    assert_eq!(v.pop_back(), None);
    assert_eq!(v.capacity(), 6);
    let mut e: OptionVec<i32> = OptionVec::new();
    assert_eq!(e.pop_front(), None);
    assert_eq!(e.pop_back(), None);
}

#[test]
fn clear_drops_every_slot() {
    let mut v = OptionVec::from(vec![Some(1), None, Some(3)]);
    v.clear();
    assert_eq!(v.capacity(), 0);
    assert_eq!(v.len(), 0);
    assert!(v.is_empty());
    assert_eq!(v.insert(4), 0);
}

#[test]
fn reserve_leaves_slots_alone() {
    let mut v = OptionVec::from(vec![Some(1), None, Some(3)]);
    v.reserve(0);
    v.reserve(1);
    v.reserve(100);
    assert_eq!(raw(&v), &vec![Some(1), None, Some(3)]);
    assert!(v.inner().capacity() >= 102);
    v.reserve(usize::MAX);
    assert_eq!(raw(&v), &vec![Some(1), None, Some(3)]);
}

#[test]
fn reserve_exact_leaves_slots_alone() {
    let mut v = OptionVec::from(vec![Some(1), None, Some(3)]);
    v.reserve_exact(0);
    v.reserve_exact(1);
    assert_eq!(raw(&v), &vec![Some(1), None, Some(3)]);
    v.reserve_exact(50);
    assert_eq!(raw(&v), &vec![Some(1), None, Some(3)]);
    assert!(v.inner().capacity() >= 52);
    v.reserve_exact(usize::MAX);
    assert_eq!(raw(&v), &vec![Some(1), None, Some(3)]);
}

#[test]
fn shrink_to_fit_keeps_inner_vacant_slots() {
    let mut v = OptionVec::from(vec![None, Some(1), None, Some(2), None, None]);
    v.reserve(64);
    v.shrink_to_fit();
    assert_eq!(raw(&v), &vec![None, Some(1), None, Some(2)]);
    assert!(v.inner().capacity() < 64);
    assert_eq!(v.get(1), Some(&1));
    assert_eq!(v.get(3), Some(&2));
    v.shrink_to_fit();
    assert_eq!(raw(&v), &vec![None, Some(1), None, Some(2)]);
    let mut e: OptionVec<i32> = OptionVec::from(vec![None, None]);
    e.shrink_to_fit();
    assert_eq!(e.capacity(), 0);
}

#[test]
fn clone_trims_and_keeps_handles() {
    let a = OptionVec::from(vec![None, Some(1), None, Some(2), None]);
    let b = a.clone();
    assert_eq!(raw(&b), &vec![None, Some(1), None, Some(2)]);
    assert_eq!(raw(&a).len(), 5);
    assert!(a == b);
    let mut c = OptionVec::from(vec![Some(7), Some(8), Some(9), None, Some(10), Some(11)]);
    c.clone_from(&a);
    assert_eq!(raw(&c), &vec![None, Some(1), None, Some(2)]);
    let mut d = OptionVec::from(vec![Some(7)]);
    d.clone_from(&a);
    assert_eq!(raw(&d), &vec![None, Some(1), None, Some(2)]);
    let e: OptionVec<i32> = OptionVec::from(vec![None, None]);
    assert_eq!(e.clone().capacity(), 0);
}

#[test]
fn extend_fills_vacant_slots_first() {
    let mut v = OptionVec::from(vec![Some(1), None, Some(3), None]);
    v.extend(vec![10, 20, 30]);
    assert_eq!(raw(&v), &vec![Some(1), Some(10), Some(3), Some(20), Some(30)]);
    v.extend(Vec::new());
    assert_eq!(v.len(), 5);
}

#[test]
fn from_iter_gives_handles_in_order() {
    let v = OptionVec::from_iter(vec!['x', 'y', 'z']);
    assert_eq!(raw(&v), &vec![Some('x'), Some('y'), Some('z')]);
    let e: OptionVec<char> = OptionVec::from_iter(Vec::new());
    assert_eq!(e.capacity(), 0);
}

#[test]
fn entries_pair_handles_with_values() {
    let v = OptionVec::from(vec![None, Some('a'), None, Some('b')]);
    assert_eq!(v.entries(), vec![(1, &'a'), (3, &'b')]);
    let e: OptionVec<char> = OptionVec::from(vec![None]);
    assert!(e.entries().is_empty());
}

#[test]
fn debug_shows_a_map_of_occupied_handles() {
    let v = OptionVec::from(vec![Some(1), None, Some(5)]);
    assert_eq!(format!("{:?}", v), "{0: 1, 2: 5}");
    let e: OptionVec<i32> = OptionVec::from(vec![None]);
    assert_eq!(format!("{:?}", e), "{}");
}

#[test]
fn shortfall_counts_what_vacant_slots_do_not_cover() {
    let v = OptionVec::from(vec![Some(1), None, Some(3), None]);
    assert_eq!(v.shortfall(0), 0);
    assert_eq!(v.shortfall(1), 0);
    assert_eq!(v.shortfall(2), 0);
    assert_eq!(v.shortfall(3), 1);
    assert_eq!(v.shortfall(10), 8);
    assert_eq!(v.shortfall(usize::MAX), usize::MAX - 2);
    let full = OptionVec::from(vec![Some(1), Some(2)]);
    assert_eq!(full.shortfall(0), 0);
    assert_eq!(full.shortfall(5), 5);
    let none: OptionVec<i32> = OptionVec::new();
    assert_eq!(none.shortfall(7), 7);
}

#[test]
fn slots_grow_by_the_shortfall() {
    let mut v = OptionVec::from(vec![Some(1), None, Some(3), None]);
    let k = v.shortfall(5);
    assert_eq!(k, 3);
    let slots = v.capacity();
    v.extend(vec![10, 20, 30, 40, 50]);
    assert_eq!(v.capacity(), slots + k);
    assert_eq!(v.shortfall(1), 1);
}

#[test]
fn reserve_asks_for_the_shortfall_only() {
    let mut v = OptionVec::from(vec![Some(1), None, None]);
    let room = v.inner().capacity();
    v.reserve(2);
    assert_eq!(v.inner().capacity(), room);
    v.reserve_exact(2);
    assert_eq!(v.inner().capacity(), room);
    v.reserve_exact(5);
    assert!(v.inner().capacity() >= v.capacity() + 3);
    assert_eq!(v.inner(), &vec![Some(1), None, None]);
    let mut w = OptionVec::from(vec![Some(1), None, None]);
    w.reserve(5);
    assert!(w.inner().capacity() >= w.capacity() + 3);
    assert_eq!(w.inner(), &vec![Some(1), None, None]);
}
