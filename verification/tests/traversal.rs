use option_vec::{IntoIter, Iter, IterMut, OptionVec};

fn sample() -> OptionVec<i32> {
    OptionVec::from(vec![None, Some(1), Some(2), None, Some(3), None])
}

#[test]
fn iter_forward_and_backward() {
    let v = sample();
    assert_eq!(v.iter().collect::<Vec<_>>(), vec![&1, &2, &3]);
    assert_eq!(v.iter().rev().collect::<Vec<_>>(), vec![&3, &2, &1]);
}

#[test]
fn iter_from_both_ends() {
    let v = sample();
    let mut it: Iter<i32> = v.iter();
    assert_eq!(it.next(), Some(&1));
    assert_eq!(it.next_back(), Some(&3));
    assert_eq!(it.next_back(), Some(&2));
    assert_eq!(it.next(), None);
    assert_eq!(it.next_back(), None);
}

#[test]
fn iter_size_hint_counts_slots_left() {
    let v = sample();
    let mut it = v.iter();
    assert_eq!(it.size_hint(), (0, Some(6)));
    it.next();
    assert_eq!(it.size_hint(), (0, Some(4)));
    it.next_back();
    assert_eq!(it.size_hint(), (0, Some(2)));
    it.next();
    assert_eq!(it.size_hint(), (0, Some(1)));
    assert_eq!(it.next(), None);
    assert_eq!(it.size_hint(), (0, Some(0)));
}

#[test]
fn iter_clone_goes_its_own_way() {
    let v = sample();
    let mut a = v.iter();
    a.next();
    let mut b = a.clone();
    assert_eq!(a.next(), Some(&2));
    assert_eq!(b.next(), Some(&2));
    assert_eq!(b.next(), Some(&3));
    assert_eq!(a.next_back(), Some(&3));
}

#[test]
fn iter_over_reference() {
    let v = sample();
    let mut seen = Vec::new();
    for x in &v {
        seen.push(*x);
    }
    assert_eq!(seen, vec![1, 2, 3]);
}

#[test]
fn iter_of_vacant_slots_is_empty() {
    let v: OptionVec<i32> = OptionVec::from(vec![None, None]);
    assert_eq!(v.iter().next(), None);
    assert_eq!(v.iter().next_back(), None);
    let e: OptionVec<i32> = OptionVec::new();
    assert_eq!(e.iter().next(), None);
}

#[test]
fn iter_mut_forward_and_backward() {
    let mut v = sample();
    {
        let mut it: IterMut<i32> = v.iter_mut();
        assert_eq!(it.size_hint(), (0, Some(6)));
        let first = it.next().unwrap();
        let last = it.next_back().unwrap();
        *first += 10;
        *last += 100;
        assert_eq!(it.size_hint(), (0, Some(2)));
        let mid = it.next_back().unwrap();
        *mid = 0;
        assert!(it.next().is_none());
        assert!(it.next_back().is_none());
    }
    assert_eq!(v.inner(), &vec![None, Some(11), Some(0), None, Some(103), None]);
}

#[test]
fn iter_mut_reversed() {
    let mut v = sample();
    let mut n = 0;
    for x in v.iter_mut().rev() {
        n += 1;
        *x = *x * 10 + n;
    }
    assert_eq!(v.inner(), &vec![None, Some(13), Some(22), None, Some(31), None]);
}

#[test]
fn into_iter_forward_and_backward() {
    assert_eq!(sample().into_iter().collect::<Vec<_>>(), vec![1, 2, 3]);
    assert_eq!(sample().into_iter().rev().collect::<Vec<_>>(), vec![3, 2, 1]);
}

#[test]
fn into_iter_from_both_ends() {
    let mut it: IntoIter<i32> = sample().into_iter();
    assert_eq!(it.size_hint(), (0, Some(6)));
    assert_eq!(it.next_back(), Some(3));
    assert_eq!(it.size_hint(), (0, Some(4)));
    assert_eq!(it.next(), Some(1));
    assert_eq!(it.size_hint(), (0, Some(2)));
    assert_eq!(it.next(), Some(2));
    assert_eq!(it.next(), None);
    assert_eq!(it.next_back(), None);
    assert_eq!(it.size_hint(), (0, Some(0)));
}

#[test]
fn into_iter_moves_values_out() {
    let v = OptionVec::from(vec![Some(String::from("a")), None, Some(String::from("b"))]);
    let mut out = Vec::new();
    for s in v {
        out.push(s);
    }
    assert_eq!(out, vec![String::from("a"), String::from("b")]);
}
