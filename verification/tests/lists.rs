use algorithms_rs::error::Error;
use algorithms_rs::lists::array::Array;
use algorithms_rs::lists::linked::LinkedList;

#[test]
fn array_test() -> Result<(), Error> {
    let mut raw = Array::new();
    raw.append(80);
    raw.append(100);

    assert_eq!(raw.get(0), Some(&80));
    assert_eq!(raw.get(1), Some(&100));

    assert_eq!(*raw.get(0).unwrap(), 80);
    assert_eq!(*raw.get(1).unwrap(), 100);

    raw.pop();
    assert_eq!(raw.get(1), None);
    raw.pop();
    assert_eq!(raw.get(0), None);
    assert_eq!(raw.pop(), None);

    raw.insert(0, 5).unwrap();
    assert_eq!(raw.get(0), Some(&5));
    raw.insert(0, 55).unwrap();
    assert_eq!(raw.get(0), Some(&55));

    assert_eq!(raw.find(&55), Some(0));
    assert_eq!(raw.find(&5), Some(1));

    raw.remove(1).unwrap();
    assert_eq!(raw.get(1), None);

    assert!(raw.contains(&55));

    for i in 0..100 {
        raw.append(i);
    }
    assert_eq!(raw.len(), 101);
    assert_eq!(raw.get(100), Some(&99));

    let ele = raw.get_mut(0).unwrap();
    *ele = 10;
    let ele = raw.get(0);
    assert_eq!(ele, Some(&10));
    Ok(())
}

#[test]
fn linked_test() {
    let mut ls = LinkedList::new();
    ls.push_back(10);
    ls.push_back(50);
    ls.push_back(60);

    ls.push_front(5);

    ls.pop();
    assert_eq!(ls.to_vec(), vec![5, 10, 50, 60]);
}

#[test]
fn append_pop_counts() {
    // a run of appends followed by fewer pops keeps the prefix in order
    let values = [3, 1, 4, 1, 5, 9, 2, 6];
    let mut arr = Array::new();
    for v in values {
        arr.append(v);
    }
    for _ in 0..3 {
        arr.pop();
    }
    assert_eq!(arr.len(), 5);
    for i in 0..5 {
        assert_eq!(arr.get(i), Some(&values[i]));
    }
}

#[test]
fn insert_then_remove_is_noop() {
    let mut arr = Array::new();
    arr.append(7);
    arr.append(8);
    arr.append(9);
    arr.insert(1, 42).unwrap();
    let removed = arr.remove(1).unwrap();
    assert_eq!(removed, 42);
    assert_eq!(arr.len(), 3);
    assert_eq!(arr.get(0), Some(&7));
    assert_eq!(arr.get(1), Some(&8));
    assert_eq!(arr.get(2), Some(&9));
}

#[test]
fn capacity_never_decreases() {
    let mut arr = Array::with_capacity(1);
    let mut last_cap = arr.cap();
    assert_eq!(last_cap, 1);
    for v in 0..40 {
        arr.append(v);
        assert!(arr.cap() >= last_cap);
        assert!(arr.cap() >= arr.len());
        last_cap = arr.cap();
    }
    arr.insert(0, 99).unwrap();
    assert!(arr.cap() >= last_cap);
    assert!(arr.cap() >= arr.len());
    last_cap = arr.cap();
    arr.remove(5).unwrap();
    arr.pop();
    assert!(arr.cap() >= last_cap);
    assert!(arr.cap() >= arr.len());
}

#[test]
fn growth_doubles_capacity() {
    let mut arr = Array::with_capacity(0);
    assert_eq!(arr.cap(), 0);
    arr.append(1);
    assert_eq!(arr.cap(), 1);
    arr.append(2);
    assert_eq!(arr.cap(), 2);
    arr.append(3);
    assert_eq!(arr.cap(), 4);
    arr.append(4);
    arr.append(5);
    assert_eq!(arr.cap(), 8);
}

#[test]
fn get_out_of_bounds_is_none() {
    let mut arr = Array::new();
    assert_eq!(arr.get(0), None);
    assert_eq!(arr.get(7), None);
    arr.append(11);
    arr.append(12);
    assert_eq!(arr.get(2), None);
    assert_eq!(arr.get(usize::MAX), None);
}

#[test]
fn find_returns_smallest_index() {
    let mut arr = Array::new();
    arr.append(5);
    arr.append(3);
    arr.append(5);
    arr.append(3);
    assert_eq!(arr.find(&5), Some(0));
    assert_eq!(arr.find(&3), Some(1));
    assert_eq!(arr.find(&7), None);
    assert!(arr.contains(&3));
    assert!(!arr.contains(&7));
}

#[test]
fn scenario_insert_find() {
    let mut arr = Array::new();
    arr.append(80);
    arr.append(100);
    arr.insert(0, 5).unwrap();
    assert_eq!(arr.get(0), Some(&5));
    assert_eq!(arr.get(1), Some(&80));
    assert_eq!(arr.get(2), Some(&100));
    arr.insert(0, 55).unwrap();
    assert_eq!(arr.get(0), Some(&55));
    assert_eq!(arr.get(1), Some(&5));
    assert_eq!(arr.get(2), Some(&80));
    assert_eq!(arr.get(3), Some(&100));
    assert_eq!(arr.find(&55), Some(0));
    assert_eq!(arr.find(&5), Some(1));

    // from [55, 5, 80, 100], removing index 1 yields 5 and keeps the rest
    let removed = arr.remove(1).unwrap();
    assert_eq!(removed, 5);
    assert_eq!(arr.get(0), Some(&55));
    assert_eq!(arr.get(1), Some(&80));
    assert_eq!(arr.get(2), Some(&100));
    assert!(arr.contains(&55));
}

#[test]
fn scenario_append_pop() {
    let mut arr = Array::new();
    arr.append(80);
    arr.append(100);
    assert_eq!(arr.get(0), Some(&80));
    assert_eq!(arr.get(1), Some(&100));
    assert_eq!(arr.pop(), Some(100));
    assert_eq!(arr.pop(), Some(80));
    assert_eq!(arr.pop(), None);
}

#[test]
fn scenario_many_appends() {
    let mut arr = Array::new();
    for v in 0..101 {
        arr.append(v);
    }
    assert_eq!(arr.len(), 101);
    assert!(arr.cap() >= 101);
    assert_eq!(arr.get(100), Some(&100));
}

#[test]
fn insert_rejects_end_and_beyond() {
    let mut arr = Array::new();
    arr.append(1);
    arr.append(2);
    // the end position is rejected: appending must go through `append`
    assert!(matches!(arr.insert(2, 9), Err(Error::IndexOfBounds)));
    assert!(matches!(arr.insert(10, 9), Err(Error::IndexOfBounds)));
    assert_eq!(arr.len(), 2);
}

#[test]
fn remove_rejects_out_of_bounds() {
    let mut arr = Array::<i32>::new();
    assert!(matches!(arr.remove(0), Err(Error::IndexOfBounds)));
    arr.append(4);
    assert!(matches!(arr.remove(1), Err(Error::IndexOfBounds)));
    assert_eq!(arr.len(), 1);
}

#[test]
fn insert_grows_full_buffer() {
    let mut arr = Array::with_capacity(2);
    arr.append(1);
    arr.append(2);
    assert_eq!(arr.cap(), 2);
    arr.insert(0, 0).unwrap();
    assert_eq!(arr.cap(), 4);
    assert_eq!(arr.get(0), Some(&0));
    assert_eq!(arr.get(1), Some(&1));
    assert_eq!(arr.get(2), Some(&2));

    let mut empty = Array::with_capacity(0);
    empty.insert(0, 77).unwrap();
    assert_eq!(empty.cap(), 1);
    assert_eq!(empty.get(0), Some(&77));
}

#[test]
fn to_vec_is_live_prefix() {
    let mut arr = Array::with_capacity(8);
    arr.append(1);
    arr.append(2);
    arr.append(3);
    arr.pop();
    assert_eq!(arr.to_vec(), vec![1, 2]);
    let empty = Array::<i32>::new();
    assert_eq!(empty.to_vec(), Vec::<i32>::new());
}

#[test]
fn is_empty_tracks_len() {
    let mut arr = Array::new();
    assert!(arr.is_empty());
    arr.append(1);
    assert!(!arr.is_empty());
    arr.pop();
    assert!(arr.is_empty());
}

#[test]
fn linked_push_front_and_back_order() {
    let mut ls = LinkedList::new();
    ls.push_front(2);
    ls.push_front(1);
    ls.push_back(3);
    assert_eq!(ls.to_vec(), vec![1, 2, 3]);
    assert_eq!(ls.pop(), None);
    assert_eq!(ls.to_vec(), vec![1, 2, 3]);
}
