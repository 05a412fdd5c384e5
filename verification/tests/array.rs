use drop_tracker::DropTracker;
use rlox::array::Array;

#[allow(dead_code)]
#[derive(Debug, PartialEq)]
struct Foo {
    bar: usize,
    baz: String,
}

impl Foo {
    fn new(bar: usize, baz: String) -> Self {
        Self { bar, baz }
    }
}

#[test]
fn array_test_push_when_its_empty() {
    let mut array: Array<Foo> = Array::new();
    array.push(Foo::new(1, "lol".to_string()));

    assert_eq!(Some(Foo::new(1, "lol".to_string())), array.pop());
}

#[test]
fn array_test_push_when_its_not_empty() {
    let mut array: Array<Foo> = Array::new();
    array.push(Foo::new(1, "lol".to_string()));

    array.push(Foo::new(2, "wat".to_string()));
    assert_eq!(Some(Foo::new(2, "wat".to_string())), array.pop());
}

#[test]
fn array_test_push_when_its_not_empty_lots() {
    let mut array: Array<Foo> = Array::new();
    // Forcing to cause resizes
    for i in 0..128 {
        array.push(Foo::new(i, format!("I am {}", i)));
    }

    array.push(Foo::new(2, "wat".to_string()));
    assert_eq!(Some(Foo::new(2, "wat".to_string())), array.pop());
}

#[test]
fn array_test_is_empty_when_is_empty() {
    let array: Array<Foo> = Array::new();

    assert_eq!(true, array.is_empty())
}

#[test]
fn array_test_is_empty_when_is_not_empty() {
    let mut array: Array<Foo> = Array::new();
    array.push(Foo::new(1, "lol".to_string()));

    assert_eq!(false, array.is_empty())
}

#[test]
fn array_test_pop_none_when_its_empty() {
    let mut array: Array<usize> = Array::new();
    assert_eq!(true, array.is_empty());
    assert_eq!(array.pop(), None);
}

#[test]
fn array_test_pop_when_not_empty() {
    let mut array: Array<Foo> = Array::new();
    array.push(Foo::new(1, "lol".to_string()));

    assert_eq!(Some(Foo::new(1, "lol".to_string())), array.pop());
}

#[test]
fn array_test_index_when_not_empty() {
    let mut array: Array<String> = Array::new();
    array.push("Yooo".to_string());

    assert_eq!(&"Yooo".to_string(), array.index(0));
}

#[test]
fn array_test_index_mut_when_not_empty() {
    let mut array: Array<String> = Array::new();
    array.push("Yooo".to_string());
    let a = array.get_mut(0).unwrap();
    *a = "swapped".to_string();

    assert_eq!(&"swapped".to_string(), array.index(0))
}

#[test]
fn array_test_default() {
    let array: Array<String> = Array::new();
    assert_eq!(Array::default(), array);
}

#[test]
fn array_test_drop() {
    let mut tracker = DropTracker::new();

    let mut array = Array::new();

    array.push(tracker.track(1));
    array.push(tracker.track(2));
    array.push(tracker.track(3));

    // Assert that all elements in the vector are alive
    tracker
        .all_alive(1..=3)
        .expect("expected all elements to be alive");

    // Once the vector is dropped, all items should be dropped with it
    drop(array);
    tracker
        .all_dropped(1..=3)
        .expect("expected all elements to be dropped");
}

#[test]
fn array_get_is_none_out_of_bounds() {
    let mut array: Array<usize> = Array::new();
    assert_eq!(None, array.get(0));
    array.push(7);
    assert_eq!(Some(&7), array.get(0));
    assert_eq!(None, array.get(1));
}

#[test]
fn array_capacity_starts_at_eight_and_doubles() {
    let mut array: Array<usize> = Array::new();
    assert_eq!(0, array.capacity());
    array.push(0);
    assert_eq!(8, array.capacity());
    for i in 1..9 {
        array.push(i);
    }
    assert_eq!(16, array.capacity());
    assert_eq!(9, array.len());
}

#[test]
fn array_iter_walks_in_order() {
    let mut array: Array<usize> = Array::new();
    for i in 0..5 {
        array.write(i * 10);
    }
    let mut iter = array.iter();
    let mut seen = Vec::new();
    while let Some(value) = iter.next() {
        seen.push(*value);
    }
    assert_eq!(vec![0, 10, 20, 30, 40], seen);
    assert_eq!(None, iter.next());
}

#[test]
fn array_iter_mut_changes_in_place() {
    let mut array: Array<usize> = Array::new();
    for i in 0..3 {
        array.push(i);
    }
    let mut iter = array.iter_mut();
    while let Some(value) = iter.next() {
        *value += 1;
    }
    assert_eq!(Some(3), array.pop());
    assert_eq!(Some(2), array.pop());
    assert_eq!(Some(1), array.pop());
}

#[test]
fn array_set_replaces_a_value() {
    let mut array: Array<usize> = Array::new();
    array.push(1);
    array.push(2);
    array.set(0, 5);
    assert_eq!(Some(&5), array.get(0));
    assert_eq!(Some(&2), array.get(1));
}

#[test]
fn test_push_when_its_empty() {
    let mut array: Array<Foo> = Array::new();
    array.push(Foo::new(1, "lol".to_string()));

    assert_eq!(Some(Foo::new(1, "lol".to_string())), array.pop());
}

#[test]
fn test_push_when_its_not_empty() {
    let mut array: Array<Foo> = Array::new();
    array.push(Foo::new(1, "lol".to_string()));

    array.push(Foo::new(2, "wat".to_string()));
    assert_eq!(Some(Foo::new(2, "wat".to_string())), array.pop());
}

#[test]
fn test_push_when_its_not_empty_lots() {
    let mut array: Array<Foo> = Array::new();
    // Forcing to cause resizes
    for i in 0..128 {
        array.push(Foo::new(i, format!("I am {}", i)));
    }

    array.push(Foo::new(2, "wat".to_string()));
    assert_eq!(Some(Foo::new(2, "wat".to_string())), array.pop());
}

#[test]
fn test_is_empty_when_is_empty() {
    let array: Array<Foo> = Array::new();

    assert_eq!(true, array.is_empty())
}

#[test]
fn test_is_empty_when_is_not_empty() {
    let mut array: Array<Foo> = Array::new();
    array.push(Foo::new(1, "lol".to_string()));

    assert_eq!(false, array.is_empty())
}

#[test]
fn test_pop_none_when_its_empty() {
    let mut array: Array<usize> = Array::new();
    assert_eq!(true, array.is_empty());
    assert_eq!(array.pop(), None);
}

#[test]
fn test_pop_when_not_empty() {
    let mut array: Array<Foo> = Array::new();
    array.push(Foo::new(1, "lol".to_string()));

    assert_eq!(Some(Foo::new(1, "lol".to_string())), array.pop());
}

#[test]
fn test_index_when_not_empty() {
    let mut array: Array<String> = Array::new();
    array.push("Yooo".to_string());

    assert_eq!(Some(&"Yooo".to_string()), array.get(0));
}

#[test]
fn test_index_mut_when_not_empty() {
    let mut array: Array<String> = Array::new();
    array.push("Yooo".to_string());
    array.set(0, "swapped".to_string());

    assert_eq!(Some(&"swapped".to_string()), array.get(0))
}

#[test]
fn a_default_array_has_no_slots() {
    let array: Array<usize> = Array::default();
    assert_eq!(0, array.capacity());
    assert_eq!(0, array.len());
}

#[test]
fn write_grows_the_buffer_as_push_does() {
    let mut written: Array<usize> = Array::new();
    let mut pushed: Array<usize> = Array::new();
    let mut capacities = Vec::new();
    for i in 0..17 {
        written.write(i);
        pushed.push(i);
        assert_eq!(pushed.capacity(), written.capacity());
        capacities.push(written.capacity());
    }
    assert_eq!(8, capacities[0]);
    assert_eq!(8, capacities[7]);
    assert_eq!(16, capacities[8]);
    assert_eq!(16, capacities[15]);
    assert_eq!(32, capacities[16]);
    assert_eq!(pushed, written);
}

#[test]
fn test_default() {
    let array: Array<String> = Array::new();
    assert_eq!(Array::default(), array);
}

#[test]
fn test_drop() {
    let mut tracker = DropTracker::new();

    let mut array = Array::new();

    array.push(tracker.track(1));
    array.push(tracker.track(2));
    array.push(tracker.track(3));

    tracker
        .all_alive(1..=3)
        .expect("expected all elements to be alive");

    drop(array);
    tracker
        .all_dropped(1..=3)
        .expect("expected all elements to be dropped");
}
