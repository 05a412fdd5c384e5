use rlox::raw_array::RawArray;

#[test]
fn a_new_buffer_has_no_slots() {
    let buffer: RawArray<usize> = RawArray::new();
    assert_eq!(0, buffer.capacity());
    assert_eq!(RawArray::default(), buffer);
}

#[test]
fn slots_start_empty_and_keep_what_they_get() {
    let mut buffer: RawArray<String> = RawArray::with_capacity(3);
    assert_eq!(3, buffer.capacity());
    assert_eq!(None, buffer.get(0));
    buffer.set(1, "one".to_string());
    assert_eq!(Some(&"one".to_string()), buffer.get(1));
    assert_eq!(Some("one".to_string()), buffer.take(1));
    assert_eq!(None, buffer.get(1));
    assert_eq!(None, buffer.take(1));
}

#[test]
fn a_buffer_grows_to_eight_then_doubles_or_as_asked() {
    let mut buffer: RawArray<usize> = RawArray::new();
    buffer.grow(Some(100));
    assert_eq!(8, buffer.capacity());
    buffer.set(7, 70);
    buffer.grow(None);
    assert_eq!(16, buffer.capacity());
    buffer.grow(Some(20));
    assert_eq!(20, buffer.capacity());
    assert_eq!(Some(&70), buffer.get(7));
    assert_eq!(None, buffer.get(19));
}

#[test]
fn a_slot_can_change_in_place() {
    let mut buffer: RawArray<usize> = RawArray::with_capacity(2);
    assert!(buffer.get_mut(0).is_none());
    buffer.set(0, 1);
    *buffer.get_mut(0).unwrap() += 4;
    assert_eq!(Some(&5), buffer.get(0));
}
