use fake::{Fake, Faker};
use rlox::hashmap::{Entry, HashMap, OccupiedEntry};

#[allow(dead_code)]
#[derive(Clone, Debug, PartialEq, Eq, Hash, PartialOrd, Ord)]
struct Foo {
    bar: usize,
}

impl Foo {
    pub fn new(bar: usize) -> Self {
        Self { bar }
    }
}

impl Drop for Foo {
    fn drop(&mut self) {}
}

fn create_usize_map(quantity: usize) -> (Vec<(usize, Foo)>, HashMap<usize, Foo>) {
    let mut map: HashMap<usize, Foo> = HashMap::new();
    let mut pairs: Vec<(usize, Foo)> = Vec::new();
    for _ in 0..quantity {
        let key: usize = Faker.fake();
        let value: Foo = Foo::new(Faker.fake());
        map.set(key, value.clone());
        pairs.push((key, value))
    }

    (pairs, map)
}

fn create_string_map(quantity: usize) -> (Vec<(String, Foo)>, HashMap<String, Foo>) {
    let mut map: HashMap<String, Foo> = HashMap::new();
    let mut pairs: Vec<(String, Foo)> = Vec::new();
    for _ in 0..quantity {
        let key: String = Faker.fake();
        let value: Foo = Foo::new(Faker.fake());
        map.set(key.clone(), value.clone());
        pairs.push((key, value))
    }

    (pairs, map)
}

#[test]
fn test_set_empty() {
    let mut map: HashMap<&str, Foo> = HashMap::new();
    assert_eq!(true, map.is_empty());
    let result = map.set("1", Foo::new(2));
    assert_eq!(Some(&Foo { bar: 2 }), map.get(&"1"));
    assert_eq!(1, map.len());
    assert_eq!(true, result);
}

#[test]
fn test_set_non_empty_same_key() {
    let mut map: HashMap<String, Foo> = HashMap::new();
    let result1 = map.set("1".into(), Foo::new(1));
    let result2 = map.set("1".into(), Foo::new(2));
    assert_eq!(Some(&Foo::new(2)), map.get(&"1".to_string()));
    assert_eq!(1, map.len());
    assert_eq!(true, result1);
    assert_eq!(false, result2);
}

#[test]
fn test_set_non_empty_diff_key() {
    let mut map: HashMap<&str, Foo> = HashMap::new();
    map.set("1", Foo::new(1));
    map.set("2", Foo::new(2));
    assert_eq!(Some(&Foo::new(1)), map.get(&"1"));
    assert_eq!(Some(&Foo::new(2)), map.get(&"2"));
    assert_eq!(2, map.len());
}

#[test]
fn test_set_non_empty_many() {
    let (keys_values, map) = create_usize_map(100);
    for (key, value) in keys_values.iter() {
        assert_eq!(Some(value), map.get(key));
    }
    assert_eq!(100, map.len());
}

#[test]
fn test_delete_empty() {
    let mut map: HashMap<&str, Foo> = HashMap::new();
    assert_eq!(true, map.is_empty());
    assert_eq!(map.delete(&"1"), false);
}

#[test]
fn test_delete_non_empty_existing() {
    let mut map: HashMap<&str, Foo> = HashMap::new();
    map.set("1", Foo::new(1));
    assert_eq!(map.delete(&"1"), true);
    assert_eq!(map.get(&"1"), None);
}

#[test]
fn test_delete_non_empty_non_existing() {
    let mut map: HashMap<&str, Foo> = HashMap::new();
    map.set("1", Foo::new(1));
    map.set("2", Foo::new(2));
    assert_eq!(map.delete(&"0"), false);
    assert_eq!(Some(&Foo::new(1)), map.get(&"1"));
    assert_eq!(Some(&Foo::new(2)), map.get(&"2"));
}

#[test]
fn test_delete_non_empty_many() {
    let (keys_values, mut map) = create_string_map(1000);
    for (key, value) in keys_values.iter() {
        assert_eq!(Some(value), map.get(key));
    }
    assert_eq!(1000, map.len());

    for (key, _) in &keys_values {
        assert_eq!(true, map.delete(key));
    }
    assert_eq!(0, map.len());
}

#[test]
fn test_iter_empty() {
    let map: HashMap<usize, String> = HashMap::new();
    assert_eq!(map.iter().next(), None);
}

#[test]
fn test_iter() {
    let mut map: HashMap<usize, String> = HashMap::new();
    map.set(1, "1".into());
    map.set(2, "2".into());
    map.set(3, "3".into());

    let mut iter_entries = map.iter();
    // Order does not matter, for these particular set of entries they come like this.
    assert_eq!(iter_entries.next(), Some((&1, &"1".into())));
    assert_eq!(iter_entries.next(), Some((&3, &"3".into())));
    assert_eq!(iter_entries.next(), Some((&2, &"2".into())));
    assert_eq!(iter_entries.next(), None);
}

#[test]
fn set_after_delete_brings_the_key_back() {
    let mut map: HashMap<usize, usize> = HashMap::new();
    assert_eq!(true, map.insert(1, 10));
    assert_eq!(true, map.remove(&1));
    assert_eq!(0, map.len());
    assert_eq!(false, map.contains_key(&1));
    assert_eq!(true, map.insert(1, 11));
    assert_eq!(1, map.len());
    assert_eq!(Some(&11), map.get(&1));
    assert_eq!(true, map.contains_key(&1));
}

#[test]
fn capacity_grows_from_eight_by_doubling() {
    let mut map: HashMap<usize, usize> = HashMap::new();
    assert_eq!(0, map.capacity());
    for key in 0..6 {
        map.set(key, key);
    }
    assert_eq!(8, map.capacity());
    map.set(6, 6);
    assert_eq!(16, map.capacity());
    for key in 0..7 {
        assert_eq!(Some(&key), map.get(&key));
    }
}

#[test]
fn tombstones_do_not_hide_keys_behind_them() {
    let mut map: HashMap<usize, usize> = HashMap::new();
    for key in 0..200 {
        map.set(key, key * 2);
    }
    for key in 0..200 {
        if key % 3 == 0 {
            assert_eq!(true, map.delete(&key));
        }
    }
    for key in 0..200 {
        if key % 3 == 0 {
            assert_eq!(None, map.get(&key));
        } else {
            assert_eq!(Some(&(key * 2)), map.get(&key));
        }
    }
    for key in 200..400 {
        map.set(key, key);
    }
    for key in 0..200 {
        if key % 3 != 0 {
            assert_eq!(Some(&(key * 2)), map.get(&key));
        }
    }
}

#[test]
fn iter_yields_every_pair_once() {
    let mut map: HashMap<usize, usize> = HashMap::new();
    for key in 0..50 {
        map.set(key, key + 1);
    }
    map.delete(&7);
    let mut seen = Vec::new();
    let mut iter = map.iter();
    while let Some((key, value)) = iter.next() {
        assert_eq!(*key + 1, *value);
        seen.push(*key);
    }
    seen.sort();
    let expected: Vec<usize> = (0..50).filter(|key| *key != 7).collect();
    assert_eq!(expected, seen);
}

#[test]
fn entries_know_their_state() {
    let mut entry: Entry<usize, usize> = Entry::default();
    assert!(entry.is_vacant());
    assert!(!entry.is_occupied());
    assert!(entry.as_occupied().is_none());
    entry.occupy(OccupiedEntry::new(1, 2));
    assert!(entry.is_occupied());
    assert_eq!(&1, entry.as_occupied().unwrap().key());
    assert_eq!(&2, entry.as_occupied().unwrap().value());
    let tombstone: Entry<usize, usize> = Entry::Tombstone;
    assert!(tombstone.is_tombstone());
}

#[test]
fn occupied_entry_value_can_change() {
    let mut entry = OccupiedEntry::new("k", 1);
    *entry.value_mut() += 1;
    assert_eq!(&2, entry.value());
    entry.set_value(5);
    assert_eq!(&5, entry.value());
    assert_eq!(&"k", entry.key());
}

#[test]
fn test_iter_mut_empty() {
    let mut map: HashMap<usize, String> = HashMap::new();
    assert_eq!(map.iter_mut().next(), None);
}

#[test]
fn test_iter_mut() {
    let mut map: HashMap<usize, String> = HashMap::new();
    map.set(2, "Hello".into());
    map.set(1, "darkness".into());
    map.set(0, "into".to_string());

    let mut iter = map.iter_mut();
    while let Some((key, value)) = iter.next() {
        if *key == 2 {
            *value = "I've come to talk with you again".to_string();
        }
        if *key == 1 {
            *value = "Because a vision".to_string();
        }
        if *key == 0 {
            *value = "softly creeping".to_string();
        }
    }

    assert_eq!(
        Some(&"I've come to talk with you again".into()),
        map.get(&2)
    );
    assert_eq!(Some(&"Because a vision".into()), map.get(&1));
    assert_eq!(Some(&"softly creeping".into()), map.get(&0));
}

#[test]
fn entries_can_change_in_place() {
    let mut entry: Entry<usize, usize> = Entry::Occupied(OccupiedEntry::new(1, 2));
    if let Some(occupied) = entry.as_occupied_mut() {
        let (key, value) = occupied.pair_mut();
        assert_eq!(&1, key);
        *value = 3;
    }
    assert_eq!(&3, entry.as_occupied().unwrap().value());
    let mut vacant: Entry<usize, usize> = Entry::Vacant;
    assert!(vacant.as_occupied_mut().is_none());
}
