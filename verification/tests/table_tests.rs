use linen::vm::chunk::object::{hash_string, NativeObject, Obj, StringObject};
use linen::vm::chunk::table::{Entry, Table};
use linen::vm::chunk::value::{Val, ValueType};

fn key(text: &str) -> StringObject {
    StringObject::new(text)
}

fn num(value: f64) -> Val {
    Val::number(value.to_bits())
}

#[test]
fn hashes_with_fnv1a() {
    assert_eq!(hash_string(""), 2166136261);
    assert_eq!(hash_string("a"), 0xe40c292c);
    assert_eq!(hash_string("hello"), 0x4f9f2cab);
    assert_eq!(hash_string("foobar"), 0xbf9cf968);
}

#[test]
fn equal_strings_have_equal_hashes() {
    let a = StringObject::new("counter");
    let b = StringObject::from_bytes("counter".as_bytes());
    assert_eq!(a.hash, b.hash);
    assert_eq!(a, b);
    assert_eq!(a.length, 7);
    assert_eq!(a.chars, "counter".as_bytes().to_vec());
}

#[test]
fn string_object_reads_back_its_text() {
    assert_eq!(StringObject::new("hi there").as_str(), "hi there");
    assert_eq!(StringObject::new("héllo").as_str(), "héllo");
    assert_eq!(StringObject::new("").as_str(), "<main>");
    assert!(StringObject::new("").is_empty());
    assert!(!StringObject::new("x").is_empty());
}

#[test]
fn new_table_is_empty() {
    let table = Table::new();
    assert_eq!(table.capacity, 0);
    assert_eq!(table.count, 0);
    assert_eq!(table.table_get(&key("x")), None);
}

#[test]
fn first_insert_grows_to_eight_buckets() {
    let mut table = Table::new();
    assert!(table.set_table(key("x"), num(1.0)));
    assert_eq!(table.capacity, 8);
    assert_eq!(table.count, 1);
    assert_eq!(table.table_get(&key("x")), Some(num(1.0)));
    assert_eq!(table.table_get(&key("y")), None);
}

#[test]
fn setting_a_key_again_replaces_its_value() {
    let mut table = Table::new();
    assert!(table.set_table(key("x"), num(1.0)));
    assert!(!table.set_table(key("x"), num(2.0)));
    assert_eq!(table.count, 1);
    assert_eq!(table.table_get(&key("x")), Some(num(2.0)));
}

#[test]
fn load_stays_within_three_quarters() {
    let mut table = Table::new();
    let mut capacities = Vec::new();
    for i in 0..100 {
        table.set_table(key(&format!("name{}", i)), num(i as f64));
        assert!(4 * table.count <= 3 * table.capacity);
        if capacities.last() != Some(&table.capacity) {
            capacities.push(table.capacity);
        }
    }
    assert_eq!(capacities, vec![8, 16, 32, 64, 128, 256]);
    for i in 0..100 {
        assert_eq!(table.table_get(&key(&format!("name{}", i))), Some(num(i as f64)));
    }
    assert_eq!(table.table_get(&key("name100")), None);
}

#[test]
fn seventh_key_doubles_eight_buckets() {
    let mut table = Table::new();
    for i in 0..6 {
        table.set_table(key(&format!("k{}", i)), Val::nil());
    }
    assert_eq!(table.capacity, 8);
    table.set_table(key("k6"), Val::nil());
    assert_eq!(table.capacity, 16);
    assert_eq!(table.count, 7);
}

#[test]
fn delete_leaves_a_tombstone_that_is_reused() {
    let mut table = Table::new();
    table.set_table(key("a"), num(1.0));
    table.set_table(key("b"), num(2.0));
    assert!(table.table_delete(&key("a")));
    assert!(!table.table_delete(&key("a")));
    assert_eq!(table.count, 2);
    assert_eq!(table.table_get(&key("a")), None);
    assert_eq!(table.table_get(&key("b")), Some(num(2.0)));
    let tombstones = table
        .entries
        .iter()
        .filter(|e| e.key.is_none() && e.value.value_type != ValueType::Nil)
        .count();
    assert_eq!(tombstones, 1);
    assert!(table.set_table(key("a"), num(3.0)));
    assert_eq!(table.count, 2);
    assert_eq!(table.table_get(&key("a")), Some(num(3.0)));
}

#[test]
fn delete_on_an_empty_table_finds_nothing() {
    let mut table = Table::new();
    assert!(!table.table_delete(&key("a")));
}

#[test]
fn colliding_keys_are_kept_apart() {
    // Both keys are given the same hash, so they start at the same bucket.
    let mut a = key("a");
    let mut b = key("b");
    a.hash = 8;
    b.hash = 16;
    let mut table = Table::new();
    table.set_table(a.clone(), num(1.0));
    table.set_table(b.clone(), num(2.0));
    assert_eq!(table.table_get(&a), Some(num(1.0)));
    assert_eq!(table.table_get(&b), Some(num(2.0)));
    assert!(table.table_delete(&a));
    assert_eq!(table.table_get(&b), Some(num(2.0)));
}

#[test]
fn add_all_copies_every_key() {
    let mut from = Table::new();
    from.set_table(key("a"), num(1.0));
    from.set_table(key("b"), num(2.0));
    from.table_delete(&key("b"));
    from.set_table(key("c"), num(3.0));
    let mut to = Table::new();
    to.set_table(key("a"), num(0.0));
    to.set_table(key("z"), num(9.0));
    to.table_add_all(&from);
    assert_eq!(to.table_get(&key("a")), Some(num(1.0)));
    assert_eq!(to.table_get(&key("b")), None);
    assert_eq!(to.table_get(&key("c")), Some(num(3.0)));
    assert_eq!(to.table_get(&key("z")), Some(num(9.0)));
}

#[test]
fn free_table_drops_everything() {
    let mut table = Table::new();
    table.set_table(key("a"), num(1.0));
    table.free_table();
    assert_eq!(table.capacity, 0);
    assert_eq!(table.count, 0);
    assert!(table.entries.is_empty());
    assert_eq!(table.table_get(&key("a")), None);
}

#[test]
fn entries_start_empty() {
    let entry = Entry::default();
    assert!(entry.key.is_none());
    assert_eq!(entry.value, Val::nil());
    let held = Entry::new(key("k"), Val::boolean(true));
    assert_eq!(held.key, Some(key("k")));
    assert_eq!(held.value, Val::boolean(true));
}

#[test]
fn the_empty_string_is_a_key_like_any_other() {
    let mut table = Table::new();
    assert!(table.set_table(key(""), num(5.0)));
    assert_eq!(table.table_get(&key("")), Some(num(5.0)));
    let native = Val::object(Obj::Native(NativeObject { name: key("clock") }));
    assert!(table.set_table(key("clock"), native.clone()));
    assert_eq!(table.table_get(&key("clock")), Some(native));
}
