// Sequential conformance of the store state: the call sequence every
// design must satisfy, driven on concrete keys and values.

use kvstore::store::StoreState;

#[test]
fn set_then_get_round_trip() {
    let mut store = StoreState::new();
    store.set("hello".to_string(), "world".to_string());
    assert_eq!(store.get(&"hello".to_string()), Some("world".to_string()));
}

#[test]
fn get_never_set_is_absent() {
    let store = StoreState::new();
    assert_eq!(store.get(&"hello".to_string()), None);
}

#[test]
fn delete_then_get_is_absent() {
    let mut store = StoreState::new();
    store.set("hello".to_string(), "world".to_string());
    store.delete(&"hello".to_string());
    assert_eq!(store.get(&"hello".to_string()), None);
}

#[test]
fn delete_absent_key_is_a_no_op() {
    let mut store = StoreState::new();
    store.set("kept".to_string(), "alive".to_string());
    store.delete(&"never-set".to_string());
    assert_eq!(store.get(&"kept".to_string()), Some("alive".to_string()));
    assert_eq!(store.get(&"never-set".to_string()), None);
}

#[test]
fn later_set_overwrites_earlier() {
    let mut store = StoreState::new();
    store.set("k".to_string(), "A".to_string());
    store.set("k".to_string(), "B".to_string());
    assert_eq!(store.get(&"k".to_string()), Some("B".to_string()));
}

#[test]
fn keys_are_independent() {
    let mut store = StoreState::new();
    for i in 0..100 {
        store.set(format!("key{}", i), format!("value{}", i));
    }
    store.delete(&"key50".to_string());
    for i in 0..100 {
        let got = store.get(&format!("key{}", i));
        if i == 50 {
            assert_eq!(got, None);
        } else {
            assert_eq!(got, Some(format!("value{}", i)));
        }
    }
}
