use image_index::keys::Arena;

#[test]
fn insert_get_roundtrip() {
    let mut arena: Arena<String> = Arena::new();
    let k1 = arena.insert(String::from("one"));
    let k2 = arena.insert(String::from("two"));
    assert_ne!(k1, k2);
    assert!(arena.contains(k1));
    assert_eq!(arena.get(k1).map(String::as_str), Some("one"));
    assert_eq!(arena.get(k2).map(String::as_str), Some("two"));
}

#[test]
fn removed_key_never_comes_back() {
    let mut arena: Arena<u32> = Arena::new();
    let k1 = arena.insert(5);
    assert_eq!(arena.remove(k1), Some(5));
    assert!(!arena.contains(k1));
    assert_eq!(arena.remove(k1), None);

    // The vacated slot is reused, but under a fresh generation: the stale
    // key does not alias the new entry.
    let k2 = arena.insert(6);
    assert_eq!(k2.idx, k1.idx);
    assert_ne!(k2.generation, k1.generation);
    assert!(!arena.contains(k1));
    assert_eq!(arena.get(k1), None);
    assert_eq!(arena.get(k2), Some(&6));
}

#[test]
fn replace_and_update_keep_the_key() {
    let mut arena: Arena<u32> = Arena::new();
    let k = arena.insert(1);
    let old = arena.replace(k, 2);
    assert_eq!(old, 1);
    assert_eq!(arena.get(k), Some(&2));
    arena.update_value(k, 3);
    assert_eq!(arena.get(k), Some(&3));
}
