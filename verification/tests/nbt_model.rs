use mcconvert_core::nbt::{contains_key, get, insert, remove, Nbt};

#[test]
fn compound_reads_back_what_was_stored() {
    let mut c: Vec<(String, Nbt)> = Vec::new();
    insert(&mut c, "a", Nbt::Int(1));
    insert(&mut c, "b", Nbt::Int(2));
    insert(&mut c, "a", Nbt::Int(3));
    assert_eq!(c.len(), 2);
    assert_eq!(get(&c, "a"), Some(&Nbt::Int(3)));
    assert_eq!(get(&c, "b"), Some(&Nbt::Int(2)));
    assert_eq!(c[0].0, "a");
    assert_eq!(remove(&mut c, "a"), Some(Nbt::Int(3)));
    assert!(!contains_key(&c, "a"));
    assert_eq!(get(&c, "b"), Some(&Nbt::Int(2)));
    assert_eq!(remove(&mut c, "missing"), None);
}
