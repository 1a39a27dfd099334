use paxr::{StateBox, StateError};

#[test]
fn insert_twice_is_refused() {
    let mut b = StateBox::new();
    assert_eq!(b.insert("k", 5u64), Ok(()));
    assert_eq!(b.insert("k", 7u64), Err(StateError::DuplicateKey));
    assert_eq!(b.get::<u64>("k"), Some(&5));
    assert_eq!(b.len(), 1);
}

#[test]
fn get_checks_the_type() {
    let mut b = StateBox::new();
    b.insert("k", String::from("v")).unwrap();
    assert_eq!(b.get::<String>("k"), Some(&String::from("v")));
    assert_eq!(b.get::<u64>("k"), None);
    assert_eq!(b.get::<String>("missing"), None);
}

#[test]
fn set_needs_a_present_key() {
    let mut b = StateBox::new();
    assert_eq!(b.set("k", 1i32), Err(StateError::KeyNotFound));
    assert!(b.is_empty());
    b.insert("k", 1i32).unwrap();
    assert_eq!(b.set("k", true), Ok(()));
    assert_eq!(b.get::<i32>("k"), None);
    assert_eq!(b.get::<bool>("k"), Some(&true));
    assert_eq!(b.len(), 1);
}

#[test]
fn remove_needs_a_present_key() {
    let mut b = StateBox::new();
    assert_eq!(b.remove("k"), Err(StateError::KeyNotFound));
    b.insert("k", 'c').unwrap();
    b.insert("j", 3usize).unwrap();
    assert_eq!(b.remove("k"), Ok(()));
    assert_eq!(b.get::<char>("k"), None);
    assert_eq!(b.get::<usize>("j"), Some(&3));
    assert_eq!(b.len(), 1);
}

#[test]
fn pop_takes_a_matching_value() {
    let mut b = StateBox::new();
    b.insert("k", 9i64).unwrap();
    assert_eq!(b.pop::<i64>("k"), Some(9));
    assert!(b.is_empty());
    assert_eq!(b.pop::<i64>("k"), None);
}

#[test]
fn pop_of_another_type_keeps_the_value() {
    let mut b = StateBox::new();
    b.insert("k", 9u32).unwrap();
    assert_eq!(b.pop::<String>("k"), None);
    assert_eq!(b.len(), 1);
    assert_eq!(b.get::<u32>("k"), Some(&9));
}

#[test]
fn shove_never_fails() {
    let mut b = StateBox::new();
    b.shove("k", 1u64);
    assert_eq!(b.get::<u64>("k"), Some(&1));
    b.shove("k", String::from("now text"));
    assert_eq!(b.get::<String>("k"), Some(&String::from("now text")));
    assert_eq!(b.len(), 1);
}

#[test]
fn yank_is_quiet() {
    let mut b = StateBox::new();
    b.yank("k");
    b.insert("k", false).unwrap();
    b.yank("k");
    assert!(b.is_empty());
}

#[test]
fn push_is_unimplemented() {
    let mut b = StateBox::new();
    assert_eq!(b.push("k", 1u64), Err(StateError::Unimplemented));
    assert!(b.is_empty());
}
