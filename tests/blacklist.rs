use doki_bot::blacklist::{Blacklists, IdSet, PersistError, Toggled};

#[test]
fn toggle_twice_restores() {
    let mut b = Blacklists::new();
    assert!(!b.is_blocked(42, 1));
    assert_eq!(b.toggle_author(42), Toggled::Added);
    assert!(b.is_blocked(42, 1));
    assert_eq!(b.toggle_author(42), Toggled::Removed);
    assert!(!b.is_blocked(42, 1));
}

#[test]
fn channel_blocks_any_author() {
    let mut b = Blacklists::new();
    assert_eq!(b.toggle_channel(7), Toggled::Added);
    assert!(b.is_blocked(1, 7));
    assert!(!b.is_blocked(1, 8));
    assert!(!b.users.ids.contains(7));
}

#[test]
fn toggled_set_reads_back_equal() {
    let mut s = IdSet::new();
    for id in [5u64, 3, u64::MAX] {
        s.toggle(id);
        let back = IdSet::from_json(&s.to_json()).unwrap();
        assert_eq!(back.ids(), s.ids());
    }
    s.toggle(3);
    let back = IdSet::from_json(&s.to_json()).unwrap();
    assert_eq!(back.ids(), vec![5, u64::MAX]);
}

#[test]
fn json_form_is_an_array() {
    let s = IdSet::from_ids(&vec![10, 20, 10]);
    assert_eq!(s.to_json(), "[10,20]");
    assert_eq!(IdSet::new().to_json(), "[]");
    assert_eq!(IdSet::from_ids(&vec![0, u64::MAX]).to_json(), "[0,18446744073709551615]");
}

#[test]
fn duplicates_in_file_collapse() {
    let s = IdSet::from_json("[1, 2, 2, 1]").unwrap();
    assert_eq!(s.ids(), vec![1, 2]);
}

#[test]
fn malformed_file_is_an_error() {
    assert_eq!(IdSet::from_json("not json").err(), Some(PersistError::Malformed));
    assert_eq!(IdSet::from_json("[-1]").err(), Some(PersistError::Malformed));
    assert_eq!(IdSet::from_json("{}").err(), Some(PersistError::Malformed));
}

#[test]
fn insert_and_remove_report_change() {
    let mut s = IdSet::new();
    assert!(s.insert(4));
    assert!(!s.insert(4));
    assert!(s.remove(4));
    assert!(!s.remove(4));
    assert!(!s.contains(4));
}
