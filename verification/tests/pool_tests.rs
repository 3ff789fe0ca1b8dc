use tcp_server::pool::Pool;


#[test]
fn insert_get_remove_roundtrip() {
    let mut p = Pool::new();
    assert!(p.is_empty());
    assert!(p.insert(10, 1).is_none());
    assert!(p.insert(20, 2).is_none());
    assert_eq!(p.len(), 2);
    assert!(p.contains(10));
    assert!(matches!(p.get(10), Some(1)));
    assert!(matches!(p.get(20), Some(2)));
    assert!(p.get(30).is_none());
    assert!(matches!(p.remove(10), Some(1)));
    assert!(!p.contains(10));
    assert_eq!(p.len(), 1);
}

#[test]
fn double_drop_is_a_noop() {
    let mut p = Pool::new();
    p.insert(10, 1);
    assert!(matches!(p.remove(10), Some(1)));
    assert!(p.remove(10).is_none());
    assert!(p.is_empty());
}

#[test]
fn dropping_an_absent_address_leaves_others_alone() {
    let mut p = Pool::new();
    p.insert(10, 1);
    p.insert(20, 2);
    assert!(p.remove(30).is_none());
    assert_eq!(p.len(), 2);
    assert!(matches!(p.get(10), Some(1)));
    assert!(matches!(p.get(20), Some(2)));
}

#[test]
fn inserting_an_existing_address_replaces_its_token() {
    let mut p = Pool::new();
    assert!(p.insert(10, 1).is_none());
    assert!(matches!(p.insert(10, 2), Some(1)));
    assert_eq!(p.len(), 1);
    assert!(matches!(p.get(10), Some(2)));
}

#[test]
fn members_lists_every_entry_once() {
    let mut p = Pool::new();
    p.insert(10, 1);
    p.insert(20, 2);
    p.insert(30, 3);
    p.remove(20);
    let mut m = p.members();
    m.sort();
    assert_eq!(m, vec![(10, 1), (30, 3)]);
}

#[test]
fn an_empty_pool_excludes_its_race_arm() {
    let p = Pool::new();
    assert!(p.readable_candidates().is_err());
}

#[test]
fn a_pool_with_members_offers_them_all_to_the_race() {
    let mut p = Pool::new();
    p.insert(10, 1);
    p.insert(20, 2);
    let mut m = p.readable_candidates().unwrap();
    m.sort();
    assert_eq!(m, vec![(10, 1), (20, 2)]);
}
