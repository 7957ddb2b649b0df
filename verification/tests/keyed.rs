use weecord::keyed::{all_distinct, find_key, put, remove_key, Keyed};
use weecord::types::{Member, Role, RoleId, User, UserId};
use weecord::update::put_members;

fn user(id: u64, name: &str) -> User {
    User { id: UserId(id), name: name.to_string() }
}

fn member(id: u64, name: &str) -> Member {
    Member { user: user(id, name), nick: None, roles: vec![] }
}

#[test]
fn keys_of_records() {
    assert_eq!(user(7, "a").key(), 7);
    assert_eq!(member(8, "a").key(), 8);
    assert_eq!(Role { id: RoleId(9), name: "r".to_string() }.key(), 9);
}

#[test]
fn find_key_finds_the_first_record() {
    let v = vec![user(1, "a"), user(2, "b"), user(1, "c")];
    assert_eq!(find_key(&v, 1), Some(0));
    assert_eq!(find_key(&v, 2), Some(1));
    assert_eq!(find_key(&v, 3), None);
    assert_eq!(find_key(&Vec::<User>::new(), 1), None);
}

#[test]
fn put_replaces_in_place_or_appends() {
    let mut v = vec![user(1, "a"), user(2, "b"), user(1, "c")];
    put(&mut v, user(1, "z"));
    assert_eq!(v, vec![user(1, "z"), user(2, "b"), user(1, "c")]);
    put(&mut v, user(3, "n"));
    assert_eq!(v, vec![user(1, "z"), user(2, "b"), user(1, "c"), user(3, "n")]);
    let mut empty: Vec<User> = vec![];
    put(&mut empty, user(1, "a"));
    assert_eq!(empty, vec![user(1, "a")]);
}

#[test]
fn remove_key_removes_every_record_with_the_key() {
    let mut v = vec![user(1, "a"), user(2, "b"), user(1, "c"), user(3, "d"), user(1, "e")];
    remove_key(&mut v, 1);
    assert_eq!(v, vec![user(2, "b"), user(3, "d")]);
    remove_key(&mut v, 9);
    assert_eq!(v, vec![user(2, "b"), user(3, "d")]);
    remove_key(&mut v, 3);
    remove_key(&mut v, 2);
    assert!(v.is_empty());
    remove_key(&mut v, 2);
    assert!(v.is_empty());
}

#[test]
fn all_distinct_tells_repeated_keys() {
    assert!(all_distinct(&Vec::<User>::new()));
    assert!(all_distinct(&vec![user(1, "a")]));
    assert!(all_distinct(&vec![user(1, "a"), user(2, "a"), user(3, "a")]));
    assert!(!all_distinct(&vec![user(1, "a"), user(2, "b"), user(1, "c")]));
    assert!(!all_distinct(&vec![user(2, "a"), user(1, "b"), user(1, "c")]));
}

#[test]
fn put_members_merges_a_batch_in_order() {
    let mut v = vec![member(1, "a"), member(2, "b")];
    put_members(&mut v, &vec![member(3, "c"), member(1, "a2"), member(3, "c2")]);
    assert_eq!(v, vec![member(1, "a2"), member(2, "b"), member(3, "c2")]);
    put_members(&mut v, &vec![]);
    assert_eq!(v.len(), 3);
}
