use kprobe_events::allow_list::{check_valid_user, AllowList, ALLOW_LIST_CAPACITY};

#[test]
fn empty_list_admits_nobody() {
    let list = AllowList::new();
    assert!(!check_valid_user(&list, 0));
    assert!(!check_valid_user(&list, 1000));
}

#[test]
fn listed_uid_is_admitted() {
    let mut list = AllowList::new();
    assert!(list.set(0, 0));
    assert!(list.set(ALLOW_LIST_CAPACITY - 1, 1000));
    assert!(check_valid_user(&list, 0));
    assert!(check_valid_user(&list, 1000));
    assert!(!check_valid_user(&list, 1001));
}

#[test]
fn set_past_capacity_is_refused() {
    let mut list = AllowList::new();
    assert!(!list.set(ALLOW_LIST_CAPACITY, 5));
    assert!(!check_valid_user(&list, 5));
}
