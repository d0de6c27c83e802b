use chat_server::user::{OnlineStatus, User};
use chat_server::user_table::UserTable;

#[test]
fn users_are_found_by_name_and_by_id() {
    let mut t = UserTable::new();
    t.insert(User::new(1, "ann", "Ann"));
    t.insert(User::new(2, "bob", "Bob"));
    assert_eq!(t.get(&"ann".to_string()).unwrap().id(), 1);
    assert_eq!(t.get_by_id(2).unwrap().username(), "bob");
    assert!(t.get(&"carol".to_string()).is_none());
    assert!(t.get_by_id(3).is_none());
}

#[test]
fn a_later_user_with_the_same_id_takes_the_id_over() {
    let mut t = UserTable::new();
    t.insert(User::new(1, "ann", "Ann"));
    t.insert(User::new(1, "bob", "Bob"));
    assert_eq!(t.get_by_id(1).unwrap().username(), "bob");
    assert_eq!(t.get(&"ann".to_string()).unwrap().id(), 1);
}

#[test]
fn refiling_a_name_under_a_new_id_leaves_the_old_id_leading_to_it() {
    let mut t = UserTable::new();
    t.insert(User::new(1, "ann", "Ann"));
    t.insert(User::new(2, "ann", "Annie"));
    assert_eq!(t.get_by_id(1).unwrap().nickname(), "Annie");
    assert_eq!(t.get_by_id(2).unwrap().nickname(), "Annie");
}

#[test]
fn a_user_changed_in_place_stays_filed() {
    let mut t = UserTable::new();
    t.insert(User::new(1, "ann", "Ann"));
    assert!(t.get_mut(&"bob".to_string()).is_none());
    let u = t.get_mut(&"ann".to_string()).unwrap();
    assert!(u.add_connection(7));
    assert!(t.get(&"ann".to_string()).unwrap().status() == OnlineStatus::Online);
    assert!(t.get_by_id(1).unwrap().has_connection(7));
}
