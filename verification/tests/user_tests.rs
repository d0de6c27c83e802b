use chat_server::user::{OnlineStatus, UnauthedUser, User};

fn sorted(mut v: Vec<String>) -> Vec<String> {
    v.sort();
    v
}

#[test]
fn new_user_is_offline_without_connections() {
    let u = User::new(7, "alice", "Alice");
    assert_eq!(u.id(), 7);
    assert_eq!(u.username(), "alice");
    assert_eq!(u.nickname(), "Alice");
    assert!(u.status() == OnlineStatus::Offline);
    assert!(u.connection_ids().is_empty());
    assert!(u.get_viewed_channels().is_empty());
}

#[test]
fn add_connection_reports_status_change_once() {
    let mut u = User::new(1, "bob", "bob");
    assert!(u.add_connection(10));
    assert!(u.status() == OnlineStatus::Online);
    assert!(!u.add_connection(11));
    assert!(!u.add_connection(10));
    let mut ids = u.connection_ids();
    ids.sort();
    assert_eq!(ids, vec![10, 11]);
}

#[test]
fn remove_connection_reports_going_offline() {
    let mut u = User::new(1, "bob", "bob");
    u.add_connection(10);
    u.add_connection(11);
    assert!(!u.remove_connection(10));
    assert!(u.status() == OnlineStatus::Online);
    assert!(u.remove_connection(11));
    assert!(u.status() == OnlineStatus::Offline);
    // removing an unknown connection from a user without connections
    // changes no status
    assert!(!u.remove_connection(99));
    assert!(u.status() == OnlineStatus::Offline);
}

#[test]
fn removing_from_a_new_offline_user_changes_nothing() {
    let mut u = User::new(1, "al", "al");
    assert!(!u.remove_connection(1));
    assert!(u.status() == OnlineStatus::Offline);
    assert!(u.connection_ids().is_empty());
}

#[test]
fn connect_then_disconnect_round_trip() {
    let mut u = User::new(3, "carol", "carol");
    u.add_connection(5);
    let before = u.connection_ids();
    u.add_connection(6);
    u.remove_connection(6);
    assert_eq!(u.connection_ids(), before);
    assert!(u.has_connection(5));
    assert!(!u.has_connection(6));
}

#[test]
fn viewing_one_channel_at_a_time() {
    let mut u = User::new(1, "dan", "dan");
    u.add_connection(1);
    u.set_viewing("#a", 1, true);
    u.set_viewing("#b", 1, true);
    // the client moved to #b; #a is left without viewers
    assert_eq!(sorted(u.get_viewed_channels()), vec!["#a".to_string(), "#b".to_string()]);
    assert_eq!(u.get_and_clear_no_viewers(), vec!["#a".to_string()]);
    assert_eq!(u.get_viewed_channels(), vec!["#b".to_string()]);
}

#[test]
fn two_clients_view_the_same_channel() {
    let mut u = User::new(1, "erin", "erin");
    u.set_viewing("#a", 1, true);
    u.set_viewing("#a", 2, true);
    u.clear_viewing(1);
    assert!(u.get_and_clear_no_viewers().is_empty());
    u.clear_viewing(2);
    assert_eq!(u.get_and_clear_no_viewers(), vec!["#a".to_string()]);
    assert!(u.get_viewed_channels().is_empty());
}

#[test]
fn set_viewing_false_stops_only_that_channel() {
    let mut u = User::new(1, "fay", "fay");
    u.set_viewing("#a", 1, true);
    u.set_viewing("#b", 1, false);
    assert!(u.get_and_clear_no_viewers().is_empty());
    u.set_viewing("#a", 1, false);
    assert_eq!(u.get_and_clear_no_viewers(), vec!["#a".to_string()]);
}

#[test]
fn clearing_no_viewers_twice_returns_nothing_the_second_time() {
    let mut u = User::new(1, "gus", "gus");
    u.set_viewing("#a", 1, true);
    u.set_viewing("#b", 2, true);
    u.clear_viewing(1);
    u.clear_viewing(2);
    assert_eq!(sorted(u.get_and_clear_no_viewers()), vec!["#a".to_string(), "#b".to_string()]);
    assert!(u.get_and_clear_no_viewers().is_empty());
}

#[test]
fn same_as_compares_id_names_and_status() {
    let a = User::new(1, "hal", "Hal");
    let b = User::new(1, "hal", "Hal");
    let mut c = User::new(1, "hal", "Hal");
    c.add_connection(4);
    let d = User::new(2, "hal", "Hal");
    assert!(a.same_as(&b));
    assert!(!a.same_as(&c));
    assert!(!a.same_as(&d));
}

#[test]
fn info_reports_current_status() {
    let mut u = User::new(9, "ivy", "Ivy");
    u.add_connection(1);
    let info = u.info();
    assert_eq!(info.id, 9);
    assert_eq!(info.username, "ivy");
    assert_eq!(info.nickname, "Ivy");
    assert!(info.status == OnlineStatus::Online);
}

#[test]
fn unauthed_user_keeps_its_time() {
    let u = UnauthedUser::new(1234);
    assert_eq!(u.time, 1234);
}
