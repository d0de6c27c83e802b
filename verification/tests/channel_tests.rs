use chat_server::channel::Channel;
use chat_server::tables::{load_users, UserRecord};
use chat_server::user::User;

fn rec(id: i64, name: &str) -> UserRecord {
    UserRecord { id, username: name.to_string(), nickname: name.to_uppercase() }
}

#[test]
fn new_channel_has_no_members() {
    let c = Channel::new(5, "#rust");
    assert_eq!(c.id(), 5);
    assert_eq!(c.name(), "#rust");
    assert!(c.member_names().is_empty());
}

#[test]
fn add_user_makes_member_once() {
    let mut c = Channel::new(5, "#rust");
    let u = User::new(1, "ann", "Ann");
    c.add_user(&u);
    c.add_user(&u);
    assert_eq!(c.member_names(), vec!["ann".to_string()]);
    assert!(c.has_user(&"ann".to_string()));
    assert!(!c.has_user(&"bob".to_string()));
}

#[test]
fn broadcast_reaches_registered_members_only() {
    let users = load_users(&vec![rec(1, "ann"), rec(2, "bob")]);
    let mut c = Channel::new(1, "#x");
    c.add_user(users.get(&"ann".to_string()).unwrap());
    c.add_user(&User::new(3, "ghost", "ghost"));
    // nobody is connected yet
    assert!(c.broadcast(&users).is_empty());
    let s = c.serialize(&users);
    assert_eq!(s.id, 1);
    assert_eq!(s.name, "#x");
    assert_eq!(s.users.len(), 1);
    assert_eq!(s.users[0].username, "ann");
    assert_eq!(s.users[0].nickname, "ANN");
}
