use chat_server::commands::{
    history_check, ident_finish, join_check, join_finish, msg_check, not_viewing, register_check,
    register_finish, viewing, Credentials, JsonFields,
};
use chat_server::errors::CommandError;
use chat_server::server::ChatServer;
use chat_server::tables::{load_channels, load_users, ChannelRecord, UserRecord};
use chat_server::user::OnlineStatus;
use chat_server::attachments::AttachmentInfo;

fn urec(id: i64, name: &str) -> UserRecord {
    UserRecord { id, username: name.to_string(), nickname: format!("{}-nick", name) }
}

fn crec(id: i64, name: &str, user: Option<&str>) -> ChannelRecord {
    ChannelRecord { id, name: name.to_string(), username: user.map(|u| u.to_string()) }
}

fn empty_json() -> JsonFields {
    JsonFields {
        cmd: None,
        username: None,
        password: None,
        name: None,
        channel: None,
        content: None,
        channels: None,
    }
}

fn creds(name: &str) -> Credentials {
    Credentials { username: name.to_string(), password: "pw".to_string() }
}

/// ann and bob share #general; carol is alone in #quiet.
fn server() -> ChatServer {
    let users = load_users(&vec![urec(1, "ann"), urec(2, "bob"), urec(3, "carol")]);
    let channels = load_channels(
        &vec![
            crec(10, "#general", Some("ann")),
            crec(10, "#general", Some("bob")),
            crec(11, "#quiet", Some("carol")),
            crec(12, "#empty", None),
        ],
        &users,
    );
    ChatServer::new(users, channels)
}

fn login(s: &mut ChatServer, client: u64, name: &str) {
    s.add_unauth_connection(client, 0);
    ident_finish(s, client, creds(name), true).unwrap();
}

#[test]
fn unauth_connections_time_out_after_thirty_seconds() {
    let mut s = server();
    s.add_unauth_connection(1, 1_000);
    s.add_unauth_connection(2, 20_000);
    assert!(s.disconnect_unauth_users(31_000).is_empty());
    assert_eq!(s.disconnect_unauth_users(31_001), vec![1]);
    let mut both = s.disconnect_unauth_users(60_000);
    both.sort();
    assert_eq!(both, vec![1, 2]);
    // a clock earlier than the connection time never times out
    assert!(s.disconnect_unauth_users(500).is_empty());
    assert_eq!(s.get_unauthed_connection(2).unwrap().time, 20_000);
    s.remove_unauth_connection(2);
    assert!(s.get_unauthed_connection(2).is_none());
}

#[test]
fn ident_errors_in_order() {
    let mut s = server();
    assert_eq!(ident_finish(&mut s, 1, creds("ann"), false).err(), Some(CommandError::LoginFailed));
    assert_eq!(ident_finish(&mut s, 1, creds("zed"), true).err(), Some(CommandError::InvalidUsername));
    assert_eq!(ident_finish(&mut s, 1, creds("ann"), true).err(), Some(CommandError::InvalidArguments));
}

#[test]
fn ident_welcomes_and_announces_status() {
    let mut s = server();
    login(&mut s, 100, "bob");
    s.add_unauth_connection(1, 0);
    let w = ident_finish(&mut s, 1, creds("ann"), true).unwrap();
    assert_eq!(w.nickname, "ann-nick");
    assert_eq!(w.channels.len(), 1);
    assert_eq!(w.channels[0].name, "#general");
    assert_eq!(w.channels[0].users.len(), 2);
    assert!(w.viewing.is_empty());
    let status = w.status.unwrap();
    assert_eq!(status.user.username, "ann");
    assert!(status.user.status == OnlineStatus::Online);
    // bob hears that ann came online; ann's own client does not
    assert_eq!(status.recipients, vec![100]);
    assert!(s.get_unauthed_connection(1).is_none());
    assert_eq!(s.get_user(1).unwrap().username(), "ann");
    // a second client of ann: no status change
    s.add_unauth_connection(2, 0);
    let w2 = ident_finish(&mut s, 2, creds("ann"), true).unwrap();
    assert!(w2.status.is_none());
}

#[test]
fn register_check_refuses_taken_names() {
    let s = server();
    assert_eq!(register_check(&s, &creds("ann")).err(), Some(CommandError::AlreadyRegistered));
    assert!(register_check(&s, &creds("dave")).is_ok());
}

#[test]
fn register_finish_creates_online_user() {
    let mut s = server();
    assert_eq!(register_finish(&mut s, 5, creds("dave"), 4).err(), Some(CommandError::InvalidArguments));
    s.add_unauth_connection(5, 0);
    let w = register_finish(&mut s, 5, creds("dave"), 4).unwrap();
    assert_eq!(w.nickname, "dave");
    assert!(w.channels.is_empty() && w.viewing.is_empty() && w.status.is_none());
    let u = s.get_user(5).unwrap();
    assert_eq!(u.id(), 4);
    assert_eq!(u.nickname(), "dave");
    assert!(u.status() == OnlineStatus::Online);
    assert_eq!(u.connection_ids(), vec![5]);
}

#[test]
fn join_checks_and_joins() {
    let mut s = server();
    let mut j = empty_json();
    j.name = Some("#General".to_string());
    assert_eq!(join_check(&s, 1, &j).err(), Some(CommandError::NeedAuth));
    login(&mut s, 1, "carol");
    let mut bad = empty_json();
    assert_eq!(join_check(&s, 1, &bad).err(), Some(CommandError::InvalidArguments));
    bad.name = Some("general".to_string());
    assert_eq!(join_check(&s, 1, &bad).err(), Some(CommandError::InvalidArguments));
    let t = join_check(&s, 1, &j).unwrap();
    assert_eq!(t.channel, "#general");
    assert_eq!(t.channel_id, Some(10));
    assert_eq!(t.username, "carol");
    assert_eq!(t.user_id, 3);
    let o = join_finish(&mut s, 1, &t).unwrap();
    assert_eq!(o.user.username, "carol");
    assert_eq!(o.channel.users.len(), 3);
    assert!(o.reply);
    assert_eq!(o.recipients, vec![1]);
    assert!(s.channel_named(&"#general".to_string()).unwrap().has_user(&"carol".to_string()));
}

#[test]
fn join_creates_new_channel() {
    let mut s = server();
    login(&mut s, 1, "carol");
    let mut j = empty_json();
    j.name = Some("#New".to_string());
    let t = join_check(&s, 1, &j).unwrap();
    assert_eq!(t.channel_id, None);
    assert!(join_finish(&mut s, 1, &t).is_none());
    s.create_channel(&t.channel, 99);
    let o = join_finish(&mut s, 1, &t).unwrap();
    assert_eq!(o.channel.id, 99);
    assert_eq!(o.channel.name, "#new");
}

#[test]
fn msg_check_errors_in_order() {
    let mut s = server();
    let mut j = empty_json();
    assert_eq!(msg_check(&s, 1, &j).err(), Some(CommandError::NeedAuth));
    login(&mut s, 1, "carol");
    assert_eq!(msg_check(&s, 1, &j).err(), Some(CommandError::InvalidArguments));
    j.channel = Some("#nowhere".to_string());
    assert_eq!(msg_check(&s, 1, &j).err(), Some(CommandError::InvalidArguments));
    j.channel = Some("#GENERAL".to_string());
    assert_eq!(msg_check(&s, 1, &j).err(), Some(CommandError::NotInChannel));
    j.channel = Some("#quiet".to_string());
    assert_eq!(msg_check(&s, 1, &j).err(), Some(CommandError::InvalidArguments));
    j.content = Some(String::new());
    assert_eq!(msg_check(&s, 1, &j).err(), Some(CommandError::InvalidArguments));
    j.content = Some("hello".to_string());
    let t = msg_check(&s, 1, &j).unwrap();
    assert_eq!(t.channel.name, "#quiet");
    assert_eq!(t.channel.id, 11);
    assert_eq!(t.content, "hello");
    assert_eq!(t.user.nickname, "carol-nick");
    assert_eq!(t.recipients, vec![1]);
}

#[test]
fn history_reads_member_channels_in_request_order() {
    let mut s = server();
    let mut j = empty_json();
    assert_eq!(history_check(&s, 1, &j).err(), Some(CommandError::NeedAuth));
    login(&mut s, 1, "ann");
    assert_eq!(history_check(&s, 1, &j).err(), Some(CommandError::InvalidArguments));
    j.channels = Some(vec![
        Some("#QUIET".to_string()),
        None,
        Some("#General".to_string()),
        Some("#missing".to_string()),
        Some("#general".to_string()),
    ]);
    let t = history_check(&s, 1, &j).unwrap();
    assert_eq!(t.user_id, 1);
    assert!(t.reply);
    let names: Vec<(String, i64)> = t.channels.into_iter().map(|c| (c.name, c.id)).collect();
    assert_eq!(names, vec![("#general".to_string(), 10), ("#general".to_string(), 10)]);
}

#[test]
fn viewing_and_not_viewing() {
    let mut s = server();
    let mut j = empty_json();
    assert_eq!(viewing(&mut s, 1, &j).err(), Some(CommandError::InvalidArguments));
    j.channel = Some("#General".to_string());
    assert_eq!(viewing(&mut s, 1, &j).err(), Some(CommandError::NeedAuth));
    login(&mut s, 1, "ann");
    j.channel = Some("#quiet".to_string());
    assert_eq!(viewing(&mut s, 1, &j).err(), Some(CommandError::NotInChannel));
    j.channel = Some("#nope".to_string());
    assert_eq!(viewing(&mut s, 1, &j).err(), Some(CommandError::InvalidArguments));
    j.channel = Some("#General".to_string());
    let o = viewing(&mut s, 1, &j).unwrap();
    assert_eq!(o.user_id, 1);
    assert_eq!(o.channel.name, "#general");
    assert_eq!(o.channel.id, 10);
    assert!(o.no_viewers.channels.is_empty());
    assert_eq!(o.recipients, vec![1]);
    assert_eq!(s.get_user(1).unwrap().get_viewed_channels(), vec!["#general".to_string()]);
    let p = not_viewing(&mut s, 1).unwrap();
    assert_eq!(p.user_id, 1);
    assert_eq!(p.channels.len(), 1);
    assert_eq!(p.channels[0].name, "#general");
    assert_eq!(p.channels[0].id, 10);
    assert_eq!(p.recipients, vec![1]);
    assert_eq!(not_viewing(&mut s, 2).err(), Some(CommandError::NeedAuth));
}

#[test]
fn remove_connection_reports_departure() {
    let mut s = server();
    assert!(s.remove_connection(1).is_none());
    login(&mut s, 1, "ann");
    login(&mut s, 2, "bob");
    let mut j = empty_json();
    j.channel = Some("#general".to_string());
    viewing(&mut s, 1, &j).unwrap();
    let d = s.remove_connection(1).unwrap();
    let status = d.status.unwrap();
    assert_eq!(status.user.username, "ann");
    assert!(status.user.status == OnlineStatus::Offline);
    assert_eq!(status.recipients, vec![2]);
    let plan = d.no_viewers.unwrap();
    assert_eq!(plan.channels.len(), 1);
    assert_eq!(plan.channels[0].name, "#general");
    assert!(plan.recipients.is_empty());
    assert!(s.get_user(1).is_none());
    assert!(s.remove_connection(1).is_none());
}

#[test]
fn add_connection_for_unregistered_name() {
    let mut s = server();
    assert!(s.add_connection(7, "nobody".to_string()).is_none());
    assert!(s.get_user(7).is_none());
    let d = s.remove_connection(7).unwrap();
    assert!(d.status.is_none() && d.no_viewers.is_none());
}

#[test]
fn attachment_goes_to_channel_with_that_id() {
    let mut s = server();
    login(&mut s, 1, "carol");
    let info = AttachmentInfo::new(11, 5, "http://x/y.png");
    let n = s.add_attachment_to_message(&info).unwrap();
    assert_eq!(n.channel, "#quiet");
    assert_eq!(n.recipients, vec![1]);
    assert!(s.add_attachment_to_message(&AttachmentInfo::new(77, 5, "u")).is_none());
}

#[test]
fn no_viewer_notifications_skip_unknown_channels() {
    let mut s = server();
    login(&mut s, 3, "carol");
    let user = s.get_user(3).unwrap();
    let plan = s.send_no_viewer_notifications(
        &vec!["#quiet".to_string(), "#gone".to_string()],
        user,
    );
    assert_eq!(plan.user_id, 3);
    assert_eq!(plan.channels.len(), 1);
    assert_eq!(plan.channels[0].name, "#quiet");
    assert_eq!(plan.channels[0].id, 11);
    assert_eq!(plan.recipients, vec![3]);
}

#[test]
fn second_client_connects_and_leaves_without_status_updates() {
    let mut s = server();
    login(&mut s, 1, "ann");
    assert!(s.add_connection(2, "ann".to_string()).is_none());
    assert!(s.user_named(&"ann".to_string()).unwrap().has_connection(2));
    let d = s.remove_connection(2).unwrap();
    assert!(d.status.is_none());
    let ann = s.user_named(&"ann".to_string()).unwrap();
    assert_eq!(ann.connection_ids(), vec![1]);
    assert!(ann.status() == OnlineStatus::Online);
    assert!(s.get_user(2).is_none());
    assert_eq!(s.get_user(1).unwrap().username(), "ann");
}

#[test]
fn lone_client_connects_and_leaves_with_status_updates() {
    let mut s = server();
    login(&mut s, 9, "bob");
    let up = s.add_connection(1, "ann".to_string()).unwrap();
    assert!(up.user.status == OnlineStatus::Online);
    assert_eq!(up.recipients, vec![9]);
    let d = s.remove_connection(1).unwrap();
    let down = d.status.unwrap();
    assert!(down.user.status == OnlineStatus::Offline);
    assert_eq!(down.recipients, vec![9]);
    let ann = s.user_named(&"ann".to_string()).unwrap();
    assert!(ann.connection_ids().is_empty());
    assert!(ann.status() == OnlineStatus::Offline);
}

#[test]
fn get_user_mut_changes_the_identified_user() {
    let mut s = server();
    login(&mut s, 1, "ann");
    assert!(s.get_user_mut(2).is_none());
    s.get_user_mut(1).unwrap().set_viewing("#general", 1, true);
    assert_eq!(s.get_user(1).unwrap().get_viewed_channels(), vec!["#general".to_string()]);
    assert_eq!(s.user_named(&"ann".to_string()).unwrap().get_viewed_channels(), vec!["#general".to_string()]);
}

#[test]
fn no_viewer_notifications_follow_the_names_in_order() {
    let mut s = server();
    login(&mut s, 3, "carol");
    let user = s.get_user(3).unwrap();
    let names = vec![
        "#quiet".to_string(),
        "#gone".to_string(),
        "#general".to_string(),
        "#quiet".to_string(),
    ];
    let plan = s.send_no_viewer_notifications(&names, user);
    let got: Vec<(String, i64)> = plan.channels.iter().map(|c| (c.name.clone(), c.id)).collect();
    assert_eq!(
        got,
        vec![("#quiet".to_string(), 11), ("#general".to_string(), 10), ("#quiet".to_string(), 11)]
    );
}

#[test]
fn ident_succeeds_for_a_waiting_client_of_a_registered_user() {
    let mut s = server();
    s.add_unauth_connection(4, 0);
    let w = ident_finish(&mut s, 4, creds("bob"), true).unwrap();
    assert_eq!(w.nickname, "bob-nick");
    assert!(s.get_unauthed_connection(4).is_none());
    assert_eq!(s.get_user(4).unwrap().username(), "bob");
}

#[test]
fn status_goes_out_once_per_shared_channel() {
    let users = load_users(&vec![urec(1, "ann"), urec(2, "bob")]);
    let channels = load_channels(
        &vec![
            crec(10, "#a", Some("ann")),
            crec(10, "#a", Some("bob")),
            crec(11, "#b", Some("ann")),
            crec(11, "#b", Some("bob")),
        ],
        &users,
    );
    let mut s = ChatServer::new(users, channels);
    login(&mut s, 9, "bob");
    let up = s.add_connection(1, "ann".to_string()).unwrap();
    assert_eq!(up.recipients, vec![9, 9]);
    let down = s.remove_connection(1).unwrap().status.unwrap();
    assert_eq!(down.recipients, vec![9, 9]);
}
