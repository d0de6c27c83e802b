use chat_server::attachments::{attachments_for_links, query_links, AttachmentInfo};
use chat_server::config::{build_config, cert_location, ConfigFields, ConfigReadError};
use chat_server::errors::{error_to_close_frame, get_normal_close_frame, CommandError, DatabaseError};
use chat_server::message::{group_history, HistoryRow, Message};
use chat_server::tables::{
    load_channels, load_users, records_reference_known_users, ChannelRecord, UserRecord,
};
use chat_server::user::User;

#[test]
fn attachment_info_starts_without_mime() {
    let a = AttachmentInfo::new(1, 2, "http://a/b");
    assert_eq!((a.channel_id, a.message_id), (1, 2));
    assert_eq!(a.url, "http://a/b");
    assert_eq!(a.mime, "");
}

#[test]
fn only_image_content_types_are_kept() {
    let a = AttachmentInfo::new(1, 2, "u");
    let kept = a.accept_content_type(Some("image/png".to_string())).unwrap();
    assert_eq!(kept.mime, "image/png");
    assert_eq!(kept.url, "u");
    assert!(AttachmentInfo::new(1, 2, "u").accept_content_type(Some("text/html".to_string())).is_none());
    assert!(AttachmentInfo::new(1, 2, "u").accept_content_type(None).is_none());
}

#[test]
fn links_in_a_message_become_attachment_requests() {
    let r = query_links(3, 4, "see http://example.com/a.png and https://x.org/b, or mail a@b.com");
    let urls: Vec<&str> = r.iter().map(|a| a.url.as_str()).collect();
    assert_eq!(urls, vec!["http://example.com/a.png", "https://x.org/b"]);
    assert!(r.iter().all(|a| a.channel_id == 3 && a.message_id == 4 && a.mime.is_empty()));
    assert!(query_links(3, 4, "no links here").is_empty());
    let direct = attachments_for_links(5, 6, &vec!["a".to_string()]);
    assert_eq!(direct.len(), 1);
    assert_eq!(direct[0].url, "a");
}

#[test]
fn close_frames() {
    assert_eq!(error_to_close_frame(CommandError::MissingCommand), (4000, "Unknown command"));
    assert_eq!(error_to_close_frame(CommandError::InvalidJSON), (4001, "Invalid JSON"));
    assert_eq!(error_to_close_frame(CommandError::InvalidArguments), (4002, "Invalid command arguments"));
    assert_eq!(error_to_close_frame(CommandError::InvalidUsername), (4003, "Invalid username or password"));
    assert_eq!(error_to_close_frame(CommandError::SendFailed), (4004, "Internal server error"));
    assert_eq!(
        error_to_close_frame(CommandError::LoginDBMSError(DatabaseError::DBMSError)),
        (4005, "Internal server error")
    );
    assert_eq!(error_to_close_frame(CommandError::LoginFailed), (4006, "Invalid username or password"));
    assert_eq!(error_to_close_frame(CommandError::NeedAuth), (4007, "Need to login to use this command"));
    assert_eq!(
        error_to_close_frame(CommandError::NotInChannel),
        (4008, "Need to be in a channel to use this command")
    );
    assert_eq!(error_to_close_frame(CommandError::TimeError), (4009, "Internal server error"));
    assert_eq!(error_to_close_frame(CommandError::DidNotAuth), (4010, "Did not authenticate in time"));
    assert_eq!(error_to_close_frame(CommandError::AlreadyRegistered), (4011, "User is already registered"));
    assert_eq!(get_normal_close_frame(), (1000, "Bye"));
}

#[test]
fn error_messages() {
    assert_eq!(CommandError::MissingCommand.message(), "Missing command");
    assert_eq!(CommandError::AlreadyRegistered.message(), "User is already registered");
    assert_eq!(CommandError::from_database(DatabaseError::PasswordHashError).message(), "Internal server error");
    assert_eq!(DatabaseError::PasswordHashError.message(), "Password hashing error");
    assert_eq!(ConfigReadError::MissingBindPort.message(), "bind_port is missing or invalid.");
}

fn config_fields() -> ConfigFields {
    ConfigFields { cert_path: None, cert_password: None, bind_ip: None, bind_port: None }
}

#[test]
fn config_fields_checked_in_order() {
    let mut f = config_fields();
    assert_eq!(cert_location(&f).err(), Some(ConfigReadError::MissingCertPath));
    f.cert_password = Some("pw".to_string());
    assert_eq!(cert_location(&f).err(), Some(ConfigReadError::MissingCertPath));
    f.cert_path = Some("/c.p12".to_string());
    assert_eq!(cert_location(&f).unwrap(), ("/c.p12".to_string(), "pw".to_string()));
    f.cert_password = None;
    assert_eq!(cert_location(&f).err(), Some(ConfigReadError::MissingCertPassword));
    assert_eq!(build_config(&f, vec![1], "pw".to_string()).err(), Some(ConfigReadError::MissingBindIP));
    f.bind_port = Some(443);
    assert_eq!(build_config(&f, vec![1], "pw".to_string()).err(), Some(ConfigReadError::MissingBindIP));
    f.bind_ip = Some("0.0.0.0".to_string());
    let c = build_config(&f, vec![1, 2], "pw".to_string()).unwrap();
    assert_eq!(c.cert, vec![1, 2]);
    assert_eq!(c.cert_password, "pw");
    assert_eq!(c.bind_ip, "0.0.0.0");
    assert_eq!(c.port, 443);
    f.bind_port = None;
    assert_eq!(build_config(&f, vec![], String::new()).err(), Some(ConfigReadError::MissingBindPort));
}

fn urec(id: i64, name: &str, nick: &str) -> UserRecord {
    UserRecord { id, username: name.to_string(), nickname: nick.to_string() }
}

#[test]
fn later_user_rows_replace_earlier_ones() {
    let t = load_users(&vec![urec(1, "a", "first"), urec(2, "b", "bee"), urec(3, "a", "second")]);
    let a = t.get(&"a".to_string()).unwrap();
    assert_eq!(a.id(), 3);
    assert_eq!(a.nickname(), "second");
    assert_eq!(t.get(&"b".to_string()).unwrap().id(), 2);
    assert!(t.get(&"c".to_string()).is_none());
    assert_eq!(t.get_by_id(1).unwrap().nickname(), "second");
    assert_eq!(t.get_by_id(3).unwrap().nickname(), "second");
}

#[test]
fn channel_rows_group_members_and_keep_first_id() {
    let users = load_users(&vec![urec(1, "a", "a"), urec(2, "b", "b")]);
    let recs = vec![
        ChannelRecord { id: 5, name: "#x".to_string(), username: Some("a".to_string()) },
        ChannelRecord { id: 6, name: "#x".to_string(), username: Some("b".to_string()) },
        ChannelRecord { id: 7, name: "#y".to_string(), username: None },
    ];
    assert!(records_reference_known_users(&recs, &users));
    let t = load_channels(&recs, &users);
    let x = t.get(&"#x".to_string()).unwrap();
    assert_eq!(x.id(), 5);
    let mut m = x.member_names();
    m.sort();
    assert_eq!(m, vec!["a".to_string(), "b".to_string()]);
    assert!(t.get(&"#y".to_string()).unwrap().member_names().is_empty());
    let bad = vec![ChannelRecord { id: 1, name: "#z".to_string(), username: Some("nobody".to_string()) }];
    assert!(!records_reference_known_users(&bad, &users));
}

fn row(mid: i64, uid: i64, att: Option<(&str, &str)>) -> HistoryRow {
    HistoryRow {
        message_id: mid,
        user_id: uid,
        time: 100 + mid,
        nickname: format!("n{}", uid),
        content: format!("c{}", mid),
        url: att.map(|a| a.0.to_string()),
        mime: att.map(|a| a.1.to_string()),
    }
}

#[test]
fn history_rows_grouped_into_messages() {
    let users = load_users(&vec![urec(1, "a", "A"), urec(2, "b", "B")]);
    let rows = vec![
        row(10, 1, Some(("u1", "image/png"))),
        row(11, 2, None),
        row(10, 1, Some(("u2", "image/gif"))),
        row(12, 9, None),
        row(11, 2, None),
    ];
    let ms: Vec<Message> = group_history(&rows, &users);
    assert_eq!(ms.len(), 2);
    assert_eq!(ms[0].message_id, 10);
    assert_eq!(ms[0].time, 110);
    assert_eq!(ms[0].content, "c10");
    assert_eq!(ms[0].user.username, "a");
    let atts: Vec<(&str, &str)> = ms[0].attachments.iter().map(|a| (a.url.as_str(), a.mime.as_str())).collect();
    assert_eq!(atts, vec![("u1", "image/png"), ("u2", "image/gif")]);
    assert_eq!(ms[1].message_id, 11);
    assert_eq!(ms[1].nickname, "n2");
    assert!(ms[1].attachments.is_empty());
}

#[test]
fn message_new_has_no_attachments() {
    let u = User::new(4, "d", "D");
    let m = Message::new(1, &u, 50, "D", "hi");
    assert_eq!(m.user.id, 4);
    assert_eq!(m.content, "hi");
    assert!(m.attachments.is_empty());
}
