use chat_server::commands::{
    command_kind, credentials_if_valid, parse_incoming_json, read_credentials, CommandKind, JsonFields,
    USERNAME_PATTERN,
};
use chat_server::errors::CommandError;

fn fields() -> JsonFields {
    JsonFields {
        cmd: None,
        username: None,
        password: None,
        name: None,
        channel: None,
        content: None,
        channels: None,
    }
}

#[test]
fn invalid_json_is_refused() {
    assert_eq!(parse_incoming_json(None).err(), Some(CommandError::InvalidJSON));
}

#[test]
fn missing_or_unknown_command_is_refused() {
    assert_eq!(parse_incoming_json(Some(fields())).err(), Some(CommandError::MissingCommand));
    let mut f = fields();
    f.cmd = Some("msg".to_string());
    assert_eq!(parse_incoming_json(Some(f)).err(), Some(CommandError::MissingCommand));
}

#[test]
fn every_command_name_is_recognised() {
    let cases = [
        ("MSG", CommandKind::Msg),
        ("IDENT", CommandKind::Ident),
        ("REGISTER", CommandKind::Register),
        ("JOIN", CommandKind::Join),
        ("HISTORY", CommandKind::History),
        ("VIEWING", CommandKind::Viewing),
        ("NOTVIEWING", CommandKind::NotViewing),
    ];
    for (name, kind) in cases {
        assert_eq!(command_kind(&name.to_string()), Ok(kind));
        let mut f = fields();
        f.cmd = Some(name.to_string());
        let (k, back) = parse_incoming_json(Some(f)).unwrap();
        assert_eq!(k, kind);
        assert_eq!(back.cmd.as_deref(), Some(name));
    }
    assert_eq!(command_kind(&"PING".to_string()), Err(CommandError::MissingCommand));
}

#[test]
fn credentials_are_lowercased_and_checked() {
    let mut f = fields();
    assert_eq!(read_credentials(&f).err(), Some(CommandError::InvalidArguments));
    f.username = Some("Alice_01-X".to_string());
    assert_eq!(read_credentials(&f).err(), Some(CommandError::InvalidArguments));
    f.password = Some("SeCret".to_string());
    let c = read_credentials(&f).unwrap();
    assert_eq!(c.username, "alice_01-x");
    assert_eq!(c.password, "secret");
    f.username = Some("bad name!".to_string());
    assert_eq!(read_credentials(&f).err(), Some(CommandError::InvalidUsername));
    f.username = Some(String::new());
    assert_eq!(read_credentials(&f).unwrap().username, "");
}

#[test]
fn credentials_need_a_pattern_match() {
    assert!(credentials_if_valid("a".to_string(), "b".to_string(), Some(true)).is_ok());
    assert_eq!(
        credentials_if_valid("a".to_string(), "b".to_string(), Some(false)).err(),
        Some(CommandError::InvalidUsername)
    );
    assert_eq!(
        credentials_if_valid("a".to_string(), "b".to_string(), None).err(),
        Some(CommandError::InvalidUsername)
    );
    assert_eq!(USERNAME_PATTERN, "^[A-Za-z0-9_-]*$");
}

#[test]
fn login_ignores_letter_case() {
    let mut a = fields();
    a.username = Some("ALICE".to_string());
    a.password = Some("PassWord".to_string());
    let mut b = fields();
    b.username = Some("alice".to_string());
    b.password = Some("password".to_string());
    let ca = read_credentials(&a).unwrap();
    let cb = read_credentials(&b).unwrap();
    assert_eq!((ca.username, ca.password), (cb.username, cb.password));
}

#[test]
fn usernames_with_spaces_or_other_characters_are_refused() {
    for bad in ["bob smith", "bob\n", "b\u{e9}b", "bob!", "bob.smith"] {
        let mut f = fields();
        f.username = Some(bad.to_string());
        f.password = Some("pw".to_string());
        assert_eq!(read_credentials(&f).err(), Some(CommandError::InvalidUsername), "{:?}", bad);
    }
}
