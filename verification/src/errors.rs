//! Errors that end a client's session, and the websocket close frame each
//! one is answered with.

use vstd::prelude::*;

verus! {

/// Failures of the database layer.
#[derive(Clone, Copy, PartialEq, Eq, Structural, Debug)]
pub enum DatabaseError {
    DBMSError,
    PasswordHashError,
}

impl DatabaseError {
    pub open spec fn spec_message(&self) -> Seq<char> {
        match self {
            DatabaseError::DBMSError => "DBMS Error"@,
            DatabaseError::PasswordHashError => "Password hashing error"@,
        }
    }

    /// The error's text.
    pub fn message(&self) -> (r: &'static str)
        ensures
            r@ == self.spec_message(),
    {
        match self {
            DatabaseError::DBMSError => "DBMS Error",
            DatabaseError::PasswordHashError => "Password hashing error",
        }
    }
}

/// Why a client command was refused; the client is then disconnected.
#[derive(Clone, Copy, PartialEq, Eq, Structural, Debug)]
pub enum CommandError {
    MissingCommand,
    InvalidJSON,
    InvalidArguments,
    InvalidUsername,
    SendFailed,
    LoginDBMSError(DatabaseError),
    LoginFailed,
    NeedAuth,
    NotInChannel,
    TimeError,
    DidNotAuth,
    AlreadyRegistered,
}

impl CommandError {
    pub open spec fn spec_message(&self) -> Seq<char> {
        match self {
            CommandError::MissingCommand => "Missing command"@,
            CommandError::InvalidJSON => "Invalid JSON"@,
            CommandError::InvalidArguments => "Invalid command arguments"@,
            CommandError::InvalidUsername => "Invalid username or password"@,
            CommandError::SendFailed => "Internal server error"@,
            CommandError::LoginDBMSError(_) => "Internal server error"@,
            CommandError::LoginFailed => "Invalid username or password"@,
            CommandError::NeedAuth => "Need to login to use this command"@,
            CommandError::NotInChannel => "Need to be in a channel to use this command"@,
            CommandError::TimeError => "Internal server error"@,
            CommandError::DidNotAuth => "Did not authenticate in time"@,
            CommandError::AlreadyRegistered => "User is already registered"@,
        }
    }

    /// The error's text.
    pub fn message(&self) -> (r: &'static str)
        ensures
            r@ == self.spec_message(),
    {
        match self {
            CommandError::MissingCommand => "Missing command",
            CommandError::InvalidJSON => "Invalid JSON",
            CommandError::InvalidArguments => "Invalid command arguments",
            CommandError::InvalidUsername => "Invalid username or password",
            CommandError::SendFailed => "Internal server error",
            CommandError::LoginDBMSError(_) => "Internal server error",
            CommandError::LoginFailed => "Invalid username or password",
            CommandError::NeedAuth => "Need to login to use this command",
            CommandError::NotInChannel => "Need to be in a channel to use this command",
            CommandError::TimeError => "Internal server error",
            CommandError::DidNotAuth => "Did not authenticate in time",
            CommandError::AlreadyRegistered => "User is already registered",
        }
    }

    /// A database failure while logging in or acting for a client.
    pub fn from_database(e: DatabaseError) -> (r: Self)
        ensures
            r == CommandError::LoginDBMSError(e),
    {
        CommandError::LoginDBMSError(e)
    }
}

/// What the server hands a client's connection task.
#[derive(Debug)]
pub enum ServerCommandResponse {
    Text(String),
    Disconnect(CommandError),
}

/// The websocket close code for each refusal.
pub open spec fn close_code(e: CommandError) -> u16 {
    match e {
        CommandError::MissingCommand => 4000,
        CommandError::InvalidJSON => 4001,
        CommandError::InvalidArguments => 4002,
        CommandError::InvalidUsername => 4003,
        CommandError::SendFailed => 4004,
        CommandError::LoginDBMSError(_) => 4005,
        CommandError::LoginFailed => 4006,
        CommandError::NeedAuth => 4007,
        CommandError::NotInChannel => 4008,
        CommandError::TimeError => 4009,
        CommandError::DidNotAuth => 4010,
        CommandError::AlreadyRegistered => 4011,
    }
}

/// The reason sent with each close code.
pub open spec fn close_reason(e: CommandError) -> Seq<char> {
    match e {
        CommandError::MissingCommand => "Unknown command"@,
        CommandError::InvalidJSON => "Invalid JSON"@,
        CommandError::InvalidArguments => "Invalid command arguments"@,
        CommandError::InvalidUsername => "Invalid username or password"@,
        CommandError::SendFailed => "Internal server error"@,
        CommandError::LoginDBMSError(_) => "Internal server error"@,
        CommandError::LoginFailed => "Invalid username or password"@,
        CommandError::NeedAuth => "Need to login to use this command"@,
        CommandError::NotInChannel => "Need to be in a channel to use this command"@,
        CommandError::TimeError => "Internal server error"@,
        CommandError::DidNotAuth => "Did not authenticate in time"@,
        CommandError::AlreadyRegistered => "User is already registered"@,
    }
}

/// The close frame (code and reason) that a refused client receives.
pub fn error_to_close_frame(error: CommandError) -> (r: (u16, &'static str))
    ensures
        r.0 == close_code(error),
        r.1@ == close_reason(error),
{
    match error {
        CommandError::MissingCommand => (4000, "Unknown command"),
        CommandError::InvalidJSON => (4001, "Invalid JSON"),
        CommandError::InvalidArguments => (4002, "Invalid command arguments"),
        CommandError::InvalidUsername => (4003, "Invalid username or password"),
        CommandError::SendFailed => (4004, "Internal server error"),
        CommandError::LoginDBMSError(_) => (4005, "Internal server error"),
        CommandError::LoginFailed => (4006, "Invalid username or password"),
        CommandError::NeedAuth => (4007, "Need to login to use this command"),
        CommandError::NotInChannel => (4008, "Need to be in a channel to use this command"),
        CommandError::TimeError => (4009, "Internal server error"),
        CommandError::DidNotAuth => (4010, "Did not authenticate in time"),
        CommandError::AlreadyRegistered => (4011, "User is already registered"),
    }
}

/// The close frame for a client that leaves on its own: code 1000 (normal
/// closure), reason "Bye".
pub fn get_normal_close_frame() -> (r: (u16, &'static str))
    ensures
        r.0 == 1000,
        r.1@ == "Bye"@,
{
    (1000, "Bye")
}

} // verus!
