//! The client commands: which command a message names, the checks each
//! command makes (in the order it makes them), and the state change and
//! replies it leads to. Database work happens between the steps here.

use vstd::prelude::*;
use crate::collections::key_views;
use crate::channel::{ChannelInfo, channel_info_of, connections_disjoint, member_connections};
use crate::errors::CommandError;
use crate::server::{
    ChatServer, ChannelRef, NoViewerPlan, ref_views, status_counts, StatusUpdate, no_viewer_plan_for, plan_names_distinct,
    status_recipients,
};
use crate::user::{
    ClientId, User, UserInfo, OnlineStatus, only_viewed, start_viewing, unviewed_channels,
    without_viewer,
};

verus! {

/// The fields of an incoming JSON message that commands read; each is
/// present only when the message has it as a string (for `channels`: as an
/// array, each element present only when it is a string).
#[derive(Debug)]
pub struct JsonFields {
    pub cmd: Option<String>,
    pub username: Option<String>,
    pub password: Option<String>,
    pub name: Option<String>,
    pub channel: Option<String>,
    pub content: Option<String>,
    pub channels: Option<Vec<Option<String>>>,
}

#[derive(Clone, Copy, PartialEq, Eq, Structural, Debug)]
pub enum CommandKind {
    Msg,
    Ident,
    Register,
    Join,
    History,
    Viewing,
    NotViewing,
}

/// Usernames may hold ASCII letters, digits, `_` and `-` only.
pub const USERNAME_PATTERN: &'static str = "^[A-Za-z0-9_-]*$";

/// What std's `str::to_lowercase` gives for a string.
pub uninterp spec fn lowercase(s: Seq<char>) -> Seq<char>;

/// std's `str::to_lowercase`: the string with every character mapped to its
/// Unicode lowercase. The mapping is named, not restated.
#[verifier::external_body]
fn to_lowercase(s: &str) -> (r: String)
    ensures
        r@ == lowercase(s@),
{
    s.to_lowercase()
}

/// What the regex crate answers for `pattern` and `text`: `None` when the
/// pattern does not compile, else whether the text matches.
pub uninterp spec fn regex_match(pattern: Seq<char>, text: Seq<char>) -> Option<bool>;

/// Every character is an ASCII letter, an ASCII digit, `_` or `-`: what
/// `USERNAME_PATTERN` accepts.
pub open spec fn username_chars_ok(s: Seq<char>) -> bool {
    forall|i: int|
        0 <= i < s.len() ==> {
            let c = #[trigger] s[i];
            ('A' <= c && c <= 'Z') || ('a' <= c && c <= 'z') || ('0' <= c && c <= '9') || c == '_' || c == '-'
        }
}

/// regex's `Regex::new(pattern)` followed by `is_match(text)`. The two calls
/// are made together because a compiled `Regex` has no value that a
/// contract could speak of. The answer is named; for `USERNAME_PATTERN`
/// (anchored at both ends, `$` matching only at the end of the text, `*`
/// admitting the empty text) it is also stated.
#[verifier::external_body]
fn regex_is_match(pattern: &str, text: &str) -> (r: Option<bool>)
    ensures
        r == regex_match(pattern@, text@),
        pattern@ == USERNAME_PATTERN@ ==> r == Some(username_chars_ok(text@)),
{
    match regex::Regex::new(pattern) {
        Ok(re) => Some(re.is_match(text)),
        Err(_) => None,
    }
}

/// std's `str::starts_with` with a string pattern.
#[verifier::external_body]
fn str_starts_with(s: &str, prefix: &str) -> (r: bool)
    ensures
        r == (prefix@.len() <= s@.len() && s@.subrange(0, prefix@.len() as int) == prefix@),
{
    s.starts_with(prefix)
}

fn string_is(s: &String, lit: &str) -> (r: bool)
    ensures
        r == (s@ == lit@),
{
    let t = lit.to_owned();
    *s == t
}

/// The command a message names.
pub open spec fn command_kind_of(cmd: Seq<char>) -> Result<CommandKind, CommandError> {
    if cmd == "MSG"@ {
        Ok(CommandKind::Msg)
    } else if cmd == "IDENT"@ {
        Ok(CommandKind::Ident)
    } else if cmd == "REGISTER"@ {
        Ok(CommandKind::Register)
    } else if cmd == "JOIN"@ {
        Ok(CommandKind::Join)
    } else if cmd == "HISTORY"@ {
        Ok(CommandKind::History)
    } else if cmd == "VIEWING"@ {
        Ok(CommandKind::Viewing)
    } else if cmd == "NOTVIEWING"@ {
        Ok(CommandKind::NotViewing)
    } else {
        Err(CommandError::MissingCommand)
    }
}

/// The command of an incoming message: `InvalidJSON` when it was not JSON,
/// `MissingCommand` when it has no `cmd` string or names no known command.
pub fn parse_incoming_json(json: Option<JsonFields>) -> (r: Result<(CommandKind, JsonFields), CommandError>)
    ensures
        json is None ==> r == Err::<(CommandKind, JsonFields), CommandError>(CommandError::InvalidJSON),
        json matches Some(j) ==> match j.cmd {
            None => r == Err::<(CommandKind, JsonFields), CommandError>(CommandError::MissingCommand),
            Some(c) => match command_kind_of(c@) {
                Ok(k) => (r matches Ok(p) && p.0 == k && p.1 == j),
                Err(e) => r == Err::<(CommandKind, JsonFields), CommandError>(e),
            },
        },
{
    match json {
        None => Err(CommandError::InvalidJSON),
        Some(j) => {
            let kind = match &j.cmd {
                None => {
                    return Err(CommandError::MissingCommand);
                },
                Some(c) => command_kind(c),
            };
            match kind {
                Ok(k) => Ok((k, j)),
                Err(e) => Err(e),
            }
        },
    }
}

/// The command that `cmd` names.
pub fn command_kind(cmd: &String) -> (r: Result<CommandKind, CommandError>)
    ensures
        r == command_kind_of(cmd@),
{
    if string_is(cmd, "MSG") {
        Ok(CommandKind::Msg)
    } else if string_is(cmd, "IDENT") {
        Ok(CommandKind::Ident)
    } else if string_is(cmd, "REGISTER") {
        Ok(CommandKind::Register)
    } else if string_is(cmd, "JOIN") {
        Ok(CommandKind::Join)
    } else if string_is(cmd, "HISTORY") {
        Ok(CommandKind::History)
    } else if string_is(cmd, "VIEWING") {
        Ok(CommandKind::Viewing)
    } else if string_is(cmd, "NOTVIEWING") {
        Ok(CommandKind::NotViewing)
    } else {
        Err(CommandError::MissingCommand)
    }
}

/// A username and password, both lowercased.
#[derive(Debug)]
pub struct Credentials {
    pub username: String,
    pub password: String,
}

/// Accepts lowercased credentials when the username matched the username
/// pattern (`pattern_match` is the regex answer for it); else
/// `InvalidUsername`.
pub fn credentials_if_valid(username: String, password: String, pattern_match: Option<bool>) -> (r: Result<
    Credentials,
    CommandError,
>)
    ensures
        pattern_match == Some(true) ==> (r matches Ok(c) && c.username == username && c.password == password),
        pattern_match != Some(true) ==> r == Err::<Credentials, CommandError>(CommandError::InvalidUsername),
{
    match pattern_match {
        Some(true) => Ok(Credentials { username, password }),
        _ => Err(CommandError::InvalidUsername),
    }
}

/// `r` is what an IDENT or REGISTER message with fields `json` gives as
/// credentials: both fields must be present (`InvalidArguments`), both are
/// lowercased, and the lowercased username must match the username pattern
/// (`InvalidUsername`).
pub open spec fn credentials_of(json: JsonFields, r: Result<Credentials, CommandError>) -> bool {
    match json.username {
        None => r == Err::<Credentials, CommandError>(CommandError::InvalidArguments),
        Some(u) => match json.password {
            None => r == Err::<Credentials, CommandError>(CommandError::InvalidArguments),
            Some(p) => {
                let lu = lowercase(u@);
                let lp = lowercase(p@);
                if username_chars_ok(lu) {
                    (r matches Ok(c) && c.username@ == lu && c.password@ == lp)
                } else {
                    r == Err::<Credentials, CommandError>(CommandError::InvalidUsername)
                }
            },
        },
    }
}

/// The credentials of an IDENT or REGISTER message (see `credentials_of`).
pub fn read_credentials(json: &JsonFields) -> (r: Result<Credentials, CommandError>)
    ensures
        credentials_of(*json, r),
{
    let username = match &json.username {
        Some(u) => to_lowercase(u.as_str()),
        None => {
            return Err(CommandError::InvalidArguments);
        },
    };
    let password = match &json.password {
        Some(p) => to_lowercase(p.as_str()),
        None => {
            return Err(CommandError::InvalidArguments);
        },
    };
    let matched = regex_is_match(USERNAME_PATTERN, username.as_str());
    credentials_if_valid(username, password, matched)
}

/// The reply to a client that has identified or registered.
#[derive(Debug)]
pub struct Welcome {
    pub nickname: String,
    pub channels: Vec<ChannelInfo>,
    pub viewing: Vec<String>,
    /// Status update to send first, when the user came online.
    pub status: Option<StatusUpdate>,
}

/// The channels `name` is a member of, each described as `serialize` does.
pub open spec fn channels_of_member(
    infos: Seq<ChannelInfo>,
    s: ChatServer,
    name: Seq<char>,
) -> bool {
    &&& forall|t: int|
        0 <= t < infos.len() ==> s.channels_map().contains_key((#[trigger] infos[t]).name@)
            && s.channels_map()[infos[t].name@].members().contains(name) && channel_info_of(
            infos[t],
            s.channels_map()[infos[t].name@],
            s.users_map(),
        )
    &&& forall|ch: Seq<char>|
        #[trigger] s.channels_map().contains_key(ch) && s.channels_map()[ch].members().contains(name)
            ==> exists|t: int| 0 <= t < infos.len() && (#[trigger] infos[t]).name@ == ch
    &&& forall|t1: int, t2: int|
        0 <= t1 < infos.len() && 0 <= t2 < infos.len() && t1 != t2 ==> (#[trigger] infos[t1]).name@
            != (#[trigger] infos[t2]).name@
}

/// The channels that `username` is a member of, described for clients.
fn member_channels(server: &ChatServer, username: &String) -> (r: Vec<ChannelInfo>)
    requires
        server.wf(),
    ensures
        channels_of_member(r@, *server, username@),
{
    let chans = server.channels();
    let users = server.users();
    let ghost cm = chans@;
    let mut out: Vec<ChannelInfo> = Vec::new();
    let ghost mut idx: Seq<int> = Seq::empty();
    let ghost mut slot: Seq<int> = Seq::empty();
    let n = chans.len();
    proof {
        chans.lemma_entries();
    }
    for i in 0..n
        invariant
            n == chans.len_spec(),
            server.wf(),
            cm == chans@,
            cm == server.channels_map(),
            users@ == server.users_map(),
            crate::server::channels_wf(*chans),
            crate::channel::users_wf(*users),
            idx.len() == out@.len(),
            slot.len() == i,
            forall|t: int|
                0 <= t < out@.len() ==> 0 <= #[trigger] idx[t] < i && (out@[t]).name@ == chans.key_spec(idx[t])
                    && cm[chans.key_spec(idx[t])].members().contains(username@) && channel_info_of(
                    out@[t],
                    cm[chans.key_spec(idx[t])],
                    users@,
                ),
            forall|j: int|
                0 <= j < i && cm[#[trigger] chans.key_spec(j)].members().contains(username@) ==> 0 <= slot[j]
                    < out@.len() && idx[slot[j]] == j,
            forall|t1: int, t2: int| 0 <= t1 < t2 < idx.len() ==> #[trigger] idx[t1] < #[trigger] idx[t2],
    {
        proof {
            chans.lemma_entries();
        }
        let ghost o0 = out@;
        let ghost k = chans.key_spec(i as int);
        assert(chans.as_map().contains_key(chans.key_spec(i as int)));
        assert(cm.contains_key(k) && cm[k] == chans.val_spec(i as int));
        let c = chans.val_at(i);
        if c.has_user(username) {
            let info = c.serialize(users);
            out.push(info);
            proof {
                idx = idx.push(i as int);
                slot = slot.push(o0.len() as int);
                assert forall|t: int| 0 <= t < o0.len() implies out@[t] == o0[t] by {}
            }
        } else {
            proof {
                slot = slot.push(-1);
            }
        }
    }
    proof {
        chans.lemma_entries();
        let r = out@;
        assert forall|t: int|
            0 <= t < r.len() implies cm.contains_key((#[trigger] r[t]).name@) && cm[r[t].name@].members().contains(
            username@,
        ) && channel_info_of(r[t], cm[r[t].name@], users@) by {
            let k = chans.key_spec(idx[t]);
            assert(chans.as_map().contains_key(chans.key_spec(idx[t])));
        }
        assert forall|ch: Seq<char>|
            #[trigger] cm.contains_key(ch) && cm[ch].members().contains(username@) implies exists|t: int|
            0 <= t < r.len() && (#[trigger] r[t]).name@ == ch by {
            let j = choose|j: int| 0 <= j < n && #[trigger] chans.key_spec(j) == ch;
            let t = slot[j];
            assert(r[t].name@ == chans.key_spec(idx[t]));
        }
        assert forall|t1: int, t2: int|
            0 <= t1 < r.len() && 0 <= t2 < r.len() && t1 != t2 implies (#[trigger] r[t1]).name@ != (#[trigger] r[t2]).name@ by {
            assert(idx[t1] != idx[t2]);
            assert(chans.key_spec(idx[t1]) != chans.key_spec(idx[t2]));
        }
    }
    out
}

/// Client `a` is identified as a registered user.
pub open spec fn is_authed(s: ChatServer, a: ClientId) -> bool {
    s.conn_map().contains_key(a) && s.users_map().contains_key(s.conn_map()[a])
}

/// The registered user that client `a` is identified as.
pub open spec fn authed_user(s: ChatServer, a: ClientId) -> User {
    s.users_map()[s.conn_map()[a]]
}

/// The user information, client list and state change that follow a
/// successful IDENT, given the server before and after and the status
/// update that came back.
pub open spec fn identified(
    s0: ChatServer,
    s1: ChatServer,
    a: ClientId,
    name: Seq<char>,
    status: Option<StatusUpdate>,
) -> bool {
    let u0 = s0.users_map()[name];
    let u1 = s1.users_map()[name];
    &&& s1.unauth_map() == s0.unauth_map().remove(a)
    &&& s1.conn_map() == s0.conn_map().insert(a, name)
    &&& s1.channels_map() == s0.channels_map()
    &&& s1.users_map().dom() == s0.users_map().dom()
    &&& s1.user_ids() == s0.user_ids()
    &&& forall|n: Seq<char>| #[trigger] s0.users_map().contains_key(n) && n != name ==> s1.users_map()[n]
        == s0.users_map()[n]
    &&& u1.connections() == u0.connections().insert(a)
    &&& u1.spec_status() == OnlineStatus::Online
    &&& u1.viewing() == u0.viewing()
    &&& u1.spec_id() == u0.spec_id()
    &&& u1.spec_name() == u0.spec_name()
    &&& u1.spec_nickname() == u0.spec_nickname()
    &&& (status is Some <==> u0.spec_status() != OnlineStatus::Online)
    &&& (status matches Some(su) ==> su.user.describes(&u1) && su.recipients@.to_set() == status_recipients(
        s1.users_map(),
        s1.channels_map(),
        name,
    ) && status_counts(su.recipients@, s1.users_map(), s1.channels_map(), name))
}

/// IDENT after the password check: `LoginFailed` when the password did not
/// verify, `InvalidUsername` when no such user is registered,
/// `InvalidArguments` when the client is not waiting to identify.
/// Otherwise the client becomes identified as the user, and the reply
/// carries the user's nickname, its channels and the channels it views.
pub fn ident_finish(server: &mut ChatServer, client: ClientId, creds: Credentials, login_succeeded: bool) -> (r:
    Result<Welcome, CommandError>)
    requires
        old(server).wf(),
    ensures
        final(server).wf(),
        !login_succeeded ==> r == Err::<Welcome, CommandError>(CommandError::LoginFailed),
        login_succeeded && !old(server).users_map().contains_key(creds.username@) ==> r == Err::<
            Welcome,
            CommandError,
        >(CommandError::InvalidUsername),
        login_succeeded && old(server).users_map().contains_key(creds.username@) && !old(
            server,
        ).unauth_map().contains_key(client) ==> r == Err::<Welcome, CommandError>(
            CommandError::InvalidArguments,
        ),
        login_succeeded && old(server).users_map().contains_key(creds.username@) && old(
            server,
        ).unauth_map().contains_key(client) ==> r is Ok,
        r is Err ==> *final(server) == *old(server),
        r matches Ok(w) ==> {
            let name = creds.username@;
            let u0 = old(server).users_map()[name];
            &&& login_succeeded
            &&& old(server).users_map().contains_key(name)
            &&& old(server).unauth_map().contains_key(client)
            &&& identified(*old(server), *final(server), client, name, w.status)
            &&& w.nickname@ == u0.spec_nickname()
            &&& key_views(w.viewing@).no_duplicates()
            &&& key_views(w.viewing@).to_set() == u0.viewing().dom()
            &&& channels_of_member(w.channels@, *final(server), name)
        },
{
    if !login_succeeded {
        return Err(CommandError::LoginFailed);
    }
    let (nickname, viewing) = match server.user_named(&creds.username) {
        Some(u) => (u.nickname().clone(), u.get_viewed_channels()),
        None => {
            return Err(CommandError::InvalidUsername);
        },
    };
    if server.get_unauthed_connection(client).is_none() {
        return Err(CommandError::InvalidArguments);
    }
    server.remove_unauth_connection(client);
    let status = server.add_connection(client, creds.username.clone());
    let channels = member_channels(server, &creds.username);
    Ok(Welcome { nickname, channels, viewing, status })
}

/// REGISTER before the database: `AlreadyRegistered` when the username is
/// taken.
pub fn register_check(server: &ChatServer, creds: &Credentials) -> (r: Result<(), CommandError>)
    requires
        server.wf(),
    ensures
        r is Err <==> server.users_map().contains_key(creds.username@),
        r matches Err(e) ==> e == CommandError::AlreadyRegistered,
{
    if server.user_named(&creds.username).is_some() {
        Err(CommandError::AlreadyRegistered)
    } else {
        Ok(())
    }
}

/// REGISTER after the database gave the new user `user_id`:
/// `InvalidArguments` when the client is not waiting to identify. Otherwise
/// the client becomes identified, and the new user (nickname = username)
/// is registered with that client as its one connection.
pub fn register_finish(server: &mut ChatServer, client: ClientId, creds: Credentials, user_id: i64) -> (r:
    Result<Welcome, CommandError>)
    requires
        old(server).wf(),
    ensures
        final(server).wf(),
        !old(server).unauth_map().contains_key(client) ==> r == Err::<Welcome, CommandError>(
            CommandError::InvalidArguments,
        ) && *final(server) == *old(server),
        old(server).unauth_map().contains_key(client) ==> (r matches Ok(w) && {
            let name = creds.username@;
            let u = final(server).users_map()[name];
            &&& final(server).unauth_map() == old(server).unauth_map().remove(client)
            &&& final(server).conn_map() == old(server).conn_map().insert(client, name)
            &&& final(server).channels_map() == old(server).channels_map()
            &&& final(server).users_map().dom() == old(server).users_map().dom().insert(name)
            &&& final(server).user_ids() == old(server).user_ids().insert(user_id, name)
            &&& forall|n: Seq<char>| #[trigger] old(server).users_map().contains_key(n) && n != name ==> final(server).users_map()[n]
                == old(server).users_map()[n]
            &&& u.spec_id() == user_id
            &&& u.spec_name() == name
            &&& u.spec_nickname() == name
            &&& u.connections() == Set::<ClientId>::empty().insert(client)
            &&& u.spec_status() == OnlineStatus::Online
            &&& u.viewing() == Map::<Seq<char>, Set<ClientId>>::empty()
            &&& w.nickname@ == name
            &&& w.channels@.len() == 0
            &&& w.viewing@.len() == 0
            &&& (w.status is Some <==> old(server).users_map().contains_key(name)
                && old(server).users_map()[name].spec_status() != OnlineStatus::Online)
        }),
{
    if server.get_unauthed_connection(client).is_none() {
        return Err(CommandError::InvalidArguments);
    }
    server.remove_unauth_connection(client);
    let status = server.add_connection(client, creds.username.clone());
    let mut user = User::new(user_id, creds.username.as_str(), creds.username.as_str());
    let _ = user.add_connection(client);
    let ghost nu = user;
    server.add_user(user);
    proof {
        assert(nu.connections() =~= Set::<ClientId>::empty().insert(client));
    }
    Ok(Welcome { nickname: creds.username, channels: Vec::new(), viewing: Vec::new(), status })
}

/// Where a JOIN goes.
#[derive(Debug)]
pub struct JoinTarget {
    pub user_id: i64,
    pub username: String,
    /// The channel name, lowercased.
    pub channel: String,
    /// The channel's id when it exists already.
    pub channel_id: Option<i64>,
}

/// JOIN before the database: `NeedAuth` when the client is not identified,
/// `InvalidArguments` when `name` is missing or (lowercased) does not start
/// with `#`.
pub fn join_check(server: &ChatServer, client: ClientId, json: &JsonFields) -> (r: Result<JoinTarget, CommandError>)
    requires
        server.wf(),
    ensures
        !is_authed(*server, client) ==> r == Err::<JoinTarget, CommandError>(CommandError::NeedAuth),
        is_authed(*server, client) && json.name is None ==> r == Err::<JoinTarget, CommandError>(
            CommandError::InvalidArguments,
        ),
        is_authed(*server, client) ==> (json.name matches Some(nm) ==> {
            let ln = lowercase(nm@);
            let u = authed_user(*server, client);
            if ln.len() >= 1 && ln[0] == '#' {
                (r matches Ok(t) && t.user_id == u.spec_id() && t.username@ == u.spec_name() && t.channel@
                    == ln && t.channel_id == (if server.channels_map().contains_key(ln) {
                    Some(server.channels_map()[ln].spec_id())
                } else {
                    None
                }))
            } else {
                r == Err::<JoinTarget, CommandError>(CommandError::InvalidArguments)
            }
        }),
{
    let user = match server.get_user(client) {
        Some(u) => u,
        None => {
            return Err(CommandError::NeedAuth);
        },
    };
    let channel = match &json.name {
        Some(nm) => to_lowercase(nm.as_str()),
        None => {
            return Err(CommandError::InvalidArguments);
        },
    };
    if !str_starts_with(channel.as_str(), "#") {
        proof {
            reveal_strlit("#");
            if channel@.len() >= 1 && channel@[0] == '#' {
                assert(channel@.subrange(0, 1) =~= "#"@);
            }
        }
        return Err(CommandError::InvalidArguments);
    }
    proof {
        reveal_strlit("#");
        assert(channel@.subrange(0, 1)[0] == channel@[0]);
    }
    let channel_id = match server.channel_named(&channel) {
        Some(c) => Some(c.id()),
        None => None,
    };
    Ok(JoinTarget { user_id: user.id(), username: user.username().clone(), channel, channel_id })
}

/// What a JOIN announces.
#[derive(Debug)]
pub struct JoinOutcome {
    /// The joining user, as announced to the channel.
    pub user: UserInfo,
    /// The channel after the join, as told to the joining client.
    pub channel: ChannelInfo,
    /// Who hears of the join: the clients of all registered members.
    pub recipients: Vec<ClientId>,
    /// Whether the joining client is one of the user's connections (the
    /// channel information is sent to it only then).
    pub reply: bool,
}

/// JOIN after the database recorded the membership (and made the channel,
/// when it was new): the user becomes a member. `None`, with nothing
/// changed, when the channel or the user is not there.
pub fn join_finish(server: &mut ChatServer, client: ClientId, target: &JoinTarget) -> (r: Option<JoinOutcome>)
    requires
        old(server).wf(),
    ensures
        final(server).wf(),
        r is Some <==> old(server).channels_map().contains_key(target.channel@) && old(
            server,
        ).users_map().contains_key(target.username@),
        r is None ==> *final(server) == *old(server),
        r matches Some(o) ==> {
            let ch = target.channel@;
            let c1 = final(server).channels_map()[ch];
            let u = final(server).users_map()[target.username@];
            &&& final(server).users_map() == old(server).users_map()
            &&& final(server).user_ids() == old(server).user_ids()
            &&& final(server).conn_map() == old(server).conn_map()
            &&& final(server).unauth_map() == old(server).unauth_map()
            &&& final(server).channels_map().dom() == old(server).channels_map().dom()
            &&& forall|k: Seq<char>| #[trigger] old(server).channels_map().contains_key(k) && k != ch ==> final(server).channels_map()[k]
                == old(server).channels_map()[k]
            &&& c1.members() == old(server).channels_map()[ch].members().insert(target.username@)
            &&& c1.spec_id() == old(server).channels_map()[ch].spec_id()
            &&& o.user.describes(&u)
            &&& channel_info_of(o.channel, c1, final(server).users_map())
            &&& o.recipients@.to_set() == member_connections(final(server).users_map(), c1.members(), None)
            &&& (connections_disjoint(final(server).users_map()) ==> o.recipients@.no_duplicates())
            &&& o.reply == u.connections().contains(client)
        },
{
    if server.channel_named(&target.channel).is_none() || server.user_named(&target.username).is_none() {
        return None;
    }
    server.add_channel_member(&target.channel, &target.username);
    let user = server.user_named(&target.username).unwrap();
    let c = server.channel_named(&target.channel).unwrap();
    let channel = c.serialize(server.users());
    let recipients = c.broadcast(server.users());
    Some(JoinOutcome { user: user.info(), channel, recipients, reply: user.has_connection(client) })
}

/// Where a MSG goes.
#[derive(Debug)]
pub struct MsgTarget {
    /// The sender, as announced with the message.
    pub user: UserInfo,
    /// The channel (name lowercased) and its id.
    pub channel: ChannelRef,
    pub content: String,
    /// Who hears the message: the clients of all registered members.
    pub recipients: Vec<ClientId>,
}

/// MSG before the database: `NeedAuth` when the client is not identified;
/// `InvalidArguments` when `channel` is missing or (lowercased) names no
/// channel; `NotInChannel` when the user is not a member; `InvalidArguments`
/// when `content` is missing or empty.
pub fn msg_check(server: &ChatServer, client: ClientId, json: &JsonFields) -> (r: Result<MsgTarget, CommandError>)
    requires
        server.wf(),
    ensures
        !is_authed(*server, client) ==> r == Err::<MsgTarget, CommandError>(CommandError::NeedAuth),
        is_authed(*server, client) && json.channel is None ==> r == Err::<MsgTarget, CommandError>(
            CommandError::InvalidArguments,
        ),
        is_authed(*server, client) ==> (json.channel matches Some(cn) ==> {
            let ln = lowercase(cn@);
            let u = authed_user(*server, client);
            let chans = server.channels_map();
            if !chans.contains_key(ln) {
                r == Err::<MsgTarget, CommandError>(CommandError::InvalidArguments)
            } else if !chans[ln].members().contains(u.spec_name()) {
                r == Err::<MsgTarget, CommandError>(CommandError::NotInChannel)
            } else {
                match json.content {
                    None => r == Err::<MsgTarget, CommandError>(CommandError::InvalidArguments),
                    Some(text) => if text@.len() == 0 {
                        r == Err::<MsgTarget, CommandError>(CommandError::InvalidArguments)
                    } else {
                        (r matches Ok(t) && t.user.describes(&u) && t.channel.name@ == ln && t.channel.id
                            == chans[ln].spec_id() && t.content == text && t.recipients@.to_set()
                            == member_connections(server.users_map(), chans[ln].members(), None) && (
                        connections_disjoint(server.users_map()) ==> t.recipients@.no_duplicates()))
                    },
                }
            }
        }),
{
    let user = match server.get_user(client) {
        Some(u) => u,
        None => {
            return Err(CommandError::NeedAuth);
        },
    };
    let channel_name = match &json.channel {
        Some(cn) => to_lowercase(cn.as_str()),
        None => {
            return Err(CommandError::InvalidArguments);
        },
    };
    let channel = match server.channel_named(&channel_name) {
        Some(c) => c,
        None => {
            return Err(CommandError::InvalidArguments);
        },
    };
    if !channel.has_user(user.username()) {
        return Err(CommandError::NotInChannel);
    }
    let content = match &json.content {
        Some(text) => text,
        None => {
            return Err(CommandError::InvalidArguments);
        },
    };
    if content.as_str().is_empty() {
        return Err(CommandError::InvalidArguments);
    }
    let recipients = channel.broadcast(server.users());
    Ok(MsgTarget {
        user: user.info(),
        channel: ChannelRef { name: channel_name, id: channel.id() },
        content: content.clone(),
        recipients,
    })
}

/// The views of a list of optional strings.
pub open spec fn opt_views(items: Seq<Option<String>>) -> Seq<Option<Seq<char>>> {
    items.map_values(
        |o: Option<String>|
            match o {
                Some(x) => Some(x@),
                None => None,
            },
    )
}

/// The channels a HISTORY request asks for that exist and have `name` as a
/// member, in request order (names lowercased), with their ids.
pub open spec fn history_channels(
    chans: Map<Seq<char>, crate::channel::Channel>,
    name: Seq<char>,
    items: Seq<Option<Seq<char>>>,
) -> Seq<(Seq<char>, i64)>
    decreases items.len(),
{
    if items.len() == 0 {
        Seq::empty()
    } else {
        let prev = history_channels(chans, name, items.drop_last());
        match items.last() {
            Some(x) => {
                let l = lowercase(x);
                if chans.contains_key(l) && chans[l].members().contains(name) {
                    prev.push((l, chans[l].spec_id()))
                } else {
                    prev
                }
            },
            None => prev,
        }
    }
}

/// What a HISTORY request reads.
#[derive(Debug)]
pub struct HistoryTarget {
    pub user_id: i64,
    pub channels: Vec<ChannelRef>,
    /// Whether the asking client is one of the user's connections (the
    /// history is sent to it only then).
    pub reply: bool,
}

/// HISTORY before the database: `NeedAuth` when the client is not
/// identified, `InvalidArguments` when `channels` is not an array. The
/// channels read are those the request names (as strings, lowercased) that
/// exist and have the user as a member; other entries are skipped.
pub fn history_check(server: &ChatServer, client: ClientId, json: &JsonFields) -> (r: Result<
    HistoryTarget,
    CommandError,
>)
    requires
        server.wf(),
    ensures
        !is_authed(*server, client) ==> r == Err::<HistoryTarget, CommandError>(CommandError::NeedAuth),
        is_authed(*server, client) && json.channels is None ==> r == Err::<HistoryTarget, CommandError>(
            CommandError::InvalidArguments,
        ),
        is_authed(*server, client) ==> (json.channels matches Some(items) ==> {
            let u = authed_user(*server, client);
            (r matches Ok(t) && t.user_id == u.spec_id() && ref_views(t.channels@) == history_channels(
                server.channels_map(),
                u.spec_name(),
                opt_views(items@),
            ) && t.reply == u.connections().contains(client))
        }),
{
    let user = match server.get_user(client) {
        Some(u) => u,
        None => {
            return Err(CommandError::NeedAuth);
        },
    };
    let items = match &json.channels {
        Some(items) => items,
        None => {
            return Err(CommandError::InvalidArguments);
        },
    };
    let ghost chans = server.channels_map();
    let ghost uname = user.spec_name();
    let ghost iv = opt_views(items@);
    let mut out: Vec<ChannelRef> = Vec::new();
    let n = items.len();
    for i in 0..n
        invariant
            n == items@.len(),
            server.wf(),
            chans == server.channels_map(),
            uname == user.spec_name(),
            iv == opt_views(items@),
            ref_views(out@) == history_channels(chans, uname, iv.take(i as int)),
    {
        let ghost o0 = out@;
        proof {
            assert(iv.take(i + 1).drop_last() =~= iv.take(i as int));
            assert(iv.take(i + 1).last() == iv[i as int]);
        }
        match &items[i] {
            Some(x) => {
                let lower = to_lowercase(x.as_str());
                match server.channel_named(&lower) {
                    Some(c) => {
                        if c.has_user(user.username()) {
                            out.push(ChannelRef { name: lower, id: c.id() });
                            assert(ref_views(out@) =~= ref_views(o0).push((lower@, chans[lower@].spec_id())));
                        }
                    },
                    None => {},
                }
            },
            None => {},
        }
    }
    proof {
        assert(iv.take(n as int) =~= iv);
    }
    Ok(HistoryTarget { user_id: user.id(), channels: out, reply: user.has_connection(client) })
}

/// What a VIEWING command leads to.
#[derive(Debug)]
pub struct ViewingOutcome {
    pub user_id: i64,
    /// The channel now viewed (name lowercased) and its id.
    pub channel: ChannelRef,
    /// Channels that lost their last viewer among the user's clients.
    pub no_viewers: NoViewerPlan,
    /// The user's clients, told that the channel has viewers.
    pub recipients: Vec<ClientId>,
}

/// VIEWING: `InvalidArguments` when `channel` is missing; `NeedAuth` when
/// the client is not identified; `InvalidArguments` when the (lowercased)
/// channel does not exist; `NotInChannel` when the user is not a member.
/// Otherwise the client views that channel only, and channel entries left
/// without viewers are dropped.
pub fn viewing(server: &mut ChatServer, client: ClientId, json: &JsonFields) -> (r: Result<
    ViewingOutcome,
    CommandError,
>)
    requires
        old(server).wf(),
    ensures
        final(server).wf(),
        r is Err ==> *final(server) == *old(server),
        json.channel is None ==> r == Err::<ViewingOutcome, CommandError>(CommandError::InvalidArguments),
        json.channel matches Some(cn) ==> {
            let ln = lowercase(cn@);
            let s0 = *old(server);
            let s1 = *final(server);
            let chans = s0.channels_map();
            if !is_authed(s0, client) {
                r == Err::<ViewingOutcome, CommandError>(CommandError::NeedAuth)
            } else if !chans.contains_key(ln) {
                r == Err::<ViewingOutcome, CommandError>(CommandError::InvalidArguments)
            } else if !chans[ln].members().contains(authed_user(s0, client).spec_name()) {
                r == Err::<ViewingOutcome, CommandError>(CommandError::NotInChannel)
            } else {
                let n = s0.conn_map()[client];
                let u0 = s0.users_map()[n];
                let u1 = s1.users_map()[n];
                let mid = start_viewing(u0.viewing(), ln, client);
                (r matches Ok(o) && o.user_id == u0.spec_id() && o.channel.name@ == ln && o.channel.id
                    == chans[ln].spec_id() && o.recipients@.no_duplicates() && o.recipients@.to_set()
                    == u1.connections() && no_viewer_plan_for(
                    o.no_viewers,
                    s1.channels_map(),
                    unviewed_channels(mid),
                    u1,
                ) && plan_names_distinct(o.no_viewers) && s1.conn_map() == s0.conn_map()
                    && s1.channels_map() == s0.channels_map() && s1.unauth_map() == s0.unauth_map()
                    && s1.users_map().dom() == s0.users_map().dom() && s1.user_ids() == s0.user_ids() && (forall|m: Seq<char>|
                    #[trigger] s0.users_map().contains_key(m) && m != n ==> s1.users_map()[m]
                        == s0.users_map()[m]) && u1.viewing() == only_viewed(mid) && u1.connections()
                    == u0.connections() && u1.spec_status() == u0.spec_status() && u1.spec_id()
                    == u0.spec_id() && u1.spec_name() == u0.spec_name() && u1.spec_nickname()
                    == u0.spec_nickname())
            }
        },
{
    let channel_name = match &json.channel {
        Some(cn) => to_lowercase(cn.as_str()),
        None => {
            return Err(CommandError::InvalidArguments);
        },
    };
    let channel_id = {
        let user = match server.get_user(client) {
            Some(u) => u,
            None => {
                return Err(CommandError::NeedAuth);
            },
        };
        let channel = match server.channel_named(&channel_name) {
            Some(c) => c,
            None => {
                return Err(CommandError::InvalidArguments);
            },
        };
        if !channel.has_user(user.username()) {
            return Err(CommandError::NotInChannel);
        }
        channel.id()
    };
    let (user_id, names) = server.view_channel(client, channel_name.as_str()).unwrap();
    let user = server.get_user(client).unwrap();
    let no_viewers = server.send_no_viewer_notifications(&names, user);
    let recipients = user.connection_ids();
    Ok(ViewingOutcome {
        user_id,
        channel: ChannelRef { name: channel_name, id: channel_id },
        no_viewers,
        recipients,
    })
}

/// NOTVIEWING: `NeedAuth` when the client is not identified. Otherwise the
/// client views no channel, and channel entries left without viewers are
/// dropped.
pub fn not_viewing(server: &mut ChatServer, client: ClientId) -> (r: Result<NoViewerPlan, CommandError>)
    requires
        old(server).wf(),
    ensures
        final(server).wf(),
        !is_authed(*old(server), client) ==> r == Err::<NoViewerPlan, CommandError>(CommandError::NeedAuth)
            && *final(server) == *old(server),
        is_authed(*old(server), client) ==> {
            let s0 = *old(server);
            let s1 = *final(server);
            let n = s0.conn_map()[client];
            let u0 = s0.users_map()[n];
            let u1 = s1.users_map()[n];
            let mid = without_viewer(u0.viewing(), client);
            (r matches Ok(p) && no_viewer_plan_for(p, s1.channels_map(), unviewed_channels(mid), u1)
                && plan_names_distinct(p) && s1.conn_map() == s0.conn_map() && s1.channels_map()
                == s0.channels_map() && s1.unauth_map() == s0.unauth_map() && s1.users_map().dom()
                == s0.users_map().dom() && s1.user_ids() == s0.user_ids() && (forall|m: Seq<char>|
                #[trigger] s0.users_map().contains_key(m) && m != n ==> s1.users_map()[m] == s0.users_map()[m])
                && u1.viewing() == only_viewed(mid) && u1.connections() == u0.connections()
                && u1.spec_status() == u0.spec_status() && u1.spec_id() == u0.spec_id() && u1.spec_name()
                == u0.spec_name() && u1.spec_nickname() == u0.spec_nickname())
        },
{
    let names = match server.stop_viewing(client) {
        Some(names) => names,
        None => {
            return Err(CommandError::NeedAuth);
        },
    };
    let user = server.get_user(client).unwrap();
    Ok(server.send_no_viewer_notifications(&names, user))
}

} // verus!
