//! The server's state: registered users, channels, clients that have not
//! identified themselves yet, and which user each identified client is.
//! Each operation states how the state changes and who must be told.

use vstd::prelude::*;
use crate::collections::{key_views, KeyMap};
use crate::channel::{Channel, users_wf, member_connections, connections_disjoint};
use crate::user_table::UserTable;
use crate::user::{
    ClientId, User, UserInfo, UnauthedUser, OnlineStatus, without_viewer, only_viewed,
    unviewed_channels, start_viewing,
};
use crate::attachments::AttachmentInfo;

verus! {

broadcast use vstd::std_specs::hash::group_hash_axioms;

/// The channels, by name.
pub type ChannelTable = KeyMap<String, Channel>;

/// Every channel is filed under its own name and is well formed.
pub open spec fn channels_wf(t: ChannelTable) -> bool {
    &&& t.wf()
    &&& forall|n: Seq<char>| #[trigger] t@.contains_key(n) ==> t@[n].wf() && t@[n].spec_name() == n
}

/// How long a client may stay connected without identifying itself.
pub const UNAUTH_TIMEOUT_MS: u64 = 30000;

/// More than the allowed time has passed since `time` (no time passes when
/// the clock reads earlier than `time`).
pub open spec fn timed_out(now: u64, time: u64) -> bool {
    now > time && now - time > UNAUTH_TIMEOUT_MS
}

/// Who is told that `name`'s status changed: for every channel that has
/// `name` as a member, the clients of its other registered members.
pub open spec fn status_recipients(
    users: Map<Seq<char>, User>,
    channels: Map<Seq<char>, Channel>,
    name: Seq<char>,
) -> Set<ClientId> {
    Set::new(
        |c: ClientId|
            exists|ch: Seq<char>|
                #![trigger channels[ch]]
                channels.contains_key(ch) && channels[ch].members().contains(name)
                    && member_connections(users, channels[ch].members(), Some(users[name])).contains(c),
    )
}

/// The channels through which client `c` hears of `name`'s status: those
/// that have `name` as a member and `c` among the clients of their other
/// registered members.
pub open spec fn status_channels(
    users: Map<Seq<char>, User>,
    channels: Map<Seq<char>, Channel>,
    name: Seq<char>,
    c: ClientId,
) -> Set<Seq<char>> {
    Set::new(
        |ch: Seq<char>|
            channels.contains_key(ch) && channels[ch].members().contains(name) && member_connections(
                users,
                channels[ch].members(),
                Some(users[name]),
            ).contains(c),
    )
}

/// One status message per channel shared: while no client is a connection
/// of two users, each client appears in `recipients` once for every channel
/// through which it hears of `name`.
pub open spec fn status_counts(
    recipients: Seq<ClientId>,
    users: Map<Seq<char>, User>,
    channels: Map<Seq<char>, Channel>,
    name: Seq<char>,
) -> bool {
    connections_disjoint(users) ==> forall|c: ClientId|
        #[trigger] recipients.to_multiset().count(c) == status_channels(users, channels, name, c).len()
}

/// Whether the channel filed under `k` makes client `c` hear of `name`.
pub open spec fn hears_through(
    users: Map<Seq<char>, User>,
    channels: Map<Seq<char>, Channel>,
    name: Seq<char>,
    c: ClientId,
) -> spec_fn(Seq<char>) -> bool {
    |k: Seq<char>| status_channels(users, channels, name, c).contains(k)
}

/// A user's new status, and the clients to tell.
#[derive(Debug)]
pub struct StatusUpdate {
    pub user: UserInfo,
    pub recipients: Vec<ClientId>,
}

/// A channel by name and id.
#[derive(Debug)]
pub struct ChannelRef {
    pub name: String,
    pub id: i64,
}

/// The views of a list of channel references: name and id.
pub open spec fn ref_views(refs: Seq<ChannelRef>) -> Seq<(Seq<char>, i64)> {
    refs.map_values(|c: ChannelRef| (c.name@, c.id))
}

/// The names among `names` that are channels, in order (repeats kept),
/// each with its channel's id.
pub open spec fn known_channels(chans: Map<Seq<char>, Channel>, names: Seq<Seq<char>>) -> Seq<(Seq<char>, i64)>
    decreases names.len(),
{
    if names.len() == 0 {
        Seq::empty()
    } else {
        let prev = known_channels(chans, names.drop_last());
        let n = names.last();
        if chans.contains_key(n) {
            prev.push((n, chans[n].spec_id()))
        } else {
            prev
        }
    }
}

/// Channels that lost their last viewer among a user's clients: for each,
/// the last read message is recorded for the user, and the user's clients
/// are told.
#[derive(Debug)]
pub struct NoViewerPlan {
    pub user_id: i64,
    pub channels: Vec<ChannelRef>,
    pub recipients: Vec<ClientId>,
}

/// `p` lists exactly the channels named in `names` that exist, with their
/// ids, for `user`'s clients.
pub open spec fn no_viewer_plan_for(
    p: NoViewerPlan,
    channels: Map<Seq<char>, Channel>,
    names: Set<Seq<char>>,
    user: User,
) -> bool {
    &&& p.user_id == user.spec_id()
    &&& p.recipients@.no_duplicates()
    &&& p.recipients@.to_set() == user.connections()
    &&& forall|t: int|
        0 <= t < p.channels@.len() ==> names.contains((#[trigger] p.channels@[t]).name@)
            && channels.contains_key(p.channels@[t].name@) && p.channels@[t].id
            == channels[p.channels@[t].name@].spec_id()
    &&& forall|n: Seq<char>|
        names.contains(n) && #[trigger] channels.contains_key(n) ==> exists|t: int|
            0 <= t < p.channels@.len() && (#[trigger] p.channels@[t]).name@ == n
}

/// How a user changes when its client `addr` disconnects.
pub open spec fn departed(u0: User, u1: User, addr: ClientId) -> bool {
    &&& u1.connections() == u0.connections().remove(addr)
    &&& u1.viewing() == only_viewed(without_viewer(u0.viewing(), addr))
    &&& u1.spec_status() == (if u1.connections() == Set::<ClientId>::empty() {
        OnlineStatus::Offline
    } else {
        u0.spec_status()
    })
    &&& u1.spec_id() == u0.spec_id()
    &&& u1.spec_name() == u0.spec_name()
    &&& u1.spec_nickname() == u0.spec_nickname()
}

/// The channel names in `p` are distinct.
pub open spec fn plan_names_distinct(p: NoViewerPlan) -> bool {
    forall|t1: int, t2: int|
        0 <= t1 < p.channels@.len() && 0 <= t2 < p.channels@.len() && t1 != t2 ==> (#[trigger] p.channels@[t1]).name@
            != (#[trigger] p.channels@[t2]).name@
}

/// A new attachment's channel, and the clients to tell.
#[derive(Debug)]
pub struct AttachmentNotice {
    pub channel: String,
    pub recipients: Vec<ClientId>,
}

/// What a closed connection calls for.
#[derive(Debug)]
pub struct Departure {
    /// Present when the user's status changed: it was not offline and has
    /// no connection left.
    pub status: Option<StatusUpdate>,
    /// Present when the connection belonged to a registered user.
    pub no_viewers: Option<NoViewerPlan>,
}

pub struct ChatServer {
    users: UserTable,
    channels: ChannelTable,
    unauth_connections: std::collections::HashMap<ClientId, UnauthedUser>,
    connections: std::collections::HashMap<ClientId, String>,
}

/// How the server changes when client `addr` identifies as `name`, and
/// the status update `r` that results: the client is recorded as `name`;
/// when `name` is registered, the client joins its connections and the user
/// is online, and an update goes out exactly when it was not online before.
pub open spec fn connected(
    s0: ChatServer,
    s1: ChatServer,
    addr: ClientId,
    name: Seq<char>,
    r: Option<StatusUpdate>,
) -> bool {
    &&& s1.conn_map() == s0.conn_map().insert(addr, name)
    &&& s1.channels_map() == s0.channels_map()
    &&& s1.unauth_map() == s0.unauth_map()
    &&& s1.users_map().dom() == s0.users_map().dom()
    &&& s1.user_ids() == s0.user_ids()
    &&& forall|n: Seq<char>|
        #[trigger] s0.users_map().contains_key(n) && n != name ==> s1.users_map()[n] == s0.users_map()[n]
    &&& s0.users_map().contains_key(name) ==> {
        let u0 = s0.users_map()[name];
        let u1 = s1.users_map()[name];
        &&& u1.connections() == u0.connections().insert(addr)
        &&& u1.spec_status() == OnlineStatus::Online
        &&& u1.viewing() == u0.viewing()
        &&& u1.spec_id() == u0.spec_id()
        &&& u1.spec_name() == u0.spec_name()
        &&& u1.spec_nickname() == u0.spec_nickname()
    }
    &&& (r is Some <==> (s0.users_map().contains_key(name) && s0.users_map()[name].spec_status()
        != OnlineStatus::Online))
    &&& (r matches Some(su) ==> su.user.describes(&s1.users_map()[name]) && su.recipients@.to_set()
        == status_recipients(s1.users_map(), s1.channels_map(), name) && status_counts(
        su.recipients@,
        s1.users_map(),
        s1.channels_map(),
        name,
    ))
}

/// How the server changes when client `addr` disconnects, and what `r`
/// says must follow: nothing when the client was not identified; else the
/// client is forgotten, its user (when registered) has `departed`, a status
/// update goes out exactly when the user's status changes (it was not
/// offline and is left without connections), and the channels that lost
/// their last viewer are listed.
pub open spec fn disconnected(s0: ChatServer, s1: ChatServer, addr: ClientId, r: Option<Departure>) -> bool {
    &&& (r is Some == s0.conn_map().contains_key(addr))
    &&& s1.conn_map() == s0.conn_map().remove(addr)
    &&& s1.channels_map() == s0.channels_map()
    &&& s1.unauth_map() == s0.unauth_map()
    &&& s1.user_ids() == s0.user_ids()
    &&& !s0.conn_map().contains_key(addr) ==> s1.users_map() == s0.users_map()
    &&& r matches Some(d) ==> {
        let n = s0.conn_map()[addr];
        let users0 = s0.users_map();
        let users1 = s1.users_map();
        &&& users1.dom() == users0.dom()
        &&& forall|m: Seq<char>| #[trigger] users0.contains_key(m) && m != n ==> users1[m] == users0[m]
        &&& users0.contains_key(n) ==> departed(users0[n], users1[n], addr)
        &&& (d.status is Some <==> users0.contains_key(n) && users0[n].spec_status() != OnlineStatus::Offline
            && users1[n].connections() == Set::<ClientId>::empty())
        &&& (d.status matches Some(su) ==> su.user.describes(&users1[n]) && su.recipients@.to_set()
            == status_recipients(users1, s1.channels_map(), n) && status_counts(
            su.recipients@,
            users1,
            s1.channels_map(),
            n,
        ))
        &&& (d.no_viewers is Some <==> users0.contains_key(n))
        &&& (d.no_viewers matches Some(p) ==> no_viewer_plan_for(
            p,
            s1.channels_map(),
            unviewed_channels(without_viewer(users0[n].viewing(), addr)),
            users1[n],
        ) && plan_names_distinct(p))
    }
}

impl ChatServer {
    pub closed spec fn users_map(&self) -> Map<Seq<char>, User> {
        self.users@
    }

    /// For each id, the username that looking a user up by that id goes to.
    pub closed spec fn user_ids(&self) -> Map<i64, Seq<char>> {
        self.users.id_index()
    }

    pub closed spec fn channels_map(&self) -> Map<Seq<char>, Channel> {
        self.channels@
    }

    /// Clients that have not identified themselves, with when they connected.
    pub closed spec fn unauth_map(&self) -> Map<ClientId, UnauthedUser> {
        self.unauth_connections@
    }

    /// Identified clients and the username each is connected as.
    pub closed spec fn conn_map(&self) -> Map<ClientId, Seq<char>> {
        Map::new(|a: ClientId| self.connections@.contains_key(a), |a: ClientId| self.connections@[a]@)
    }

    pub closed spec fn wf(&self) -> bool {
        &&& users_wf(self.users)
        &&& channels_wf(self.channels)
    }

    pub fn new(users: UserTable, channels: ChannelTable) -> (s: Self)
        requires
            users_wf(users),
            channels_wf(channels),
        ensures
            s.wf(),
            s.users_map() == users@,
            s.user_ids() == users.id_index(),
            s.channels_map() == channels@,
            s.unauth_map() == Map::<ClientId, UnauthedUser>::empty(),
            s.conn_map() == Map::<ClientId, Seq<char>>::empty(),
    {
        let s = ChatServer {
            users,
            channels,
            unauth_connections: std::collections::HashMap::new(),
            connections: std::collections::HashMap::new(),
        };
        assert(s.conn_map() =~= Map::<ClientId, Seq<char>>::empty());
        s
    }

    /// Every registered user and every channel is well formed and filed
    /// under its own name.
    pub proof fn lemma_wf(&self)
        requires
            self.wf(),
        ensures
            forall|n: Seq<char>| #[trigger]
                self.users_map().contains_key(n) ==> self.users_map()[n].wf() && self.users_map()[n].spec_name()
                    == n,
            forall|n: Seq<char>| #[trigger]
                self.channels_map().contains_key(n) ==> self.channels_map()[n].wf()
                    && self.channels_map()[n].spec_name() == n,
    {
    }

    pub fn users(&self) -> (r: &UserTable)
        requires
            self.wf(),
        ensures
            users_wf(*r),
            r@ == self.users_map(),
            r.id_index() == self.user_ids(),
    {
        &self.users
    }

    pub fn channels(&self) -> (r: &ChannelTable)
        requires
            self.wf(),
        ensures
            channels_wf(*r),
            r@ == self.channels_map(),
    {
        &self.channels
    }

    /// Records a client that has just connected at `time`.
    pub fn add_unauth_connection(&mut self, addr: ClientId, time: u64)
        requires
            old(self).wf(),
        ensures
            final(self).wf(),
            final(self).unauth_map() == old(self).unauth_map().insert(addr, UnauthedUser { time }),
            final(self).users_map() == old(self).users_map(),
            final(self).user_ids() == old(self).user_ids(),
            final(self).channels_map() == old(self).channels_map(),
            final(self).conn_map() == old(self).conn_map(),
    {
        self.unauth_connections.insert(addr, UnauthedUser::new(time));
    }

    pub fn remove_unauth_connection(&mut self, addr: ClientId)
        requires
            old(self).wf(),
        ensures
            final(self).wf(),
            final(self).unauth_map() == old(self).unauth_map().remove(addr),
            final(self).users_map() == old(self).users_map(),
            final(self).user_ids() == old(self).user_ids(),
            final(self).channels_map() == old(self).channels_map(),
            final(self).conn_map() == old(self).conn_map(),
    {
        let _ = self.unauth_connections.remove(&addr);
    }

    pub fn get_unauthed_connection(&self, addr: ClientId) -> (r: Option<UnauthedUser>)
        requires
            self.wf(),
        ensures
            r is Some == self.unauth_map().contains_key(addr),
            r matches Some(u) ==> u == self.unauth_map()[addr],
    {
        match self.unauth_connections.get(&addr) {
            Some(u) => Some(*u),
            None => None,
        }
    }

    /// The unidentified clients to disconnect at time `now`: those connected
    /// for longer than the allowed time.
    pub fn disconnect_unauth_users(&self, now: u64) -> (r: Vec<ClientId>)
        requires
            self.wf(),
        ensures
            r@.no_duplicates(),
            r@.to_set() == Set::new(
                |a: ClientId| self.unauth_map().contains_key(a) && timed_out(now, self.unauth_map()[a].time),
            ),
    {
        let ghost m = self.unauth_connections@;
        let mut r: Vec<ClientId> = Vec::new();
        for (a, u) in it: self.unauth_connections.iter()
            invariant
                m == self.unauth_connections@,
                it.seq().no_duplicates(),
                forall|j: int|
                    0 <= j < it.seq().len() ==> m.contains_key(*it.seq()[j].0) && m[*it.seq()[j].0] == *it.seq()[j].1,
                forall|k: ClientId| m.contains_key(k) ==> it.seq().contains((&k, &m[k])),
                forall|x: ClientId|
                    r@.contains(x) <==> exists|j: int|
                        0 <= j < it.index() && *it.seq()[j].0 == x && timed_out(now, it.seq()[j].1.time),
                r@.no_duplicates(),
        {
            let ghost r0 = r@;
            let ghost i0 = it.index();
            assert(it.seq()[i0] == (a, u));
            let t = u.time;
            if now > t && now - t > UNAUTH_TIMEOUT_MS {
                proof {
                    if r0.contains(*a) {
                        let j = choose|j: int|
                            0 <= j < i0 && *it.seq()[j].0 == *a && timed_out(now, it.seq()[j].1.time);
                        assert(it.seq()[j] == it.seq()[i0]);
                    }
                }
                r.push(*a);
            }
            assert forall|x: ClientId|
                r@.contains(x) <==> exists|j: int|
                    0 <= j < i0 + 1 && *it.seq()[j].0 == x && timed_out(now, it.seq()[j].1.time) by {
                if r@.contains(x) && !r0.contains(x) {
                    assert(x == *a);
                }
                if r0.contains(x) {
                    let t = choose|t: int| 0 <= t < r0.len() && r0[t] == x;
                    assert(r@[t] == x);
                }
                if exists|j: int| 0 <= j < i0 + 1 && *it.seq()[j].0 == x && timed_out(now, it.seq()[j].1.time) {
                    let j = choose|j: int|
                        0 <= j < i0 + 1 && *it.seq()[j].0 == x && timed_out(now, it.seq()[j].1.time);
                    if j == i0 {
                        assert(r@[r@.len() - 1] == x);
                    }
                }
            }
        }
        r
    }

    /// The user a client is identified as.
    pub fn get_user(&self, addr: ClientId) -> (r: Option<&User>)
        requires
            self.wf(),
        ensures
            r is Some == (self.conn_map().contains_key(addr) && self.users_map().contains_key(
                self.conn_map()[addr],
            )),
            r matches Some(u) ==> *u == self.users_map()[self.conn_map()[addr]] && u.wf(),
    {
        match self.connections.get(&addr) {
            Some(name) => self.users.get(name),
            None => None,
        }
    }

    /// The user a client is identified as, to change in place. The server
    /// stays well formed when the user does and keeps its username.
    pub fn get_user_mut(&mut self, addr: ClientId) -> (r: Option<&mut User>)
        requires
            old(self).wf(),
        ensures
            r is Some == (old(self).conn_map().contains_key(addr) && old(self).users_map().contains_key(
                old(self).conn_map()[addr],
            )),
            r matches Some(u) ==> *u == old(self).users_map()[old(self).conn_map()[addr]]
                && final(self).users_map() == old(self).users_map().insert(old(self).conn_map()[addr], *final(u))
                && (final(u).wf() && final(u).spec_name() == old(self).conn_map()[addr] ==> final(self).wf()),
            r is None ==> *final(self) == *old(self),
            final(self).user_ids() == old(self).user_ids(),
            final(self).conn_map() == old(self).conn_map(),
            final(self).channels_map() == old(self).channels_map(),
            final(self).unauth_map() == old(self).unauth_map(),
    {
        let name = match self.connections.get(&addr) {
            Some(n) => n.clone(),
            None => {
                return None;
            },
        };
        if self.users.get(&name).is_none() {
            return None;
        }
        self.users.get_mut(&name)
    }

    /// The registered user with this username.
    pub fn user_named(&self, name: &String) -> (r: Option<&User>)
        requires
            self.wf(),
        ensures
            r is Some == self.users_map().contains_key(name@),
            r matches Some(u) ==> *u == self.users_map()[name@] && u.wf() && u.spec_name() == name@,
    {
        self.users.get(name)
    }

    /// The channel with this name.
    pub fn channel_named(&self, name: &String) -> (r: Option<&Channel>)
        requires
            self.wf(),
        ensures
            r is Some == self.channels_map().contains_key(name@),
            r matches Some(c) ==> *c == self.channels_map()[name@] && c.wf() && c.spec_name() == name@,
    {
        self.channels.get(name)
    }

    /// Registers a user (replacing one with the same username).
    pub fn add_user(&mut self, user: User)
        requires
            old(self).wf(),
            user.wf(),
        ensures
            final(self).wf(),
            final(self).users_map() == old(self).users_map().insert(user.spec_name(), user),
            final(self).user_ids() == old(self).user_ids().insert(user.spec_id(), user.spec_name()),
            final(self).channels_map() == old(self).channels_map(),
            final(self).unauth_map() == old(self).unauth_map(),
            final(self).conn_map() == old(self).conn_map(),
    {
        let ghost u = user;
        self.users.insert(user);
        assert forall|n: Seq<char>| #[trigger] self.users@.contains_key(n) implies self.users@[n].wf()
            && self.users@[n].spec_name() == n by {
            if n != u.spec_name() {
                assert(old(self).users@.contains_key(n));
            }
        }
    }

    /// The status update for a registered user: its current information, and
    /// the clients of the other members of every channel it belongs to.
    fn status_update(&self, username: &String) -> (r: StatusUpdate)
        requires
            self.wf(),
            self.users_map().contains_key(username@),
        ensures
            r.user.describes(&self.users_map()[username@]),
            r.recipients@.to_set() == status_recipients(self.users_map(), self.channels_map(), username@),
            status_counts(r.recipients@, self.users_map(), self.channels_map(), username@),
    {
        let user = self.users.get(username).unwrap();
        let ghost uv = *user;
        let ghost users_m = self.users@;
        let ghost chans = self.channels@;
        let ghost ks = self.channels.key_seq();
        let mut r: Vec<ClientId> = Vec::new();
        let n = self.channels.len();
        proof {
            self.channels.lemma_entries();
            assert forall|c: ClientId| r@.to_multiset().count(c) == ks.take(0).filter(
                hears_through(users_m, chans, username@, c),
            ).len() by {
                assert(ks.take(0).filter(hears_through(users_m, chans, username@, c)) =~= Seq::<Seq<char>>::empty());
                broadcast use vstd::multiset::group_multiset_axioms;
                broadcast use vstd::seq_lib::group_to_multiset_ensures;
                assert(r@.len() == 0);
                assert(!r@.contains(c));
            }
        }
        for i in 0..n
            invariant
                n == self.channels.len_spec(),
                self.wf(),
                uv == *user,
                uv == users_m[username@],
                ks == self.channels.key_seq(),
                connections_disjoint(users_m) ==> forall|c: ClientId|
                    #[trigger] r@.to_multiset().count(c) == ks.take(i as int).filter(
                        hears_through(users_m, chans, username@, c),
                    ).len(),
                users_m == self.users@,
                chans == self.channels@,
                forall|c: ClientId|
                    r@.contains(c) <==> exists|j: int|
                        0 <= j < i && (#[trigger] self.channels.val_spec(j)).members().contains(username@)
                            && member_connections(users_m, self.channels.val_spec(j).members(), Some(uv)).contains(c),
        {
            proof {
                self.channels.lemma_entries();
            }
            let ghost r0 = r@;
            let ghost chi = self.channels.val_spec(i as int);
            assert(chans.contains_key(self.channels.key_spec(i as int)));
            assert(chi.wf());
            let ch = self.channels.val_at(i);
            let ghost mut added: Seq<ClientId> = Seq::empty();
            if ch.has_user(username) {
                let mut t = ch.broadcast_filter(&self.users, user);
                proof {
                    added = t@;
                    assert(connections_disjoint(users_m) ==> added.no_duplicates());
                }
                r.append(&mut t);
            }
            assert(r@ =~= r0 + added);
            assert(forall|c: ClientId| added.contains(c) <==> (chi.members().contains(username@)
                && member_connections(users_m, chi.members(), Some(uv)).contains(c))) by {
                assert forall|c: ClientId| added.contains(c) <==> added.to_set().contains(c) by {}
            }
            proof {
                if connections_disjoint(users_m) {
                    let ki = ks[i as int];
                    assert(ki == self.channels.key_spec(i as int));
                    assert(chans.contains_key(ki) && chans[ki] == chi);
                    assert(ks.take(i + 1) =~= ks.take(i as int).push(ki));
                    added.lemma_multiset_has_no_duplicates();
                    assert forall|c: ClientId| #[trigger] r@.to_multiset().count(c) == ks.take(i + 1).filter(
                        hears_through(users_m, chans, username@, c),
                    ).len() by {
                        broadcast use vstd::seq_lib::group_to_multiset_ensures;
                        broadcast use vstd::multiset::group_multiset_axioms;
                        let p = hears_through(users_m, chans, username@, c);
                        ks.take(i as int).lemma_filter_push(ki, p);
                        vstd::seq_lib::lemma_multiset_commutative(r0, added);
                        assert(p(ki) == (chi.members().contains(username@) && member_connections(
                            users_m,
                            chi.members(),
                            Some(uv),
                        ).contains(c)));
                        if added.contains(c) {
                            assert(added.to_multiset().contains(c));
                        } else {
                            assert(added.to_multiset().count(c) == 0);
                        }
                    }
                }
            }
            assert forall|c: ClientId|
                r@.contains(c) <==> exists|j: int|
                    0 <= j < i + 1 && (#[trigger] self.channels.val_spec(j)).members().contains(username@)
                        && member_connections(users_m, self.channels.val_spec(j).members(), Some(uv)).contains(c) by {
                if r@.contains(c) {
                    let t = choose|t: int| 0 <= t < r@.len() && r@[t] == c;
                    if t < r0.len() {
                        assert(r0[t] == c);
                        assert(r0.contains(c));
                    } else {
                        assert(added[t - r0.len()] == c);
                        assert(added.contains(c));
                    }
                }
                if exists|j: int|
                    0 <= j < i + 1 && (#[trigger] self.channels.val_spec(j)).members().contains(username@)
                        && member_connections(users_m, self.channels.val_spec(j).members(), Some(uv)).contains(c) {
                    let j = choose|j: int|
                        0 <= j < i + 1 && (#[trigger] self.channels.val_spec(j)).members().contains(username@)
                            && member_connections(users_m, self.channels.val_spec(j).members(), Some(uv)).contains(c);
                    if j == i {
                        assert(added.contains(c));
                        let t = choose|t: int| 0 <= t < added.len() && added[t] == c;
                        assert(r@[r0.len() + t] == c);
                    } else {
                        assert(r0.contains(c));
                        let t = choose|t: int| 0 <= t < r0.len() && r0[t] == c;
                        assert(r@[t] == c);
                    }
                }
            }
        }
        proof {
            self.channels.lemma_entries();
            let target = status_recipients(users_m, chans, username@);
            assert forall|c: ClientId| r@.to_set().contains(c) == target.contains(c) by {
                if r@.contains(c) {
                    let j = choose|j: int|
                        0 <= j < n && (#[trigger] self.channels.val_spec(j)).members().contains(username@)
                            && member_connections(users_m, self.channels.val_spec(j).members(), Some(uv)).contains(c);
                    let k = self.channels.key_spec(j);
                    assert(0 <= j < self.channels.len_spec());
                    assert(self.channels.as_map().contains_key(self.channels.key_spec(j)));
                    assert(chans.contains_key(k) && chans[k] == self.channels.val_spec(j));
                }
                if target.contains(c) {
                    let k = choose|k: Seq<char>|
                        #![trigger chans[k]]
                        chans.contains_key(k) && chans[k].members().contains(username@)
                            && member_connections(users_m, chans[k].members(), Some(users_m[username@])).contains(c);
                    let j = choose|j: int| 0 <= j < n && #[trigger] self.channels.key_spec(j) == k;
                    assert(chans[k] == self.channels.val_spec(j));
                }
            }
            assert(r@.to_set() =~= target);
        }
        proof {
            if connections_disjoint(users_m) {
                self.channels.lemma_entries();
                assert(ks.take(n as int) =~= ks);
                assert(ks.no_duplicates());
                assert forall|c: ClientId|
                    #[trigger] r@.to_multiset().count(c) == status_channels(users_m, chans, username@, c).len() by {
                    broadcast use vstd::seq_lib::group_filter_ensures;
                    let p = hears_through(users_m, chans, username@, c);
                    let f = ks.filter(p);
                    crate::user::lemma_filter_no_duplicates(ks, p);
                    f.unique_seq_to_set();
                    assert forall|x: Seq<char>| f.to_set().contains(x) == status_channels(users_m, chans, username@, c).contains(x) by {
                        if f.to_set().contains(x) {
                            ks.lemma_filter_contains_rev(p, x);
                        }
                        if status_channels(users_m, chans, username@, c).contains(x) {
                            assert(ks.to_set().contains(x));
                            let j = choose|j: int| 0 <= j < ks.len() && ks[j] == x;
                            assert(f.contains(x));
                        }
                    }
                    assert(f.to_set() =~= status_channels(users_m, chans, username@, c));
                }
            }
        }
        StatusUpdate { user: user.info(), recipients: r }
    }

    /// Marks a client as identified as `username`. When that user is
    /// registered, the client is added to its connections, and if the user
    /// was not online before, the resulting status update is returned.
    pub fn add_connection(&mut self, addr: ClientId, username: String) -> (r: Option<StatusUpdate>)
        requires
            old(self).wf(),
        ensures
            final(self).wf(),
            connected(*old(self), *final(self), addr, username@, r),
    {
        let ghost old_users = self.users@;
        let mut status_changed = false;
        match self.users.get_mut(&username) {
            Some(u) => {
                status_changed = u.add_connection(addr);
            },
            None => {},
        }
        proof {
            assert forall|n: Seq<char>| #[trigger] self.users@.contains_key(n) implies self.users@[n].wf()
                && self.users@[n].spec_name() == n by {
                if n != username@ {
                    assert(old_users.contains_key(n));
                }
            }
            assert(self.users@.dom() =~= old_users.dom());
        }
        let update = if status_changed {
            Some(self.status_update(&username))
        } else {
            None
        };
        let ghost before_conn = self.connections@;
        self.connections.insert(addr, username);
        proof {
            assert(self.conn_map() =~= old(self).conn_map().insert(addr, username@));
        }
        update
    }

    /// The channels among `names` that exist, to be marked as read for
    /// `user` and announced to its clients as having no viewer.
    pub fn send_no_viewer_notifications(&self, names: &Vec<String>, user: &User) -> (r: NoViewerPlan)
        requires
            self.wf(),
            user.wf(),
        ensures
            no_viewer_plan_for(r, self.channels_map(), key_views(names@).to_set(), *user),
            ref_views(r.channels@) == known_channels(self.channels_map(), key_views(names@)),
            key_views(names@).no_duplicates() ==> plan_names_distinct(r),
    {
        let ghost ns = key_views(names@);
        let ghost chans = self.channels@;
        let mut found: Vec<ChannelRef> = Vec::new();
        let ghost mut idx: Seq<int> = Seq::empty();
        let ghost mut slot: Seq<int> = Seq::empty();
        let n = names.len();
        for i in 0..n
            invariant
                n == names@.len(),
                ns == key_views(names@),
                chans == self.channels@,
                self.wf(),
                idx.len() == found@.len(),
                slot.len() == i,
                forall|t: int|
                    0 <= t < found@.len() ==> 0 <= #[trigger] idx[t] < i && found@[t].name@ == ns[idx[t]]
                        && chans.contains_key(ns[idx[t]]) && found@[t].id == chans[ns[idx[t]]].spec_id(),
                forall|j: int|
                    0 <= j < i && #[trigger] chans.contains_key(ns[j]) ==> 0 <= slot[j] < found@.len()
                        && idx[slot[j]] == j,
                forall|t1: int, t2: int| 0 <= t1 < t2 < idx.len() ==> #[trigger] idx[t1] < #[trigger] idx[t2],
                ref_views(found@) == known_channels(chans, ns.take(i as int)),
        {
            let ghost f0 = found@;
            assert(names@[i as int]@ == ns[i as int]);
            proof {
                assert(ns.take(i + 1).drop_last() =~= ns.take(i as int));
                assert(ns.take(i + 1).last() == ns[i as int]);
            }
            match self.channels.get(&names[i]) {
                Some(c) => {
                    found.push(ChannelRef { name: c.name().clone(), id: c.id() });
                    proof {
                        assert(chans[ns[i as int]].spec_name() == ns[i as int]);
                        idx = idx.push(i as int);
                        slot = slot.push(f0.len() as int);
                        assert forall|t: int| 0 <= t < f0.len() implies found@[t] == f0[t] by {}
                        assert(ref_views(found@) =~= ref_views(f0).push((ns[i as int], chans[ns[i as int]].spec_id())));
                    }
                },
                None => {
                    proof {
                        slot = slot.push(-1);
                    }
                },
            }
        }
        let recipients = user.connection_ids();
        let r = NoViewerPlan { user_id: user.id(), channels: found, recipients };
        proof {
            assert(ns.take(n as int) =~= ns);
            let names_set = ns.to_set();
            assert forall|t: int|
                0 <= t < r.channels@.len() implies names_set.contains((#[trigger] r.channels@[t]).name@)
                && chans.contains_key(r.channels@[t].name@) && r.channels@[t].id
                == chans[r.channels@[t].name@].spec_id() by {
                assert(ns.contains(ns[idx[t]]));
            }
            assert forall|nm: Seq<char>| names_set.contains(nm) && #[trigger] chans.contains_key(nm) implies exists|t: int|
                0 <= t < r.channels@.len() && (#[trigger] r.channels@[t]).name@ == nm by {
                let j = choose|j: int| 0 <= j < ns.len() && ns[j] == nm;
                assert(chans.contains_key(ns[j]));
                let t = slot[j];
                assert(r.channels@[t].name@ == nm);
            }
            if ns.no_duplicates() {
                assert forall|t1: int, t2: int|
                    0 <= t1 < r.channels@.len() && 0 <= t2 < r.channels@.len() && t1 != t2 implies (#[trigger] r.channels@[t1]).name@
                        != (#[trigger] r.channels@[t2]).name@ by {
                    assert(idx[t1] != idx[t2]);
                }
            }
        }
        r
    }

    /// Forgets an identified client. When its user is registered, the
    /// client leaves the user's connections and stops viewing, channel
    /// entries without viewers are dropped, and the result says whom to tell.
    pub fn remove_connection(&mut self, addr: ClientId) -> (r: Option<Departure>)
        requires
            old(self).wf(),
        ensures
            final(self).wf(),
            disconnected(*old(self), *final(self), addr, r),
    {
        let username = match self.connections.get(&addr) {
            Some(name) => name.clone(),
            None => {
                assert(self.conn_map() =~= old(self).conn_map().remove(addr));
                return None;
            },
        };
        assert(self.conn_map().contains_key(addr) && self.conn_map()[addr] == username@);
        let ghost old_users = self.users@;
        let ghost mut u0 = old_users[username@];
        let ghost mut u1 = old_users[username@];
        let ghost mut mid = u0.viewing();
        let changes = match self.users.get_mut(&username) {
            Some(u) => {
                proof {
                    u0 = *u;
                }
                let status_changed = u.remove_connection(addr);
                u.clear_viewing(addr);
                proof {
                    mid = u.viewing();
                }
                let no_viewers = u.get_and_clear_no_viewers();
                proof {
                    u1 = *u;
                }
                Some((status_changed, no_viewers))
            },
            None => None,
        };
        proof {
            assert forall|m: Seq<char>| #[trigger] self.users@.contains_key(m) implies self.users@[m].wf()
                && self.users@[m].spec_name() == m by {
                if m != username@ {
                    assert(old_users.contains_key(m));
                }
            }
            assert(self.users@.dom() =~= old_users.dom());
        }
        let result = match changes {
            Some((status_changed, no_viewers)) => {
                proof {
                    assert(self.users@ == old_users.insert(username@, u1));
                    assert(mid == without_viewer(u0.viewing(), addr));
                }
                let status = if status_changed {
                    Some(self.status_update(&username))
                } else {
                    None
                };
                let user = self.users.get(&username).unwrap();
                let plan = self.send_no_viewer_notifications(&no_viewers, user);
                Departure { status, no_viewers: Some(plan) }
            },
            None => Departure { status: None, no_viewers: None },
        };
        let _ = self.connections.remove(&addr);
        proof {
            assert(self.conn_map() =~= old(self).conn_map().remove(addr));
        }
        Some(result)
    }

    /// The channel with id `info.channel_id` (the first one found, should
    /// ids repeat) and the clients of its registered members.
    pub fn add_attachment_to_message(&self, info: &AttachmentInfo) -> (r: Option<AttachmentNotice>)
        requires
            self.wf(),
        ensures
            r is Some <==> exists|k: Seq<char>|
                #![trigger self.channels_map()[k]]
                self.channels_map().contains_key(k) && self.channels_map()[k].spec_id() == info.channel_id,
            r matches Some(a) ==> self.channels_map().contains_key(a.channel@) && self.channels_map()[a.channel@].spec_id()
                == info.channel_id && a.recipients@.to_set() == member_connections(
                self.users_map(),
                self.channels_map()[a.channel@].members(),
                None,
            ) && (connections_disjoint(self.users_map()) ==> a.recipients@.no_duplicates()),
    {
        let n = self.channels.len();
        proof {
            self.channels.lemma_entries();
        }
        for i in 0..n
            invariant
                n == self.channels.len_spec(),
                self.wf(),
                forall|j: int| 0 <= j < i ==> (#[trigger] self.channels.val_spec(j)).spec_id() != info.channel_id,
        {
            proof {
                self.channels.lemma_entries();
            }
            let ghost k = self.channels.key_spec(i as int);
            assert(self.channels.as_map().contains_key(self.channels.key_spec(i as int)));
            assert(self.channels@.contains_key(k) && self.channels@[k] == self.channels.val_spec(i as int));
            let c = self.channels.val_at(i);
            if c.id() == info.channel_id {
                assert(self.channels_map().contains_key(k) && self.channels_map()[k].spec_id() == info.channel_id);
                let recipients = c.broadcast(&self.users);
                return Some(AttachmentNotice { channel: c.name().clone(), recipients });
            }
        }
        proof {
            self.channels.lemma_entries();
            if exists|k: Seq<char>|
                #![trigger self.channels_map()[k]]
                self.channels_map().contains_key(k) && self.channels_map()[k].spec_id() == info.channel_id {
                let k = choose|k: Seq<char>|
                    #![trigger self.channels_map()[k]]
                    self.channels_map().contains_key(k) && self.channels_map()[k].spec_id() == info.channel_id;
                let j = choose|j: int| 0 <= j < n && #[trigger] self.channels.key_spec(j) == k;
                assert(self.channels.val_spec(j).spec_id() != info.channel_id);
            }
        }
        None
    }

    /// Creates a channel with no members.
    pub fn create_channel(&mut self, name: &String, id: i64)
        requires
            old(self).wf(),
        ensures
            final(self).wf(),
            final(self).channels_map().dom() == old(self).channels_map().dom().insert(name@),
            final(self).channels_map()[name@].spec_id() == id,
            final(self).channels_map()[name@].members() == Set::<Seq<char>>::empty(),
            forall|k: Seq<char>| #[trigger] old(self).channels_map().contains_key(k) && k != name@ ==> final(self).channels_map()[k] == old(self).channels_map()[k],
            final(self).users_map() == old(self).users_map(),
            final(self).user_ids() == old(self).user_ids(),
            final(self).unauth_map() == old(self).unauth_map(),
            final(self).conn_map() == old(self).conn_map(),
    {
        let c = Channel::new(id, name.as_str());
        self.channels.insert(name.clone(), c);
        assert forall|k: Seq<char>| #[trigger] self.channels@.contains_key(k) implies self.channels@[k].wf()
            && self.channels@[k].spec_name() == k by {
            if k != name@ {
                assert(old(self).channels@.contains_key(k));
            }
        }
        assert(self.channels_map().dom() =~= old(self).channels_map().dom().insert(name@));
    }

    /// Makes the registered user `username` a member of channel `channel`.
    pub fn add_channel_member(&mut self, channel: &String, username: &String)
        requires
            old(self).wf(),
            old(self).channels_map().contains_key(channel@),
            old(self).users_map().contains_key(username@),
        ensures
            final(self).wf(),
            final(self).channels_map().dom() == old(self).channels_map().dom(),
            final(self).channels_map()[channel@].members() == old(self).channels_map()[channel@].members().insert(
                username@,
            ),
            final(self).channels_map()[channel@].spec_id() == old(self).channels_map()[channel@].spec_id(),
            forall|k: Seq<char>| #[trigger] old(self).channels_map().contains_key(k) && k != channel@ ==> final(self).channels_map()[k] == old(self).channels_map()[k],
            final(self).users_map() == old(self).users_map(),
            final(self).user_ids() == old(self).user_ids(),
            final(self).unauth_map() == old(self).unauth_map(),
            final(self).conn_map() == old(self).conn_map(),
    {
        let i = self.channels.find(channel).unwrap();
        let ghost old_chans = self.channels@;
        let (k, mut c) = self.channels.remove_at(i);
        let user = self.users.get(username).unwrap();
        c.add_user(user);
        self.channels.insert(k, c);
        assert forall|kk: Seq<char>| #[trigger] self.channels@.contains_key(kk) implies self.channels@[kk].wf()
            && self.channels@[kk].spec_name() == kk by {
            if kk != channel@ {
                assert(old_chans.contains_key(kk));
            }
        }
        assert(self.channels_map().dom() =~= old(self).channels_map().dom());
    }

    /// Client `addr` starts viewing `channel` (and nothing else); its user's
    /// channel entries without viewers are then dropped. Returns the user's
    /// id and the names of the dropped entries, or `None` when the client is
    /// not identified as a registered user.
    pub fn view_channel(&mut self, addr: ClientId, channel: &str) -> (r: Option<(i64, Vec<String>)>)
        requires
            old(self).wf(),
        ensures
            final(self).wf(),
            r is Some == (old(self).conn_map().contains_key(addr) && old(self).users_map().contains_key(
                old(self).conn_map()[addr],
            )),
            final(self).conn_map() == old(self).conn_map(),
            final(self).channels_map() == old(self).channels_map(),
            final(self).unauth_map() == old(self).unauth_map(),
            final(self).users_map().dom() == old(self).users_map().dom(),
            final(self).user_ids() == old(self).user_ids(),
            r is None ==> *final(self) == *old(self),
            r matches Some(res) ==> {
                let n = old(self).conn_map()[addr];
                let u0 = old(self).users_map()[n];
                let u1 = final(self).users_map()[n];
                let mid = start_viewing(u0.viewing(), channel@, addr);
                &&& res.0 == u0.spec_id()
                &&& key_views(res.1@).no_duplicates()
                &&& key_views(res.1@).to_set() == unviewed_channels(mid)
                &&& u1.viewing() == only_viewed(mid)
                &&& u1.connections() == u0.connections()
                &&& u1.spec_status() == u0.spec_status()
                &&& u1.spec_id() == u0.spec_id()
                &&& u1.spec_name() == u0.spec_name()
                &&& u1.spec_nickname() == u0.spec_nickname()
                &&& forall|m: Seq<char>| #[trigger] old(self).users_map().contains_key(m) && m != n ==> final(self).users_map()[m] == old(self).users_map()[m]
            },
    {
        let name = match self.connections.get(&addr) {
            Some(n) => n.clone(),
            None => {
                return None;
            },
        };
        if self.users.get(&name).is_none() {
            return None;
        }
        let ghost old_users = self.users@;
        let r = match self.users.get_mut(&name) {
            Some(u) => {
                u.set_viewing(channel, addr, true);
                let names = u.get_and_clear_no_viewers();
                Some((u.id(), names))
            },
            None => None,
        };
        proof {
            assert forall|m: Seq<char>| #[trigger] self.users@.contains_key(m) implies self.users@[m].wf()
                && self.users@[m].spec_name() == m by {
                if m != name@ {
                    assert(old_users.contains_key(m));
                }
            }
            assert(self.users_map().dom() =~= old(self).users_map().dom());
        }
        r
    }

    /// Client `addr` stops viewing any channel; its user's channel entries
    /// without viewers are then dropped. Returns the user and the names of
    /// the dropped entries, or `None` when the client is not identified as
    /// a registered user.
    pub fn stop_viewing(&mut self, addr: ClientId) -> (r: Option<Vec<String>>)
        requires
            old(self).wf(),
        ensures
            final(self).wf(),
            r is Some == (old(self).conn_map().contains_key(addr) && old(self).users_map().contains_key(
                old(self).conn_map()[addr],
            )),
            final(self).conn_map() == old(self).conn_map(),
            final(self).channels_map() == old(self).channels_map(),
            final(self).unauth_map() == old(self).unauth_map(),
            final(self).users_map().dom() == old(self).users_map().dom(),
            final(self).user_ids() == old(self).user_ids(),
            r is None ==> *final(self) == *old(self),
            r matches Some(names) ==> {
                let n = old(self).conn_map()[addr];
                let u0 = old(self).users_map()[n];
                let u1 = final(self).users_map()[n];
                let mid = without_viewer(u0.viewing(), addr);
                &&& key_views(names@).no_duplicates()
                &&& key_views(names@).to_set() == unviewed_channels(mid)
                &&& u1.viewing() == only_viewed(mid)
                &&& u1.connections() == u0.connections()
                &&& u1.spec_status() == u0.spec_status()
                &&& u1.spec_id() == u0.spec_id()
                &&& u1.spec_name() == u0.spec_name()
                &&& u1.spec_nickname() == u0.spec_nickname()
                &&& forall|m: Seq<char>| #[trigger] old(self).users_map().contains_key(m) && m != n ==> final(self).users_map()[m] == old(self).users_map()[m]
            },
    {
        let name = match self.connections.get(&addr) {
            Some(n) => n.clone(),
            None => {
                return None;
            },
        };
        if self.users.get(&name).is_none() {
            return None;
        }
        let ghost old_users = self.users@;
        let r = match self.users.get_mut(&name) {
            Some(u) => {
                u.clear_viewing(addr);
                Some(u.get_and_clear_no_viewers())
            },
            None => None,
        };
        proof {
            assert forall|m: Seq<char>| #[trigger] self.users@.contains_key(m) implies self.users@[m].wf()
                && self.users@[m].spec_name() == m by {
                if m != name@ {
                    assert(old_users.contains_key(m));
                }
            }
            assert(self.users_map().dom() =~= old(self).users_map().dom());
        }
        r
    }
}

} // verus!
