//! A registered user: its open connections, its online status, and which
//! channel each of its connections is viewing.

use vstd::prelude::*;
use crate::collections::{key_views, KeyMap};
use crate::laws::{views, law_viewing_change_touches_no_other_client};

verus! {

broadcast use vstd::std_specs::hash::group_hash_axioms;

/// A connected client, as the server numbers it.
pub type ClientId = u64;

#[derive(Clone, Copy, PartialEq, Eq, Structural, Debug)]
pub enum OnlineStatus {
    Online,
    Away,
    Offline,
}

/// What the server tells clients about a user.
#[derive(Debug)]
pub struct UserInfo {
    pub id: i64,
    pub username: String,
    pub nickname: String,
    pub status: OnlineStatus,
}

impl UserInfo {
    pub open spec fn describes(&self, u: &User) -> bool {
        &&& self.id == u.spec_id()
        &&& self.username@ == u.spec_name()
        &&& self.nickname@ == u.spec_nickname()
        &&& self.status == u.spec_status()
    }
}

/// Two users are equal when their id, names and status are.
pub open spec fn same_user(a: &User, b: &User) -> bool {
    &&& a.spec_id() == b.spec_id()
    &&& a.spec_name() == b.spec_name()
    &&& a.spec_nickname() == b.spec_nickname()
    &&& a.spec_status() == b.spec_status()
}

/// No client views two channels at once.
pub open spec fn views_disjoint(m: Map<Seq<char>, Set<ClientId>>) -> bool {
    forall|k1: Seq<char>, k2: Seq<char>, a: ClientId|
        m.contains_key(k1) && m.contains_key(k2) && k1 != k2 && #[trigger] m[k1].contains(a)
            ==> !#[trigger] m[k2].contains(a)
}

/// The viewing map with `a` taken out of every channel's viewers.
pub open spec fn without_viewer(m: Map<Seq<char>, Set<ClientId>>, a: ClientId) -> Map<
    Seq<char>,
    Set<ClientId>,
> {
    Map::new(|k: Seq<char>| m.contains_key(k), |k: Seq<char>| m[k].remove(a))
}

/// The viewers of `ch`, or none when `ch` has no entry.
pub open spec fn viewers_or_empty(m: Map<Seq<char>, Set<ClientId>>, ch: Seq<char>) -> Set<ClientId> {
    if m.contains_key(ch) {
        m[ch]
    } else {
        Set::empty()
    }
}

/// The channels that have an entry but no viewer.
pub open spec fn unviewed_channels(m: Map<Seq<char>, Set<ClientId>>) -> Set<Seq<char>> {
    Set::new(|k: Seq<char>| m.contains_key(k) && m[k] == Set::<ClientId>::empty())
}

/// The entries that still have a viewer.
pub open spec fn only_viewed(m: Map<Seq<char>, Set<ClientId>>) -> Map<Seq<char>, Set<ClientId>> {
    Map::new(
        |k: Seq<char>| m.contains_key(k) && m[k] != Set::<ClientId>::empty(),
        |k: Seq<char>| m[k],
    )
}

/// The viewing map after `a` starts viewing `ch` (and stops viewing anything else).
pub open spec fn start_viewing(m: Map<Seq<char>, Set<ClientId>>, ch: Seq<char>, a: ClientId) -> Map<
    Seq<char>,
    Set<ClientId>,
> {
    without_viewer(m, a).insert(ch, viewers_or_empty(m, ch).insert(a))
}

/// The viewing map after `a` stops viewing `ch`.
pub open spec fn stop_viewing(m: Map<Seq<char>, Set<ClientId>>, ch: Seq<char>, a: ClientId) -> Map<
    Seq<char>,
    Set<ClientId>,
> {
    if m.contains_key(ch) {
        m.insert(ch, m[ch].remove(a))
    } else {
        m
    }
}

/// The map without the keys listed in `s`.
pub open spec fn drop_keys(m: Map<Seq<char>, Set<ClientId>>, s: Seq<Seq<char>>) -> Map<
    Seq<char>,
    Set<ClientId>,
> {
    Map::new(|k: Seq<char>| m.contains_key(k) && !s.contains(k), |k: Seq<char>| m[k])
}

/// Filtering a sequence without duplicates leaves no duplicates.
pub proof fn lemma_filter_no_duplicates<A>(s: Seq<A>, pred: spec_fn(A) -> bool)
    requires
        s.no_duplicates(),
    ensures
        s.filter(pred).no_duplicates(),
    decreases s.len(),
{
    if s.len() > 0 {
        let init = s.drop_last();
        assert(s =~= init.push(s.last()));
        assert(init.no_duplicates());
        lemma_filter_no_duplicates(init, pred);
        init.lemma_filter_push(s.last(), pred);
        if pred(s.last()) {
            broadcast use vstd::seq_lib::group_filter_ensures;
            assert(!init.contains(s.last()));
            assert(!init.filter(pred).contains(s.last())) by {
                if init.filter(pred).contains(s.last()) {
                    init.lemma_filter_contains_rev(pred, s.last());
                }
            }
        }
    }
}

pub struct User {
    id: i64,
    username: String,
    nickname: String,
    connections: std::collections::HashSet<ClientId>,
    active_channels: KeyMap<String, std::collections::HashSet<ClientId>>,
    status: OnlineStatus,
}

/// A client that has connected but not yet identified itself; `time` is
/// when it connected, in milliseconds on the server's clock.
#[derive(Clone, Copy, Debug)]
pub struct UnauthedUser {
    pub time: u64,
}

impl UnauthedUser {
    pub fn new(time: u64) -> (r: Self)
        ensures
            r.time == time,
    {
        UnauthedUser { time }
    }
}

impl User {
    /// The clients connected as this user.
    pub closed spec fn connections(&self) -> Set<ClientId> {
        self.connections@
    }

    /// For each channel with an entry, the clients viewing it.
    pub closed spec fn viewing(&self) -> Map<Seq<char>, Set<ClientId>> {
        Map::new(
            |k: Seq<char>| self.active_channels@.contains_key(k),
            |k: Seq<char>| self.active_channels@[k]@,
        )
    }

    pub closed spec fn spec_status(&self) -> OnlineStatus {
        self.status
    }

    pub closed spec fn spec_id(&self) -> i64 {
        self.id
    }

    pub closed spec fn spec_name(&self) -> Seq<char> {
        self.username@
    }

    pub closed spec fn spec_nickname(&self) -> Seq<char> {
        self.nickname@
    }

    pub closed spec fn wf(&self) -> bool {
        &&& self.active_channels.wf()
        &&& views_disjoint(self.viewing())
        &&& (self.status == OnlineStatus::Online) == (self.connections@ != Set::<ClientId>::empty())
        &&& self.status != OnlineStatus::Away
    }

    /// A user is online exactly while it has a connection, and never away.
    pub proof fn lemma_online_iff_connected(&self)
        requires
            self.wf(),
        ensures
            (self.spec_status() == OnlineStatus::Online) == (self.connections() != Set::<
                ClientId,
            >::empty()),
            (self.spec_status() == OnlineStatus::Offline) == (self.connections() == Set::<
                ClientId,
            >::empty()),
            views_disjoint(self.viewing()),
    {
    }

    pub fn new(id: i64, username: &str, nickname: &str) -> (u: Self)
        ensures
            u.wf(),
            u.spec_id() == id,
            u.spec_name() == username@,
            u.spec_nickname() == nickname@,
            u.connections() == Set::<ClientId>::empty(),
            u.viewing() == Map::<Seq<char>, Set<ClientId>>::empty(),
            u.spec_status() == OnlineStatus::Offline,
    {
        let u = User {
            id,
            username: username.to_owned(),
            nickname: nickname.to_owned(),
            connections: std::collections::HashSet::new(),
            active_channels: KeyMap::new(),
            status: OnlineStatus::Offline,
        };
        assert(u.viewing() =~= Map::<Seq<char>, Set<ClientId>>::empty());
        u
    }

    /// Adds a connection; returns whether the online status changed.
    pub fn add_connection(&mut self, addr: ClientId) -> (changed: bool)
        requires
            old(self).wf(),
        ensures
            final(self).wf(),
            changed == (old(self).spec_status() != OnlineStatus::Online),
            final(self).connections() == old(self).connections().insert(addr),
            final(self).spec_status() == OnlineStatus::Online,
            final(self).viewing() == old(self).viewing(),
            final(self).spec_id() == old(self).spec_id(),
            final(self).spec_name() == old(self).spec_name(),
            final(self).spec_nickname() == old(self).spec_nickname(),
    {
        let status_changed = self.status != OnlineStatus::Online;
        self.connections.insert(addr);
        if status_changed {
            self.status = OnlineStatus::Online;
        }
        assert(self.connections@.contains(addr));
        status_changed
    }

    /// Removes a connection; returns whether the online status changed,
    /// that is, whether the user went offline now.
    pub fn remove_connection(&mut self, addr: ClientId) -> (changed: bool)
        requires
            old(self).wf(),
        ensures
            final(self).wf(),
            final(self).connections() == old(self).connections().remove(addr),
            changed == (old(self).spec_status() != OnlineStatus::Offline && final(self).connections() == Set::<
                ClientId,
            >::empty()),
            final(self).spec_status() == (if final(self).connections() == Set::<ClientId>::empty() {
                OnlineStatus::Offline
            } else {
                old(self).spec_status()
            }),
            final(self).viewing() == old(self).viewing(),
            final(self).spec_id() == old(self).spec_id(),
            final(self).spec_name() == old(self).spec_name(),
            final(self).spec_nickname() == old(self).spec_nickname(),
    {
        let was_offline = self.status == OnlineStatus::Offline;
        self.connections.remove(&addr);
        let going_offline = self.connections.is_empty();
        if going_offline {
            self.status = OnlineStatus::Offline;
        } else {
            assert(self.connections@.subset_of(old(self).connections@));
            assert(old(self).connections@ != Set::<ClientId>::empty()) by {
                let x = choose|x: ClientId| self.connections@.contains(x);
                if old(self).connections@ == Set::<ClientId>::empty() {
                    assert(!old(self).connections@.contains(x));
                }
                assert(self.connections@ != Set::<ClientId>::empty());
                assert(exists|x: ClientId| self.connections@.contains(x)) by {
                    if forall|x: ClientId| !self.connections@.contains(x) {
                        assert(self.connections@ =~= Set::<ClientId>::empty());
                    }
                }
            }
        }
        assert(self.viewing() =~= old(self).viewing());
        going_offline && !was_offline
    }

    pub fn id(&self) -> (r: i64)
        ensures
            r == self.spec_id(),
    {
        self.id
    }

    pub fn username(&self) -> (r: &String)
        ensures
            r@ == self.spec_name(),
    {
        &self.username
    }

    pub fn nickname(&self) -> (r: &String)
        ensures
            r@ == self.spec_nickname(),
    {
        &self.nickname
    }

    pub fn status(&self) -> (s: OnlineStatus)
        ensures
            s == self.spec_status(),
    {
        self.status
    }

    pub fn has_connection(&self, addr: ClientId) -> (r: bool)
        requires
            self.wf(),
        ensures
            r == self.connections().contains(addr),
    {
        self.connections.contains(&addr)
    }

    /// The clients connected as this user, each once.
    pub fn connection_ids(&self) -> (r: Vec<ClientId>)
        requires
            self.wf(),
        ensures
            r@.no_duplicates(),
            r@.to_set() == self.connections(),
    {
        let ghost cs = self.connections@;
        let mut r: Vec<ClientId> = Vec::new();
        for a in it: self.connections.iter()
            invariant
                cs == self.connections@,
                it.seq().no_duplicates(),
                it.seq().unref().to_set() == cs,
                r@ == it.seq().take(it.index()).unref(),
                forall|x: ClientId| cs.contains(x) ==> exists|j: int| 0 <= j < it.seq().len() && *it.seq()[j] == x,
                forall|x: ClientId|
                    r@.contains(x) <==> exists|j: int| 0 <= j < it.index() && *it.seq()[j] == x,
                forall|x: ClientId| r@.contains(x) ==> cs.contains(x),
        {
            let ghost i0 = it.index();
            assert(it.seq()[i0] == a);
            assert(it.seq().unref()[i0 as int] == *a);
            assert(it.seq().unref().to_set().contains(*a));
            r.push(*a);
            assert(it.seq().take(i0 + 1) =~= it.seq().take(i0).push(a));
            assert(r@ =~= it.seq().take(i0 + 1).unref());
            assert forall|x: ClientId| r@.contains(x) <==> exists|j: int| 0 <= j < i0 + 1 && *it.seq()[j] == x by {
                if r@.contains(x) {
                    let t = choose|t: int| 0 <= t < r@.len() && r@[t] == x;
                    assert(*it.seq()[t] == x);
                }
                if exists|j: int| 0 <= j < i0 + 1 && *it.seq()[j] == x {
                    let j = choose|j: int| 0 <= j < i0 + 1 && *it.seq()[j] == x;
                    assert(r@[j] == x);
                }
            }
        }
        assert(r@.to_set() =~= cs);
        r
    }

    /// What clients are told about this user.
    pub fn info(&self) -> (r: UserInfo)
        ensures
            r.describes(self),
    {
        UserInfo {
            id: self.id,
            username: self.username.clone(),
            nickname: self.nickname.clone(),
            status: self.status,
        }
    }

    /// Position of the channel entry that `addr` is viewing, if any.
    fn find_viewed(&self, addr: ClientId) -> (r: Option<usize>)
        requires
            self.wf(),
        ensures
            r matches Some(i) ==> i < self.active_channels.len_spec() && self.active_channels.val_spec(
                i as int,
            )@.contains(addr) && self.viewing().contains_key(self.active_channels.key_spec(i as int))
                && self.viewing()[self.active_channels.key_spec(i as int)] == self.active_channels.val_spec(
                i as int,
            )@,
            r is None ==> forall|k: Seq<char>| #[trigger]
                self.viewing().contains_key(k) ==> !self.viewing()[k].contains(addr),
    {
        proof {
            self.active_channels.lemma_entries();
        }
        let n = self.active_channels.len();
        for i in 0..n
            invariant
                n == self.active_channels.len_spec(),
                self.wf(),
                forall|j: int| 0 <= j < i ==> !(#[trigger] self.active_channels.val_spec(j))@.contains(addr),
        {
            proof {
                self.active_channels.lemma_entries();
                assert(self.active_channels@.contains_key(self.active_channels.key_spec(i as int)));
            }
            if self.active_channels.val_at(i).contains(&addr) {
                return Some(i);
            }
        }
        proof {
            self.active_channels.lemma_entries();
            assert forall|k: Seq<char>| #[trigger] self.viewing().contains_key(k) implies !self.viewing()[k].contains(
                addr,
            ) by {
                let j = choose|j: int| 0 <= j < self.active_channels.len_spec() && #[trigger] self.active_channels.key_spec(j) == k;
                assert(!self.active_channels.val_spec(j)@.contains(addr));
            }
        }
        None
    }

    /// Stops `addr` viewing whatever channel it views.
    pub fn clear_viewing(&mut self, addr: ClientId)
        requires
            old(self).wf(),
        ensures
            final(self).wf(),
            final(self).viewing() == without_viewer(old(self).viewing(), addr),
            forall|k: Seq<char>, x: ClientId|
                x != addr ==> (#[trigger] views(final(self).viewing(), k, x) <==> views(old(self).viewing(), k, x)),
            forall|k: Seq<char>| !#[trigger] views(final(self).viewing(), k, addr),
            final(self).connections() == old(self).connections(),
            final(self).spec_status() == old(self).spec_status(),
            final(self).spec_id() == old(self).spec_id(),
            final(self).spec_name() == old(self).spec_name(),
            final(self).spec_nickname() == old(self).spec_nickname(),
    {
        let ghost m = self.viewing();
        proof {
            self.active_channels.lemma_entries();
            law_viewing_change_touches_no_other_client(m, Seq::empty(), addr);
        }
        match self.find_viewed(addr) {
            Some(i) => {
                assert(self.active_channels@.contains_key(self.active_channels.key_spec(i as int)));
                let (k, mut v) = self.active_channels.remove_at(i);
                let ghost kk = k@;
                v.remove(&addr);
                self.active_channels.insert(k, v);
                proof {
                    let m2 = self.viewing();
                    let w = without_viewer(m, addr);
                    assert forall|k2: Seq<char>| m2.contains_key(k2) == w.contains_key(k2) by {}
                    assert forall|k2: Seq<char>| #[trigger] m2.contains_key(k2) implies m2[k2] == w[k2] by {
                        if k2 != kk {
                            assert(!m[k2].contains(addr));
                            assert(m[k2].remove(addr) =~= m[k2]);
                        }
                    }
                    assert(m2 =~= w);
                    assert forall|k1: Seq<char>, k2: Seq<char>, a: ClientId|
                        m2.contains_key(k1) && m2.contains_key(k2) && k1 != k2 && #[trigger] m2[k1].contains(a)
                        implies !#[trigger] m2[k2].contains(a) by {
                        assert(m[k1].contains(a));
                    }
                }
            },
            None => {
                proof {
                    assert forall|k2: Seq<char>| #[trigger] m.contains_key(k2) implies m[k2].remove(addr) == m[k2] by {
                        assert(m[k2].remove(addr) =~= m[k2]);
                    }
                    assert(without_viewer(m, addr) =~= m);
                }
            },
        }
    }

    /// Updates which channel `addr` views: with `is_viewing`, `addr` views
    /// `channel` and nothing else; without it, `addr` stops viewing `channel`.
    pub fn set_viewing(&mut self, channel: &str, addr: ClientId, is_viewing: bool)
        requires
            old(self).wf(),
        ensures
            final(self).wf(),
            final(self).viewing() == (if is_viewing {
                start_viewing(old(self).viewing(), channel@, addr)
            } else {
                stop_viewing(old(self).viewing(), channel@, addr)
            }),
            forall|k: Seq<char>, x: ClientId|
                x != addr ==> (#[trigger] views(final(self).viewing(), k, x) <==> views(old(self).viewing(), k, x)),
            views(final(self).viewing(), channel@, addr) == is_viewing,
            final(self).connections() == old(self).connections(),
            final(self).spec_status() == old(self).spec_status(),
            final(self).spec_id() == old(self).spec_id(),
            final(self).spec_name() == old(self).spec_name(),
            final(self).spec_nickname() == old(self).spec_nickname(),
    {
        let ghost m = self.viewing();
        proof {
            law_viewing_change_touches_no_other_client(m, channel@, addr);
        }
        if is_viewing {
            self.clear_viewing(addr);
            let ghost m1 = self.viewing();
            let key = channel.to_owned();
            let mut viewers = match self.active_channels.remove(&key) {
                Some(v) => v,
                None => std::collections::HashSet::new(),
            };
            let ghost v0 = viewers@;
            assert(v0 == viewers_or_empty(m1, channel@));
            viewers.insert(addr);
            let ghost v1 = viewers@;
            self.active_channels.insert(key, viewers);
            proof {
                let ch = channel@;
                assert(self.viewing()[ch] == v1);
                assert(v1 == v0.insert(addr));
                if m.contains_key(ch) {
                    assert(m1.contains_key(ch));
                    assert(v0 == m[ch].remove(addr));
                    assert(v1 =~= m[ch].insert(addr));
                } else {
                    assert(!m1.contains_key(ch));
                    assert(v1 =~= Set::<ClientId>::empty().insert(addr));
                }
                let m2 = self.viewing();
                let target = start_viewing(m, ch, addr);
                assert forall|k2: Seq<char>| m2.contains_key(k2) == target.contains_key(k2) by {}
                assert forall|k2: Seq<char>| #[trigger] m2.contains_key(k2) implies m2[k2] == target[k2] by {
                    if k2 == ch {
                        if m.contains_key(ch) {
                            assert(m[ch].remove(addr).insert(addr) =~= m[ch].insert(addr));
                        }
                    }
                }
                assert(m2 =~= target);
                assert forall|k1: Seq<char>, k2: Seq<char>, a: ClientId|
                    m2.contains_key(k1) && m2.contains_key(k2) && k1 != k2 && #[trigger] m2[k1].contains(a)
                    implies !#[trigger] m2[k2].contains(a) by {
                    if a == addr {
                        if k1 != ch {
                            assert(!m1[k1].contains(addr));
                        }
                        if k2 != ch {
                            assert(!m1[k2].contains(addr));
                        }
                    } else {
                        if k1 == ch {
                            assert(m.contains_key(ch) && m[ch].contains(a));
                            assert(m1[k2].contains(a) ==> m[k2].contains(a));
                        } else if k2 == ch {
                            assert(m1[k1].contains(a));
                            assert(m[k1].contains(a));
                        } else {
                            assert(m1[k1].contains(a));
                        }
                    }
                }
            }
        } else {
            let key = channel.to_owned();
            match self.active_channels.remove(&key) {
                Some(mut v) => {
                    v.remove(&addr);
                    self.active_channels.insert(key, v);
                    proof {
                        let ch = channel@;
                        let m2 = self.viewing();
                        let target = stop_viewing(m, ch, addr);
                        assert forall|k2: Seq<char>| m2.contains_key(k2) == target.contains_key(k2) by {}
                        assert(m2 =~= target);
                        assert forall|k1: Seq<char>, k2: Seq<char>, a: ClientId|
                            m2.contains_key(k1) && m2.contains_key(k2) && k1 != k2 && #[trigger] m2[k1].contains(a)
                            implies !#[trigger] m2[k2].contains(a) by {
                            assert(m[k1].contains(a));
                        }
                    }
                },
                None => {
                    assert(self.viewing() =~= old(self).viewing());
                },
            }
        }
    }

    /// Names of the channel entries that no client views, each once.
    fn unviewed_names(&self) -> (names: Vec<String>)
        requires
            self.wf(),
        ensures
            key_views(names@).no_duplicates(),
            key_views(names@).to_set() == unviewed_channels(self.viewing()),
    {
        let ghost m = self.viewing();
        let ghost pred = |k: Seq<char>| m[k] == Set::<ClientId>::empty();
        let ghost ks = self.active_channels.key_seq();
        let mut names: Vec<String> = Vec::new();
        let n = self.active_channels.len();
        proof {
            self.active_channels.lemma_entries();
            assert(ks.take(0) =~= Seq::<Seq<char>>::empty());
            assert(key_views(names@) =~= ks.take(0).filter(pred));
        }
        for i in 0..n
            invariant
                n == self.active_channels.len_spec(),
                n == ks.len(),
                self.wf(),
                m == self.viewing(),
                ks == self.active_channels.key_seq(),
                pred == (|k: Seq<char>| m[k] == Set::<ClientId>::empty()),
                forall|j: int| 0 <= j < n ==> #[trigger] ks[j] == self.active_channels.key_spec(j),
                key_views(names@) == ks.take(i as int).filter(pred),
        {
            proof {
                self.active_channels.lemma_entries();
            }
            let ghost old_names = names@;
            let ghost ki = self.active_channels.key_spec(i as int);
            assert(self.active_channels@.contains_key(ki));
            assert(self.active_channels@[ki] == self.active_channels.val_spec(i as int));
            assert(m[ki] == self.active_channels.val_spec(i as int)@);
            if self.active_channels.val_at(i).is_empty() {
                let name = self.active_channels.key_at(i).clone();
                names.push(name);
                assert(key_views(names@) =~= key_views(old_names).push(ki));
            }
            proof {
                assert(ks.take(i + 1) =~= ks.take(i as int).push(ks[i as int]));
                ks.take(i as int).lemma_filter_push(ks[i as int], pred);
            }
        }
        proof {
            assert(ks.take(n as int) =~= ks);
            self.active_channels.lemma_entries();
            lemma_filter_no_duplicates(ks, pred);
            broadcast use vstd::seq_lib::group_filter_ensures;
            let fl = ks.filter(pred);
            assert forall|k: Seq<char>| fl.to_set().contains(k) == unviewed_channels(m).contains(k) by {
                if fl.to_set().contains(k) {
                    let t = choose|t: int| 0 <= t < fl.len() && fl[t] == k;
                    assert(pred(fl[t]));
                    ks.lemma_filter_contains_rev(pred, k);
                    assert(ks.contains(fl[t]));
                    assert(self.active_channels@.dom().contains(k));
                }
                if unviewed_channels(m).contains(k) {
                    assert(ks.to_set().contains(k));
                    let j = choose|j: int| 0 <= j < ks.len() && ks[j] == k;
                    assert(pred(ks[j]));
                    assert(fl.contains(ks[j]));
                }
            }
            assert(fl.to_set() =~= unviewed_channels(m));
        }
        names
    }

    /// Drops the channel entries named in `names`.
    fn drop_entries(&mut self, names: &Vec<String>)
        requires
            old(self).wf(),
        ensures
            final(self).active_channels.wf(),
            final(self).viewing() == drop_keys(old(self).viewing(), key_views(names@)),
            final(self).connections == old(self).connections,
            final(self).status == old(self).status,
            final(self).id == old(self).id,
            final(self).username == old(self).username,
            final(self).nickname == old(self).nickname,
    {
        let ghost m = self.viewing();
        let count = names.len();
        assert(drop_keys(m, key_views(names@).take(0)) =~= m);
        for t in 0..count
            invariant
                count == names@.len(),
                self.active_channels.wf(),
                self.connections == old(self).connections,
                self.status == old(self).status,
                self.id == old(self).id,
                self.username == old(self).username,
                self.nickname == old(self).nickname,
                self.viewing() == drop_keys(m, key_views(names@).take(t as int)),
        {
            let ghost before = self.viewing();
            let ghost before_map = self.active_channels@;
            let name = &names[t];
            let _ = self.active_channels.remove(name);
            proof {
                let nt = names@[t as int]@;
                assert(name@ == nt);
                assert(self.active_channels@ == before_map.remove(nt));
                assert forall|k: Seq<char>| #[trigger] self.viewing().contains_key(k) == (before.contains_key(k) && k != nt) by {
                    assert(self.viewing().contains_key(k) == self.active_channels@.contains_key(k));
                    assert(before.contains_key(k) == before_map.contains_key(k));
                }
                let pre = key_views(names@).take(t as int);
                let post = key_views(names@).take(t + 1);
                assert(post =~= pre.push(nt));
                let after = drop_keys(m, post);
                assert forall|k: Seq<char>| #[trigger] self.viewing().contains_key(k) == after.contains_key(k) by {
                    assert(post.contains(k) == (pre.contains(k) || k == nt)) by {
                        if post.contains(k) && k != nt {
                            let x = choose|x: int| 0 <= x < post.len() && post[x] == k;
                            assert(pre[x] == k);
                        }
                        if pre.contains(k) {
                            let x = choose|x: int| 0 <= x < pre.len() && pre[x] == k;
                            assert(post[x] == k);
                        }
                        if k == nt {
                            assert(post[t as int] == k);
                        }
                    }
                }
                assert forall|k: Seq<char>| #[trigger] self.viewing().contains_key(k) implies self.viewing()[k] == after[k] by {
                    assert(self.active_channels@[k] == before_map[k]);
                    assert(self.viewing()[k] == self.active_channels@[k]@);
                    assert(before.contains_key(k));
                    assert(before[k] == before_map[k]@);
                    assert(before[k] == m[k]);
                    assert(after.contains_key(k));
                }
                assert(self.viewing() =~= after);
            }
        }
        assert(key_views(names@).take(count as int) =~= key_views(names@));
    }

    /// Drops every channel entry that no client views, and returns their names.
    pub fn get_and_clear_no_viewers(&mut self) -> (names: Vec<String>)
        requires
            old(self).wf(),
        ensures
            final(self).wf(),
            key_views(names@).no_duplicates(),
            key_views(names@).to_set() == unviewed_channels(old(self).viewing()),
            final(self).viewing() == only_viewed(old(self).viewing()),
            final(self).connections() == old(self).connections(),
            final(self).spec_status() == old(self).spec_status(),
            final(self).spec_id() == old(self).spec_id(),
            final(self).spec_name() == old(self).spec_name(),
            final(self).spec_nickname() == old(self).spec_nickname(),
    {
        let ghost m = self.viewing();
        let names = self.unviewed_names();
        self.drop_entries(&names);
        proof {
            let fin = self.viewing();
            let target = only_viewed(m);
            assert forall|k: Seq<char>| fin.contains_key(k) == target.contains_key(k) by {
                assert(key_views(names@).contains(k) == key_views(names@).to_set().contains(k));
            }
            assert(fin =~= target);
            assert forall|k1: Seq<char>, k2: Seq<char>, a: ClientId|
                fin.contains_key(k1) && fin.contains_key(k2) && k1 != k2 && #[trigger] fin[k1].contains(a)
                implies !#[trigger] fin[k2].contains(a) by {
                assert(m[k1].contains(a));
            }
        }
        names
    }

    /// The channels that have a viewing entry, each once.
    pub fn get_viewed_channels(&self) -> (names: Vec<String>)
        requires
            self.wf(),
        ensures
            key_views(names@).no_duplicates(),
            key_views(names@).to_set() == self.viewing().dom(),
    {
        let names = self.active_channels.keys();
        assert(self.viewing().dom() =~= self.active_channels@.dom());
        names
    }

    /// Equality of users: same id, names and status.
    pub fn same_as(&self, other: &User) -> (r: bool)
        ensures
            r == same_user(self, other),
    {
        self.id == other.id && self.username == other.username && self.nickname == other.nickname
            && self.status == other.status
    }
}

} // verus!
