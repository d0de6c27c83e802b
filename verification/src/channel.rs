//! A chat channel and its members, and who hears what is said in it.

use vstd::prelude::*;
use crate::collections::{key_views, KeySet};
use crate::user_table::UserTable;
use crate::user::{ClientId, User, UserInfo, same_user};

verus! {

/// Every user is filed under its own username and is well formed.
pub open spec fn users_wf(t: UserTable) -> bool {
    forall|n: Seq<char>| #[trigger] t@.contains_key(n) ==> t@[n].wf() && t@[n].spec_name() == n
}

/// The clients of the users named in `members` that are registered and,
/// when `except` is given, are not equal to it.
pub open spec fn member_connections(
    users: Map<Seq<char>, User>,
    members: Set<Seq<char>>,
    except: Option<User>,
) -> Set<ClientId> {
    Set::new(
        |c: ClientId|
            exists|n: Seq<char>|
                #![trigger members.contains(n), users[n]]
                members.contains(n) && users.contains_key(n) && users[n].connections().contains(c)
                    && match except {
                    Some(u) => !same_user(&users[n], &u),
                    None => true,
                },
    )
}

/// No client is a connection of two different users.
pub open spec fn connections_disjoint(users: Map<Seq<char>, User>) -> bool {
    forall|n1: Seq<char>, n2: Seq<char>, c: ClientId|
        users.contains_key(n1) && users.contains_key(n2) && n1 != n2 && #[trigger] users[n1].connections().contains(c)
            ==> !#[trigger] users[n2].connections().contains(c)
}

/// `info` describes a registered member.
pub open spec fn describes_member(info: UserInfo, users: Map<Seq<char>, User>, members: Set<Seq<char>>) -> bool {
    exists|n: Seq<char>|
        #![trigger users[n]]
        members.contains(n) && users.contains_key(n) && info.describes(&users[n])
}

/// `r` is what clients are told about channel `c`: its id, its name, and
/// one entry for each of its members that is a registered user.
pub open spec fn channel_info_of(r: ChannelInfo, c: Channel, users: Map<Seq<char>, User>) -> bool {
    &&& r.id == c.spec_id()
    &&& r.name@ == c.spec_name()
    &&& forall|t: int|
        0 <= t < r.users@.len() ==> describes_member(#[trigger] r.users@[t], users, c.members())
    &&& forall|n: Seq<char>|
        c.members().contains(n) && #[trigger] users.contains_key(n) ==> exists|t: int|
            0 <= t < r.users@.len() && (#[trigger] r.users@[t]).username@ == n
    &&& forall|t1: int, t2: int|
        0 <= t1 < r.users@.len() && 0 <= t2 < r.users@.len() && t1 != t2 ==> (#[trigger] r.users@[t1]).username@
            != (#[trigger] r.users@[t2]).username@
}

/// What clients are told about a channel: its id, name and the members
/// that are registered users.
#[derive(Debug)]
pub struct ChannelInfo {
    pub id: i64,
    pub name: String,
    pub users: Vec<UserInfo>,
}

pub struct Channel {
    id: i64,
    name: String,
    users: KeySet<String>,
}

impl Channel {
    /// Usernames of the members.
    pub closed spec fn members(&self) -> Set<Seq<char>> {
        self.users@
    }

    pub closed spec fn spec_id(&self) -> i64 {
        self.id
    }

    pub closed spec fn spec_name(&self) -> Seq<char> {
        self.name@
    }

    pub closed spec fn wf(&self) -> bool {
        self.users.wf()
    }

    pub fn new(id: i64, name: &str) -> (c: Self)
        ensures
            c.wf(),
            c.spec_id() == id,
            c.spec_name() == name@,
            c.members() == Set::<Seq<char>>::empty(),
    {
        Channel { id, name: name.to_owned(), users: KeySet::new() }
    }

    pub fn id(&self) -> (r: i64)
        ensures
            r == self.spec_id(),
    {
        self.id
    }

    pub fn name(&self) -> (r: &String)
        ensures
            r@ == self.spec_name(),
    {
        &self.name
    }

    pub fn add_user(&mut self, user: &User)
        requires
            old(self).wf(),
        ensures
            final(self).wf(),
            final(self).members() == old(self).members().insert(user.spec_name()),
            final(self).spec_id() == old(self).spec_id(),
            final(self).spec_name() == old(self).spec_name(),
    {
        self.users.insert(user.username().clone());
    }

    pub fn has_user(&self, username: &String) -> (r: bool)
        requires
            self.wf(),
        ensures
            r == self.members().contains(username@),
    {
        self.users.contains(username)
    }

    /// The members' usernames, each once.
    pub fn member_names(&self) -> (r: Vec<String>)
        requires
            self.wf(),
        ensures
            key_views(r@).no_duplicates(),
            key_views(r@).to_set() == self.members(),
    {
        self.users.to_vec()
    }

    /// The clients that a message to this channel goes to, leaving out the
    /// members equal to `except`.
    fn targets(&self, users: &UserTable, except: Option<&User>) -> (r: Vec<ClientId>)
        requires
            self.wf(),
            users_wf(*users),
        ensures
            r@.to_set() == member_connections(
                users@,
                self.members(),
                match except {
                    Some(u) => Some(*u),
                    None => None,
                },
            ),
            connections_disjoint(users@) ==> r@.no_duplicates(),
    {
        let ghost ex = match except {
            Some(u) => Some(*u),
            None => None,
        };
        let names = self.member_names();
        let ghost ns = key_views(names@);
        let mut r: Vec<ClientId> = Vec::new();
        let n = names.len();
        for i in 0..n
            invariant
                n == names@.len(),
                ns == key_views(names@),
                ns.no_duplicates(),
                users_wf(*users),
                connections_disjoint(users@) ==> r@.no_duplicates(),
                ex == (match except {
                    Some(u) => Some(*u),
                    None => None,
                }),
                forall|c: ClientId|
                    r@.contains(c) <==> exists|j: int|
                        0 <= j < i && #[trigger] users@.contains_key(ns[j]) && users@[ns[j]].connections().contains(c)
                            && match ex {
                            Some(u) => !same_user(&users@[ns[j]], &u),
                            None => true,
                        },
        {
            let ghost r0 = r@;
            let ghost ni = ns[i as int];
            assert(names@[i as int]@ == ni);
            let ghost mut added: Seq<ClientId> = Seq::empty();
            match users.get(&names[i]) {
                Some(u) => {
                    assert(users@.contains_key(ni));
                    assert(*u == users@[ni]);
                    let keep = match except {
                        Some(e) => !u.same_as(e),
                        None => true,
                    };
                    if keep {
                        let mut ids = u.connection_ids();
                        proof {
                            added = ids@;
                            assert(added.no_duplicates());
                        }
                        r.append(&mut ids);
                    }
                },
                None => {},
            }
            assert(r@ =~= r0 + added);
            assert(forall|c: ClientId| added.contains(c) <==> (users@.contains_key(ni) && users@[ni].connections().contains(c) && match ex {
                Some(u) => !same_user(&users@[ni], &u),
                None => true,
            })) by {
                assert forall|c: ClientId| added.contains(c) <==> added.to_set().contains(c) by {}
            }
            proof {
            if connections_disjoint(users@) {
                assert forall|a: int, b: int| 0 <= a < b < r@.len() implies r@[a] != r@[b] by {
                    if b >= r0.len() && a < r0.len() && r@[a] == r@[b] {
                        let c = r@[b];
                        assert(added[b - r0.len()] == c);
                        assert(added.contains(c));
                        assert(r0[a] == c);
                        assert(r0.contains(c));
                        let j = choose|j: int|
                            0 <= j < i && #[trigger] users@.contains_key(ns[j]) && users@[ns[j]].connections().contains(c)
                                && match ex {
                                Some(u) => !same_user(&users@[ns[j]], &u),
                                None => true,
                            };
                        assert(ns[j] != ni);
                        assert(users@[ni].connections().contains(c));
                    } else if a >= r0.len() {
                        assert(added[a - r0.len()] == r@[a]);
                        assert(added[b - r0.len()] == r@[b]);
                    }
                }
            }
            }
            assert forall|c: ClientId|
                r@.contains(c) <==> exists|j: int|
                    0 <= j < i + 1 && #[trigger] users@.contains_key(ns[j]) && users@[ns[j]].connections().contains(c)
                        && match ex {
                        Some(u) => !same_user(&users@[ns[j]], &u),
                        None => true,
                    } by {
                if r@.contains(c) && !r0.contains(c) {
                    let t = choose|t: int| 0 <= t < r@.len() && r@[t] == c;
                    assert(t >= r0.len());
                    assert(added[t - r0.len()] == c);
                    assert(added.contains(c));
                }
                if r0.contains(c) {
                    let t = choose|t: int| 0 <= t < r0.len() && r0[t] == c;
                    assert(r@[t] == c);
                }
                if exists|j: int|
                    0 <= j < i + 1 && #[trigger] users@.contains_key(ns[j]) && users@[ns[j]].connections().contains(c)
                        && match ex {
                        Some(u) => !same_user(&users@[ns[j]], &u),
                        None => true,
                    } {
                    let j = choose|j: int|
                        0 <= j < i + 1 && #[trigger] users@.contains_key(ns[j]) && users@[ns[j]].connections().contains(c)
                            && match ex {
                            Some(u) => !same_user(&users@[ns[j]], &u),
                            None => true,
                        };
                    if j == i {
                        assert(added.contains(c));
                        let t = choose|t: int| 0 <= t < added.len() && added[t] == c;
                        assert(r@[r0.len() + t] == c);
                    } else {
                        assert(r0.contains(c));
                        let t = choose|t: int| 0 <= t < r0.len() && r0[t] == c;
                        assert(r@[t] == c);
                    }
                }
            }
        }
        proof {
            let target = member_connections(users@, self.members(), ex);
            assert forall|c: ClientId| r@.to_set().contains(c) == target.contains(c) by {
                if r@.contains(c) {
                    let j = choose|j: int|
                        0 <= j < n && #[trigger] users@.contains_key(ns[j]) && users@[ns[j]].connections().contains(c)
                            && match ex {
                            Some(u) => !same_user(&users@[ns[j]], &u),
                            None => true,
                        };
                    assert(ns.to_set().contains(ns[j]));
                    assert(self.members().contains(ns[j]));
                }
                if target.contains(c) {
                    let nm = choose|nm: Seq<char>|
                        #![trigger self.members().contains(nm), users@[nm]]
                        self.members().contains(nm) && users@.contains_key(nm) && users@[nm].connections().contains(c)
                            && match ex {
                            Some(u) => !same_user(&users@[nm], &u),
                            None => true,
                        };
                    assert(ns.to_set().contains(nm));
                    let j = choose|j: int| 0 <= j < ns.len() && ns[j] == nm;
                    assert(users@.contains_key(ns[j]));
                }
            }
            assert(r@.to_set() =~= target);
        }
        r
    }

    /// The channel as clients are told about it: id, name, and the members
    /// that are registered users (each once).
    pub fn serialize(&self, users: &UserTable) -> (r: ChannelInfo)
        requires
            self.wf(),
            users_wf(*users),
        ensures
            channel_info_of(r, *self, users@),
    {
        let names = self.member_names();
        let ghost ns = key_views(names@);
        let mut infos: Vec<UserInfo> = Vec::new();
        let ghost mut idx: Seq<int> = Seq::empty();
        let ghost mut slot: Seq<int> = Seq::empty();
        let n = names.len();
        for i in 0..n
            invariant
                n == names@.len(),
                ns == key_views(names@),
                ns.no_duplicates(),
                ns.to_set() == self.members(),
                users_wf(*users),
                idx.len() == infos@.len(),
                slot.len() == i,
                forall|t: int|
                    0 <= t < infos@.len() ==> 0 <= #[trigger] idx[t] < i && users@.contains_key(ns[idx[t]])
                        && infos@[t].describes(&users@[ns[idx[t]]]),
                forall|j: int|
                    0 <= j < i && users@.contains_key(ns[j]) ==> 0 <= #[trigger] slot[j] < infos@.len()
                        && idx[slot[j]] == j,
                forall|t1: int, t2: int| 0 <= t1 < t2 < idx.len() ==> #[trigger] idx[t1] < #[trigger] idx[t2],
        {
            let ghost i0 = infos@;
            let ghost ni = ns[i as int];
            assert(names@[i as int]@ == ni);
            match users.get(&names[i]) {
                Some(u) => {
                    assert(users@.contains_key(ni));
                    infos.push(u.info());
                    proof {
                        assert(infos@[i0.len() as int].describes(&users@[ni]));
                        idx = idx.push(i as int);
                        slot = slot.push(i0.len() as int);
                        assert forall|t: int| 0 <= t < i0.len() implies infos@[t] == i0[t] by {}
                    }
                },
                None => {
                    proof {
                        slot = slot.push(-1);
                    }
                },
            }
        }
        proof {
            let r = infos@;
            assert(infos@.len() == idx.len());
            assert forall|t: int|
                0 <= t < r.len() implies describes_member(#[trigger] r[t], users@, self.members()) by {
                let j = idx[t];
                assert(ns.to_set().contains(ns[j]));
                assert(users@.contains_key(ns[j]));
                assert(r[t].describes(&users@[ns[j]]));
            }
            assert forall|nm: Seq<char>|
                self.members().contains(nm) && #[trigger] users@.contains_key(nm) implies exists|t: int|
                0 <= t < r.len() && (#[trigger] r[t]).username@ == nm by {
                assert(ns.to_set().contains(nm));
                let j = choose|j: int| 0 <= j < ns.len() && ns[j] == nm;
                assert(users@.contains_key(ns[j]));
                let t = slot[j];
                assert(r[t].describes(&users@[ns[idx[t]]]));
                assert(r[t].username@ == nm);
            }
            assert forall|t1: int, t2: int|
                0 <= t1 < r.len() && 0 <= t2 < r.len() && t1 != t2 implies (#[trigger] r[t1]).username@
                    != (#[trigger] r[t2]).username@ by {
                assert(r[t1].describes(&users@[ns[idx[t1]]]));
                assert(r[t2].describes(&users@[ns[idx[t2]]]));
                assert(idx[t1] != idx[t2]);
            }
        }
        ChannelInfo { id: self.id, name: self.name.clone(), users: infos }
    }

    /// The clients of every registered member: who hears a message sent to
    /// the channel.
    pub fn broadcast(&self, users: &UserTable) -> (r: Vec<ClientId>)
        requires
            self.wf(),
            users_wf(*users),
        ensures
            r@.to_set() == member_connections(users@, self.members(), None),
            connections_disjoint(users@) ==> r@.no_duplicates(),
    {
        self.targets(users, None)
    }

    /// The clients of every registered member that is not equal to `except`.
    pub fn broadcast_filter(&self, users: &UserTable, except: &User) -> (r: Vec<ClientId>)
        requires
            self.wf(),
            users_wf(*users),
        ensures
            r@.to_set() == member_connections(users@, self.members(), Some(*except)),
            connections_disjoint(users@) ==> r@.no_duplicates(),
    {
        self.targets(users, Some(except))
    }
}

} // verus!
