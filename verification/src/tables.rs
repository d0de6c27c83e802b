//! Building the user and channel tables from the rows the database holds.

use vstd::prelude::*;
use crate::collections::KeyMap;
use crate::channel::{Channel, users_wf};
use crate::user_table::UserTable;
use crate::server::{ChannelTable, channels_wf};
use crate::user::{User, ClientId};

verus! {

/// A row of the users table.
#[derive(Debug)]
pub struct UserRecord {
    pub id: i64,
    pub username: String,
    pub nickname: String,
}

/// A row of channels joined with their members: a channel without members
/// comes with no username.
#[derive(Debug)]
pub struct ChannelRecord {
    pub id: i64,
    pub name: String,
    pub username: Option<String>,
}

/// The id and nickname of the last record for `name`, if any.
pub open spec fn last_user_record(rs: Seq<UserRecord>, name: Seq<char>) -> Option<(i64, Seq<char>)>
    decreases rs.len(),
{
    if rs.len() == 0 {
        None
    } else if rs.last().username@ == name {
        Some((rs.last().id, rs.last().nickname@))
    } else {
        last_user_record(rs.drop_last(), name)
    }
}

/// The user table that the users rows make: one user per username (a later
/// row replacing an earlier one), with no connections, offline.
pub open spec fn users_from(rs: Seq<UserRecord>, t: Map<Seq<char>, User>) -> bool {
    &&& forall|n: Seq<char>| #[trigger] t.contains_key(n) <==> last_user_record(rs, n) is Some
    &&& forall|n: Seq<char>|
        #[trigger] t.contains_key(n) ==> {
            let (id, nick) = last_user_record(rs, n).unwrap();
            &&& t[n].spec_id() == id
            &&& t[n].spec_name() == n
            &&& t[n].spec_nickname() == nick
            &&& t[n].connections() == Set::<ClientId>::empty()
            &&& t[n].viewing() == Map::<Seq<char>, Set<ClientId>>::empty()
            &&& t[n].spec_status() == crate::user::OnlineStatus::Offline
        }
}

/// The username of the last record with id `id`, if any.
pub open spec fn last_id_record(rs: Seq<UserRecord>, id: i64) -> Option<Seq<char>>
    decreases rs.len(),
{
    if rs.len() == 0 {
        None
    } else if rs.last().id == id {
        Some(rs.last().username@)
    } else {
        last_id_record(rs.drop_last(), id)
    }
}

/// The id index that the users rows make: each id leads to the username of
/// the last row with that id.
pub open spec fn ids_from(rs: Seq<UserRecord>, idx: Map<i64, Seq<char>>) -> bool {
    &&& forall|id: i64| #[trigger] idx.contains_key(id) <==> last_id_record(rs, id) is Some
    &&& forall|id: i64| #[trigger] idx.contains_key(id) ==> idx[id] == last_id_record(rs, id).unwrap()
}

/// Builds the user table from the rows of the users table, filing each
/// user under its username and its id.
pub fn load_users(records: &Vec<UserRecord>) -> (t: UserTable)
    ensures
        users_wf(t),
        users_from(records@, t@),
        ids_from(records@, t.id_index()),
{
    let mut t = UserTable::new();
    let n = records.len();
    for i in 0..n
        invariant
            n == records@.len(),
            users_wf(t),
            users_from(records@.take(i as int), t@),
            ids_from(records@.take(i as int), t.id_index()),
    {
        let rec = &records[i];
        let ghost pre = records@.take(i as int);
        let ghost post = records@.take(i + 1);
        proof {
            assert(post.drop_last() =~= pre);
            assert(post.last() == records@[i as int]);
        }
        let u = User::new(rec.id, rec.username.as_str(), rec.nickname.as_str());
        let ghost t0 = t@;
        t.insert(u);
        proof {
            assert forall|id: i64| #[trigger] t.id_index().contains_key(id) <==> last_id_record(post, id) is Some by {
                if id != rec.id {
                    assert(last_id_record(post, id) == last_id_record(pre, id));
                }
            }
            assert forall|id: i64| #[trigger] t.id_index().contains_key(id) implies t.id_index()[id]
                == last_id_record(post, id).unwrap() by {
                if id != rec.id {
                    assert(last_id_record(post, id) == last_id_record(pre, id));
                }
            }
            assert forall|m: Seq<char>| #[trigger] t@.contains_key(m) implies t@[m].wf() && t@[m].spec_name() == m by {
                if m != rec.username@ {
                    assert(t0.contains_key(m));
                }
            }
            assert forall|m: Seq<char>| #[trigger] t@.contains_key(m) <==> last_user_record(post, m) is Some by {
                if m != rec.username@ {
                    assert(last_user_record(post, m) == last_user_record(pre, m));
                }
            }
            assert forall|m: Seq<char>| #[trigger] t@.contains_key(m) implies {
                let (id, nick) = last_user_record(post, m).unwrap();
                &&& t@[m].spec_id() == id
                &&& t@[m].spec_name() == m
                &&& t@[m].spec_nickname() == nick
                &&& t@[m].connections() == Set::<ClientId>::empty()
                &&& t@[m].viewing() == Map::<Seq<char>, Set<ClientId>>::empty()
                &&& t@[m].spec_status() == crate::user::OnlineStatus::Offline
            } by {
                if m != rec.username@ {
                    assert(last_user_record(post, m) == last_user_record(pre, m));
                    assert(t0.contains_key(m));
                }
            }
        }
    }
    proof {
        assert(records@.take(n as int) =~= records@);
    }
    t
}

/// Every record that names a member names a registered user.
pub open spec fn members_registered(rs: Seq<ChannelRecord>, users: Map<Seq<char>, User>) -> bool {
    forall|i: int|
        0 <= i < rs.len() ==> ((#[trigger] rs[i]).username matches Some(u) ==> users.contains_key(u@))
}

/// The id of the first record for channel `name`, if any.
pub open spec fn first_channel_id(rs: Seq<ChannelRecord>, name: Seq<char>) -> Option<i64>
    decreases rs.len(),
{
    if rs.len() == 0 {
        None
    } else {
        match first_channel_id(rs.drop_last(), name) {
            Some(id) => Some(id),
            None => if rs.last().name@ == name {
                Some(rs.last().id)
            } else {
                None
            },
        }
    }
}

/// The record lists user `u` as a member.
pub open spec fn names_member(r: ChannelRecord, u: Seq<char>) -> bool {
    match r.username {
        Some(x) => x@ == u,
        None => false,
    }
}

/// The usernames that the records list as members of channel `name`.
pub open spec fn channel_members(rs: Seq<ChannelRecord>, name: Seq<char>) -> Set<Seq<char>> {
    Set::new(
        |u: Seq<char>|
            exists|i: int|
                0 <= i < rs.len() && (#[trigger] rs[i]).name@ == name && names_member(rs[i], u),
    )
}

/// The channel table that the records make: one channel per name, with the
/// id of its first record and the members its records list.
pub open spec fn channels_from(rs: Seq<ChannelRecord>, t: Map<Seq<char>, Channel>) -> bool {
    &&& forall|n: Seq<char>| #[trigger] t.contains_key(n) <==> first_channel_id(rs, n) is Some
    &&& forall|n: Seq<char>|
        #[trigger] t.contains_key(n) ==> t[n].spec_id() == first_channel_id(rs, n).unwrap()
            && t[n].spec_name() == n && t[n].members() == channel_members(rs, n)
}

/// Whether every member named in the records is a registered user.
pub fn records_reference_known_users(records: &Vec<ChannelRecord>, users: &UserTable) -> (r: bool)
    ensures
        r == members_registered(records@, users@),
{
    let n = records.len();
    for i in 0..n
        invariant
            n == records@.len(),
            forall|j: int|
                0 <= j < i ==> ((#[trigger] records@[j]).username matches Some(u) ==> users@.contains_key(u@)),
    {
        match &records[i].username {
            Some(u) => {
                if users.get(u).is_none() {
                    return false;
                }
            },
            None => {},
        }
    }
    true
}

/// Builds the channel table from the channel records. Every member named
/// must be a registered user.
pub fn load_channels(records: &Vec<ChannelRecord>, users: &UserTable) -> (t: ChannelTable)
    requires
        users_wf(*users),
        members_registered(records@, users@),
    ensures
        channels_wf(t),
        channels_from(records@, t@),
{
    let mut t: ChannelTable = KeyMap::new();
    let n = records.len();
    for i in 0..n
        invariant
            n == records@.len(),
            users_wf(*users),
            members_registered(records@, users@),
            channels_wf(t),
            channels_from(records@.take(i as int), t@),
    {
        let rec = &records[i];
        let ghost pre = records@.take(i as int);
        let ghost post = records@.take(i + 1);
        let ghost nm = rec.name@;
        proof {
            assert(post.drop_last() =~= pre);
            assert(post.last() == records@[i as int]);
            assert forall|m: Seq<char>| first_channel_id(post, m) == (match first_channel_id(pre, m) {
                Some(id) => Some(id),
                None => if m == nm {
                    Some(rec.id)
                } else {
                    None
                },
            }) by {}
            assert forall|m: Seq<char>|
                #![trigger channel_members(post, m)]
                channel_members(post, m) == (if m == nm {
                    match rec.username {
                        Some(u) => channel_members(pre, m).insert(u@),
                        None => channel_members(pre, m),
                    }
                } else {
                    channel_members(pre, m)
                }) by {
                let target = if m == nm {
                    match rec.username {
                        Some(u) => channel_members(pre, m).insert(u@),
                        None => channel_members(pre, m),
                    }
                } else {
                    channel_members(pre, m)
                };
                assert forall|x: Seq<char>| channel_members(post, m).contains(x) == target.contains(x) by {
                    if channel_members(post, m).contains(x) {
                        let j = choose|j: int|
                            0 <= j < post.len() && (#[trigger] post[j]).name@ == m && names_member(post[j], x);
                        if j < i {
                            assert(pre[j] == post[j]);
                        }
                    }
                    if target.contains(x) {
                        if channel_members(pre, m).contains(x) {
                            let j = choose|j: int|
                                0 <= j < pre.len() && (#[trigger] pre[j]).name@ == m && names_member(pre[j], x);
                            assert(post[j] == pre[j]);
                        } else {
                            assert(post[i as int] == *rec);
                        }
                    }
                }
                assert(channel_members(post, m) =~= target);
            }
        }
        let ghost t0 = t@;
        let mut c = match t.remove(&rec.name) {
            Some(c) => c,
            None => {
                proof {
                    assert(first_channel_id(pre, nm) is None);
                    assert(channel_members(pre, nm) =~= Set::<Seq<char>>::empty()) by {
                        assert forall|x: Seq<char>| !channel_members(pre, nm).contains(x) by {
                            if channel_members(pre, nm).contains(x) {
                                let j = choose|j: int|
                                    0 <= j < pre.len() && (#[trigger] pre[j]).name@ == nm && names_member(pre[j], x);
                                lemma_first_channel_id_some(pre, j);
                            }
                        }
                    }
                }
                Channel::new(rec.id, rec.name.as_str())
            },
        };
        match &rec.username {
            Some(u) => {
                proof {
                    assert(records@[i as int] == *rec);
                    assert(users@.contains_key(u@));
                }
                let user = users.get(u).unwrap();
                c.add_user(user);
            },
            None => {},
        }
        t.insert(rec.name.clone(), c);
        proof {
            assert forall|m: Seq<char>| #[trigger] t@.contains_key(m) implies t@[m].wf() && t@[m].spec_name() == m by {
                if m != nm {
                    assert(t0.contains_key(m));
                }
            }
            assert forall|m: Seq<char>| #[trigger] t@.contains_key(m) <==> first_channel_id(post, m) is Some by {
                if m != nm {
                    assert(t0.contains_key(m) == t@.contains_key(m));
                }
            }
            assert forall|m: Seq<char>| #[trigger] t@.contains_key(m) implies t@[m].spec_id() == first_channel_id(post, m).unwrap()
                && t@[m].spec_name() == m && t@[m].members() == channel_members(post, m) by {
                assert(channel_members(post, m) == channel_members(post, m));
                if m != nm {
                    assert(t0.contains_key(m));
                }
            }
        }
    }
    proof {
        assert(records@.take(n as int) =~= records@);
    }
    t
}

/// A record for `name` at position `j` gives the channel a first id.
proof fn lemma_first_channel_id_some(rs: Seq<ChannelRecord>, j: int)
    requires
        0 <= j < rs.len(),
    ensures
        first_channel_id(rs, rs[j].name@) is Some,
    decreases rs.len(),
{
    if j < rs.len() - 1 {
        lemma_first_channel_id_some(rs.drop_last(), j);
        assert(rs.drop_last()[j] == rs[j]);
    }
}

} // verus!
