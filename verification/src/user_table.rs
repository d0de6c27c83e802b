//! The registered users, held in a `MultiMap` of the multi_map crate: found
//! by username, and by id through the map's secondary index.

use vstd::prelude::*;
use multi_map::MultiMap;
use crate::user::User;

verus! {

/// multi_map's `MultiMap`, declared so that it can be a field; Verus sees
/// nothing inside it, and what it holds is named below.
#[verifier::external_type_specification]
#[verifier::external_body]
#[verifier::reject_recursive_types(K1)]
#[verifier::reject_recursive_types(K2)]
#[verifier::reject_recursive_types(V)]
pub struct ExMultiMap<K1: Eq + std::hash::Hash, K2: Eq + std::hash::Hash, V>(MultiMap<K1, K2, V>);

/// The multimap that files users under their username and their id.
pub type Users = MultiMap<String, i64, User>;

/// What a user multimap holds: for each username (the primary key), the id
/// it was filed with (the secondary key) and the user.
pub uninterp spec fn multimap_entries(m: Users) -> Map<Seq<char>, (i64, User)>;

/// A user multimap's secondary index: for each id, the username it leads
/// to.
pub uninterp spec fn multimap_index(m: Users) -> Map<i64, Seq<char>>;

/// multi_map's `MultiMap::new`: both of its maps start empty.
#[verifier::external_body]
fn multimap_new() -> (r: Users)
    ensures
        multimap_entries(r).dom() == Set::<Seq<char>>::empty(),
        multimap_index(r).dom() == Set::<i64>::empty(),
{
    MultiMap::new()
}

/// multi_map's `MultiMap::insert`: the index sends `id` to `name`, and
/// `name` holds `(id, user)`. Whatever either map held under those keys
/// before is overwritten; nothing else is touched, so an entry that `name`
/// had under another id leaves that id in the index, still leading to
/// `name`.
#[verifier::external_body]
fn multimap_insert(m: &mut Users, name: String, id: i64, user: User)
    ensures
        multimap_entries(*final(m)) == multimap_entries(*old(m)).insert(name@, (id, user)),
        multimap_index(*final(m)) == multimap_index(*old(m)).insert(id, name@),
{
    m.insert(name, id, user)
}

/// multi_map's `MultiMap::get`: the user filed under `name`.
#[verifier::external_body]
fn multimap_get<'a>(m: &'a Users, name: &String) -> (r: Option<&'a User>)
    ensures
        r is Some == multimap_entries(*m).contains_key(name@),
        r matches Some(u) ==> *u == multimap_entries(*m)[name@].1,
{
    m.get(name)
}

/// multi_map's `MultiMap::get_alt`: the user filed under the username that
/// the index sends `id` to, when the index has `id` and that username is
/// still filed.
#[verifier::external_body]
fn multimap_get_alt<'a>(m: &'a Users, id: &i64) -> (r: Option<&'a User>)
    ensures
        r is Some == (multimap_index(*m).contains_key(*id) && multimap_entries(*m).contains_key(
            multimap_index(*m)[*id],
        )),
        r matches Some(u) ==> *u == multimap_entries(*m)[multimap_index(*m)[*id]].1,
{
    m.get_alt(id)
}

/// multi_map's `MultiMap::get_mut`: the user filed under `name`, to change
/// in place; its id and the index stay as they were.
#[verifier::external_body]
fn multimap_get_mut<'a>(m: &'a mut Users, name: &String) -> (r: Option<&'a mut User>)
    ensures
        r is Some == multimap_entries(*old(m)).contains_key(name@),
        r matches Some(u) ==> *u == multimap_entries(*old(m))[name@].1 && multimap_entries(*final(m))
            == multimap_entries(*old(m)).insert(name@, (multimap_entries(*old(m))[name@].0, *final(u))),
        r is None ==> multimap_entries(*final(m)) == multimap_entries(*old(m)),
        multimap_index(*final(m)) == multimap_index(*old(m)),
{
    m.get_mut(name)
}

/// The registered users, by username and by id.
pub struct UserTable {
    table: Users,
}

impl View for UserTable {
    type V = Map<Seq<char>, User>;

    closed spec fn view(&self) -> Map<Seq<char>, User> {
        Map::new(
            |k: Seq<char>| multimap_entries(self.table).contains_key(k),
            |k: Seq<char>| multimap_entries(self.table)[k].1,
        )
    }
}

impl UserTable {
    /// For each id, the username that looking up by that id goes to.
    pub closed spec fn id_index(&self) -> Map<i64, Seq<char>> {
        multimap_index(self.table)
    }

    /// The user that looking up `id` finds: the one filed under the
    /// username that the index sends `id` to.
    pub open spec fn user_by_id(&self, id: i64) -> Option<User> {
        if self.id_index().contains_key(id) && self@.contains_key(self.id_index()[id]) {
            Some(self@[self.id_index()[id]])
        } else {
            None
        }
    }

    pub fn new() -> (t: Self)
        ensures
            t@ == Map::<Seq<char>, User>::empty(),
            t.id_index() == Map::<i64, Seq<char>>::empty(),
    {
        let t = UserTable { table: multimap_new() };
        assert(t@ =~= Map::<Seq<char>, User>::empty());
        t
    }

    /// Files `user` under its username and its id, replacing any user with
    /// that username.
    pub fn insert(&mut self, user: User)
        ensures
            final(self)@ == old(self)@.insert(user.spec_name(), user),
            final(self).id_index() == old(self).id_index().insert(user.spec_id(), user.spec_name()),
    {
        let name = user.username().clone();
        let id = user.id();
        multimap_insert(&mut self.table, name, id, user);
        assert(self@ =~= old(self)@.insert(user.spec_name(), user));
    }

    /// The user with this username.
    pub fn get(&self, name: &String) -> (r: Option<&User>)
        ensures
            r is Some == self@.contains_key(name@),
            r matches Some(u) ==> *u == self@[name@],
    {
        multimap_get(&self.table, name)
    }

    /// The user that looking up `id` finds.
    pub fn get_by_id(&self, id: i64) -> (r: Option<&User>)
        ensures
            r is Some == self.user_by_id(id) is Some,
            r matches Some(u) ==> Some(*u) == self.user_by_id(id),
    {
        multimap_get_alt(&self.table, &id)
    }

    /// The user with this username, to change in place.
    pub fn get_mut(&mut self, name: &String) -> (r: Option<&mut User>)
        ensures
            r is Some == old(self)@.contains_key(name@),
            r matches Some(u) ==> *u == old(self)@[name@] && final(self)@ == old(self)@.insert(name@, *final(u)),
            r is None ==> final(self)@ == old(self)@,
            final(self).id_index() == old(self).id_index(),
    {
        multimap_get_mut(&mut self.table, name)
    }
}

} // verus!
