//! Properties that hold across the library's operations.

use vstd::prelude::*;
use crate::errors::{CommandError, close_code};
use crate::commands::{JsonFields, Credentials, credentials_of, lowercase};
use crate::server::{ChatServer, Departure, StatusUpdate, connected, disconnected, timed_out};
use crate::user::{
    ClientId, views_disjoint, start_viewing, without_viewer, stop_viewing, only_viewed,
    unviewed_channels,
};

verus! {

/// After a client starts viewing a channel it views that channel and no
/// other, and still no client views two channels.
pub proof fn law_viewing_is_exclusive(m: Map<Seq<char>, Set<ClientId>>, ch: Seq<char>, a: ClientId)
    requires
        views_disjoint(m),
    ensures
        start_viewing(m, ch, a).contains_key(ch),
        start_viewing(m, ch, a)[ch].contains(a),
        forall|k: Seq<char>|
            #[trigger] start_viewing(m, ch, a).contains_key(k) && k != ch ==> !start_viewing(m, ch, a)[k].contains(a),
        views_disjoint(start_viewing(m, ch, a)),
{
    let m2 = start_viewing(m, ch, a);
    assert forall|k1: Seq<char>, k2: Seq<char>, x: ClientId|
        m2.contains_key(k1) && m2.contains_key(k2) && k1 != k2 && #[trigger] m2[k1].contains(x)
        implies !#[trigger] m2[k2].contains(x) by {
        if x != a {
            if k1 == ch {
                assert(m.contains_key(ch) && m[ch].contains(x));
            } else if k2 == ch {
                assert(m[k1].contains(x));
            } else {
                assert(m[k1].contains(x));
            }
        }
    }
}

/// After a client stops viewing, it views nothing.
pub proof fn law_cleared_client_views_nothing(m: Map<Seq<char>, Set<ClientId>>, a: ClientId)
    ensures
        forall|k: Seq<char>|
            #[trigger] without_viewer(m, a).contains_key(k) ==> !without_viewer(m, a)[k].contains(a),
        without_viewer(m, a).dom() == m.dom(),
{
    assert(without_viewer(m, a).dom() =~= m.dom());
}

/// Stopping a client viewing a channel never makes it view another.
pub proof fn law_stop_viewing_adds_no_viewer(m: Map<Seq<char>, Set<ClientId>>, ch: Seq<char>, a: ClientId)
    ensures
        forall|k: Seq<char>, x: ClientId|
            #[trigger] stop_viewing(m, ch, a).contains_key(k) && #[trigger] stop_viewing(m, ch, a)[k].contains(
                x,
            ) ==> m.contains_key(k) && m[k].contains(x),
        !(stop_viewing(m, ch, a).contains_key(ch) && stop_viewing(m, ch, a)[ch].contains(a)),
{
}

/// Dropping the entries without viewers leaves none, so doing it again
/// drops nothing and changes nothing.
pub proof fn law_clearing_unviewed_is_idempotent(m: Map<Seq<char>, Set<ClientId>>)
    ensures
        unviewed_channels(only_viewed(m)) == Set::<Seq<char>>::empty(),
        only_viewed(only_viewed(m)) == only_viewed(m),
        only_viewed(m).dom() == m.dom().difference(unviewed_channels(m)),
{
    assert(unviewed_channels(only_viewed(m)) =~= Set::<Seq<char>>::empty());
    assert(only_viewed(only_viewed(m)) =~= only_viewed(m));
    assert(only_viewed(m).dom() =~= m.dom().difference(unviewed_channels(m)));
}

/// A client that has timed out at some time is timed out at every later
/// time too.
pub proof fn law_timeout_is_monotone(now: u64, later: u64, time: u64)
    requires
        timed_out(now, time),
        now <= later,
    ensures
        timed_out(later, time),
{
}

/// Different refusals get different close codes, all in 4000..=4011.
pub proof fn law_close_codes_distinct(e1: CommandError, e2: CommandError)
    ensures
        4000 <= close_code(e1) <= 4011,
        close_code(e1) == close_code(e2) <==> (e1 == e2 || (e1 is LoginDBMSError && e2 is LoginDBMSError)),
{
}

/// A client that identifies as a user and then disconnects leaves the
/// server as it found it, but for channel entries without viewers that the
/// user drops: the same identified clients, and the user with the same
/// connections and status. A status update goes out on disconnect exactly
/// when one went out on identification.
pub proof fn law_connect_disconnect_round_trip(
    s0: ChatServer,
    s1: ChatServer,
    s2: ChatServer,
    a: ClientId,
    name: Seq<char>,
    r1: Option<StatusUpdate>,
    r2: Option<Departure>,
)
    requires
        s0.wf(),
        !s0.conn_map().contains_key(a),
        s0.users_map().contains_key(name) ==> !s0.users_map()[name].connections().contains(a),
        connected(s0, s1, a, name, r1),
        disconnected(s1, s2, a, r2),
    ensures
        s2.conn_map() == s0.conn_map(),
        s2.unauth_map() == s0.unauth_map(),
        s2.channels_map() == s0.channels_map(),
        s2.users_map().dom() == s0.users_map().dom(),
        forall|n: Seq<char>|
            #[trigger] s0.users_map().contains_key(n) && n != name ==> s2.users_map()[n] == s0.users_map()[n],
        s0.users_map().contains_key(name) ==> {
            let u0 = s0.users_map()[name];
            let u2 = s2.users_map()[name];
            &&& u2.connections() == u0.connections()
            &&& u2.spec_status() == u0.spec_status()
            &&& u2.viewing() == only_viewed(without_viewer(u0.viewing(), a))
            &&& u2.spec_id() == u0.spec_id()
            &&& u2.spec_name() == u0.spec_name()
            &&& u2.spec_nickname() == u0.spec_nickname()
        },
        r2 matches Some(d) && (r1 is Some <==> d.status is Some),
{
    assert(s1.conn_map().contains_key(a) && s1.conn_map()[a] == name);
    assert(s2.conn_map() =~= s0.conn_map());
    if s0.users_map().contains_key(name) {
        s0.lemma_wf();
        let u0 = s0.users_map()[name];
        u0.lemma_online_iff_connected();
        assert(s2.users_map()[name].connections() =~= u0.connections());
    }
}

/// Login ignores letter case: two messages whose username and password
/// fields are present alike and lowercase alike give the same credentials,
/// or the same refusal.
pub proof fn law_login_ignores_case(
    j1: JsonFields,
    j2: JsonFields,
    r1: Result<Credentials, CommandError>,
    r2: Result<Credentials, CommandError>,
)
    requires
        credentials_of(j1, r1),
        credentials_of(j2, r2),
        j1.username is Some <==> j2.username is Some,
        j1.password is Some <==> j2.password is Some,
        j1.username matches Some(u1) ==> (j2.username matches Some(u2) ==> lowercase(u1@) == lowercase(u2@)),
        j1.password matches Some(p1) ==> (j2.password matches Some(p2) ==> lowercase(p1@) == lowercase(p2@)),
    ensures
        r1 is Ok <==> r2 is Ok,
        r1 matches Err(e1) ==> (r2 matches Err(e2) ==> e1 == e2),
        r1 matches Ok(c1) ==> (r2 matches Ok(c2) ==> c1.username@ == c2.username@ && c1.password@ == c2.password@),
{
}

/// Whether client `x` views channel `k` in viewing map `m`.
pub open spec fn views(m: Map<Seq<char>, Set<ClientId>>, k: Seq<char>, x: ClientId) -> bool {
    m.contains_key(k) && m[k].contains(x)
}

/// A client's change of view touches no other client: after `a` starts
/// viewing `ch`, stops viewing `ch`, or stops viewing altogether, every
/// other client views exactly the channels it viewed before. In particular
/// the channel that `a` starts viewing keeps all its other viewers.
pub proof fn law_viewing_change_touches_no_other_client(
    m: Map<Seq<char>, Set<ClientId>>,
    ch: Seq<char>,
    a: ClientId,
)
    ensures
        forall|k: Seq<char>, x: ClientId|
            x != a ==> (#[trigger] views(start_viewing(m, ch, a), k, x) <==> views(m, k, x)),
        forall|k: Seq<char>, x: ClientId|
            x != a ==> (#[trigger] views(stop_viewing(m, ch, a), k, x) <==> views(m, k, x)),
        forall|k: Seq<char>, x: ClientId|
            x != a ==> (#[trigger] views(without_viewer(m, a), k, x) <==> views(m, k, x)),
        views(start_viewing(m, ch, a), ch, a),
        !views(stop_viewing(m, ch, a), ch, a),
        forall|k: Seq<char>| !#[trigger] views(without_viewer(m, a), k, a),
{
}

} // verus!
