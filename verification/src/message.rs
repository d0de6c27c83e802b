//! Chat messages as a channel's history reports them, and how the rows the
//! database returns (one per message and attachment) are grouped into them.

use vstd::prelude::*;
use crate::user_table::UserTable;
use crate::user::{User, UserInfo};

verus! {

#[derive(Debug)]
pub struct MessageAttachment {
    pub url: String,
    pub mime: String,
}

impl MessageAttachment {
    pub fn new(url: &str, mime: &str) -> (r: Self)
        ensures
            r.url@ == url@,
            r.mime@ == mime@,
    {
        MessageAttachment { url: url.to_owned(), mime: mime.to_owned() }
    }
}

#[derive(Debug)]
pub struct Message {
    pub message_id: i64,
    pub user: UserInfo,
    pub time: i64,
    pub nickname: String,
    pub content: String,
    pub attachments: Vec<MessageAttachment>,
}

impl Message {
    pub fn new(message_id: i64, user: &User, time: i64, nickname: &str, content: &str) -> (r: Self)
        ensures
            r.message_id == message_id,
            r.user.describes(user),
            r.time == time,
            r.nickname@ == nickname@,
            r.content@ == content@,
            r.attachments@.len() == 0,
    {
        Message {
            message_id,
            user: user.info(),
            time,
            nickname: nickname.to_owned(),
            content: content.to_owned(),
            attachments: Vec::new(),
        }
    }
}

/// One row of a channel's history: a message, joined with one of its
/// attachments when it has any.
#[derive(Debug)]
pub struct HistoryRow {
    pub message_id: i64,
    pub user_id: i64,
    pub time: i64,
    pub nickname: String,
    pub content: String,
    pub url: Option<String>,
    pub mime: Option<String>,
}

/// A message as plain values: id, sender's username, time, nickname,
/// content and attachments (url, mime).
pub type MessageView = (i64, Seq<char>, i64, Seq<char>, Seq<char>, Seq<(Seq<char>, Seq<char>)>);

pub open spec fn row_attachment(r: HistoryRow) -> Option<(Seq<char>, Seq<char>)> {
    match (r.url, r.mime) {
        (Some(u), Some(m)) => Some((u@, m@)),
        _ => None,
    }
}

/// The position of the (last) message with id `id`, if any.
pub open spec fn message_index(ms: Seq<MessageView>, id: i64) -> Option<int>
    decreases ms.len(),
{
    if ms.len() == 0 {
        None
    } else if ms.last().0 == id {
        Some(ms.len() - 1)
    } else {
        message_index(ms.drop_last(), id)
    }
}

/// The messages that `rows` make, in order of first appearance: rows whose
/// sender id finds no user in `users` are skipped; the first row of a
/// message makes it, sent by the user that its sender id finds, and every
/// row that names both a url and a mime adds that attachment to its
/// message.
pub open spec fn group_rows(rows: Seq<HistoryRow>, users: UserTable) -> Seq<MessageView>
    decreases rows.len(),
{
    if rows.len() == 0 {
        Seq::empty()
    } else {
        let prev = group_rows(rows.drop_last(), users);
        let r = rows.last();
        if users.user_by_id(r.user_id) is None {
            prev
        } else {
            match message_index(prev, r.message_id) {
                Some(j) => match row_attachment(r) {
                    Some(a) => prev.update(j, (prev[j].0, prev[j].1, prev[j].2, prev[j].3, prev[j].4, prev[j].5.push(a))),
                    None => prev,
                },
                None => prev.push(
                    (
                        r.message_id,
                        users.id_index()[r.user_id],
                        r.time,
                        r.nickname@,
                        r.content@,
                        match row_attachment(r) {
                            Some(a) => seq![a],
                            None => Seq::empty(),
                        },
                    ),
                ),
            }
        }
    }
}

/// A row that gives message `mid` an attachment: its sender id finds a
/// user, and it names both a url and a mime.
pub open spec fn gives_attachment(users: UserTable, mid: i64) -> spec_fn(HistoryRow) -> bool {
    |r: HistoryRow| r.message_id == mid && users.user_by_id(r.user_id) is Some && row_attachment(r) is Some
}

/// The (url, mime) pairs of all rows that give message `mid` an attachment,
/// in row order.
pub open spec fn attachment_rows(rows: Seq<HistoryRow>, users: UserTable, mid: i64) -> Seq<
    (Seq<char>, Seq<char>),
> {
    rows.filter(gives_attachment(users, mid)).map_values(|r: HistoryRow| row_attachment(r).unwrap())
}

/// Where `message_index` points.
pub proof fn lemma_message_index(ms: Seq<MessageView>, id: i64)
    ensures
        message_index(ms, id) matches Some(j) ==> 0 <= j < ms.len() && ms[j].0 == id,
        message_index(ms, id) is None ==> forall|t: int| 0 <= t < ms.len() ==> #[trigger] ms[t].0 != id,
    decreases ms.len(),
{
    if ms.len() > 0 && ms.last().0 != id {
        lemma_message_index(ms.drop_last(), id);
        assert forall|t: int| 0 <= t < ms.len() - 1 implies ms.drop_last()[t] == ms[t] by {}
    }
}

/// Adding a row at the end adds its attachment, if it gives one.
pub proof fn lemma_attachment_rows_push(rows: Seq<HistoryRow>, r: HistoryRow, users: UserTable, mid: i64)
    ensures
        attachment_rows(rows.push(r), users, mid) == (if gives_attachment(users, mid)(r) {
            attachment_rows(rows, users, mid).push(row_attachment(r).unwrap())
        } else {
            attachment_rows(rows, users, mid)
        }),
{
    let p = gives_attachment(users, mid);
    rows.lemma_filter_push(r, p);
    let f = |x: HistoryRow| row_attachment(x).unwrap();
    if p(r) {
        assert(rows.filter(p).push(r).map_values(f) =~= rows.filter(p).map_values(f).push(f(r)));
    }
}

/// Grouping keeps message ids distinct, makes a message for every row of a
/// registered sender, and gives each message exactly the attachments of its
/// rows, in row order.
pub proof fn lemma_group_rows(rows: Seq<HistoryRow>, users: UserTable)
    ensures
        forall|t1: int, t2: int|
            0 <= t1 < group_rows(rows, users).len() && 0 <= t2 < group_rows(rows, users).len() && t1 != t2
                ==> (#[trigger] group_rows(rows, users)[t1]).0 != (#[trigger] group_rows(rows, users)[t2]).0,
        forall|t: int|
            0 <= t < group_rows(rows, users).len() ==> (#[trigger] group_rows(rows, users)[t]).5
                == attachment_rows(rows, users, group_rows(rows, users)[t].0),
        forall|i: int|
            0 <= i < rows.len() && users.user_by_id((#[trigger] rows[i]).user_id) is Some ==> exists|t: int|
                0 <= t < group_rows(rows, users).len() && #[trigger] group_rows(rows, users)[t].0
                    == rows[i].message_id,
    decreases rows.len(),
{
    if rows.len() == 0 {
        return;
    }
    let p = rows.drop_last();
    let r = rows.last();
    lemma_group_rows(p, users);
    assert(rows =~= p.push(r));
    let g0 = group_rows(p, users);
    let g = group_rows(rows, users);
    assert forall|mid: i64| #[trigger] attachment_rows(rows, users, mid) == (if gives_attachment(users, mid)(r) {
        attachment_rows(p, users, mid).push(row_attachment(r).unwrap())
    } else {
        attachment_rows(p, users, mid)
    }) by {
        lemma_attachment_rows_push(p, r, users, mid);
    }
    if users.user_by_id(r.user_id) is None {
        assert(g == g0);
        assert forall|t: int| 0 <= t < g.len() implies (#[trigger] g[t]).5 == attachment_rows(rows, users, g[t].0) by {
            assert(!gives_attachment(users, g[t].0)(r));
        }
        assert forall|i: int|
            0 <= i < rows.len() && users.user_by_id((#[trigger] rows[i]).user_id) is Some implies exists|t: int| 0 <= t < g.len() && #[trigger] g[t].0 == rows[i].message_id by {
            assert(i < p.len());
            assert(p[i] == rows[i]);
        }
    } else {
        lemma_message_index(g0, r.message_id);
        match message_index(g0, r.message_id) {
            Some(j) => {
                assert forall|t: int| 0 <= t < g.len() implies (#[trigger] g[t]).5 == attachment_rows(rows, users, g[t].0) by {
                    if t != j {
                        assert(g[t] == g0[t]);
                        assert(g0[t].0 != g0[j].0);
                        assert(!gives_attachment(users, g[t].0)(r));
                    } else {
                        assert(g[t].0 == r.message_id);
                    }
                }
                assert forall|t1: int, t2: int|
                    0 <= t1 < g.len() && 0 <= t2 < g.len() && t1 != t2 implies (#[trigger] g[t1]).0 != (#[trigger] g[t2]).0 by {
                    assert(g[t1].0 == g0[t1].0);
                    assert(g[t2].0 == g0[t2].0);
                }
                assert forall|i: int|
                    0 <= i < rows.len() && users.user_by_id((#[trigger] rows[i]).user_id) is Some implies exists|t: int| 0 <= t < g.len() && #[trigger] g[t].0 == rows[i].message_id by {
                    if i < p.len() {
                        assert(p[i] == rows[i]);
                        let t = choose|t: int| 0 <= t < g0.len() && #[trigger] g0[t].0 == p[i].message_id;
                        assert(g[t].0 == g0[t].0);
                    } else {
                        assert(g[j].0 == g0[j].0);
                    }
                }
            },
            None => {
                let mid = r.message_id;
                assert(attachment_rows(p, users, mid) =~= Seq::<(Seq<char>, Seq<char>)>::empty()) by {
                    if attachment_rows(p, users, mid).len() > 0 {
                        let q = gives_attachment(users, mid);
                        broadcast use vstd::seq_lib::group_filter_ensures;
                        let x = p.filter(q)[0];
                        assert(p.filter(q).contains(x));
                        p.lemma_filter_contains_rev(q, x);
                        assert(p.contains(x));
                        let i = choose|i: int| 0 <= i < p.len() && p[i] == x;
                        assert(q(p[i]));
                        let t = choose|t: int| 0 <= t < g0.len() && #[trigger] g0[t].0 == p[i].message_id;
                        assert(g0[t].0 == mid);
                    }
                }
                assert forall|t: int| 0 <= t < g.len() implies (#[trigger] g[t]).5 == attachment_rows(rows, users, g[t].0) by {
                    if t < g0.len() {
                        assert(g[t] == g0[t]);
                        assert(g0[t].0 != mid);
                        assert(!gives_attachment(users, g[t].0)(r));
                    } else {
                        assert(g[t].0 == mid);
                        if row_attachment(r) is Some {
                            assert(attachment_rows(rows, users, mid) =~= seq![row_attachment(r).unwrap()]);
                        } else {
                            assert(attachment_rows(rows, users, mid) =~= Seq::<(Seq<char>, Seq<char>)>::empty());
                        }
                    }
                }
                assert forall|t1: int, t2: int|
                    0 <= t1 < g.len() && 0 <= t2 < g.len() && t1 != t2 implies (#[trigger] g[t1]).0 != (#[trigger] g[t2]).0 by {
                    if t1 < g0.len() && t2 < g0.len() {
                        assert(g[t1] == g0[t1]);
                        assert(g[t2] == g0[t2]);
                    } else if t1 < g0.len() {
                        assert(g[t1] == g0[t1]);
                    } else {
                        assert(g[t2] == g0[t2]);
                    }
                }
                assert forall|i: int|
                    0 <= i < rows.len() && users.user_by_id((#[trigger] rows[i]).user_id) is Some implies exists|t: int| 0 <= t < g.len() && #[trigger] g[t].0 == rows[i].message_id by {
                    if i < p.len() {
                        assert(p[i] == rows[i]);
                        let t = choose|t: int| 0 <= t < g0.len() && #[trigger] g0[t].0 == p[i].message_id;
                        assert(g[t] == g0[t]);
                    } else {
                        assert(g[g0.len() as int].0 == mid);
                    }
                }
            },
        }
    }
}

pub open spec fn attachment_views(a: Seq<MessageAttachment>) -> Seq<(Seq<char>, Seq<char>)> {
    a.map_values(|x: MessageAttachment| (x.url@, x.mime@))
}

pub open spec fn message_view(m: Message) -> MessageView {
    (m.message_id, m.user.username@, m.time, m.nickname@, m.content@, attachment_views(m.attachments@))
}

pub open spec fn message_views(ms: Seq<Message>) -> Seq<MessageView> {
    ms.map_values(|m: Message| message_view(m))
}

/// The position of the message with id `id` in `ms`, searching all of it.
fn find_message(ms: &Vec<Message>, id: i64) -> (r: Option<usize>)
    ensures
        r matches Some(i) ==> i < ms@.len() && message_index(message_views(ms@), id) == Some(i as int),
        r is None ==> message_index(message_views(ms@), id) is None,
{
    let mut found: Option<usize> = None;
    let n = ms.len();
    for i in 0..n
        invariant
            n == ms@.len(),
            found matches Some(f) ==> f < i && message_index(message_views(ms@).take(i as int), id) == Some(f as int),
            found is None ==> message_index(message_views(ms@).take(i as int), id) is None,
    {
        let ghost v = message_views(ms@);
        assert(v.take(i + 1).drop_last() =~= v.take(i as int));
        assert(v.take(i + 1).last() == message_view(ms@[i as int]));
        if ms[i].message_id == id {
            found = Some(i);
        }
    }
    assert(message_views(ms@).take(n as int) =~= message_views(ms@));
    found
}

/// Groups a channel's history rows into messages (see `group_rows`); each
/// message carries the registered user that its sender id finds.
pub fn group_history(rows: &Vec<HistoryRow>, users: &UserTable) -> (r: Vec<Message>)
    requires
        crate::channel::users_wf(*users),
    ensures
        message_views(r@) == group_rows(rows@, *users),
        forall|t: int|
            0 <= t < r@.len() ==> users@.contains_key((#[trigger] r@[t]).user.username@) && r@[t].user.describes(
                &users@[r@[t].user.username@],
            ),
        forall|t: int|
            0 <= t < r@.len() ==> attachment_views((#[trigger] r@[t]).attachments@) == attachment_rows(
                rows@,
                *users,
                r@[t].message_id,
            ),
        forall|t1: int, t2: int|
            0 <= t1 < r@.len() && 0 <= t2 < r@.len() && t1 != t2 ==> (#[trigger] r@[t1]).message_id
                != (#[trigger] r@[t2]).message_id,
{
    let mut out: Vec<Message> = Vec::new();
    let n = rows.len();
    for i in 0..n
        invariant
            n == rows@.len(),
            crate::channel::users_wf(*users),
            message_views(out@) == group_rows(rows@.take(i as int), *users),
            forall|t: int|
                0 <= t < out@.len() ==> users@.contains_key((#[trigger] out@[t]).user.username@)
                    && out@[t].user.describes(&users@[out@[t].user.username@]),
    {
        let ghost o0 = out@;
        let ghost prev = message_views(o0);
        let row = &rows[i];
        proof {
            assert(rows@.take(i + 1).drop_last() =~= rows@.take(i as int));
            assert(rows@.take(i + 1).last() == rows@[i as int]);
        }
        match users.get_by_id(row.user_id) {
            None => {},
            Some(user) => {
                let att = match (&row.url, &row.mime) {
                    (Some(u), Some(m)) => Some(MessageAttachment::new(u.as_str(), m.as_str())),
                    _ => None,
                };
                match find_message(&out, row.message_id) {
                    Some(j) => {
                        match att {
                            Some(a) => {
                                let ghost av = (a.url@, a.mime@);
                                let ghost before = out@[j as int];
                                out[j].attachments.push(a);
                                proof {
                                    assert(attachment_views(out@[j as int].attachments@) =~= attachment_views(
                                        before.attachments@,
                                    ).push(av));
                                    assert(message_views(out@) =~= prev.update(
                                        j as int,
                                        (prev[j as int].0, prev[j as int].1, prev[j as int].2, prev[j as int].3, prev[j as int].4, prev[j as int].5.push(av)),
                                    ));
                                    assert forall|t: int| 0 <= t < out@.len() implies users@.contains_key(
                                        (#[trigger] out@[t]).user.username@,
                                    ) && out@[t].user.describes(&users@[out@[t].user.username@]) by {
                                        assert(out@[t].user == o0[t].user);
                                    }
                                }
                            },
                            None => {},
                        }
                    },
                    None => {
                        let mut msg = Message::new(
                            row.message_id,
                            user,
                            row.time,
                            row.nickname.as_str(),
                            row.content.as_str(),
                        );
                        let ghost had = att is Some;
                        match att {
                            Some(a) => {
                                msg.attachments.push(a);
                            },
                            None => {},
                        }
                        let ghost mv = message_view(msg);
                        out.push(msg);
                        proof {
                            assert(message_views(out@) =~= prev.push(mv));
                            if had {
                                assert(mv.5 =~= seq![row_attachment(*row).unwrap()]);
                            } else {
                                assert(mv.5 =~= Seq::<(Seq<char>, Seq<char>)>::empty());
                            }
                            assert forall|t: int| 0 <= t < out@.len() implies users@.contains_key(
                                (#[trigger] out@[t]).user.username@,
                            ) && out@[t].user.describes(&users@[out@[t].user.username@]) by {
                                if t < o0.len() {
                                    assert(out@[t] == o0[t]);
                                }
                            }
                        }
                    },
                }
            },
        }
    }
    proof {
        assert(rows@.take(n as int) =~= rows@);
        lemma_group_rows(rows@, *users);
        let g = group_rows(rows@, *users);
        assert forall|t: int| 0 <= t < out@.len() implies attachment_views((#[trigger] out@[t]).attachments@)
            == attachment_rows(rows@, *users, out@[t].message_id) by {
            assert(message_views(out@)[t] == message_view(out@[t]));
            assert(g[t] == message_view(out@[t]));
        }
        assert forall|t1: int, t2: int|
            0 <= t1 < out@.len() && 0 <= t2 < out@.len() && t1 != t2 implies (#[trigger] out@[t1]).message_id
                != (#[trigger] out@[t2]).message_id by {
            assert(g[t1] == message_view(out@[t1]));
            assert(g[t2] == message_view(out@[t2]));
        }
    }
    out
}

} // verus!
