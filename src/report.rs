//! The statistics report of a chat: the stored totals merged with what is
//! still queued, with users and kinds ranked by activity.

use vstd::prelude::*;

use crate::stats::{cached_name, plus, queued, stats_wf, QueueEntry, Stats, StatsView};
use crate::stats_kind::StatsKind;
use crate::text::{int_text, push_int, string_of};

verus! {

/// A stored row of counts of a chat, with the name stored for its user.
pub struct StoredStat {
    pub user: i64,
    pub first_name: String,
    pub last_name: Option<String>,
    pub kind_id: i16,
    pub messages: u32,
    pub edits: u32,
}

/// The counts of one user of a chat.
pub struct UserTotal {
    pub name: String,
    pub user: i64,
    pub messages: u64,
    pub edits: u64,
}

/// The counts of one kind of message of one user.
#[derive(Clone, Copy, Debug, PartialEq, Eq, Structural)]
pub struct KindTotal {
    pub kind: StatsKind,
    pub messages: u64,
    pub edits: u64,
}

/// The statistics of a chat, and optionally of one of its users.
pub struct ChatStats {
    users: Vec<UserTotal>,
    specific: Option<Vec<KindTotal>>,
    total_messages: u64,
    total_edits: u64,
    since: Option<i64>,
}

/// `x`, or the largest `u64` when it does not fit.
pub open spec fn clamp(x: int) -> int {
    if x > u64::MAX {
        u64::MAX as int
    } else {
        x
    }
}

/// The stored (messages, edits) of user `u`, summed over the rows.
pub open spec fn row_sum(rows: Seq<StoredStat>, u: i64) -> (int, int)
    decreases rows.len(),
{
    if rows.len() == 0 {
        (0, 0)
    } else {
        plus(
            row_sum(rows.drop_last(), u),
            if rows.last().user == u {
                (rows.last().messages as int, rows.last().edits as int)
            } else {
                (0, 0)
            },
        )
    }
}

/// The queued (messages, edits) of user `u` in `chat`.
pub open spec fn queue_sum(q: Seq<QueueEntry>, chat: i64, u: i64) -> (int, int)
    decreases q.len(),
{
    if q.len() == 0 {
        (0, 0)
    } else {
        plus(
            queue_sum(q.drop_last(), chat, u),
            if q.last().chat == chat && q.last().user == u {
                (q.last().messages as int, q.last().edits as int)
            } else {
                (0, 0)
            },
        )
    }
}

/// The first name in the last row of user `u`, if any.
pub open spec fn row_first_name(rows: Seq<StoredStat>, u: i64) -> Option<Seq<char>>
    decreases rows.len(),
{
    if rows.len() == 0 {
        None
    } else if rows.last().user == u {
        Some(rows.last().first_name@)
    } else {
        row_first_name(rows.drop_last(), u)
    }
}

/// Whether user `u` has counts queued in `chat`.
pub open spec fn has_queued(q: Seq<QueueEntry>, chat: i64, u: i64) -> bool {
    exists|i: int| 0 <= i < q.len() && q[i].chat == chat && q[i].user == u
}

/// Whether user `u` has a stored row.
pub open spec fn has_row(rows: Seq<StoredStat>, u: i64) -> bool {
    exists|i: int| 0 <= i < rows.len() && rows[i].user == u
}

/// The name under which user `u` is shown: the name cached since the last
/// flush when the user has queued counts, else the stored name, else the id.
pub open spec fn display_name(rows: Seq<StoredStat>, s: StatsView, chat: i64, u: i64) -> Seq<
    char,
> {
    match cached_name(s.names, u) {
        Some(name) if has_queued(s.queue, chat, u) => name.0,
        _ => match row_first_name(rows, u) {
            Some(n) => n,
            None => int_text(u as int),
        },
    }
}

/// Whether `users` has a line for user `u`.
pub open spec fn has_line(users: Seq<UserTotal>, u: i64) -> bool {
    exists|j: int| 0 <= j < users.len() && users[j].user == u
}

/// Users ranked by messages plus edits, most active first.
pub open spec fn users_ranked(users: Seq<UserTotal>) -> bool {
    forall|i: int, j: int|
        0 <= i < j < users.len() ==> (#[trigger] users[i]).messages + users[i].edits >= (
        #[trigger] users[j]).messages + users[j].edits
}

/// The report line of user `u`, as the report must hold it.
pub open spec fn user_line_ok(
    t: UserTotal,
    rows: Seq<StoredStat>,
    s: StatsView,
    chat: i64,
    u: i64,
) -> bool {
    &&& t.user == u
    &&& t.messages == clamp(plus(row_sum(rows, u), queue_sum(s.queue, chat, u)).0)
    &&& t.edits == clamp(plus(row_sum(rows, u), queue_sum(s.queue, chat, u)).1)
    &&& t.name@ == display_name(rows, s, chat, u)
}

/// The stored (messages, edits) of all rows, summed.
pub open spec fn all_rows_sum(rows: Seq<StoredStat>) -> (int, int)
    decreases rows.len(),
{
    if rows.len() == 0 {
        (0, 0)
    } else {
        plus(all_rows_sum(rows.drop_last()), (rows.last().messages as int, rows.last().edits as int))
    }
}

/// The queued (messages, edits) of `chat`, summed.
pub open spec fn chat_queue_sum(q: Seq<QueueEntry>, chat: i64) -> (int, int)
    decreases q.len(),
{
    if q.len() == 0 {
        (0, 0)
    } else {
        plus(
            chat_queue_sum(q.drop_last(), chat),
            if q.last().chat == chat {
                (q.last().messages as int, q.last().edits as int)
            } else {
                (0, 0)
            },
        )
    }
}

fn sat(a: u64, b: u32) -> (r: u64)
    ensures
        r == clamp(a + b),
{
    a.saturating_add(b as u64)
}

/// Whether `ids` holds `u`.
fn has_id(ids: &Vec<i64>, u: i64) -> (r: bool)
    ensures
        r == ids@.contains(u),
{
    let mut i: usize = 0;
    while i < ids.len()
        invariant
            i <= ids.len(),
            forall|j: int| 0 <= j < i ==> ids@[j] != u,
        decreases ids.len() - i,
    {
        if ids[i] == u {
            return true;
        }
        i = i + 1;
    }
    false
}

proof fn lemma_push_contains(s: Seq<i64>, x: i64, v: i64)
    ensures
        s.push(x).contains(v) <==> (s.contains(v) || v == x),
{
    if s.contains(v) {
        let w = choose|w: int| 0 <= w < s.len() && s[w] == v;
        assert(s.push(x)[w] == v);
    }
    if v == x {
        assert(s.push(x)[s.len() as int] == v);
    }
    if s.push(x).contains(v) && v != x {
        let w = choose|w: int| 0 <= w < s.len() + 1 && s.push(x)[w] == v;
        assert(s[w] == v);
    }
}

/// The users of the report: those with stored rows or queued counts in `chat`,
/// each once.
fn report_users(rows: &Vec<StoredStat>, q: &Vec<QueueEntry>, chat: i64) -> (ids: Vec<i64>)
    ensures
        forall|a: int, b: int| 0 <= a < b < ids.len() ==> ids@[a] != ids@[b],
        forall|u: i64| #[trigger]
            ids@.contains(u) <==> (has_row(rows@, u) || has_queued(q@, chat, u)),
{
    let mut ids: Vec<i64> = Vec::new();
    let mut i: usize = 0;
    while i < rows.len()
        invariant
            i <= rows.len(),
            forall|a: int, b: int| 0 <= a < b < ids.len() ==> ids@[a] != ids@[b],
            forall|u: i64| #[trigger]
                ids@.contains(u) <==> exists|t: int| 0 <= t < i && rows@[t].user == u,
        decreases rows.len() - i,
    {
        let u = rows[i].user;
        let ghost before = ids@;
        if !has_id(&ids, u) {
            ids.push(u);
        }
        proof {
            assert forall|v: i64| #[trigger]
                ids@.contains(v) <==> exists|t: int| 0 <= t < i + 1 && rows@[t].user == v by {
                lemma_push_contains(before, u, v);
                if v == u {
                    assert(rows@[i as int].user == v);
                }
                if exists|t: int| 0 <= t < i + 1 && rows@[t].user == v {
                    let t = choose|t: int| 0 <= t < i + 1 && rows@[t].user == v;
                    if t < i {
                        assert(before.contains(v));
                    }
                }
            }
        }
        i = i + 1;
    }
    let mut j: usize = 0;
    while j < q.len()
        invariant
            j <= q.len(),
            forall|a: int, b: int| 0 <= a < b < ids.len() ==> ids@[a] != ids@[b],
            forall|u: i64| #[trigger]
                ids@.contains(u) <==> (has_row(rows@, u) || exists|t: int|
                    0 <= t < j && q@[t].chat == chat && q@[t].user == u),
        decreases q.len() - j,
    {
        let e = q[j];
        let ghost before = ids@;
        if e.chat == chat && !has_id(&ids, e.user) {
            ids.push(e.user);
        }
        proof {
            assert forall|v: i64| #[trigger]
                ids@.contains(v) <==> (has_row(rows@, v) || exists|t: int|
                    0 <= t < j + 1 && q@[t].chat == chat && q@[t].user == v) by {
                lemma_push_contains(before, e.user, v);
                if e.chat == chat && v == e.user {
                    assert(q@[j as int].chat == chat && q@[j as int].user == v);
                }
                if exists|t: int| 0 <= t < j + 1 && q@[t].chat == chat && q@[t].user == v {
                    let t = choose|t: int| 0 <= t < j + 1 && q@[t].chat == chat && q@[t].user == v;
                    if t < j {
                        assert(before.contains(v));
                    }
                }
            }
        }
        j = j + 1;
    }
    ids
}

/// The stored (messages, edits) of user `u` for the kind stored as `id`.
pub open spec fn kind_row_sum(rows: Seq<StoredStat>, u: i64, id: i16) -> (int, int)
    decreases rows.len(),
{
    if rows.len() == 0 {
        (0, 0)
    } else {
        plus(
            kind_row_sum(rows.drop_last(), u, id),
            if rows.last().user == u && rows.last().kind_id == id {
                (rows.last().messages as int, rows.last().edits as int)
            } else {
                (0, 0)
            },
        )
    }
}

/// Whether user `u` has stored or queued counts of `kind` in `chat`.
pub open spec fn kind_present(
    rows: Seq<StoredStat>,
    q: Seq<QueueEntry>,
    chat: i64,
    u: i64,
    kind: StatsKind,
) -> bool {
    ||| exists|i: int| 0 <= i < rows.len() && rows[i].user == u && rows[i].kind_id == kind.spec_id()
    ||| exists|i: int|
        0 <= i < q.len() && q[i].chat == chat && q[i].user == u && q[i].kind == kind
}

/// The (messages, edits) of `kind` for user `u` in `chat`, stored and queued.
pub open spec fn kind_total(
    rows: Seq<StoredStat>,
    q: Seq<QueueEntry>,
    chat: i64,
    u: i64,
    kind: StatsKind,
) -> (int, int) {
    plus(kind_row_sum(rows, u, kind.spec_id()), queued(q, (chat, u, kind)))
}

/// Kinds ranked by messages plus edits, most active first.
pub open spec fn kinds_ranked(ks: Seq<KindTotal>) -> bool {
    forall|i: int, j: int|
        0 <= i < j < ks.len() ==> (#[trigger] ks[i]).messages + ks[i].edits >= (
        #[trigger] ks[j]).messages + ks[j].edits
}

/// The per-kind report of user `u`: `None` when the user has no counts of any
/// kind; else each kind with a non-zero total, once, ranked.
pub open spec fn specific_ok(
    r: Option<Seq<KindTotal>>,
    rows: Seq<StoredStat>,
    q: Seq<QueueEntry>,
    chat: i64,
    u: i64,
) -> bool {
    match r {
        None => forall|k: StatsKind| !kind_present(rows, q, chat, u, k),
        Some(ks) => {
            &&& exists|k: StatsKind| kind_present(rows, q, chat, u, k)
            &&& kinds_ranked(ks)
            &&& forall|a: int, b: int| 0 <= a < b < ks.len() ==> ks[a].kind != ks[b].kind
            &&& forall|j: int| #![trigger ks[j]]
                0 <= j < ks.len() ==> {
                    &&& ks[j].messages == clamp(kind_total(rows, q, chat, u, ks[j].kind).0)
                    &&& ks[j].edits == clamp(kind_total(rows, q, chat, u, ks[j].kind).1)
                    &&& ks[j].messages + ks[j].edits > 0
                }
            &&& forall|k: StatsKind|
                kind_present(rows, q, chat, u, k) && kind_total(rows, q, chat, u, k).0
                    + kind_total(rows, q, chat, u, k).1 > 0 ==> exists|j: int|
                    0 <= j < ks.len() && ks[j].kind == k
        },
    }
}

proof fn lemma_clamp_step(x: int, b: int)
    requires
        x >= 0,
        b >= 0,
    ensures
        clamp(clamp(x) + b) == clamp(x + b),
{
}

/// The totals line of user `u`.
fn user_line(rows: &Vec<StoredStat>, stats: &Stats, chat: i64, u: i64) -> (t: UserTotal)
    requires
        stats_wf(stats@),
    ensures
        user_line_ok(t, rows@, stats@, chat, u),
{
    let q = stats.queue();
    let mut m: u64 = 0;
    let mut e: u64 = 0;
    let mut row_name: Option<String> = None;
    let mut i: usize = 0;
    while i < rows.len()
        invariant
            i <= rows.len(),
            m == clamp(row_sum(rows@.subrange(0, i as int), u).0),
            e == clamp(row_sum(rows@.subrange(0, i as int), u).1),
            row_sum(rows@.subrange(0, i as int), u).0 >= 0,
            row_sum(rows@.subrange(0, i as int), u).1 >= 0,
            match row_name {
                Some(n) => row_first_name(rows@.subrange(0, i as int), u) == Some(n@),
                None => row_first_name(rows@.subrange(0, i as int), u) is None,
            },
        decreases rows.len() - i,
    {
        assert(rows@.subrange(0, i + 1).drop_last() =~= rows@.subrange(0, i as int));
        if rows[i].user == u {
            proof {
                lemma_clamp_step(row_sum(rows@.subrange(0, i as int), u).0, rows@[i as int].messages as int);
                lemma_clamp_step(row_sum(rows@.subrange(0, i as int), u).1, rows@[i as int].edits as int);
            }
            m = sat(m, rows[i].messages);
            e = sat(e, rows[i].edits);
            row_name = Some(rows[i].first_name.clone());
        }
        i = i + 1;
    }
    assert(rows@.subrange(0, rows.len() as int) =~= rows@);
    let mut found = false;
    let mut j: usize = 0;
    assert(q@.subrange(0, 0) =~= Seq::<QueueEntry>::empty());
    while j < q.len()
        invariant
            j <= q.len(),
            q@ == stats@.queue,
            m == clamp(row_sum(rows@, u).0 + queue_sum(q@.subrange(0, j as int), chat, u).0),
            e == clamp(row_sum(rows@, u).1 + queue_sum(q@.subrange(0, j as int), chat, u).1),
            row_sum(rows@, u).0 + queue_sum(q@.subrange(0, j as int), chat, u).0 >= 0,
            row_sum(rows@, u).1 + queue_sum(q@.subrange(0, j as int), chat, u).1 >= 0,
            found <==> exists|t: int| 0 <= t < j && q@[t].chat == chat && q@[t].user == u,
        decreases q.len() - j,
    {
        assert(q@.subrange(0, j + 1).drop_last() =~= q@.subrange(0, j as int));
        let x = q[j];
        if x.chat == chat && x.user == u {
            proof {
                lemma_clamp_step(
                    row_sum(rows@, u).0 + queue_sum(q@.subrange(0, j as int), chat, u).0,
                    x.messages as int,
                );
                lemma_clamp_step(
                    row_sum(rows@, u).1 + queue_sum(q@.subrange(0, j as int), chat, u).1,
                    x.edits as int,
                );
            }
            m = sat(m, x.messages);
            e = sat(e, x.edits);
            found = true;
        }
        j = j + 1;
    }
    assert(q@.subrange(0, q.len() as int) =~= q@);
    let cached = stats.cached(u);
    let name = match cached {
        Some(n) if found => n.first_name,
        _ => match row_name {
            Some(n) => n,
            None => {
                let mut digits: Vec<char> = Vec::new();
                push_int(&mut digits, u);
                assert(digits@ =~= int_text(u as int));
                string_of(&digits)
            },
        },
    };
    UserTotal { name, user: u, messages: m, edits: e }
}

/// Inserts `t` after every line at least as active, keeping the ranking.
fn insert_ranked(users: &mut Vec<UserTotal>, t: UserTotal) -> (p: usize)
    requires
        users_ranked(old(users)@),
    ensures
        users_ranked(final(users)@),
        p <= old(users)@.len(),
        final(users)@ == old(users)@.insert(p as int, t),
{
    let tw = t.messages as u128 + t.edits as u128;
    let mut p: usize = 0;
    while p < users.len() && users[p].messages as u128 + users[p].edits as u128 >= tw
        invariant
            p <= users.len(),
            tw == t.messages + t.edits,
            forall|j: int| 0 <= j < p ==> users@[j].messages + users@[j].edits >= t.messages + t.edits,
        decreases users.len() - p,
    {
        assert(users@[p as int].messages + users@[p as int].edits >= t.messages + t.edits);
        p = p + 1;
    }
    let ghost before = users@;
    users.insert(p, t);
    proof {
        before.insert_ensures(p as int, t);
        assert forall|i: int, j: int| 0 <= i < j < users@.len() implies (
        #[trigger] users@[i]).messages + users@[i].edits >= (#[trigger] users@[j]).messages
            + users@[j].edits by {
            if i < p {
                assert(users@[i] == before[i]);
            } else if i > p {
                assert(users@[i] == before[i - 1]);
            }
            if j < p {
                assert(users@[j] == before[j]);
            } else if j > p {
                assert(users@[j] == before[j - 1]);
                if i == p && p < before.len() {
                    assert(before[p as int].messages + before[p as int].edits < t.messages + t.edits);
                    assert(before[p as int].messages + before[p as int].edits >= before[j - 1].messages + before[j - 1].edits || p == j - 1);
                }
            }
        }
    }
    p
}

/// Inserts `t` after every line at least as active, keeping the ranking.
fn insert_kind_ranked(ks: &mut Vec<KindTotal>, t: KindTotal) -> (p: usize)
    requires
        kinds_ranked(old(ks)@),
    ensures
        kinds_ranked(final(ks)@),
        p <= old(ks)@.len(),
        final(ks)@ == old(ks)@.insert(p as int, t),
{
    let tw = t.messages as u128 + t.edits as u128;
    let mut p: usize = 0;
    while p < ks.len() && ks[p].messages as u128 + ks[p].edits as u128 >= tw
        invariant
            p <= ks.len(),
            tw == t.messages + t.edits,
            forall|j: int| 0 <= j < p ==> ks@[j].messages + ks@[j].edits >= t.messages + t.edits,
        decreases ks.len() - p,
    {
        assert(ks@[p as int].messages + ks@[p as int].edits >= t.messages + t.edits);
        p = p + 1;
    }
    let ghost before = ks@;
    ks.insert(p, t);
    proof {
        before.insert_ensures(p as int, t);
        assert forall|i: int, j: int| 0 <= i < j < ks@.len() implies (
        #[trigger] ks@[i]).messages + ks@[i].edits >= (#[trigger] ks@[j]).messages
            + ks@[j].edits by {
            if i < p {
                assert(ks@[i] == before[i]);
            } else if i > p {
                assert(ks@[i] == before[i - 1]);
            }
            if j < p {
                assert(ks@[j] == before[j]);
            } else if j > p {
                assert(ks@[j] == before[j - 1]);
                if i == p && p < before.len() {
                    assert(before[p as int].messages + before[p as int].edits < t.messages + t.edits);
                    assert(before[p as int].messages + before[p as int].edits >= before[j - 1].messages + before[j - 1].edits || p == j - 1);
                }
            }
        }
    }
    p
}

/// Every kind, in the order of their identifiers.
fn all_kinds() -> (v: Vec<StatsKind>)
    ensures
        forall|k: StatsKind| #[trigger] v@.contains(k),
        forall|a: int, b: int| 0 <= a < b < v.len() ==> v@[a] != v@[b],
{
    let mut v: Vec<StatsKind> = Vec::new();
    v.push(StatsKind::Text);
    v.push(StatsKind::Command);
    v.push(StatsKind::Audio);
    v.push(StatsKind::Document);
    v.push(StatsKind::Gif);
    v.push(StatsKind::Photo);
    v.push(StatsKind::Sticker);
    v.push(StatsKind::Video);
    v.push(StatsKind::Voice);
    v.push(StatsKind::VideoNote);
    v.push(StatsKind::Contact);
    v.push(StatsKind::Location);
    v.push(StatsKind::Venue);
    v.push(StatsKind::ChatTitle);
    v.push(StatsKind::ChatPhoto);
    v.push(StatsKind::PinnedMessage);
    v.push(StatsKind::Forward);
    proof {
        assert forall|k: StatsKind| #[trigger] v@.contains(k) by {
            match k {
            StatsKind::Text => assert(v@[0] == k),
            StatsKind::Command => assert(v@[1] == k),
            StatsKind::Audio => assert(v@[2] == k),
            StatsKind::Document => assert(v@[3] == k),
            StatsKind::Gif => assert(v@[4] == k),
            StatsKind::Photo => assert(v@[5] == k),
            StatsKind::Sticker => assert(v@[6] == k),
            StatsKind::Video => assert(v@[7] == k),
            StatsKind::Voice => assert(v@[8] == k),
            StatsKind::VideoNote => assert(v@[9] == k),
            StatsKind::Contact => assert(v@[10] == k),
            StatsKind::Location => assert(v@[11] == k),
            StatsKind::Venue => assert(v@[12] == k),
            StatsKind::ChatTitle => assert(v@[13] == k),
            StatsKind::ChatPhoto => assert(v@[14] == k),
            StatsKind::PinnedMessage => assert(v@[15] == k),
            StatsKind::Forward => assert(v@[16] == k),
            }
        }
        assert forall|a: int, b: int| 0 <= a < b < v.len() implies v@[a] != v@[b] by {
            assert(v@[a].spec_id() == a + 1);
            assert(v@[b].spec_id() == b + 1);
        }
    }
    v
}

/// The (messages, edits) of `kind` for user `u`, and whether there are any.
fn kind_line(rows: &Vec<StoredStat>, stats: &Stats, chat: i64, u: i64, kind: StatsKind) -> (r: (
    KindTotal,
    bool,
))
    requires
        stats_wf(stats@),
    ensures
        r.0.kind == kind,
        r.0.messages == clamp(kind_total(rows@, stats@.queue, chat, u, kind).0),
        r.0.edits == clamp(kind_total(rows@, stats@.queue, chat, u, kind).1),
        r.1 == kind_present(rows@, stats@.queue, chat, u, kind),
{
    let id = kind.id();
    let mut m: u64 = 0;
    let mut e: u64 = 0;
    let mut present = false;
    let mut i: usize = 0;
    while i < rows.len()
        invariant
            i <= rows.len(),
            id == kind.spec_id(),
            m == clamp(kind_row_sum(rows@.subrange(0, i as int), u, id).0),
            e == clamp(kind_row_sum(rows@.subrange(0, i as int), u, id).1),
            kind_row_sum(rows@.subrange(0, i as int), u, id).0 >= 0,
            kind_row_sum(rows@.subrange(0, i as int), u, id).1 >= 0,
            present <==> exists|t: int| 0 <= t < i && rows@[t].user == u && rows@[t].kind_id == id,
        decreases rows.len() - i,
    {
        assert(rows@.subrange(0, i + 1).drop_last() =~= rows@.subrange(0, i as int));
        if rows[i].user == u && rows[i].kind_id == id {
            proof {
                lemma_clamp_step(kind_row_sum(rows@.subrange(0, i as int), u, id).0, rows@[i as int].messages as int);
                lemma_clamp_step(kind_row_sum(rows@.subrange(0, i as int), u, id).1, rows@[i as int].edits as int);
            }
            m = sat(m, rows[i].messages);
            e = sat(e, rows[i].edits);
            present = true;
        }
        i = i + 1;
    }
    assert(rows@.subrange(0, rows.len() as int) =~= rows@);
    let (qm, qe) = stats.pending(chat, u, kind);
    proof {
        crate::stats::lemma_queued_unique(stats@.queue, (chat, u, kind));
        lemma_clamp_step(kind_row_sum(rows@, u, id).0, qm as int);
        lemma_clamp_step(kind_row_sum(rows@, u, id).1, qe as int);
        if exists|t: int| 0 <= t < stats@.queue.len() && stats@.queue[t].chat == chat
            && stats@.queue[t].user == u && stats@.queue[t].kind == kind {
            let t = choose|t: int| 0 <= t < stats@.queue.len() && stats@.queue[t].chat == chat
                && stats@.queue[t].user == u && stats@.queue[t].kind == kind;
            assert(crate::stats::key_of(stats@.queue[t]) == (chat, u, kind));
        }
    }
    let q = stats.queue();
    let queued_here = match crate::stats::find_entry(q, chat, u, kind) {
        Some(_) => true,
        None => false,
    };
    (KindTotal { kind, messages: sat(m, qm), edits: sat(e, qe) }, present || queued_here)
}

/// The per-kind report of user `u` in `chat`.
#[verifier::rlimit(60)]
fn kind_specifics(rows: &Vec<StoredStat>, stats: &Stats, chat: i64, u: i64) -> (r: Option<
    Vec<KindTotal>,
>)
    requires
        stats_wf(stats@),
    ensures
        specific_ok(
            match r {
                Some(v) => Some(v@),
                None => None,
            },
            rows@,
            stats@.queue,
            chat,
            u,
        ),
{
    let all = all_kinds();
    let ghost q = stats@.queue;
    let mut ks: Vec<KindTotal> = Vec::new();
    let mut any = false;
    let mut i: usize = 0;
    while i < all.len()
        invariant
            i <= all.len(),
            q == stats@.queue,
            stats_wf(stats@),
            forall|k: StatsKind| #[trigger] all@.contains(k),
            forall|a: int, b: int| 0 <= a < b < all.len() ==> all@[a] != all@[b],
            kinds_ranked(ks@),
            forall|a: int, b: int| 0 <= a < b < ks.len() ==> ks@[a].kind != ks@[b].kind,
            forall|j: int| #![trigger ks@[j]]
                0 <= j < ks.len() ==> {
                    &&& ks@[j].messages == clamp(kind_total(rows@, q, chat, u, ks@[j].kind).0)
                    &&& ks@[j].edits == clamp(kind_total(rows@, q, chat, u, ks@[j].kind).1)
                    &&& ks@[j].messages + ks@[j].edits > 0
                    &&& all@.subrange(0, i as int).contains(ks@[j].kind)
                },
            forall|t: int| #![trigger all@[t]]
                0 <= t < i && kind_present(rows@, q, chat, u, all@[t]) && kind_total(
                    rows@,
                    q,
                    chat,
                    u,
                    all@[t],
                ).0 + kind_total(rows@, q, chat, u, all@[t]).1 > 0 ==> exists|j: int|
                    0 <= j < ks.len() && ks@[j].kind == all@[t],
            any <==> exists|t: int| 0 <= t < i && kind_present(rows@, q, chat, u, all@[t]),
        decreases all.len() - i,
    {
        let kind = all[i];
        let (line, present) = kind_line(rows, stats, chat, u, kind);
        let ghost before = ks@;
        if present {
            any = true;
            if line.messages > 0 || line.edits > 0 {
                let p = insert_kind_ranked(&mut ks, line);
                proof {
                    before.insert_ensures(p as int, line);
                    assert forall|a: int, b: int| 0 <= a < b < ks.len() implies ks@[a].kind
                        != ks@[b].kind by {
                        if a != p && b != p {
                            let a0 = if a < p { a } else { a - 1 };
                            let b0 = if b < p { b } else { b - 1 };
                            assert(ks@[a] == before[a0] && ks@[b] == before[b0]);
                        } else {
                            let o = if a == p { b } else { a };
                            let o0 = if o < p { o } else { o - 1 };
                            assert(ks@[o] == before[o0]);
                            assert(all@.subrange(0, i as int).contains(before[o0].kind));
                            let w = choose|w: int| 0 <= w < i && all@.subrange(0, i as int)[w] == before[o0].kind;
                            assert(all@[w] == before[o0].kind);
                        }
                    }
                    assert forall|j: int| #![trigger ks@[j]]
                        0 <= j < ks.len() implies {
                            &&& ks@[j].messages == clamp(kind_total(rows@, q, chat, u, ks@[j].kind).0)
                            &&& ks@[j].edits == clamp(kind_total(rows@, q, chat, u, ks@[j].kind).1)
                            &&& ks@[j].messages + ks@[j].edits > 0
                            &&& all@.subrange(0, i + 1).contains(ks@[j].kind)
                        } by {
                        if j == p {
                            assert(all@.subrange(0, i + 1)[i as int] == kind);
                        } else {
                            let j0 = if j < p { j } else { j - 1 };
                            assert(ks@[j] == before[j0]);
                            let w = choose|w: int| 0 <= w < i && all@.subrange(0, i as int)[w] == before[j0].kind;
                            assert(all@.subrange(0, i + 1)[w] == before[j0].kind);
                        }
                    }
                    assert forall|t: int| #![trigger all@[t]]
                        0 <= t < i + 1 && kind_present(rows@, q, chat, u, all@[t]) && kind_total(
                            rows@,
                            q,
                            chat,
                            u,
                            all@[t],
                        ).0 + kind_total(rows@, q, chat, u, all@[t]).1 > 0 implies exists|j: int|
                            0 <= j < ks.len() && ks@[j].kind == all@[t] by {
                        if t == i {
                            assert(ks@[p as int].kind == all@[t]);
                        } else {
                            let j0 = choose|j: int| 0 <= j < before.len() && before[j].kind == all@[t];
                            let j1 = if j0 < p { j0 } else { j0 + 1 };
                            assert(ks@[j1] == before[j0]);
                        }
                    }
                }
            }
        }
        proof {
            assert forall|j: int| #![trigger ks@[j]]
                0 <= j < ks.len() implies all@.subrange(0, i + 1).contains(ks@[j].kind) by {
                if ks@ == before {
                    let w = choose|w: int| 0 <= w < i && all@.subrange(0, i as int)[w] == ks@[j].kind;
                    assert(all@.subrange(0, i + 1)[w] == ks@[j].kind);
                }
            }
            if !present {
                assert(!kind_present(rows@, q, chat, u, all@[i as int]));
            }
            if present && !(line.messages > 0 || line.edits > 0) {
                assert(kind_total(rows@, q, chat, u, kind).0 == 0);
            }
            assert(any <==> exists|t: int| 0 <= t < i + 1 && kind_present(rows@, q, chat, u, all@[t])) by {
                if present {
                    assert(kind_present(rows@, q, chat, u, all@[i as int]));
                }
            }
        }
        i = i + 1;
    }
    if any {
        proof {
            let t = choose|t: int| 0 <= t < all.len() && kind_present(rows@, q, chat, u, all@[t]);
            assert(kind_present(rows@, q, chat, u, all@[t]));
            assert forall|k: StatsKind|
                kind_present(rows@, q, chat, u, k) && kind_total(rows@, q, chat, u, k).0
                    + kind_total(rows@, q, chat, u, k).1 > 0 implies exists|j: int|
                    0 <= j < ks.len() && ks@[j].kind == k by {
                assert(all@.contains(k));
                let w = choose|w: int| 0 <= w < all.len() && all@[w] == k;
                assert(all@[w] == k);
            }
        }
        Some(ks)
    } else {
        proof {
            assert forall|k: StatsKind| !kind_present(rows@, q, chat, u, k) by {
                assert(all@.contains(k));
                let w = choose|w: int| 0 <= w < all.len() && all@[w] == k;
                assert(all@[w] == k);
            }
        }
        None
    }
}

/// What a chat report holds.
pub struct ChatStatsView {
    pub users: Seq<UserTotal>,
    pub specific: Option<Seq<KindTotal>>,
    pub total_messages: u64,
    pub total_edits: u64,
    pub since: Option<i64>,
}

impl View for ChatStats {
    type V = ChatStatsView;

    closed spec fn view(&self) -> ChatStatsView {
        ChatStatsView {
            users: self.users@,
            specific: match self.specific {
                Some(v) => Some(v@),
                None => None,
            },
            total_messages: self.total_messages,
            total_edits: self.total_edits,
            since: self.since,
        }
    }
}

/// The user lines of a report: one per user with stored rows or queued counts
/// in `chat`, each as `user_line_ok` says, ranked.
pub open spec fn users_ok(users: Seq<UserTotal>, rows: Seq<StoredStat>, s: StatsView, chat: i64) -> bool {
    &&& users_ranked(users)
    &&& forall|a: int, b: int| 0 <= a < b < users.len() ==> users[a].user != users[b].user
    &&& forall|j: int| #![trigger users[j]]
        0 <= j < users.len() ==> user_line_ok(users[j], rows, s, chat, users[j].user) && (
        has_row(rows, users[j].user) || has_queued(s.queue, chat, users[j].user))
    &&& forall|u: i64| #![trigger has_line(users, u)]
        has_row(rows, u) || has_queued(s.queue, chat, u) ==> has_line(users, u)
}

impl ChatStats {
    pub fn new(
        users: Vec<UserTotal>,
        specific: Option<Vec<KindTotal>>,
        total_messages: u64,
        total_edits: u64,
        since: Option<i64>,
    ) -> (r: ChatStats)
        ensures
            r@ == (ChatStatsView {
                users: users@,
                specific: match specific {
                    Some(v) => Some(v@),
                    None => None,
                },
                total_messages,
                total_edits,
                since,
            }),
    {
        ChatStats { users, specific, total_messages, total_edits, since }
    }

    /// The users with their counts, most active first.
    pub fn users(&self) -> (r: &Vec<UserTotal>)
        ensures
            r@ == self@.users,
    {
        &self.users
    }

    /// The per-kind counts of the selected user, if a user was selected.
    pub fn specific(&self) -> (r: &Option<Vec<KindTotal>>)
        ensures
            match r {
                Some(v) => self@.specific == Some(v@),
                None => self@.specific is None,
            },
    {
        &self.specific
    }

    /// The messages of all users.
    pub fn total_messages(&self) -> (r: u64)
        ensures
            r == self@.total_messages,
    {
        self.total_messages
    }

    /// The edits of all users.
    pub fn total_edits(&self) -> (r: u64)
        ensures
            r == self@.total_edits,
    {
        self.total_edits
    }

    /// When counting started for the chat, in seconds since the epoch.
    pub fn since(&self) -> (r: Option<i64>)
        ensures
            r == self@.since,
    {
        self.since
    }
}

/// The (messages, edits) of the stored rows and of what `chat` has queued.
fn chat_totals(rows: &Vec<StoredStat>, q: &Vec<QueueEntry>, chat: i64) -> (r: (u64, u64))
    ensures
        r.0 == clamp(all_rows_sum(rows@).0 + chat_queue_sum(q@, chat).0),
        r.1 == clamp(all_rows_sum(rows@).1 + chat_queue_sum(q@, chat).1),
{
    let mut m: u64 = 0;
    let mut e: u64 = 0;
    let mut i: usize = 0;
    while i < rows.len()
        invariant
            i <= rows.len(),
            m == clamp(all_rows_sum(rows@.subrange(0, i as int)).0),
            e == clamp(all_rows_sum(rows@.subrange(0, i as int)).1),
            all_rows_sum(rows@.subrange(0, i as int)).0 >= 0,
            all_rows_sum(rows@.subrange(0, i as int)).1 >= 0,
        decreases rows.len() - i,
    {
        assert(rows@.subrange(0, i + 1).drop_last() =~= rows@.subrange(0, i as int));
        proof {
            lemma_clamp_step(all_rows_sum(rows@.subrange(0, i as int)).0, rows@[i as int].messages as int);
            lemma_clamp_step(all_rows_sum(rows@.subrange(0, i as int)).1, rows@[i as int].edits as int);
        }
        m = sat(m, rows[i].messages);
        e = sat(e, rows[i].edits);
        i = i + 1;
    }
    assert(rows@.subrange(0, rows.len() as int) =~= rows@);
    let mut j: usize = 0;
    assert(q@.subrange(0, 0) =~= Seq::<QueueEntry>::empty());
    while j < q.len()
        invariant
            j <= q.len(),
            m == clamp(all_rows_sum(rows@).0 + chat_queue_sum(q@.subrange(0, j as int), chat).0),
            e == clamp(all_rows_sum(rows@).1 + chat_queue_sum(q@.subrange(0, j as int), chat).1),
            all_rows_sum(rows@).0 + chat_queue_sum(q@.subrange(0, j as int), chat).0 >= 0,
            all_rows_sum(rows@).1 + chat_queue_sum(q@.subrange(0, j as int), chat).1 >= 0,
        decreases q.len() - j,
    {
        assert(q@.subrange(0, j + 1).drop_last() =~= q@.subrange(0, j as int));
        let x = q[j];
        if x.chat == chat {
            proof {
                lemma_clamp_step(
                    all_rows_sum(rows@).0 + chat_queue_sum(q@.subrange(0, j as int), chat).0,
                    x.messages as int,
                );
                lemma_clamp_step(
                    all_rows_sum(rows@).1 + chat_queue_sum(q@.subrange(0, j as int), chat).1,
                    x.edits as int,
                );
            }
            m = sat(m, x.messages);
            e = sat(e, x.edits);
        }
        j = j + 1;
    }
    assert(q@.subrange(0, q.len() as int) =~= q@);
    (m, e)
}

/// Inserting the line of `ids[i]` keeps the lines unique, correct, and
/// covering `ids[..i + 1]`.
proof fn lemma_insert_line(
    before: Seq<UserTotal>,
    users: Seq<UserTotal>,
    p: int,
    line: UserTotal,
    ids: Seq<i64>,
    i: int,
    rows: Seq<StoredStat>,
    s: StatsView,
    chat: i64,
)
    requires
        0 <= p <= before.len(),
        users == before.insert(p, line),
        0 <= i < ids.len(),
        line.user == ids[i],
        user_line_ok(line, rows, s, chat, ids[i]),
        forall|a: int, b: int| 0 <= a < b < ids.len() ==> ids[a] != ids[b],
        forall|a: int, b: int| 0 <= a < b < before.len() ==> before[a].user != before[b].user,
        forall|j: int| #![trigger before[j]]
            0 <= j < before.len() ==> user_line_ok(before[j], rows, s, chat, before[j].user)
                && exists|t: int| 0 <= t < i && ids[t] == before[j].user,
        forall|t: int| 0 <= t < i ==> has_line(before, #[trigger] ids[t]),
    ensures
        forall|a: int, b: int| 0 <= a < b < users.len() ==> users[a].user != users[b].user,
        forall|j: int| #![trigger users[j]]
            0 <= j < users.len() ==> user_line_ok(users[j], rows, s, chat, users[j].user)
                && exists|t: int| 0 <= t < i + 1 && ids[t] == users[j].user,
        forall|t: int| 0 <= t < i + 1 ==> has_line(users, #[trigger] ids[t]),
{
    before.insert_ensures(p, line);
    assert forall|a: int, b: int| 0 <= a < b < users.len() implies users[a].user != users[b].user by {
        if a != p && b != p {
            let a0 = if a < p { a } else { a - 1 };
            let b0 = if b < p { b } else { b - 1 };
            assert(users[a] == before[a0] && users[b] == before[b0]);
        } else {
            let o = if a == p { b } else { a };
            let o0 = if o < p { o } else { o - 1 };
            assert(users[o] == before[o0]);
            let t = choose|t: int| 0 <= t < i && ids[t] == before[o0].user;
            assert(ids[t] != ids[i]);
        }
    }
    assert forall|j: int| #![trigger users[j]]
        0 <= j < users.len() implies user_line_ok(users[j], rows, s, chat, users[j].user)
            && exists|t: int| 0 <= t < i + 1 && ids[t] == users[j].user by {
        if j == p {
            assert(ids[i] == users[j].user);
        } else {
            let j0 = if j < p { j } else { j - 1 };
            assert(users[j] == before[j0]);
            let t = choose|t: int| 0 <= t < i && ids[t] == before[j0].user;
            assert(ids[t] == users[j].user);
        }
    }
    assert forall|t: int| 0 <= t < i + 1 implies has_line(users, #[trigger] ids[t]) by {
        if t == i {
            assert(users[p].user == ids[t]);
        } else {
            assert(has_line(before, ids[t]));
            let j0 = choose|j: int| 0 <= j < before.len() && before[j].user == ids[t];
            let j1 = if j0 < p { j0 } else { j0 + 1 };
            assert(users[j1] == before[j0]);
        }
    }
}

/// The user lines of the report of `chat`.
#[verifier::rlimit(80)]
fn user_lines(rows: &Vec<StoredStat>, stats: &Stats, chat: i64) -> (users: Vec<UserTotal>)
    requires
        stats_wf(stats@),
    ensures
        users_ok(users@, rows@, stats@, chat),
{
    let ids = report_users(rows, stats.queue(), chat);
    let mut users: Vec<UserTotal> = Vec::new();
    let mut i: usize = 0;
    while i < ids.len()
        invariant
            i <= ids.len(),
            stats_wf(stats@),
            forall|a: int, b: int| 0 <= a < b < ids.len() ==> ids@[a] != ids@[b],
            forall|u: i64| #[trigger]
                ids@.contains(u) <==> (has_row(rows@, u) || has_queued(stats@.queue, chat, u)),
            users_ranked(users@),
            forall|a: int, b: int| 0 <= a < b < users.len() ==> users@[a].user != users@[b].user,
            forall|j: int| #![trigger users@[j]]
                0 <= j < users.len() ==> user_line_ok(users@[j], rows@, stats@, chat, users@[j].user)
                    && exists|t: int| 0 <= t < i && ids@[t] == users@[j].user,
            forall|t: int| 0 <= t < i ==> has_line(users@, #[trigger] ids@[t]),
        decreases ids.len() - i,
    {
        let ghost before = users@;
        let u = ids[i];
        let line = user_line(rows, stats, chat, u);
        let p = insert_ranked(&mut users, line);
        proof {
            lemma_insert_line(before, users@, p as int, line, ids@, i as int, rows@, stats@, chat);
        }
        i = i + 1;
    }
    proof {
        assert forall|j: int| #![trigger users@[j]]
            0 <= j < users.len() implies (has_row(rows@, users@[j].user) || has_queued(
            stats@.queue,
            chat,
            users@[j].user,
        )) by {
            let t = choose|t: int| 0 <= t < ids.len() && ids@[t] == users@[j].user;
            assert(ids@.contains(users@[j].user));
        }
        assert forall|u: i64| #![trigger has_line(users@, u)]
            has_row(rows@, u) || has_queued(stats@.queue, chat, u) implies has_line(users@, u) by {
            assert(ids@.contains(u));
            let t = choose|t: int| 0 <= t < ids.len() && ids@[t] == u;
            assert(ids@[t] == u);
        }
    }
    users
}

impl Stats {
    /// The report of `chat`: the stored `rows` of the chat merged with what is
    /// still queued for it, and the per-kind counts of `selected_user` if given.
    /// `since` is when counting started for the chat.
    pub fn fetch_chat_stats(
        &self,
        rows: &Vec<StoredStat>,
        chat: i64,
        selected_user: Option<i64>,
        since: Option<i64>,
    ) -> (r: ChatStats)
        requires
            stats_wf(self@),
        ensures
            users_ok(r@.users, rows@, self@, chat),
            match selected_user {
                Some(u) => specific_ok(r@.specific, rows@, self@.queue, chat, u),
                None => r@.specific is None,
            },
            r@.total_messages == clamp(all_rows_sum(rows@).0 + chat_queue_sum(self@.queue, chat).0),
            r@.total_edits == clamp(all_rows_sum(rows@).1 + chat_queue_sum(self@.queue, chat).1),
            r@.since == since,
    {
        let users = user_lines(rows, self, chat);
        let specific = match selected_user {
            Some(u) => kind_specifics(rows, self, chat, u),
            None => None,
        };
        let (total_messages, total_edits) = chat_totals(rows, self.queue(), chat);
        ChatStats::new(users, specific, total_messages, total_edits, since)
    }
}

} // verus!
