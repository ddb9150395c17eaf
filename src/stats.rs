//! The write-back queue of message statistics, and the engine that flushes it
//! to storage.
//!
//! Counts are queued per (chat, user, kind). A flush walks the queued entries
//! and, for each, makes sure the chat and the user exist in storage, then adds
//! the counts to the stored row. The storage itself is outside: the flush is a
//! step machine that hands out one storage operation at a time and is given the
//! reply. Entries whose row write fails stay queued for the next flush; entries
//! of a chat that cannot be found or created are dropped.
//!
//! `Stats::begin_flush` takes the queued entries and hands out the first
//! operation; the caller performs it and passes the reply to
//! `Stats::flush_step`, which hands out the next one, until `StoreOp::Done`.
//! `Stats::end_flush` then puts back the entries that must be retried.
//!
//! For each entry the chat is found or created first, then the user (whose
//! cached name is written when it differs from the stored one), then the
//! stored row is increased by the entry's counts, or created with them. A chat
//! and a user are looked up once per flush. When a chat cannot be found or
//! created, all of its entries are dropped for good; when a user or a row
//! cannot be written, the entries stay queued.

use vstd::prelude::*;

use crate::stats_kind::{kind_of_message, MessageInfo, StatsKind};
use crate::text::text_eq;

verus! {

/// Pending counts for one (chat, user, kind).
#[derive(Clone, Copy, Debug, PartialEq, Eq, Structural)]
pub struct QueueEntry {
    pub chat: i64,
    pub user: i64,
    pub kind: StatsKind,
    pub messages: u32,
    pub edits: u32,
}

/// The key that an entry counts for.
pub open spec fn key_of(e: QueueEntry) -> (i64, i64, StatsKind) {
    (e.chat, e.user, e.kind)
}

/// Componentwise sum of two (messages, edits) pairs.
pub open spec fn plus(a: (int, int), b: (int, int)) -> (int, int) {
    (a.0 + b.0, a.1 + b.1)
}

/// What entry `e` counts for key `k`.
pub open spec fn contribution(e: QueueEntry, k: (i64, i64, StatsKind)) -> (int, int) {
    if key_of(e) == k {
        (e.messages as int, e.edits as int)
    } else {
        (0, 0)
    }
}

/// The (messages, edits) that the entries of `q` hold for key `k`, summed.
pub open spec fn queued(q: Seq<QueueEntry>, k: (i64, i64, StatsKind)) -> (int, int)
    decreases q.len(),
{
    if q.len() == 0 {
        (0, 0)
    } else {
        plus(queued(q.drop_last(), k), contribution(q.last(), k))
    }
}

/// No two entries of `q` have the same key.
pub open spec fn keys_unique(q: Seq<QueueEntry>) -> bool {
    forall|i: int, j: int|
        0 <= i < j < q.len() ==> key_of(#[trigger] q[i]) != key_of(#[trigger] q[j])
}

/// `a + b`, or the largest `u32` when the sum does not fit.
pub open spec fn sat_add(a: int, b: int) -> int {
    if a + b > u32::MAX {
        u32::MAX as int
    } else {
        a + b
    }
}

/// The display name of a user.
#[derive(Debug)]
pub struct UserName {
    pub first_name: String,
    pub last_name: Option<String>,
}

/// A user's most recently seen name, waiting to be written to storage.
pub struct NameEntry {
    pub user: i64,
    pub name: UserName,
}

/// The view of a user name.
pub open spec fn name_view(n: UserName) -> (Seq<char>, Option<Seq<char>>) {
    (
        n.first_name@,
        match n.last_name {
            Some(l) => Some(l@),
            None => None,
        },
    )
}

/// The cached name of `user` in `names`, if any.
pub open spec fn cached_name(names: Seq<NameEntry>, user: i64) -> Option<
    (Seq<char>, Option<Seq<char>>),
> {
    if exists|i: int| 0 <= i < names.len() && names[i].user == user {
        let i = choose|i: int| 0 <= i < names.len() && names[i].user == user;
        Some(name_view(names[i].name))
    } else {
        None
    }
}

/// No two cached names are for the same user.
pub open spec fn users_unique(names: Seq<NameEntry>) -> bool {
    forall|i: int, j: int|
        0 <= i < j < names.len() ==> (#[trigger] names[i]).user != (#[trigger] names[j]).user
}

/// What the statistics queue holds.
pub struct StatsView {
    pub queue: Seq<QueueEntry>,
    pub names: Seq<NameEntry>,
}

/// The write-back queue of message statistics, and the names of the users seen
/// since the last flush.
pub struct Stats {
    pub(crate) queue: Vec<QueueEntry>,
    pub(crate) names: Vec<NameEntry>,
}

impl View for Stats {
    type V = StatsView;

    closed spec fn view(&self) -> StatsView {
        StatsView { queue: self.queue@, names: self.names@ }
    }
}

/// The queue has one entry per key, and the name cache one name per user.
pub open spec fn stats_wf(v: StatsView) -> bool {
    &&& keys_unique(v.queue)
    &&& users_unique(v.names)
}

/// Going from queue `q` to queue `q2`, the entries `recorded` were added, the
/// entries `applied` were written to storage, and the entries `lost` were
/// dropped: for every key, what is queued plus what left equals what was
/// queued plus what arrived.
pub open spec fn queue_step(
    q: Seq<QueueEntry>,
    q2: Seq<QueueEntry>,
    recorded: Seq<QueueEntry>,
    applied: Seq<QueueEntry>,
    lost: Seq<QueueEntry>,
) -> bool {
    forall|k: (i64, i64, StatsKind)| #[trigger]
        plus(plus(queued(q2, k), queued(applied, k)), queued(lost, k)) == plus(
            queued(q, k),
            queued(recorded, k),
        )
}

/// Adding `e`'s counts to the queue `q` does not exceed what a `u32` holds.
pub open spec fn fits(q: Seq<QueueEntry>, e: QueueEntry) -> bool {
    &&& queued(q, key_of(e)).0 + e.messages <= u32::MAX
    &&& queued(q, key_of(e)).1 + e.edits <= u32::MAX
}

proof fn lemma_queued_push(q: Seq<QueueEntry>, e: QueueEntry, k: (i64, i64, StatsKind))
    ensures
        queued(q.push(e), k) == plus(queued(q, k), contribution(e, k)),
{
    assert(q.push(e).drop_last() =~= q);
}

proof fn lemma_queued_nonneg(q: Seq<QueueEntry>, k: (i64, i64, StatsKind))
    ensures
        queued(q, k).0 >= 0,
        queued(q, k).1 >= 0,
    decreases q.len(),
{
    if q.len() > 0 {
        lemma_queued_nonneg(q.drop_last(), k);
    }
}

proof fn lemma_queued_update(
    q: Seq<QueueEntry>,
    i: int,
    e: QueueEntry,
    k: (i64, i64, StatsKind),
)
    requires
        0 <= i < q.len(),
    ensures
        plus(queued(q.update(i, e), k), contribution(q[i], k)) == plus(
            queued(q, k),
            contribution(e, k),
        ),
    decreases q.len(),
{
    if i == q.len() - 1 {
        assert(q.update(i, e).drop_last() =~= q.drop_last());
    } else {
        assert(q.update(i, e).drop_last() =~= q.drop_last().update(i, e));
        lemma_queued_update(q.drop_last(), i, e, k);
    }
}

/// With unique keys, the entry with key `k` holds all that is queued for `k`.
pub proof fn lemma_queued_unique(q: Seq<QueueEntry>, k: (i64, i64, StatsKind))
    requires
        keys_unique(q),
    ensures
        forall|i: int|
            0 <= i < q.len() && key_of(q[i]) == k ==> queued(q, k) == (
                q[i].messages as int,
                q[i].edits as int,
            ),
        (forall|i: int| 0 <= i < q.len() ==> key_of(q[i]) != k) ==> queued(q, k) == (0int, 0int),
    decreases q.len(),
{
    if q.len() > 0 {
        let p = q.drop_last();
        assert(keys_unique(p)) by {
            assert forall|i: int, j: int| 0 <= i < j < p.len() implies key_of(p[i]) != key_of(
                p[j],
            ) by {
                assert(p[i] == q[i] && p[j] == q[j]);
            }
        }
        lemma_queued_unique(p, k);
        if key_of(q.last()) == k {
            assert forall|i: int| 0 <= i < p.len() implies key_of(p[i]) != k by {
                assert(p[i] == q[i]);
                assert(key_of(q[i]) != key_of(q[q.len() - 1]));
            }
        } else {
            assert forall|i: int| 0 <= i < p.len() && key_of(q[i]) == k implies queued(q, k) == (
                q[i].messages as int,
                q[i].edits as int,
            ) by {
                assert(p[i] == q[i]);
            }
        }
    }
}

/// `e`'s counts added to entry `x` when it has `e`'s key, each sum capped at
/// the largest `u32`; any other entry as it is.
pub open spec fn add_to(x: QueueEntry, e: QueueEntry) -> QueueEntry {
    if key_of(x) == key_of(e) {
        QueueEntry {
            messages: sat_add(x.messages as int, e.messages as int) as u32,
            edits: sat_add(x.edits as int, e.edits as int) as u32,
            ..x
        }
    } else {
        x
    }
}

/// The queue `q` after `e`'s counts were added: the entry with `e`'s key is
/// updated in place, or `e` is appended when there is none; every other entry
/// stays as it was.
pub open spec fn added_entry(q: Seq<QueueEntry>, e: QueueEntry) -> Seq<QueueEntry> {
    if exists|i: int| 0 <= i < q.len() && key_of(q[i]) == key_of(e) {
        q.map_values(|x: QueueEntry| add_to(x, e))
    } else {
        q.push(e)
    }
}

/// The index of the entry of `q` with the given key, if any.
pub(crate) fn find_entry(q: &Vec<QueueEntry>, chat: i64, user: i64, kind: StatsKind) -> (r: Option<usize>)
    ensures
        match r {
            Some(i) => i < q.len() && key_of(q@[i as int]) == (chat, user, kind),
            None => forall|i: int| 0 <= i < q.len() ==> key_of(q@[i]) != (chat, user, kind),
        },
{
    let mut i: usize = 0;
    while i < q.len()
        invariant
            i <= q.len(),
            forall|j: int| 0 <= j < i ==> key_of(q@[j]) != (chat, user, kind),
        decreases q.len() - i,
    {
        let e = q[i];
        if e.chat == chat && e.user == user && e.kind == kind {
            return Some(i);
        }
        i = i + 1;
    }
    None
}

/// The index of the cached name of `user`, if any.
pub(crate) fn find_name(names: &Vec<NameEntry>, user: i64) -> (r: Option<usize>)
    ensures
        match r {
            Some(i) => i < names.len() && names@[i as int].user == user,
            None => forall|i: int| 0 <= i < names.len() ==> names@[i].user != user,
        },
{
    let mut i: usize = 0;
    while i < names.len()
        invariant
            i <= names.len(),
            forall|j: int| 0 <= j < i ==> names@[j].user != user,
        decreases names.len() - i,
    {
        if names[i].user == user {
            return Some(i);
        }
        i = i + 1;
    }
    None
}

/// Adds `e`'s counts to the entry with the same key, or appends `e`; each sum
/// stops at the largest `u32`.
fn add_entry(q: &mut Vec<QueueEntry>, e: QueueEntry)
    requires
        keys_unique(old(q)@),
    ensures
        keys_unique(final(q)@),
        final(q)@ == added_entry(old(q)@, e),
        forall|k: (i64, i64, StatsKind)| #[trigger]
            queued(final(q)@, k) == if k == key_of(e) {
                (
                    sat_add(queued(old(q)@, k).0, e.messages as int),
                    sat_add(queued(old(q)@, k).1, e.edits as int),
                )
            } else {
                queued(old(q)@, k)
            },
{
    let ghost q0 = q@;
    match find_entry(q, e.chat, e.user, e.kind) {
        Some(i) => {
            let old_e = q[i];
            let updated = QueueEntry {
                messages: old_e.messages.saturating_add(e.messages),
                edits: old_e.edits.saturating_add(e.edits),
                ..old_e
            };
            q.set(i, updated);
            proof {
                assert(q@ =~= q0.map_values(|x: QueueEntry| add_to(x, e))) by {
                    assert forall|j: int| 0 <= j < q0.len() implies q@[j] == add_to(q0[j], e) by {
                        if j != i {
                            if key_of(q0[j]) == key_of(e) {
                                if j < i {
                                    assert(key_of(q0[j]) != key_of(q0[i as int]));
                                } else {
                                    assert(key_of(q0[i as int]) != key_of(q0[j]));
                                }
                            }
                        }
                    }
                }
                assert(q@ == q0.update(i as int, updated));
                lemma_queued_unique(q0, key_of(e));
                assert(keys_unique(q@)) by {
                    assert forall|a: int, b: int| 0 <= a < b < q@.len() implies key_of(
                        q@[a],
                    ) != key_of(q@[b]) by {
                        assert(key_of(q@[a]) == key_of(q0[a]));
                        assert(key_of(q@[b]) == key_of(q0[b]));
                    }
                }
                assert forall|k: (i64, i64, StatsKind)| #[trigger]
                    queued(q@, k) == if k == key_of(e) {
                        (
                            sat_add(queued(q0, k).0, e.messages as int),
                            sat_add(queued(q0, k).1, e.edits as int),
                        )
                    } else {
                        queued(q0, k)
                    } by {
                    lemma_queued_update(q0, i as int, updated, k);
                }
            }
        },
        None => {
            q.push(e);
            proof {
                lemma_queued_unique(q0, key_of(e));
                assert(keys_unique(q@)) by {
                    assert forall|a: int, b: int| 0 <= a < b < q@.len() implies key_of(
                        q@[a],
                    ) != key_of(q@[b]) by {
                        if b == q0.len() {
                            assert(q@[a] == q0[a]);
                        } else {
                            assert(q@[a] == q0[a] && q@[b] == q0[b]);
                        }
                    }
                }
                assert forall|k: (i64, i64, StatsKind)| #[trigger]
                    queued(q@, k) == if k == key_of(e) {
                        (
                            sat_add(queued(q0, k).0, e.messages as int),
                            sat_add(queued(q0, k).1, e.edits as int),
                        )
                    } else {
                        queued(q0, k)
                    } by {
                    lemma_queued_push(q0, e, k);
                    lemma_queued_nonneg(q0, k);
                }
            }
        },
    }
}

impl Stats {
    /// An empty queue.
    pub fn new() -> (r: Stats)
        ensures
            stats_wf(r@),
            r@.queue.len() == 0,
            r@.names.len() == 0,
    {
        Stats { queue: Vec::new(), names: Vec::new() }
    }

    /// Adds `messages` and `edits` to what is queued for (`chat`, `user`,
    /// `kind`); a count that would not fit in a `u32` stays at the largest one.
    pub fn increase(&mut self, chat: i64, user: i64, kind: StatsKind, messages: u32, edits: u32)
        requires
            stats_wf(old(self)@),
        ensures
            stats_wf(final(self)@),
            final(self)@.names == old(self)@.names,
            final(self)@.queue == added_entry(
                old(self)@.queue,
                QueueEntry { chat, user, kind, messages, edits },
            ),
            forall|k: (i64, i64, StatsKind)| #[trigger]
                queued(final(self)@.queue, k) == if k == (chat, user, kind) {
                    (
                        sat_add(queued(old(self)@.queue, k).0, messages as int),
                        sat_add(queued(old(self)@.queue, k).1, edits as int),
                    )
                } else {
                    queued(old(self)@.queue, k)
                },
            fits(old(self)@.queue, QueueEntry { chat, user, kind, messages, edits }) ==> queue_step(
                old(self)@.queue,
                final(self)@.queue,
                seq![QueueEntry { chat, user, kind, messages, edits }],
                Seq::empty(),
                Seq::empty(),
            ),
    {
        let e = QueueEntry { chat, user, kind, messages, edits };
        add_entry(&mut self.queue, e);
        proof {
            if fits(old(self)@.queue, e) {
                assert forall|k: (i64, i64, StatsKind)| #[trigger]
                    plus(
                        plus(queued(self.queue@, k), queued(Seq::<QueueEntry>::empty(), k)),
                        queued(Seq::<QueueEntry>::empty(), k),
                    ) == plus(queued(old(self)@.queue, k), queued(seq![e], k)) by {
                    lemma_queued_push(Seq::empty(), e, k);
                    assert(Seq::<QueueEntry>::empty().push(e) =~= seq![e]);
                }
            }
        }
    }

    /// Caches the name of `user` unless a name is cached for the user already.
    pub fn remember_name(&mut self, user: i64, name: UserName)
        requires
            stats_wf(old(self)@),
        ensures
            stats_wf(final(self)@),
            final(self)@.queue == old(self)@.queue,
            cached_name(old(self)@.names, user) is Some ==> final(self)@.names == old(self)@.names,
            cached_name(old(self)@.names, user) is None ==> final(self)@.names == old(
                self,
            )@.names.push(NameEntry { user, name }),
    {
        match find_name(&self.names, user) {
            Some(_) => {},
            None => {
                self.names.push(NameEntry { user, name });
                proof {
                    assert(users_unique(self.names@)) by {
                        assert forall|a: int, b: int|
                            0 <= a < b < self.names@.len() implies (
                            #[trigger] self.names@[a]).user != (#[trigger] self.names@[b]).user by {
                            assert(self.names@[a] == old(self)@.names[a]);
                        }
                    }
                }
            },
        }
    }

    /// Counts `message` for its chat, sender and kind, and caches the sender's
    /// name. Messages of a kind that is not counted only have the name cached.
    pub fn increase_stats(&mut self, message: &MessageInfo, messages: u32, edits: u32)
        requires
            stats_wf(old(self)@),
        ensures
            stats_wf(final(self)@),
            match kind_of_message(message.forwarded, &message.content) {
                Some(kind) => final(self)@.queue == added_entry(
                    old(self)@.queue,
                    QueueEntry {
                        chat: message.chat,
                        user: message.user,
                        kind,
                        messages,
                        edits,
                    },
                ),
                None => final(self)@.queue == old(self)@.queue,
            },
            match kind_of_message(message.forwarded, &message.content) {
                Some(kind) => forall|k: (i64, i64, StatsKind)| #[trigger]
                    queued(final(self)@.queue, k) == if k == (message.chat, message.user, kind) {
                        (
                            sat_add(queued(old(self)@.queue, k).0, messages as int),
                            sat_add(queued(old(self)@.queue, k).1, edits as int),
                        )
                    } else {
                        queued(old(self)@.queue, k)
                    },
                None => final(self)@.queue == old(self)@.queue,
            },
            cached_name(old(self)@.names, message.user) is Some ==> final(self)@.names == old(
                self,
            )@.names,
            cached_name(old(self)@.names, message.user) is None ==> final(self)@.names == old(
                self,
            )@.names.push(
                NameEntry {
                    user: message.user,
                    name: UserName {
                        first_name: message.first_name,
                        last_name: message.last_name,
                    },
                },
            ),
    {
        match StatsKind::from_message(message) {
            Some(kind) => self.increase(message.chat, message.user, kind, messages, edits),
            None => {},
        }
        let name = UserName {
            first_name: message.first_name.clone(),
            last_name: match &message.last_name {
                Some(l) => Some(l.clone()),
                None => None,
            },
        };
        self.remember_name(message.user, name);
    }

    /// Counts `message`; the same as `increase_stats`.
    pub fn increase_message_stats(&mut self, message: &MessageInfo, messages: u32, edits: u32)
        requires
            stats_wf(old(self)@),
        ensures
            stats_wf(final(self)@),
            match kind_of_message(message.forwarded, &message.content) {
                Some(kind) => final(self)@.queue == added_entry(
                    old(self)@.queue,
                    QueueEntry {
                        chat: message.chat,
                        user: message.user,
                        kind,
                        messages,
                        edits,
                    },
                ),
                None => final(self)@.queue == old(self)@.queue,
            },
            match kind_of_message(message.forwarded, &message.content) {
                Some(kind) => forall|k: (i64, i64, StatsKind)| #[trigger]
                    queued(final(self)@.queue, k) == if k == (message.chat, message.user, kind) {
                        (
                            sat_add(queued(old(self)@.queue, k).0, messages as int),
                            sat_add(queued(old(self)@.queue, k).1, edits as int),
                        )
                    } else {
                        queued(old(self)@.queue, k)
                    },
                None => final(self)@.queue == old(self)@.queue,
            },
            cached_name(old(self)@.names, message.user) is Some ==> final(self)@.names == old(
                self,
            )@.names,
            cached_name(old(self)@.names, message.user) is None ==> final(self)@.names == old(
                self,
            )@.names.push(
                NameEntry {
                    user: message.user,
                    name: UserName {
                        first_name: message.first_name,
                        last_name: message.last_name,
                    },
                },
            ),
    {
        self.increase_stats(message, messages, edits);
    }

    /// The queued entries, in queue order.
    pub fn queued_entries(&self) -> (r: Vec<QueueEntry>)
        ensures
            r@ == self@.queue,
    {
        let mut r: Vec<QueueEntry> = Vec::new();
        let mut i: usize = 0;
        while i < self.queue.len()
            invariant
                i <= self.queue.len(),
                r@ == self.queue@.subrange(0, i as int),
            decreases self.queue.len() - i,
        {
            r.push(self.queue[i]);
            i = i + 1;
            assert(r@ =~= self.queue@.subrange(0, i as int));
        }
        assert(r@ =~= self.queue@);
        r
    }

    /// The queued entries.
    pub fn queue(&self) -> (r: &Vec<QueueEntry>)
        ensures
            r@ == self@.queue,
    {
        &self.queue
    }

    /// The queued counts for (`chat`, `user`, `kind`), zero when none are queued.
    pub fn pending(&self, chat: i64, user: i64, kind: StatsKind) -> (r: (u32, u32))
        requires
            stats_wf(self@),
        ensures
            (r.0 as int, r.1 as int) == queued(self@.queue, (chat, user, kind)),
    {
        proof {
            lemma_queued_unique(self.queue@, (chat, user, kind));
        }
        match find_entry(&self.queue, chat, user, kind) {
            Some(i) => (self.queue[i].messages, self.queue[i].edits),
            None => (0, 0),
        }
    }

    /// The cached name of `user`, if any.
    pub fn name_of(&self, user: i64) -> (r: Option<UserName>)
        requires
            stats_wf(self@),
        ensures
            match r {
                Some(n) => cached_name(self@.names, user) == Some(name_view(n)),
                None => cached_name(self@.names, user) is None,
            },
    {
        self.cached(user)
    }
}


// Flushing the queue to storage.


/// An operation on storage that the flush asks for.
pub enum StoreOp {
    /// Look up the chat.
    FindChat { chat: i64 },
    /// Create the chat.
    InsertChat { chat: i64 },
    /// Look up the user.
    FindUser { user: i64 },
    /// Store a new name for an existing user.
    UpdateUserName { user: i64, name: UserName },
    /// Create the user, with its name when known.
    InsertUser { user: i64, known_name: Option<UserName> },
    /// Look up the row of counts.
    FindStat { chat: i64, user: i64, kind: StatsKind },
    /// Add the entry's counts to its stored row.
    UpdateStat { entry: QueueEntry },
    /// Create the entry's row with its counts.
    InsertStat { entry: QueueEntry },
    /// The flush is over.
    Done,
}

/// The outcome of a storage operation.
pub enum StoreReply {
    /// The chat or row that was looked up exists.
    Found,
    /// The user that was looked up exists, under this name.
    FoundUser(UserName),
    /// What was looked up does not exist.
    NotFound,
    /// The write succeeded.
    Written,
    /// The operation failed.
    Failed,
}

/// Where the flush stands with the current entry.
#[derive(Clone, Copy, Debug, PartialEq, Eq, Structural)]
pub enum Stage {
    Chat,
    InsertChat,
    User,
    UpdateUser,
    InsertUser,
    Stat,
    WriteStat,
    Finished,
}

/// What a flush in progress holds.
pub struct FlushView {
    /// The entries taken from the queue.
    pub pending: Seq<QueueEntry>,
    /// The index of the current entry.
    pub pos: int,
    pub stage: Stage,
    pub chats_ok: Seq<i64>,
    pub chats_failed: Seq<i64>,
    pub users_ok: Seq<(i64, i64)>,
    pub users_failed: Seq<(i64, i64)>,
    /// Entries to put back in the queue.
    pub kept: Seq<QueueEntry>,
    /// Entries whose counts storage confirmed.
    pub applied: Seq<QueueEntry>,
    /// Entries dropped with their chat.
    pub lost: Seq<QueueEntry>,
    /// Whether storage failed an operation during this flush.
    pub failed: bool,
}

/// A flush in progress.
pub struct FlushRun {
    pending: Vec<QueueEntry>,
    pos: usize,
    stage: Stage,
    chats_ok: Vec<i64>,
    chats_failed: Vec<i64>,
    users_ok: Vec<(i64, i64)>,
    users_failed: Vec<(i64, i64)>,
    kept: Vec<QueueEntry>,
    applied: Ghost<Seq<QueueEntry>>,
    lost: Ghost<Seq<QueueEntry>>,
    failed: Ghost<bool>,
}

impl View for FlushRun {
    type V = FlushView;

    closed spec fn view(&self) -> FlushView {
        FlushView {
            pending: self.pending@,
            pos: self.pos as int,
            stage: self.stage,
            chats_ok: self.chats_ok@,
            chats_failed: self.chats_failed@,
            users_ok: self.users_ok@,
            users_failed: self.users_failed@,
            kept: self.kept@,
            applied: self.applied@,
            lost: self.lost@,
            failed: self.failed@,
        }
    }
}

/// Every entry handled so far went to exactly one of the applied, kept and lost
/// entries, only entries of failed chats were lost, and nothing was marked
/// failed or kept unless storage failed an operation.
pub open spec fn accounted(v: FlushView) -> bool {
    &&& 0 <= v.pos <= v.pending.len()
    &&& forall|k: (i64, i64, StatsKind)| #[trigger]
        queued(v.pending.subrange(0, v.pos), k) == plus(
            plus(queued(v.applied, k), queued(v.kept, k)),
            queued(v.lost, k),
        )
    &&& forall|i: int| 0 <= i < v.lost.len() ==> v.chats_failed.contains(#[trigger] v.lost[i].chat)
    &&& (v.chats_failed.len() > 0 || v.users_failed.len() > 0 || v.kept.len() > 0) ==> v.failed
}

/// A flush in progress is well formed.
pub open spec fn flush_wf(v: FlushView) -> bool {
    &&& accounted(v)
    &&& keys_unique(v.pending)
    &&& (v.stage == Stage::Finished <==> v.pos == v.pending.len())
}

/// The entry that the flush is working on.
pub open spec fn current(v: FlushView) -> QueueEntry {
    v.pending[v.pos]
}

/// Whether `op` asks to look up what the flush needs next for the current entry.
pub open spec fn lookup_op(v: FlushView, op: StoreOp) -> bool {
    match v.stage {
        Stage::Chat => op == StoreOp::FindChat { chat: current(v).chat },
        Stage::User => op == StoreOp::FindUser { user: current(v).user },
        Stage::Stat => op == (StoreOp::FindStat {
            chat: current(v).chat,
            user: current(v).user,
            kind: current(v).kind,
        }),
        Stage::Finished => op is Done,
        _ => false,
    }
}

/// The flush after skipping, from the current entry on, the entries that need
/// no storage work: those of failed chats are dropped and those of failed users
/// kept. It stops at the first entry whose chat or user is still to be looked
/// up, or at its row lookup, or finishes.
pub open spec fn skip_settled(v: FlushView) -> FlushView
    decreases v.pending.len() - v.pos,
{
    if v.pos < 0 || v.pos >= v.pending.len() {
        FlushView { stage: Stage::Finished, ..v }
    } else {
        let e = v.pending[v.pos];
        if v.chats_failed.contains(e.chat) {
            skip_settled(FlushView { pos: v.pos + 1, lost: v.lost.push(e), ..v })
        } else if !v.chats_ok.contains(e.chat) {
            FlushView { stage: Stage::Chat, ..v }
        } else if v.users_failed.contains((e.chat, e.user)) {
            skip_settled(FlushView { pos: v.pos + 1, kept: v.kept.push(e), ..v })
        } else if !v.users_ok.contains((e.chat, e.user)) {
            FlushView { stage: Stage::User, ..v }
        } else {
            FlushView { stage: Stage::Stat, ..v }
        }
    }
}

/// Whether the user of the current entry was found under a name other than
/// the one cached for it.
pub open spec fn name_differs(names: Seq<NameEntry>, user: i64, reply: StoreReply) -> bool {
    match reply {
        StoreReply::FoundUser(stored) => match cached_name(names, user) {
            Some(c) => c != name_view(stored),
            None => false,
        },
        _ => false,
    }
}

/// The flush after `reply` answered the operation of its stage.
pub open spec fn after_reply(v: FlushView, reply: StoreReply, differs: bool) -> FlushView {
    let e = current(v);
    let chat_ok = skip_settled(FlushView { chats_ok: v.chats_ok.push(e.chat), ..v });
    let chat_failed = skip_settled(
        FlushView { chats_failed: v.chats_failed.push(e.chat), failed: true, ..v },
    );
    let user_ok = skip_settled(FlushView { users_ok: v.users_ok.push((e.chat, e.user)), ..v });
    let user_failed = skip_settled(
        FlushView { users_failed: v.users_failed.push((e.chat, e.user)), failed: true, ..v },
    );
    let keep = skip_settled(FlushView { pos: v.pos + 1, kept: v.kept.push(e), failed: true, ..v });
    match v.stage {
        Stage::Chat => match reply {
            StoreReply::Found => chat_ok,
            StoreReply::FoundUser(_) => chat_ok,
            StoreReply::NotFound => FlushView { stage: Stage::InsertChat, ..v },
            _ => chat_failed,
        },
        Stage::InsertChat => match reply {
            StoreReply::Written => chat_ok,
            _ => chat_failed,
        },
        Stage::User => match reply {
            StoreReply::Found => user_ok,
            StoreReply::FoundUser(_) => if differs {
                FlushView { stage: Stage::UpdateUser, ..v }
            } else {
                user_ok
            },
            StoreReply::NotFound => FlushView { stage: Stage::InsertUser, ..v },
            _ => user_failed,
        },
        Stage::UpdateUser | Stage::InsertUser => match reply {
            StoreReply::Written => user_ok,
            _ => user_failed,
        },
        Stage::Stat => match reply {
            StoreReply::Found => FlushView { stage: Stage::WriteStat, ..v },
            StoreReply::NotFound => FlushView { stage: Stage::WriteStat, ..v },
            _ => keep,
        },
        Stage::WriteStat => match reply {
            StoreReply::Written => skip_settled(
                FlushView { pos: v.pos + 1, applied: v.applied.push(e), ..v },
            ),
            _ => keep,
        },
        Stage::Finished => v,
    }
}

fn contains_chat(v: &Vec<i64>, x: i64) -> (r: bool)
    ensures
        r == v@.contains(x),
{
    let mut i: usize = 0;
    while i < v.len()
        invariant
            i <= v.len(),
            forall|j: int| 0 <= j < i ==> v@[j] != x,
        decreases v.len() - i,
    {
        if v[i] == x {
            return true;
        }
        i = i + 1;
    }
    false
}

fn contains_user(v: &Vec<(i64, i64)>, x: (i64, i64)) -> (r: bool)
    ensures
        r == v@.contains(x),
{
    let mut i: usize = 0;
    while i < v.len()
        invariant
            i <= v.len(),
            forall|j: int| 0 <= j < i ==> v@[j] != x,
        decreases v.len() - i,
    {
        if v[i].0 == x.0 && v[i].1 == x.1 {
            return true;
        }
        i = i + 1;
    }
    false
}

/// A copy of a user name.
pub fn copy_name(n: &UserName) -> (r: UserName)
    ensures
        name_view(r) == name_view(*n),
{
    UserName {
        first_name: n.first_name.clone(),
        last_name: match &n.last_name {
            Some(l) => Some(l.clone()),
            None => None,
        },
    }
}

/// Whether two names are the same.
fn same_name(a: &UserName, b: &UserName) -> (r: bool)
    ensures
        r == (name_view(*a) == name_view(*b)),
{
    if !text_eq(a.first_name.as_str(), b.first_name.as_str()) {
        return false;
    }
    match (&a.last_name, &b.last_name) {
        (Some(x), Some(y)) => text_eq(x.as_str(), y.as_str()),
        (None, None) => true,
        _ => false,
    }
}


/// With unique keys, what is queued for a key fits in a `u32`.
proof fn lemma_bounded_unique(q: Seq<QueueEntry>, k: (i64, i64, StatsKind))
    requires
        keys_unique(q),
    ensures
        queued(q, k).0 <= u32::MAX,
        queued(q, k).1 <= u32::MAX,
{
    lemma_queued_unique(q, k);
    if exists|i: int| 0 <= i < q.len() && key_of(q[i]) == k {
        let i = choose|i: int| 0 <= i < q.len() && key_of(q[i]) == k;
        assert(queued(q, k) == (q[i].messages as int, q[i].edits as int));
    }
}

/// Marking one more chat as failed keeps every lost entry's chat marked.
proof fn lemma_failed_grows(v: FlushView, chat: i64)
    requires
        accounted(v),
        v.failed,
    ensures
        accounted(FlushView { chats_failed: v.chats_failed.push(chat), ..v }),
{
    let w = FlushView { chats_failed: v.chats_failed.push(chat), ..v };
    assert forall|i: int| 0 <= i < w.lost.len() implies w.chats_failed.contains(
        #[trigger] w.lost[i].chat,
    ) by {
        assert(v.chats_failed.contains(v.lost[i].chat));
        let j = choose|j: int| 0 <= j < v.chats_failed.len() && v.chats_failed[j] == v.lost[i].chat;
        assert(w.chats_failed[j] == v.lost[i].chat);
    }
}

impl FlushRun {
    /// Moves the current entry to `applied`, `kept` or `lost`, and goes to the next.
    proof fn lemma_settle(
        v: FlushView,
        applied: Seq<QueueEntry>,
        kept: Seq<QueueEntry>,
        lost: Seq<QueueEntry>,
    )
        requires
            accounted(v),
            v.pos < v.pending.len(),
            ({
                let e = current(v);
                ||| (applied == v.applied.push(e) && kept == v.kept && lost == v.lost)
                ||| (applied == v.applied && kept == v.kept.push(e) && lost == v.lost)
                ||| (applied == v.applied && kept == v.kept && lost == v.lost.push(e)
                    && v.chats_failed.contains(e.chat))
            }),
            kept != v.kept ==> v.failed,
        ensures
            accounted(FlushView { pos: v.pos + 1, applied, kept, lost, ..v }),
    {
        let e = current(v);
        let w = FlushView { pos: v.pos + 1, applied, kept, lost, ..v };
        assert(v.pending.subrange(0, v.pos + 1) =~= v.pending.subrange(0, v.pos).push(e));
        assert forall|k: (i64, i64, StatsKind)| #[trigger]
            queued(w.pending.subrange(0, w.pos), k) == plus(
                plus(queued(w.applied, k), queued(w.kept, k)),
                queued(w.lost, k),
            ) by {
            lemma_queued_push(v.pending.subrange(0, v.pos), e, k);
            lemma_queued_push(v.applied, e, k);
            lemma_queued_push(v.kept, e, k);
            lemma_queued_push(v.lost, e, k);
        }
        assert forall|i: int| 0 <= i < w.lost.len() implies w.chats_failed.contains(
            #[trigger] w.lost[i].chat,
        ) by {
            if i < v.lost.len() {
                assert(w.lost[i] == v.lost[i]);
            }
        }
    }

    /// Skips the entries that need no storage work, and asks for the next lookup.
    fn advance(&mut self) -> (op: StoreOp)
        requires
            accounted(old(self)@),
            keys_unique(old(self)@.pending),
        ensures
            flush_wf(final(self)@),
            lookup_op(final(self)@, op),
            final(self)@ == skip_settled(old(self)@),
            final(self)@.pending == old(self)@.pending,
            final(self)@.pos >= old(self)@.pos,
            final(self)@.applied == old(self)@.applied,
            final(self)@.kept.len() >= old(self)@.kept.len(),
            final(self)@.kept.subrange(0, old(self)@.kept.len() as int) == old(self)@.kept,
            final(self)@.chats_ok == old(self)@.chats_ok,
            final(self)@.chats_failed == old(self)@.chats_failed,
            final(self)@.users_ok == old(self)@.users_ok,
            final(self)@.users_failed == old(self)@.users_failed,
            final(self)@.stage == Stage::Chat ==> !final(self)@.chats_ok.contains(
                current(final(self)@).chat,
            ),
            final(self)@.stage == Stage::User ==> !final(self)@.users_ok.contains(
                (current(final(self)@).chat, current(final(self)@).user),
            ),
    {
        while self.pos < self.pending.len()
            invariant
                accounted(self@),
                keys_unique(self@.pending),
                skip_settled(self@) == skip_settled(old(self)@),
                self@.pending == old(self)@.pending,
                self@.pos >= old(self)@.pos,
                self@.applied == old(self)@.applied,
                self@.kept.len() >= old(self)@.kept.len(),
                self@.kept.subrange(0, old(self)@.kept.len() as int) == old(self)@.kept,
                self@.chats_ok == old(self)@.chats_ok,
                self@.chats_failed == old(self)@.chats_failed,
                self@.users_ok == old(self)@.users_ok,
                self@.users_failed == old(self)@.users_failed,
            decreases self.pending.len() - self.pos,
        {
            let e = self.pending[self.pos];
            if contains_chat(&self.chats_failed, e.chat) {
                proof {
                    FlushRun::lemma_settle(self@, self.applied@, self.kept@, self.lost@.push(e));
                }
                self.lost = Ghost(self.lost@.push(e));
                self.pos = self.pos + 1;
                continue;
            }
            if !contains_chat(&self.chats_ok, e.chat) {
                self.stage = Stage::Chat;
                return StoreOp::FindChat { chat: e.chat };
            }
            if contains_user(&self.users_failed, (e.chat, e.user)) {
                proof {
                    assert(self@.users_failed.len() > 0);
                    FlushRun::lemma_settle(self@, self.applied@, self.kept@.push(e), self.lost@);
                }
                let ghost k0 = self.kept@;
                self.kept.push(e);
                proof {
                    assert(self.kept@.subrange(0, old(self)@.kept.len() as int) =~= k0.subrange(
                        0,
                        old(self)@.kept.len() as int,
                    ));
                }
                self.pos = self.pos + 1;
                continue;
            }
            if !contains_user(&self.users_ok, (e.chat, e.user)) {
                self.stage = Stage::User;
                return StoreOp::FindUser { user: e.user };
            }
            self.stage = Stage::Stat;
            return StoreOp::FindStat { chat: e.chat, user: e.user, kind: e.kind };
        }
        self.stage = Stage::Finished;
        StoreOp::Done
    }

    /// The entries that are to be queued again.
    pub fn kept(&self) -> (r: &Vec<QueueEntry>)
        ensures
            r@ == self@.kept,
    {
        &self.kept
    }

    /// Whether the flush is over.
    pub fn finished(&self) -> (r: bool)
        ensures
            r == (self@.stage == Stage::Finished),
    {
        self.stage == Stage::Finished
    }
}

impl Stats {
    /// Takes the queued entries for flushing, and returns the first storage
    /// operation. The queue is left empty.
    pub fn begin_flush(&mut self) -> (r: (FlushRun, StoreOp))
        requires
            stats_wf(old(self)@),
        ensures
            stats_wf(final(self)@),
            final(self)@.queue.len() == 0,
            final(self)@.names == old(self)@.names,
            flush_wf(r.0@),
            r.0@ == skip_settled(
                FlushView {
                    pending: old(self)@.queue,
                    pos: 0,
                    stage: Stage::Chat,
                    chats_ok: Seq::empty(),
                    chats_failed: Seq::empty(),
                    users_ok: Seq::empty(),
                    users_failed: Seq::empty(),
                    kept: Seq::empty(),
                    applied: Seq::empty(),
                    lost: Seq::empty(),
                    failed: false,
                },
            ),
            r.0@.pending == old(self)@.queue,
            r.0@.applied.len() == 0,
            lookup_op(r.0@, r.1),
            old(self)@.queue.len() == 0 ==> r.1 is Done,
    {
        let mut pending: Vec<QueueEntry> = Vec::new();
        std::mem::swap(&mut pending, &mut self.queue);
        let mut run = FlushRun {
            pending,
            pos: 0,
            stage: Stage::Chat,
            chats_ok: Vec::new(),
            chats_failed: Vec::new(),
            users_ok: Vec::new(),
            users_failed: Vec::new(),
            kept: Vec::new(),
            applied: Ghost(Seq::empty()),
            lost: Ghost(Seq::empty()),
            failed: Ghost(false),
        };
        proof {
            assert(run@.pending == old(self)@.queue);
            assert(self@.queue =~= Seq::<QueueEntry>::empty());
            assert(run@.pending.subrange(0, 0) =~= Seq::<QueueEntry>::empty());
            assert(run@.kept.subrange(0, 0) =~= run@.kept);
        }
        let op = run.advance();
        (run, op)
    }

    /// Takes the reply to the last operation, and returns the next one.
    pub fn flush_step(&mut self, run: &mut FlushRun, reply: StoreReply) -> (op: StoreOp)
        requires
            stats_wf(old(self)@),
            flush_wf(old(run)@),
        ensures
            stats_wf(final(self)@),
            flush_wf(final(run)@),
            final(self)@.queue == old(self)@.queue,
            final(run)@ == after_reply(
                old(run)@,
                reply,
                name_differs(old(self)@.names, current(old(run)@).user, reply),
            ),
            // The counts are written exactly as queued, and only a confirmed
            // write counts as applied.
            final(run)@.applied == if old(run)@.stage == Stage::WriteStat && reply is Written {
                old(run)@.applied.push(current(old(run)@))
            } else {
                old(run)@.applied
            },
            ({
                let e = current(old(run)@);
                let cached = cached_name(old(self)@.names, e.user);
                match final(run)@.stage {
                    Stage::InsertChat => op == StoreOp::InsertChat { chat: e.chat },
                    Stage::UpdateUser => op matches StoreOp::UpdateUserName { user, name } && user
                        == e.user && cached == Some(name_view(name)),
                    Stage::InsertUser => op matches StoreOp::InsertUser { user, known_name } && user
                        == e.user && match known_name {
                        Some(n) => cached == Some(name_view(n)),
                        None => cached is None,
                    },
                    Stage::WriteStat => op == if reply is Found {
                        StoreOp::UpdateStat { entry: e }
                    } else {
                        StoreOp::InsertStat { entry: e }
                    },
                    _ => lookup_op(final(run)@, op),
                }
            }),
            // The cached name of a user is dropped once the user is stored
            // with it.
            final(run)@.users_ok.len() > old(run)@.users_ok.len() ==> cached_name(
                final(self)@.names,
                current(old(run)@).user,
            ) is None && forall|u: i64| u != current(old(run)@).user ==> #[trigger] cached_name(
                final(self)@.names,
                u,
            ) == cached_name(old(self)@.names, u),
            final(run)@.users_ok.len() == old(run)@.users_ok.len() ==> final(self)@.names == old(
                self,
            )@.names,
    {
        let stage = run.stage;
        if stage == Stage::Finished {
            return StoreOp::Done;
        }
        let e = run.pending[run.pos];
        match stage {
            Stage::Chat => {
                match reply {
                    StoreReply::Found | StoreReply::FoundUser(_) => {
                        run.chats_ok.push(e.chat);
                        run.advance()
                    },
                    StoreReply::NotFound => {
                        run.stage = Stage::InsertChat;
                        StoreOp::InsertChat { chat: e.chat }
                    },
                    _ => {
                        run.failed = Ghost(true);
                        proof {
                            lemma_failed_grows(run@, e.chat);
                        }
                        run.chats_failed.push(e.chat);
                        assert(run@.chats_failed[run@.chats_failed.len() - 1] == e.chat);
                        run.advance()
                    },
                }
            },
            Stage::InsertChat => {
                match reply {
                    StoreReply::Written => {
                        run.chats_ok.push(e.chat);
                        run.advance()
                    },
                    _ => {
                        run.failed = Ghost(true);
                        proof {
                            lemma_failed_grows(run@, e.chat);
                        }
                        run.chats_failed.push(e.chat);
                        assert(run@.chats_failed[run@.chats_failed.len() - 1] == e.chat);
                        run.advance()
                    },
                }
            },
            Stage::User => {
                match reply {
                    StoreReply::Found => {
                        self.user_resolved(run, e);
                        run.advance()
                    },
                    StoreReply::FoundUser(stored) => {
                        match self.cached(e.user) {
                            Some(name) => {
                                if same_name(&name, &stored) {
                                    self.user_resolved(run, e);
                                    run.advance()
                                } else {
                                    run.stage = Stage::UpdateUser;
                                    StoreOp::UpdateUserName { user: e.user, name }
                                }
                            },
                            None => {
                                self.user_resolved(run, e);
                                run.advance()
                            },
                        }
                    },
                    StoreReply::NotFound => {
                        run.stage = Stage::InsertUser;
                        StoreOp::InsertUser { user: e.user, known_name: self.cached(e.user) }
                    },
                    _ => {
                        run.failed = Ghost(true);
                        run.users_failed.push((e.chat, e.user));
                        run.advance()
                    },
                }
            },
            Stage::UpdateUser | Stage::InsertUser => {
                match reply {
                    StoreReply::Written => {
                        self.user_resolved(run, e);
                        run.advance()
                    },
                    _ => {
                        run.failed = Ghost(true);
                        run.users_failed.push((e.chat, e.user));
                        run.advance()
                    },
                }
            },
            Stage::Stat => {
                match reply {
                    StoreReply::Found => {
                        run.stage = Stage::WriteStat;
                        StoreOp::UpdateStat { entry: e }
                    },
                    StoreReply::NotFound => {
                        run.stage = Stage::WriteStat;
                        StoreOp::InsertStat { entry: e }
                    },
                    _ => {
                        run.failed = Ghost(true);
                        proof {
                            FlushRun::lemma_settle(run@, run.applied@, run.kept@.push(e), run.lost@);
                        }
                        run.kept.push(e);
                        assert(run.pos < run.pending.len());
                        run.pos = run.pos + 1;
                        let ghost k1 = run.kept@;
                        let op = run.advance();
                        assert(run@.kept.subrange(0, k1.len() as int)[k1.len() - 1] == e);
                        op
                    },
                }
            },
            _ => {
                match reply {
                    StoreReply::Written => {
                        proof {
                            FlushRun::lemma_settle(run@, run.applied@.push(e), run.kept@, run.lost@);
                        }
                        run.applied = Ghost(run.applied@.push(e));
                    },
                    _ => {
                        run.failed = Ghost(true);
                        proof {
                            FlushRun::lemma_settle(run@, run.applied@, run.kept@.push(e), run.lost@);
                        }
                        run.kept.push(e);
                    },
                }
                assert(run.pos < run.pending.len());
                run.pos = run.pos + 1;
                let ghost k1 = run.kept@;
                let op = run.advance();
                assert(run@.kept.subrange(0, k1.len() as int) == k1);
                assert(k1.len() > 0 ==> run@.kept[k1.len() - 1] == run@.kept.subrange(
                    0,
                    k1.len() as int,
                )[k1.len() - 1]);
                op
            },
        }
    }

    /// A copy of the cached name of `user`, if any.
    pub(crate) fn cached(&self, user: i64) -> (r: Option<UserName>)
        requires
            stats_wf(self@),
        ensures
            match r {
                Some(n) => cached_name(self@.names, user) == Some(name_view(n)),
                None => cached_name(self@.names, user) is None,
            },
    {
        let mut i: usize = 0;
        while i < self.names.len()
            invariant
                i <= self.names.len(),
                stats_wf(self@),
                forall|j: int| 0 <= j < i ==> self.names@[j].user != user,
            decreases self.names.len() - i,
        {
            if self.names[i].user == user {
                proof {
                    assert(self.names@[i as int].user == user);
                    let j = choose|j: int| 0 <= j < self.names@.len() && self.names@[j].user == user;
                    if j < i {
                        assert(self.names@[j].user != user);
                    } else if j > i {
                        assert(users_unique(self.names@));
                        assert(self.names@[i as int].user != self.names@[j].user);
                    }
                }
                return Some(copy_name(&self.names[i].name));
            }
            i = i + 1;
        }
        None
    }

    /// The user of `e` exists in storage with its latest name: the cached name
    /// is no longer needed.
    fn user_resolved(&mut self, run: &mut FlushRun, e: QueueEntry)
        requires
            stats_wf(old(self)@),
        ensures
            stats_wf(final(self)@),
            final(self)@.queue == old(self)@.queue,
            cached_name(final(self)@.names, e.user) is None,
            forall|u: i64| u != e.user ==> #[trigger] cached_name(final(self)@.names, u) == cached_name(
                old(self)@.names,
                u,
            ),
            final(run)@ == (FlushView {
                users_ok: old(run)@.users_ok.push((e.chat, e.user)),
                ..old(run)@
            }),
    {
        run.users_ok.push((e.chat, e.user));
        match find_name(&self.names, e.user) {
            Some(i) => {
                let ghost before = self.names@;
                self.names.remove(i);
                proof {
                    assert(self.names@ =~= before.subrange(0, i as int) + before.subrange(
                        i + 1,
                        before.len() as int,
                    ));
                    assert forall|a: int, b: int| 0 <= a < b < self.names@.len() implies (
                    #[trigger] self.names@[a]).user != (#[trigger] self.names@[b]).user by {
                        let a0 = if a < i { a } else { a + 1 };
                        let b0 = if b < i { b } else { b + 1 };
                        assert(self.names@[a] == before[a0]);
                        assert(self.names@[b] == before[b0]);
                    }
                    assert forall|j: int| 0 <= j < self.names@.len() implies self.names@[j].user
                        != e.user by {
                        let j0 = if j < i { j } else { j + 1 };
                        assert(self.names@[j] == before[j0]);
                        assert(before[i as int].user == e.user);
                    }
                    assert forall|u: i64| u != e.user implies #[trigger] cached_name(
                        self.names@,
                        u,
                    ) == cached_name(before, u) by {
                        if exists|j: int| 0 <= j < before.len() && before[j].user == u {
                            let j = choose|j: int| 0 <= j < before.len() && before[j].user == u;
                            assert(j != i);
                            let j1 = if j < i { j } else { j - 1 };
                            assert(self.names@[j1] == before[j]);
                            let k = choose|k: int| 0 <= k < self.names@.len() && self.names@[k].user == u;
                            let k0 = if k < i { k } else { k + 1 };
                            assert(self.names@[k] == before[k0]);
                            assert(k0 == j) by {
                                if k0 != j {
                                    let (a, b) = if k0 < j { (k0, j) } else { (j, k0) };
                                    assert(before[a].user != before[b].user);
                                }
                            }
                        }
                        if exists|k: int| 0 <= k < self.names@.len() && self.names@[k].user == u {
                            let k = choose|k: int| 0 <= k < self.names@.len() && self.names@[k].user == u;
                            let k0 = if k < i { k } else { k + 1 };
                            assert(self.names@[k] == before[k0]);
                        }
                    }
                }
            },
            None => {},
        }
    }

    /// Ends a flush: the entries that must be retried are queued again, added
    /// to whatever was queued meanwhile.
    pub fn end_flush(&mut self, run: FlushRun)
        requires
            stats_wf(old(self)@),
            flush_wf(run@),
            run@.stage == Stage::Finished,
        ensures
            stats_wf(final(self)@),
            final(self)@.names == old(self)@.names,
            forall|k: (i64, i64, StatsKind)| #[trigger]
                queued(final(self)@.queue, k) == (
                    sat_add(queued(old(self)@.queue, k).0, queued(run@.kept, k).0),
                    sat_add(queued(old(self)@.queue, k).1, queued(run@.kept, k).1),
                ),
            old(self)@.queue.len() == 0 ==> queue_step(
                run@.pending,
                final(self)@.queue,
                Seq::empty(),
                run@.applied,
                run@.lost,
            ),
            // When storage failed nothing, nothing was dropped or kept back.
            !run@.failed ==> run@.lost.len() == 0 && run@.kept.len() == 0,
            !run@.failed && old(self)@.queue.len() == 0 ==> final(self)@.queue.len() == 0,
    {
        let mut i: usize = 0;
        proof {
            assert(run.kept@.subrange(0, 0) =~= Seq::<QueueEntry>::empty());
            assert forall|k: (i64, i64, StatsKind)| #[trigger]
                queued(self@.queue, k) == (
                    sat_add(queued(old(self)@.queue, k).0, queued(run.kept@.subrange(0, 0), k).0),
                    sat_add(queued(old(self)@.queue, k).1, queued(run.kept@.subrange(0, 0), k).1),
                ) by {
                lemma_bounded_unique(self@.queue, k);
            }
        }
        while i < run.kept.len()
            invariant
                i <= run.kept.len(),
                i == 0 ==> self@.queue == old(self)@.queue,
                stats_wf(self@),
                self@.names == old(self)@.names,
                forall|k: (i64, i64, StatsKind)| #[trigger]
                    queued(self@.queue, k) == (
                        sat_add(
                            queued(old(self)@.queue, k).0,
                            queued(run.kept@.subrange(0, i as int), k).0,
                        ),
                        sat_add(
                            queued(old(self)@.queue, k).1,
                            queued(run.kept@.subrange(0, i as int), k).1,
                        ),
                    ),
            decreases run.kept.len() - i,
        {
            let e = run.kept[i];
            self.increase(e.chat, e.user, e.kind, e.messages, e.edits);
            proof {
                assert(run.kept@.subrange(0, i + 1) =~= run.kept@.subrange(0, i as int).push(e));
                assert forall|k: (i64, i64, StatsKind)| #[trigger]
                    queued(self@.queue, k) == (
                        sat_add(
                            queued(old(self)@.queue, k).0,
                            queued(run.kept@.subrange(0, i + 1), k).0,
                        ),
                        sat_add(
                            queued(old(self)@.queue, k).1,
                            queued(run.kept@.subrange(0, i + 1), k).1,
                        ),
                    ) by {
                    lemma_queued_push(run.kept@.subrange(0, i as int), e, k);
                    lemma_queued_nonneg(run.kept@.subrange(0, i as int), k);
                    lemma_queued_nonneg(old(self)@.queue, k);
                }
            }
            i = i + 1;
        }
        proof {
            if run@.lost.len() > 0 {
                assert(run@.chats_failed.contains(run@.lost[0].chat));
            }
            if !run@.failed {
                assert(self@.queue == old(self)@.queue);
            }
            assert(run.kept@.subrange(0, run.kept@.len() as int) =~= run.kept@);
            if old(self)@.queue.len() == 0 {
                assert forall|k: (i64, i64, StatsKind)| #[trigger]
                    plus(
                        plus(queued(self@.queue, k), queued(run@.applied, k)),
                        queued(run@.lost, k),
                    ) == plus(queued(run@.pending, k), queued(Seq::<QueueEntry>::empty(), k)) by {
                    assert(run@.pending.subrange(0, run@.pos) =~= run@.pending);
                    assert(queued(run@.pending.subrange(0, run@.pos), k) == plus(
                        plus(queued(run@.applied, k), queued(run@.kept, k)),
                        queued(run@.lost, k),
                    ));
                    lemma_bounded_unique(run@.pending, k);
                    lemma_queued_nonneg(run@.applied, k);
                    lemma_queued_nonneg(run@.lost, k);
                    lemma_queued_nonneg(run@.kept, k);
                }
            }
        }
    }
}

// The laws of the queue over time.

/// What the entries of the steps' `which` component hold for `k`, summed over
/// the steps: component 0 is what was recorded, 1 what was written, 2 what was
/// dropped.
pub open spec fn step_total(
    steps: Seq<(Seq<QueueEntry>, Seq<QueueEntry>, Seq<QueueEntry>)>,
    which: int,
    k: (i64, i64, StatsKind),
) -> (int, int)
    decreases steps.len(),
{
    if steps.len() == 0 {
        (0, 0)
    } else {
        let last = steps.last();
        let part = if which == 0 {
            last.0
        } else if which == 1 {
            last.1
        } else {
            last.2
        };
        plus(step_total(steps.drop_last(), which, k), queued(part, k))
    }
}

/// A history of the queue: it starts empty, and each step goes from one queue
/// to the next, recording, writing and dropping the entries that the step
/// names.
pub open spec fn is_history(
    queues: Seq<Seq<QueueEntry>>,
    steps: Seq<(Seq<QueueEntry>, Seq<QueueEntry>, Seq<QueueEntry>)>,
) -> bool {
    &&& queues.len() == steps.len() + 1
    &&& queues[0].len() == 0
    &&& forall|i: int|
        0 <= i < steps.len() ==> queue_step(
            #[trigger] queues[i],
            queues[i + 1],
            steps[i].0,
            steps[i].1,
            steps[i].2,
        )
}

/// Over any history, what was written to storage, what was dropped and what is
/// still queued add up to everything that was recorded.
pub proof fn lemma_history_conserves(
    queues: Seq<Seq<QueueEntry>>,
    steps: Seq<(Seq<QueueEntry>, Seq<QueueEntry>, Seq<QueueEntry>)>,
    k: (i64, i64, StatsKind),
)
    requires
        is_history(queues, steps),
    ensures
        plus(plus(step_total(steps, 1, k), step_total(steps, 2, k)), queued(queues.last(), k))
            == step_total(steps, 0, k),
    decreases steps.len(),
{
    if steps.len() == 0 {
        assert(queues.last() == queues[0]);
        assert(queues[0] =~= Seq::<QueueEntry>::empty());
    } else {
        let n = steps.len() - 1;
        let qs = queues.drop_last();
        let ss = steps.drop_last();
        assert(is_history(qs, ss)) by {
            assert forall|i: int| 0 <= i < ss.len() implies queue_step(
                #[trigger] qs[i],
                qs[i + 1],
                ss[i].0,
                ss[i].1,
                ss[i].2,
            ) by {
                assert(qs[i] == queues[i] && qs[i + 1] == queues[i + 1] && ss[i] == steps[i]);
            }
        }
        lemma_history_conserves(qs, ss, k);
        assert(queue_step(queues[n], queues[n + 1], steps[n].0, steps[n].1, steps[n].2));
        assert(qs.last() == queues[n]);
        assert(queues.last() == queues[n + 1]);
        assert(steps.last() == steps[n]);
        assert(plus(plus(queued(queues[n + 1], k), queued(steps[n].1, k)), queued(steps[n].2, k))
            == plus(queued(queues[n], k), queued(steps[n].0, k)));
    }
}

/// At-least-once delivery: when no flush dropped anything (no chat lookup
/// failed) and the queue has drained, storage received exactly the counts that
/// were recorded, whatever failures were retried along the way. A flush in
/// which storage fails nothing drains the queue (see `Stats::end_flush`).
pub proof fn lemma_at_least_once(
    queues: Seq<Seq<QueueEntry>>,
    steps: Seq<(Seq<QueueEntry>, Seq<QueueEntry>, Seq<QueueEntry>)>,
    k: (i64, i64, StatsKind),
)
    requires
        is_history(queues, steps),
        forall|i: int| 0 <= i < steps.len() ==> (#[trigger] steps[i]).2.len() == 0,
        queued(queues.last(), k) == (0int, 0int),
    ensures
        step_total(steps, 1, k) == step_total(steps, 0, k),
{
    lemma_history_conserves(queues, steps, k);
    lemma_nothing_dropped(steps, k);
}

proof fn lemma_nothing_dropped(
    steps: Seq<(Seq<QueueEntry>, Seq<QueueEntry>, Seq<QueueEntry>)>,
    k: (i64, i64, StatsKind),
)
    requires
        forall|i: int| 0 <= i < steps.len() ==> (#[trigger] steps[i]).2.len() == 0,
    ensures
        step_total(steps, 2, k) == (0int, 0int),
    decreases steps.len(),
{
    if steps.len() > 0 {
        let ss = steps.drop_last();
        assert forall|i: int| 0 <= i < ss.len() implies (#[trigger] ss[i]).2.len() == 0 by {
            assert(ss[i] == steps[i]);
        }
        lemma_nothing_dropped(ss, k);
        assert(steps.last() == steps[steps.len() - 1]);
        assert(steps.last().2 =~= Seq::<QueueEntry>::empty());
    }
}

proof fn lemma_totals_nonneg(
    steps: Seq<(Seq<QueueEntry>, Seq<QueueEntry>, Seq<QueueEntry>)>,
    which: int,
    k: (i64, i64, StatsKind),
)
    ensures
        step_total(steps, which, k).0 >= 0,
        step_total(steps, which, k).1 >= 0,
    decreases steps.len(),
{
    if steps.len() > 0 {
        lemma_totals_nonneg(steps.drop_last(), which, k);
        let last = steps.last();
        lemma_queued_nonneg(last.0, k);
        lemma_queued_nonneg(last.1, k);
        lemma_queued_nonneg(last.2, k);
    }
}

/// No double counting: over any history, storage never receives more for a
/// key than was recorded for it, so an entry written once is never written
/// again.
pub proof fn lemma_no_double_counting(
    queues: Seq<Seq<QueueEntry>>,
    steps: Seq<(Seq<QueueEntry>, Seq<QueueEntry>, Seq<QueueEntry>)>,
    k: (i64, i64, StatsKind),
)
    requires
        is_history(queues, steps),
    ensures
        step_total(steps, 1, k).0 <= step_total(steps, 0, k).0,
        step_total(steps, 1, k).1 <= step_total(steps, 0, k).1,
{
    lemma_history_conserves(queues, steps, k);
    lemma_totals_nonneg(steps, 2, k);
    lemma_queued_nonneg(queues.last(), k);
}

} // verus!
