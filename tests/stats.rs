use riscbot::stats::{QueueEntry, Stats, StoreOp, StoreReply, UserName};
use riscbot::stats_kind::{MessageContent, MessageInfo, StatsKind};

/// An in-memory table store that counts the calls made to it.
#[derive(Default)]
struct Store {
    chats: Vec<i64>,
    users: Vec<(i64, String, Option<String>)>,
    rows: Vec<(i64, i64, StatsKind, u64, u64)>,
    fail_chat_lookup: bool,
    fail_stat_writes: bool,
    calls: usize,
    chat_inserts: usize,
    user_inserts: usize,
    user_updates: usize,
    stat_inserts: usize,
    stat_updates: usize,
}

impl Store {
    fn perform(&mut self, op: &StoreOp) -> StoreReply {
        self.calls += 1;
        match op {
            StoreOp::FindChat { chat } => {
                if self.fail_chat_lookup {
                    StoreReply::Failed
                } else if self.chats.contains(chat) {
                    StoreReply::Found
                } else {
                    StoreReply::NotFound
                }
            }
            StoreOp::InsertChat { chat } => {
                self.chat_inserts += 1;
                self.chats.push(*chat);
                StoreReply::Written
            }
            StoreOp::FindUser { user } => match self.users.iter().find(|u| u.0 == *user) {
                Some(u) => StoreReply::FoundUser(UserName {
                    first_name: u.1.clone(),
                    last_name: u.2.clone(),
                }),
                None => StoreReply::NotFound,
            },
            StoreOp::UpdateUserName { user, name } => {
                self.user_updates += 1;
                for u in self.users.iter_mut() {
                    if u.0 == *user {
                        u.1 = name.first_name.clone();
                        u.2 = name.last_name.clone();
                    }
                }
                StoreReply::Written
            }
            StoreOp::InsertUser { user, known_name } => {
                self.user_inserts += 1;
                let (first, last) = match known_name {
                    Some(n) => (n.first_name.clone(), n.last_name.clone()),
                    None => (String::new(), None),
                };
                self.users.push((*user, first, last));
                StoreReply::Written
            }
            StoreOp::FindStat { chat, user, kind } => {
                if self.rows.iter().any(|r| r.0 == *chat && r.1 == *user && r.2 == *kind) {
                    StoreReply::Found
                } else {
                    StoreReply::NotFound
                }
            }
            StoreOp::UpdateStat { entry } => {
                self.stat_updates += 1;
                if self.fail_stat_writes {
                    return StoreReply::Failed;
                }
                for r in self.rows.iter_mut() {
                    if r.0 == entry.chat && r.1 == entry.user && r.2 == entry.kind {
                        r.3 += entry.messages as u64;
                        r.4 += entry.edits as u64;
                    }
                }
                StoreReply::Written
            }
            StoreOp::InsertStat { entry } => {
                self.stat_inserts += 1;
                if self.fail_stat_writes {
                    return StoreReply::Failed;
                }
                self.rows.push((
                    entry.chat,
                    entry.user,
                    entry.kind,
                    entry.messages as u64,
                    entry.edits as u64,
                ));
                StoreReply::Written
            }
            StoreOp::Done => StoreReply::Failed,
        }
    }

    fn row(&self, chat: i64, user: i64, kind: StatsKind) -> Option<(u64, u64)> {
        self.rows
            .iter()
            .find(|r| r.0 == chat && r.1 == user && r.2 == kind)
            .map(|r| (r.3, r.4))
    }
}

fn flush(stats: &mut Stats, store: &mut Store) {
    let (mut run, mut op) = stats.begin_flush();
    while !matches!(op, StoreOp::Done) {
        let reply = store.perform(&op);
        op = stats.flush_step(&mut run, reply);
    }
    assert!(run.finished());
    stats.end_flush(run);
}

fn text_message(chat: i64, user: i64, text: &str) -> MessageInfo {
    MessageInfo {
        chat,
        user,
        first_name: "Ann".to_string(),
        last_name: None,
        forwarded: false,
        content: MessageContent::Text(text.to_string()),
    }
}

#[test]
fn first_flush_inserts_chat_user_and_row() {
    let mut stats = Stats::new();
    stats.increase(1, 42, StatsKind::Text, 1, 0);
    let mut store = Store::default();
    flush(&mut stats, &mut store);
    assert_eq!(store.chat_inserts, 1);
    assert_eq!(store.user_inserts, 1);
    assert_eq!(store.stat_inserts, 1);
    assert_eq!(store.row(1, 42, StatsKind::Text), Some((1, 0)));
    assert!(stats.queued_entries().is_empty());
}

#[test]
fn flushing_an_empty_queue_calls_storage_nothing() {
    let mut stats = Stats::new();
    stats.increase(1, 42, StatsKind::Text, 1, 0);
    let mut store = Store::default();
    flush(&mut stats, &mut store);
    let calls = store.calls;
    flush(&mut stats, &mut store);
    assert_eq!(store.calls, calls);
    let (_, op) = Stats::new().begin_flush();
    assert!(matches!(op, StoreOp::Done));
}

#[test]
fn failed_row_write_is_retried_without_recreating_chat_or_user() {
    let mut stats = Stats::new();
    stats.increase(1, 42, StatsKind::Text, 1, 0);
    let mut store = Store::default();
    store.fail_stat_writes = true;
    flush(&mut stats, &mut store);
    assert_eq!(stats.pending(1, 42, StatsKind::Text), (1, 0));
    assert_eq!(store.chat_inserts, 1);
    assert_eq!(store.user_inserts, 1);
    store.fail_stat_writes = false;
    flush(&mut stats, &mut store);
    assert_eq!(store.chat_inserts, 1);
    assert_eq!(store.user_inserts, 1);
    assert_eq!(store.row(1, 42, StatsKind::Text), Some((1, 0)));
    assert!(stats.queued_entries().is_empty());
}

#[test]
fn every_count_arrives_despite_failures() {
    let mut stats = Stats::new();
    let mut store = Store::default();
    store.fail_stat_writes = true;
    let mut sent = (0u64, 0u64);
    for round in 0..5u32 {
        stats.increase(7, 8, StatsKind::Photo, round + 1, round);
        stats.increase(7, 9, StatsKind::Text, 2, 0);
        sent.0 += (round + 1) as u64;
        sent.1 += round as u64;
        flush(&mut stats, &mut store);
    }
    store.fail_stat_writes = false;
    flush(&mut stats, &mut store);
    assert_eq!(store.row(7, 8, StatsKind::Photo), Some(sent));
    assert_eq!(store.row(7, 9, StatsKind::Text), Some((10, 0)));
    assert!(stats.queued_entries().is_empty());
}

#[test]
fn flushed_counts_are_not_written_again() {
    let mut stats = Stats::new();
    let mut store = Store::default();
    stats.increase(3, 4, StatsKind::Sticker, 2, 1);
    flush(&mut stats, &mut store);
    flush(&mut stats, &mut store);
    assert_eq!(store.row(3, 4, StatsKind::Sticker), Some((2, 1)));
    stats.increase(3, 4, StatsKind::Sticker, 1, 0);
    flush(&mut stats, &mut store);
    assert_eq!(store.row(3, 4, StatsKind::Sticker), Some((3, 1)));
    assert_eq!(store.stat_inserts, 1);
    assert_eq!(store.stat_updates, 1);
}

#[test]
fn failed_chat_lookup_drops_the_chat() {
    let mut stats = Stats::new();
    let mut store = Store::default();
    store.fail_chat_lookup = true;
    stats.increase(5, 6, StatsKind::Text, 1, 0);
    stats.increase(5, 7, StatsKind::Text, 1, 0);
    flush(&mut stats, &mut store);
    assert!(stats.queued_entries().is_empty());
    assert_eq!(store.rows.len(), 0);
}

#[test]
fn increases_accumulate_per_key() {
    let mut stats = Stats::new();
    stats.increase(1, 2, StatsKind::Text, 1, 0);
    stats.increase(1, 2, StatsKind::Text, 0, 1);
    stats.increase(1, 2, StatsKind::Command, 1, 0);
    assert_eq!(stats.pending(1, 2, StatsKind::Text), (1, 1));
    assert_eq!(stats.pending(1, 2, StatsKind::Command), (1, 0));
    assert_eq!(stats.pending(1, 3, StatsKind::Text), (0, 0));
    assert_eq!(stats.queued_entries().len(), 2);
}

#[test]
fn counts_saturate() {
    let mut stats = Stats::new();
    stats.increase(1, 2, StatsKind::Text, u32::MAX, 0);
    stats.increase(1, 2, StatsKind::Text, 5, 0);
    assert_eq!(stats.pending(1, 2, StatsKind::Text), (u32::MAX, 0));
}

#[test]
fn message_stats_classify_and_remember_names() {
    let mut stats = Stats::new();
    stats.increase_stats(&text_message(1, 2, "  /ping"), 1, 0);
    stats.increase_message_stats(&text_message(1, 2, "hello"), 0, 1);
    assert_eq!(stats.pending(1, 2, StatsKind::Command), (1, 0));
    assert_eq!(stats.pending(1, 2, StatsKind::Text), (0, 1));
    assert_eq!(stats.name_of(2).map(|n| n.first_name), Some("Ann".to_string()));
    let mut later = text_message(1, 2, "x");
    later.first_name = "Bob".to_string();
    stats.increase_stats(&later, 1, 0);
    assert_eq!(stats.name_of(2).map(|n| n.first_name), Some("Ann".to_string()));
}

#[test]
fn uncounted_kinds_only_remember_the_name() {
    let mut stats = Stats::new();
    let mut m = text_message(1, 2, "");
    m.content = MessageContent::NewChatMembers;
    stats.increase_stats(&m, 1, 0);
    assert!(stats.queued_entries().is_empty());
    assert!(stats.name_of(2).is_some());
}

#[test]
fn changed_name_is_written_and_forgotten() {
    let mut stats = Stats::new();
    let mut store = Store::default();
    store.chats.push(1);
    store.users.push((2, "Old".to_string(), None));
    let mut m = text_message(1, 2, "hi");
    m.last_name = Some("Smith".to_string());
    stats.increase_stats(&m, 1, 0);
    flush(&mut stats, &mut store);
    assert_eq!(store.user_updates, 1);
    assert_eq!(store.users[0].1, "Ann");
    assert_eq!(store.users[0].2, Some("Smith".to_string()));
    assert!(stats.name_of(2).is_none());
}

#[test]
fn same_name_is_not_rewritten() {
    let mut stats = Stats::new();
    let mut store = Store::default();
    store.chats.push(1);
    store.users.push((2, "Ann".to_string(), None));
    stats.increase_stats(&text_message(1, 2, "hi"), 1, 0);
    flush(&mut stats, &mut store);
    assert_eq!(store.user_updates, 0);
    assert_eq!(store.user_inserts, 0);
    assert!(stats.name_of(2).is_none());
}

#[test]
fn new_user_is_inserted_with_cached_name() {
    let mut stats = Stats::new();
    let mut store = Store::default();
    stats.increase_stats(&text_message(1, 2, "hi"), 1, 0);
    flush(&mut stats, &mut store);
    assert_eq!(store.users, vec![(2, "Ann".to_string(), None)]);
}

#[test]
fn queued_entries_list_keys() {
    let mut stats = Stats::new();
    stats.increase(1, 2, StatsKind::Voice, 3, 4);
    assert_eq!(
        stats.queued_entries(),
        vec![QueueEntry { chat: 1, user: 2, kind: StatsKind::Voice, messages: 3, edits: 4 }]
    );
}
