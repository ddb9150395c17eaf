use riscbot::report::{KindTotal, StoredStat};
use riscbot::stats::Stats;
use riscbot::stats_kind::{MessageContent, MessageInfo, StatsKind};

fn row(user: i64, name: &str, kind: StatsKind, messages: u32, edits: u32) -> StoredStat {
    StoredStat {
        user,
        first_name: name.to_string(),
        last_name: None,
        kind_id: kind.id(),
        messages,
        edits,
    }
}

#[test]
fn stored_and_queued_counts_are_merged_and_ranked() {
    let mut stats = Stats::new();
    stats.increase(10, 1, StatsKind::Text, 5, 0);
    stats.increase(10, 3, StatsKind::Photo, 1, 0);
    stats.increase(11, 1, StatsKind::Text, 100, 0);
    let rows = vec![
        row(1, "Ann", StatsKind::Text, 2, 1),
        row(2, "Bob", StatsKind::Text, 20, 0),
        row(1, "Ann", StatsKind::Sticker, 1, 0),
    ];
    let report = stats.fetch_chat_stats(&rows, 10, None, Some(1_500_000_000));
    let users: Vec<(String, i64, u64, u64)> = report
        .users()
        .iter()
        .map(|u| (u.name.clone(), u.user, u.messages, u.edits))
        .collect();
    assert_eq!(
        users,
        vec![
            ("Bob".to_string(), 2, 20, 0),
            ("Ann".to_string(), 1, 8, 1),
            ("3".to_string(), 3, 1, 0),
        ]
    );
    assert_eq!(report.total_messages(), 29);
    assert_eq!(report.total_edits(), 1);
    assert_eq!(report.since(), Some(1_500_000_000));
    assert!(report.specific().is_none());
}

#[test]
fn cached_name_wins_for_queued_users() {
    let mut stats = Stats::new();
    stats.increase_stats(
        &MessageInfo {
            chat: 10,
            user: 1,
            first_name: "Annie".to_string(),
            last_name: None,
            forwarded: false,
            content: MessageContent::Text("hey".to_string()),
        },
        1,
        0,
    );
    let rows = vec![row(1, "Ann", StatsKind::Text, 2, 0)];
    let report = stats.fetch_chat_stats(&rows, 10, None, None);
    assert_eq!(report.users()[0].name, "Annie");
    assert_eq!(report.users()[0].messages, 3);
}

#[test]
fn per_kind_counts_of_a_user() {
    let mut stats = Stats::new();
    stats.increase(10, 1, StatsKind::Photo, 4, 0);
    let rows = vec![
        row(1, "Ann", StatsKind::Text, 2, 1),
        row(1, "Ann", StatsKind::Sticker, 0, 0),
        row(2, "Bob", StatsKind::Voice, 9, 0),
        StoredStat {
            user: 1,
            first_name: "Ann".to_string(),
            last_name: None,
            kind_id: 99,
            messages: 50,
            edits: 0,
        },
    ];
    let report = stats.fetch_chat_stats(&rows, 10, Some(1), None);
    let specific = report.specific().clone().expect("a user was selected");
    assert_eq!(
        specific,
        vec![
            KindTotal { kind: StatsKind::Photo, messages: 4, edits: 0 },
            KindTotal { kind: StatsKind::Text, messages: 2, edits: 1 },
        ]
    );
}

#[test]
fn selected_user_without_counts_has_no_breakdown() {
    let stats = Stats::new();
    let rows = vec![row(2, "Bob", StatsKind::Voice, 9, 0)];
    let report = stats.fetch_chat_stats(&rows, 10, Some(1), None);
    assert!(report.specific().is_none());
}

#[test]
fn zero_counts_give_an_empty_breakdown() {
    let stats = Stats::new();
    let rows = vec![row(1, "Ann", StatsKind::Text, 0, 0)];
    let report = stats.fetch_chat_stats(&rows, 10, Some(1), None);
    assert_eq!(report.specific().clone(), Some(vec![]));
}

#[test]
fn empty_chat_report() {
    let stats = Stats::new();
    let report = stats.fetch_chat_stats(&vec![], 10, None, None);
    assert!(report.users().is_empty());
    assert_eq!(report.total_messages(), 0);
    assert_eq!(report.total_edits(), 0);
}
