use riscbot::error::{format_error, Error, StatusMessageFailure};
use riscbot::exec_status::ExecStatus;
use riscbot::sandbox::{sandbox_args, SANDBOX_PROGRAM};
use riscbot::stats_kind::{MessageContent, MessageInfo, StatsKind};

fn message(forwarded: bool, content: MessageContent) -> MessageInfo {
    MessageInfo {
        chat: 1,
        user: 2,
        first_name: "Ann".to_string(),
        last_name: None,
        forwarded,
        content,
    }
}

#[test]
fn ids_round_trip() {
    for id in 1..=17i16 {
        let kind = StatsKind::from_id(id).expect("valid id");
        assert_eq!(kind.id(), id);
    }
    assert_eq!(StatsKind::from_id(0), None);
    assert_eq!(StatsKind::from_id(18), None);
    assert_eq!(StatsKind::from_id(-1), None);
}

#[test]
fn kind_names() {
    assert_eq!(StatsKind::Text.name(), "text message");
    assert_eq!(StatsKind::Gif.name(), "GIF");
    assert_eq!(StatsKind::ChatPhoto.name(), "changed chat photo");
    assert_eq!(StatsKind::Forward.id(), 17);
}

#[test]
fn forward_wins_over_content() {
    let m = message(true, MessageContent::Photo);
    assert_eq!(StatsKind::from_message(&m), Some(StatsKind::Forward));
    let m = message(true, MessageContent::Unknown);
    assert_eq!(StatsKind::from_message(&m), Some(StatsKind::Forward));
}

#[test]
fn text_and_commands() {
    let m = message(false, MessageContent::Text("  /start".to_string()));
    assert_eq!(StatsKind::from_message(&m), Some(StatsKind::Command));
    let m = message(false, MessageContent::Text("hi /start".to_string()));
    assert_eq!(StatsKind::from_message(&m), Some(StatsKind::Text));
    let m = message(false, MessageContent::Text(String::new()));
    assert_eq!(StatsKind::from_message(&m), Some(StatsKind::Text));
}

#[test]
fn documents_and_gifs() {
    let doc = |mime: Option<&str>, file: Option<&str>| {
        message(
            false,
            MessageContent::Document {
                mime_type: mime.map(|s| s.to_string()),
                file_name: file.map(|s| s.to_string()),
            },
        )
    };
    assert_eq!(StatsKind::from_message(&doc(Some("image/gif"), None)), Some(StatsKind::Gif));
    assert_eq!(
        StatsKind::from_message(&doc(Some("video/mp4"), Some("giphy.mp4"))),
        Some(StatsKind::Gif)
    );
    assert_eq!(
        StatsKind::from_message(&doc(Some("video/mp4"), Some("cat.mp4"))),
        Some(StatsKind::Document)
    );
    assert_eq!(StatsKind::from_message(&doc(None, None)), Some(StatsKind::Document));
}

#[test]
fn other_kinds() {
    let cases = vec![
        (MessageContent::Audio, Some(StatsKind::Audio)),
        (MessageContent::Sticker, Some(StatsKind::Sticker)),
        (MessageContent::VideoNote, Some(StatsKind::VideoNote)),
        (MessageContent::DeleteChatPhoto, Some(StatsKind::ChatPhoto)),
        (MessageContent::NewChatTitle, Some(StatsKind::ChatTitle)),
        (MessageContent::PinnedMessage, Some(StatsKind::PinnedMessage)),
        (MessageContent::NewChatMembers, None),
        (MessageContent::MigrateToChatId, None),
        (MessageContent::Unknown, None),
    ];
    for (content, expected) in cases {
        assert_eq!(StatsKind::from_message(&message(false, content)), expected);
    }
}

#[test]
fn placeholder_replies() {
    match ExecStatus::create_status_msg(Some(5), 7) {
        Ok((msg, status)) => {
            assert_eq!(msg, 5);
            assert!(!status.completed());
            assert_eq!(status.build_status_msg(), "<i>Executing command...</i>");
        }
        Err(_) => panic!("a reply with a message is no error"),
    }
    assert_eq!(
        ExecStatus::create_status_msg::<u8>(None, 7).err(),
        Some(Error::StatusMessage(StatusMessageFailure::EmptyResponse))
    );
    assert_eq!(Error::Throttle.message(), "failed to throttle status update messages");
}

#[test]
fn error_report_lists_causes() {
    let causes = vec![
        "failed to invoke command".to_string(),
        String::new(),
        "failed to execute user shell command".to_string(),
    ];
    assert_eq!(
        format_error(&causes),
        "Whoops! An error occurred while processing your message. 😱\n\n\
         *error:* _failed to invoke command_\n\
         *caused by:* _failed to execute user shell command_"
    );
    assert_eq!(
        format_error(&vec![String::new()]),
        "Whoops! An error occurred while processing your message. 😱\n\n\
         *error:* _an undefined error occurred_"
    );
}

#[test]
fn sandbox_runs_bash_with_limits() {
    assert_eq!(SANDBOX_PROGRAM, "docker");
    let args = sandbox_args("echo hi");
    assert_eq!(
        args,
        vec![
            "run", "--rm", "--cpus", "0.2", "--workdir", "/root", "--restart", "no",
            "--stop-timeout", "1", "risc-exec", "timeout", "--signal=SIGTERM",
            "--kill-after=5", "300", "bash", "-c", "echo hi",
        ]
    );
}

#[test]
fn every_error_has_a_message() {
    use_messages(&[
        (Error::Help, "failed to send help response message"),
        (
            Error::StatusMessage(StatusMessageFailure::Transport),
            "failed to send command status message",
        ),
        (
            Error::Execute(riscbot::error::ExecutorError::Spawn),
            "failed to execute user shell command",
        ),
        (Error::Throttle, "failed to throttle status update messages"),
    ]);
}

fn use_messages(cases: &[(Error, &str)]) {
    for (error, text) in cases {
        assert_eq!(error.message(), *text);
    }
}
