//! The kinds of messages that statistics are kept for.

use vstd::prelude::*;

use crate::command::trim_start;
use crate::text::{chars_of, is_whitespace, text_eq};

verus! {

/// A kind of message that statistics are kept for.
#[derive(Clone, Copy, Debug, PartialEq, Eq, Structural, Hash)]
pub enum StatsKind {
    Text,
    Command,
    Audio,
    Document,
    Gif,
    Photo,
    Sticker,
    Video,
    Voice,
    VideoNote,
    Contact,
    Location,
    Venue,
    ChatTitle,
    ChatPhoto,
    PinnedMessage,
    Forward,
}

/// What an inbound message holds, as far as statistics are concerned.
pub enum MessageContent {
    Text(String),
    Audio,
    Document { mime_type: Option<String>, file_name: Option<String> },
    Photo,
    Sticker,
    Video,
    Voice,
    VideoNote,
    Contact,
    Location,
    Venue,
    NewChatMembers,
    LeftChatMember,
    NewChatTitle,
    NewChatPhoto,
    DeleteChatPhoto,
    GroupChatCreated,
    SupergroupChatCreated,
    ChannelChatCreated,
    MigrateToChatId,
    MigrateFromChatId,
    PinnedMessage,
    Unknown,
}

/// An inbound message: where it was sent, by whom, and what it holds.
pub struct MessageInfo {
    pub chat: i64,
    pub user: i64,
    pub first_name: String,
    pub last_name: Option<String>,
    pub forwarded: bool,
    pub content: MessageContent,
}

impl StatsKind {
    /// The identifier under which the kind is stored.
    pub open spec fn spec_id(self) -> i16 {
        match self {
            StatsKind::Text => 1,
            StatsKind::Command => 2,
            StatsKind::Audio => 3,
            StatsKind::Document => 4,
            StatsKind::Gif => 5,
            StatsKind::Photo => 6,
            StatsKind::Sticker => 7,
            StatsKind::Video => 8,
            StatsKind::Voice => 9,
            StatsKind::VideoNote => 10,
            StatsKind::Contact => 11,
            StatsKind::Location => 12,
            StatsKind::Venue => 13,
            StatsKind::ChatTitle => 14,
            StatsKind::ChatPhoto => 15,
            StatsKind::PinnedMessage => 16,
            StatsKind::Forward => 17,
        }
    }

    /// The name of the kind as shown to users.
    pub open spec fn spec_name(self) -> Seq<char> {
        match self {
            StatsKind::Text => "text message"@,
            StatsKind::Command => "command"@,
            StatsKind::Audio => "audio message"@,
            StatsKind::Document => "document"@,
            StatsKind::Gif => "GIF"@,
            StatsKind::Photo => "photo"@,
            StatsKind::Sticker => "sticker"@,
            StatsKind::Video => "video"@,
            StatsKind::Voice => "voice message"@,
            StatsKind::VideoNote => "video note"@,
            StatsKind::Contact => "contact"@,
            StatsKind::Location => "location"@,
            StatsKind::Venue => "venue"@,
            StatsKind::ChatTitle => "changed chat title"@,
            StatsKind::ChatPhoto => "changed chat photo"@,
            StatsKind::PinnedMessage => "pinned"@,
            StatsKind::Forward => "forward"@,
        }
    }

    /// The kind stored under `id`, if any.
    pub fn from_id(id: i16) -> (r: Option<StatsKind>)
        ensures
            match r {
                Some(k) => k.spec_id() == id,
                None => forall|k: StatsKind| k.spec_id() != id,
            },
    {
        match id {
            1 => Some(StatsKind::Text),
            2 => Some(StatsKind::Command),
            3 => Some(StatsKind::Audio),
            4 => Some(StatsKind::Document),
            5 => Some(StatsKind::Gif),
            6 => Some(StatsKind::Photo),
            7 => Some(StatsKind::Sticker),
            8 => Some(StatsKind::Video),
            9 => Some(StatsKind::Voice),
            10 => Some(StatsKind::VideoNote),
            11 => Some(StatsKind::Contact),
            12 => Some(StatsKind::Location),
            13 => Some(StatsKind::Venue),
            14 => Some(StatsKind::ChatTitle),
            15 => Some(StatsKind::ChatPhoto),
            16 => Some(StatsKind::PinnedMessage),
            17 => Some(StatsKind::Forward),
            _ => None,
        }
    }

    /// The identifier under which the kind is stored.
    pub fn id(&self) -> (r: i16)
        ensures
            r == self.spec_id(),
            1 <= r <= 17,
    {
        match self {
            StatsKind::Text => 1,
            StatsKind::Command => 2,
            StatsKind::Audio => 3,
            StatsKind::Document => 4,
            StatsKind::Gif => 5,
            StatsKind::Photo => 6,
            StatsKind::Sticker => 7,
            StatsKind::Video => 8,
            StatsKind::Voice => 9,
            StatsKind::VideoNote => 10,
            StatsKind::Contact => 11,
            StatsKind::Location => 12,
            StatsKind::Venue => 13,
            StatsKind::ChatTitle => 14,
            StatsKind::ChatPhoto => 15,
            StatsKind::PinnedMessage => 16,
            StatsKind::Forward => 17,
        }
    }

    /// The name of the kind as shown to users.
    pub fn name(&self) -> (r: &'static str)
        ensures
            r@ == self.spec_name(),
    {
        match self {
            StatsKind::Text => "text message",
            StatsKind::Command => "command",
            StatsKind::Audio => "audio message",
            StatsKind::Document => "document",
            StatsKind::Gif => "GIF",
            StatsKind::Photo => "photo",
            StatsKind::Sticker => "sticker",
            StatsKind::Video => "video",
            StatsKind::Voice => "voice message",
            StatsKind::VideoNote => "video note",
            StatsKind::Contact => "contact",
            StatsKind::Location => "location",
            StatsKind::Venue => "venue",
            StatsKind::ChatTitle => "changed chat title",
            StatsKind::ChatPhoto => "changed chat photo",
            StatsKind::PinnedMessage => "pinned",
            StatsKind::Forward => "forward",
        }
    }

    /// The kind that counts `message`, or `None` for messages that are not counted.
    /// A forwarded message counts as a forward whatever it holds.
    pub fn from_message(message: &MessageInfo) -> (r: Option<StatsKind>)
        ensures
            r == kind_of_message(message.forwarded, &message.content),
    {
        if message.forwarded {
            return Some(StatsKind::Forward);
        }
        match &message.content {
            MessageContent::Text(data) => {
                if starts_with_slash(data.as_str()) {
                    Some(StatsKind::Command)
                } else {
                    Some(StatsKind::Text)
                }
            },
            MessageContent::Audio => Some(StatsKind::Audio),
            MessageContent::Document { mime_type, file_name } => {
                if is_gif_document(mime_type, file_name) {
                    Some(StatsKind::Gif)
                } else {
                    Some(StatsKind::Document)
                }
            },
            MessageContent::Photo => Some(StatsKind::Photo),
            MessageContent::Sticker => Some(StatsKind::Sticker),
            MessageContent::Video => Some(StatsKind::Video),
            MessageContent::Voice => Some(StatsKind::Voice),
            MessageContent::VideoNote => Some(StatsKind::VideoNote),
            MessageContent::Contact => Some(StatsKind::Contact),
            MessageContent::Location => Some(StatsKind::Location),
            MessageContent::Venue => Some(StatsKind::Venue),
            MessageContent::NewChatTitle => Some(StatsKind::ChatTitle),
            MessageContent::NewChatPhoto => Some(StatsKind::ChatPhoto),
            MessageContent::DeleteChatPhoto => Some(StatsKind::ChatPhoto),
            MessageContent::PinnedMessage => Some(StatsKind::PinnedMessage),
            _ => None,
        }
    }
}

/// Storing a kind and reading it back gives the same kind.
pub proof fn lemma_id_round_trip(k: StatsKind)
    ensures
        1 <= k.spec_id() <= 17,
        forall|j: StatsKind| j.spec_id() == k.spec_id() ==> j == k,
{
}

/// Whether the text, without leading white space, starts with a slash.
pub open spec fn is_command_text(s: Seq<char>) -> bool {
    trim_start(s).len() > 0 && trim_start(s)[0] == '/'
}

/// Whether a document is an animation: a GIF, or an MP4 named as Giphy names them.
pub open spec fn is_gif_view(mime_type: Option<Seq<char>>, file_name: Option<Seq<char>>) -> bool {
    ||| mime_type == Some("image/gif"@)
    ||| (mime_type == Some("video/mp4"@) && file_name == Some("giphy.mp4"@))
}

/// The view of an optional string.
pub open spec fn opt_view(s: &Option<String>) -> Option<Seq<char>> {
    match s {
        Some(t) => Some(t@),
        None => None,
    }
}

/// The kind that counts a message with the given content.
pub open spec fn kind_of_message(forwarded: bool, content: &MessageContent) -> Option<StatsKind> {
    if forwarded {
        Some(StatsKind::Forward)
    } else {
        match content {
            MessageContent::Text(data) => if is_command_text(data@) {
                Some(StatsKind::Command)
            } else {
                Some(StatsKind::Text)
            },
            MessageContent::Audio => Some(StatsKind::Audio),
            MessageContent::Document { mime_type, file_name } => if is_gif_view(
                opt_view(mime_type),
                opt_view(file_name),
            ) {
                Some(StatsKind::Gif)
            } else {
                Some(StatsKind::Document)
            },
            MessageContent::Photo => Some(StatsKind::Photo),
            MessageContent::Sticker => Some(StatsKind::Sticker),
            MessageContent::Video => Some(StatsKind::Video),
            MessageContent::Voice => Some(StatsKind::Voice),
            MessageContent::VideoNote => Some(StatsKind::VideoNote),
            MessageContent::Contact => Some(StatsKind::Contact),
            MessageContent::Location => Some(StatsKind::Location),
            MessageContent::Venue => Some(StatsKind::Venue),
            MessageContent::NewChatTitle => Some(StatsKind::ChatTitle),
            MessageContent::NewChatPhoto => Some(StatsKind::ChatPhoto),
            MessageContent::DeleteChatPhoto => Some(StatsKind::ChatPhoto),
            MessageContent::PinnedMessage => Some(StatsKind::PinnedMessage),
            _ => None,
        }
    }
}

fn starts_with_slash(s: &str) -> (r: bool)
    ensures
        r == is_command_text(s@),
{
    let cs = chars_of(s);
    let mut i: usize = 0;
    assert(s@.subrange(0, s@.len() as int) =~= s@);
    while i < cs.len() && is_whitespace(cs[i])
        invariant
            i <= cs.len(),
            cs@ == s@,
            trim_start(s@) == trim_start(s@.subrange(i as int, s@.len() as int)),
        decreases cs.len() - i,
    {
        assert(s@.subrange(i as int, s@.len() as int).drop_first() =~= s@.subrange(
            i + 1,
            s@.len() as int,
        ));
        i = i + 1;
    }
    i < cs.len() && cs[i] == '/'
}

fn opt_eq(s: &Option<String>, t: &str) -> (r: bool)
    ensures
        r == (opt_view(s) == Some(t@)),
{
    match s {
        Some(v) => text_eq(v.as_str(), t),
        None => false,
    }
}

fn is_gif_document(mime_type: &Option<String>, file_name: &Option<String>) -> (r: bool)
    ensures
        r == is_gif_view(opt_view(mime_type), opt_view(file_name)),
{
    opt_eq(mime_type, "image/gif") || (opt_eq(mime_type, "video/mp4") && opt_eq(
        file_name,
        "giphy.mp4",
    ))
}

} // verus!
