//! The errors of executing a command and reporting on it.

use vstd::prelude::*;

use crate::text::{push_str, string_of};

verus! {

/// Why running a sandboxed command failed.
#[derive(Clone, Copy, Debug, PartialEq, Eq, Structural)]
pub enum ExecutorError {
    /// The sandbox could not be started.
    Spawn,
    /// Reading the command's output failed.
    CollectOutput,
    /// Waiting for the command to end failed.
    Complete,
}

/// Why the placeholder status message could not be sent.
#[derive(Clone, Copy, Debug, PartialEq, Eq, Structural)]
pub enum StatusMessageFailure {
    /// The messaging platform answered without a message.
    EmptyResponse,
    /// Sending failed.
    Transport,
}

/// An error of the exec action.
#[derive(Clone, Copy, Debug, PartialEq, Eq, Structural)]
pub enum Error {
    /// Sending the usage help failed.
    Help,
    /// Sending the placeholder status message failed.
    StatusMessage(StatusMessageFailure),
    /// Running the command failed.
    Execute(ExecutorError),
    /// The timer that paces status updates failed.
    Throttle,
}

impl Error {
    /// A short description of the error.
    pub fn message(&self) -> (r: &'static str)
        ensures
            r@ == error_message(*self),
    {
        match self {
            Error::Help => "failed to send help response message",
            Error::StatusMessage(_) => "failed to send command status message",
            Error::Execute(_) => "failed to execute user shell command",
            Error::Throttle => "failed to throttle status update messages",
        }
    }
}

/// A short description of the error.
pub open spec fn error_message(e: Error) -> Seq<char> {
    match e {
        Error::Help => "failed to send help response message"@,
        Error::StatusMessage(_) => "failed to send command status message"@,
        Error::Execute(_) => "failed to execute user shell command"@,
        Error::Throttle => "failed to throttle status update messages"@,
    }
}

/// The texts of an error and its causes that are shown: the non-empty ones, in order.
pub open spec fn shown_causes(causes: Seq<String>) -> Seq<Seq<char>>
    decreases causes.len(),
{
    if causes.len() == 0 {
        Seq::empty()
    } else if causes.last()@.len() > 0 {
        shown_causes(causes.drop_last()).push(causes.last()@)
    } else {
        shown_causes(causes.drop_last())
    }
}

/// One Markdown line per shown text: the first is the error, the others its causes.
pub open spec fn cause_lines(shown: Seq<Seq<char>>) -> Seq<char>
    decreases shown.len(),
{
    if shown.len() == 0 {
        Seq::empty()
    } else if shown.len() == 1 {
        "*error:* _"@ + shown[0] + "_"@
    } else {
        cause_lines(shown.drop_last()) + "\n"@ + "*caused by:* _"@ + shown.last() + "_"@
    }
}

/// The Markdown message that tells a user that handling their message failed.
pub open spec fn error_report(causes: Seq<String>) -> Seq<char> {
    "Whoops! An error occurred while processing your message. 😱\n\n"@ + if shown_causes(
        causes,
    ).len() > 0 {
        cause_lines(shown_causes(causes))
    } else {
        "*error:* _an undefined error occurred_"@
    }
}

/// The Markdown message for an error whose description and causes, outermost
/// first, are `causes`.
pub fn format_error(causes: &Vec<String>) -> (r: String)
    ensures
        r@ == error_report(causes@),
{
    let mut lines: Vec<char> = Vec::new();
    let mut shown: usize = 0;
    let mut i: usize = 0;
    while i < causes.len()
        invariant
            i <= causes.len(),
            shown == shown_causes(causes@.subrange(0, i as int)).len(),
            shown <= i,
            lines@ == cause_lines(shown_causes(causes@.subrange(0, i as int))),
        decreases causes.len() - i,
    {
        let ghost before = shown_causes(causes@.subrange(0, i as int));
        assert(causes@.subrange(0, i + 1).drop_last() =~= causes@.subrange(0, i as int));
        let text = causes[i].as_str();
        if text.unicode_len() > 0 {
            proof {
                assert(before.push(text@).drop_last() =~= before);
            }
            if shown == 0 {
                push_str(&mut lines, "*error:* _");
            } else {
                push_str(&mut lines, "\n");
                push_str(&mut lines, "*caused by:* _");
            }
            push_str(&mut lines, text);
            push_str(&mut lines, "_");
            shown = shown + 1;
        }
        i = i + 1;
    }
    assert(causes@.subrange(0, causes.len() as int) =~= causes@);
    let mut msg: Vec<char> = Vec::new();
    push_str(&mut msg, "Whoops! An error occurred while processing your message. 😱\n\n");
    if shown > 0 {
        let mut k: usize = 0;
        while k < lines.len()
            invariant
                k <= lines.len(),
                msg@ == "Whoops! An error occurred while processing your message. 😱\n\n"@
                    + lines@.subrange(0, k as int),
            decreases lines.len() - k,
        {
            msg.push(lines[k]);
            k = k + 1;
            assert(msg@ =~= "Whoops! An error occurred while processing your message. 😱\n\n"@
                + lines@.subrange(0, k as int));
        }
        assert(lines@.subrange(0, lines.len() as int) =~= lines@);
    } else {
        push_str(&mut msg, "*error:* _an undefined error occurred_");
    }
    string_of(&msg)
}

} // verus!
