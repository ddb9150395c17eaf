//! The live status of one sandboxed command: its captured output, its exit
//! status, and the bookkeeping that decides when the status message is edited.
//!
//! Times are nanoseconds on a clock that the caller reads and passes in.

use vstd::prelude::*;

use crate::error::{Error, StatusMessageFailure};
use crate::format::{encode_minimal, escape_minimal, format_duration, humantime_text};
use crate::text::{
    chars_of, digits_of, int_text, push_all, push_digits, push_int, push_str, string_of,
};

verus! {

/// The number of characters of output that are kept; older output is dropped.
/// A message holds at most 4096 characters, and the rest of the status needs room.
pub const OUTPUT_TRUNCATE: usize = 4096 - 150;

/// The wall-clock limit of a sandboxed command, in nanoseconds.
pub const EXEC_TIMEOUT_NANOS: u64 = 300_000_000_000;

/// How far before the limit a command may end and still count as timed out.
pub const EXEC_TIMEOUT_PRECISION_NANOS: u64 = 1_000_000_000;

/// The exit code that the timeout wrapper gives a command that it stopped.
pub const TIMEOUT_EXIT_CODE: i32 = 124;

/// Subtracted from every throttle interval so that a tick on the boundary is not missed.
pub const THROTTLE_SLACK_NANOS: u64 = 50_000_000;

/// Nanoseconds in a second.
pub const NANOS_PER_SEC: u64 = 1_000_000_000;

/// How a process ended: with an exit code, or killed by a signal.
#[derive(Clone, Copy, Debug, PartialEq, Eq, Structural)]
pub enum ExitStatus {
    Code(i32),
    Signal(i32),
}

impl ExitStatus {
    /// Whether the process exited with code zero.
    pub fn success(&self) -> (r: bool)
        ensures
            r == (*self == ExitStatus::Code(0)),
    {
        match self {
            ExitStatus::Code(c) => *c == 0,
            ExitStatus::Signal(_) => false,
        }
    }

    /// The exit code, if the process was not killed by a signal.
    pub fn code(&self) -> (r: Option<i32>)
        ensures
            r == match *self {
                ExitStatus::Code(c) => Some(c),
                ExitStatus::Signal(_) => None::<i32>,
            },
    {
        match self {
            ExitStatus::Code(c) => Some(*c),
            ExitStatus::Signal(_) => None,
        }
    }
}

/// The last `OUTPUT_TRUNCATE` characters of `s`, or all of `s` when shorter.
pub open spec fn keep_tail(s: Seq<char>) -> Seq<char> {
    if s.len() > OUTPUT_TRUNCATE {
        s.subrange(s.len() - OUTPUT_TRUNCATE, s.len() as int)
    } else {
        s
    }
}

/// The throttle interval in whole seconds after `count` status updates.
pub open spec fn throttle_secs_for(count: int) -> u64 {
    if count < 2 {
        1
    } else if count < 5 {
        3
    } else if count < 8 {
        5
    } else {
        10
    }
}

/// The least time between two status updates after `count` updates, in nanoseconds.
pub open spec fn throttle_nanos_for(count: int) -> u64 {
    (throttle_secs_for(count) * NANOS_PER_SEC - THROTTLE_SLACK_NANOS) as u64
}

/// What a status tracker holds.
pub struct ExecStatusView {
    /// The output that is kept.
    pub output: Seq<char>,
    /// Everything that was ever appended, in order.
    pub written: Seq<char>,
    pub status: Option<ExitStatus>,
    pub started_at: u64,
    pub completion_duration: Option<u64>,
    pub changed: bool,
    pub changed_at: u64,
    pub updated_count: usize,
}

/// Tracks the status of one executed command, and decides when and with what
/// text its status message is updated.
pub struct ExecStatus {
    output: Vec<char>,
    written: Ghost<Seq<char>>,
    status: Option<ExitStatus>,
    started_at: u64,
    completion_duration: Option<u64>,
    changed: bool,
    changed_at: u64,
    updated_count: usize,
}

impl View for ExecStatus {
    type V = ExecStatusView;

    closed spec fn view(&self) -> ExecStatusView {
        ExecStatusView {
            output: self.output@,
            written: self.written@,
            status: self.status,
            started_at: self.started_at,
            completion_duration: self.completion_duration,
            changed: self.changed,
            changed_at: self.changed_at,
            updated_count: self.updated_count,
        }
    }
}

impl ExecStatus {
    #[verifier::type_invariant]
    spec fn inv(self) -> bool {
        exec_status_wf(self@)
    }
}

/// A tracker is well formed when the kept output is the tail of all that was written.
pub open spec fn exec_status_wf(v: ExecStatusView) -> bool {
    &&& v.output == keep_tail(v.written)
    &&& v.output.len() <= OUTPUT_TRUNCATE
}

/// Whether the output has reached the size at which older output is dropped.
pub open spec fn truncating_view(v: ExecStatusView) -> bool {
    v.output.len() >= OUTPUT_TRUNCATE
}

/// Whether the command ended with the timeout wrapper's exit code after running
/// for about as long as the limit; not when the run time is unknown.
pub open spec fn timed_out_view(v: ExecStatusView) -> bool {
    &&& v.status == Some(ExitStatus::Code(TIMEOUT_EXIT_CODE))
    &&& match v.completion_duration {
        Some(d) => d >= EXEC_TIMEOUT_NANOS - EXEC_TIMEOUT_PRECISION_NANOS,
        None => false,
    }
}

/// The characters of `s` before its first space, or all of `s` without one.
pub open spec fn first_word_of(s: Seq<char>) -> Seq<char>
    decreases s.len(),
{
    if s.len() == 0 {
        s
    } else if s[0] == ' ' {
        Seq::empty()
    } else {
        seq![s[0]] + first_word_of(s.drop_first())
    }
}

/// The labels joined with ", ".
pub open spec fn join_labels(labels: Seq<Seq<char>>) -> Seq<char>
    decreases labels.len(),
{
    if labels.len() == 0 {
        Seq::empty()
    } else if labels.len() == 1 {
        labels[0]
    } else {
        join_labels(labels.drop_last()) + ", "@ + labels.last()
    }
}

/// The status labels shown after the exit code; `took` is the formatted run time.
pub open spec fn status_labels(v: ExecStatusView, took: Option<Seq<char>>) -> Seq<Seq<char>> {
    let completed = v.status is Some;
    let throttle = throttle_secs_for(v.updated_count + 1);
    let a: Seq<Seq<char>> = if !completed && throttle > 1 {
        seq!["throttling "@ + digits_of(throttle as nat) + "s"@]
    } else {
        Seq::empty()
    };
    let b = if timed_out_view(v) { a.push("timed out"@) } else { a };
    let c = if completed && v.completion_duration is Some {
        b.push(
            "took "@ + match took {
                Some(t) => t,
                None => "?"@,
            },
        )
    } else {
        b
    };
    if truncating_view(v) {
        c.push(if completed { "truncated"@ } else { "truncating"@ })
    } else {
        c
    }
}

/// The notice after the status emoji: the exit code of a failed command, then the labels.
pub open spec fn status_notice(v: ExecStatusView, took: Option<Seq<char>>) -> Seq<char> {
    let code: Seq<char> = match v.status {
        Some(s) => if s != ExitStatus::Code(0) {
            " Exit code <code>"@ + match s {
                ExitStatus::Code(c) => int_text(c as int),
                ExitStatus::Signal(_) => "?"@,
            } + "</code>"@
        } else {
            Seq::empty()
        },
        None => Seq::empty(),
    };
    let labels = status_labels(v, took);
    if labels.len() > 0 {
        code + " ("@ + join_labels(labels) + ")"@
    } else {
        code
    }
}

/// The status message in HTML: `escaped` is the escaped output and `took` the
/// formatted run time.
pub open spec fn status_text(
    v: ExecStatusView,
    escaped: Seq<char>,
    took: Option<Seq<char>>,
) -> Seq<char> {
    if v.status is None && v.output.len() == 0 {
        "<i>Executing command...</i>"@
    } else {
        let emoji = if v.status is None {
            "⏳"@
        } else if v.status == Some(ExitStatus::Code(0)) {
            "✅"@
        } else {
            "❌"@
        };
        let output = if v.output.len() == 0 {
            "<i>No output</i>"@
        } else {
            "<b>Output:</b>\n<code>"@ + (if truncating_view(v) {
                "[truncated] "@
            } else {
                Seq::empty()
            }) + escaped + "</code>"@
        };
        output + "\n\n"@ + emoji + "  "@ + status_notice(v, took)
    }
}

/// The tracker after the status message was edited at `now`.
pub open spec fn flushed(v: ExecStatusView, now: u64) -> ExecStatusView {
    ExecStatusView {
        changed: false,
        updated_count: if v.updated_count == usize::MAX {
            v.updated_count
        } else {
            (v.updated_count + 1) as usize
        },
        changed_at: now,
        ..v
    }
}

/// The formatted run time: whole seconds when at least one, else the
/// largest unit of the sub-second part.
pub open spec fn duration_text_view(v: ExecStatusView) -> Option<Seq<char>> {
    match v.completion_duration {
        Some(d) => if d / NANOS_PER_SEC >= 1 {
            Some(humantime_text((d / NANOS_PER_SEC) as u64, 0))
        } else {
            Some(first_word_of(humantime_text(0, (d % NANOS_PER_SEC) as u32)))
        },
        None => None,
    }
}

/// The status message that the tracker shows.
pub open spec fn status_msg_view(v: ExecStatusView) -> Seq<char> {
    status_text(v, escape_minimal(v.output), duration_text_view(v))
}

/// Whether a throttled update is due at `now`.
pub open spec fn update_due(v: ExecStatusView, now: u64) -> bool {
    &&& v.changed
    &&& now >= v.changed_at
    &&& now - v.changed_at >= throttle_nanos_for(v.updated_count as int)
}

/// The last `n` elements of `v`.
fn tail_of(v: &Vec<char>, n: usize) -> (r: Vec<char>)
    requires
        n <= v.len(),
    ensures
        r@ == v@.subrange(v.len() - n, v.len() as int),
{
    let start = v.len() - n;
    let mut r: Vec<char> = Vec::new();
    let mut i: usize = start;
    while i < v.len()
        invariant
            start <= i <= v.len(),
            start == v.len() - n,
            r@ == v@.subrange(start as int, i as int),
        decreases v.len() - i,
    {
        r.push(v[i]);
        i = i + 1;
        assert(r@ =~= v@.subrange(start as int, i as int));
    }
    r
}

/// Adds a label to the ", "-joined list of labels.
fn add_label(joined: &mut Vec<char>, label: &Vec<char>, labels: Ghost<Seq<Seq<char>>>, count: usize)
    requires
        old(joined)@ == join_labels(labels@),
        count == labels@.len(),
    ensures
        final(joined)@ == join_labels(labels@.push(label@)),
{
    assert(labels@.push(label@).drop_last() =~= labels@);
    if count > 0 {
        push_str(joined, ", ");
    }
    push_all(joined, label);
    proof {
        if labels@.len() == 0 {
            assert(joined@ =~= label@);
        }
    }
}

impl ExecStatus {
    /// What a new tracker for a command that starts at `now` holds.
    pub open spec fn spec_new(now: u64) -> ExecStatusView {
        ExecStatusView {
            output: Seq::empty(),
            written: Seq::empty(),
            status: None,
            started_at: now,
            completion_duration: None,
            changed: false,
            changed_at: now,
            updated_count: 0,
        }
    }

    /// A tracker for a command that starts at `now`, with no output and no exit status.
    pub fn new(now: u64) -> (r: ExecStatus)
        ensures
            exec_status_wf(r@),
            r@ == ExecStatus::spec_new(now),
    {
        let r = ExecStatus {
            output: Vec::new(),
            written: Ghost(Seq::empty()),
            status: None,
            started_at: now,
            completion_duration: None,
            changed: false,
            changed_at: now,
            updated_count: 0,
        };
        assert(r@.output =~= keep_tail(r@.written));
        r
    }

    /// The tracker for a command whose placeholder status message the platform
    /// answered with `reply` at `now`; an answer without a message is an error.
    pub fn create_status_msg<M>(reply: Option<M>, now: u64) -> (r: Result<(M, ExecStatus), Error>)
        ensures
            match reply {
                Some(m) => r matches Ok((n, s)) && n == m && s@ == ExecStatus::spec_new(now),
                None => r == Err::<(M, ExecStatus), Error>(
                    Error::StatusMessage(StatusMessageFailure::EmptyResponse),
                ),
            },
    {
        match reply {
            Some(m) => Ok((m, ExecStatus::new(now))),
            None => Err(Error::StatusMessage(StatusMessageFailure::EmptyResponse)),
        }
    }

    /// Appends `output` to the captured output, dropping the oldest characters
    /// beyond `OUTPUT_TRUNCATE`; the tracker is marked changed when `output` is not empty.
    pub fn append(&mut self, output: &str)
        ensures
            exec_status_wf(final(self)@),
            final(self)@ == (ExecStatusView {
                output: keep_tail(old(self)@.output + output@),
                written: old(self)@.written + output@,
                changed: old(self)@.changed || output@.len() > 0,
                ..old(self)@
            }),
    {
        proof {
            use_type_invariant(&*self);
            lemma_keep_tail(self.written@, output@);
            lemma_keep_tail(self.written@ + output@, Seq::empty());
        }
        let cs = chars_of(output);
        let mut all: Vec<char> = Vec::new();
        push_all(&mut all, &self.output);
        push_all(&mut all, &cs);
        let kept = if all.len() > OUTPUT_TRUNCATE {
            tail_of(&all, OUTPUT_TRUNCATE)
        } else {
            all
        };
        let ghost written = self.written@ + output@;
        *self = ExecStatus {
            output: kept,
            written: Ghost(written),
            status: self.status,
            started_at: self.started_at,
            completion_duration: self.completion_duration,
            changed: self.changed || cs.len() > 0,
            changed_at: self.changed_at,
            updated_count: self.updated_count,
        };
    }

    /// The output that is kept.
    pub fn output(&self) -> (r: String)
        ensures
            r@ == self@.output,
    {
        string_of(&self.output)
    }

    /// Whether the status changed since the status message was last updated.
    pub fn changed(&self) -> (r: bool)
        ensures
            r == self@.changed,
    {
        self.changed
    }

    /// How many times the status message was updated.
    pub fn updated_count(&self) -> (r: usize)
        ensures
            r == self@.updated_count,
    {
        self.updated_count
    }

    /// Whether the output has reached the size at which older output is dropped.
    pub fn truncating(&self) -> (r: bool)
        ensures
            r == truncating_view(self@),
    {
        self.output.len() >= OUTPUT_TRUNCATE
    }

    /// Appends `line` on a line of its own: a newline goes first unless the output is empty.
    pub fn append_line(&mut self, line: &str)
        ensures
            exec_status_wf(final(self)@),
            ({
                let sep = if old(self)@.output.len() > 0 { "\n"@ } else { Seq::<char>::empty() };
                final(self)@ == (ExecStatusView {
                    output: keep_tail(old(self)@.output + sep + line@),
                    written: old(self)@.written + sep + line@,
                    changed: old(self)@.changed || sep.len() > 0 || line@.len() > 0,
                    ..old(self)@
                })
            }),
    {
        proof {
            use_type_invariant(&*self);
        }
        if self.output.len() > 0 {
            self.append("\n");
            proof {
                reveal_strlit("\n");
                lemma_keep_tail(old(self)@.output + "\n"@, line@);
            }
        } else {
            assert(old(self)@.output + Seq::<char>::empty() =~= old(self)@.output);
            assert(old(self)@.written + Seq::<char>::empty() =~= old(self)@.written);
        }
        self.append(line);
    }

    /// Records how the command ended, at `now`; the tracker is marked changed
    /// when the exit status differs from the one recorded before.
    pub fn set_status(&mut self, status: ExitStatus, now: u64)
        ensures
            exec_status_wf(final(self)@),
            final(self)@ == (ExecStatusView {
                status: Some(status),
                completion_duration: if now >= old(self)@.started_at {
                    Some((now - old(self)@.started_at) as u64)
                } else {
                    None
                },
                changed: old(self)@.changed || old(self)@.status != Some(status),
                ..old(self)@
            }),
    {
        proof {
            use_type_invariant(&*self);
        }
        let differs = match self.status {
            Some(s) => s != status,
            None => true,
        };
        if differs {
            self.changed = true;
        }
        self.status = Some(status);
        self.completion_duration = if now >= self.started_at {
            Some(now - self.started_at)
        } else {
            None
        };
        proof {
            use_type_invariant(&*self);
        }
    }

    /// Whether the command has ended, successfully or not.
    pub fn completed(&self) -> (r: bool)
        ensures
            r == (self@.status is Some),
    {
        self.status.is_some()
    }

    /// The throttle interval in whole seconds after `offset` more updates than were sent.
    fn throttle_secs(&self, offset: usize) -> (r: u64)
        ensures
            r == throttle_secs_for(self@.updated_count + offset),
    {
        throttle_secs_after(self.updated_count.saturating_add(offset))
    }

    /// Whether the throttle interval after `offset` more updates exceeds a second.
    fn throttling(&self, offset: usize) -> (r: bool)
        ensures
            r == (throttle_secs_for(self@.updated_count + offset) > 1),
    {
        self.throttle_secs(offset) > 1
    }

    /// The least time before the next status update, in nanoseconds.
    pub fn throttle_duration(&self) -> (r: u64)
        ensures
            r == throttle_nanos_for(self@.updated_count as int),
    {
        throttle_threshold(self.updated_count)
    }

    /// Whether the command was stopped by the timeout wrapper.
    pub fn timed_out(&self) -> (r: bool)
        ensures
            r == timed_out_view(self@),
    {
        match self.status {
            Some(ExitStatus::Code(c)) if c == TIMEOUT_EXIT_CODE => {},
            _ => {
                return false;
            },
        }
        match self.completion_duration {
            Some(d) => d >= EXEC_TIMEOUT_NANOS - EXEC_TIMEOUT_PRECISION_NANOS,
            None => false,
        }
    }

    /// The run time in a human readable form, once it is known.
    pub fn format_duration(&self) -> (r: Option<String>)
        ensures
            match (r, duration_text_view(self@)) {
                (Some(t), Some(u)) => t@ == u,
                (None, None) => true,
                _ => false,
            },
    {
        match self.completion_duration {
            Some(d) => {
                let secs = d / NANOS_PER_SEC;
                if secs >= 1 {
                    Some(format_duration(secs, 0))
                } else {
                    let text = format_duration(0, (d % NANOS_PER_SEC) as u32);
                    Some(first_word(text.as_str()))
                }
            },
            None => None,
        }
    }

    /// The status message in HTML, with `took` as the formatted run time.
    pub fn status_msg_with(&self, took: Option<&str>) -> (r: String)
        ensures
            r@ == status_text(
                self@,
                escape_minimal(self@.output),
                match took {
                    Some(t) => Some(t@),
                    None => None,
                },
            ),
    {
        let ghost tk = match took {
            Some(t) => Some(t@),
            None => None::<Seq<char>>,
        };
        let completed = self.completed();
        if !completed && self.output.len() == 0 {
            return String::from_str("<i>Executing command...</i>");
        }
        // The exit code of a failed command.
        let mut notice: Vec<char> = Vec::new();
        match self.status {
            Some(s) => {
                if !s.success() {
                    push_str(&mut notice, " Exit code <code>");
                    match s.code() {
                        Some(c) => push_int(&mut notice, c as i64),
                        None => push_str(&mut notice, "?"),
                    }
                    push_str(&mut notice, "</code>");
                }
            },
            None => {},
        }
        // The labels.
        let ghost mut labels: Seq<Seq<char>> = Seq::empty();
        let mut joined: Vec<char> = Vec::new();
        let mut count: usize = 0;
        if !completed && self.throttling(1) {
            let mut l: Vec<char> = Vec::new();
            push_str(&mut l, "throttling ");
            push_digits(&mut l, self.throttle_secs(1));
            push_str(&mut l, "s");
            add_label(&mut joined, &l, Ghost(labels), count);
            count = count + 1;
            proof {
                labels = labels.push(l@);
            }
        }
        if self.timed_out() {
            let l = chars_of("timed out");
            add_label(&mut joined, &l, Ghost(labels), count);
            count = count + 1;
            proof {
                labels = labels.push(l@);
            }
        }
        if completed && self.completion_duration.is_some() {
            let mut l: Vec<char> = Vec::new();
            push_str(&mut l, "took ");
            match took {
                Some(t) => push_str(&mut l, t),
                None => push_str(&mut l, "?"),
            }
            add_label(&mut joined, &l, Ghost(labels), count);
            count = count + 1;
            proof {
                labels = labels.push(l@);
            }
        }
        if self.truncating() {
            let l = if completed {
                chars_of("truncated")
            } else {
                chars_of("truncating")
            };
            add_label(&mut joined, &l, Ghost(labels), count);
            count = count + 1;
            proof {
                labels = labels.push(l@);
            }
        }
        assert(labels == status_labels(self@, tk));
        if count > 0 {
            push_str(&mut notice, " (");
            push_all(&mut notice, &joined);
            push_str(&mut notice, ")");
        }
        assert(notice@ == status_notice(self@, tk));
        // The output.
        let mut text: Vec<char> = Vec::new();
        if self.output.len() == 0 {
            push_str(&mut text, "<i>No output</i>");
        } else {
            push_str(&mut text, "<b>Output:</b>\n<code>");
            if self.truncating() {
                push_str(&mut text, "[truncated] ");
            }
            let out = string_of(&self.output);
            let escaped = encode_minimal(out.as_str());
            push_str(&mut text, escaped.as_str());
            push_str(&mut text, "</code>");
        }
        push_str(&mut text, "\n\n");
        if !completed {
            push_str(&mut text, "⏳");
        } else if self.status == Some(ExitStatus::Code(0)) {
            push_str(&mut text, "✅");
        } else {
            push_str(&mut text, "❌");
        }
        push_str(&mut text, "  ");
        push_all(&mut text, &notice);
        string_of(&text)
    }

    /// The status message in HTML.
    pub fn build_status_msg(&self) -> (r: String)
        ensures
            r@ == status_msg_view(self@),
    {
        let took = self.format_duration();
        match took {
            Some(t) => self.status_msg_with(Some(t.as_str())),
            None => self.status_msg_with(None),
        }
    }

    /// Marks the status message as updated at `now`, and returns the text to
    /// edit it with.
    pub fn update_status_msg(&mut self, now: u64) -> (r: String)
        ensures
            exec_status_wf(final(self)@),
            r@ == status_msg_view(old(self)@),
            final(self)@ == flushed(old(self)@, now),
    {
        proof {
            use_type_invariant(&*self);
        }
        let text = self.build_status_msg();
        self.changed = false;
        self.updated_count = self.updated_count.saturating_add(1);
        self.changed_at = now;
        proof {
            use_type_invariant(&*self);
        }
        text
    }

    /// The text to edit the status message with, if the status changed since
    /// the last update.
    pub fn update(&mut self, now: u64) -> (r: Option<String>)
        ensures
            exec_status_wf(final(self)@),
            old(self)@.changed ==> final(self)@ == flushed(old(self)@, now) && r is Some
                && r->0@ == status_msg_view(old(self)@),
            !old(self)@.changed ==> final(self)@ == old(self)@ && r is None,
    {
        proof {
            use_type_invariant(&*self);
        }
        if !self.changed {
            return None;
        }
        Some(self.update_status_msg(now))
    }

    /// The text to edit the status message with, if the status changed and the
    /// throttle interval has passed since the last update.
    pub fn update_throttled(&mut self, now: u64) -> (r: Option<String>)
        ensures
            exec_status_wf(final(self)@),
            update_due(old(self)@, now) ==> final(self)@ == flushed(old(self)@, now) && r is Some
                && r->0@ == status_msg_view(old(self)@),
            !update_due(old(self)@, now) ==> final(self)@ == old(self)@ && r is None,
    {
        proof {
            use_type_invariant(&*self);
        }
        if now < self.changed_at || now - self.changed_at < self.throttle_duration() {
            return None;
        }
        self.update(now)
    }
}

/// The throttle interval in whole seconds after `count` status updates.
pub fn throttle_secs_after(count: usize) -> (r: u64)
    ensures
        r == throttle_secs_for(count as int),
{
    if count < 2 {
        1
    } else if count < 5 {
        3
    } else if count < 8 {
        5
    } else {
        10
    }
}

/// The least time between two status updates after `count` updates, in nanoseconds.
pub fn throttle_threshold(count: usize) -> (r: u64)
    ensures
        r == throttle_nanos_for(count as int),
{
    throttle_secs_after(count) * NANOS_PER_SEC - THROTTLE_SLACK_NANOS
}

/// Cutting to the tail never leaves more than the limit, always leaves a
/// suffix of the input, and cutting what was already cut and then appending
/// gives the tail of everything appended.
pub proof fn lemma_keep_tail(a: Seq<char>, b: Seq<char>)
    ensures
        keep_tail(a).len() <= OUTPUT_TRUNCATE,
        keep_tail(a) == a.subrange(a.len() - keep_tail(a).len(), a.len() as int),
        keep_tail(keep_tail(a) + b) == keep_tail(a + b),
{
    let ta = keep_tail(a);
    let n = OUTPUT_TRUNCATE as int;
    if a.len() <= n {
        assert(a.subrange(0, a.len() as int) =~= a);
    } else {
        assert(ta.len() == n);
        let x = ta + b;
        let y = a + b;
        if x.len() > n {
            assert(keep_tail(x) =~= keep_tail(y));
        } else {
            assert(b.len() == 0);
            assert(x =~= ta);
            assert(y =~= a);
        }
    }
}

/// However output was appended, a well-formed tracker keeps at most
/// `OUTPUT_TRUNCATE` characters, and they are the most recent ones: the end of
/// everything that was written.
pub proof fn lemma_output_is_recent_suffix(v: ExecStatusView)
    requires
        exec_status_wf(v),
    ensures
        v.output.len() <= OUTPUT_TRUNCATE,
        v.output == v.written.subrange(v.written.len() - v.output.len(), v.written.len() as int),
        v.written.len() >= OUTPUT_TRUNCATE ==> v.output.len() == OUTPUT_TRUNCATE,
{
    lemma_keep_tail(v.written, Seq::empty());
}

/// Once the command has ended, editing the status message leaves its text as
/// it was: the final status renders the same however often it is shown.
pub proof fn lemma_final_text_stable(v: ExecStatusView, now: u64)
    requires
        v.status is Some,
    ensures
        status_msg_view(flushed(v, now)) == status_msg_view(v),
{
    assert(status_labels(flushed(v, now), duration_text_view(v)) == status_labels(
        v,
        duration_text_view(v),
    ));
}

/// The status notice lists "timed out" exactly when the command ended with the
/// timeout wrapper's exit code after running at least the limit less its
/// precision.
pub proof fn lemma_timed_out_label(v: ExecStatusView, took: Option<Seq<char>>)
    ensures
        status_labels(v, took).contains("timed out"@) <==> timed_out_view(v),
{
    reveal_strlit("timed out");
    reveal_strlit("throttling ");
    reveal_strlit("took ");
    reveal_strlit("truncated");
    reveal_strlit("truncating");
    let labels = status_labels(v, took);
    let t = "timed out"@;
    if timed_out_view(v) {
        // A finished command shows no throttling label, so this one comes first.
        assert(labels[0] == t);
    } else {
        assert forall|i: int| 0 <= i < labels.len() implies labels[i] != t by {
            assert(labels[i][1] != t[1]);
        }
    }
}

/// The throttle interval never shrinks as more updates are sent.
pub proof fn lemma_throttle_monotone(a: int, b: int)
    requires
        a <= b,
    ensures
        throttle_secs_for(a) <= throttle_secs_for(b),
        throttle_nanos_for(a) <= throttle_nanos_for(b),
{
}

/// The characters of `s` before its first space.
pub fn first_word(s: &str) -> (r: String)
    ensures
        r@ == first_word_of(s@),
{
    let cs = chars_of(s);
    let mut out: Vec<char> = Vec::new();
    let mut i: usize = 0;
    assert(s@.subrange(0, s@.len() as int) =~= s@);
    assert(out@ + first_word_of(s@) =~= first_word_of(s@));
    while i < cs.len() && cs[i] != ' '
        invariant
            i <= cs.len(),
            cs@ == s@,
            out@ == cs@.subrange(0, i as int),
            forall|j: int| 0 <= j < i ==> cs@[j] != ' ',
            first_word_of(s@) == out@ + first_word_of(s@.subrange(i as int, s@.len() as int)),
        decreases cs.len() - i,
    {
        let ghost rest = s@.subrange(i as int, s@.len() as int);
        assert(rest.drop_first() =~= s@.subrange(i + 1, s@.len() as int));
        out.push(cs[i]);
        i = i + 1;
        assert(out@ =~= cs@.subrange(0, i as int));
        assert(first_word_of(s@) =~= out@ + first_word_of(s@.subrange(i as int, s@.len() as int)));
    }
    string_of(&out)
}

} // verus!
