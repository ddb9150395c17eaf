//! Recognising bot commands in message text.
//!
//! A command is `/name`, optionally addressed to a bot as `/name@bot`, at the
//! start of the trimmed text and followed by white space or the end.

use vstd::prelude::*;

use crate::text::{chars_of, is_white, is_whitespace};

verus! {

/// The bot name that addressed commands must carry to be handled here.
pub const BOT_NAME: &'static str = "riscbot";

/// `s` without leading white space.
pub open spec fn trim_start(s: Seq<char>) -> Seq<char>
    decreases s.len(),
{
    if s.len() > 0 && is_white(s[0]) {
        trim_start(s.drop_first())
    } else {
        s
    }
}

/// `s` without trailing white space.
pub open spec fn trim_end(s: Seq<char>) -> Seq<char>
    decreases s.len(),
{
    if s.len() > 0 && is_white(s.last()) {
        trim_end(s.drop_last())
    } else {
        s
    }
}

/// `s` without leading and trailing white space.
pub open spec fn trim(s: Seq<char>) -> Seq<char> {
    trim_end(trim_start(s))
}

/// A character of a command or bot name: an ASCII letter, digit or underscore,
/// or one of the two characters that fold to a letter without case (`ſ`, `K`).
pub open spec fn is_name_char(c: char) -> bool {
    ||| ('a' <= c && c <= 'z')
    ||| ('A' <= c && c <= 'Z')
    ||| ('0' <= c && c <= '9')
    ||| c == '_'
    ||| c == '\u{17f}'
    ||| c == '\u{212a}'
}

/// The end of the run of name characters in `s` that starts at `i`.
pub open spec fn name_end(s: Seq<char>, i: int) -> int
    decreases s.len() - i,
{
    if 0 <= i < s.len() && is_name_char(s[i]) {
        name_end(s, i + 1)
    } else {
        i
    }
}

/// Whether position `i` of `s` is its end or holds white space.
pub open spec fn ends_word(s: Seq<char>, i: int) -> bool {
    i == s.len() || (0 <= i < s.len() && is_white(s[i]))
}

/// The command that the trimmed text `t` holds: `None` when it is no command,
/// or when it is addressed to another bot.
pub open spec fn command_of(t: Seq<char>) -> Option<Seq<char>> {
    if t.len() == 0 || t[0] != '/' {
        None
    } else {
        let e = name_end(t, 1);
        if e == 1 {
            None
        } else if ends_word(t, e) {
            Some(t.subrange(1, e))
        } else if t[e] == '@' {
            let b = name_end(t, e + 1);
            if b > e + 1 && ends_word(t, b) && t.subrange(e + 1, b) == BOT_NAME@ {
                Some(t.subrange(1, e))
            } else {
                None
            }
        } else {
            None
        }
    }
}

fn is_name_char_exec(c: char) -> (r: bool)
    ensures
        r == is_name_char(c),
{
    ('a' <= c && c <= 'z') || ('A' <= c && c <= 'Z') || ('0' <= c && c <= '9') || c == '_'
        || c == '\u{17f}' || c == '\u{212a}'
}

proof fn lemma_name_end_bounds(s: Seq<char>, i: int)
    requires
        0 <= i <= s.len(),
    ensures
        i <= name_end(s, i) <= s.len(),
        forall|k: int| i <= k < name_end(s, i) ==> is_name_char(#[trigger] s[k]),
    decreases s.len() - i,
{
    if i < s.len() && is_name_char(s[i]) {
        lemma_name_end_bounds(s, i + 1);
    }
}

/// The end of the run of name characters in `cs` from `i`.
fn scan_name(cs: &Vec<char>, i: usize) -> (r: usize)
    requires
        i <= cs.len(),
    ensures
        r as int == name_end(cs@, i as int),
{
    let mut j = i;
    while j < cs.len() && is_name_char_exec(cs[j])
        invariant
            i <= j <= cs.len(),
            name_end(cs@, i as int) == name_end(cs@, j as int),
        decreases cs.len() - j,
    {
        j = j + 1;
    }
    j
}

/// The character positions that bound the trimmed part of `cs`.
fn trim_bounds(cs: &Vec<char>) -> (r: (usize, usize))
    ensures
        r.0 <= r.1 <= cs.len(),
        cs@.subrange(r.0 as int, r.1 as int) == trim(cs@),
        forall|m: int| r.1 <= m < cs.len() ==> is_white(#[trigger] cs@[m]),
{
    let mut i: usize = 0;
    assert(cs@.subrange(0, cs.len() as int) =~= cs@);
    while i < cs.len() && is_whitespace(cs[i])
        invariant
            i <= cs.len(),
            trim_start(cs@) == trim_start(cs@.subrange(i as int, cs.len() as int)),
        decreases cs.len() - i,
    {
        assert(cs@.subrange(i as int, cs.len() as int).drop_first() =~= cs@.subrange(
            i + 1,
            cs.len() as int,
        ));
        i = i + 1;
    }
    assert(trim_start(cs@) == cs@.subrange(i as int, cs.len() as int));
    let mut j: usize = cs.len();
    while j > i && is_whitespace(cs[j - 1])
        invariant
            i <= j <= cs.len(),
            trim(cs@) == trim_end(cs@.subrange(i as int, j as int)),
            forall|m: int| j <= m < cs.len() ==> is_white(#[trigger] cs@[m]),
        decreases j,
    {
        assert(cs@.subrange(i as int, j as int).drop_last() =~= cs@.subrange(
            i as int,
            j - 1,
        ));
        j = j - 1;
    }
    (i, j)
}

/// Whether `cs[from..to]` is the bot name that commands may be addressed to.
fn is_bot_name(cs: &Vec<char>, from: usize, to: usize) -> (r: bool)
    requires
        from <= to <= cs.len(),
    ensures
        r == (cs@.subrange(from as int, to as int) == BOT_NAME@),
{
    let name = chars_of(BOT_NAME);
    if to - from != name.len() {
        return false;
    }
    let mut k: usize = 0;
    while k < name.len()
        invariant
            k <= name.len(),
            to - from == name.len(),
            name@ == BOT_NAME@,
            from <= to <= cs.len(),
            forall|m: int| 0 <= m < k ==> cs@[from + m] == name@[m],
        decreases name.len() - k,
    {
        if cs[from + k] != name[k] {
            assert(cs@.subrange(from as int, to as int)[k as int] != BOT_NAME@[k as int]);
            return false;
        }
        k = k + 1;
    }
    assert(cs@.subrange(from as int, to as int) =~= BOT_NAME@);
    true
}

/// The command name in `msg`, if the trimmed message is a command for this bot.
pub fn matches_cmd(msg: &str) -> (r: Option<&str>)
    ensures
        match (r, command_of(trim(msg@))) {
            (Some(c), Some(d)) => c@ == d,
            (None, None) => true,
            _ => false,
        },
{
    let cs = chars_of(msg);
    let (s, t) = trim_bounds(&cs);
    let ghost tv = trim(msg@);
    assert(tv == cs@.subrange(s as int, t as int));
    if s == t || cs[s] != '/' {
        return None;
    }
    let e = scan_name(&cs, s + 1);
    proof {
        lemma_name_end_bounds(cs@, s + 1);
        lemma_name_shift(cs@, s as int, t as int, 1);
        lemma_name_end_bounds(cs@.subrange(s as int, t as int), 1);
    }
    if e == s + 1 {
        return None;
    }
    let ends = e == t || (e < t && is_whitespace(cs[e]));
    if ends {
        assert(cs@.subrange(s as int, t as int).subrange(1, e - s) =~= msg@.subrange(
            s + 1,
            e as int,
        ));
        return Some(msg.substring_char(s + 1, e));
    }
    if cs[e] != '@' {
        return None;
    }
    let b = scan_name(&cs, e + 1);
    proof {
        lemma_name_end_bounds(cs@, e + 1);
        lemma_name_shift(cs@, s as int, t as int, e - s + 1);
        lemma_name_end_bounds(cs@.subrange(s as int, t as int), e - s + 1);
    }
    let ends_bot = b == t || (b < t && is_whitespace(cs[b]));
    if b > e + 1 && ends_bot && is_bot_name(&cs, e + 1, b) {
        assert(cs@.subrange(s as int, t as int).subrange(e - s + 1, b - s) =~= cs@.subrange(
            e + 1,
            b as int,
        ));
        assert(cs@.subrange(s as int, t as int).subrange(1, e - s) =~= msg@.subrange(
            s + 1,
            e as int,
        ));
        Some(msg.substring_char(s + 1, e))
    } else {
        assert(b > e + 1 && ends_bot ==> cs@.subrange(s as int, t as int).subrange(
            e - s + 1,
            b - s,
        ) =~= cs@.subrange(e + 1, b as int));
        None
    }
}

/// A run of name characters found in `cs` from `s + k` ends at the same place
/// in the trimmed part `cs[s..t]`, shifted by `s`, provided `cs[t..]` is white.
proof fn lemma_name_shift(cs: Seq<char>, s: int, t: int, k: int)
    requires
        0 <= s <= t <= cs.len(),
        0 <= k,
        s + k <= t,
        forall|m: int| t <= m < cs.len() ==> is_white(#[trigger] cs[m]),
    ensures
        name_end(cs, s + k) - s == name_end(cs.subrange(s, t), k),
    decreases t - (s + k),
{
    if s + k < t && is_name_char(cs[s + k]) {
        lemma_name_shift(cs, s, t, k + 1);
    } else if s + k == t && t < cs.len() {
        assert(is_white(cs[t]));
        assert(!is_name_char(cs[t]));
    }
}

/// `c` with ASCII upper-case letters made lower case.
pub open spec fn ascii_lower(c: char) -> char {
    if 'A' <= c && c <= 'Z' {
        ((c as u8) + 32) as u8 as char
    } else {
        c
    }
}

/// Whether `a` and `b` are equal when ASCII letters are compared without case.
pub open spec fn eq_ignore_ascii_case(a: Seq<char>, b: Seq<char>) -> bool {
    &&& a.len() == b.len()
    &&& forall|i: int| 0 <= i < a.len() ==> ascii_lower(#[trigger] a[i]) == ascii_lower(b[i])
}

fn to_ascii_lower(c: char) -> (r: char)
    ensures
        r == ascii_lower(c),
{
    if 'A' <= c && c <= 'Z' {
        ((c as u8) + 32) as char
    } else {
        c
    }
}

/// Whether `cmd`, trimmed, names the command `name`, ignoring ASCII case.
pub fn is_cmd(name: &str, cmd: &str) -> (r: bool)
    ensures
        r == eq_ignore_ascii_case(trim(cmd@), name@),
{
    let cs = chars_of(cmd);
    let ns = chars_of(name);
    let (s, t) = trim_bounds(&cs);
    if t - s != ns.len() {
        return false;
    }
    let mut i: usize = 0;
    while i < ns.len()
        invariant
            i <= ns.len(),
            s <= t <= cs.len(),
            t - s == ns.len(),
            ns@ == name@,
            cs@.subrange(s as int, t as int) == trim(cmd@),
            forall|j: int| 0 <= j < i ==> ascii_lower(#[trigger] cs@[s + j]) == ascii_lower(ns@[j]),
        decreases ns.len() - i,
    {
        if to_ascii_lower(cs[s + i]) != to_ascii_lower(ns[i]) {
            assert(trim(cmd@)[i as int] == cs@[s + i]);
            return false;
        }
        i = i + 1;
    }
    assert forall|j: int| 0 <= j < trim(cmd@).len() implies ascii_lower(#[trigger] trim(cmd@)[j])
        == ascii_lower(name@[j]) by {
        assert(trim(cmd@)[j] == cs@[s + j]);
    }
    true
}

/// The text after the first space of `text`, without leading white space; empty
/// when `text` has no space.
pub open spec fn argument_of(text: Seq<char>) -> Seq<char> {
    if exists|i: int| 0 <= i < text.len() && text[i] == ' ' {
        let i = choose|i: int|
            0 <= i < text.len() && text[i] == ' ' && forall|j: int| 0 <= j < i ==> text[j] != ' ';
        trim_start(text.subrange(i + 1, text.len() as int))
    } else {
        Seq::empty()
    }
}

/// What an `/exec` message asks for.
pub enum Invocation {
    /// No command was given: the usage help is sent instead.
    Help,
    /// The shell command to run.
    Run(String),
}

/// The `/exec` action: runs a shell command in a sandbox and reports on it.
pub struct Exec;

impl Exec {
    pub fn new() -> Exec {
        Exec
    }

    /// The shell command in an `/exec` message: what follows the first space,
    /// without leading white space.
    pub fn command_argument(text: &str) -> (r: String)
        ensures
            r@ == argument_of(text@),
    {
        let cs = chars_of(text);
        let mut i: usize = 0;
        while i < cs.len() && cs[i] != ' '
            invariant
                i <= cs.len(),
                cs@ == text@,
                forall|j: int| 0 <= j < i ==> cs@[j] != ' ',
            decreases cs.len() - i,
        {
            i = i + 1;
        }
        if i == cs.len() {
            return String::new();
        }
        proof {
            let w = choose|w: int|
                0 <= w < text@.len() && text@[w] == ' ' && forall|j: int|
                    0 <= j < w ==> text@[j] != ' ';
            assert(w == i) by {
                if w < i {
                    assert(cs@[w] != ' ');
                }
                if w > i {
                    assert(text@[i as int] == ' ');
                }
            };
        }
        let mut k: usize = i + 1;
        while k < cs.len() && is_whitespace(cs[k])
            invariant
                i < k <= cs.len(),
                cs@ == text@,
                trim_start(text@.subrange(i + 1, text@.len() as int)) == trim_start(
                    text@.subrange(k as int, text@.len() as int),
                ),
            decreases cs.len() - k,
        {
            assert(text@.subrange(k as int, text@.len() as int).drop_first() =~= text@.subrange(
                k + 1,
                text@.len() as int,
            ));
            k = k + 1;
        }
        let rest = text.substring_char(k, cs.len());
        let r = String::from_str(rest);
        r
    }

    /// Whether `text` holds nothing but white space.
    pub fn is_blank(text: &str) -> (r: bool)
        ensures
            r == (trim(text@).len() == 0),
    {
        let cs = chars_of(text);
        let (s, t) = trim_bounds(&cs);
        s == t
    }

    /// What the `/exec` message with the given text asks for: help when the
    /// command is blank, else the command to run.
    pub fn invocation(text: &str) -> (r: Invocation)
        ensures
            trim(argument_of(text@)).len() == 0 ==> r is Help,
            trim(argument_of(text@)).len() != 0 ==> (r matches Invocation::Run(c) && c@ == argument_of(text@)),
    {
        let cmd = Exec::command_argument(text);
        if Exec::is_blank(cmd.as_str()) {
            Invocation::Help
        } else {
            Invocation::Run(cmd)
        }
    }
}

} // verus!
