//! Text formatting that is done by outside crates.

use vstd::prelude::*;

verus! {

/// The entity that replaces `c` when escaping HTML, if any.
pub open spec fn html_entity(c: char) -> Option<Seq<char>> {
    if c == '"' {
        Some("&quot;"@)
    } else if c == '&' {
        Some("&amp;"@)
    } else if c == '\'' {
        Some("&#x27;"@)
    } else if c == '<' {
        Some("&lt;"@)
    } else if c == '>' {
        Some("&gt;"@)
    } else {
        None
    }
}

/// `s` with each of `"`, `&`, `'`, `<` and `>` replaced by its HTML entity.
pub open spec fn escape_minimal(s: Seq<char>) -> Seq<char>
    decreases s.len(),
{
    if s.len() == 0 {
        Seq::empty()
    } else {
        escape_minimal(s.drop_last()) + match html_entity(s.last()) {
            Some(e) => e,
            None => seq![s.last()],
        }
    }
}

/// The text that `humantime::format_duration` gives for a duration of `secs`
/// seconds and `nanos` nanoseconds.
pub uninterp spec fn humantime_text(secs: u64, nanos: u32) -> Seq<char>;

/// Relies on `htmlescape::encode_minimal`: it replaces `"`, `&`, `'`, `<` and
/// `>` by their entities and keeps every other character.
#[verifier::external_body]
pub(crate) fn encode_minimal(s: &str) -> (r: String)
    ensures
        r@ == escape_minimal(s@),
{
    htmlescape::encode_minimal(s)
}

/// Relies on `humantime::format_duration`: its text depends on the duration alone.
#[verifier::external_body]
pub(crate) fn format_duration(secs: u64, nanos: u32) -> (r: String)
    requires
        nanos < 1_000_000_000,
    ensures
        r@ == humantime_text(secs, nanos),
{
    humantime::format_duration(std::time::Duration::new(secs, nanos)).to_string()
}

} // verus!
