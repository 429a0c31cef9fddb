use vstd::prelude::*;

verus! {

/// How log lines are written.
#[derive(Debug, Clone, Copy, PartialEq, Eq)]
pub enum LogFormat {
    Json,
    Text,
}

/// Logging settings.
#[derive(Debug, Clone, Copy)]
pub struct LoggerConfig {
    /// From `RUST_LOG_FORMAT`; `json` when unset.
    pub format: LogFormat,
}

/// `c` with ASCII uppercase letters made lowercase.
pub open spec fn ascii_lower(c: char) -> char {
    if 'A' <= c <= 'Z' {
        ((c as u32) + 32) as char
    } else {
        c
    }
}

/// The format a setting names, ignoring ASCII case: `json` or `text`.
pub open spec fn format_named(s: Seq<char>) -> Option<LogFormat> {
    let l = s.map_values(|c: char| ascii_lower(c));
    if l == seq!['j', 's', 'o', 'n'] {
        Some(LogFormat::Json)
    } else if l == seq!['t', 'e', 'x', 't'] {
        Some(LogFormat::Text)
    } else {
        None
    }
}

fn lower(c: char) -> (r: char)
    ensures
        r == ascii_lower(c),
{
    if 'A' <= c && c <= 'Z' {
        ((c as u8) + 32) as char
    } else {
        c
    }
}

fn is_word(s: &Vec<char>, w: [char; 4]) -> (r: bool)
    ensures
        r == (s@.map_values(|c: char| ascii_lower(c)) == seq![w[0], w[1], w[2], w[3]]),
{
    if s.len() != 4 {
        assert(s@.map_values(|c: char| ascii_lower(c)).len() != 4);
        return false;
    }
    let r = lower(s[0]) == w[0] && lower(s[1]) == w[1] && lower(s[2]) == w[2] && lower(s[3])
        == w[3];
    assert(r == (s@.map_values(|c: char| ascii_lower(c)) =~= seq![w[0], w[1], w[2], w[3]]));
    r
}

impl LogFormat {
    /// The format a setting names, ignoring ASCII case.
    pub fn parse(s: &str) -> (r: Option<LogFormat>)
        ensures
            r == format_named(s@),
    {
        let chars = crate::text::chars_of(s);
        if is_word(&chars, ['j', 's', 'o', 'n']) {
            Some(LogFormat::Json)
        } else if is_word(&chars, ['t', 'e', 'x', 't']) {
            Some(LogFormat::Text)
        } else {
            None
        }
    }
}

} // verus!
