//! The `[name/LEVEL]` tag that names the subsystem and severity of a line.
use vstd::prelude::*;

use crate::bytes::{
    ascii, ascii_bytes, find, find_from, has_prefix, lemma_find_from_leftmost, starts_with,
};
use crate::error::ParseError;
use crate::text::ShowLossyStr;

verus! {

pub const SLASH: u8 = 47;

pub const OPEN_BRACKET: u8 = 91;

pub const CLOSE_BRACKET: u8 = 93;

/// The severity of a log line.
#[derive(Clone, Copy, Debug, PartialEq, Eq, Structural, Default)]
pub enum LogLevel {
    #[default]
    Trace,
    Debug,
    Info,
    Warn,
    Error,
    Fatal,
}

/// The keyword that names a level in a line.
pub open spec fn level_keyword(l: LogLevel) -> Seq<u8> {
    match l {
        LogLevel::Trace => ascii("TRACE"@),
        LogLevel::Debug => ascii("DEBUG"@),
        LogLevel::Info => ascii("INFO"@),
        LogLevel::Warn => ascii("WARN"@),
        LogLevel::Error => ascii("ERROR"@),
        LogLevel::Fatal => ascii("FATAL"@),
    }
}

/// A byte that may stand in an identifier: an ASCII letter, digit or `_`.
pub open spec fn is_ident_byte(b: u8) -> bool {
    (48 <= b <= 57) || (65 <= b <= 90) || (97 <= b <= 122) || b == 95
}

/// `s` begins with the keyword of `l`, not followed by another identifier byte.
pub open spec fn keyword_at_start(s: Seq<u8>, l: LogLevel) -> bool {
    let k = level_keyword(l);
    has_prefix(s, k) && (s.len() == k.len() || !is_ident_byte(s[k.len() as int]))
}

/// The level whose keyword `s` begins with.
pub open spec fn spec_level(s: Seq<u8>) -> Option<LogLevel> {
    if keyword_at_start(s, LogLevel::Trace) {
        Some(LogLevel::Trace)
    } else if keyword_at_start(s, LogLevel::Debug) {
        Some(LogLevel::Debug)
    } else if keyword_at_start(s, LogLevel::Info) {
        Some(LogLevel::Info)
    } else if keyword_at_start(s, LogLevel::Warn) {
        Some(LogLevel::Warn)
    } else if keyword_at_start(s, LogLevel::Error) {
        Some(LogLevel::Error)
    } else if keyword_at_start(s, LogLevel::Fatal) {
        Some(LogLevel::Fatal)
    } else {
        None
    }
}

fn is_ident_byte_exec(b: u8) -> (r: bool)
    ensures
        r == is_ident_byte(b),
{
    (48 <= b && b <= 57) || (65 <= b && b <= 90) || (97 <= b && b <= 122) || b == 95
}

fn keyword_at_start_exec(s: &[u8], l: LogLevel) -> (r: bool)
    ensures
        r == keyword_at_start(s@, l),
{
    let k = l.keyword();
    starts_with(s, k) && (s.len() == k.len() || !is_ident_byte_exec(s[k.len()]))
}

impl LogLevel {
    /// The keyword that names this level in a line.
    pub fn keyword(&self) -> (r: &'static [u8])
        ensures
            r@ == level_keyword(*self),
    {
        match self {
            LogLevel::Trace => {
                proof {
                    reveal_strlit("TRACE");
                }
                ascii_bytes("TRACE")
            },
            LogLevel::Debug => {
                proof {
                    reveal_strlit("DEBUG");
                }
                ascii_bytes("DEBUG")
            },
            LogLevel::Info => {
                proof {
                    reveal_strlit("INFO");
                }
                ascii_bytes("INFO")
            },
            LogLevel::Warn => {
                proof {
                    reveal_strlit("WARN");
                }
                ascii_bytes("WARN")
            },
            LogLevel::Error => {
                proof {
                    reveal_strlit("ERROR");
                }
                ascii_bytes("ERROR")
            },
            LogLevel::Fatal => {
                proof {
                    reveal_strlit("FATAL");
                }
                ascii_bytes("FATAL")
            },
        }
    }

    /// Reads the level keyword at the start of `input`; the keyword must not
    /// run on into further identifier bytes.
    pub fn parser(input: &[u8]) -> (r: Result<LogLevel, ParseError>)
        ensures
            match r {
                Ok(l) => spec_level(input@) == Some(l),
                Err(e) => spec_level(input@) is None && e == ParseError::PrefixMalformed,
            },
    {
        if keyword_at_start_exec(input, LogLevel::Trace) {
            Ok(LogLevel::Trace)
        } else if keyword_at_start_exec(input, LogLevel::Debug) {
            Ok(LogLevel::Debug)
        } else if keyword_at_start_exec(input, LogLevel::Info) {
            Ok(LogLevel::Info)
        } else if keyword_at_start_exec(input, LogLevel::Warn) {
            Ok(LogLevel::Warn)
        } else if keyword_at_start_exec(input, LogLevel::Error) {
            Ok(LogLevel::Error)
        } else if keyword_at_start_exec(input, LogLevel::Fatal) {
            Ok(LogLevel::Fatal)
        } else {
            Err(ParseError::PrefixMalformed)
        }
    }
}

/// The subsystem and severity of a log line; the name is a view into the line.
#[derive(Clone, Copy, Debug, PartialEq, Eq, Default)]
pub struct Logger<'a> {
    pub name: ShowLossyStr<'a>,
    pub level: LogLevel,
}

/// The bytes of a logger tag.
pub struct LoggerView {
    pub name: Seq<u8>,
    pub level: LogLevel,
}

impl<'a> View for Logger<'a> {
    type V = LoggerView;

    open spec fn view(&self) -> LoggerView {
        LoggerView { name: self.name@, level: self.level }
    }
}

/// The logger tag that `s` begins with, and its length: `[`, a name up to the
/// first `/`, the level keyword, `]`.
pub open spec fn spec_logger(s: Seq<u8>) -> Option<(LoggerView, int)> {
    if s.len() == 0 || s[0] != OPEN_BRACKET {
        None
    } else {
        match find_from(s, seq![SLASH], 1) {
            None => None,
            Some(j) => match spec_level(s.subrange(j + 1, s.len() as int)) {
                None => None,
                Some(l) => {
                    let e = j + 1 + level_keyword(l).len();
                    if e < s.len() && s[e] == CLOSE_BRACKET {
                        Some((LoggerView { name: s.subrange(1, j), level: l }, e + 1))
                    } else {
                        None
                    }
                },
            },
        }
    }
}

impl<'a> Logger<'a> {
    /// Reads the logger tag at the start of `input`, and how many bytes it
    /// takes.
    pub fn parser(input: &'a [u8]) -> (r: Result<(Logger<'a>, usize), ParseError>)
        ensures
            match r {
                Ok((lg, n)) => spec_logger(input@) == Some((lg@, n as int)),
                Err(e) => spec_logger(input@) is None && e == ParseError::PrefixMalformed,
            },
    {
        if input.len() == 0 || input[0] != OPEN_BRACKET {
            return Err(ParseError::PrefixMalformed);
        }
        let slash: [u8; 1] = [SLASH];
        let j = match find(input, slash.as_slice(), 1) {
            Some(j) => j,
            None => {
                assert(slash@ =~= seq![SLASH]);
                return Err(ParseError::PrefixMalformed);
            },
        };
        assert(slash@ =~= seq![SLASH]);
        proof {
            lemma_find_from_leftmost(input@, seq![SLASH], 1);
        }
        let rest = &input[j + 1..input.len()];
        let level = LogLevel::parser(rest)?;
        let e = j + 1 + level.keyword().len();
        if e < input.len() && input[e] == CLOSE_BRACKET {
            Ok((Logger { name: ShowLossyStr(&input[1..j]), level }, e + 1))
        } else {
            Err(ParseError::PrefixMalformed)
        }
    }
}

} // verus!
