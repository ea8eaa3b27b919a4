//! Log lines: `[HH:MM:SS] [<logger>/<LEVEL>]: <payload>`, read into events.
use vstd::prelude::*;

use crate::bytes::{
    ascii, ascii_bytes, find, find_from, has_prefix, lemma_find_first, lemma_find_from_leftmost,
    occurs_at, opt_int, starts_with,
};
use crate::death::{first_match, DeathTable, TemplateView};
use crate::error::ParseError;
use crate::logger::{
    is_ident_byte, level_keyword, spec_level, spec_logger, LogLevel, Logger, LoggerView,
    CLOSE_BRACKET, OPEN_BRACKET, SLASH,
};
use crate::text::ShowLossyStr;
use crate::time::{is_digit, pair_value, spec_hms, HmsTime, COLON};

verus! {

pub const SPACE: u8 = 32;

pub const LESS_THAN: u8 = 60;

pub const GREATER_THAN: u8 = 62;

/// A byte that `u8::is_ascii_whitespace` accepts: space, tab, line feed,
/// form feed, carriage return.
pub open spec fn is_ascii_whitespace(b: u8) -> bool {
    b == 32 || b == 9 || b == 10 || b == 12 || b == 13
}

/// The index of the first whitespace byte of `s` at or after `i`, or the
/// length of `s` where there is none.
pub open spec fn word_end(s: Seq<u8>, i: int) -> int
    decreases s.len() - i,
{
    if i >= s.len() {
        s.len() as int
    } else if is_ascii_whitespace(s[i]) {
        i
    } else {
        word_end(s, i + 1)
    }
}

/// The marker of a chat message that the server could not verify.
pub open spec fn not_secure_marker() -> Seq<u8> {
    ascii("[Not Secure] "@)
}

/// What follows the player in a join message.
pub open spec fn joined_text() -> Seq<u8> {
    ascii(" joined the game"@)
}

/// What follows the player in a leave message.
pub open spec fn left_text() -> Seq<u8> {
    ascii(" left the game"@)
}

/// What follows the player in an advancement message.
pub open spec fn made_text() -> Seq<u8> {
    ascii(" has made the advancement "@)
}

/// What follows the player in a goal message.
pub open spec fn reached_text() -> Seq<u8> {
    ascii(" has reached the goal "@)
}

/// What follows the player in a challenge message.
pub open spec fn completed_text() -> Seq<u8> {
    ascii(" has completed the challenge "@)
}

/// The name of the game's main logger.
pub open spec fn server_thread() -> Seq<u8> {
    ascii("Server thread"@)
}

/// What separates the logger tag from the payload.
pub open spec fn payload_separator() -> Seq<u8> {
    ascii(": "@)
}

/// The sender of a chat message at the start of `q`, and the index after it:
/// `<name>` gives the name, `[name]` gives it with its brackets; the name is
/// not empty.
pub open spec fn sender_of(q: Seq<u8>) -> Option<(Seq<u8>, int)> {
    if q.len() > 0 && q[0] == LESS_THAN {
        match find_from(q, seq![GREATER_THAN], 1) {
            Some(j) => if j >= 2 {
                Some((q.subrange(1, j), j + 1))
            } else {
                None
            },
            None => None,
        }
    } else if q.len() > 0 && q[0] == OPEN_BRACKET {
        match find_from(q, seq![CLOSE_BRACKET], 1) {
            Some(j) => if j >= 2 {
                Some((q.subrange(0, j + 1), j + 1))
            } else {
                None
            },
            None => None,
        }
    } else {
        None
    }
}

/// A chat payload: an optional `[Not Secure] ` marker, the sender, a space,
/// and a message of at least one byte. Gives whether the marker was absent,
/// the sender and the message.
pub open spec fn chat_of(p: Seq<u8>) -> Option<(bool, Seq<u8>, Seq<u8>)> {
    let secure = !has_prefix(p, not_secure_marker());
    let q = if secure {
        p
    } else {
        p.subrange(not_secure_marker().len() as int, p.len() as int)
    };
    match sender_of(q) {
        None => None,
        Some((sender, e)) => if e + 1 < q.len() && q[e] == SPACE {
            Some((secure, sender, q.subrange(e + 1, q.len() as int)))
        } else {
            None
        },
    }
}

/// A payload made of a non-empty run of non-whitespace bytes and then exactly
/// `tail`: gives the run.
pub open spec fn word_then(p: Seq<u8>, tail: Seq<u8>) -> Option<Seq<u8>> {
    let w = word_end(p, 0);
    if w >= 1 && p.subrange(w, p.len() as int) == tail {
        Some(p.subrange(0, w))
    } else {
        None
    }
}

/// A join payload: `<player> joined the game`.
pub open spec fn join_of(p: Seq<u8>) -> Option<Seq<u8>> {
    word_then(p, joined_text())
}

/// A leave payload: `<player> left the game`.
pub open spec fn leave_of(p: Seq<u8>) -> Option<Seq<u8>> {
    word_then(p, left_text())
}

/// The length of the advancement connector that `s` begins with.
pub open spec fn connector_len(s: Seq<u8>) -> Option<int> {
    if has_prefix(s, made_text()) {
        Some(made_text().len() as int)
    } else if has_prefix(s, reached_text()) {
        Some(reached_text().len() as int)
    } else if has_prefix(s, completed_text()) {
        Some(completed_text().len() as int)
    } else {
        None
    }
}

/// `[name]` making up all of `s`, the name not empty and without `]`: gives
/// the name.
pub open spec fn bracketed(s: Seq<u8>) -> Option<Seq<u8>> {
    if s.len() >= 3 && s[0] == OPEN_BRACKET && find_from(s, seq![CLOSE_BRACKET], 1) == Some(
        s.len() - 1,
    ) {
        Some(s.subrange(1, s.len() - 1))
    } else {
        None
    }
}

/// An advancement payload: a player, one of the three connectors, and the
/// bracketed advancement. Gives the player and the advancement.
pub open spec fn advancement_of(p: Seq<u8>) -> Option<(Seq<u8>, Seq<u8>)> {
    let w = word_end(p, 0);
    let rest = p.subrange(w, p.len() as int);
    if w < 1 {
        None
    } else {
        match connector_len(rest) {
            None => None,
            Some(n) => match bracketed(rest.subrange(n, rest.len() as int)) {
                None => None,
                Some(a) => Some((p.subrange(0, w), a)),
            },
        }
    }
}

/// The event that a line stands for.
pub enum LogView {
    Generic { time: HmsTime, logger: LoggerView, message: Seq<u8> },
    Chat { time: HmsTime, secure: bool, sender: Seq<u8>, message: Seq<u8> },
    Join { time: HmsTime, player: Seq<u8> },
    Leave { time: HmsTime, player: Seq<u8> },
    Advancement { time: HmsTime, player: Seq<u8>, advancement: Seq<u8> },
    Death { time: HmsTime, victim: Seq<u8>, attacker: Seq<u8>, weapon: Seq<u8> },
    Unknown { raw: Seq<u8> },
}

/// The logger of the game's main thread at level `INFO`, the one context in
/// which the specialized grammars apply.
pub open spec fn is_server_info(lg: LoggerView) -> bool {
    lg.level == LogLevel::Info && lg.name == server_thread()
}

/// The first specialized grammar that reads the payload, in the order chat,
/// join, leave, advancement, death.
pub open spec fn specialized_event(t: HmsTime, p: Seq<u8>, table: Seq<TemplateView>) -> Option<
    LogView,
> {
    match chat_of(p) {
        Some((secure, sender, message)) => Some(
            LogView::Chat { time: t, secure, sender, message },
        ),
        None => match join_of(p) {
            Some(player) => Some(LogView::Join { time: t, player }),
            None => match leave_of(p) {
                Some(player) => Some(LogView::Leave { time: t, player }),
                None => match advancement_of(p) {
                    Some((player, advancement)) => Some(
                        LogView::Advancement { time: t, player, advancement },
                    ),
                    None => match first_match(table, p, 0) {
                        Some(c) => Some(
                            LogView::Death {
                                time: t,
                                victim: c.victim,
                                attacker: c.attacker,
                                weapon: c.weapon,
                            },
                        ),
                        None => None,
                    },
                },
            },
        },
    }
}

/// The event of a payload under a logger: a specialized one where the logger
/// allows it and one matches, else a generic one for a non-empty payload.
pub open spec fn event_of_payload(
    t: HmsTime,
    lg: LoggerView,
    p: Seq<u8>,
    table: Seq<TemplateView>,
) -> Option<LogView> {
    if is_server_info(lg) && specialized_event(t, p, table) is Some {
        specialized_event(t, p, table)
    } else if p.len() > 0 {
        Some(LogView::Generic { time: t, logger: lg, message: p })
    } else {
        None
    }
}

/// The timestamp and logger that a line begins with, and the index where its
/// payload starts: `[HH:MM:SS] [<name>/<LEVEL>]: `.
pub open spec fn spec_prefix(line: Seq<u8>) -> Option<(HmsTime, LoggerView, int)> {
    if line.len() < 11 || line[0] != OPEN_BRACKET || line[9] != CLOSE_BRACKET || line[10]
        != SPACE {
        None
    } else {
        match spec_hms(line.subrange(1, line.len() as int)) {
            None => None,
            Some(t) => match spec_logger(line.subrange(11, line.len() as int)) {
                None => None,
                Some((lg, n)) => if has_prefix(
                    line.subrange(11 + n, line.len() as int),
                    payload_separator(),
                ) {
                    Some((t, lg, 11 + n + 2))
                } else {
                    None
                },
            },
        }
    }
}

/// A half-open range of byte offsets into a line.
#[derive(Clone, Copy, Debug, PartialEq, Eq, Structural)]
pub struct Span {
    pub start: usize,
    pub end: usize,
}

/// The event of a line and the span of the bytes that its grammar read: the
/// payload for a recognised line, the whole line for an unknown one.
pub open spec fn parse_line(line: Seq<u8>, table: Seq<TemplateView>) -> (LogView, Span) {
    let whole = (LogView::Unknown { raw: line }, Span { start: 0, end: line.len() as usize });
    match spec_prefix(line) {
        None => whole,
        Some((t, lg, off)) => match event_of_payload(
            t,
            lg,
            line.subrange(off, line.len() as int),
            table,
        ) {
            Some(e) => (e, Span { start: off as usize, end: line.len() as usize }),
            None => whole,
        },
    }
}

fn not_secure_literal() -> (r: &'static [u8])
    ensures
        r@ == not_secure_marker(),
        r@.len() == 13,
{
    proof {
        reveal_strlit("[Not Secure] ");
    }
    ascii_bytes("[Not Secure] ")
}

fn joined_literal() -> (r: &'static [u8])
    ensures
        r@ == joined_text(),
        r@.len() == 16,
{
    proof {
        reveal_strlit(" joined the game");
    }
    ascii_bytes(" joined the game")
}

fn left_literal() -> (r: &'static [u8])
    ensures
        r@ == left_text(),
        r@.len() == 14,
{
    proof {
        reveal_strlit(" left the game");
    }
    ascii_bytes(" left the game")
}

fn made_literal() -> (r: &'static [u8])
    ensures
        r@ == made_text(),
        r@.len() == 26,
{
    proof {
        reveal_strlit(" has made the advancement ");
    }
    ascii_bytes(" has made the advancement ")
}

fn reached_literal() -> (r: &'static [u8])
    ensures
        r@ == reached_text(),
        r@.len() == 22,
{
    proof {
        reveal_strlit(" has reached the goal ");
    }
    ascii_bytes(" has reached the goal ")
}

fn completed_literal() -> (r: &'static [u8])
    ensures
        r@ == completed_text(),
        r@.len() == 29,
{
    proof {
        reveal_strlit(" has completed the challenge ");
    }
    ascii_bytes(" has completed the challenge ")
}

fn server_thread_literal() -> (r: &'static [u8])
    ensures
        r@ == server_thread(),
        r@.len() == 13,
{
    proof {
        reveal_strlit("Server thread");
    }
    ascii_bytes("Server thread")
}

fn payload_separator_literal() -> (r: &'static [u8])
    ensures
        r@ == payload_separator(),
        r@.len() == 2,
{
    proof {
        reveal_strlit(": ");
    }
    ascii_bytes(": ")
}

fn is_ascii_whitespace_exec(b: u8) -> (r: bool)
    ensures
        r == is_ascii_whitespace(b),
{
    b == 32 || b == 9 || b == 10 || b == 12 || b == 13
}

/// The index of the first whitespace byte of `s`, or its length.
fn word_end_exec(s: &[u8]) -> (r: usize)
    ensures
        r as int == word_end(s@, 0),
        r <= s@.len(),
{
    let mut i: usize = 0;
    while i < s.len() && !is_ascii_whitespace_exec(s[i])
        invariant
            i <= s@.len(),
            word_end(s@, 0) == word_end(s@, i as int),
        decreases s@.len() - i,
    {
        i += 1;
    }
    i
}

/// The first index from 1 on that holds `b`.
fn find_byte_from_one(s: &[u8], b: u8) -> (r: Option<usize>)
    ensures
        opt_int(r) == find_from(s@, seq![b], 1),
        r matches Some(j) ==> 1 <= j < s@.len() && s@[j as int] == b,
{
    let one: [u8; 1] = [b];
    assert(one@ =~= seq![b]);
    let r = find(s, one.as_slice(), 1);
    proof {
        lemma_find_from_leftmost(s@, seq![b], 1);
        if let Some(j) = r {
            assert(s@.subrange(j as int, j + 1)[0] == s@[j as int]);
        }
    }
    r
}

fn sender_of_exec<'a>(q: &'a [u8]) -> (r: Option<(&'a [u8], usize)>)
    ensures
        match r {
            Some((sender, e)) => sender_of(q@) == Some((sender@, e as int)) && e <= q@.len(),
            None => sender_of(q@) is None,
        },
{
    if q.len() > 0 && q[0] == LESS_THAN {
        match find_byte_from_one(q, GREATER_THAN) {
            Some(j) => if j >= 2 {
                Some((&q[1..j], j + 1))
            } else {
                None
            },
            None => None,
        }
    } else if q.len() > 0 && q[0] == OPEN_BRACKET {
        match find_byte_from_one(q, CLOSE_BRACKET) {
            Some(j) => if j >= 2 {
                Some((&q[0..j + 1], j + 1))
            } else {
                None
            },
            None => None,
        }
    } else {
        None
    }
}

/// Whether the specialized grammars apply under `logger`.
pub fn is_server_info_exec(logger: &Logger) -> (r: bool)
    ensures
        r == is_server_info(logger@),
{
    let name = server_thread_literal();
    if logger.level != LogLevel::Info || logger.name.0.len() != name.len() {
        return false;
    }
    assert(logger.name@.subrange(0, server_thread().len() as int) =~= logger.name@);
    starts_with(logger.name.0, name)
}

/// A line of any other subsystem or shape, with its logger.
#[derive(Clone, Copy, Debug)]
pub struct GenericLog<'a> {
    pub time: HmsTime,
    pub logger: Logger<'a>,
    pub message: ShowLossyStr<'a>,
}

/// A chat message; `secure` is false where the server marked it not secure.
#[derive(Clone, Copy, Debug)]
pub struct ChatLog<'a> {
    pub time: HmsTime,
    pub secure: bool,
    pub sender: ShowLossyStr<'a>,
    pub message: ShowLossyStr<'a>,
}

/// A player joined the game.
#[derive(Clone, Copy, Debug)]
pub struct JoinLog<'a> {
    pub time: HmsTime,
    pub player: ShowLossyStr<'a>,
}

/// A player left the game.
#[derive(Clone, Copy, Debug)]
pub struct LeaveLog<'a> {
    pub time: HmsTime,
    pub player: ShowLossyStr<'a>,
}

/// A player made an advancement, reached a goal or completed a challenge.
#[derive(Clone, Copy, Debug)]
pub struct AdvancementLog<'a> {
    pub time: HmsTime,
    pub player: ShowLossyStr<'a>,
    pub advancement: ShowLossyStr<'a>,
}

/// A player died; the attacker and the weapon are empty where the message
/// names none.
#[derive(Clone, Copy, Debug)]
pub struct DeathLog<'a> {
    pub time: HmsTime,
    pub victim: ShowLossyStr<'a>,
    pub attacker: ShowLossyStr<'a>,
    pub weapon: ShowLossyStr<'a>,
}

/// The event of a log line; every byte string in it is a view into the line.
#[derive(Clone, Copy, Debug)]
pub enum Log<'a> {
    Generic(GenericLog<'a>),
    Chat(ChatLog<'a>),
    Join(JoinLog<'a>),
    Leave(LeaveLog<'a>),
    Advancement(AdvancementLog<'a>),
    Death(DeathLog<'a>),
    Unknown(ShowLossyStr<'a>),
}

impl<'a> View for Log<'a> {
    type V = LogView;

    open spec fn view(&self) -> LogView {
        match self {
            Log::Generic(g) => LogView::Generic {
                time: g.time,
                logger: g.logger@,
                message: g.message@,
            },
            Log::Chat(c) => LogView::Chat {
                time: c.time,
                secure: c.secure,
                sender: c.sender@,
                message: c.message@,
            },
            Log::Join(j) => LogView::Join { time: j.time, player: j.player@ },
            Log::Leave(l) => LogView::Leave { time: l.time, player: l.player@ },
            Log::Advancement(a) => LogView::Advancement {
                time: a.time,
                player: a.player@,
                advancement: a.advancement@,
            },
            Log::Death(d) => LogView::Death {
                time: d.time,
                victim: d.victim@,
                attacker: d.attacker@,
                weapon: d.weapon@,
            },
            Log::Unknown(raw) => LogView::Unknown { raw: raw@ },
        }
    }
}

/// Reads a chat payload: whether it is secure, the sender, the message.
pub fn parse_chat<'a>(p: &'a [u8]) -> (r: Result<(bool, &'a [u8], &'a [u8]), ParseError>)
    ensures
        match r {
            Ok((secure, sender, message)) => chat_of(p@) == Some((secure, sender@, message@)),
            Err(e) => e == ParseError::PayloadGrammarFailed && chat_of(p@) is None,
        },
{
    let marker = not_secure_literal();
    let secure = !starts_with(p, marker);
    let q = if secure {
        p
    } else {
        &p[marker.len()..p.len()]
    };
    match sender_of_exec(q) {
        Some((sender, e)) => if e < q.len() && q[e] == SPACE && e + 1 < q.len() {
            Ok((secure, sender, &q[e + 1..q.len()]))
        } else {
            Err(ParseError::PayloadGrammarFailed)
        },
        None => Err(ParseError::PayloadGrammarFailed),
    }
}

fn word_then_exec<'a>(p: &'a [u8], tail: &[u8]) -> (r: Result<&'a [u8], ParseError>)
    ensures
        match r {
            Ok(w) => word_then(p@, tail@) == Some(w@),
            Err(e) => e == ParseError::PayloadGrammarFailed && word_then(p@, tail@) is None,
        },
{
    let w = word_end_exec(p);
    if w >= 1 && p.len() - w == tail.len() && crate::bytes::matches_at(p, tail, w) {
        assert(p@.subrange(w as int, p@.len() as int) =~= p@.subrange(
            w as int,
            w + tail@.len(),
        ));
        Ok(&p[0..w])
    } else {
        proof {
            if w >= 1 && p@.subrange(w as int, p@.len() as int) == tail@ {
                assert(p@.subrange(w as int, p@.len() as int) =~= p@.subrange(
                    w as int,
                    w + tail@.len(),
                ));
            }
        }
        Err(ParseError::PayloadGrammarFailed)
    }
}

/// Reads a join payload: the player.
pub fn parse_join<'a>(p: &'a [u8]) -> (r: Result<&'a [u8], ParseError>)
    ensures
        match r {
            Ok(player) => join_of(p@) == Some(player@),
            Err(e) => e == ParseError::PayloadGrammarFailed && join_of(p@) is None,
        },
{
    word_then_exec(p, joined_literal())
}

/// Reads a leave payload: the player.
pub fn parse_leave<'a>(p: &'a [u8]) -> (r: Result<&'a [u8], ParseError>)
    ensures
        match r {
            Ok(player) => leave_of(p@) == Some(player@),
            Err(e) => e == ParseError::PayloadGrammarFailed && leave_of(p@) is None,
        },
{
    word_then_exec(p, left_literal())
}

fn connector_len_exec(s: &[u8]) -> (r: Option<usize>)
    ensures
        opt_int(r) == connector_len(s@),
        r matches Some(n) ==> n <= s@.len(),
{
    let made = made_literal();
    let reached = reached_literal();
    let completed = completed_literal();
    if starts_with(s, made) {
        Some(made.len())
    } else if starts_with(s, reached) {
        Some(reached.len())
    } else if starts_with(s, completed) {
        Some(completed.len())
    } else {
        None
    }
}

fn bracketed_exec<'a>(s: &'a [u8]) -> (r: Option<&'a [u8]>)
    ensures
        match r {
            Some(a) => bracketed(s@) == Some(a@),
            None => bracketed(s@) is None,
        },
{
    if s.len() >= 3 && s[0] == OPEN_BRACKET {
        match find_byte_from_one(s, CLOSE_BRACKET) {
            Some(j) => if j == s.len() - 1 {
                Some(&s[1..s.len() - 1])
            } else {
                None
            },
            None => None,
        }
    } else {
        None
    }
}

/// Reads an advancement payload: the player and the advancement.
pub fn parse_advancement<'a>(p: &'a [u8]) -> (r: Result<(&'a [u8], &'a [u8]), ParseError>)
    ensures
        match r {
            Ok((player, advancement)) => advancement_of(p@) == Some((player@, advancement@)),
            Err(e) => e == ParseError::PayloadGrammarFailed && advancement_of(p@) is None,
        },
{
    let w = word_end_exec(p);
    if w < 1 {
        return Err(ParseError::PayloadGrammarFailed);
    }
    let rest = &p[w..p.len()];
    let n = match connector_len_exec(rest) {
        Some(n) => n,
        None => return Err(ParseError::PayloadGrammarFailed),
    };
    match bracketed_exec(&rest[n..rest.len()]) {
        Some(a) => Ok((&p[0..w], a)),
        None => Err(ParseError::PayloadGrammarFailed),
    }
}

/// The event of a payload by the first specialized grammar that reads it,
/// where the logger lets them apply.
pub fn parse_specialized<'a>(
    time: HmsTime,
    logger: &Logger<'a>,
    p: &'a [u8],
    table: &DeathTable,
) -> (r: Result<Log<'a>, ParseError>)
    ensures
        match r {
            Ok(e) => is_server_info(logger@) && specialized_event(time, p@, table@) == Some(e@),
            Err(e) => if is_server_info(logger@) {
                e == ParseError::PayloadGrammarFailed && specialized_event(time, p@, table@) is None
            } else {
                e == ParseError::GrammarNotApplicable
            },
        },
{
    if !is_server_info_exec(logger) {
        return Err(ParseError::GrammarNotApplicable);
    }
    if let Ok((secure, sender, message)) = parse_chat(p) {
        return Ok(
            Log::Chat(
                ChatLog {
                    time,
                    secure,
                    sender: ShowLossyStr(sender),
                    message: ShowLossyStr(message),
                },
            ),
        );
    }
    if let Ok(player) = parse_join(p) {
        return Ok(Log::Join(JoinLog { time, player: ShowLossyStr(player) }));
    }
    if let Ok(player) = parse_leave(p) {
        return Ok(Log::Leave(LeaveLog { time, player: ShowLossyStr(player) }));
    }
    if let Ok((player, advancement)) = parse_advancement(p) {
        return Ok(
            Log::Advancement(
                AdvancementLog {
                    time,
                    player: ShowLossyStr(player),
                    advancement: ShowLossyStr(advancement),
                },
            ),
        );
    }
    match table.match_death(p) {
        Ok(c) => Ok(
            Log::Death(
                DeathLog {
                    time,
                    victim: ShowLossyStr(c.victim),
                    attacker: ShowLossyStr(c.attacker),
                    weapon: ShowLossyStr(c.weapon),
                },
            ),
        ),
        Err(_) => Err(ParseError::PayloadGrammarFailed),
    }
}

/// The event of a payload: a specialized one where one applies and reads it,
/// else a generic one; fails only on an empty payload.
pub fn dispatch<'a>(time: HmsTime, logger: Logger<'a>, p: &'a [u8], table: &DeathTable) -> (r:
    Result<Log<'a>, ParseError>)
    ensures
        match r {
            Ok(e) => event_of_payload(time, logger@, p@, table@) == Some(e@),
            Err(e) => e == ParseError::PayloadGrammarFailed && event_of_payload(
                time,
                logger@,
                p@,
                table@,
            ) is None,
        },
{
    if let Ok(e) = parse_specialized(time, &logger, p, table) {
        return Ok(e);
    }
    if p.len() > 0 {
        Ok(Log::Generic(GenericLog { time, logger, message: ShowLossyStr(p) }))
    } else {
        Err(ParseError::PayloadGrammarFailed)
    }
}

/// Reads the timestamp and logger that a line begins with, and the index of
/// the payload after them.
pub fn parse_prefix<'a>(line: &'a [u8]) -> (r: Result<(HmsTime, Logger<'a>, usize), ParseError>)
    ensures
        match r {
            Ok((t, lg, off)) => spec_prefix(line@) == Some((t, lg@, off as int)) && off
                <= line@.len(),
            Err(e) => e == ParseError::PrefixMalformed && spec_prefix(line@) is None,
        },
{
    if line.len() < 11 || line[0] != OPEN_BRACKET || line[9] != CLOSE_BRACKET || line[10]
        != SPACE {
        return Err(ParseError::PrefixMalformed);
    }
    let t = HmsTime::parser(&line[1..line.len()])?;
    let rest = &line[11..line.len()];
    let (lg, n) = Logger::parser(rest)?;
    assert(rest@.subrange(n as int, rest@.len() as int) =~= line@.subrange(11 + n, line@.len() as int));
    if starts_with(&rest[n..rest.len()], payload_separator_literal()) {
        Ok((t, lg, 11 + n + 2))
    } else {
        Err(ParseError::PrefixMalformed)
    }
}

impl<'a> Log<'a> {
    /// Reads one log line, without its newline, into its event and the span
    /// of the bytes that the event's grammar read. A line whose prefix is
    /// malformed, or whose payload is empty, is `Unknown` over the whole line.
    pub fn parser(line: &'a [u8], table: &DeathTable) -> (r: (Log<'a>, Span))
        ensures
            r.0@ == parse_line(line@, table@).0,
            r.1 == parse_line(line@, table@).1,
    {
        let whole = (Log::Unknown(ShowLossyStr(line)), Span { start: 0, end: line.len() });
        match parse_prefix(line) {
            Err(_) => whole,
            Ok((t, lg, off)) => match dispatch(t, lg, &line[off..line.len()], table) {
                Ok(e) => (e, Span { start: off, end: line.len() }),
                Err(_) => whole,
            },
        }
    }
}

/// A line whose timestamp or logger tag is malformed is `Unknown` over the
/// whole line.
pub proof fn lemma_malformed_prefix_is_unknown(line: Seq<u8>, table: Seq<TemplateView>)
    requires
        spec_prefix(line) is None,
    ensures
        parse_line(line, table) == (
        LogView::Unknown { raw: line },
        Span { start: 0, end: line.len() as usize },
        ),
{
}

/// Under any logger other than the main thread at `INFO`, a line is never a
/// chat, join, leave, advancement or death event, whatever its payload.
pub proof fn lemma_guard_isolation(line: Seq<u8>, table: Seq<TemplateView>)
    requires
        spec_prefix(line) matches Some((t, lg, off)) && !is_server_info(lg),
    ensures
        parse_line(line, table).0 is Generic || parse_line(line, table).0 is Unknown,
{
}

/// Reading the same line with the same table gives the same event and span.
pub proof fn lemma_parse_deterministic(
    line1: Seq<u8>,
    line2: Seq<u8>,
    table1: Seq<TemplateView>,
    table2: Seq<TemplateView>,
)
    requires
        line1 == line2,
        table1 == table2,
    ensures
        parse_line(line1, table1) == parse_line(line2, table2),
{
}

/// The bytes of an advancement payload: player, connector, bracketed name.
pub open spec fn advancement_text(player: Seq<u8>, connector: Seq<u8>, advancement: Seq<u8>) -> Seq<
    u8,
> {
    player + connector + seq![OPEN_BRACKET] + advancement + seq![CLOSE_BRACKET]
}

proof fn lemma_word_end_bounds(s: Seq<u8>, i: int)
    requires
        0 <= i <= s.len(),
    ensures
        i <= word_end(s, i) <= s.len(),
        forall|k: int| i <= k < word_end(s, i) ==> !is_ascii_whitespace(#[trigger] s[k]),
        word_end(s, i) < s.len() ==> is_ascii_whitespace(s[word_end(s, i)]),
    decreases s.len() - i,
{
    if i < s.len() && !is_ascii_whitespace(s[i]) {
        lemma_word_end_bounds(s, i + 1);
    }
}

proof fn lemma_prefix_in_bounds(line: Seq<u8>)
    ensures
        spec_prefix(line) matches Some((t, lg, off)) ==> 11 <= off <= line.len(),
{
    reveal_strlit(": ");
    if let Some((t, lg, off)) = spec_prefix(line) {
        lemma_find_from_leftmost(line.subrange(11, line.len() as int), seq![SLASH], 1);
        assert(payload_separator().len() == 2);
    }
}

/// The span of a recognised line is its payload, which for a join, leave or
/// advancement is exactly what the grammar read; an unknown line spans the
/// whole line.
pub proof fn lemma_span_is_payload(line: Seq<u8>, table: Seq<TemplateView>)
    requires
        line.len() <= usize::MAX,
    ensures
        ({
            let (e, sp) = parse_line(line, table);
            &&& sp.start <= sp.end
            &&& sp.end == line.len()
            &&& e is Unknown ==> sp.start == 0 && e == LogView::Unknown { raw: line }
            &&& !(e is Unknown) ==> (spec_prefix(line) matches Some((t, lg, off)) && sp.start
                == off)
            &&& e matches LogView::Join { player, .. } ==> line.subrange(
                sp.start as int,
                sp.end as int,
            ) == player + joined_text()
            &&& e matches LogView::Leave { player, .. } ==> line.subrange(
                sp.start as int,
                sp.end as int,
            ) == player + left_text()
            &&& e matches LogView::Advancement { player, advancement, .. } ==> {
                ||| line.subrange(sp.start as int, sp.end as int) == advancement_text(
                    player,
                    made_text(),
                    advancement,
                )
                ||| line.subrange(sp.start as int, sp.end as int) == advancement_text(
                    player,
                    reached_text(),
                    advancement,
                )
                ||| line.subrange(sp.start as int, sp.end as int) == advancement_text(
                    player,
                    completed_text(),
                    advancement,
                )
            }
        }),
{
    lemma_prefix_in_bounds(line);
    if let Some((t, lg, off)) = spec_prefix(line) {
        let p = line.subrange(off, line.len() as int);
        if is_server_info(lg) && specialized_event(t, p, table) is Some && chat_of(p) is None {
            lemma_word_end_bounds(p, 0);
            let w = word_end(p, 0);
            if join_of(p) is Some {
                assert(p =~= p.subrange(0, w) + joined_text());
            } else if leave_of(p) is Some {
                assert(p =~= p.subrange(0, w) + left_text());
            } else if let Some((player, a)) = advancement_of(p) {
                let rest = p.subrange(w, p.len() as int);
                let n = connector_len(rest)->0;
                let r2 = rest.subrange(n, rest.len() as int);
                lemma_find_from_leftmost(r2, seq![CLOSE_BRACKET], 1);
                assert(r2.subrange(r2.len() - 1, r2.len() as int)[0] == r2[r2.len() - 1]);
                assert(r2 =~= seq![OPEN_BRACKET] + a + seq![CLOSE_BRACKET]);
                assert(rest =~= rest.subrange(0, n) + r2);
                assert(p =~= player + rest.subrange(0, n) + seq![OPEN_BRACKET] + a + seq![
                    CLOSE_BRACKET,
                ]);
            }
        }
    }
}

/// The time that the six digits `HHMMSS` stand for.
pub open spec fn digits_time(d: Seq<u8>) -> HmsTime {
    HmsTime {
        hours: pair_value(d[0], d[1]),
        minutes: pair_value(d[2], d[3]),
        seconds: pair_value(d[4], d[5]),
    }
}

/// The bytes `[HH:MM:SS] [<name>/<LEVEL>]: ` that begin a line, from the six
/// digits `HHMMSS`.
pub open spec fn line_prefix(d: Seq<u8>, name: Seq<u8>, level: LogLevel) -> Seq<u8> {
    seq![
        OPEN_BRACKET,
        d[0],
        d[1],
        COLON,
        d[2],
        d[3],
        COLON,
        d[4],
        d[5],
        CLOSE_BRACKET,
        SPACE,
        OPEN_BRACKET,
    ] + name + seq![SLASH] + level_keyword(level) + seq![CLOSE_BRACKET] + payload_separator()
}

/// A level keyword followed by a byte that cannot continue it reads as that
/// level.
proof fn lemma_level_read(level: LogLevel, tail: Seq<u8>)
    requires
        tail.len() > 0,
        !is_ident_byte(tail[0]),
    ensures
        spec_level(level_keyword(level) + tail) == Some(level),
{
    reveal_strlit("TRACE");
    reveal_strlit("DEBUG");
    reveal_strlit("INFO");
    reveal_strlit("WARN");
    reveal_strlit("ERROR");
    reveal_strlit("FATAL");
    let k = level_keyword(level);
    let s = k + tail;
    assert(s.subrange(0, k.len() as int) =~= k);
    assert(s[k.len() as int] == tail[0]);
    assert forall|other: LogLevel| other != level implies !has_prefix(s, level_keyword(other)) by {
        if has_prefix(s, level_keyword(other)) {
            assert(s.subrange(0, level_keyword(other).len() as int)[0] == s[0]);
        }
    }
}

/// A line that begins with a well-formed prefix has that time and logger, and
/// its payload starts right after the prefix.
pub proof fn lemma_line_prefix(d: Seq<u8>, name: Seq<u8>, level: LogLevel, payload: Seq<u8>)
    requires
        d.len() == 6,
        forall|i: int| 0 <= i < 6 ==> is_digit(#[trigger] d[i]),
        forall|i: int| 0 <= i < name.len() ==> #[trigger] name[i] != SLASH,
    ensures
        spec_prefix(line_prefix(d, name, level) + payload) == Some(
            (
                digits_time(d),
                LoggerView { name, level },
                line_prefix(d, name, level).len() as int,
            ),
        ),
{
    reveal_strlit(": ");
    let pre = line_prefix(d, name, level);
    let line = pre + payload;
    let k = level_keyword(level);
    let sep = payload_separator();
    assert(sep.len() == 2);
    let h = line.subrange(1, line.len() as int);
    assert(h[0] == d[0] && h[1] == d[1] && h[2] == COLON && h[3] == d[2] && h[4] == d[3]);
    assert(h[5] == COLON && h[6] == d[4] && h[7] == d[5]);
    assert(spec_hms(h) == Some(digits_time(d)));
    let s = line.subrange(11, line.len() as int);
    assert(s =~= seq![OPEN_BRACKET] + name + seq![SLASH] + k + seq![CLOSE_BRACKET] + sep + payload);
    let j = 1 + name.len() as int;
    assert(s.subrange(j, j + 1) =~= seq![SLASH]);
    assert forall|i: int| 1 <= i < j implies !occurs_at(s, seq![SLASH], i) by {
        assert(s[i] == name[i - 1]);
        if occurs_at(s, seq![SLASH], i) {
            assert(s.subrange(i, i + 1)[0] == s[i]);
        }
    }
    lemma_find_first(s, seq![SLASH], 1, j);
    let rest = s.subrange(j + 1, s.len() as int);
    assert(rest =~= k + (seq![CLOSE_BRACKET] + sep + payload));
    lemma_level_read(level, seq![CLOSE_BRACKET] + sep + payload);
    assert(s.subrange(1, j) =~= name);
    let n: int = j + 1 + k.len() + 1;
    assert(line.subrange(11 + n, line.len() as int) =~= sep + payload);
    assert((sep + payload).subrange(0, 2) =~= sep);
}

/// A line `[HH:MM:SS] [Server thread/INFO]: <name> joined the game` is a join
/// of `<name>` at that time, for a name of one or more non-whitespace bytes
/// that does not begin with `<` or `[` (those would read as a chat sender).
pub proof fn lemma_join_line(d: Seq<u8>, name: Seq<u8>, table: Seq<TemplateView>)
    requires
        d.len() == 6,
        forall|i: int| 0 <= i < 6 ==> is_digit(#[trigger] d[i]),
        name.len() >= 1,
        forall|i: int| 0 <= i < name.len() ==> !is_ascii_whitespace(#[trigger] name[i]),
        name[0] != LESS_THAN,
        name[0] != OPEN_BRACKET,
    ensures
        parse_line(
            line_prefix(d, server_thread(), LogLevel::Info) + name + joined_text(),
            table,
        ).0 == (LogView::Join { time: digits_time(d), player: name }),
{
    reveal_strlit("Server thread");
    reveal_strlit("[Not Secure] ");
    reveal_strlit(" joined the game");
    let pre = line_prefix(d, server_thread(), LogLevel::Info);
    let p = name + joined_text();
    let line = pre + name + joined_text();
    assert(line =~= pre + p);
    lemma_line_prefix(d, server_thread(), LogLevel::Info, p);
    assert(line.subrange(pre.len() as int, line.len() as int) =~= p);
    assert(p[0] == name[0]);
    if has_prefix(p, not_secure_marker()) {
        assert(p.subrange(0, not_secure_marker().len() as int)[0] == p[0]);
    }
    assert(chat_of(p) is None);
    lemma_word_end_bounds(p, 0);
    let w = word_end(p, 0);
    assert(p[name.len() as int] == SPACE);
    if w < name.len() {
        assert(p[w] == name[w]);
    }
    assert(w == name.len());
    assert(p.subrange(w, p.len() as int) =~= joined_text());
    assert(p.subrange(0, w) =~= name);
}

} // verus!
