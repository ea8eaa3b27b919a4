use gluemc::death::{DeathMessageComponent, DeathTable, DeathTemplate};
use gluemc::error::ParseError;
use gluemc::logger::{LogLevel, Logger};
use gluemc::parsing::{
    dispatch, parse_advancement, parse_chat, parse_join, parse_leave, parse_prefix,
    parse_specialized, Log, Span,
};
use gluemc::text::ShowLossyStr;
use gluemc::time::HmsTime;

fn empty_table() -> DeathTable {
    DeathTable::new(Vec::new())
}

fn slain_table() -> DeathTable {
    DeathTable::new(vec![DeathTemplate {
        prefix: b"".to_vec(),
        slot1: DeathMessageComponent::Victim,
        infix1: b" was slain by ".to_vec(),
        slot2: DeathMessageComponent::Attacker,
        infix2: b" using ".to_vec(),
        slot3: DeathMessageComponent::Weapon,
        suffix: b"".to_vec(),
    }])
}

#[test]
fn join_line_gives_player_and_time() {
    let line = b"[12:34:56] [Server thread/INFO]: Steve joined the game";
    let (log, span) = Log::parser(line, &empty_table());
    match log {
        Log::Join(j) => {
            assert_eq!(j.player.0, b"Steve");
            assert_eq!(j.time, HmsTime { hours: 12, minutes: 34, seconds: 56 });
        }
        other => panic!("expected a join, got {:?}", other),
    }
    assert_eq!(span, Span { start: 33, end: line.len() });
}

#[test]
fn leave_line_gives_player() {
    let line = b"[00:00:01] [Server thread/INFO]: Alex left the game";
    match Log::parser(line, &empty_table()).0 {
        Log::Leave(l) => {
            assert_eq!(l.player.0, b"Alex");
            assert_eq!(l.time, HmsTime { hours: 0, minutes: 0, seconds: 1 });
        }
        other => panic!("expected a leave, got {:?}", other),
    }
}

#[test]
fn join_with_trailing_text_is_generic() {
    let line = b"[10:00:00] [Server thread/INFO]: Steve joined the game again";
    match Log::parser(line, &empty_table()).0 {
        Log::Generic(g) => assert_eq!(g.message.0, b"Steve joined the game again"),
        other => panic!("expected a generic line, got {:?}", other),
    }
}

#[test]
fn secure_chat_with_angle_sender() {
    let line = b"[10:00:00] [Server thread/INFO]: <Steve> hello there";
    match Log::parser(line, &empty_table()).0 {
        Log::Chat(c) => {
            assert!(c.secure);
            assert_eq!(c.sender.0, b"Steve");
            assert_eq!(c.message.0, b"hello there");
        }
        other => panic!("expected a chat, got {:?}", other),
    }
}

#[test]
fn not_secure_chat_is_flagged() {
    let line = b"[10:00:00] [Server thread/INFO]: [Not Secure] <Alex> hi";
    match Log::parser(line, &empty_table()).0 {
        Log::Chat(c) => {
            assert!(!c.secure);
            assert_eq!(c.sender.0, b"Alex");
            assert_eq!(c.message.0, b"hi");
        }
        other => panic!("expected a chat, got {:?}", other),
    }
}

#[test]
fn bracketed_sender_keeps_brackets() {
    let (secure, sender, message) = parse_chat(b"[Server] restarting soon").unwrap();
    assert!(secure);
    assert_eq!(sender, b"[Server]");
    assert_eq!(message, b"restarting soon");
}

#[test]
fn chat_needs_a_message_and_a_sender() {
    assert_eq!(parse_chat(b"<Steve> "), Err(ParseError::PayloadGrammarFailed));
    assert_eq!(parse_chat(b"<> hi"), Err(ParseError::PayloadGrammarFailed));
    assert_eq!(parse_chat(b"<Steve>hi"), Err(ParseError::PayloadGrammarFailed));
    assert_eq!(parse_chat(b"Steve hi"), Err(ParseError::PayloadGrammarFailed));
}

#[test]
fn advancement_span_covers_payload() {
    let line = b"[08:15:00] [Server thread/INFO]: Steve has made the advancement [Stone Age]";
    let (log, span) = Log::parser(line, &empty_table());
    match log {
        Log::Advancement(a) => {
            assert_eq!(a.player.0, b"Steve");
            assert_eq!(a.advancement.0, b"Stone Age");
        }
        other => panic!("expected an advancement, got {:?}", other),
    }
    assert_eq!(
        &line[span.start..span.end],
        b"Steve has made the advancement [Stone Age]"
    );
}

#[test]
fn advancement_connectors() {
    assert_eq!(
        parse_advancement(b"Alex has reached the goal [Sky's the Limit]"),
        Ok((b"Alex".as_slice(), b"Sky's the Limit".as_slice()))
    );
    assert_eq!(
        parse_advancement(b"Alex has completed the challenge [Arbalistic]"),
        Ok((b"Alex".as_slice(), b"Arbalistic".as_slice()))
    );
    assert_eq!(
        parse_advancement(b"Alex has made the advancement []"),
        Err(ParseError::PayloadGrammarFailed)
    );
    assert_eq!(
        parse_advancement(b"Alex has made the advancement [a]b]"),
        Err(ParseError::PayloadGrammarFailed)
    );
}

#[test]
fn join_and_leave_grammars() {
    assert_eq!(parse_join(b"Steve joined the game"), Ok(b"Steve".as_slice()));
    assert_eq!(parse_join(b" joined the game"), Err(ParseError::PayloadGrammarFailed));
    assert_eq!(parse_leave(b"Steve left the game"), Ok(b"Steve".as_slice()));
    assert_eq!(parse_leave(b"Steve joined the game"), Err(ParseError::PayloadGrammarFailed));
}

#[test]
fn death_line_through_the_table() {
    let line = b"[20:00:00] [Server thread/INFO]: Bob was slain by Zombie using Sword";
    let (log, span) = Log::parser(line, &slain_table());
    match log {
        Log::Death(d) => {
            assert_eq!(d.victim.0, b"Bob");
            assert_eq!(d.attacker.0, b"Zombie");
            assert_eq!(d.weapon.0, b"Sword");
            assert_eq!(d.time, HmsTime { hours: 20, minutes: 0, seconds: 0 });
        }
        other => panic!("expected a death, got {:?}", other),
    }
    assert_eq!(&line[span.start..span.end], b"Bob was slain by Zombie using Sword");
}

#[test]
fn malformed_prefix_is_unknown_over_whole_line() {
    let line = b"[1:2:3] [Server thread/INFO]: Steve joined the game";
    let (log, span) = Log::parser(line, &empty_table());
    match log {
        Log::Unknown(raw) => assert_eq!(raw.0, line.as_slice()),
        other => panic!("expected an unknown line, got {:?}", other),
    }
    assert_eq!(span, Span { start: 0, end: line.len() });
}

#[test]
fn empty_and_odd_inputs_are_unknown() {
    let lines: [&[u8]; 5] = [
        b"",
        b"[",
        b"[12:00:00] [Server thread/INFO]: ",
        b"[12:00:00] [Server thread/LOUD]: hi",
        b"\xff\xfe[12:00:00]",
    ];
    for line in lines {
        let (log, span) = Log::parser(line, &empty_table());
        match log {
            Log::Unknown(raw) => assert_eq!(raw.0, line),
            other => panic!("expected an unknown line, got {:?}", other),
        }
        assert_eq!(span, Span { start: 0, end: line.len() });
    }
}

#[test]
fn warn_chat_shape_is_generic() {
    let line = b"[12:00:00] [Server thread/WARN]: <Name> hello";
    match Log::parser(line, &slain_table()).0 {
        Log::Generic(g) => {
            assert_eq!(g.logger.level, LogLevel::Warn);
            assert_eq!(g.logger.name.0, b"Server thread");
            assert_eq!(g.message.0, b"<Name> hello");
        }
        other => panic!("expected a generic line, got {:?}", other),
    }
}

#[test]
fn other_logger_join_shape_is_generic() {
    let line = b"[12:00:00] [Worker-Main-1/INFO]: Steve joined the game";
    match Log::parser(line, &empty_table()).0 {
        Log::Generic(g) => assert_eq!(g.logger.name.0, b"Worker-Main-1"),
        other => panic!("expected a generic line, got {:?}", other),
    }
}

#[test]
fn parsing_twice_gives_the_same_event() {
    let line = b"[12:00:00] [Server thread/INFO]: [Not Secure] <Alex> same again";
    let table = empty_table();
    let (a, sa) = Log::parser(line, &table);
    let (b, sb) = Log::parser(line, &table);
    assert_eq!(sa, sb);
    match (a, b) {
        (Log::Chat(x), Log::Chat(y)) => {
            assert_eq!(x.time, y.time);
            assert_eq!(x.secure, y.secure);
            assert_eq!(x.sender, y.sender);
            assert_eq!(x.message, y.message);
        }
        other => panic!("expected two chats, got {:?}", other),
    }
}

#[test]
fn prefix_reads_time_logger_and_offset() {
    let line = b"[99:99:99] [a]b/ERROR]: x";
    let (t, lg, off) = parse_prefix(line).unwrap();
    assert_eq!(t, HmsTime { hours: 99, minutes: 99, seconds: 99 });
    assert_eq!(lg.name.0, b"a]b");
    assert_eq!(lg.level, LogLevel::Error);
    assert_eq!(off, 24);
    assert_eq!(
        parse_prefix(b"[12:00:00] [main/INFO] x"),
        Err(ParseError::PrefixMalformed)
    );
}

#[test]
fn time_parser_accepts_any_two_digits() {
    assert_eq!(
        HmsTime::parser(b"07:08:09"),
        Ok(HmsTime { hours: 7, minutes: 8, seconds: 9 })
    );
    assert_eq!(HmsTime::parser(b"7:08:09"), Err(ParseError::PrefixMalformed));
    assert_eq!(HmsTime::parser(b"07-08-09"), Err(ParseError::PrefixMalformed));
    assert_eq!(HmsTime::parser(b"07:08"), Err(ParseError::PrefixMalformed));
}

#[test]
fn level_keywords() {
    assert_eq!(LogLevel::parser(b"TRACE]"), Ok(LogLevel::Trace));
    assert_eq!(LogLevel::parser(b"DEBUG"), Ok(LogLevel::Debug));
    assert_eq!(LogLevel::parser(b"INFO]"), Ok(LogLevel::Info));
    assert_eq!(LogLevel::parser(b"WARN]"), Ok(LogLevel::Warn));
    assert_eq!(LogLevel::parser(b"FATAL]"), Ok(LogLevel::Fatal));
    assert_eq!(LogLevel::parser(b"INFOX]"), Err(ParseError::PrefixMalformed));
    assert_eq!(LogLevel::parser(b"info]"), Err(ParseError::PrefixMalformed));
}

#[test]
fn logger_tag() {
    let (lg, n) = Logger::parser(b"[Server thread/INFO]: hi").unwrap();
    assert_eq!(lg.name.0, b"Server thread");
    assert_eq!(lg.level, LogLevel::Info);
    assert_eq!(n, 20);
    let (lg, n) = Logger::parser(b"[/DEBUG]").unwrap();
    assert_eq!(lg.name.0, b"");
    assert_eq!(n, 8);
    assert_eq!(Logger::parser(b"[main/INFO"), Err(ParseError::PrefixMalformed));
    assert_eq!(Logger::parser(b"main/INFO]"), Err(ParseError::PrefixMalformed));
}

#[test]
fn guard_errors() {
    let warn = Logger { name: ShowLossyStr(b"Server thread"), level: LogLevel::Warn };
    let time = HmsTime { hours: 1, minutes: 2, seconds: 3 };
    assert!(matches!(
        parse_specialized(time, &warn, b"<a> b", &empty_table()),
        Err(ParseError::GrammarNotApplicable)
    ));
    let info = Logger { name: ShowLossyStr(b"Server thread"), level: LogLevel::Info };
    assert!(matches!(
        parse_specialized(time, &info, b"nothing special here", &empty_table()),
        Err(ParseError::PayloadGrammarFailed)
    ));
    assert!(matches!(
        dispatch(time, info, b"", &empty_table()),
        Err(ParseError::PayloadGrammarFailed)
    ));
    match dispatch(time, info, b"Starting minecraft server", &empty_table()) {
        Ok(Log::Generic(g)) => assert_eq!(g.message.0, b"Starting minecraft server"),
        other => panic!("expected a generic line, got {:?}", other),
    }
}

#[test]
fn lossy_text_replaces_invalid_bytes() {
    assert_eq!(ShowLossyStr(b"Steve").to_str_lossy(), "Steve");
    assert_eq!(ShowLossyStr(b"a\xffb").to_str_lossy(), "a\u{FFFD}b");
    assert_eq!(ShowLossyStr(b"").to_str_lossy(), "");
}
