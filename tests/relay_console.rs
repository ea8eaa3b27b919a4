use gluemc::console::{console_chunks, CONSOLE_MESSAGE_LIMIT};
use gluemc::dimension::autocomplete_dimension;
use gluemc::player::{find_online, player_uuid};
use gluemc::relay::{
    game_chat_text, route_message, tellraw_command, tellraw_from_quoted, MessageRoute,
};
use gluemc::time::HmsTime;

fn chars(s: &str) -> Vec<char> {
    s.chars().collect()
}

#[test]
fn routes_by_channel_and_author() {
    assert_eq!(route_message(false, false, 1, 1, 2), MessageRoute::Game);
    assert_eq!(route_message(false, false, 2, 1, 2), MessageRoute::Console);
    assert_eq!(route_message(false, false, 3, 1, 2), MessageRoute::Ignore);
    assert_eq!(route_message(true, false, 1, 1, 2), MessageRoute::Ignore);
    assert_eq!(route_message(false, true, 2, 1, 2), MessageRoute::Ignore);
}

#[test]
fn chat_text_and_tellraw() {
    let text = game_chat_text("Ann", "hi \"there\"");
    assert_eq!(text, "[Discord] <Ann> hi \"there\"");
    assert_eq!(
        tellraw_command(&text),
        "tellraw @a {\"text\":\"[Discord] <Ann> hi \\\"there\\\"\"}"
    );
    assert_eq!(tellraw_command("a\nb"), "tellraw @a {\"text\":\"a\\nb\"}");
    assert_eq!(tellraw_from_quoted("\"x\""), "tellraw @a {\"text\":\"x\"}");
}

#[test]
fn short_output_is_one_chunk() {
    assert_eq!(console_chunks(&chars("abc\ndef"), 10), vec![(0, 7)]);
    assert_eq!(console_chunks(&chars(""), 10), vec![]);
    assert_eq!(console_chunks(&chars("abcdefghij"), 10), vec![(0, 10)]);
}

#[test]
fn long_output_splits_before_last_newline() {
    // Newlines at 3 and 7; the second chunk starts with its newline.
    let s = chars("abc\ndef\nghijkl");
    assert_eq!(console_chunks(&s, 10), vec![(0, 7), (7, 14)]);
}

#[test]
fn long_line_splits_at_the_limit() {
    let s = chars("abcdefghijklmnopqrstuvwxy");
    assert_eq!(console_chunks(&s, 10), vec![(0, 10), (10, 20), (20, 25)]);
}

#[test]
fn leading_newline_does_not_stall() {
    let s = chars("\nabcdefghijklmn");
    assert_eq!(console_chunks(&s, 5), vec![(0, 5), (5, 10), (10, 15)]);
}

#[test]
fn console_limit_chunks_fit() {
    let line = "x".repeat(1500);
    let s = chars(&format!("{line}\n{line}\n{line}"));
    let chunks = console_chunks(&s, CONSOLE_MESSAGE_LIMIT);
    assert_eq!(chunks, vec![(0, 1500), (1500, 3001), (3001, 4502)]);
}

#[test]
fn time_text_is_zero_padded() {
    assert_eq!(HmsTime { hours: 7, minutes: 5, seconds: 0 }.to_string(), "07:05:00");
    assert_eq!(HmsTime { hours: 23, minutes: 59, seconds: 58 }.to_string(), "23:59:58");
    assert_eq!(HmsTime { hours: 255, minutes: 99, seconds: 100 }.to_string(), "255:99:100");
}

#[test]
fn dimension_completion() {
    assert_eq!(
        autocomplete_dimension("the"),
        vec!["minecraft:the_nether", "minecraft:the_end"]
    );
    assert_eq!(
        autocomplete_dimension(""),
        vec!["minecraft:overworld", "minecraft:the_nether", "minecraft:the_end"]
    );
    assert_eq!(autocomplete_dimension("over"), vec!["minecraft:overworld"]);
    assert!(autocomplete_dimension("nope").is_empty());
    assert!(autocomplete_dimension("Ö").is_empty());
}

#[test]
fn player_uuid_forms() {
    let expected = 0x069a79f4_44e9_4726_a5be_fca90e38aaf5u128;
    assert_eq!(player_uuid("069a79f444e94726a5befca90e38aaf5"), Some(expected));
    assert_eq!(player_uuid("069a79f4-44e9-4726-a5be-fca90e38aaf5"), Some(expected));
    assert_eq!(player_uuid("Notch"), None);
    assert_eq!(player_uuid(""), None);
}

#[test]
fn first_online_player_with_uuid() {
    assert_eq!(find_online(&[3, 7, 7], 7), Some(1));
    assert_eq!(find_online(&[3, 7], 5), None);
    assert_eq!(find_online(&[], 5), None);
}
