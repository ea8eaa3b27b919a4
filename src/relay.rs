//! Messages from the chat service to the game: which ones go where, and the
//! server command that shows one in game.
use vstd::prelude::*;

verus! {

/// Where a message posted on the chat service goes.
#[derive(Clone, Copy, Debug, PartialEq, Eq, Structural)]
pub enum MessageRoute {
    /// Shown to the players in game.
    Game,
    /// Run as a server console command.
    Console,
    /// Not relayed.
    Ignore,
}

/// The route of a message: messages of bots and in threads are not relayed;
/// others go to the game from the chat channel and to the console from the
/// console channel.
pub open spec fn spec_route(
    author_is_bot: bool,
    in_thread: bool,
    channel: u64,
    chat_channel: u64,
    console_channel: u64,
) -> MessageRoute {
    if author_is_bot || in_thread {
        MessageRoute::Ignore
    } else if channel == chat_channel {
        MessageRoute::Game
    } else if channel == console_channel {
        MessageRoute::Console
    } else {
        MessageRoute::Ignore
    }
}

/// Decides where a posted message goes.
pub fn route_message(
    author_is_bot: bool,
    in_thread: bool,
    channel: u64,
    chat_channel: u64,
    console_channel: u64,
) -> (r: MessageRoute)
    ensures
        r == spec_route(author_is_bot, in_thread, channel, chat_channel, console_channel),
{
    if author_is_bot || in_thread {
        MessageRoute::Ignore
    } else if channel == chat_channel {
        MessageRoute::Game
    } else if channel == console_channel {
        MessageRoute::Console
    } else {
        MessageRoute::Ignore
    }
}

/// Relies on std's `String::push_str`: appends the characters of `t`.
#[verifier::external_body]
fn push_text(s: &mut String, t: &str)
    ensures
        final(s)@ == old(s)@ + t@,
{
    s.push_str(t)
}

/// The text that std's `Debug` gives for a string.
pub uninterp spec fn debug_quoted_of(s: Seq<char>) -> Seq<char>;

/// Relies on std's `Debug` for `str`: the text in double quotes, with quotes,
/// backslashes and control characters escaped; the result depends on the
/// characters alone.
#[verifier::external_body]
fn debug_quoted(s: &str) -> (r: String)
    ensures
        r@ == debug_quoted_of(s@),
{
    format!("{:?}", s)
}

/// The line shown in game for a chat message of `author`.
pub open spec fn game_chat_spec(author: Seq<char>, content: Seq<char>) -> Seq<char> {
    "[Discord] <"@ + author + "> "@ + content
}

/// The console command that shows a JSON string literal to every player.
pub open spec fn tellraw_spec(quoted: Seq<char>) -> Seq<char> {
    "tellraw @a {\"text\":"@ + quoted + "}"@
}

/// The line shown in game for a chat message: `[Discord] <author> content`.
pub fn game_chat_text(author: &str, content: &str) -> (r: String)
    ensures
        r@ == game_chat_spec(author@, content@),
{
    let mut s = String::new();
    push_text(&mut s, "[Discord] <");
    push_text(&mut s, author);
    push_text(&mut s, "> ");
    push_text(&mut s, content);
    assert(s@ =~= game_chat_spec(author@, content@));
    s
}

/// The command that shows an already quoted string to every player.
pub fn tellraw_from_quoted(quoted: &str) -> (r: String)
    ensures
        r@ == tellraw_spec(quoted@),
{
    let mut s = String::new();
    push_text(&mut s, "tellraw @a {\"text\":");
    push_text(&mut s, quoted);
    push_text(&mut s, "}");
    assert(s@ =~= tellraw_spec(quoted@));
    s
}

/// The command that shows `text` to every player, quoted as a string literal.
pub fn tellraw_command(text: &str) -> (r: String)
    ensures
        r@ == tellraw_spec(debug_quoted_of(text@)),
{
    let quoted = debug_quoted(text);
    tellraw_from_quoted(quoted.as_str())
}

} // verus!
