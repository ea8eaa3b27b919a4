//! Reads the console output of a game server into typed events: chat, joins,
//! leaves, advancements, deaths, and everything else as generic lines.
//!
//! A line is `[HH:MM:SS] [<logger>/<LEVEL>]: <payload>`. The timestamp and
//! logger tag are read first ([`time`], [`logger`]); the payload grammars of
//! [`parsing`] then apply only to the main server thread at `INFO`. Death
//! messages are matched against a table of templates ([`death`]) built from
//! the game's localization file ([`template_source`]).
//!
//! Around the parser: the rules for relaying chat-service messages into the
//! game ([`relay`]), splitting console output into message-sized chunks
//! ([`console`]), completing dimension names ([`dimension`]), and reading
//! player UUIDs ([`player`]).

pub mod bytes;
pub mod console;
pub mod death;
pub mod dimension;
pub mod error;
pub mod logger;
pub mod parsing;
pub mod player;
pub mod relay;
pub mod template_source;
pub mod text;
pub mod time;
