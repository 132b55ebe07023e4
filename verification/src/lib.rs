//! Records the voice channel of a war room, turns what was said into text and
//! posts it to a Slack thread.
pub mod command_laws;
pub mod commands;
pub mod flush_loop;
pub mod formatter;
pub mod formatter_laws;
pub mod ids;
pub mod recordings;
pub mod registration;
pub mod session;
pub mod session_laws;
pub mod slack;
pub mod text;
pub mod text_laws;
pub mod time;
pub mod transcriber;
pub mod transcriber_laws;
pub mod voice_handler;
