//! A real-time chat overlay library: decoding of tagged wire messages into
//! chat events, a bounded newest-first history of chat lines, greedy
//! word-wrap, and bottom-anchored two-color text layout.

pub mod config;
pub mod strutil;
pub mod wrap;
pub mod text;
pub mod twitch;



