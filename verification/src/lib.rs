//! A chat bot's core: a store of canned-response commands, the dispatcher that
//! resolves a chat line against it, and the parser for the chat wire protocol.

pub mod command;
pub mod document;
pub mod json;
pub mod messages;
pub mod text;
pub mod twitch;
pub mod youtube_model;
