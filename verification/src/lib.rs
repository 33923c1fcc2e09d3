//! The message pipeline of a group-chat assistant: a log of observed messages
//! with its statistics, the command grammar, the decision whether a message
//! deserves a generated reply, and the assembly of the conversational context
//! for that reply.

pub mod consts;
pub mod text;
pub mod ai;
pub mod db;
pub mod message;
pub mod handler;
pub mod handlers;
