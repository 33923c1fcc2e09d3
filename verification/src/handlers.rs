//! What is done with an incoming message: the commands and their answers,
//! and the way of a message that is no command.

pub mod commands;
pub mod msgs;
