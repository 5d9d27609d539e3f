//! The logic of the terminal interface: input editing, completion, the chat
//! and log modes, and the commands typed by the user.
pub mod chat_mode;
pub mod chat_view;
pub mod commands;
pub mod completers;
pub mod event;
pub mod keys;
pub mod log_mode;
pub mod mode;
pub mod send;
pub mod state;
pub mod text;
pub mod view;
