//! The decisions of a gateway in front of servers for language models.
//!
//! Nothing here opens a file, sends or waits. Where a decision alternates with such work, a machine
//! says what is to be done next and is told what came of it: [`api::ChatExchange`] for an exchange
//! of a conversation, [`config::ConfigLoad`] for loading the settings.
pub mod api;
pub mod clock;
pub mod config;
pub mod database;
pub mod error;
pub mod health;
pub mod inline;
pub mod json;
pub mod loading;
pub mod logging;
pub mod mcp;
pub mod prompt;
pub mod routing;
pub mod server;
pub mod state;
pub mod status;
pub mod storage;
pub mod table;
pub mod text;
