//! Status queries for Minecraft servers: the wire formats of the modern and
//! legacy Server List Ping protocols and of the Query protocol, and the
//! ticket service that schedules pings and reports their outcome.
pub mod minecraft;
pub mod text;
pub mod keyed;
pub mod error;
pub mod tui;
pub mod api;
mod sys;
