//! Blocking-session engine of a website blocker: named website lists, a
//! duration parser, the hosts-file patcher and the timed session state machine.

pub mod app;
pub mod driver;
pub mod duration;
pub mod hosts;
pub mod search;
pub mod session;
pub mod setup;
pub mod store;
pub mod text;
pub mod ui;
