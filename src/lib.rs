//! Core logic of a terminal dashboard whose panels refresh on their own
//! cadences: the window manager's workspace listing and its parsers, the
//! workspace panel's snapshot state and background-listener decisions, the
//! multi-cadence poll scheduler, and the small rules of the other panels.

pub mod text;
pub mod workspace;
pub mod layout;
pub mod widget;
pub mod listener;
pub mod scheduler;
pub mod app;
pub mod config;
pub mod fonts;
pub mod weather;
pub mod metrics;
