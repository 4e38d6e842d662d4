//! Per-application key remapping for a windowing environment: rules scoped by
//! window class, key expressions, the tracking of the foreground window, and
//! the engine that keeps key grabs and the dispatch table in step with it.
//!
//! Nothing here talks to a display server. Every component that needs one
//! hands out a [`server::Request`] and is resumed with the [`server::Reply`].
//!
//! - [`config`]: the rules, and which remaps apply to a window class.
//! - [`key_mapper`]: key expressions, and the sending of keys.
//! - [`window_manager`]: the lookup of the foreground window and of its class.
//! - [`event_handler`]: the engine that handles the server's events.
//! - [`server`]: requests and replies.
//! - [`foreground`], [`dispatch`], [`runs`], [`halting`]: what the work comes
//!   to when it is carried through against a display server, and that it
//!   always ends.

pub mod config;
pub mod dispatch;
pub mod event_handler;
pub mod foreground;
pub mod halting;
pub mod key_mapper;
pub mod runs;
pub mod server;
pub mod window_manager;
