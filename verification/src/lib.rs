//! Verified core of a terminal multiplexer: workspaces, tabs, split trees of
//! panes, the notification feed, the terminal-emulation grid, key-chord
//! handling and the control-protocol command line.

pub mod ids;
pub mod text;
pub mod split;
pub mod notification;
pub mod pane;
pub mod tab;
pub mod workspace;
pub mod screen;
pub mod term;
pub mod shortcuts;
pub mod keys;
pub mod palette;
pub mod render;
pub mod protocol;
pub mod cli;
pub mod report;
pub mod config;
pub mod engine;
pub mod view;
pub mod pty;
