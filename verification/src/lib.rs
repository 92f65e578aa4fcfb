//! A small quick-launcher core: a fixed set of eight labelled shell commands,
//! stored in a JSON configuration file, dispatched by single-letter shortcuts.
//!
//! The crate holds the launcher's logic: the configuration codec with its
//! load/save rules, and the keyboard dispatcher with its main/help view state
//! machine.  Reading and writing the configuration file, spawning the chosen
//! command and drawing the window are left to the surrounding program.

pub mod config;
pub mod dispatch;
pub mod json;
pub mod text;
