//! A minimal process supervisor: validated process records built from a
//! configuration document, the launch plan of one child, and the restart
//! state machine that keeps each child running.
pub mod args;
pub mod config;
pub mod launch;
pub mod monitor;
pub mod process;
pub mod registry;
