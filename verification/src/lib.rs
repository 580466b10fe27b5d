//! The verified core of a window launcher: it reads a launch configuration,
//! starts each application in turn, and pins the application's windows to a
//! configured place on the screen.
//!
//! Everything in this crate computes on plain values.  Reading files, spawning
//! processes and talking to the window manager are left to the program around it.

pub mod text;
pub mod order;
pub mod winpath;
pub mod process;
pub mod names;
pub mod config;
pub mod window;
pub mod search;
pub mod launch;
pub mod locate;
pub mod create;
pub mod load;
pub mod run;
pub mod template;
