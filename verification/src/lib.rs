//! WinKeeper, a supervisor for command-line tools on the desktop.
//!
//! The library decides and computes: it takes what has happened as plain values and says what
//! is to be done. Files, processes, signals, clocks and the window are handled around it.

pub mod autostart;
pub mod cli;
pub mod config;
pub mod elevated;
pub mod instance;
pub mod launch;
pub mod linux;
pub mod logging;
pub mod names;
pub mod number;
pub mod paths;
pub mod process;
pub mod restart;
pub mod tool;
pub mod supervisor;
pub mod text;
pub mod time;
pub mod ui;
pub mod wait;
pub mod watchdog;
pub mod windows;
