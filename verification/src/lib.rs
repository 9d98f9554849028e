//! A minimal line-oriented command interpreter core.
//!
//! The library holds the verified logic of the shell: tokenizing a line
//! into a command record, recognizing builtins, resolving `cd` targets
//! while tracking the previous working directory, classifying spawn
//! failures, and formatting prompts and diagnostics. All operating-system
//! effects (reading lines, spawning processes, changing the real working
//! directory) live outside the library and hand it plain values.

pub mod dispatch;
pub mod messages;
pub mod state;
pub mod tokenize;
