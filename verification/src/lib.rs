//! Thread affinity rules for Android applications.
//!
//! Rules in a configuration file bind the threads of packages to CPUs. The library
//! reads the rules (`config`), the CPUs that they name (`cpuset`) and the topology of
//! the device (`topology`), matches threads with rules (`rule_match`), keeps account of
//! the threads that are bound (`cache`), and decides on profiles (`mode`, `foreground`),
//! on following the file (`watch`), on the log (`apply_log`) and on the command line
//! (`cli`). It makes no system call: what was read, and how an action went, comes in as
//! an argument, and what is to be done comes out as a result.
//!
//! The modules whose names end in `_laws` state what holds across functions.

use vstd::prelude::*;

pub mod apply_log;
pub mod binding_laws;
pub mod cache;
pub mod cache_laws;
pub mod cli;
pub mod config;
pub mod config_laws;
pub mod cpuset;
pub mod cpuset_laws;
pub mod foreground;
pub mod grammar_laws;
pub mod matching_laws;
pub mod mode;
pub mod number;
pub mod rule_match;
pub mod rule_match_laws;
pub mod service_laws;
pub mod text;
pub mod text_laws;
pub mod topology;
pub mod topology_laws;
pub mod watch;

verus! {

/// A package name of this many bytes or more is refused.
pub const MAX_PKG_LEN: usize = 128;

/// A thread name of this many bytes or more is refused and matches no pattern.
pub const MAX_THREAD_LEN: usize = 32;

} // verus!
