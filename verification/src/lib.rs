//! Verified core logic of the tau agent harness: protocol value models,
//! tool-argument parsing, prompt text rendering, configuration
//! resolution, and the small state machines the harness and its
//! extensions run.

pub mod text;
pub mod cbor;
pub mod email;
pub mod tool;
pub mod context;
pub mod pool;
pub mod priority;
pub mod proto;
pub mod usage;
pub mod prompt;
pub mod system_prompt;
pub mod event_log;
pub mod calendar;
pub mod calendar_tools;
pub mod settings;
pub mod runtime;
pub mod cli;
pub mod shell;
pub mod builtin;
pub mod internal_tools;
pub mod pim;
pub mod style;
pub mod ws;
