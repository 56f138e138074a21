//! Interactive command-snippet picker core: a line-oriented wire protocol
//! shared with an external fuzzy selector, the selector invocation gateway,
//! the recursive variable-resolution engine, and the environment-based
//! context channel used by preview sub-processes.

pub mod cheatsh;
pub mod error;
pub mod handler;
pub mod finder;
pub mod flows;
pub mod preview;
pub mod structures;
pub mod layout;
pub mod text;
pub mod writer;
