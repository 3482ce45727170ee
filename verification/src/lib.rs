//! A Make-compatible build tool: a line-oriented parser for build files,
//! a job store with override semantics, and a dependency-walking executor
//! expressed as a state machine whose filesystem probes and process
//! invocations are supplied by the caller.

pub mod cfg;
pub mod ct;
pub mod error;
pub mod executor;
pub mod flag;
pub mod job;
pub mod laws;
pub mod parser;
pub mod ss;
pub mod subst;
pub mod text;
pub mod vars;
