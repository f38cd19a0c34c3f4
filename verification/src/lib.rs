//! The command-resolution engine of a small interactive shell: splitting a
//! line into pipeline stages and tokens, alias substitution, wildcard
//! expansion, the two-tier dispatch policy and pipeline construction.

pub mod alias;
pub mod builtins;
pub mod completion;
pub mod dispatch;
pub mod errors;
pub mod globbing;
pub mod pipes;
pub mod resolve;
pub mod tokens;
