//! A small Unix-like shell: command-line tokenising, command chaining,
//! builtin dispatch and the formatting used by the builtins, with
//! contracts proved by Verus.

pub mod text;
pub mod path;

pub mod numfmt;
pub mod datetime;
pub mod chaining;
pub mod repl;
pub mod color;
pub mod order;
pub mod ls;
pub mod error;
pub mod reg;
pub mod builtins;
pub mod recall;
pub mod history;
pub mod env_vars;
pub mod redirection;
