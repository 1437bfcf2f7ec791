//! Library side of the `wip` tools: reading `wip.toml` targets, resolving
//! their versions, framing build metadata in commit messages and reading the
//! output of the git helpers.

pub mod text;
pub mod error;
pub mod version;
pub mod paths;
pub mod toml_doc;
pub mod config;
pub mod commit;
pub mod build_script;
pub mod watch;
