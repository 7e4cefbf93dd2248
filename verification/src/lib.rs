//! Analysis of captured basic-block execution traces.

pub mod args;
pub mod cache;
pub mod disasm;
pub mod error;
pub mod iname;
pub mod layout;
pub mod layout_cache;
pub mod query;
