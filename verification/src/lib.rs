//! A registry of visited directories, ranked by how often and how recently
//! each one was visited.
//!
//! The registry stores one record per canonical path, keeps paths and
//! non-empty aliases unique, and answers ranked queries by substring terms.
//! Every function here is verified against the contract it carries, but for
//! the calls into the regular-expression crate and the standard library
//! that are marked as trusted where they stand.
//!
//! - `entry`, `score`: a record and its score, an exact fraction.
//! - `path`: canonical paths, the keys of the registry.
//! - `model`, `registry`, `laws`: what the registry holds, its operations,
//!   and what holds of them together.
//! - `order`, `ranking`, `pattern`, `query`, `policy`: ranked, filtered
//!   answers, and the choice among them.
//! - `selection`, `navigation`, `commands`: what typed lines and arguments
//!   ask for.
//! - `config`, `storage`, `display`, `colors`, `text`, `clock`: settings,
//!   the records as text, lines for the terminal, and the time.

pub mod text;
pub mod score;
pub mod entry;
pub mod path;
pub mod order;
pub mod ranking;
pub mod pattern;
pub mod model;
pub mod registry;
pub mod laws;
pub mod query;
pub mod policy;
pub mod selection;
pub mod colors;
pub mod config;
pub mod clock;
pub mod navigation;
pub mod storage;
pub mod display;
pub mod commands;
