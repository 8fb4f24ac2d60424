//! Code-review notes stored in Git: the data model, the merge strategies,
//! the quality gate and the text formats that the command-line tools read
//! and write.

pub mod ids;
pub mod namespace;
pub mod note;
pub mod merge;
pub mod gate;
pub mod diff;
pub mod order;
pub mod engine;
pub mod sync;
pub mod adf;
pub mod remote;
pub mod export;
pub mod text;
pub mod args;
pub mod json;
pub mod import;
pub mod heal;
pub mod select;
pub mod signing;
pub mod textmap;
pub mod learning;
pub mod shortcuts;
pub mod tui;
pub mod markdown;
pub mod picker;
pub mod summary;
pub mod completions;
pub mod health;
