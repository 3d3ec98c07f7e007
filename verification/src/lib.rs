//! Verified core of a Dart code generator: annotation analysis, type resolution
//! and generation of `.g.dart` companion files.
pub mod text;
pub mod yaml;
pub mod config;
pub mod ir;
pub mod path;
pub mod plugin;
pub mod pipeline;
pub mod registry;
pub mod writer;
pub mod watcher;
pub mod cli;
