//! Guardrails for coding agents working on TypeScript repositories: a
//! byte-offset line index, diagnostics and rule metadata, workspace
//! configuration, project-level checks, a semantic three-way merge of
//! top-level items, and a task ledger with dependency scheduling.
pub mod strings;
pub mod ledger;
pub mod syntax;
pub mod merge;
pub mod sorted;
pub mod text;
pub mod diagnostics;
pub mod file_length;
pub mod config;
pub mod tsconfig;
pub mod ts_directives;
pub mod json;
pub mod design_system;
pub mod react;
pub mod init;
pub mod single_use;
pub mod mcp;
