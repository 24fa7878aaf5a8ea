//! Keeps file modification times stable across rebuilds in a sandbox: the mtime of
//! each file is recorded with the SHA-256 of its content, and a file whose content
//! is unchanged gets its recorded mtime back.
pub mod cache;
pub mod config;
pub mod keyorder;
pub mod metrics;
pub mod mtime;
pub mod strmap;
pub mod walk;
