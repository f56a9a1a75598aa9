//! Scaffolding of Roblox projects from templates, and the bookkeeping of
//! their tool manifests.
pub mod text;
pub mod depmap;
pub mod config;
pub mod toml_doc;
pub mod rokit_sync;
pub mod reconcile;
pub mod cli;
pub mod create;
pub mod laws;
pub mod home;
