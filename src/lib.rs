//! Resolution of a working-directory location into its display forms:
//! absolute, home-shortened, project-root-relative, or a structured document.
pub mod config;
pub mod error;
pub mod paths;
pub mod render;
pub mod root;
