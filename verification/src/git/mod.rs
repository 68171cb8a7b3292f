//! Git-facing logic: data types, parsers, graph layout and patch building.
pub mod backend;
pub mod backend_fs;
pub mod command_runner;
pub mod editor;
pub mod excerpt;
pub mod graph;
pub mod patch;
pub mod read_model;
pub mod repo;
pub mod repository;
pub mod syntax;
pub mod review;
pub mod review_store;
pub mod types;
pub mod workdir_snapshot;
pub mod wsl;
