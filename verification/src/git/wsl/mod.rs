//! Repositories inside a WSL distribution, driven through `wsl.exe git`:
//! command lines, parsers for git's output, and patch building.
pub mod commit;
pub mod fs;
pub mod operations;
pub mod stash;
pub mod read_model;
pub mod staging;
