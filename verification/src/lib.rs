//! Packaging pipeline for arcade-cabinet game distribution.
//!
//! The library resolves exactly one executable target out of a workspace,
//! plans a deterministic archive layout for the game's assets, validates
//! or synthesizes the store-presentation images, and assembles the final
//! zip archive in memory. All decision logic lives here, verified; file,
//! process and network I/O stay with the callers.

pub mod archive;
pub mod build_plan;
pub mod cli;
pub mod images;
pub mod layout;
pub mod path_finder;
pub mod paths;
pub mod warning;
