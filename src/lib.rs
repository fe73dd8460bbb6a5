//! A package manager's lifecycle engine: catalog lookup, dependency
//! resolution, install planning, removal safety and orphan detection.

pub mod catalog;
pub mod laws;
pub mod lifecycle;
pub mod pipeline;
pub mod resolve;
pub mod steps;
pub mod text;
pub mod types;
