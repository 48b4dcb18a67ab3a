//! Infers the metadata of a software project (name, description, version,
//! license, contributors, technologies) from its file tree and its commit
//! history, and reconciles what the different sources say into one record.

pub mod converter;
pub mod error;
pub mod history;
pub mod merger;
pub mod order;
pub mod pattern;
pub mod registry;
pub mod remote;
pub mod scanner;
pub mod text;
