//! A library for organizing large research datasets: files are tracked by
//! path, gathered into hierarchical groups (which form a directed acyclic
//! graph), and groups carry tags.
pub mod domain;
pub mod db;

pub mod utils;
pub mod services;
pub mod config;
pub mod cli;
pub mod laws;
pub mod command_laws;
