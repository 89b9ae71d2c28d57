//! Verified core of a command-line client for the Todoist task service.
//!
//! The library holds the logic of the client: rebuilding the hierarchy of
//! projects, tasks and sections from flat lists, fuzzy selection of an item by
//! name, and the ordering and conversion rules of the REST records.
use vstd::prelude::*;

pub mod config;
pub mod labels;
pub mod priority;
pub mod projects;
pub mod rest;
pub mod select;
pub mod tasks;
pub mod tree;
