//! Declarative package management: group files, sections and packages,
//! and the decisions that turn them into package manager invocations.

pub mod text;
pub mod package;
pub mod path;
pub mod section;
pub mod group;
pub mod errors;
pub mod order;
pub mod packages;
pub mod groups;
pub mod review;
pub mod commands;
pub mod action;
pub mod args;
pub mod config;
pub mod backend;
pub mod search;
