use vstd::prelude::*;

pub mod action;
pub mod build_doc;
pub mod cmd_add;
pub mod config;
pub mod config_text;
pub mod detector;
pub mod discover;
pub mod errors;
pub mod file_check;
pub mod file_ops;
pub mod json;
pub mod paths;
pub mod plan;
pub mod render;
pub mod sorted;
pub mod tags;
pub mod text;
