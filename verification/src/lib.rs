use vstd::prelude::*;

pub mod archive;
pub mod chars;
pub mod commands;
pub mod config;
pub mod generate;
pub mod menu;
pub mod order;
pub mod paths;
pub mod reader;
pub mod registry;
pub mod renamer;
pub mod rename;
pub mod settings;
pub mod strip;
pub mod table_tool;
pub mod text;
pub mod title;
pub mod tool_list;
pub mod ui;

verus! {

} // verus!
