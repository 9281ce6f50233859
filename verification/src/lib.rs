//! The engine of a live-updating text pager.
//!
//! Lines arrive from one or more sources while a user scrolls, searches and
//! jumps within what has accumulated so far. This crate holds the data model
//! and every decision the pager takes: how a scroll anchor moves, which lines
//! a search hits, which rows end up on screen, and how the controller answers
//! each key press. Terminal, files and threads belong to the program around it.

pub mod controller;
pub mod input;
pub mod layout;
pub mod messaging;
pub mod position;
pub mod reader;
pub mod search;
pub mod source;
pub mod text;
