//! A small windowing framework with a stopwatch window and a glyph layout
//! planner, with the decisions of each proved against a contract.

pub mod digits;
pub mod app;
pub mod dev_window;
pub mod text;
pub mod font;
