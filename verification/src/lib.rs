//! Renders a directory's contents as an indented tree.
//!
//! The library decides which entries of a listing are shown, in what order,
//! how their lines are drawn and into which directories the walk descends.
//! Reading directories and writing lines is left to the caller, which drives
//! a [`walk::Walker`] and answers its requests.

pub mod text;
pub mod entry;
pub mod order;
pub mod render;
pub mod walk;
pub mod style;
pub mod model;
pub mod run;
pub mod args;
pub mod message;
