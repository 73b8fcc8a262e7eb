//! A reader for the articles of a web encyclopedia: the engine that turns the markup of an
//! article page into plain text, block by block, and the state of the terminal reader
//! around it.

pub mod app;
pub mod backend;
pub mod blockquote;
pub mod extract;
pub mod laws;
pub mod markup;
pub mod node;
pub mod scp;
pub mod text;
pub mod ui;
