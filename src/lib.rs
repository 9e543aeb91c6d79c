//! Stream type descriptions ("River" types): a parser for their textual
//! form and a renderer that turns a parsed type into a graph description.

pub mod data;
pub mod parse_laws;
pub mod parser;
pub mod render_laws;
pub mod river;
pub mod visualize;

pub use data::Data;
pub use river::River;
