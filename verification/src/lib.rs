//! A document pipeline: extended markdown in, a typed component tree in the
//! middle, markup text out.

pub mod arguments;
pub mod blog;
pub mod bytes;
pub mod component;
pub mod error;
pub mod event;
pub mod grammar;
pub mod header;
pub mod lexer;
pub mod markup;
pub mod minmax;
pub mod parser;
pub mod post;
pub mod query;
pub mod render;
pub mod structured;
pub mod template;
pub mod text;
pub mod tokenizer;
pub mod transformer;
pub mod util;
