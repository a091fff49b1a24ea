//! Music library search: a query language over song metadata, its lexer,
//! parser and SQL builder, plus the playback and mining helpers around it.

pub mod arte;
pub mod ast;
pub mod dao;
pub mod lexer;
pub mod minero;
pub mod parser;
pub mod player;
pub mod query_builder;
pub mod texto;
pub mod vista;
