//! Verified core of the Kolom toolchain: the lexer, the editor buffer, the
//! command line's decisions, link planning for native executables, the C
//! back end's type names, and the text, JSON, integer, random and calendar
//! functions of the standard library.

pub mod text;
pub mod messages;
pub mod lexer_spec;
pub mod lexer;
pub mod editor;
pub mod link;
pub mod json;
pub mod strlib;
pub mod numlib;
pub mod calendar;
pub mod cli;
pub mod stable_ast;
pub mod ctypes;
pub mod symbols;
pub mod sorting;
pub mod cexpr;
pub mod env;
pub mod ctemplates;
pub mod chelpers;
pub mod paths;
