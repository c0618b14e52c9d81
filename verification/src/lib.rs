use vstd::prelude::*;

pub mod span;
pub mod text;
pub mod value;
pub mod float_bits;
pub mod keys;
pub mod heap;
pub mod render;
pub mod error;
pub mod native;
pub mod syntax;
pub mod decimal;
pub mod float_literal;
pub mod lexer;
pub mod module;
pub mod package;
pub mod package_tree;
pub mod cli;
pub mod origins;
pub mod operations;
pub mod tokens;
pub mod environment;
pub mod evaluation;
pub mod indexing;
pub mod pattern;
pub mod iteration;
pub mod engine;
pub mod ast;
pub mod rebase;
pub mod local_imports;
