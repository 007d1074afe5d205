//! A small lexer and recursive-descent parser for arithmetic expressions,
//! with machine-checked proofs of what each part does.
//!
//! `token` holds the token kinds, literal values and source locations,
//! `lexer` turns source text into tokens and `parser` turns tokens into
//! expression trees. Each module states its behaviour through a
//! mathematical model (spec functions over `Seq<char>` and token
//! sequences) and the executable code is proved against it.
#![allow(non_camel_case_types)]

pub mod token;
pub mod lexing;
pub mod lexer;
pub mod parser;
pub mod printing;
pub mod lex_laws;

use vstd::prelude::*;

verus! {

} // verus!
