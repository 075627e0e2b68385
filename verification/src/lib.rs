//! The front end of a small textual language for describing music: a
//! position-tracking scanner from source text to tokens, and a recursive
//! descent / precedence climbing parser from tokens to an abstract syntax
//! tree. Both are specified by spec-level twins (`scan::spec_scan`,
//! `parse::sp_parse`) that pin down every token, node, span and error, and
//! the executable functions are proved equal to them. Identifiers and
//! literal content are deduplicated through a string interner.

pub mod ast;
pub mod cursor;
pub mod intern;
pub mod location;
pub mod parse;
pub mod scan;
pub mod token;
