//! An assembler for the Hack machine language: the lines of a program in the
//! symbolic assembly of a 16-bit computer go in, lines of sixteen binary
//! digits come out, one for each instruction.
//!
//! - [`line`] reads one line of source text as an instruction.
//! - [`mnemonic`] holds the mnemonics of compute instructions and their codes.
//! - [`symbols`] is the symbol table: labels, predefined names and variables.
//! - [`encoder`] writes the binary line of an instruction.
//! - [`assembler`] drives the two passes over a source.
//! - [`resolution`] and [`blanks`] prove what holds of a whole run: of the
//!   addresses of symbols, and that blank lines and comments, however many,
//!   change nothing.
//! - [`text`] and [`bits`] are what the others are built from: comments,
//!   blanks, fields and numerals in text, and binary numerals.
//!
//! Each function states what it returns over a mathematical description of
//! the language, and is proved to return it.

pub mod assembler;
pub mod bits;
pub mod blanks;
pub mod encoder;
pub mod line;
pub mod mnemonic;
pub mod resolution;
pub mod symbols;
pub mod text;
