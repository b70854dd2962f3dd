//! Analytical core of a language service for LaTeX and BibTeX sources.
//!
//! The crate keeps a workspace of parsed documents and answers two kinds of
//! editor queries on it: which completions apply at a cursor, and where a
//! bibliography entry is cited. Every function is verified against a contract
//! stated over byte sequences and mathematical sequences of tokens, but for
//! three small functions in `text` that call rowan and state what it does.
//!
//! Texts are byte sequences and offsets count bytes. The parser is not part
//! of the crate: a document is made of a snapshot and the tree that a parser
//! gave for it, and is accepted only if the tree is a lossless tree of the
//! snapshot.

pub mod analysis;
pub mod document;
pub mod feature;
pub mod features;
pub mod language;
pub mod range;
pub mod reference;
pub mod syntax;
pub mod text;
pub mod util;
pub mod workspace;
