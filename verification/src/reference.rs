//! Reference lookup: where a symbol is used.

pub mod bibtex_entry;
