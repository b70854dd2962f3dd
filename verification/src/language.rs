//! The catalog of known language constructs.
//!
//! The catalog is made once and only read afterwards.

use vstd::prelude::*;

verus! {

/// A type of bibliography entry, such as `article`.
#[derive(Clone, Debug, PartialEq, Eq)]
pub struct BibtexEntryTypeDoc {
    pub name: String,
    pub documentation: Option<String>,
}

/// The known language constructs.
#[derive(Clone, Debug, PartialEq, Eq)]
pub struct LanguageData {
    /// The known entry types, each once, in catalog order.
    pub entry_types: Vec<BibtexEntryTypeDoc>,
}

impl BibtexEntryTypeDoc {
    pub fn new(name: String, documentation: Option<String>) -> (doc: BibtexEntryTypeDoc)
        ensures
            doc == (BibtexEntryTypeDoc { name, documentation }),
    {
        BibtexEntryTypeDoc { name, documentation }
    }
}

impl LanguageData {
    pub fn new(entry_types: Vec<BibtexEntryTypeDoc>) -> (data: LanguageData)
        ensures
            data == (LanguageData { entry_types }),
    {
        LanguageData { entry_types }
    }
}

} // verus!
