//! A document: one text snapshot with its tree and its cached analysis.
//!
//! A document value never changes its snapshot. An edit makes a new document
//! for the same identifier, which starts without a cached analysis.

use vstd::prelude::*;
use crate::analysis::{analysis_of, analyze, Analysis, AnalysisView};
use crate::syntax::{leaf_text, lemma_lossless, lemma_tokens_ordered, SyntaxTree};

verus! {

/// One snapshot of a source file.
#[derive(Clone, Debug, PartialEq, Eq)]
pub struct Document {
    uri: String,
    text: Vec<u8>,
    tree: SyntaxTree,
    links: Vec<String>,
    analysis: Option<Analysis>,
}

/// A document as a mathematical value.
pub struct DocumentView {
    /// The identifier of the document, unique in its workspace.
    pub uri: Seq<char>,
    /// The bytes of the snapshot.
    pub text: Seq<u8>,
    /// The lossless tree of the snapshot.
    pub tree: SyntaxTree,
    /// The identifiers of the documents that this one includes or uses as a
    /// bibliography.
    pub links: Seq<Seq<char>>,
    /// The analysis record, once it has been asked for.
    pub analysis: Option<AnalysisView>,
}

/// The analysis of a document as a reader gets it: the cached record, or a
/// record derived for this reader where none was cached.
pub enum Derived<'a> {
    Cached(&'a Analysis),
    Computed(Analysis),
}

impl<'a> Derived<'a> {
    /// The record, wherever it is kept.
    pub open spec fn record(&self) -> Analysis {
        match self {
            Derived::Cached(record) => **record,
            Derived::Computed(record) => *record,
        }
    }

    pub fn get(&self) -> (record: &Analysis)
        ensures
            *record == self.record(),
    {
        match self {
            Derived::Cached(record) => record,
            Derived::Computed(record) => record,
        }
    }
}

/// The identifiers in a list of links.
pub open spec fn links_view(links: Seq<String>) -> Seq<Seq<char>> {
    links.map_values(|link: String| link@)
}

/// The snapshot fits in 32-bit offsets and the tree belongs to it.
pub open spec fn snapshot_wf(text: Seq<u8>, tree: SyntaxTree) -> bool {
    text.len() <= u32::MAX && tree.fits(text.len() as int)
}

impl DocumentView {
    /// The tree belongs to the snapshot, and a cached analysis is the one of
    /// this snapshot.
    pub open spec fn wf(self) -> bool {
        &&& snapshot_wf(self.text, self.tree)
        &&& self.analysis matches Some(record) ==> record == analysis_of(self.text, self.tree)
    }
}

impl View for Document {
    type V = DocumentView;

    closed spec fn view(&self) -> DocumentView {
        DocumentView {
            uri: self.uri@,
            text: self.text@,
            tree: self.tree,
            links: links_view(self.links@),
            analysis: match self.analysis {
                Some(record) => Some(record@),
                None => None,
            },
        }
    }
}

impl Document {
    /// Makes a document of a snapshot and its tree, if the tree is a lossless
    /// tree of the snapshot. The document has no cached analysis.
    pub fn new(uri: String, text: Vec<u8>, tree: SyntaxTree, links: Vec<String>) -> (document:
        Option<Document>)
        ensures
            document.is_some() == snapshot_wf(text@, tree),
            document matches Some(document) ==> document@.wf() && document@ == (DocumentView {
                uri: uri@,
                text: text@,
                tree,
                links: links_view(links@),
                analysis: None,
            }),
    {
        if text.len() > u32::MAX as usize {
            return None;
        }
        if !tree.fits_text(text.len() as u32) {
            return None;
        }
        Some(Document { uri, text, tree, links, analysis: None })
    }

    pub fn uri(&self) -> (uri: &String)
        ensures
            uri@ == self@.uri,
    {
        &self.uri
    }

    pub fn text(&self) -> (text: &Vec<u8>)
        ensures
            text@ == self@.text,
    {
        &self.text
    }

    /// The tree of the snapshot.
    pub fn parse(&self) -> (tree: &SyntaxTree)
        ensures
            *tree == self@.tree,
    {
        &self.tree
    }

    pub fn links(&self) -> (links: &Vec<String>)
        ensures
            links_view(links@) == self@.links,
    {
        &self.links
    }

    /// The cached analysis record, if there is one.
    pub fn cached(&self) -> (record: Option<&Analysis>)
        ensures
            match record {
                Some(record) => self@.analysis == Some(record@),
                None => self@.analysis.is_none(),
            },
    {
        match &self.analysis {
            Some(record) => Some(record),
            None => None,
        }
    }

    /// Derives the analysis record unless it is cached already, and caches
    /// it. The snapshot stays as it is, and so does a record that was cached.
    pub fn analyze(&mut self)
        requires
            old(self)@.wf(),
        ensures
            final(self)@.wf(),
            final(self)@ == (DocumentView {
                analysis: Some(analysis_of(old(self)@.text, old(self)@.tree)),
                ..old(self)@
            }),
    {
        if self.analysis.is_none() {
            let record = analyze(self.text.as_slice(), &self.tree);
            self.analysis = Some(record);
        }
    }

    /// The analysis record of the snapshot: the cached one where there is
    /// one, else a record derived on the spot.
    pub fn analysis(&self) -> (derived: Derived<'_>)
        requires
            self@.wf(),
        ensures
            derived.record()@ == analysis_of(self@.text, self@.tree),
            self@.analysis.is_some() == (derived is Cached),
    {
        match &self.analysis {
            Some(record) => Derived::Cached(record),
            None => Derived::Computed(analyze(self.text.as_slice(), &self.tree)),
        }
    }
}

/// The tree of a document is lossless: the texts of its leaf tokens, one
/// after the other, are the snapshot, and no two leaf tokens overlap.
pub proof fn lemma_document_lossless(document: DocumentView)
    requires
        document.wf(),
    ensures
        leaf_text(document.tree.leaves(), document.text, document.tree.leaves().len() as int)
            == document.text,
        forall|i: int, j: int|
            0 <= i < j < document.tree.leaves().len() ==> (
            #[trigger] document.tree.leaves()[i]).range.end <= (
            #[trigger] document.tree.leaves()[j]).range.start,
{
    let tokens = document.tree.leaves();
    lemma_lossless(tokens, document.text);
    assert forall|i: int, j: int| 0 <= i < j < tokens.len() implies (#[trigger] tokens[i]).range.end
        <= (#[trigger] tokens[j]).range.start by {
        lemma_tokens_ordered(tokens, document.text.len() as int, i, j);
    }
}

/// The analysis depends on the snapshot alone: asked for twice, or asked for
/// in two documents with the same text and tree, it is the same record.
pub proof fn lemma_analysis_of_snapshot(first: DocumentView, second: DocumentView)
    requires
        first.wf(),
        second.wf(),
        first.text == second.text,
        first.tree == second.tree,
        first.analysis.is_some(),
        second.analysis.is_some(),
    ensures
        first.analysis == second.analysis,
{
}

} // verus!
