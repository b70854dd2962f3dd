//! The facts derived from a document: where commands are named, what is
//! cited, and which entries are declared.
//!
//! The record is a function of the text snapshot and its tree alone.

use vstd::prelude::*;
use vstd::slice::slice_to_vec;
use crate::syntax::{
    lemma_token_in_bounds, lemma_token_span_in_bounds, Citation, Entry, SyntaxKind, SyntaxToken,
    SyntaxTree,
};
use crate::text::TextRange;

verus! {

/// A range of the snapshot together with the bytes found there.
#[derive(Clone, Debug, PartialEq, Eq)]
pub struct Span {
    pub range: TextRange,
    pub text: Vec<u8>,
}

/// A citation: the range of the whole invocation and its key.
#[derive(Clone, Debug, PartialEq, Eq)]
pub struct CitationOccurrence {
    pub command: TextRange,
    pub key: Span,
}

/// A declared entry: the range of its type token and, if present, its key.
#[derive(Clone, Debug, PartialEq, Eq)]
pub struct EntryDeclaration {
    pub ty: TextRange,
    pub key: Option<Span>,
}

/// The analysis record of one document.
#[derive(Clone, Debug, PartialEq, Eq)]
pub struct Analysis {
    /// The command name tokens of a LaTeX document, in text order.
    pub command_names: Vec<Span>,
    /// The citations of a LaTeX document, in text order.
    pub citations: Vec<CitationOccurrence>,
    /// The entries of a BibTeX document, in text order.
    pub entries: Vec<EntryDeclaration>,
}

/// A span as a mathematical value.
pub struct SpanView {
    pub range: TextRange,
    pub text: Seq<u8>,
}

/// A citation occurrence as a mathematical value.
pub struct CitationOccurrenceView {
    pub command: TextRange,
    pub key: SpanView,
}

/// An entry declaration as a mathematical value.
pub struct EntryDeclarationView {
    pub ty: TextRange,
    pub key: Option<SpanView>,
}

/// An analysis record as a mathematical value.
pub struct AnalysisView {
    pub command_names: Seq<SpanView>,
    pub citations: Seq<CitationOccurrenceView>,
    pub entries: Seq<EntryDeclarationView>,
}

impl View for Span {
    type V = SpanView;

    open spec fn view(&self) -> SpanView {
        SpanView { range: self.range, text: self.text@ }
    }
}

impl View for CitationOccurrence {
    type V = CitationOccurrenceView;

    open spec fn view(&self) -> CitationOccurrenceView {
        CitationOccurrenceView { command: self.command, key: self.key@ }
    }
}

impl View for EntryDeclaration {
    type V = EntryDeclarationView;

    open spec fn view(&self) -> EntryDeclarationView {
        EntryDeclarationView {
            ty: self.ty,
            key: match self.key {
                Some(key) => Some(key@),
                None => None,
            },
        }
    }
}

impl View for Analysis {
    type V = AnalysisView;

    open spec fn view(&self) -> AnalysisView {
        AnalysisView {
            command_names: self.command_names@.map_values(|span: Span| span@),
            citations: self.citations@.map_values(|citation: CitationOccurrence| citation@),
            entries: self.entries@.map_values(|entry: EntryDeclaration| entry@),
        }
    }
}

/// The span that `range` selects in `text`.
pub open spec fn span_of(text: Seq<u8>, range: TextRange) -> SpanView {
    SpanView { range, text: range.slice(text) }
}

/// The token is a command name.
pub open spec fn is_command_name() -> spec_fn(SyntaxToken) -> bool {
    |token: SyntaxToken| token.kind == SyntaxKind::CommandName
}

/// The span that a token covers in `text`.
pub open spec fn token_span(text: Seq<u8>) -> spec_fn(SyntaxToken) -> SpanView {
    |token: SyntaxToken| span_of(text, token.range)
}

/// What the record says of a citation: the range of the invocation and the
/// span of the key.
pub open spec fn citation_occurrence(text: Seq<u8>, tokens: Seq<SyntaxToken>) -> spec_fn(
    Citation,
) -> CitationOccurrenceView {
    |citation: Citation|
        CitationOccurrenceView {
            command: citation.command_range(tokens),
            key: span_of(text, citation.key_range(tokens)),
        }
}

/// What the record says of an entry: the range of its type token and the
/// span of its key.
pub open spec fn entry_declaration(text: Seq<u8>, tokens: Seq<SyntaxToken>) -> spec_fn(
    Entry,
) -> EntryDeclarationView {
    |entry: Entry|
        EntryDeclarationView {
            ty: entry.type_range(tokens),
            key: match entry.key_range(tokens) {
                Some(key) => Some(span_of(text, key)),
                None => None,
            },
        }
}

/// The spans of the command name tokens among `tokens`, in their order.
pub open spec fn command_names_of(text: Seq<u8>, tokens: Seq<SyntaxToken>) -> Seq<SpanView> {
    tokens.filter(is_command_name()).map_values(token_span(text))
}

/// The analysis record of the snapshot `text` with the tree `tree`.
///
/// A LaTeX document has command names and citations and no entries; a BibTeX
/// document has entries only; a document in another language has nothing.
pub open spec fn analysis_of(text: Seq<u8>, tree: SyntaxTree) -> AnalysisView {
    match tree {
        SyntaxTree::Latex(latex) => AnalysisView {
            command_names: command_names_of(text, latex.tokens@),
            citations: latex.citations@.map_values(citation_occurrence(text, latex.tokens@)),
            entries: Seq::empty(),
        },
        SyntaxTree::Bibtex(bibtex) => AnalysisView {
            command_names: Seq::empty(),
            citations: Seq::empty(),
            entries: bibtex.entries@.map_values(entry_declaration(text, bibtex.tokens@)),
        },
        SyntaxTree::Other(_) => AnalysisView {
            command_names: Seq::empty(),
            citations: Seq::empty(),
            entries: Seq::empty(),
        },
    }
}

/// Each command name occurrence lies inside the text and holds the bytes
/// that the text has there.
pub proof fn lemma_command_names_in_bounds(text: Seq<u8>, tokens: Seq<SyntaxToken>, k: int)
    requires
        crate::syntax::tokens_cover(tokens, text.len() as int),
        0 <= k < command_names_of(text, tokens).len(),
    ensures
        command_names_of(text, tokens)[k].range.wf(),
        command_names_of(text, tokens)[k].range.end <= text.len(),
        command_names_of(text, tokens)[k] == span_of(text, command_names_of(text, tokens)[k].range),
{
    let kept = tokens.filter(is_command_name());
    tokens.lemma_filter_contains_rev(is_command_name(), kept[k]);
    let i = choose|i: int| 0 <= i < tokens.len() && tokens[i] == kept[k];
    crate::syntax::lemma_token_in_bounds(tokens, text.len() as int, i);
}

/// Copies the bytes that `range` selects out of `text`.
fn span_at(text: &[u8], range: TextRange) -> (span: Span)
    requires
        range.wf(),
        range.end <= text@.len(),
    ensures
        span@ == span_of(text@, range),
{
    Span { range, text: slice_to_vec(range.slice_of(text)) }
}

/// Collects the command name tokens of a LaTeX tree.
fn analyze_command_names(text: &[u8], tokens: &Vec<SyntaxToken>) -> (names: Vec<Span>)
    requires
        crate::syntax::tokens_cover(tokens@, text@.len() as int),
    ensures
        names@.map_values(|span: Span| span@) == command_names_of(text@, tokens@),
{
    let mut names: Vec<Span> = Vec::new();
    let mut i: usize = 0;
    while i < tokens.len()
        invariant
            i <= tokens@.len(),
            crate::syntax::tokens_cover(tokens@, text@.len() as int),
            names@.map_values(|span: Span| span@) == command_names_of(
                text@,
                tokens@.take(i as int),
            ),
        decreases tokens@.len() - i,
    {
        let token = tokens[i];
        proof {
            crate::syntax::lemma_token_in_bounds(tokens@, text@.len() as int, i as int);
            tokens@.lemma_take_succ_push(i as int);
            tokens@.take(i as int).lemma_filter_push(token, is_command_name());
        }
        if token.kind == SyntaxKind::CommandName {
            let span = span_at(text, token.range);
            proof {
                names@.lemma_push_map_commute(|span: Span| span@, span);
                tokens@.take(i as int).filter(is_command_name()).lemma_push_map_commute(
                    token_span(text@),
                    token,
                );
            }
            names.push(span);
        }
        i += 1;
    }
    proof {
        tokens@.lemma_take_len();
    }
    names
}

/// Derives the analysis record of a snapshot from its tree.
pub fn analyze(text: &[u8], tree: &SyntaxTree) -> (record: Analysis)
    requires
        tree.fits(text@.len() as int),
    ensures
        record@ == analysis_of(text@, *tree),
{
    match tree {
        SyntaxTree::Latex(latex) => {
            let command_names = analyze_command_names(text, &latex.tokens);
            let tokens = &latex.tokens;
            let mut citations: Vec<CitationOccurrence> = Vec::new();
            let mut i: usize = 0;
            while i < latex.citations.len()
                invariant
                    tokens == latex.tokens,
                    crate::syntax::tokens_cover(tokens@, text@.len() as int),
                    i <= latex.citations@.len(),
                    citations@.len() == i,
                    forall|k: int|
                        0 <= k < latex.citations@.len() ==> (#[trigger] latex.citations@[k]).fits(
                            tokens@,
                        ),
                    forall|k: int|
                        0 <= k < i ==> (#[trigger] citations@[k])@ == citation_occurrence(
                            text@,
                            tokens@,
                        )(latex.citations@[k]),
                decreases latex.citations@.len() - i,
            {
                let citation = latex.citations[i];
                proof {
                    lemma_token_span_in_bounds(
                        tokens@,
                        text@.len() as int,
                        citation.first as int,
                        citation.last as int,
                    );
                    lemma_token_in_bounds(tokens@, text@.len() as int, citation.key as int);
                }
                let command = TextRange::new(
                    tokens[citation.first].range.start,
                    tokens[citation.last].range.end,
                );
                let key = span_at(text, tokens[citation.key].range);
                citations.push(CitationOccurrence { command, key });
                i += 1;
            }
            let record = Analysis { command_names, citations, entries: Vec::new() };
            assert(record@.citations =~= latex.citations@.map_values(
                citation_occurrence(text@, tokens@),
            ));
            assert(record@.entries =~= Seq::<EntryDeclarationView>::empty());
            record
        },
        SyntaxTree::Bibtex(bibtex) => {
            let tokens = &bibtex.tokens;
            let mut entries: Vec<EntryDeclaration> = Vec::new();
            let mut i: usize = 0;
            while i < bibtex.entries.len()
                invariant
                    tokens == bibtex.tokens,
                    crate::syntax::tokens_cover(tokens@, text@.len() as int),
                    i <= bibtex.entries@.len(),
                    entries@.len() == i,
                    forall|k: int|
                        0 <= k < bibtex.entries@.len() ==> (#[trigger] bibtex.entries@[k]).fits(
                            tokens@,
                        ),
                    forall|k: int|
                        0 <= k < i ==> (#[trigger] entries@[k])@ == entry_declaration(
                            text@,
                            tokens@,
                        )(bibtex.entries@[k]),
                decreases bibtex.entries@.len() - i,
            {
                let entry = bibtex.entries[i];
                let key = match entry.key {
                    Some(key) => {
                        proof {
                            lemma_token_in_bounds(tokens@, text@.len() as int, key as int);
                        }
                        Some(span_at(text, tokens[key].range))
                    },
                    None => None,
                };
                entries.push(EntryDeclaration { ty: tokens[entry.ty].range, key });
                i += 1;
            }
            let record = Analysis { command_names: Vec::new(), citations: Vec::new(), entries };
            assert(record@.entries =~= bibtex.entries@.map_values(
                entry_declaration(text@, tokens@),
            ));
            assert(record@.command_names =~= Seq::<SpanView>::empty());
            assert(record@.citations =~= Seq::<CitationOccurrenceView>::empty());
            record
        },
        SyntaxTree::Other(_) => {
            let record = Analysis {
                command_names: Vec::new(),
                citations: Vec::new(),
                entries: Vec::new(),
            };
            assert(record@.command_names =~= Seq::<SpanView>::empty());
            assert(record@.citations =~= Seq::<CitationOccurrenceView>::empty());
            assert(record@.entries =~= Seq::<EntryDeclarationView>::empty());
            record
        },
    }
}

/// The ranges that the record of a LaTeX tree gives for citation `k` lie
/// inside the text.
pub proof fn lemma_citation_in_bounds(text: Seq<u8>, tree: SyntaxTree, k: int)
    requires
        tree.fits(text.len() as int),
        0 <= k < analysis_of(text, tree).citations.len(),
    ensures
        analysis_of(text, tree).citations[k].command.wf(),
        analysis_of(text, tree).citations[k].command.end <= text.len(),
        analysis_of(text, tree).citations[k].command.contains_range(
            analysis_of(text, tree).citations[k].key.range,
        ),
        analysis_of(text, tree).citations[k].key.range.wf(),
{
    match tree {
        SyntaxTree::Latex(latex) => {
            let citation = latex.citations@[k];
            lemma_token_span_in_bounds(
                latex.tokens@,
                text.len() as int,
                citation.first as int,
                citation.last as int,
            );
            lemma_token_span_in_bounds(
                latex.tokens@,
                text.len() as int,
                citation.first as int,
                citation.key as int,
            );
            lemma_token_span_in_bounds(
                latex.tokens@,
                text.len() as int,
                citation.key as int,
                citation.last as int,
            );
        },
        _ => {},
    }
}

/// The key that the record of a BibTeX tree gives for entry `k` is the range
/// of a token that is no trivia, and lies inside the text.
pub proof fn lemma_entry_key_is_token(text: Seq<u8>, tree: SyntaxTree, k: int) -> (place: int)
    requires
        tree.fits(text.len() as int),
        0 <= k < analysis_of(text, tree).entries.len(),
        analysis_of(text, tree).entries[k].key.is_some(),
    ensures
        0 <= place < tree.leaves().len(),
        !tree.leaves()[place].kind.is_trivia(),
        tree.leaves()[place].range == analysis_of(text, tree).entries[k].key.unwrap().range,
        tree.leaves()[place].range.wf(),
        tree.leaves()[place].range.end <= text.len(),
{
    match tree {
        SyntaxTree::Bibtex(bibtex) => {
            let entry = bibtex.entries@[k];
            let place = entry.key.unwrap() as int;
            lemma_token_in_bounds(bibtex.tokens@, text.len() as int, place);
            place
        },
        _ => 0,
    }
}

} // verus!
