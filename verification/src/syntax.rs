//! Leaf tokens of a lossless syntax tree.
//!
//! A tree is lossless when its leaf tokens, read from left to right, cover
//! the text snapshot without a gap and without an overlap.

use vstd::prelude::*;
use crate::text::TextRange;

verus! {

/// What a leaf token is, as far as the analysis needs to tell tokens apart.
#[derive(Clone, Copy, Debug, PartialEq, Eq, Structural)]
pub enum SyntaxKind {
    /// Blanks and line breaks.
    Whitespace,
    /// A comment up to the end of its line.
    Comment,
    /// An escape character followed by an identifier, such as `\cite`.
    CommandName,
    /// Plain text.
    Word,
    /// Braces, brackets, commas and other punctuation.
    Delimiter,
    /// The marker `@` followed by the type of a bibliography entry.
    Type,
    /// The key of a bibliography entry or the name of one of its fields.
    Name,
}

impl SyntaxKind {
    /// Trivia carries no meaning: a cursor inside it has no context.
    pub open spec fn is_trivia_spec(self) -> bool {
        self == SyntaxKind::Whitespace || self == SyntaxKind::Comment
    }

    #[verifier::when_used_as_spec(is_trivia_spec)]
    pub fn is_trivia(self) -> (trivia: bool)
        ensures
            trivia == self.is_trivia_spec(),
    {
        match self {
            SyntaxKind::Whitespace => true,
            SyntaxKind::Comment => true,
            _ => false,
        }
    }
}

/// A leaf of the syntax tree: a kind and the bytes it covers.
#[derive(Clone, Copy, Debug, PartialEq, Eq, Structural)]
pub struct SyntaxToken {
    pub kind: SyntaxKind,
    pub range: TextRange,
}

impl SyntaxToken {
    pub fn new(kind: SyntaxKind, range: TextRange) -> (token: SyntaxToken)
        ensures
            token == (SyntaxToken { kind, range }),
    {
        SyntaxToken { kind, range }
    }

    pub fn kind(&self) -> (kind: SyntaxKind)
        ensures
            kind == self.kind,
    {
        self.kind
    }

    pub fn text_range(&self) -> (range: TextRange)
        ensures
            range == self.range,
    {
        self.range
    }

    /// The token ends at `offset` or holds it behind its first byte.
    pub open spec fn reaches_back_from(self, offset: int) -> bool {
        self.range.start < offset <= self.range.end
    }

    /// The token starts at `offset` or holds it before its last byte.
    pub open spec fn reaches_forward_from(self, offset: int) -> bool {
        self.range.start <= offset < self.range.end
    }
}

/// The tokens cover `0..len`: the first starts at 0, each one starts where
/// the one before it ends, and the last ends at `len`.
pub open spec fn tokens_cover(tokens: Seq<SyntaxToken>, len: int) -> bool {
    &&& forall|i: int| 0 <= i < tokens.len() ==> (#[trigger] tokens[i]).range.wf()
    &&& forall|i: int|
        0 <= i < tokens.len() ==> (#[trigger] tokens[i]).range.start == token_start(tokens, i)
    &&& token_start(tokens, tokens.len() as int) == len
}

/// Where token `i` has to start: at the end of the token before it, and at 0
/// for the first one.
pub open spec fn token_start(tokens: Seq<SyntaxToken>, i: int) -> int {
    if 0 < i <= tokens.len() {
        tokens[i - 1].range.end as int
    } else {
        0
    }
}

/// The texts of the first `count` tokens, one after the other.
pub open spec fn leaf_text(tokens: Seq<SyntaxToken>, text: Seq<u8>, count: int) -> Seq<u8>
    decreases count,
{
    if count <= 0 {
        Seq::empty()
    } else {
        leaf_text(tokens, text, count - 1) + tokens[count - 1].range.slice(text)
    }
}

/// In a covering token sequence an earlier token ends before a later one
/// starts, so no two tokens overlap.
pub proof fn lemma_tokens_ordered(tokens: Seq<SyntaxToken>, len: int, i: int, j: int)
    requires
        tokens_cover(tokens, len),
        0 <= i < j < tokens.len(),
    ensures
        tokens[i].range.end <= tokens[j].range.start,
    decreases j - i,
{
    if i + 1 < j {
        lemma_tokens_ordered(tokens, len, i, j - 1);
    }
}

/// Every token of a covering sequence lies inside `0..len`.
pub proof fn lemma_token_in_bounds(tokens: Seq<SyntaxToken>, len: int, i: int)
    requires
        tokens_cover(tokens, len),
        0 <= i < tokens.len(),
    ensures
        0 <= tokens[i].range.start <= tokens[i].range.end <= len,
{
    let last = tokens.len() - 1;
    if i < last {
        lemma_tokens_ordered(tokens, len, i, last);
    }
}

/// The texts of the first `count` tokens of a covering sequence make up the
/// text up to the start of token `count`.
pub proof fn lemma_leaf_text_prefix(tokens: Seq<SyntaxToken>, text: Seq<u8>, count: int)
    requires
        tokens_cover(tokens, text.len() as int),
        0 <= count <= tokens.len(),
    ensures
        leaf_text(tokens, text, count) == text.subrange(0, token_start(tokens, count)),
    decreases count,
{
    if count > 0 {
        lemma_leaf_text_prefix(tokens, text, count - 1);
        lemma_token_in_bounds(tokens, text.len() as int, count - 1);
        let token = tokens[count - 1];
        assert(text.subrange(0, token.range.start as int) + token.range.slice(text)
            =~= text.subrange(0, token.range.end as int));
    }
}

/// A lossless tree gives back its text: the texts of all leaf tokens, one
/// after the other, are the snapshot itself.
pub proof fn lemma_lossless(tokens: Seq<SyntaxToken>, text: Seq<u8>)
    requires
        tokens_cover(tokens, text.len() as int),
    ensures
        leaf_text(tokens, text, tokens.len() as int) == text,
{
    lemma_leaf_text_prefix(tokens, text, tokens.len() as int);
}

/// At most one token of a covering sequence reaches back from an offset.
pub proof fn lemma_back_unique(tokens: Seq<SyntaxToken>, len: int, offset: int, i: int, j: int)
    requires
        tokens_cover(tokens, len),
        0 <= i < tokens.len(),
        0 <= j < tokens.len(),
        tokens[i].reaches_back_from(offset),
        tokens[j].reaches_back_from(offset),
    ensures
        i == j,
{
    if i < j {
        lemma_tokens_ordered(tokens, len, i, j);
    } else if j < i {
        lemma_tokens_ordered(tokens, len, j, i);
    }
}

/// At most one token of a covering sequence reaches forward from an offset.
pub proof fn lemma_forward_unique(tokens: Seq<SyntaxToken>, len: int, offset: int, i: int, j: int)
    requires
        tokens_cover(tokens, len),
        0 <= i < tokens.len(),
        0 <= j < tokens.len(),
        tokens[i].reaches_forward_from(offset),
        tokens[j].reaches_forward_from(offset),
    ensures
        i == j,
{
    if i < j {
        lemma_tokens_ordered(tokens, len, i, j);
    } else if j < i {
        lemma_tokens_ordered(tokens, len, j, i);
    }
}

/// Checks that the tokens cover `0..len`.
pub fn covers(tokens: &Vec<SyntaxToken>, len: u32) -> (covered: bool)
    ensures
        covered == tokens_cover(tokens@, len as int),
{
    let mut expected: u32 = 0;
    let mut i: usize = 0;
    while i < tokens.len()
        invariant
            i <= tokens@.len(),
            expected == token_start(tokens@, i as int),
            forall|k: int| 0 <= k < i ==> (#[trigger] tokens@[k]).range.wf(),
            forall|k: int|
                0 <= k < i ==> (#[trigger] tokens@[k]).range.start == token_start(tokens@, k),
        decreases tokens@.len() - i,
    {
        let token = tokens[i];
        if token.range.start != expected || token.range.end < token.range.start {
            return false;
        }
        expected = token.range.end;
        i += 1;
    }
    expected == len
}

/// A citation in a LaTeX tree, such as `\cite{key}`: the places of the first
/// and the last token of the invocation and of the token that holds the key.
#[derive(Clone, Copy, Debug, PartialEq, Eq, Structural)]
pub struct Citation {
    pub first: usize,
    pub last: usize,
    pub key: usize,
}

/// A top-level entry of a BibTeX tree: the place of its type token and,
/// where the entry has a key, the place of the token that holds it.
#[derive(Clone, Copy, Debug, PartialEq, Eq, Structural)]
pub struct Entry {
    pub ty: usize,
    pub key: Option<usize>,
}

/// The tree of a LaTeX document.
#[derive(Clone, Debug, PartialEq, Eq)]
pub struct LatexSyntaxTree {
    pub tokens: Vec<SyntaxToken>,
    pub citations: Vec<Citation>,
}

/// The tree of a BibTeX document.
#[derive(Clone, Debug, PartialEq, Eq)]
pub struct BibtexSyntaxTree {
    pub tokens: Vec<SyntaxToken>,
    pub entries: Vec<Entry>,
}

/// The tree of a document, by the language it is written in. A document in
/// another language has leaves only.
#[derive(Clone, Debug, PartialEq, Eq)]
pub enum SyntaxTree {
    Latex(LatexSyntaxTree),
    Bibtex(BibtexSyntaxTree),
    Other(Vec<SyntaxToken>),
}

impl Citation {
    /// The citation is made of tokens of `tokens`: it starts with a command
    /// name, and its key is a word that lies in it.
    pub open spec fn fits(self, tokens: Seq<SyntaxToken>) -> bool {
        &&& self.first <= self.key <= self.last < tokens.len()
        &&& tokens[self.first as int].kind == SyntaxKind::CommandName
        &&& tokens[self.key as int].kind == SyntaxKind::Word
    }

    /// The range of the whole invocation.
    pub open spec fn command_range(self, tokens: Seq<SyntaxToken>) -> TextRange {
        TextRange {
            start: tokens[self.first as int].range.start,
            end: tokens[self.last as int].range.end,
        }
    }

    /// The range of the key.
    pub open spec fn key_range(self, tokens: Seq<SyntaxToken>) -> TextRange {
        tokens[self.key as int].range
    }
}

impl Entry {
    /// The entry is made of tokens of `tokens`: its type is a type token and
    /// its key, if it has one, a name.
    pub open spec fn fits(self, tokens: Seq<SyntaxToken>) -> bool {
        &&& self.ty < tokens.len()
        &&& tokens[self.ty as int].kind == SyntaxKind::Type
        &&& self.key matches Some(key) ==> key < tokens.len() && tokens[key as int].kind
            == SyntaxKind::Name
    }

    /// The range of the type token.
    pub open spec fn type_range(self, tokens: Seq<SyntaxToken>) -> TextRange {
        tokens[self.ty as int].range
    }

    /// The range of the key, if the entry has one.
    pub open spec fn key_range(self, tokens: Seq<SyntaxToken>) -> Option<TextRange> {
        match self.key {
            Some(key) => Some(tokens[key as int].range),
            None => None,
        }
    }
}

/// The range from the start of token `first` to the end of token `last` of a
/// covering sequence is well formed and lies inside the text.
pub proof fn lemma_token_span_in_bounds(tokens: Seq<SyntaxToken>, len: int, first: int, last: int)
    requires
        tokens_cover(tokens, len),
        0 <= first <= last < tokens.len(),
    ensures
        0 <= tokens[first].range.start <= tokens[first].range.end <= tokens[last].range.end <= len,
        tokens[first].range.start <= tokens[last].range.start <= tokens[last].range.end,
{
    lemma_token_in_bounds(tokens, len, first);
    lemma_token_in_bounds(tokens, len, last);
    if first < last {
        lemma_tokens_ordered(tokens, len, first, last);
    }
}

impl SyntaxTree {
    /// The leaf tokens of the tree, from left to right.
    pub open spec fn leaves(&self) -> Seq<SyntaxToken> {
        match self {
            SyntaxTree::Latex(tree) => tree.tokens@,
            SyntaxTree::Bibtex(tree) => tree.tokens@,
            SyntaxTree::Other(tokens) => tokens@,
        }
    }

    /// The tree belongs to a text of `len` bytes: its leaves cover the text
    /// and its nodes are made of its leaves.
    pub open spec fn fits(&self, len: int) -> bool {
        &&& tokens_cover(self.leaves(), len)
        &&& match self {
            SyntaxTree::Latex(tree) => forall|i: int|
                0 <= i < tree.citations@.len() ==> (#[trigger] tree.citations@[i]).fits(
                    tree.tokens@,
                ),
            SyntaxTree::Bibtex(tree) => forall|i: int|
                0 <= i < tree.entries@.len() ==> (#[trigger] tree.entries@[i]).fits(tree.tokens@),
            SyntaxTree::Other(_) => true,
        }
    }

    pub fn tokens(&self) -> (tokens: &Vec<SyntaxToken>)
        ensures
            tokens@ == self.leaves(),
    {
        match self {
            SyntaxTree::Latex(tree) => &tree.tokens,
            SyntaxTree::Bibtex(tree) => &tree.tokens,
            SyntaxTree::Other(tokens) => tokens,
        }
    }

    /// The tree if it is a LaTeX tree.
    pub fn as_latex(&self) -> (tree: Option<&LatexSyntaxTree>)
        ensures
            match self {
                SyntaxTree::Latex(latex) => tree == Some(latex),
                _ => tree.is_none(),
            },
    {
        match self {
            SyntaxTree::Latex(tree) => Some(tree),
            _ => None,
        }
    }

    /// The tree if it is a BibTeX tree.
    pub fn as_bibtex(&self) -> (tree: Option<&BibtexSyntaxTree>)
        ensures
            match self {
                SyntaxTree::Bibtex(bibtex) => tree == Some(bibtex),
                _ => tree.is_none(),
            },
    {
        match self {
            SyntaxTree::Bibtex(tree) => Some(tree),
            _ => None,
        }
    }

    /// Checks that the tree belongs to a text of `len` bytes.
    pub fn fits_text(&self, len: u32) -> (fitting: bool)
        ensures
            fitting == self.fits(len as int),
    {
        if !covers(self.tokens(), len) {
            return false;
        }
        match self {
            SyntaxTree::Latex(tree) => {
                let count = tree.tokens.len();
                let mut i: usize = 0;
                while i < tree.citations.len()
                    invariant
                        *self == SyntaxTree::Latex(*tree),
                        count == tree.tokens@.len(),
                        i <= tree.citations@.len(),
                        forall|k: int|
                            0 <= k < i ==> (#[trigger] tree.citations@[k]).fits(tree.tokens@),
                    decreases tree.citations@.len() - i,
                {
                    let citation = tree.citations[i];
                    let fitting = citation.first <= citation.key && citation.key <= citation.last
                        && citation.last < count && tree.tokens[citation.first].kind
                        == SyntaxKind::CommandName && tree.tokens[citation.key].kind
                        == SyntaxKind::Word;
                    if !fitting {
                        return false;
                    }
                    i += 1;
                }
                true
            },
            SyntaxTree::Bibtex(tree) => {
                let count = tree.tokens.len();
                let mut i: usize = 0;
                while i < tree.entries.len()
                    invariant
                        *self == SyntaxTree::Bibtex(*tree),
                        count == tree.tokens@.len(),
                        i <= tree.entries@.len(),
                        forall|k: int|
                            0 <= k < i ==> (#[trigger] tree.entries@[k]).fits(tree.tokens@),
                    decreases tree.entries@.len() - i,
                {
                    let entry = tree.entries[i];
                    let key_fitting = match entry.key {
                        Some(key) => key < count && tree.tokens[key].kind == SyntaxKind::Name,
                        None => true,
                    };
                    if !(entry.ty < count && tree.tokens[entry.ty].kind == SyntaxKind::Type
                        && key_fitting) {
                        return false;
                    }
                    i += 1;
                }
                true
            },
            SyntaxTree::Other(_) => true,
        }
    }
}

} // verus!
