//! What the cursor of a request points at.
//!
//! A cursor at a byte offset touches the token that ends at the offset or
//! holds it behind its first byte, and the token that starts at the offset
//! or holds it before its last byte. Inside a token the two are the same. The
//! cursor is on the first of the two that is not trivia.

use vstd::prelude::*;
use crate::document::{Document, DocumentView};
use crate::language::LanguageData;
use crate::syntax::{
    lemma_back_unique, lemma_forward_unique, tokens_cover, SyntaxKind, SyntaxToken, SyntaxTree,
};
use crate::text::TextRange;
use crate::workspace::{documents_wf, Workspace};

verus! {

/// The token under the cursor, by the language of its document.
#[derive(Clone, Copy, Debug, PartialEq, Eq, Structural)]
pub enum Cursor {
    Tex(SyntaxToken),
    Bib(SyntaxToken),
    Nothing,
}

/// The state of one request: the workspace, the active document, the offset
/// of the cursor in it and the token that the cursor is on.
pub struct CursorContext<'db> {
    workspace: &'db Workspace,
    document: usize,
    offset: u32,
    cursor: Cursor,
    language_data: &'db LanguageData,
}

/// A cursor context as a mathematical value.
pub struct CursorContextView {
    /// The documents of the workspace.
    pub documents: Seq<DocumentView>,
    /// The place of the active document.
    pub document: usize,
    /// The offset of the cursor in the active document.
    pub offset: u32,
    /// What the cursor is on.
    pub cursor: Cursor,
    /// The catalog of known constructs.
    pub language_data: LanguageData,
}

/// Token `i` of `tokens` reaches back from `offset`.
pub open spec fn reaches_back(tokens: Seq<SyntaxToken>, offset: int, i: int) -> bool {
    0 <= i < tokens.len() && tokens[i].reaches_back_from(offset)
}

/// Token `i` of `tokens` reaches forward from `offset`.
pub open spec fn reaches_forward(tokens: Seq<SyntaxToken>, offset: int, i: int) -> bool {
    0 <= i < tokens.len() && tokens[i].reaches_forward_from(offset)
}

/// The token that ends at `offset` or holds it behind its first byte.
pub open spec fn token_before(tokens: Seq<SyntaxToken>, offset: int) -> Option<SyntaxToken> {
    if exists|i: int| reaches_back(tokens, offset, i) {
        Some(tokens[choose|i: int| reaches_back(tokens, offset, i)])
    } else {
        None
    }
}

/// The token that starts at `offset` or holds it before its last byte.
pub open spec fn token_after(tokens: Seq<SyntaxToken>, offset: int) -> Option<SyntaxToken> {
    if exists|i: int| reaches_forward(tokens, offset, i) {
        Some(tokens[choose|i: int| reaches_forward(tokens, offset, i)])
    } else {
        None
    }
}

/// A token that can give a cursor its context.
pub open spec fn meaningful(token: Option<SyntaxToken>) -> bool {
    token matches Some(token) && !token.kind.is_trivia()
}

/// The token that a cursor at `offset` is on: the one before the cursor
/// unless it is trivia or missing, else the one after the cursor unless that
/// is trivia or missing too.
pub open spec fn token_at(tokens: Seq<SyntaxToken>, offset: int) -> Option<SyntaxToken> {
    if meaningful(token_before(tokens, offset)) {
        token_before(tokens, offset)
    } else if meaningful(token_after(tokens, offset)) {
        token_after(tokens, offset)
    } else {
        None
    }
}

/// The cursor at `offset` in `document`. In a document that is neither LaTeX
/// nor BibTeX the cursor is on nothing.
pub open spec fn cursor_at(document: DocumentView, offset: int) -> Cursor {
    match token_at(document.tree.leaves(), offset) {
        Some(token) => match document.tree {
            SyntaxTree::Latex(_) => Cursor::Tex(token),
            SyntaxTree::Bibtex(_) => Cursor::Bib(token),
            SyntaxTree::Other(_) => Cursor::Nothing,
        },
        None => Cursor::Nothing,
    }
}

/// The range of the command name that a cursor at `offset` is in: the range
/// of the cursor's token, if that is a command name of a LaTeX document and
/// the offset lies behind its escape character.
pub open spec fn command_range_of(cursor: Cursor, offset: int) -> Option<TextRange> {
    match cursor {
        Cursor::Tex(token) => if token.kind == SyntaxKind::CommandName
            && token.reaches_back_from(offset) {
            Some(token.range)
        } else {
            None
        },
        _ => None,
    }
}

/// A cursor strictly inside a trivia token is on nothing.
pub proof fn lemma_cursor_in_trivia(document: DocumentView, offset: int, i: int)
    requires
        document.wf(),
        0 <= i < document.tree.leaves().len(),
        document.tree.leaves()[i].kind.is_trivia(),
        document.tree.leaves()[i].range.start < offset < document.tree.leaves()[i].range.end,
    ensures
        cursor_at(document, offset) == Cursor::Nothing,
{
    let tokens = document.tree.leaves();
    let len = document.text.len() as int;
    assert(reaches_back(tokens, offset, i));
    assert(reaches_forward(tokens, offset, i));
    let back = choose|k: int| reaches_back(tokens, offset, k);
    let forward = choose|k: int| reaches_forward(tokens, offset, k);
    lemma_back_unique(tokens, len, offset, i, back);
    lemma_forward_unique(tokens, len, offset, i, forward);
}

/// The token of a cursor is a leaf of the document that touches the offset
/// of the cursor and is no trivia, and the cursor names the language of the
/// document.
pub proof fn lemma_cursor_touches(document: DocumentView, offset: int)
    ensures
        match cursor_at(document, offset) {
            Cursor::Tex(token) => document.tree is Latex && token.range.contains_inclusive(offset)
                && !token.kind.is_trivia() && document.tree.leaves().contains(token),
            Cursor::Bib(token) => document.tree is Bibtex && token.range.contains_inclusive(offset)
                && !token.kind.is_trivia() && document.tree.leaves().contains(token),
            Cursor::Nothing => true,
        },
{
}

/// Finds the token before and the token after the cursor.
fn tokens_around(tokens: &Vec<SyntaxToken>, len: u32, offset: u32) -> (around: (
    Option<SyntaxToken>,
    Option<SyntaxToken>,
))
    requires
        tokens_cover(tokens@, len as int),
    ensures
        around.0 == token_before(tokens@, offset as int),
        around.1 == token_after(tokens@, offset as int),
{
    let mut before: Option<SyntaxToken> = None;
    let mut after: Option<SyntaxToken> = None;
    let ghost mut back: int = -1;
    let ghost mut forward: int = -1;
    let mut i: usize = 0;
    while i < tokens.len()
        invariant
            i <= tokens@.len(),
            tokens_cover(tokens@, len as int),
            forall|k: int| 0 <= k < i && k != back ==> !reaches_back(tokens@, offset as int, k),
            forall|k: int|
                0 <= k < i && k != forward ==> !reaches_forward(tokens@, offset as int, k),
            before.is_none() <==> back == -1,
            after.is_none() <==> forward == -1,
            before.is_some() ==> reaches_back(tokens@, offset as int, back) && before == Some(
                tokens@[back],
            ),
            after.is_some() ==> reaches_forward(tokens@, offset as int, forward) && after == Some(
                tokens@[forward],
            ),
        decreases tokens@.len() - i,
    {
        let token = tokens[i];
        if token.range.start < offset && offset <= token.range.end {
            proof {
                if back != -1 {
                    lemma_back_unique(tokens@, len as int, offset as int, back, i as int);
                }
                back = i as int;
            }
            before = Some(token);
        }
        if token.range.start <= offset && offset < token.range.end {
            proof {
                if forward != -1 {
                    lemma_forward_unique(tokens@, len as int, offset as int, forward, i as int);
                }
                forward = i as int;
            }
            after = Some(token);
        }
        i += 1;
    }
    proof {
        if back != -1 {
            let chosen = choose|k: int| reaches_back(tokens@, offset as int, k);
            lemma_back_unique(tokens@, len as int, offset as int, back, chosen);
        }
        if forward != -1 {
            let chosen = choose|k: int| reaches_forward(tokens@, offset as int, k);
            lemma_forward_unique(tokens@, len as int, offset as int, forward, chosen);
        }
    }
    (before, after)
}

impl Cursor {
    /// Finds what a cursor at `offset` in `document` is on.
    pub fn new(document: &Document, offset: u32) -> (cursor: Cursor)
        requires
            document@.wf(),
        ensures
            cursor == cursor_at(document@, offset as int),
    {
        let tree = document.parse();
        let around = tokens_around(tree.tokens(), document.text().len() as u32, offset);
        let token = match around.0 {
            Some(token) if !token.kind.is_trivia() => Some(token),
            _ => match around.1 {
                Some(token) if !token.kind.is_trivia() => Some(token),
                _ => None,
            },
        };
        match token {
            Some(token) => match tree {
                SyntaxTree::Latex(_) => Cursor::Tex(token),
                SyntaxTree::Bibtex(_) => Cursor::Bib(token),
                SyntaxTree::Other(_) => Cursor::Nothing,
            },
            None => Cursor::Nothing,
        }
    }

    /// The cursor is on a token, and `range` lies inside that token.
    pub open spec fn holds(self, range: TextRange) -> bool {
        match self {
            Cursor::Tex(token) => token.range.contains_range(range),
            Cursor::Bib(token) => token.range.contains_range(range),
            Cursor::Nothing => false,
        }
    }

    /// The token if it belongs to a LaTeX document.
    pub fn as_tex(&self) -> (token: Option<&SyntaxToken>)
        ensures
            match self {
                Cursor::Tex(tex) => token == Some(tex),
                _ => token.is_none(),
            },
    {
        match self {
            Cursor::Tex(token) => Some(token),
            _ => None,
        }
    }

    /// The token if it belongs to a BibTeX document.
    pub fn as_bib(&self) -> (token: Option<&SyntaxToken>)
        ensures
            match self {
                Cursor::Bib(bib) => token == Some(bib),
                _ => token.is_none(),
            },
    {
        match self {
            Cursor::Bib(token) => Some(token),
            _ => None,
        }
    }

    /// The range of the command name that a cursor at `offset` is in.
    pub fn command_range(&self, offset: u32) -> (range: Option<TextRange>)
        ensures
            range == command_range_of(*self, offset as int),
    {
        match self {
            Cursor::Tex(token) => {
                if token.kind == SyntaxKind::CommandName && token.range.start < offset && offset
                    <= token.range.end {
                    Some(token.range)
                } else {
                    None
                }
            },
            _ => None,
        }
    }
}

impl CursorContextView {
    /// The context is one of an open document, and its cursor is the one at
    /// its offset.
    pub open spec fn wf(self) -> bool {
        &&& documents_wf(self.documents)
        &&& self.document < self.documents.len()
        &&& self.cursor == cursor_at(self.active(), self.offset as int)
    }

    /// The active document.
    pub open spec fn active(self) -> DocumentView {
        self.documents[self.document as int]
    }
}

impl<'db> View for CursorContext<'db> {
    type V = CursorContextView;

    closed spec fn view(&self) -> CursorContextView {
        CursorContextView {
            documents: self.workspace@,
            document: self.document,
            offset: self.offset,
            cursor: self.cursor,
            language_data: *self.language_data,
        }
    }
}

impl<'db> CursorContext<'db> {
    /// Makes the context of a request on document `document` at `offset`, if
    /// the workspace has such a document.
    pub fn new(
        workspace: &'db Workspace,
        document: usize,
        offset: u32,
        language_data: &'db LanguageData,
    ) -> (context: Option<CursorContext<'db>>)
        requires
            workspace.wf(),
        ensures
            context.is_some() == (document < workspace@.len()),
            context matches Some(context) ==> context@.wf() && context@ == (CursorContextView {
                documents: workspace@,
                document,
                offset,
                cursor: cursor_at(workspace@[document as int], offset as int),
                language_data: *language_data,
            }),
    {
        match workspace.get(document) {
            Some(active) => {
                let cursor = Cursor::new(active, offset);
                Some(CursorContext { workspace, document, offset, cursor, language_data })
            },
            None => None,
        }
    }

    pub fn workspace(&self) -> (workspace: &'db Workspace)
        ensures
            workspace@ == self@.documents,
    {
        self.workspace
    }

    /// The place of the active document in the workspace.
    pub fn document(&self) -> (document: usize)
        ensures
            document == self@.document,
    {
        self.document
    }

    /// The offset of the cursor in the active document.
    pub fn offset(&self) -> (offset: u32)
        ensures
            offset == self@.offset,
    {
        self.offset
    }

    /// What the cursor is on.
    pub fn cursor(&self) -> (cursor: Cursor)
        ensures
            cursor == self@.cursor,
    {
        self.cursor
    }

    pub fn language_data(&self) -> (language_data: &'db LanguageData)
        ensures
            *language_data == self@.language_data,
    {
        self.language_data
    }
}

} // verus!
