use texlab::document::Document;
use texlab::feature::{FeatureRequest, ReferenceParams};
use texlab::features::completion::complete;
use texlab::features::completion::entry_type::complete_entry_types;
use texlab::features::completion::types::{InternalCompletionItem, InternalCompletionItemData};
use texlab::features::completion::user_command::complete_user_commands;
use texlab::language::{BibtexEntryTypeDoc, LanguageData};
use texlab::range;
use texlab::range::{Location, Position};
use texlab::reference::bibtex_entry::BibtexEntryReferenceProvider;
use texlab::syntax::{
    BibtexSyntaxTree, Citation, Entry, LatexSyntaxTree, SyntaxKind, SyntaxToken, SyntaxTree,
};
use texlab::text::TextRange;
use texlab::util::cursor::{Cursor, CursorContext};
use texlab::workspace::Workspace;

fn uri(name: &str) -> String {
    format!("file:///project/{}", name)
}

fn is_name_byte(byte: u8) -> bool {
    byte.is_ascii_alphanumeric() || !byte.is_ascii() || byte == b'.' || byte == b'_' || byte == b'-'
}

/// Splits a text into tokens the way a lexer for either language would.
fn lex(text: &str, name: SyntaxKind) -> Vec<SyntaxToken> {
    let bytes = text.as_bytes();
    let mut tokens = Vec::new();
    let mut start = 0;
    while start < bytes.len() {
        let first = bytes[start];
        let mut end = start + 1;
        let kind = if first.is_ascii_whitespace() {
            while end < bytes.len() && bytes[end].is_ascii_whitespace() {
                end += 1;
            }
            SyntaxKind::Whitespace
        } else if first == b'%' {
            while end < bytes.len() && bytes[end] != b'\n' {
                end += 1;
            }
            SyntaxKind::Comment
        } else if first == b'\\' || first == b'@' {
            while end < bytes.len() && bytes[end].is_ascii_alphabetic() {
                end += 1;
            }
            if first == b'@' {
                SyntaxKind::Type
            } else {
                SyntaxKind::CommandName
            }
        } else if is_name_byte(first) {
            while end < bytes.len() && is_name_byte(bytes[end]) {
                end += 1;
            }
            name
        } else {
            SyntaxKind::Delimiter
        };
        tokens.push(SyntaxToken::new(kind, TextRange::new(start as u32, end as u32)));
        start = end;
    }
    tokens
}

fn token_text<'a>(text: &'a str, token: &SyntaxToken) -> &'a str {
    &text[token.range.start as usize..token.range.end as usize]
}

/// Whether token `at` is followed by `{` and a token of kind `name`.
fn has_name(text: &str, tokens: &[SyntaxToken], at: usize, name: SyntaxKind) -> bool {
    match (tokens.get(at + 1), tokens.get(at + 2)) {
        (Some(open), Some(word)) => token_text(text, open) == "{" && word.kind == name,
        _ => false,
    }
}

fn latex(name: &str, text: &str) -> Document {
    let tokens = lex(text, SyntaxKind::Word);
    let mut citations = Vec::new();
    let mut links = Vec::new();
    for (at, token) in tokens.iter().enumerate() {
        let closed = tokens.get(at + 3).map_or(false, |close| token_text(text, close) == "}");
        if token.kind != SyntaxKind::CommandName || !has_name(text, &tokens, at, SyntaxKind::Word) || !closed {
            continue;
        }
        match token_text(text, token) {
            "\\cite" => citations.push(Citation { first: at, last: at + 3, key: at + 2 }),
            "\\addbibresource" | "\\include" | "\\input" => {
                links.push(uri(token_text(text, &tokens[at + 2])))
            }
            _ => {}
        }
    }
    let tree = SyntaxTree::Latex(LatexSyntaxTree { tokens, citations });
    Document::new(uri(name), text.as_bytes().to_vec(), tree, links).unwrap()
}

fn bibtex(name: &str, text: &str) -> Document {
    let tokens = lex(text, SyntaxKind::Name);
    let mut entries = Vec::new();
    for (at, token) in tokens.iter().enumerate() {
        if token.kind != SyntaxKind::Type {
            continue;
        }
        let key = if has_name(text, &tokens, at, SyntaxKind::Name) { Some(at + 2) } else { None };
        entries.push(Entry { ty: at, key });
    }
    let tree = SyntaxTree::Bibtex(BibtexSyntaxTree { tokens, entries });
    Document::new(uri(name), text.as_bytes().to_vec(), tree, Vec::new()).unwrap()
}

fn file(name: &str, text: &str) -> Document {
    if name.ends_with(".bib") {
        bibtex(name, text)
    } else {
        latex(name, text)
    }
}

fn workspace(files: &[(&str, &str)]) -> Workspace {
    let mut workspace = Workspace::new();
    for (name, text) in files {
        workspace.open(file(name, text));
    }
    workspace
}

fn references(files: &[(&str, &str)], main_file: &str, position: Position) -> Vec<Location> {
    let workspace = workspace(files);
    let document = workspace.lookup(&uri(main_file)).unwrap();
    let request = FeatureRequest::new(&workspace, document, ReferenceParams::new(position)).unwrap();
    BibtexEntryReferenceProvider::execute(&request)
}

fn language_data() -> LanguageData {
    LanguageData::new(vec![
        BibtexEntryTypeDoc::new("article".to_string(), None),
        BibtexEntryTypeDoc::new("book".to_string(), Some("A book with a publisher.".to_string())),
        BibtexEntryTypeDoc::new("misc".to_string(), None),
    ])
}

fn user_commands(files: &[(&str, &str)], main_file: &str, offset: u32) -> Option<Vec<(TextRange, String)>> {
    let workspace = workspace(files);
    let language_data = language_data();
    let document = workspace.lookup(&uri(main_file)).unwrap();
    let context = CursorContext::new(&workspace, document, offset, &language_data).unwrap();
    let mut items = Vec::new();
    complete_user_commands(&context, &mut items)?;
    Some(
        items
            .iter()
            .map(|item| match item.data {
                InternalCompletionItemData::UserCommand { name } => {
                    (item.range, String::from_utf8(name.to_vec()).unwrap())
                }
                InternalCompletionItemData::EntryType { .. } => panic!("not a user command"),
            })
            .collect(),
    )
}

fn entry_types(text: &str, offset: u32) -> Option<Vec<(TextRange, String)>> {
    let workspace = workspace(&[("main.bib", text)]);
    let language_data = language_data();
    let context = CursorContext::new(&workspace, 0, offset, &language_data).unwrap();
    let mut items = Vec::new();
    complete_entry_types(&context, &mut items)?;
    Some(
        items
            .iter()
            .map(|item| match item.data {
                InternalCompletionItemData::EntryType { ty } => (item.range, ty.name.clone()),
                InternalCompletionItemData::UserCommand { .. } => panic!("not an entry type"),
            })
            .collect(),
    )
}

#[test]
fn test() {
    let references = references(
        &[
            ("foo.bib", "@article{foo, bar = {baz}}"),
            ("bar.tex", "\\addbibresource{foo.bib}\n\\cite{foo}"),
            ("baz.tex", "\\cite{foo}"),
        ],
        "foo.bib",
        Position::new(0, 9),
    );
    assert_eq!(
        references,
        vec![Location::new(uri("bar.tex"), range::create(1, 0, 1, 10))]
    );
}

#[test]
fn test_latex() {
    let references = references(&[("foo.tex", "")], "foo.tex", Position::new(0, 0));
    assert_eq!(references, Vec::new());
}

#[test]
fn references_match_the_whole_key() {
    let references = references(
        &[
            ("x.bib", "@article{key1, title = {T}}"),
            ("y.tex", "\\addbibresource{x.bib}\n\\cite{key1}\n\\cite{key10}"),
        ],
        "x.bib",
        Position::new(0, 10),
    );
    assert_eq!(
        references,
        vec![Location::new(uri("y.tex"), range::create(1, 0, 1, 11))]
    );
}

#[test]
fn references_compare_keys_by_case() {
    let references = references(
        &[
            ("x.bib", "@article{Key, title = {T}}"),
            ("y.tex", "\\addbibresource{x.bib}\n\\cite{key} \\cite{Key}"),
        ],
        "x.bib",
        Position::new(0, 9),
    );
    assert_eq!(
        references,
        vec![Location::new(uri("y.tex"), range::create(1, 11, 1, 21))]
    );
}

#[test]
fn references_follow_document_then_text_order() {
    let files = [
        ("a.tex", "\\cite{k}\n\\include{b.tex}\n\\cite{k}"),
        ("b.tex", "\\addbibresource{refs.bib}\\cite{k}"),
        ("refs.bib", "@book{k,}"),
    ];
    let references = references(&files, "refs.bib", Position::new(0, 7));
    assert_eq!(
        references,
        vec![
            Location::new(uri("a.tex"), range::create(0, 0, 0, 8)),
            Location::new(uri("a.tex"), range::create(2, 0, 2, 8)),
            Location::new(uri("b.tex"), range::create(0, 25, 0, 33)),
        ]
    );
}

#[test]
fn references_need_a_key_under_the_cursor() {
    let files = [
        ("x.bib", "@article{key1, title = {T}}\n@book{, title = {U}}"),
        ("y.tex", "\\addbibresource{x.bib}\n\\cite{key1}"),
    ];
    // Both ends of the key belong to it.
    assert_eq!(references(&files, "x.bib", Position::new(0, 9)).len(), 1);
    assert_eq!(references(&files, "x.bib", Position::new(0, 13)).len(), 1);
    // In front of the key, behind it, in an entry without a key, behind the text.
    assert_eq!(references(&files, "x.bib", Position::new(0, 8)), Vec::new());
    assert_eq!(references(&files, "x.bib", Position::new(0, 14)), Vec::new());
    assert_eq!(references(&files, "x.bib", Position::new(1, 6)), Vec::new());
    assert_eq!(references(&files, "x.bib", Position::new(7, 0)), Vec::new());
}

#[test]
fn references_use_the_first_entry_at_the_cursor() {
    let text = "@a{one,}@b{two,}";
    let tokens = lex(text, SyntaxKind::Name);
    let entries = vec![Entry { ty: 0, key: Some(2) }, Entry { ty: 5, key: Some(2) }];
    let tree = SyntaxTree::Bibtex(BibtexSyntaxTree { tokens, entries });
    let mut workspace = Workspace::new();
    workspace.open(Document::new(uri("x.bib"), text.as_bytes().to_vec(), tree, Vec::new()).unwrap());
    let request =
        FeatureRequest::new(&workspace, 0, ReferenceParams::new(Position::new(0, 4))).unwrap();
    assert_eq!(
        BibtexEntryReferenceProvider::find_definition(&request),
        Some("one".as_bytes())
    );
}

#[test]
fn references_ignore_unrelated_documents() {
    let files = [
        ("x.bib", "@article{key1,}"),
        ("y.tex", "\\cite{key1}"),
    ];
    assert_eq!(references(&files, "x.bib", Position::new(0, 10)), Vec::new());
}

#[test]
fn request_needs_an_open_document() {
    let workspace = workspace(&[("a.tex", "\\foo")]);
    let params = ReferenceParams::new(Position::new(0, 0));
    assert!(FeatureRequest::new(&workspace, 1, params).is_none());
    let request = FeatureRequest::new(&workspace, 0, params).unwrap();
    assert_eq!(request.related_documents(), &vec![0]);
    assert_eq!(request.document(), 0);
    assert_eq!(request.params(), &params);
    let language_data = language_data();
    assert!(CursorContext::new(&workspace, 1, 0, &language_data).is_none());
}

#[test]
fn entry_type_completion_at_the_boundary() {
    // In front of the marker and right behind it no letter has been typed.
    assert_eq!(entry_types("@art", 0), None);
    assert_eq!(entry_types("@art", 1), None);
    // Behind the first letter each known type is offered for the letters alone.
    let expected: Vec<(TextRange, String)> = ["article", "book", "misc"]
        .iter()
        .map(|name| (TextRange::new(1, 4), name.to_string()))
        .collect();
    assert_eq!(entry_types("@art", 2), Some(expected.clone()));
    assert_eq!(entry_types("@art", 3), Some(expected.clone()));
    assert_eq!(entry_types("@art", 4), Some(expected));
}

#[test]
fn entry_type_completion_inside_a_text() {
    let text = "@book{a,}\n@article{foo,}";
    assert_eq!(entry_types(text, 10), None);
    assert_eq!(entry_types(text, 11), None);
    for offset in 12..=18 {
        let items = entry_types(text, offset).unwrap();
        assert_eq!(items.len(), 3);
        assert!(items.iter().all(|(range, _)| *range == TextRange::new(11, 18)));
    }
    assert_eq!(entry_types(text, 19), None);
    // A marker alone has no letters to replace.
    assert_eq!(entry_types("@", 1), None);
}

#[test]
fn entry_type_completion_needs_a_type_token() {
    assert_eq!(entry_types("@article{foo,}", 10), None);
    assert_eq!(entry_types("@article {foo,}", 9), None);
    assert_eq!(entry_types("", 0), None);
    // A type token of a LaTeX document is no entry type.
    let workspace = workspace(&[("main.tex", "@art")]);
    let language_data = language_data();
    let context = CursorContext::new(&workspace, 0, 2, &language_data).unwrap();
    let mut items = Vec::new();
    assert_eq!(complete_entry_types(&context, &mut items), None);
    assert!(items.is_empty());
}

#[test]
fn entry_type_completion_keeps_earlier_items() {
    let workspace = workspace(&[("main.bib", "@art")]);
    let language_data = language_data();
    let context = CursorContext::new(&workspace, 0, 3, &language_data).unwrap();
    let earlier = InternalCompletionItem::new(
        TextRange::new(0, 4),
        InternalCompletionItemData::UserCommand { name: b"\\foo" },
    );
    let mut items = vec![earlier];
    assert_eq!(complete_entry_types(&context, &mut items), Some(()));
    assert_eq!(items.len(), 4);
    assert_eq!(items[0], earlier);
    assert_eq!(
        items[2],
        InternalCompletionItem::new(
            TextRange::new(1, 4),
            InternalCompletionItemData::EntryType { ty: &language_data.entry_types[1] },
        )
    );
}

#[test]
fn user_command_completion_excludes_the_cursor_occurrence() {
    let files = [("a.tex", "\\foo\n\\include{b.tex}"), ("b.tex", "text \\foo")];
    let items = user_commands(&files, "a.tex", 2).unwrap();
    assert_eq!(
        items,
        vec![
            (TextRange::new(0, 4), "\\include".to_string()),
            (TextRange::new(0, 4), "\\foo".to_string()),
        ]
    );
}

#[test]
fn user_command_completion_excludes_by_range_alone() {
    // The occurrence at the same range in the other document is excluded too.
    let files = [("a.tex", "\\foo \\input{b.tex}"), ("b.tex", "\\bar \\foo")];
    let items = user_commands(&files, "a.tex", 4).unwrap();
    assert_eq!(
        items,
        vec![
            (TextRange::new(0, 4), "\\input".to_string()),
            (TextRange::new(0, 4), "\\foo".to_string()),
        ]
    );
}

#[test]
fn user_command_completion_reads_names_by_byte_offsets() {
    let files = [("a.tex", "\\foo ä \\größe"), ("b.tex", "ö\\input{a.tex}")];
    assert_eq!(
        user_commands(&files, "b.tex", 5),
        Some(vec![
            (TextRange::new(2, 8), "\\foo".to_string()),
            (TextRange::new(2, 8), "\\gr".to_string()),
        ])
    );
}

#[test]
fn user_command_completion_keeps_duplicates() {
    let files = [("a.tex", "\\foo \\bar \\bar \\bar")];
    let items = user_commands(&files, "a.tex", 1).unwrap();
    assert_eq!(items.len(), 3);
    assert!(items.iter().all(|(range, name)| *range == TextRange::new(0, 4) && name == "\\bar"));
}

#[test]
fn user_command_completion_needs_a_command_under_the_cursor() {
    let files = [("a.tex", "\\foo bar % \\baz\n\\qux"), ("b.bib", "@article{foo,}")];
    // In front of the escape character, in a word, in trivia.
    assert_eq!(user_commands(&files, "a.tex", 0), None);
    assert_eq!(user_commands(&files, "a.tex", 6), None);
    assert_eq!(user_commands(&files, "a.tex", 12), None);
    // A BibTeX document has no commands.
    assert_eq!(user_commands(&files, "b.bib", 3), None);
    // Behind the escape character and at the end of the name.
    assert_eq!(
        user_commands(&files, "a.tex", 1),
        Some(vec![(TextRange::new(0, 4), "\\qux".to_string())])
    );
    assert_eq!(
        user_commands(&files, "a.tex", 4),
        Some(vec![(TextRange::new(0, 4), "\\qux".to_string())])
    );
    assert_eq!(
        user_commands(&files, "a.tex", 20),
        Some(vec![(TextRange::new(16, 20), "\\foo".to_string())])
    );
}

#[test]
fn user_command_completion_skips_unrelated_and_bibtex_documents() {
    let files = [
        ("a.tex", "\\foo \\addbibresource{r.bib}"),
        ("r.bib", "@article{k,}"),
        ("c.tex", "\\other"),
    ];
    assert_eq!(
        user_commands(&files, "a.tex", 3),
        Some(vec![(TextRange::new(0, 4), "\\addbibresource".to_string())])
    );
}

#[test]
fn cursor_in_trivia_has_no_context() {
    let files = [("a.tex", "\\foo   \\bar % note\n"), ("b.bib", "@article  {k,}")];
    let workspace = workspace(&files);
    let language_data = language_data();
    for (document, offset) in [(0, 5), (0, 6), (0, 14), (0, 18), (1, 9)] {
        let context = CursorContext::new(&workspace, document, offset, &language_data).unwrap();
        assert_eq!(context.cursor(), Cursor::Nothing);
        assert_eq!(context.cursor().command_range(offset), None);
        let mut items = Vec::new();
        assert_eq!(complete_entry_types(&context, &mut items), None);
        assert_eq!(complete_user_commands(&context, &mut items), None);
        assert!(items.is_empty());
        assert!(complete(&context).is_empty());
    }
    assert_eq!(references(&files, "b.bib", Position::new(0, 9)), Vec::new());
}

#[test]
fn cursor_prefers_the_token_in_front_of_it() {
    let workspace = workspace(&[("a.tex", "\\foo\\bar baz"), ("b.bib", "@art")]);
    let documents = [workspace.get(0).unwrap(), workspace.get(1).unwrap()];
    let command = |start, end| SyntaxToken::new(SyntaxKind::CommandName, TextRange::new(start, end));
    assert_eq!(Cursor::new(documents[0], 0), Cursor::Tex(command(0, 4)));
    assert_eq!(Cursor::new(documents[0], 4), Cursor::Tex(command(0, 4)));
    assert_eq!(Cursor::new(documents[0], 5), Cursor::Tex(command(4, 8)));
    assert_eq!(Cursor::new(documents[0], 8), Cursor::Tex(command(4, 8)));
    // Behind trivia the cursor is on the token that follows.
    assert_eq!(
        Cursor::new(documents[0], 9),
        Cursor::Tex(SyntaxToken::new(SyntaxKind::Word, TextRange::new(9, 12)))
    );
    assert_eq!(Cursor::new(documents[0], 13), Cursor::Nothing);
    let ty = SyntaxToken::new(SyntaxKind::Type, TextRange::new(0, 4));
    assert_eq!(Cursor::new(documents[1], 4), Cursor::Bib(ty));
    assert_eq!(Cursor::Bib(ty).as_bib(), Some(&ty));
    assert_eq!(Cursor::Bib(ty).as_tex(), None);
    assert_eq!(Cursor::Tex(ty).as_tex(), Some(&ty));
    assert_eq!(Cursor::Nothing.as_bib(), None);
}

#[test]
fn document_in_another_language_has_no_context() {
    let text = "\\foo @art \\cite{k}";
    let mut workspace = workspace(&[("k.bib", "@book{k,}"), ("a.tex", "\\input{notes.txt}")]);
    let tree = SyntaxTree::Other(lex(text, SyntaxKind::Word));
    let links = vec![uri("k.bib")];
    workspace.open(Document::new(uri("notes.txt"), text.as_bytes().to_vec(), tree, links).unwrap());
    let language_data = language_data();
    for offset in 0..=text.len() as u32 {
        let context = CursorContext::new(&workspace, 2, offset, &language_data).unwrap();
        assert_eq!(context.cursor(), Cursor::Nothing);
        assert!(complete(&context).is_empty());
    }
    // The document still links the others together, but cites nothing.
    assert_eq!(workspace.related(0), vec![0, 1, 2]);
    let request =
        FeatureRequest::new(&workspace, 0, ReferenceParams::new(Position::new(0, 6))).unwrap();
    assert_eq!(BibtexEntryReferenceProvider::find_definition(&request), Some("k".as_bytes()));
    assert_eq!(BibtexEntryReferenceProvider::execute(&request), Vec::new());
}

#[test]
fn completion_joins_the_providers() {
    let workspace = workspace(&[("a.tex", "\\foo \\bar"), ("b.bib", "@art")]);
    let language_data = language_data();
    let context = CursorContext::new(&workspace, 0, 2, &language_data).unwrap();
    let items = complete(&context);
    assert_eq!(
        items,
        vec![InternalCompletionItem::new(
            TextRange::new(0, 4),
            InternalCompletionItemData::UserCommand { name: b"\\bar" },
        )]
    );
    let context = CursorContext::new(&workspace, 1, 2, &language_data).unwrap();
    assert_eq!(complete(&context).len(), 3);
}

#[test]
fn completion_ranges_stay_inside_the_cursor_token() {
    let workspace = workspace(&[("a.tex", "x \\foo \\bar"), ("b.bib", "  @art{")]);
    let language_data = language_data();
    for (document, offset) in [(0, 3), (0, 6), (0, 8), (1, 4), (1, 6)] {
        let context = CursorContext::new(&workspace, document, offset, &language_data).unwrap();
        assert_eq!(context.offset(), offset);
        assert_eq!(context.document(), document);
        let token = match context.cursor() {
            Cursor::Tex(token) | Cursor::Bib(token) => token,
            Cursor::Nothing => panic!("no token under the cursor"),
        };
        let items = complete(&context);
        assert!(!items.is_empty());
        for item in items {
            assert!(token.range.start <= item.range.start);
            assert!(item.range.start <= item.range.end);
            assert!(item.range.end <= token.range.end);
        }
    }
}

#[test]
fn answers_do_not_depend_on_the_cache() {
    let files = [
        ("refs.bib", "@book{k,}"),
        ("a.tex", "\\foo \\addbibresource{refs.bib} \\cite{k}"),
        ("b.tex", "\\input{a.tex} \\foo \\cite{k}"),
    ];
    let mut workspace = workspace(&files);
    let language_data = language_data();
    let answer = |workspace: &Workspace| {
        let context = CursorContext::new(workspace, 1, 2, &language_data).unwrap();
        let names: Vec<Vec<u8>> = complete(&context)
            .iter()
            .map(|item| match item.data {
                InternalCompletionItemData::UserCommand { name } => name.to_vec(),
                InternalCompletionItemData::EntryType { ty } => ty.name.clone().into_bytes(),
            })
            .collect();
        let params = ReferenceParams::new(Position::new(0, 6));
        let request = FeatureRequest::new(workspace, 0, params).unwrap();
        (names, BibtexEntryReferenceProvider::execute(&request))
    };
    let before = answer(&workspace);
    assert_eq!(before.0.len(), 5);
    assert_eq!(before.1.len(), 2);
    workspace.analyze(1);
    assert_eq!(answer(&workspace), before);
    workspace.analyze(0);
    workspace.analyze(2);
    assert_eq!(answer(&workspace), before);
}
