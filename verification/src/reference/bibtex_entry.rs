//! The citations of a bibliography entry.
//!
//! A request with its cursor in the key of an entry is answered with the
//! citations of that key in the related LaTeX documents.

use vstd::prelude::*;
use crate::analysis::{
    analysis_of, lemma_citation_in_bounds, lemma_entry_key_is_token, CitationOccurrence,
    CitationOccurrenceView, EntryDeclaration, EntryDeclarationView,
};
use crate::document::{Document, DocumentView};
use crate::feature::{FeatureRequest, ReferenceParams};
use crate::range::{
    contains, lemma_position_outside, position_of, range_at, range_of, Location, LocationView,
    Position,
};
use crate::syntax::{lemma_token_in_bounds, lemma_tokens_ordered, SyntaxTree};
use crate::text::bytes_equal;
use crate::workspace::{lemma_related_of, related_of};

verus! {

/// Finds the citations of the bibliography entry under the cursor.
pub struct BibtexEntryReferenceProvider;

/// The entry has a key, and the range of the key holds `position`.
pub open spec fn declares_at(text: Seq<u8>, position: Position) -> spec_fn(
    EntryDeclarationView,
) -> bool {
    |entry: EntryDeclarationView|
        entry.key matches Some(key) && contains(range_of(text, key.range), position)
}

/// The key that `position` points at: the key of the first entry of the
/// document whose key holds the position. Only a BibTeX document has
/// entries, so there is no such key in any other document.
pub open spec fn definition_of(document: DocumentView, position: Position) -> Option<Seq<u8>> {
    let found = analysis_of(document.text, document.tree).entries.filter(
        declares_at(document.text, position),
    );
    if found.len() > 0 {
        Some(found[0].key.unwrap().text)
    } else {
        None
    }
}

/// The key of the entry, if it has one, lies inside `text` and holds the
/// bytes that the text has there.
pub open spec fn key_in_text(entry: EntryDeclarationView, text: Seq<u8>) -> bool {
    entry.key matches Some(key) ==> key.range.wf() && key.range.end <= text.len() && key.text
        == key.range.slice(text)
}

/// The invocation of the citation lies inside `text`.
pub open spec fn command_in_text(citation: CitationOccurrenceView, text: Seq<u8>) -> bool {
    citation.command.wf() && citation.command.end <= text.len()
}

/// The citation has exactly the key `key`.
pub open spec fn cites(key: Seq<u8>) -> spec_fn(CitationOccurrenceView) -> bool {
    |citation: CitationOccurrenceView| citation.key.text == key
}

/// The place of a citation: its document and the range of its whole
/// invocation.
pub open spec fn to_location(document: DocumentView) -> spec_fn(
    CitationOccurrenceView,
) -> LocationView {
    |citation: CitationOccurrenceView|
        LocationView { uri: document.uri, range: range_of(document.text, citation.command) }
}

/// The places in `document` at which `key` is cited, in text order.
pub open spec fn citations_in(document: DocumentView, key: Seq<u8>) -> Seq<LocationView> {
    analysis_of(document.text, document.tree).citations.filter(cites(key)).map_values(
        to_location(document),
    )
}

/// The places at which `key` is cited in the document at a place.
pub open spec fn citations_of(documents: Seq<DocumentView>, key: Seq<u8>) -> spec_fn(usize) -> Seq<
    LocationView,
> {
    |index: usize| citations_in(documents[index as int], key)
}

/// The answer to a request for references at `position` in the document at
/// place `document`: the citations of the key at the position in the related
/// documents, document by document; nothing if the position is in no key.
pub open spec fn references_of(
    documents: Seq<DocumentView>,
    document: int,
    position: Position,
) -> Seq<LocationView> {
    match definition_of(documents[document], position) {
        Some(key) => related_of(documents, document).flat_map(citations_of(documents, key)),
        None => Seq::empty(),
    }
}

/// A position inside whitespace or a comment lies in no key, so a request
/// for references there is answered with nothing.
pub proof fn lemma_trivia_gives_no_references(
    documents: Seq<DocumentView>,
    document: int,
    offset: int,
    place: int,
)
    requires
        0 <= document < documents.len(),
        documents[document].wf(),
        0 <= place < documents[document].tree.leaves().len(),
        documents[document].tree.leaves()[place].kind.is_trivia(),
        documents[document].tree.leaves()[place].range.start < offset
            < documents[document].tree.leaves()[place].range.end,
    ensures
        references_of(documents, document, position_of(documents[document].text, offset))
            == Seq::<LocationView>::empty(),
{
    let active = documents[document];
    let text = active.text;
    let position = position_of(text, offset);
    let entries = analysis_of(text, active.tree).entries;
    let wanted = declares_at(text, position);
    let found = entries.filter(wanted);
    if found.len() > 0 {
        entries.lemma_filter_pred(wanted, 0);
        entries.lemma_filter_contains_rev(wanted, found[0]);
        let k = choose|k: int| 0 <= k < entries.len() && entries[k] == found[0];
        lemma_key_outside_trivia(active, offset, place, k);
    }
}

/// The key of an entry does not hold the position of an offset inside
/// whitespace or a comment.
proof fn lemma_key_outside_trivia(document: DocumentView, offset: int, place: int, k: int)
    requires
        document.wf(),
        0 <= place < document.tree.leaves().len(),
        document.tree.leaves()[place].kind.is_trivia(),
        document.tree.leaves()[place].range.start < offset
            < document.tree.leaves()[place].range.end,
        0 <= k < analysis_of(document.text, document.tree).entries.len(),
    ensures
        !declares_at(document.text, position_of(document.text, offset))(
            analysis_of(document.text, document.tree).entries[k],
        ),
{
    let text = document.text;
    let tokens = document.tree.leaves();
    let entry = analysis_of(text, document.tree).entries[k];
    if entry.key.is_some() {
        let key = lemma_entry_key_is_token(text, document.tree, k);
        lemma_token_in_bounds(tokens, text.len() as int, place);
        if key < place {
            lemma_tokens_ordered(tokens, text.len() as int, key, place);
        } else {
            lemma_tokens_ordered(tokens, text.len() as int, place, key);
        }
        lemma_position_outside(text, tokens[key].range, offset);
    }
}

/// A list of locations as mathematical values.
pub open spec fn locations_view(locations: Seq<Location>) -> Seq<LocationView> {
    locations.map_values(|location: Location| location@)
}

/// Adds the places in `document` at which `key` is cited.
fn find_citations(document: &Document, key: &[u8], references: &mut Vec<Location>)
    requires
        document@.wf(),
    ensures
        locations_view(final(references)@) == locations_view(old(references)@) + citations_in(
            document@,
            key@,
        ),
{
    let ghost base = references@;
    let ghost citations = analysis_of(document@.text, document@.tree).citations;
    let ghost place = to_location(document@);
    assert(locations_view(references@) + citations.take(0).filter(cites(key@)).map_values(place)
        =~= locations_view(references@)) by {
        citations.take(0).lemma_filter_len(cites(key@));
    }
    let SyntaxTree::Latex(latex) = document.parse() else {
        return ;
    };
    let text = document.text().as_slice();
    let uri = document.uri();
    let derived = document.analysis();
    let record = derived.get();
    proof {
        assert forall|k: int| 0 <= k < citations.len() implies command_in_text(
            #[trigger] citations[k],
            text@,
        ) by {
            lemma_citation_in_bounds(document@.text, document@.tree, k);
        }
    }
    let mut i: usize = 0;
    while i < record.citations.len()
        invariant
            text@ == document@.text,
            uri@ == document@.uri,
            place == to_location(document@),
            citations == record.citations@.map_values(|citation: CitationOccurrence| citation@),
            forall|k: int|
                0 <= k < citations.len() ==> command_in_text(#[trigger] citations[k], text@),
            i <= record.citations@.len(),
            locations_view(references@) == locations_view(base) + citations.take(i as int).filter(
                cites(key@),
            ).map_values(place),
        decreases record.citations@.len() - i,
    {
        let citation = &record.citations[i];
        proof {
            citations.lemma_take_succ_push(i as int);
            citations.take(i as int).lemma_filter_push(citations[i as int], cites(key@));
        }
        if bytes_equal(citation.key.text.as_slice(), key) {
            let location = Location::new(uri.clone(), range_at(text, citation.command));
            proof {
                let before = citations.take(i as int).filter(cites(key@)).map_values(place);
                references@.lemma_push_map_commute(|location: Location| location@, location);
                citations.take(i as int).filter(cites(key@)).lemma_push_map_commute(
                    place,
                    citations[i as int],
                );
                assert((locations_view(base) + before).push(location@) =~= locations_view(base)
                    + before.push(location@));
            }
            references.push(location);
        }
        i += 1;
    }
    proof {
        citations.lemma_take_len();
    }
}

impl BibtexEntryReferenceProvider {
    /// Finds the citations of the entry whose key the cursor of the request
    /// is in: for each related LaTeX document, in their order, the
    /// invocations that cite exactly that key, in text order.
    pub fn execute(request: &FeatureRequest<ReferenceParams>) -> (references: Vec<Location>)
        requires
            request@.wf(),
        ensures
            locations_view(references@) == references_of(
                request@.documents,
                request@.document as int,
                request@.params.position,
            ),
    {
        let mut references: Vec<Location> = Vec::new();
        if let Some(key) = Self::find_definition(request) {
            let workspace = request.workspace();
            let ghost documents = workspace@;
            let ghost found = citations_of(documents, key@);
            let related = request.related_documents();
            proof {
                lemma_related_of(documents, request@.document as int);
            }
            let mut j: usize = 0;
            while j < related.len()
                invariant
                    workspace.wf(),
                    documents == workspace@,
                    found == citations_of(documents, key@),
                    forall|k: int|
                        0 <= k < related@.len() ==> (#[trigger] related@[k]) < documents.len(),
                    j <= related@.len(),
                    locations_view(references@) == related@.take(j as int).flat_map(found),
                decreases related@.len() - j,
            {
                proof {
                    related@.lemma_take_succ_push(j as int);
                    related@.take(j as int).lemma_flat_map_push(found, related@[j as int]);
                }
                if let Some(document) = workspace.get(related[j]) {
                    find_citations(document, key, &mut references);
                }
                j += 1;
            }
            proof {
                related@.lemma_take_len();
            }
        }
        references
    }

    /// Finds the key that the cursor of the request is in: the key of the
    /// first entry of the active document whose key holds the position.
    pub fn find_definition<'a>(request: &FeatureRequest<'a, ReferenceParams>) -> (key: Option<
        &'a [u8],
    >)
        requires
            request@.wf(),
        ensures
            match key {
                Some(key) => Some(key@),
                None => None,
            } == definition_of(request@.active(), request@.params.position),
    {
        let workspace = request.workspace();
        let Some(document) = workspace.get(request.document()) else {
            return None;
        };
        let position = request.params().position;
        let text = document.text().as_slice();
        let derived = document.analysis();
        let record = derived.get();
        let ghost entries = analysis_of(document@.text, document@.tree).entries;
        proof {
            assert forall|k: int| 0 <= k < entries.len() implies key_in_text(
                #[trigger] entries[k],
                text@,
            ) by {
                if entries[k].key.is_some() {
                    lemma_entry_key_is_token(document@.text, document@.tree, k);
                }
            }
        }
        match first_declaring(text, &record.entries, position) {
            Some(at) => {
                assert(key_in_text(entries[at as int], text@));
                match &record.entries[at].key {
                    Some(key) => Some(key.range.slice_of(text)),
                    None => None,
                }
            },
            None => None,
        }
    }
}

/// The entries as mathematical values.
pub open spec fn entries_view(entries: Seq<EntryDeclaration>) -> Seq<EntryDeclarationView> {
    entries.map_values(|entry: EntryDeclaration| entry@)
}

/// Finds the first entry whose key holds `position`.
fn first_declaring(text: &[u8], entries: &Vec<EntryDeclaration>, position: Position) -> (found:
    Option<usize>)
    requires
        forall|k: int|
            0 <= k < entries@.len() ==> key_in_text(#[trigger] entries_view(entries@)[k], text@),
    ensures
        match found {
            Some(at) => {
                let declaring = entries_view(entries@).filter(declares_at(text@, position));
                at < entries@.len() && declaring.len() > 0 && declaring[0] == entries@[at as int]@
            },
            None => entries_view(entries@).filter(declares_at(text@, position)).len() == 0,
        },
{
    let ghost views = entries_view(entries@);
    let ghost wanted = declares_at(text@, position);
    proof {
        views.take(0).lemma_filter_len(wanted);
    }
    let mut i: usize = 0;
    while i < entries.len()
        invariant
            views == entries_view(entries@),
            wanted == declares_at(text@, position),
            forall|k: int| 0 <= k < views.len() ==> key_in_text(#[trigger] views[k], text@),
            i <= entries@.len(),
            views.take(i as int).filter(wanted).len() == 0,
        decreases entries@.len() - i,
    {
        proof {
            views.lemma_take_succ_push(i as int);
            views.take(i as int).lemma_filter_push(views[i as int], wanted);
        }
        let holds = match &entries[i].key {
            Some(key) => contains(range_at(text, key.range), position),
            None => false,
        };
        if holds {
            proof {
                let head = views.take(i as int + 1);
                let tail = views.skip(i as int + 1);
                assert(views =~= head + tail);
                Seq::filter_distributes_over_add(head, tail, wanted);
            }
            return Some(i);
        }
        i += 1;
    }
    proof {
        views.lemma_take_len();
    }
    None
}

} // verus!
