//! Completion of commands that are used somewhere in the project.

use vstd::prelude::*;
use crate::analysis::{analysis_of, lemma_command_names_in_bounds, Span, SpanView};
use crate::document::{Document, DocumentView};
use crate::features::completion::types::{
    all_replace, items_view, CompletionDataView, CompletionItemView, InternalCompletionItem,
    InternalCompletionItemData,
};
use crate::text::TextRange;
use crate::util::cursor::{command_range_of, CursorContext, CursorContextView};
use crate::workspace::{lemma_related_of, related_of};

verus! {

/// The span lies inside `text` and holds the bytes that the text has there.
pub open spec fn span_in_text(span: SpanView, text: Seq<u8>) -> bool {
    span.range.wf() && span.range.end <= text.len() && span.text == span.range.slice(text)
}

/// The occurrence is another one than the one at `own`.
pub open spec fn is_other_than(own: TextRange) -> spec_fn(SpanView) -> bool {
    |span: SpanView| span.range != own
}

/// The candidate that replaces `range` with the name found at an occurrence.
pub open spec fn to_user_command(range: TextRange) -> spec_fn(SpanView) -> CompletionItemView {
    |span: SpanView|
        CompletionItemView { range, data: CompletionDataView::UserCommand { name: span.text } }
}

/// One candidate for each command name occurrence among `names` but the one
/// at `own`.
pub open spec fn commands_among(names: Seq<SpanView>, own: TextRange, range: TextRange) -> Seq<
    CompletionItemView,
> {
    names.filter(is_other_than(own)).map_values(to_user_command(range))
}

/// The candidates that one document gives: one for each of its command name
/// occurrences but the one at `own`, with the name as its own snapshot has it.
pub open spec fn commands_in(document: DocumentView, own: TextRange, range: TextRange) -> Seq<
    CompletionItemView,
> {
    commands_among(analysis_of(document.text, document.tree).command_names, own, range)
}

/// The candidates that the document at a place gives.
pub open spec fn commands_of(
    documents: Seq<DocumentView>,
    own: TextRange,
    range: TextRange,
) -> spec_fn(usize) -> Seq<CompletionItemView> {
    |index: usize| commands_in(documents[index as int], own, range)
}

/// The candidates of the documents `related`, document by document. A name
/// that occurs several times is a candidate as many times.
pub open spec fn user_command_items(
    documents: Seq<DocumentView>,
    related: Seq<usize>,
    own: TextRange,
    range: TextRange,
) -> Seq<CompletionItemView> {
    related.flat_map(commands_of(documents, own, range))
}

/// The user command candidates of a request: those of the documents related
/// to the active one, if the cursor is in a command name.
pub open spec fn user_command_completions(context: CursorContextView) -> Seq<CompletionItemView> {
    match command_range_of(context.cursor, context.offset as int) {
        Some(range) => user_command_items(
            context.documents,
            related_of(context.documents, context.document as int),
            range,
            range,
        ),
        None => Seq::empty(),
    }
}

/// Adds the candidates of one document.
fn complete_from_document<'db>(
    document: &'db Document,
    own: TextRange,
    range: TextRange,
    items: &mut Vec<InternalCompletionItem<'db>>,
)
    requires
        document@.wf(),
    ensures
        items_view(final(items)@) == items_view(old(items)@) + commands_in(document@, own, range),
        old(items)@.len() <= final(items)@.len(),
        forall|i: int| 0 <= i < old(items)@.len() ==> final(items)@[i] == old(items)@[i],
        all_replace(final(items)@, old(items)@.len() as int, range),
{
    let ghost base = items@;
    let ghost names = analysis_of(document@.text, document@.tree).command_names;
    assert(items_view(items@) + commands_among(names.take(0), own, range) =~= items_view(items@))
        by {
        names.take(0).lemma_filter_len(is_other_than(own));
    }
    let Some(latex) = document.parse().as_latex() else {
        return ;
    };
    let text = document.text().as_slice();
    let derived = document.analysis();
    let record = derived.get();
    proof {
        assert forall|k: int| 0 <= k < names.len() implies span_in_text(
            #[trigger] names[k],
            text@,
        ) by {
            lemma_command_names_in_bounds(text@, latex.tokens@, k);
        }
    }
    let mut k: usize = 0;
    while k < record.command_names.len()
        invariant
            names == record.command_names@.map_values(|span: Span| span@),
            forall|k: int| 0 <= k < names.len() ==> span_in_text(#[trigger] names[k], text@),
            k <= record.command_names@.len(),
            items_view(items@) == items_view(base) + commands_among(
                names.take(k as int),
                own,
                range,
            ),
            base.len() <= items@.len(),
            forall|i: int| 0 <= i < base.len() ==> items@[i] == base[i],
            all_replace(items@, base.len() as int, range),
        decreases record.command_names@.len() - k,
    {
        let occurrence = record.command_names[k].range;
        proof {
            names.lemma_take_succ_push(k as int);
            names.take(k as int).lemma_filter_push(names[k as int], is_other_than(own));
        }
        if occurrence != own {
            let name = occurrence.slice_of(text);
            let item = InternalCompletionItem::new(
                range,
                InternalCompletionItemData::UserCommand { name },
            );
            proof {
                let before = commands_among(names.take(k as int), own, range);
                items@.lemma_push_map_commute(|item: InternalCompletionItem<'db>| item@, item);
                names.take(k as int).filter(is_other_than(own)).lemma_push_map_commute(
                    to_user_command(range),
                    names[k as int],
                );
                assert((items_view(base) + before).push(item@) =~= items_view(base) + before.push(
                    item@,
                ));
            }
            items.push(item);
        }
        k += 1;
    }
    proof {
        names.lemma_take_len();
    }
}

/// Adds the commands that the related documents use if the cursor is in a
/// command name. Returns `None`, and adds nothing, if it is not.
///
/// The occurrence under the cursor gives no candidate. Each candidate
/// replaces the token under the cursor.
pub fn complete_user_commands<'db>(
    context: &CursorContext<'db>,
    items: &mut Vec<InternalCompletionItem<'db>>,
) -> (applied: Option<()>)
    requires
        context@.wf(),
    ensures
        applied.is_some() == command_range_of(context@.cursor, context@.offset as int).is_some(),
        items_view(final(items)@) == items_view(old(items)@) + user_command_completions(context@),
        forall|i: int|
            old(items)@.len() <= i < final(items)@.len() ==> context@.cursor.holds(
                (#[trigger] final(items)@[i]).range,
            ),
{
    let ghost base = items@;
    let cursor = context.cursor();
    let Some(range) = cursor.command_range(context.offset()) else {
        return None;
    };
    let Some(token) = cursor.as_tex() else {
        return None;
    };
    let own = token.text_range();
    let workspace = context.workspace();
    let related = workspace.related(context.document());
    let ghost documents = workspace@;
    let ghost candidates = commands_of(documents, own, range);
    proof {
        lemma_related_of(documents, context@.document as int);
    }
    let mut j: usize = 0;
    while j < related.len()
        invariant
            workspace.wf(),
            documents == workspace@,
            candidates == commands_of(documents, own, range),
            forall|k: int| 0 <= k < related@.len() ==> (#[trigger] related@[k]) < documents.len(),
            j <= related@.len(),
            items_view(items@) == items_view(base) + related@.take(j as int).flat_map(candidates),
            base.len() <= items@.len(),
            all_replace(items@, base.len() as int, range),
        decreases related@.len() - j,
    {
        proof {
            related@.lemma_take_succ_push(j as int);
            related@.take(j as int).lemma_flat_map_push(candidates, related@[j as int]);
        }
        if let Some(document) = workspace.get(related[j]) {
            complete_from_document(document, own, range, items);
        }
        assert(items_view(items@) =~= items_view(base) + related@.take(j as int + 1).flat_map(
            candidates,
        ));
        j += 1;
    }
    proof {
        related@.lemma_take_len();
    }
    Some(())
}

} // verus!
