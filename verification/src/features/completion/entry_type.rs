//! Completion of the type of a bibliography entry.

use vstd::prelude::*;
use crate::features::completion::types::{
    all_replace, items_view, CompletionDataView, CompletionItemView, InternalCompletionItem,
    InternalCompletionItemData,
};
use crate::language::BibtexEntryTypeDoc;
use crate::syntax::SyntaxKind;
use crate::text::TextRange;
use crate::util::cursor::{Cursor, CursorContext, CursorContextView};

verus! {

/// The range that an entry type candidate replaces: the type token under the
/// cursor without its marker `@`. There is none while the cursor stands in
/// front of the marker or right behind it, where no letter of the type has
/// been typed yet.
pub open spec fn entry_type_range(cursor: Cursor, offset: int) -> Option<TextRange> {
    match cursor {
        Cursor::Bib(token) => if token.kind == SyntaxKind::Type && token.range.start + 1 < offset
            <= token.range.end {
            Some(TextRange { start: (token.range.start + 1) as u32, end: token.range.end })
        } else {
            None
        },
        _ => None,
    }
}

/// One candidate for each known entry type, in catalog order.
pub open spec fn entry_type_items(range: TextRange, entry_types: Seq<BibtexEntryTypeDoc>) -> Seq<
    CompletionItemView,
> {
    entry_types.map_values(
        |ty: BibtexEntryTypeDoc|
            CompletionItemView { range, data: CompletionDataView::EntryType { ty } },
    )
}

/// The entry type candidates of a request.
pub open spec fn entry_type_completions(context: CursorContextView) -> Seq<CompletionItemView> {
    match entry_type_range(context.cursor, context.offset as int) {
        Some(range) => entry_type_items(range, context.language_data.entry_types@),
        None => Seq::empty(),
    }
}

/// Adds a candidate for each known entry type if the cursor is behind the
/// first letter of the type of an entry. Returns `None`, and adds nothing,
/// if it is not.
///
/// Each candidate replaces a range inside the token under the cursor.
pub fn complete_entry_types<'db>(
    context: &CursorContext<'db>,
    items: &mut Vec<InternalCompletionItem<'db>>,
) -> (applied: Option<()>)
    requires
        context@.wf(),
    ensures
        applied.is_some() == entry_type_range(context@.cursor, context@.offset as int).is_some(),
        items_view(final(items)@) == items_view(old(items)@) + entry_type_completions(context@),
        forall|i: int|
            old(items)@.len() <= i < final(items)@.len() ==> context@.cursor.holds(
                (#[trigger] final(items)@[i]).range,
            ),
{
    let ghost base = items@;
    let cursor = context.cursor();
    let offset = context.offset();
    let range = match cursor.as_bib() {
        Some(token) => {
            let range = token.text_range();
            if token.kind() == SyntaxKind::Type && range.start < offset && range.start + 1 < offset
                && offset <= range.end {
                token.text_range().without_marker()
            } else {
                assert(items_view(items@) + Seq::<CompletionItemView>::empty() =~= items_view(
                    items@,
                ));
                return None;
            }
        },
        None => {
            return None;
        },
    };
    let language_data = context.language_data();
    let mut i: usize = 0;
    while i < language_data.entry_types.len()
        invariant
            i <= language_data.entry_types@.len(),
            items@.len() == base.len() + i,
            forall|k: int| 0 <= k < base.len() ==> items@[k] == base[k],
            forall|k: int|
                0 <= k < i ==> (#[trigger] items@[base.len() + k])@ == (CompletionItemView {
                    range,
                    data: CompletionDataView::EntryType { ty: language_data.entry_types@[k] },
                }),
            all_replace(items@, base.len() as int, range),
        decreases language_data.entry_types@.len() - i,
    {
        let data = InternalCompletionItemData::EntryType { ty: &language_data.entry_types[i] };
        let item = InternalCompletionItem::new(range, data);
        items.push(item);
        i += 1;
    }
    assert(items_view(items@) =~= items_view(base) + entry_type_items(
        range,
        language_data.entry_types@,
    )) by {
        let added = entry_type_items(range, language_data.entry_types@);
        assert forall|j: int| 0 <= j < items@.len() implies items_view(items@)[j] == (items_view(
            base,
        ) + added)[j] by {
            if j >= base.len() {
                let k = j - base.len();
                assert(items@[base.len() + k]@ == added[k]);
            }
        }
    }
    Some(())
}

} // verus!
