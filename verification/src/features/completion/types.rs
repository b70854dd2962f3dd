//! The candidates that the completion providers hand out.

use vstd::prelude::*;
use crate::language::BibtexEntryTypeDoc;
use crate::text::TextRange;

verus! {

/// What a candidate inserts, by the provider that made it.
#[derive(Clone, Copy, Debug, PartialEq, Eq)]
pub enum InternalCompletionItemData<'db> {
    /// A known type of bibliography entry.
    EntryType { ty: &'db BibtexEntryTypeDoc },
    /// A command as it is written somewhere in the project.
    UserCommand { name: &'db [u8] },
}

/// A candidate: the range of the active document that it replaces, and what
/// it inserts there.
#[derive(Clone, Copy, Debug, PartialEq, Eq)]
pub struct InternalCompletionItem<'db> {
    pub range: TextRange,
    pub data: InternalCompletionItemData<'db>,
}

/// What a candidate inserts, as a mathematical value.
pub enum CompletionDataView {
    EntryType { ty: BibtexEntryTypeDoc },
    UserCommand { name: Seq<u8> },
}

/// A candidate as a mathematical value.
pub struct CompletionItemView {
    pub range: TextRange,
    pub data: CompletionDataView,
}

impl<'db> View for InternalCompletionItemData<'db> {
    type V = CompletionDataView;

    open spec fn view(&self) -> CompletionDataView {
        match self {
            InternalCompletionItemData::EntryType { ty } => CompletionDataView::EntryType {
                ty: **ty,
            },
            InternalCompletionItemData::UserCommand { name } => CompletionDataView::UserCommand {
                name: name@,
            },
        }
    }
}

impl<'db> View for InternalCompletionItem<'db> {
    type V = CompletionItemView;

    open spec fn view(&self) -> CompletionItemView {
        CompletionItemView { range: self.range, data: self.data@ }
    }
}

impl<'db> InternalCompletionItem<'db> {
    pub fn new(range: TextRange, data: InternalCompletionItemData<'db>) -> (item:
        InternalCompletionItem<'db>)
        ensures
            item == (InternalCompletionItem { range, data }),
    {
        InternalCompletionItem { range, data }
    }
}

/// A list of candidates as mathematical values.
pub open spec fn items_view<'db>(items: Seq<InternalCompletionItem<'db>>) -> Seq<
    CompletionItemView,
> {
    items.map_values(|item: InternalCompletionItem<'db>| item@)
}

/// Every candidate from place `from` on replaces `range`.
pub open spec fn all_replace<'db>(
    items: Seq<InternalCompletionItem<'db>>,
    from: int,
    range: TextRange,
) -> bool {
    forall|i: int| from <= i < items.len() ==> (#[trigger] items[i]).range == range
}

} // verus!
