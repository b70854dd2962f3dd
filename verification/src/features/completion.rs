//! Completion: what can be inserted at the cursor.
//!
//! Each provider looks at the cursor context and adds its candidates to a
//! list; the answer to a request is the list after all providers have run.

pub mod entry_type;
pub mod types;
pub mod user_command;

use vstd::prelude::*;
use crate::features::completion::entry_type::{complete_entry_types, entry_type_completions};
use crate::features::completion::types::{items_view, CompletionItemView, InternalCompletionItem};
use crate::features::completion::user_command::{
    complete_user_commands, user_command_completions,
};
use crate::util::cursor::{lemma_cursor_in_trivia, CursorContext, CursorContextView};

verus! {

/// The candidates of all providers, one provider after the other.
pub fn complete<'db>(context: &CursorContext<'db>) -> (items: Vec<InternalCompletionItem<'db>>)
    requires
        context@.wf(),
    ensures
        items_view(items@) == entry_type_completions(context@) + user_command_completions(
            context@,
        ),
        forall|i: int|
            0 <= i < items@.len() ==> context@.cursor.holds((#[trigger] items@[i]).range),
{
    let mut items: Vec<InternalCompletionItem<'db>> = Vec::new();
    complete_entry_types(context, &mut items);
    let ghost first = items@;
    complete_user_commands(context, &mut items);
    assert forall|i: int| 0 <= i < items@.len() implies context@.cursor.holds(
        (#[trigger] items@[i]).range,
    ) by {
        if i < first.len() {
            assert(items_view(items@)[i] == items_view(first)[i]);
        }
    }
    items
}

/// A cursor inside whitespace or a comment gets no candidate from any
/// provider.
pub proof fn lemma_trivia_gives_no_completions(context: CursorContextView, place: int)
    requires
        context.wf(),
        0 <= place < context.active().tree.leaves().len(),
        context.active().tree.leaves()[place].kind.is_trivia(),
        context.active().tree.leaves()[place].range.start < context.offset
            < context.active().tree.leaves()[place].range.end,
    ensures
        entry_type_completions(context) == Seq::<CompletionItemView>::empty(),
        user_command_completions(context) == Seq::<CompletionItemView>::empty(),
{
    lemma_cursor_in_trivia(context.active(), context.offset as int, place);
}

} // verus!
