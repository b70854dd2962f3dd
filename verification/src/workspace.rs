//! The set of open documents and the relation between them.
//!
//! A document is linked to the documents it includes or uses as a
//! bibliography. Two documents are related when a chain of links leads from
//! one to the other, whichever way each link points.

use vstd::prelude::*;
use crate::analysis::analysis_of;
use crate::document::{links_view, Document, DocumentView};

verus! {

/// The open documents, in the order in which they were opened.
#[derive(Clone, Debug, PartialEq, Eq)]
pub struct Workspace {
    documents: Vec<Document>,
}

impl View for Workspace {
    type V = Seq<DocumentView>;

    closed spec fn view(&self) -> Seq<DocumentView> {
        self.documents@.map_values(|document: Document| document@)
    }
}

/// `from` names the identifier of `to` among its links.
pub open spec fn links_to(from: DocumentView, to: DocumentView) -> bool {
    exists|k: int| 0 <= k < from.links.len() && #[trigger] from.links[k] == to.uri
}

/// Every document is well formed and no identifier occurs twice.
pub open spec fn documents_wf(documents: Seq<DocumentView>) -> bool {
    &&& forall|i: int| 0 <= i < documents.len() ==> (#[trigger] documents[i]).wf()
    &&& forall|i: int, j: int|
        0 <= i < j < documents.len() ==> (#[trigger] documents[i]).uri != (
        #[trigger] documents[j]).uri
}

/// Document `i` has the identifier `uri`.
pub open spec fn holds(documents: Seq<DocumentView>, uri: Seq<char>, i: int) -> bool {
    0 <= i < documents.len() && documents[i].uri == uri
}

/// The place of the document with the identifier `uri`.
pub open spec fn place_of(documents: Seq<DocumentView>, uri: Seq<char>) -> Option<int> {
    if exists|i: int| holds(documents, uri, i) {
        Some(choose|i: int| holds(documents, uri, i))
    } else {
        None
    }
}

/// Among well-formed documents the place of an identifier is the one place
/// where it is found.
pub proof fn lemma_place_of(documents: Seq<DocumentView>, uri: Seq<char>, i: int)
    requires
        documents_wf(documents),
        holds(documents, uri, i),
    ensures
        place_of(documents, uri) == Some(i),
{
}

/// One of the two documents links to the other.
pub open spec fn linked(documents: Seq<DocumentView>, a: int, b: int) -> bool {
    links_to(documents[a], documents[b]) || links_to(documents[b], documents[a])
}

/// A chain of documents in which each one is linked with the next.
pub open spec fn is_path(documents: Seq<DocumentView>, path: Seq<int>) -> bool {
    &&& path.len() > 0
    &&& forall|i: int| 0 <= i < path.len() ==> 0 <= #[trigger] path[i] < documents.len()
    &&& forall|i: int| 0 < i < path.len() ==> linked(documents, path[i - 1], #[trigger] path[i])
}

/// A chain of links leads from `from` to `to`.
pub open spec fn connected(documents: Seq<DocumentView>, from: int, to: int) -> bool {
    exists|path: Seq<int>|
        #[trigger] is_path(documents, path) && path[0] == from && path.last() == to
}

/// A chain of links leads from `from` to the document at a place.
pub open spec fn is_connected_to(documents: Seq<DocumentView>, from: int) -> spec_fn(
    usize,
) -> bool {
    |to: usize| connected(documents, from, to as int)
}

/// The places from 0 up to `count`, in ascending order.
pub open spec fn places(count: nat) -> Seq<usize> {
    Seq::new(count, |i: int| i as usize)
}

/// The documents related to document `index`, in workspace order.
pub open spec fn related_of(documents: Seq<DocumentView>, index: int) -> Seq<usize> {
    places(documents.len()).filter(is_connected_to(documents, index))
}

/// Every document is related to itself.
pub proof fn lemma_connected_reflexive(documents: Seq<DocumentView>, index: int)
    requires
        0 <= index < documents.len(),
    ensures
        connected(documents, index, index),
{
    let path = seq![index];
    assert(is_path(documents, path));
}

/// If `a` is related to `b`, then `b` is related to `a`, whichever way the
/// links between them point.
pub proof fn lemma_connected_symmetric(documents: Seq<DocumentView>, a: int, b: int)
    requires
        connected(documents, a, b),
    ensures
        connected(documents, b, a),
{
    let path = choose|path: Seq<int>|
        #[trigger] is_path(documents, path) && path[0] == a && path.last() == b;
    let back = path.reverse();
    assert forall|i: int| 0 < i < back.len() implies linked(
        documents,
        back[i - 1],
        #[trigger] back[i],
    ) by {
        let j = path.len() - i;
        assert(linked(documents, path[j - 1], path[j]));
    }
    assert(is_path(documents, back));
}

/// If `a` is related to `b` and `b` to `c`, then `a` is related to `c`.
pub proof fn lemma_connected_transitive(documents: Seq<DocumentView>, a: int, b: int, c: int)
    requires
        connected(documents, a, b),
        connected(documents, b, c),
    ensures
        connected(documents, a, c),
{
    let first = choose|path: Seq<int>|
        #[trigger] is_path(documents, path) && path[0] == a && path.last() == b;
    let second = choose|path: Seq<int>|
        #[trigger] is_path(documents, path) && path[0] == b && path.last() == c;
    let path = first.drop_last() + second;
    assert forall|i: int| 0 < i < path.len() implies linked(
        documents,
        path[i - 1],
        #[trigger] path[i],
    ) by {
        let n = first.len() - 1;
        if i <= n {
            assert(linked(documents, first[i - 1], first[i]));
        } else {
            assert(linked(documents, second[i - n - 1], second[i - n]));
        }
    }
    assert(is_path(documents, path));
}

/// A document linked with a related document is related too.
proof fn lemma_connected_step(documents: Seq<DocumentView>, from: int, a: int, b: int)
    requires
        connected(documents, from, a),
        0 <= b < documents.len(),
        linked(documents, a, b),
    ensures
        connected(documents, from, b),
{
    let path = choose|path: Seq<int>|
        #[trigger] is_path(documents, path) && path[0] == from && path.last() == a;
    let longer = path.push(b);
    assert forall|i: int| 0 < i < longer.len() implies linked(
        documents,
        longer[i - 1],
        #[trigger] longer[i],
    ) by {
        if i < path.len() {
            assert(linked(documents, path[i - 1], path[i]));
        }
    }
    assert(is_path(documents, longer));
}

/// Nothing outside the workspace is related to anything.
proof fn lemma_connected_in_bounds(documents: Seq<DocumentView>, from: int, to: int)
    requires
        connected(documents, from, to),
    ensures
        0 <= from < documents.len(),
        0 <= to < documents.len(),
{
}

/// The marked documents hold every document linked with one of them.
spec fn closed(documents: Seq<DocumentView>, marked: Seq<bool>) -> bool {
    forall|a: int, b: int|
        0 <= a < documents.len() && 0 <= b < documents.len() && marked[a] && #[trigger] linked(
            documents,
            a,
            b,
        ) ==> marked[b]
}

/// A closed marking that holds the start of a chain holds all of it.
proof fn lemma_closed_holds_path(
    documents: Seq<DocumentView>,
    marked: Seq<bool>,
    path: Seq<int>,
    k: int,
)
    requires
        is_path(documents, path),
        marked.len() == documents.len(),
        closed(documents, marked),
        marked[path[0]],
        0 <= k < path.len(),
    ensures
        marked[path[k]],
    decreases k,
{
    if k > 0 {
        lemma_closed_holds_path(documents, marked, path, k - 1);
    }
}

/// The number of documents that are not marked.
spec fn unmarked(marked: Seq<bool>) -> nat
    decreases marked.len(),
{
    if marked.len() == 0 {
        0
    } else {
        unmarked(marked.drop_last()) + if marked.last() {
            0nat
        } else {
            1nat
        }
    }
}

/// Marking one more document leaves one fewer unmarked.
proof fn lemma_unmarked_update(marked: Seq<bool>, i: int)
    requires
        0 <= i < marked.len(),
        !marked[i],
    ensures
        unmarked(marked.update(i, true)) + 1 == unmarked(marked),
    decreases marked.len(),
{
    let after = marked.update(i, true);
    if i == marked.len() - 1 {
        assert(after.drop_last() =~= marked.drop_last());
    } else {
        lemma_unmarked_update(marked.drop_last(), i);
        assert(after.drop_last() =~= marked.drop_last().update(i, true));
    }
}

impl Workspace {
    /// Every document is well formed and no identifier occurs twice.
    pub open spec fn wf(&self) -> bool {
        documents_wf(self@)
    }

    /// A workspace without documents.
    pub fn new() -> (workspace: Workspace)
        ensures
            workspace.wf(),
            workspace@.len() == 0,
    {
        Workspace { documents: Vec::new() }
    }

    /// The number of open documents.
    pub fn len(&self) -> (len: usize)
        ensures
            len == self@.len(),
    {
        self.documents.len()
    }

    /// The document at `index`, if there is one.
    pub fn get(&self, index: usize) -> (document: Option<&Document>)
        ensures
            document.is_some() == (index < self@.len()),
            document matches Some(document) ==> document@ == self@[index as int],
    {
        if index < self.documents.len() {
            Some(&self.documents[index])
        } else {
            None
        }
    }

    /// Finds the document with the identifier `uri`.
    pub fn lookup(&self, uri: &String) -> (index: Option<usize>)
        ensures
            match index {
                Some(i) => holds(self@, uri@, i as int),
                None => forall|k: int| !holds(self@, uri@, k),
            },
            self.wf() ==> match index {
                Some(i) => Some(i as int),
                None => None,
            } == place_of(self@, uri@),
    {
        let mut i: usize = 0;
        while i < self.documents.len()
            invariant
                i <= self@.len(),
                self@.len() == self@.len(),
                forall|k: int| 0 <= k < i ==> !holds(self@, uri@, k),
            decreases self@.len() - i,
        {
            if *self.documents[i].uri() == *uri {
                proof {
                    if self.wf() {
                        lemma_place_of(self@, uri@, i as int);
                    }
                }
                return Some(i);
            }
            i += 1;
        }
        None
    }

    /// Opens a document. A document with the same identifier is replaced by
    /// it and keeps its place; a new one is put behind the others. No other
    /// document is touched.
    pub fn open(&mut self, document: Document) -> (index: usize)
        requires
            old(self).wf(),
            document@.wf(),
        ensures
            final(self).wf(),
            match place_of(old(self)@, document@.uri) {
                Some(i) => index == i && final(self)@ == old(self)@.update(i, document@),
                None => index == old(self)@.len() && final(self)@ == old(self)@.push(document@),
            },
    {
        let ghost before = self@;
        match self.lookup(document.uri()) {
            Some(i) => {
                self.documents.set(i, document);
                assert(self@ =~= before.update(i as int, document@));
                i
            },
            None => {
                self.documents.push(document);
                assert(self@ =~= before.push(document@));
                assert forall|a: int, b: int| 0 <= a < b < self@.len() implies (
                #[trigger] self@[a]).uri != (#[trigger] self@[b]).uri by {
                    if b == before.len() {
                        assert(!holds(before, document@.uri, a));
                    }
                }
                self.documents.len() - 1
            },
        }
    }

    /// Caches the analysis record of the document at `index`, unless it is
    /// cached already. No snapshot changes and no other document is touched.
    pub fn analyze(&mut self, index: usize)
        requires
            old(self).wf(),
        ensures
            final(self).wf(),
            index >= old(self)@.len() ==> final(self)@ == old(self)@,
            index < old(self)@.len() ==> final(self)@ == old(self)@.update(
                index as int,
                DocumentView {
                    analysis: Some(
                        analysis_of(old(self)@[index as int].text, old(self)@[index as int].tree),
                    ),
                    ..old(self)@[index as int]
                },
            ),
    {
        if index < self.documents.len() {
            let ghost before = self@;
            self.documents[index].analyze();
            assert(self@ =~= before.update(index as int, self.documents@[index as int]@));
        }
    }

    /// Closes the document with the identifier `uri`, if it is open. The
    /// documents behind it move up by one place.
    pub fn close(&mut self, uri: &String) -> (closed: bool)
        requires
            old(self).wf(),
        ensures
            final(self).wf(),
            match place_of(old(self)@, uri@) {
                Some(i) => closed && final(self)@ == old(self)@.remove(i),
                None => !closed && final(self)@ == old(self)@,
            },
    {
        let ghost before = self@;
        match self.lookup(uri) {
            Some(i) => {
                self.documents.remove(i);
                assert(self@ =~= before.remove(i as int));
                true
            },
            None => false,
        }
    }

    /// Whether document `from` names the identifier of document `to`.
    fn names(&self, from: usize, to: usize) -> (named: bool)
        requires
            from < self@.len(),
            to < self@.len(),
        ensures
            named == links_to(self@[from as int], self@[to as int]),
    {
        let links = self.documents[from].links();
        let uri = self.documents[to].uri();
        let ghost source = self@[from as int];
        let mut k: usize = 0;
        while k < links.len()
            invariant
                from < self@.len(),
                to < self@.len(),
                source == self@[from as int],
                uri@ == self@[to as int].uri,
                links_view(links@) == source.links,
                k <= links@.len(),
                forall|j: int| 0 <= j < k ==> #[trigger] source.links[j] != uri@,
            decreases links@.len() - k,
        {
            if links[k] == *uri {
                assert(source.links[k as int] == uri@);
                return true;
            }
            k += 1;
        }
        false
    }

    /// Whether one of two documents links to the other.
    pub fn is_linked(&self, a: usize, b: usize) -> (result: bool)
        requires
            a < self@.len(),
            b < self@.len(),
        ensures
            result == linked(self@, a as int, b as int),
    {
        self.names(a, b) || self.names(b, a)
    }

    /// Marks the documents related to document `index`.
    fn mark_related(&self, index: usize) -> (marked: Vec<bool>)
        ensures
            marked@.len() == self@.len(),
            forall|k: int|
                0 <= k < marked@.len() ==> marked@[k] == connected(
                    self@,
                    index as int,
                    k,
                ),
    {
        let n = self.documents.len();
        let ghost documents = self@;
        let mut marked: Vec<bool> = Vec::new();
        while marked.len() < n
            invariant
                n == documents.len(),
                marked@.len() <= n,
                forall|k: int| 0 <= k < marked@.len() ==> !marked@[k],
            decreases n - marked@.len(),
        {
            marked.push(false);
        }
        let mut pending: Vec<usize> = Vec::new();
        if index < n {
            marked.set(index, true);
            pending.push(index);
            proof {
                lemma_connected_reflexive(documents, index as int);
                assert(pending@[0] == index);
            }
        }
        while pending.len() > 0
            invariant
                documents == self@,
                n == documents.len(),
                marked@.len() == n,
                index < n ==> marked@[index as int],
                forall|k: int|
                    0 <= k < pending@.len() ==> (#[trigger] pending@[k]) < n
                        && marked@[pending@[k] as int],
                forall|a: int|
                    0 <= a < n && #[trigger] marked@[a] ==> connected(documents, index as int, a),
                forall|a: int, b: int|
                    0 <= a < n && 0 <= b < n && marked@[a] && #[trigger] linked(documents, a, b)
                        ==> marked@[b] || pending@.contains(a as usize),
            decreases 2 * unmarked(marked@) + pending@.len(),
        {
            let ghost before = 2 * unmarked(marked@) + pending@.len();
            let ghost waiting = pending@;
            let a = pending.pop().unwrap();
            assert forall|x: int, y: int|
                0 <= x < n && 0 <= y < n && marked@[x] && #[trigger] linked(
                    documents,
                    x,
                    y,
                ) implies marked@[y] || pending@.contains(x as usize) || x == a by {
                if !marked@[y] && x != a {
                    let k = choose|k: int| 0 <= k < waiting.len() && waiting[k] == x as usize;
                    assert(pending@[k] == x as usize);
                }
            }
            let mut b: usize = 0;
            while b < n
                invariant
                    documents == self@,
                    n == documents.len(),
                    marked@.len() == n,
                    a < n,
                    b <= n,
                    index < n ==> marked@[index as int],
                    forall|k: int|
                        0 <= k < pending@.len() ==> (#[trigger] pending@[k]) < n
                            && marked@[pending@[k] as int],
                    forall|x: int|
                        0 <= x < n && #[trigger] marked@[x] ==> connected(
                            documents,
                            index as int,
                            x,
                        ),
                    connected(documents, index as int, a as int),
                    forall|x: int, y: int|
                        0 <= x < n && 0 <= y < n && marked@[x] && #[trigger] linked(documents, x, y)
                            ==> marked@[y] || pending@.contains(x as usize) || (x == a && y >= b),
                    2 * unmarked(marked@) + pending@.len() < before,
                decreases n - b,
            {
                if !marked[b] && self.is_linked(a, b) {
                    proof {
                        lemma_unmarked_update(marked@, b as int);
                        lemma_connected_step(documents, index as int, a as int, b as int);
                    }
                    let ghost earlier = pending@;
                    marked.set(b, true);
                    pending.push(b);
                    assert forall|x: int, y: int|
                        0 <= x < n && 0 <= y < n && marked@[x] && #[trigger] linked(
                            documents,
                            x,
                            y,
                        ) implies marked@[y] || pending@.contains(x as usize) || (x == a && y >= b
                        + 1) by {
                        if x == b {
                            assert(pending@[pending@.len() - 1] == b);
                        } else if earlier.contains(x as usize) {
                            let k = choose|k: int|
                                0 <= k < earlier.len() && earlier[k] == x as usize;
                            assert(pending@[k] == x as usize);
                        }
                    }
                }
                b += 1;
            }
        }
        proof {
            assert(closed(documents, marked@));
            assert forall|k: int| 0 <= k < marked@.len() implies marked@[k] == connected(
                documents,
                index as int,
                k,
            ) by {
                if connected(documents, index as int, k) {
                    let path = choose|path: Seq<int>|
                        #[trigger] is_path(documents, path) && path[0] == index as int
                            && path.last() == k;
                    lemma_closed_holds_path(documents, marked@, path, path.len() - 1);
                }
            }
        }
        marked
    }

    /// The documents related to document `index`: those that a chain of
    /// links connects with it, itself among them, in workspace order.
    pub fn related(&self, index: usize) -> (related: Vec<usize>)
        ensures
            related@ == related_of(self@, index as int),
    {
        let marked = self.mark_related(index);
        let ghost all = places(self@.len());
        let ghost wanted = is_connected_to(self@, index as int);
        let mut related: Vec<usize> = Vec::new();
        let mut i: usize = 0;
        while i < marked.len()
            invariant
                i <= marked@.len(),
                marked@.len() == self@.len(),
                all == places(self@.len()),
                wanted == is_connected_to(self@, index as int),
                forall|k: int|
                    0 <= k < marked@.len() ==> marked@[k] == connected(
                        self@,
                        index as int,
                        k,
                    ),
                related@ == all.take(i as int).filter(wanted),
            decreases marked@.len() - i,
        {
            proof {
                all.lemma_take_succ_push(i as int);
                all.take(i as int).lemma_filter_push(i, wanted);
            }
            if marked[i] {
                related.push(i);
            }
            i += 1;
        }
        proof {
            all.lemma_take_len();
        }
        related
    }
}

/// The documents that `related_of` gives are open documents connected with
/// `index`, and every open document connected with `index` is among them.
pub proof fn lemma_related_of(documents: Seq<DocumentView>, index: int)
    ensures
        forall|k: int|
            0 <= k < related_of(documents, index).len() ==> (#[trigger] related_of(
                documents,
                index,
            )[k]) < documents.len() && connected(
                documents,
                index,
                related_of(documents, index)[k] as int,
            ),
        forall|to: usize|
            to < documents.len() && connected(documents, index, to as int) ==> related_of(
                documents,
                index,
            ).contains(to),
{
    let all = places(documents.len());
    let wanted = is_connected_to(documents, index);
    let related = related_of(documents, index);
    assert forall|k: int| 0 <= k < related.len() implies (#[trigger] related[k]) < documents.len()
        && connected(documents, index, related[k] as int) by {
        all.lemma_filter_pred(wanted, k);
        lemma_connected_in_bounds(documents, index, related[k] as int);
    }
    assert forall|to: usize|
        to < documents.len() && connected(documents, index, to as int) implies related.contains(
        to,
    ) by {
        all.lemma_filter_contains(wanted, to as int);
    }
}

/// The places from 0 up to `count` that `wanted` keeps come in ascending
/// order.
proof fn lemma_kept_ascending(count: nat, wanted: spec_fn(usize) -> bool)
    requires
        count <= usize::MAX,
    ensures
        forall|i: int|
            0 <= i < places(count).filter(wanted).len() ==> (#[trigger] places(count).filter(
                wanted,
            )[i]) < count,
        forall|i: int, j: int|
            0 <= i < j < places(count).filter(wanted).len() ==> (#[trigger] places(count).filter(
                wanted,
            )[i]) < (#[trigger] places(count).filter(wanted)[j]),
    decreases count,
{
    let all = places(count);
    if count == 0 {
        all.lemma_filter_len(wanted);
    } else {
        let shorter = places((count - 1) as nat);
        lemma_kept_ascending((count - 1) as nat, wanted);
        assert(all =~= shorter.push((count - 1) as usize));
        shorter.lemma_filter_push((count - 1) as usize, wanted);
    }
}

/// The documents that `related_of` gives come in the order of the
/// workspace, each of them once.
pub proof fn lemma_related_ascending(documents: Seq<DocumentView>, index: int)
    requires
        documents.len() <= usize::MAX,
    ensures
        forall|i: int, j: int|
            0 <= i < j < related_of(documents, index).len() ==> (#[trigger] related_of(
                documents,
                index,
            )[i]) < (#[trigger] related_of(documents, index)[j]),
{
    lemma_kept_ascending(documents.len(), is_connected_to(documents, index));
}

/// The documents related to an open document hold that document itself.
pub proof fn lemma_related_reflexive(documents: Seq<DocumentView>, index: usize)
    requires
        index < documents.len(),
    ensures
        related_of(documents, index as int).contains(index),
{
    lemma_connected_reflexive(documents, index as int);
    lemma_related_of(documents, index as int);
}

/// If `b` is among the documents related to `a`, then `a` is among the
/// documents related to `b`.
pub proof fn lemma_related_symmetric(documents: Seq<DocumentView>, a: usize, b: usize)
    requires
        related_of(documents, a as int).contains(b),
    ensures
        related_of(documents, b as int).contains(a),
{
    lemma_related_of(documents, a as int);
    let k = choose|k: int|
        0 <= k < related_of(documents, a as int).len() && related_of(documents, a as int)[k] == b;
    lemma_connected_symmetric(documents, a as int, b as int);
    lemma_connected_in_bounds(documents, b as int, a as int);
    lemma_related_of(documents, b as int);
}

} // verus!
