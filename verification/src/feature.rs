//! A request on one document of a workspace.

use vstd::prelude::*;
use crate::document::DocumentView;
use crate::range::Position;
use crate::workspace::{documents_wf, related_of, Workspace};

verus! {

/// What a request for references asks about: the position of the cursor.
#[derive(Clone, Copy, Debug, PartialEq, Eq, Structural)]
pub struct ReferenceParams {
    pub position: Position,
}

/// A request with parameters `P` on one document of a workspace, together
/// with the documents related to that document.
pub struct FeatureRequest<'a, P> {
    params: P,
    workspace: &'a Workspace,
    document: usize,
    related_documents: Vec<usize>,
}

/// A request as a mathematical value.
pub struct FeatureRequestView<P> {
    /// The parameters of the request.
    pub params: P,
    /// The documents of the workspace.
    pub documents: Seq<DocumentView>,
    /// The place of the active document.
    pub document: usize,
    /// The places of the documents related to the active document.
    pub related_documents: Seq<usize>,
}

impl ReferenceParams {
    pub fn new(position: Position) -> (params: ReferenceParams)
        ensures
            params == (ReferenceParams { position }),
    {
        ReferenceParams { position }
    }
}

impl<P> FeatureRequestView<P> {
    /// The request is one on an open document, and its related documents
    /// are those of that document.
    pub open spec fn wf(self) -> bool {
        &&& documents_wf(self.documents)
        &&& self.document < self.documents.len()
        &&& self.related_documents == related_of(self.documents, self.document as int)
    }

    /// The active document.
    pub open spec fn active(self) -> DocumentView {
        self.documents[self.document as int]
    }
}

impl<'a, P> View for FeatureRequest<'a, P> {
    type V = FeatureRequestView<P>;

    closed spec fn view(&self) -> FeatureRequestView<P> {
        FeatureRequestView {
            params: self.params,
            documents: self.workspace@,
            document: self.document,
            related_documents: self.related_documents@,
        }
    }
}

impl<'a, P> FeatureRequest<'a, P> {
    /// Makes a request on the document at place `document`, if the workspace
    /// has such a document.
    pub fn new(workspace: &'a Workspace, document: usize, params: P) -> (request: Option<
        FeatureRequest<'a, P>,
    >)
        requires
            workspace.wf(),
        ensures
            request.is_some() == (document < workspace@.len()),
            request matches Some(request) ==> request@.wf() && request@ == (FeatureRequestView {
                params,
                documents: workspace@,
                document,
                related_documents: related_of(workspace@, document as int),
            }),
    {
        if document < workspace.len() {
            let related_documents = workspace.related(document);
            Some(FeatureRequest { params, workspace, document, related_documents })
        } else {
            None
        }
    }

    pub fn params(&self) -> (params: &P)
        ensures
            *params == self@.params,
    {
        &self.params
    }

    pub fn workspace(&self) -> (workspace: &'a Workspace)
        ensures
            workspace@ == self@.documents,
    {
        self.workspace
    }

    /// The place of the active document in the workspace.
    pub fn document(&self) -> (document: usize)
        ensures
            document == self@.document,
    {
        self.document
    }

    /// The places of the documents related to the active document.
    pub fn related_documents(&self) -> (related: &Vec<usize>)
        ensures
            related@ == self@.related_documents,
    {
        &self.related_documents
    }
}

} // verus!
