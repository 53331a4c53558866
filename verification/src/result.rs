//! Results and patches: the initial result of a response, the incremental
//! payloads that follow it, and how a payload is applied.

use crate::apply::{edit_at, edit_document, edit_steps, Edit, EditModel};
use crate::json::{append_copies, doc_view, entries_view, items_view, Document, Json};
use crate::merge::{conflicts, merge_root, shallow_merge};
use crate::path::{path_document, path_json, path_view, resolve, PathSegment, Segment};
use vstd::prelude::*;

verus! {

/// A result as a mathematical value.
pub struct ResultModel {
    pub data: Json,
    pub errors: Seq<Json>,
    pub complete: bool,
}

/// The accumulated result of a response: the document, the errors collected so
/// far, and whether more is still to come.
#[derive(Debug, PartialEq, Eq)]
pub struct ExecutionResult {
    pub data: Document,
    /// The error objects, in the order in which they arrived. A result without
    /// errors has the empty list.
    pub errors: Vec<Document>,
    /// The result is complete when nothing more is to come.
    pub has_next: bool,
}

impl View for ExecutionResult {
    type V = ResultModel;

    open spec fn view(&self) -> ResultModel {
        ResultModel {
            data: self.data@,
            errors: items_view(self.errors@),
            complete: !self.has_next,
        }
    }
}

impl Clone for ExecutionResult {
    /// A copy with the same value.
    fn clone(&self) -> (r: Self)
        ensures
            r@ == self@,
    {
        let mut errors: Vec<Document> = Vec::new();
        assert(items_view(errors@) =~= Seq::empty());
        append_copies(&mut errors, &self.errors);
        assert(items_view(errors@) =~= items_view(self.errors@));
        ExecutionResult { data: self.data.clone(), errors, has_next: self.has_next }
    }
}

/// One incremental payload as a mathematical value.
pub enum PayloadModel {
    Defer { data: Json, errors: Seq<Json>, path: Seq<Segment> },
    Stream { items: Seq<Json>, errors: Seq<Json>, path: Seq<Segment> },
}

/// Deferred data, to be merged at a path.
#[derive(Debug, PartialEq, Eq)]
pub struct DeferPayload {
    pub data: Document,
    pub errors: Vec<Document>,
    pub path: Vec<PathSegment>,
}

/// Streamed items of a list. The path leads to the list and ends with the
/// index at which the first item goes.
#[derive(Debug, PartialEq, Eq)]
pub struct StreamPayload {
    pub items: Vec<Document>,
    pub errors: Vec<Document>,
    pub path: Vec<PathSegment>,
}

/// One incremental payload.
#[derive(Debug, PartialEq, Eq)]
pub enum IncrementalPayload {
    DeferPayload(DeferPayload),
    StreamPayload(StreamPayload),
}

impl View for IncrementalPayload {
    type V = PayloadModel;

    open spec fn view(&self) -> PayloadModel {
        match self {
            IncrementalPayload::DeferPayload(p) => PayloadModel::Defer {
                data: p.data@,
                errors: items_view(p.errors@),
                path: path_view(p.path@),
            },
            IncrementalPayload::StreamPayload(p) => PayloadModel::Stream {
                items: items_view(p.items@),
                errors: items_view(p.errors@),
                path: path_view(p.path@),
            },
        }
    }
}

/// A patch as a mathematical value.
pub struct PatchModel {
    pub complete_after_this: bool,
    pub payloads: Seq<PayloadModel>,
}

/// One incremental frame: its payloads, in order, and whether more frames
/// follow. A frame without payloads has the empty list.
#[derive(Debug, PartialEq, Eq)]
pub struct StreamedExecutionResult {
    pub has_next: bool,
    pub incremental: Vec<IncrementalPayload>,
}

/// The payloads of a list, as mathematical values.
pub open spec fn payloads_view(payloads: Seq<IncrementalPayload>) -> Seq<PayloadModel> {
    Seq::new(payloads.len(), |i: int| payloads[i]@)
}

impl View for StreamedExecutionResult {
    type V = PatchModel;

    open spec fn view(&self) -> PatchModel {
        PatchModel {
            complete_after_this: !self.has_next,
            payloads: payloads_view(self.incremental@),
        }
    }
}

/// What a frame decodes to: an initial result or a patch.
#[derive(Debug, PartialEq, Eq)]
pub enum GraphQLResult {
    ExecutionResult(ExecutionResult),
    StreamedExecutionResult(StreamedExecutionResult),
}

/// What a frame decodes to, as a mathematical value.
pub enum DecodedModel {
    Initial(ResultModel),
    Patch(PatchModel),
}

impl View for GraphQLResult {
    type V = DecodedModel;

    open spec fn view(&self) -> DecodedModel {
        match self {
            GraphQLResult::ExecutionResult(r) => DecodedModel::Initial(r@),
            GraphQLResult::StreamedExecutionResult(p) => DecodedModel::Patch(p@),
        }
    }
}

/// Why a payload's data was not applied cleanly.
#[derive(Debug, PartialEq, Eq, Clone, Copy)]
pub enum ApplyError {
    /// The path does not resolve against the document, or the node it leads to
    /// cannot take the payload. The document is unchanged.
    PathResolutionError,
    /// The deep merge overwrote a value with a different one. The last write
    /// won: the document holds the merged value.
    MergeError,
}

/// The errors that a payload carries.
pub open spec fn payload_errors(payload: PayloadModel) -> Seq<Json> {
    match payload {
        PayloadModel::Defer { errors, .. } => errors,
        PayloadModel::Stream { errors, .. } => errors,
    }
}

/// The path of a payload.
pub open spec fn payload_path(payload: PayloadModel) -> Seq<Segment> {
    match payload {
        PayloadModel::Defer { path, .. } => path,
        PayloadModel::Stream { path, .. } => path,
    }
}

/// The document after a payload's data was applied; `None` where its path does
/// not resolve.
///
/// Deferred data with the empty path is merged shallowly into the root; with
/// any other path it is merged deeply into the node the path leads to.
/// Streamed items are written into the array that the path without its last
/// step leads to, from the index that the last step gives.
pub open spec fn applied(doc: Json, payload: PayloadModel) -> Option<Json> {
    match payload {
        PayloadModel::Defer { data, path, .. } => if path.len() == 0 {
            Some(shallow_merge(doc, data))
        } else {
            edit_at(doc, path, EditModel::Merge(data))
        },
        PayloadModel::Stream { items, path, .. } => if path.len() > 0 && path.last() is Index {
            edit_at(doc, path.drop_last(), EditModel::Splice(path.last()->Index_0, items))
        } else {
            None
        },
    }
}

/// Whether applying the payload overwrites a value with a different one in a
/// deep merge.
pub open spec fn overwrote(doc: Json, payload: PayloadModel) -> bool {
    match payload {
        PayloadModel::Defer { data, path, .. } => path.len() > 0 && resolve(doc, path) is Some
            && conflicts(resolve(doc, path)->Some_0, data),
        PayloadModel::Stream { .. } => false,
    }
}

/// How applying a payload's data ends.
pub open spec fn outcome(doc: Json, payload: PayloadModel) -> Result<(), ApplyError> {
    if applied(doc, payload) is None {
        Err(ApplyError::PathResolutionError)
    } else if overwrote(doc, payload) {
        Err(ApplyError::MergeError)
    } else {
        Ok(())
    }
}

/// The document after a payload: the applied one, or the old one where the
/// path does not resolve.
pub open spec fn document_after(doc: Json, payload: PayloadModel) -> Json {
    match applied(doc, payload) {
        Some(after) => after,
        None => doc,
    }
}

/// Applies one payload: its data to the document, its errors to the end of the
/// error list.
///
/// The errors are appended whatever becomes of the data.
pub fn apply(document: &mut Document, errors: &mut Vec<Document>, payload: &IncrementalPayload) -> (r:
    Result<(), ApplyError>)
    ensures
        final(document)@ == document_after(old(document)@, payload@),
        items_view(final(errors)@) == items_view(old(errors)@) + payload_errors(payload@),
        r == outcome(old(document)@, payload@),
{
    match payload {
        IncrementalPayload::DeferPayload(p) => {
            append_copies(errors, &p.errors);
            if p.path.len() == 0 {
                merge_root(document, &p.data);
                Ok(())
            } else {
                match edit_document(document, &p.path, &Edit::Merge(&p.data)) {
                    Some(conflict) => if conflict {
                        Err(ApplyError::MergeError)
                    } else {
                        Ok(())
                    },
                    None => Err(ApplyError::PathResolutionError),
                }
            }
        },
        IncrementalPayload::StreamPayload(p) => {
            append_copies(errors, &p.errors);
            if p.path.len() == 0 {
                return Err(ApplyError::PathResolutionError);
            }
            let last = p.path.len() - 1;
            assert(path_view(p.path@).last() == p.path@[last as int]@);
            match &p.path[last] {
                PathSegment::Index(start) => {
                    assert(path_view(p.path@).subrange(0, last as int) =~= path_view(
                        p.path@,
                    ).drop_last());
                    match edit_steps(document, &p.path, 0, last, &Edit::Splice(*start, &p.items)) {
                        Some(_) => Ok(()),
                        None => Err(ApplyError::PathResolutionError),
                    }
                },
                PathSegment::Key(_) => Err(ApplyError::PathResolutionError),
            }
        },
    }
}

/// What the error list says of a payload whose data was not applied cleanly.
pub open spec fn issue_message(error: ApplyError) -> Seq<char> {
    match error {
        ApplyError::PathResolutionError => "the path of an incremental payload does not resolve"@,
        ApplyError::MergeError => "an incremental payload overwrote a value with a different one"@,
    }
}

/// The error object that records such a payload: a message, and the payload's
/// path.
pub open spec fn issue_object(error: ApplyError, path: Seq<Segment>) -> Json {
    Json::Object(
        Map::empty().insert("message"@, Json::Text(issue_message(error))).insert(
            "path"@,
            path_json(path),
        ),
    )
}

/// The error objects that a payload adds to the list beyond those it carries:
/// one where its data was not applied cleanly, none otherwise.
pub open spec fn recorded(doc: Json, payload: PayloadModel) -> Seq<Json> {
    match outcome(doc, payload) {
        Ok(_) => Seq::empty(),
        Err(error) => seq![issue_object(error, payload_path(payload))],
    }
}

/// The result after one payload: the data applied, the payload's errors
/// appended, and after them the record of a path that did not resolve or of a
/// value overwritten. Completion does not change.
pub open spec fn merged_one(state: ResultModel, payload: PayloadModel) -> ResultModel {
    ResultModel {
        data: document_after(state.data, payload),
        errors: state.errors + payload_errors(payload) + recorded(state.data, payload),
        complete: state.complete,
    }
}

/// The result after the payloads of a patch, applied in list order.
pub open spec fn merged(state: ResultModel, payloads: Seq<PayloadModel>) -> ResultModel
    decreases payloads.len(),
{
    if payloads.len() == 0 {
        state
    } else {
        merged_one(merged(state, payloads.drop_last()), payloads.last())
    }
}

/// The result marked complete.
pub open spec fn finalized(state: ResultModel) -> ResultModel {
    ResultModel { data: state.data, errors: state.errors, complete: true }
}

/// Builds the error object that records a payload whose data was not applied
/// cleanly.
pub fn issue_document(error: ApplyError, path: &Vec<PathSegment>) -> (d: Document)
    ensures
        d@ == issue_object(error, path_view(path@)),
{
    let message = match error {
        ApplyError::PathResolutionError => "the path of an incremental payload does not resolve",
        ApplyError::MergeError => "an incremental payload overwrote a value with a different one",
    };
    let mut members: Vec<(String, Document)> = Vec::new();
    members.push(("message".to_owned(), Document::String(message.to_owned())));
    members.push(("path".to_owned(), path_document(path)));
    proof {
        let first = members@.drop_last();
        assert(first.len() == 1 && first.last() == members@[0]);
        assert(first.drop_last() =~= Seq::empty());
        assert(entries_view(first.drop_last()) =~= Map::empty());
        assert(doc_view(first.last().1) == Json::Text(message@));
        assert(entries_view(first) =~= Map::empty().insert(
            "message"@,
            Json::Text(issue_message(error)),
        ));
        assert(members@.last() == members@[1]);
        assert(entries_view(members@) =~= issue_object(error, path_view(path@))->Object_0);
    }
    Document::Object(members)
}

impl ExecutionResult {
    /// Marks the result complete. Calling it again changes nothing.
    pub fn finalize(&mut self) -> (r: &mut Self)
        ensures
            r@ == finalized(old(self)@),
            *final(self) == *final(r),
    {
        self.has_next = false;
        self
    }

    /// Applies the payloads of a patch, in order. A payload whose path does not
    /// resolve leaves the document as it is and is recorded in the error list;
    /// so is one whose merge overwrote a value with a different one.
    pub fn merge(&mut self, streamed_result: &StreamedExecutionResult) -> (r: &mut Self)
        ensures
            r@ == merged(old(self)@, streamed_result@.payloads),
            *final(self) == *final(r),
    {
        let ghost start = self@;
        let ghost payloads = streamed_result@.payloads;
        let mut i: usize = 0;
        assert(payloads.take(0) =~= Seq::empty());
        while i < streamed_result.incremental.len()
            invariant
                i <= streamed_result.incremental.len(),
                payloads == payloads_view(streamed_result.incremental@),
                self@ == merged(start, payloads.take(i as int)),
            decreases streamed_result.incremental.len() - i,
        {
            let ghost before = self@;
            let payload = &streamed_result.incremental[i];
            let outcome = apply(&mut self.data, &mut self.errors, payload);
            match outcome {
                Ok(_) => {},
                Err(error) => {
                    let path = match payload {
                        IncrementalPayload::DeferPayload(p) => &p.path,
                        IncrementalPayload::StreamPayload(p) => &p.path,
                    };
                    let ghost listed = items_view(self.errors@);
                    self.errors.push(issue_document(error, path));
                    assert(items_view(self.errors@) =~= listed.push(
                        issue_object(error, payload_path(payload@)),
                    ));
                },
            }
            proof {
                let next = payloads.take(i + 1);
                assert(next.drop_last() =~= payloads.take(i as int));
                assert(next.last() == payload@);
                assert(self@.errors =~= merged_one(before, payload@).errors);
                assert(self@ == merged_one(before, payload@));
            }
            i += 1;
        }
        assert(payloads.take(streamed_result.incremental.len() as int) =~= payloads);
        self
    }
}

} // verus!
