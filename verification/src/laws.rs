//! Laws that the merge rules and the accumulator obey.

use crate::accumulator::{accepted, closed, AccumulatorModel};
use crate::apply::{edited, EditModel};
use crate::decode::decoded_text;
use crate::json::Json;
use crate::merge::{deep_merge, shallow_merge, spliced};
use crate::parse::{closing_frame, event_frame, event_marker, Frame};
use crate::scan::{lemma_first_line, line_at};
use crate::path::{lemma_resolve_replaced, replace_at, resolve, Segment};
use crate::result::{
    applied, document_after, finalized, merged, merged_one, DecodedModel, PayloadModel,
    ResultModel,
};
use vstd::prelude::*;

verus! {

/// A value that is neither an object nor an array.
pub open spec fn is_leaf(value: Json) -> bool {
    !(value is Object) && !(value is Array)
}

/// Completing a result twice is the same as completing it once.
pub proof fn lemma_finalize_idempotent(state: ResultModel)
    ensures
        finalized(finalized(state)) == finalized(state),
{
}

/// A patch without payloads leaves the result as it is.
pub proof fn lemma_merged_nothing(state: ResultModel)
    ensures
        merged(state, Seq::empty()) == state,
{
}

/// A result that no patch follows ends with its own data and errors, and
/// complete.
pub proof fn lemma_initial_alone(state: ResultModel)
    ensures
        finalized(merged(state, Seq::empty())) == (ResultModel {
            data: state.data,
            errors: state.errors,
            complete: true,
        }),
{
}

/// An accumulator that is given one frame with an initial result, and then
/// the end of the stream, holds that result's data and errors, complete.
pub proof fn lemma_accumulate_initial_alone(text: Seq<u8>, terminal: bool, initial: ResultModel)
    requires
        text.len() > 0,
        decoded_text(text) == Some(DecodedModel::Initial(initial)),
    ensures
        closed(
            accepted(AccumulatorModel { result: None, done: false }, Frame { text, terminal }),
        ) == (AccumulatorModel {
            result: Some(
                ResultModel { data: initial.data, errors: initial.errors, complete: true },
            ),
            done: true,
        }),
{
}

/// Deep merge of an object with a leaf under `key` gives an object with this
/// leaf under `key`.
proof fn lemma_merge_leaf(node: Json, data: Map<Seq<char>, Json>, key: Seq<char>)
    requires
        data.contains_key(key),
        is_leaf(data[key]),
    ensures
        deep_merge(node, Json::Object(data)) matches Json::Object(members) && members.contains_key(
            key,
        ) && members[key] == data[key],
{
    match node {
        Json::Object(existing) => {
            if existing.contains_key(key) {
                assert(deep_merge(existing[key], data[key]) == data[key]);
            }
        },
        _ => {},
    }
}

/// A deferred payload is applied at `path`: the path resolves, and to an
/// object where it is the root path, on which alone a shallow merge writes.
pub open spec fn takes_deferred(doc: Json, path: Seq<Segment>) -> bool {
    if path.len() == 0 {
        doc is Object
    } else {
        resolve(doc, path) is Some
    }
}

/// Deferred data with a leaf under `key`, applied at `path`, leaves an object
/// at `path` that holds this leaf under `key`.
proof fn lemma_defer_sets_leaf(
    doc: Json,
    path: Seq<Segment>,
    key: Seq<char>,
    data: Map<Seq<char>, Json>,
    errors: Seq<Json>,
)
    requires
        takes_deferred(doc, path),
        data.contains_key(key),
        is_leaf(data[key]),
    ensures
        ({
            let after = document_after(
                doc,
                PayloadModel::Defer { data: Json::Object(data), errors, path },
            );
            &&& resolve(after, path) matches Some(node)
            &&& node matches Json::Object(members)
            &&& members.contains_key(key)
            &&& members[key] == data[key]
        }),
{
    let payload = PayloadModel::Defer { data: Json::Object(data), errors, path };
    if path.len() == 0 {
        let after = shallow_merge(doc, Json::Object(data));
        assert(applied(doc, payload) == Some(after));
        assert(resolve(after, path) == Some(after));
    } else {
        let node = resolve(doc, path)->Some_0;
        let merged_node = deep_merge(node, Json::Object(data));
        assert(edited(node, EditModel::Merge(Json::Object(data))) == Some(merged_node));
        assert(applied(doc, payload) == Some(replace_at(doc, path, merged_node)));
        lemma_resolve_replaced(doc, path, merged_node);
        lemma_merge_leaf(node, data, key);
    }
}

/// Order matters: two deferred payloads for the same path that set the same
/// key to different leaves give different documents in the two orders, where
/// the document takes them.
pub proof fn lemma_order_matters(
    doc: Json,
    path: Seq<Segment>,
    key: Seq<char>,
    first: Map<Seq<char>, Json>,
    second: Map<Seq<char>, Json>,
    first_errors: Seq<Json>,
    second_errors: Seq<Json>,
)
    requires
        takes_deferred(doc, path),
        first.contains_key(key),
        second.contains_key(key),
        is_leaf(first[key]),
        is_leaf(second[key]),
        first[key] != second[key],
    ensures
        ({
            let one = PayloadModel::Defer { data: Json::Object(first), errors: first_errors, path };
            let other = PayloadModel::Defer { data: Json::Object(second), errors: second_errors, path };
            document_after(document_after(doc, one), other) != document_after(
                document_after(doc, other),
                one,
            )
        }),
{
    let one = PayloadModel::Defer { data: Json::Object(first), errors: first_errors, path };
    let other = PayloadModel::Defer { data: Json::Object(second), errors: second_errors, path };
    lemma_defer_sets_leaf(doc, path, key, first, first_errors);
    lemma_defer_sets_leaf(doc, path, key, second, second_errors);
    lemma_defer_sets_leaf(document_after(doc, one), path, key, second, second_errors);
    lemma_defer_sets_leaf(document_after(doc, other), path, key, first, first_errors);
}

/// The same for results: merging the two payloads as patches of one payload
/// each gives different data in the two orders.
pub proof fn lemma_patch_order_matters(
    state: ResultModel,
    path: Seq<Segment>,
    key: Seq<char>,
    first: Map<Seq<char>, Json>,
    second: Map<Seq<char>, Json>,
    first_errors: Seq<Json>,
    second_errors: Seq<Json>,
)
    requires
        takes_deferred(state.data, path),
        first.contains_key(key),
        second.contains_key(key),
        is_leaf(first[key]),
        is_leaf(second[key]),
        first[key] != second[key],
    ensures
        ({
            let one = PayloadModel::Defer { data: Json::Object(first), errors: first_errors, path };
            let other = PayloadModel::Defer { data: Json::Object(second), errors: second_errors, path };
            merged(merged(state, seq![one]), seq![other]).data != merged(
                merged(state, seq![other]),
                seq![one],
            ).data
        }),
{
    let one = PayloadModel::Defer { data: Json::Object(first), errors: first_errors, path };
    let other = PayloadModel::Defer { data: Json::Object(second), errors: second_errors, path };
    lemma_merged_single(state, one);
    lemma_merged_single(state, other);
    lemma_merged_single(merged(state, seq![one]), other);
    lemma_merged_single(merged(state, seq![other]), one);
    lemma_order_matters(state.data, path, key, first, second, first_errors, second_errors);
}

/// A patch of one payload merges as that payload does.
pub proof fn lemma_merged_single(state: ResultModel, payload: PayloadModel)
    ensures
        merged(state, seq![payload]) == merged_one(state, payload),
{
    let one = seq![payload];
    assert(one.drop_last() =~= Seq::empty());
    assert(merged(state, one.drop_last()) == state);
}

/// Payloads are applied in list order: a patch merges as its payloads but the
/// last do, and then the last.
pub proof fn lemma_merged_in_order(state: ResultModel, payloads: Seq<PayloadModel>)
    requires
        payloads.len() > 0,
    ensures
        merged(state, payloads) == merged_one(
            merged(state, payloads.drop_last()),
            payloads.last(),
        ),
{
}

/// Streamed items that start one past the end of a list are appended to it,
/// in their order.
pub proof fn lemma_stream_appends(existing: Seq<Json>, items: Seq<Json>)
    ensures
        spliced(existing, existing.len() as int, items) == existing + items,
{
    assert(spliced(existing, existing.len() as int, items) =~= existing + items);
}

/// Deep merge keeps what the incoming object does not mention, takes what the
/// existing object does not have, and merges what both have.
pub proof fn lemma_deep_merge_members(
    existing: Map<Seq<char>, Json>,
    incoming: Map<Seq<char>, Json>,
    key: Seq<char>,
)
    ensures
        ({
            let result = deep_merge(Json::Object(existing), Json::Object(incoming))->Object_0;
            &&& result.contains_key(key) <==> existing.contains_key(key) || incoming.contains_key(key)
            &&& existing.contains_key(key) && !incoming.contains_key(key) ==> result[key]
                == existing[key]
            &&& !existing.contains_key(key) && incoming.contains_key(key) ==> result[key]
                == incoming[key]
            &&& existing.contains_key(key) && incoming.contains_key(key) ==> result[key]
                == deep_merge(existing[key], incoming[key])
        }),
{
}

/// Shallow merge at the root overwrites whole members: the incoming member
/// takes the place of the existing one and is not merged into it.
/// Members that the data does not mention stay.
pub proof fn lemma_shallow_merge_members(
    root: Map<Seq<char>, Json>,
    data: Map<Seq<char>, Json>,
    key: Seq<char>,
)
    ensures
        ({
            let result = shallow_merge(Json::Object(root), Json::Object(data))->Object_0;
            &&& result.contains_key(key) <==> root.contains_key(key) || data.contains_key(key)
            &&& data.contains_key(key) ==> result[key] == data[key]
            &&& root.contains_key(key) && !data.contains_key(key) ==> result[key] == root[key]
        }),
{
}

/// Merging a patch does not change whether the result is complete.
pub proof fn lemma_merged_keeps_completion(state: ResultModel, payloads: Seq<PayloadModel>)
    ensures
        merged(state, payloads).complete == state.complete,
    decreases payloads.len(),
{
    if payloads.len() > 0 {
        lemma_merged_keeps_completion(state, payloads.drop_last());
    }
}

/// Merging a patch never overwrites an error: the errors held before are the
/// first of the errors held after, in their order.
pub proof fn lemma_errors_only_grow(state: ResultModel, payloads: Seq<PayloadModel>)
    ensures
        state.errors.is_prefix_of(merged(state, payloads).errors),
    decreases payloads.len(),
{
    if payloads.len() > 0 {
        lemma_errors_only_grow(state, payloads.drop_last());
        let before = merged(state, payloads.drop_last());
        let after = merged_one(before, payloads.last());
        assert(before.errors.is_prefix_of(after.errors));
    }
}

/// Once done, an accumulator accepts nothing: every frame leaves it as it is,
/// and so does the end of the stream.
pub proof fn lemma_done_is_final(state: AccumulatorModel, frame: Frame)
    requires
        state.done,
    ensures
        accepted(state, frame) == state,
        closed(state) == state,
{
}

/// The end of the stream leaves the accumulator done, and its result, if it
/// holds one, complete.
pub proof fn lemma_closed_is_complete(state: AccumulatorModel)
    requires
        !state.done,
    ensures
        closed(state).done,
        closed(state).result matches Some(held) ==> held.complete,
{
}

/// A shallow merge writes members on an object: where the root or the data is
/// no object, the root stays as it is.
pub proof fn lemma_shallow_merge_needs_objects(root: Json, data: Json)
    requires
        !(root is Object) || !(data is Object),
    ensures
        shallow_merge(root, data) == root,
{
}

/// A terminal frame ends the accumulation, with or without text: the
/// accumulator is done, and its result, if it holds one, complete.
pub proof fn lemma_terminal_frame_ends(state: AccumulatorModel, text: Seq<u8>)
    requires
        !state.done,
    ensures
        accepted(state, Frame { text, terminal: true }).done,
        accepted(state, Frame { text, terminal: true }).result matches Some(held)
            ==> held.complete,
        accepted(state, Frame { text: Seq::empty(), terminal: true }) == closed(state),
{
}

/// A frame that is not terminal and has no text is passed over.
pub proof fn lemma_empty_frame_passed_over(state: AccumulatorModel)
    ensures
        accepted(state, Frame { text: Seq::empty(), terminal: false }) == state,
{
}

/// An event is read as terminal exactly when none of its lines is
/// `event: next`; words that stand elsewhere in a line do not count.
pub proof fn lemma_event_line_decides(chunk: Seq<u8>)
    ensures
        (event_frame(chunk) matches Ok(frame) && frame.terminal) <==> (forall|i: int|
            !line_at(chunk, event_marker(), i, true)),
        (forall|i: int| !line_at(chunk, event_marker(), i, true)) ==> event_frame(chunk) == Ok::<
            Frame,
            crate::parse::FramingError,
        >(closing_frame()),
{
    lemma_first_line(chunk, event_marker(), 0, true);
}

} // verus!
