//! Decoding: from the text of a frame to an initial result or a patch.

use crate::json::{append_copies, doc_view, entries_view, items_view, Document, Json};
use crate::path::{path_view, PathSegment, Segment};
use crate::result::{
    payloads_view, DecodedModel, DeferPayload, ExecutionResult, GraphQLResult, IncrementalPayload,
    PatchModel, PayloadModel, ResultModel, StreamPayload, StreamedExecutionResult,
};
use vstd::prelude::*;
use vstd::slice::slice_to_vec;
use vstd::string::StrSliceExecFns;

verus! {

/// `serde_json::Value`, carried through as it is: nothing is known of what is
/// inside but through the two functions below.
#[verifier::external_type_specification]
#[verifier::external_body]
pub struct ExValue(serde_json::Value);

/// `serde_json::Error`, carried through as it is.
#[verifier::external_type_specification]
#[verifier::external_body]
pub struct ExJsonError(serde_json::Error);

/// The JSON value that a `serde_json::Value` holds.
pub uninterp spec fn value_json(value: serde_json::Value) -> Json;

/// The JSON value that `serde_json::from_slice` reads from a text; `None` where
/// it refuses the text.
pub uninterp spec fn parsed_json(text: Seq<u8>) -> Option<Json>;

/// One level of a `serde_json::Value`: its kind, its scalar content, and its
/// children as they are.
pub enum Node<'a> {
    Null,
    Bool(bool),
    Number(String),
    String(String),
    Array(Vec<&'a serde_json::Value>),
    Object(Vec<(String, &'a serde_json::Value)>),
}

/// The object that a list of members of a `serde_json::Value` stands for.
pub open spec fn members_json(members: Seq<(String, &serde_json::Value)>) -> Map<Seq<char>, Json>
    decreases members.len(),
{
    if members.len() == 0 {
        Map::empty()
    } else {
        members_json(members.drop_last()).insert(members.last().0@, value_json(*members.last().1))
    }
}

/// No two members carry the same key.
pub open spec fn distinct_keys(members: Seq<(String, &serde_json::Value)>) -> bool {
    forall|i: int, j: int|
        0 <= i < j < members.len() ==> (#[trigger] members[i]).0@ != (#[trigger] members[j]).0@
}

/// The JSON value of one level, its children taken by what they hold.
pub open spec fn node_json(node: Node) -> Json {
    match node {
        Node::Null => Json::Null,
        Node::Bool(b) => Json::Bool(b),
        Node::Number(n) => Json::Number(n@),
        Node::String(s) => Json::Text(s@),
        Node::Array(items) => Json::Array(Seq::new(items@.len(), |i: int| value_json(*items@[i]))),
        Node::Object(members) => Json::Object(members_json(members@)),
    }
}

/// Calls `serde_json::from_slice` for a `serde_json::Value`. The contract says
/// that the value read is the one named by `parsed_json` for this text, and
/// that an error means there is none.
#[verifier::external_body]
fn parse_value(text: &[u8]) -> (r: Result<serde_json::Value, serde_json::Error>)
    ensures
        match r {
            Ok(value) => parsed_json(text@) == Some(value_json(value)),
            Err(_) => parsed_json(text@) is None,
        },
{
    serde_json::from_slice::<serde_json::Value>(text)
}

/// Takes a `serde_json::Value` apart by one level, matching on its variants. A
/// number is given as the text that its `Display` writes, an object as the
/// members that its map iterates over. The contract says that the level and its
/// children together hold what the value holds, and that the members of an
/// object have distinct keys, as the entries of a map do.
#[verifier::external_body]
fn open_value<'a>(value: &'a serde_json::Value) -> (node: Node<'a>)
    ensures
        node_json(node) == value_json(*value),
        node matches Node::Object(members) ==> distinct_keys(members@),
{
    match value {
        serde_json::Value::Null => Node::Null,
        serde_json::Value::Bool(b) => Node::Bool(*b),
        serde_json::Value::Number(n) => Node::Number(n.to_string()),
        serde_json::Value::String(s) => Node::String(s.clone()),
        serde_json::Value::Array(items) => Node::Array(items.iter().collect()),
        serde_json::Value::Object(map) => Node::Object(
            map.iter().map(|(k, v)| (k.clone(), v)).collect(),
        ),
    }
}

/// Every member's value is the object's value at its key, where keys are
/// distinct.
proof fn lemma_member_value(members: Seq<(String, &serde_json::Value)>, j: int)
    requires
        distinct_keys(members),
        0 <= j < members.len(),
    ensures
        members_json(members).contains_key(members[j].0@),
        members_json(members)[members[j].0@] == value_json(*members[j].1),
        members_json(members).dom().finite(),
    decreases members.len(),
{
    lemma_members_finite(members);
    if j < members.len() - 1 {
        let init = members.drop_last();
        assert(init[j] == members[j]);
        assert(distinct_keys(init)) by {
            assert forall|a: int, b: int| 0 <= a < b < init.len() implies (#[trigger] init[a]).0@ != (
            #[trigger] init[b]).0@ by {
                assert(init[a] == members[a]);
                assert(init[b] == members[b]);
            }
        }
        lemma_member_value(init, j);
        assert(members.last() == members[members.len() - 1]);
    }
}

/// An object built from a list of members has finitely many keys.
proof fn lemma_members_finite(members: Seq<(String, &serde_json::Value)>)
    ensures
        members_json(members).dom().finite(),
    decreases members.len(),
{
    if members.len() > 0 {
        lemma_members_finite(members.drop_last());
    }
}

/// Members decoded place by place stand for the same object.
proof fn lemma_members_same(
    members: Seq<(String, &serde_json::Value)>,
    entries: Seq<(String, Document)>,
)
    requires
        members.len() == entries.len(),
        forall|j: int| 0 <= j < members.len() ==> (#[trigger] entries[j]).0@ == members[j].0@,
        forall|j: int|
            0 <= j < members.len() ==> doc_view((#[trigger] entries[j]).1) == value_json(
                *members[j].1,
            ),
    ensures
        entries_view(entries) == members_json(members),
    decreases members.len(),
{
    if members.len() > 0 {
        let mi = members.drop_last();
        let ei = entries.drop_last();
        assert forall|j: int| 0 <= j < mi.len() implies (#[trigger] ei[j]).0@ == mi[j].0@ by {
            assert(ei[j] == entries[j]);
        }
        assert forall|j: int| 0 <= j < mi.len() implies doc_view((#[trigger] ei[j]).1) == value_json(
            *mi[j].1,
        ) by {
            assert(ei[j] == entries[j]);
        }
        lemma_members_same(mi, ei);
        assert(entries.last() == entries[entries.len() - 1]);
    }
}

/// Copies what a `serde_json::Value` holds into a document.
fn document_of(value: &serde_json::Value) -> (d: Document)
    ensures
        d@ == value_json(*value),
    decreases value_json(*value),
{
    match open_value(value) {
        Node::Null => Document::Null,
        Node::Bool(b) => Document::Bool(b),
        Node::Number(n) => Document::Number(n),
        Node::String(s) => Document::String(s),
        Node::Array(items) => {
            let mut copy: Vec<Document> = Vec::new();
            let mut i: usize = 0;
            while i < items.len()
                invariant
                    i <= items.len(),
                    copy.len() == i,
                    value_json(*value) == Json::Array(
                        Seq::new(items@.len(), |k: int| value_json(*items@[k])),
                    ),
                    forall|j: int| 0 <= j < i ==> doc_view(#[trigger] copy@[j]) == value_json(*items@[j]),
                decreases items.len() - i,
            {
                assert(decreases_to!(value_json(*value) => value_json(*value)->Array_0[i as int]));
                copy.push(document_of(items[i]));
                i += 1;
            }
            assert(items_view(copy@) =~= value_json(*value)->Array_0);
            Document::Array(copy)
        },
        Node::Object(members) => {
            let mut copy: Vec<(String, Document)> = Vec::new();
            let mut i: usize = 0;
            while i < members.len()
                invariant
                    i <= members.len(),
                    copy.len() == i,
                    distinct_keys(members@),
                    value_json(*value) == Json::Object(members_json(members@)),
                    forall|j: int| 0 <= j < i ==> (#[trigger] copy@[j]).0@ == members@[j].0@,
                    forall|j: int|
                        0 <= j < i ==> doc_view((#[trigger] copy@[j]).1) == value_json(
                            *members@[j].1,
                        ),
                decreases members.len() - i,
            {
                proof {
                    lemma_member_value(members@, i as int);
                    let whole = value_json(*value)->Object_0;
                    let key = members@[i as int].0@;
                    assert(decreases_to!(value_json(*value) => whole));
                    assert(decreases_to!(whole => whole[key]));
                }
                copy.push((members[i].0.clone(), document_of(members[i].1)));
                i += 1;
            }
            proof {
                lemma_members_same(members@, copy@);
            }
            Document::Object(copy)
        },
    }
}

/// The value of a decimal digit; `None` for any other character.
pub open spec fn digit_value(c: char) -> Option<nat> {
    if c == '0' {
        Some(0)
    } else if c == '1' {
        Some(1)
    } else if c == '2' {
        Some(2)
    } else if c == '3' {
        Some(3)
    } else if c == '4' {
        Some(4)
    } else if c == '5' {
        Some(5)
    } else if c == '6' {
        Some(6)
    } else if c == '7' {
        Some(7)
    } else if c == '8' {
        Some(8)
    } else if c == '9' {
        Some(9)
    } else {
        None
    }
}

/// Every character of the text is a decimal digit.
pub open spec fn all_digits(text: Seq<char>) -> bool {
    forall|i: int| 0 <= i < text.len() ==> digit_value(#[trigger] text[i]) is Some
}

/// The number that a text of decimal digits writes.
pub open spec fn digits_number(text: Seq<char>) -> nat
    decreases text.len(),
{
    if text.len() == 0 {
        0
    } else {
        digits_number(text.drop_last()) * 10 + match digit_value(text.last()) {
            Some(d) => d,
            None => 0,
        }
    }
}

/// The array index that the text of a JSON number gives: the number, where the
/// text is made of decimal digits alone and the number fits the machine's
/// index type.
pub open spec fn index_of(text: Seq<char>) -> Option<nat> {
    if text.len() > 0 && all_digits(text) && digits_number(text) <= usize::MAX {
        Some(digits_number(text))
    } else {
        None
    }
}

/// A longer text of digits does not write a smaller number.
proof fn lemma_digits_grow(text: Seq<char>, i: int)
    requires
        0 <= i <= text.len(),
    ensures
        digits_number(text.take(i)) <= digits_number(text),
    decreases text.len() - i,
{
    if i < text.len() {
        lemma_digits_grow(text, i + 1);
        assert(text.take(i + 1).drop_last() =~= text.take(i));
    } else {
        assert(text.take(i) =~= text);
    }
}

/// The value of a decimal digit.
fn digit_of(c: char) -> (r: Option<usize>)
    ensures
        match digit_value(c) {
            Some(d) => r == Some(d as usize) && d < 10,
            None => r is None,
        },
{
    if c == '0' {
        Some(0)
    } else if c == '1' {
        Some(1)
    } else if c == '2' {
        Some(2)
    } else if c == '3' {
        Some(3)
    } else if c == '4' {
        Some(4)
    } else if c == '5' {
        Some(5)
    } else if c == '6' {
        Some(6)
    } else if c == '7' {
        Some(7)
    } else if c == '8' {
        Some(8)
    } else if c == '9' {
        Some(9)
    } else {
        None
    }
}

/// Reads an array index from the text of a JSON number.
pub fn parse_index(text: &String) -> (r: Option<usize>)
    ensures
        match index_of(text@) {
            Some(n) => r == Some(n as usize),
            None => r is None,
        },
{
    let chars = text.as_str();
    let len = chars.unicode_len();
    if len == 0 {
        return None;
    }
    let mut value: usize = 0;
    let mut i: usize = 0;
    assert(text@.take(0) =~= Seq::empty());
    while i < len
        invariant
            i <= len,
            len == text@.len(),
            chars@ == text@,
            all_digits(text@.take(i as int)),
            value == digits_number(text@.take(i as int)),
        decreases len - i,
    {
        let c = chars.get_char(i);
        proof {
            assert(text@.take(i + 1).drop_last() =~= text@.take(i as int));
            assert(text@.take(i + 1).last() == text@[i as int]);
            lemma_digits_grow(text@, i + 1);
        }
        match digit_of(c) {
            Some(d) => {
                if value > usize::MAX / 10 {
                    return None;
                }
                let shifted = value * 10;
                if d > usize::MAX - shifted {
                    return None;
                }
                value = shifted + d;
                assert forall|j: int| 0 <= j < i + 1 implies digit_value(
                    #[trigger] text@.take(i + 1)[j],
                ) is Some by {
                    if j < i {
                        assert(text@.take(i as int)[j] == text@[j]);
                    }
                }
            },
            None => {
                return None;
            },
        }
        i += 1;
    }
    assert(text@.take(len as int) =~= text@);
    Some(value)
}

/// The step of a path that a JSON value gives: a string is a field name, a
/// number that reads as an index is an index, nothing else is a step.
pub open spec fn decoded_segment(json: Json) -> Option<Segment> {
    match json {
        Json::Text(k) => Some(Segment::Key(k)),
        Json::Number(t) => match index_of(t) {
            Some(n) => Some(Segment::Index(n)),
            None => None,
        },
        _ => None,
    }
}

/// The path that a JSON value gives: an array whose elements all are steps.
pub open spec fn decoded_path(json: Json) -> Option<Seq<Segment>> {
    match json {
        Json::Array(steps) => if forall|i: int|
            0 <= i < steps.len() ==> decoded_segment(#[trigger] steps[i]) is Some {
            Some(Seq::new(steps.len(), |i: int| decoded_segment(steps[i])->Some_0))
        } else {
            None
        },
        _ => None,
    }
}

/// The list under a key that may be left out: empty where the key is absent or
/// null, the array where it holds one, and no list for any other value.
pub open spec fn optional_list(members: Map<Seq<char>, Json>, key: Seq<char>) -> Option<Seq<Json>> {
    if !members.contains_key(key) {
        Some(Seq::empty())
    } else {
        match members[key] {
            Json::Null => Some(Seq::empty()),
            Json::Array(list) => Some(list),
            _ => None,
        }
    }
}

/// The path of a payload: the member `path`, which must be there.
pub open spec fn member_path(members: Map<Seq<char>, Json>) -> Option<Seq<Segment>> {
    if members.contains_key("path"@) {
        decoded_path(members["path"@])
    } else {
        None
    }
}

/// The payload that a JSON value gives. An object with a member `items` is a
/// stream payload, one without it and with a member `data` is a defer payload;
/// either needs a path, and its errors, where it has any, in an array.
pub open spec fn decoded_payload(json: Json) -> Option<PayloadModel> {
    match json {
        Json::Object(members) => if members.contains_key("items"@) {
            match (members["items"@], member_path(members), optional_list(members, "errors"@)) {
                (Json::Array(items), Some(path), Some(errors)) => Some(
                    PayloadModel::Stream { items, errors, path },
                ),
                _ => None,
            }
        } else if members.contains_key("data"@) {
            match (member_path(members), optional_list(members, "errors"@)) {
                (Some(path), Some(errors)) => Some(
                    PayloadModel::Defer { data: members["data"@], errors, path },
                ),
                _ => None,
            }
        } else {
            None
        },
        _ => None,
    }
}

/// The payloads that the member `incremental` gives: none for null, and for an
/// array its elements, which all must be payloads.
pub open spec fn decoded_payloads(json: Json) -> Option<Seq<PayloadModel>> {
    match json {
        Json::Null => Some(Seq::empty()),
        Json::Array(list) => if forall|i: int|
            0 <= i < list.len() ==> decoded_payload(#[trigger] list[i]) is Some {
            Some(Seq::new(list.len(), |i: int| decoded_payload(list[i])->Some_0))
        } else {
            None
        },
        _ => None,
    }
}

/// What a JSON value decodes to.
///
/// An object with a member `incremental` is a patch: it needs a boolean
/// `hasNext`. Without `incremental`, an object with a member `data` is an
/// initial result: its `hasNext` may be left out, and then more is expected.
/// With neither, an object with a boolean `hasNext` is a patch without
/// payloads. Nothing else decodes.
pub open spec fn decoded(json: Json) -> Option<DecodedModel> {
    match json {
        Json::Object(members) => if members.contains_key("incremental"@) {
            if members.contains_key("hasNext"@) {
                match (members["hasNext"@], decoded_payloads(members["incremental"@])) {
                    (Json::Bool(more), Some(payloads)) => Some(
                        DecodedModel::Patch(PatchModel { complete_after_this: !more, payloads }),
                    ),
                    _ => None,
                }
            } else {
                None
            }
        } else if members.contains_key("data"@) {
            match optional_list(members, "errors"@) {
                Some(errors) => if members.contains_key("hasNext"@) {
                    match members["hasNext"@] {
                        Json::Bool(more) => Some(
                            DecodedModel::Initial(
                                ResultModel { data: members["data"@], errors, complete: !more },
                            ),
                        ),
                        _ => None,
                    }
                } else {
                    Some(
                        DecodedModel::Initial(
                            ResultModel { data: members["data"@], errors, complete: false },
                        ),
                    )
                },
                None => None,
            }
        } else if members.contains_key("hasNext"@) {
            match members["hasNext"@] {
                Json::Bool(more) => Some(
                    DecodedModel::Patch(
                        PatchModel { complete_after_this: !more, payloads: Seq::empty() },
                    ),
                ),
                _ => None,
            }
        } else {
            None
        },
        _ => None,
    }
}

fn decode_segment(doc: &Document) -> (r: Option<PathSegment>)
    ensures
        match decoded_segment(doc@) {
            Some(step) => r is Some && r->Some_0@ == step,
            None => r is None,
        },
{
    match doc {
        Document::String(k) => Some(PathSegment::Key(k.clone())),
        Document::Number(t) => match parse_index(t) {
            Some(n) => Some(PathSegment::Index(n)),
            None => None,
        },
        _ => None,
    }
}

/// Reads the path at which a payload is merged from its JSON form.
pub fn merge_path(doc: &Document) -> (r: Option<Vec<PathSegment>>)
    ensures
        match decoded_path(doc@) {
            Some(path) => r is Some && path_view(r->Some_0@) == path,
            None => r is None,
        },
{
    match doc {
        Document::Array(steps) => {
            let mut path: Vec<PathSegment> = Vec::new();
            let mut i: usize = 0;
            while i < steps.len()
                invariant
                    i <= steps.len(),
                    path.len() == i,
                    doc@ == Json::Array(items_view(steps@)),
                    forall|j: int|
                        0 <= j < i ==> decoded_segment(#[trigger] items_view(steps@)[j]) == Some(
                            path@[j]@,
                        ),
                decreases steps.len() - i,
            {
                match decode_segment(&steps[i]) {
                    Some(step) => {
                        path.push(step);
                    },
                    None => {
                        assert(decoded_segment(items_view(steps@)[i as int]) is None);
                        return None;
                    },
                }
                i += 1;
            }
            assert(path_view(path@) =~= decoded_path(doc@)->Some_0);
            Some(path)
        },
        _ => None,
    }
}

fn decode_list(doc: &Document, key: &String) -> (r: Option<Vec<Document>>)
    requires
        doc@ is Object,
    ensures
        match optional_list(doc@->Object_0, key@) {
            Some(list) => r is Some && items_view(r->Some_0@) == list,
            None => r is None,
        },
{
    let mut copy: Vec<Document> = Vec::new();
    assert(items_view(copy@) =~= Seq::empty());
    match doc.get(key) {
        None => Some(copy),
        Some(Document::Null) => Some(copy),
        Some(Document::Array(list)) => {
            append_copies(&mut copy, list);
            assert(items_view(copy@) =~= items_view(list@));
            Some(copy)
        },
        Some(_) => None,
    }
}

fn decode_member_path(doc: &Document) -> (r: Option<Vec<PathSegment>>)
    requires
        doc@ is Object,
    ensures
        match member_path(doc@->Object_0) {
            Some(path) => r is Some && path_view(r->Some_0@) == path,
            None => r is None,
        },
{
    match doc.get(&"path".to_owned()) {
        Some(path) => merge_path(path),
        None => None,
    }
}

fn decode_payload(doc: &Document) -> (r: Option<IncrementalPayload>)
    ensures
        match decoded_payload(doc@) {
            Some(payload) => r is Some && r->Some_0@ == payload,
            None => r is None,
        },
{
    match doc {
        Document::Object(_) => {
            let errors_key = "errors".to_owned();
            match doc.get(&"items".to_owned()) {
                Some(Document::Array(list)) => {
                    let path = decode_member_path(doc);
                    let errors = decode_list(doc, &errors_key);
                    match (path, errors) {
                        (Some(path), Some(errors)) => {
                            let mut items: Vec<Document> = Vec::new();
                            assert(items_view(items@) =~= Seq::empty());
                            append_copies(&mut items, list);
                            assert(items_view(items@) =~= items_view(list@));
                            Some(
                                IncrementalPayload::StreamPayload(
                                    StreamPayload { items, errors, path },
                                ),
                            )
                        },
                        _ => None,
                    }
                },
                Some(_) => None,
                None => match doc.get(&"data".to_owned()) {
                    Some(data) => {
                        let path = decode_member_path(doc);
                        let errors = decode_list(doc, &errors_key);
                        match (path, errors) {
                            (Some(path), Some(errors)) => Some(
                                IncrementalPayload::DeferPayload(
                                    DeferPayload { data: data.clone(), errors, path },
                                ),
                            ),
                            _ => None,
                        }
                    },
                    None => None,
                },
            }
        },
        _ => None,
    }
}

fn decode_payloads(doc: &Document) -> (r: Option<Vec<IncrementalPayload>>)
    ensures
        match decoded_payloads(doc@) {
            Some(payloads) => r is Some && payloads_view(r->Some_0@) == payloads,
            None => r is None,
        },
{
    let mut payloads: Vec<IncrementalPayload> = Vec::new();
    match doc {
        Document::Null => {
            assert(payloads_view(payloads@) =~= Seq::empty());
            Some(payloads)
        },
        Document::Array(list) => {
            let mut i: usize = 0;
            while i < list.len()
                invariant
                    i <= list.len(),
                    payloads.len() == i,
                    doc@ == Json::Array(items_view(list@)),
                    forall|j: int|
                        0 <= j < i ==> decoded_payload(#[trigger] items_view(list@)[j]) == Some(
                            payloads@[j]@,
                        ),
                decreases list.len() - i,
            {
                match decode_payload(&list[i]) {
                    Some(payload) => {
                        payloads.push(payload);
                    },
                    None => {
                        assert(decoded_payload(items_view(list@)[i as int]) is None);
                        return None;
                    },
                }
                i += 1;
            }
            assert(payloads_view(payloads@) =~= decoded_payloads(doc@)->Some_0);
            Some(payloads)
        },
        _ => None,
    }
}

/// Decodes a JSON document into an initial result or a patch, by the members
/// it has.
pub fn decode_document(doc: &Document) -> (r: Option<GraphQLResult>)
    ensures
        match decoded(doc@) {
            Some(model) => r is Some && r->Some_0@ == model,
            None => r is None,
        },
{
    match doc {
        Document::Object(_) => {
            let more = doc.get(&"hasNext".to_owned());
            match doc.get(&"incremental".to_owned()) {
                Some(incremental) => match more {
                    Some(Document::Bool(more)) => match decode_payloads(incremental) {
                        Some(payloads) => Some(
                            GraphQLResult::StreamedExecutionResult(
                                StreamedExecutionResult { has_next: *more, incremental: payloads },
                            ),
                        ),
                        None => None,
                    },
                    _ => None,
                },
                None => match doc.get(&"data".to_owned()) {
                    Some(data) => match decode_list(doc, &"errors".to_owned()) {
                        Some(errors) => match more {
                            Some(Document::Bool(more)) => Some(
                                GraphQLResult::ExecutionResult(
                                    ExecutionResult { data: data.clone(), errors, has_next: *more },
                                ),
                            ),
                            Some(_) => None,
                            None => Some(
                                GraphQLResult::ExecutionResult(
                                    ExecutionResult { data: data.clone(), errors, has_next: true },
                                ),
                            ),
                        },
                        None => None,
                    },
                    None => match more {
                        Some(Document::Bool(more)) => {
                            let payloads: Vec<IncrementalPayload> = Vec::new();
                            assert(payloads_view(payloads@) =~= Seq::empty());
                            Some(
                                GraphQLResult::StreamedExecutionResult(
                                    StreamedExecutionResult {
                                        has_next: *more,
                                        incremental: payloads,
                                    },
                                ),
                            )
                        },
                        _ => None,
                    },
                },
            }
        },
        _ => None,
    }
}

/// A frame whose text did not decode, with the text.
#[derive(Debug, PartialEq, Eq)]
pub struct DecodeError {
    pub text: Vec<u8>,
}

/// What the text of a frame decodes to: what its JSON value decodes to, where
/// the text is JSON.
pub open spec fn decoded_text(text: Seq<u8>) -> Option<DecodedModel> {
    match parsed_json(text) {
        Some(json) => decoded(json),
        None => None,
    }
}

/// Reads the text of a frame as JSON; `None` where it is not JSON.
pub fn parse_document(text: &[u8]) -> (r: Option<Document>)
    ensures
        match parsed_json(text@) {
            Some(json) => r is Some && r->Some_0@ == json,
            None => r is None,
        },
{
    match parse_value(text) {
        Ok(value) => Some(document_of(&value)),
        Err(_) => None,
    }
}

/// Decodes the text of a frame into an initial result or a patch. A text that
/// is not JSON, or whose value has neither shape, is handed back in the error.
pub fn decode(text: &[u8]) -> (r: Result<GraphQLResult, DecodeError>)
    ensures
        match decoded_text(text@) {
            Some(model) => r is Ok && r->Ok_0@ == model,
            None => r is Err && r->Err_0.text@ == text@,
        },
{
    match parse_document(text) {
        Some(doc) => match decode_document(&doc) {
            Some(result) => Ok(result),
            None => Err(DecodeError { text: slice_to_vec(text) }),
        },
        None => Err(DecodeError { text: slice_to_vec(text) }),
    }
}

} // verus!
