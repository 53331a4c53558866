//! Paths into a document: an ordered list of field names and array indices.

use crate::json::{doc_view, items_view, Document, Json};
use vstd::prelude::*;
use vstd::string::StringExecFns;

verus! {

/// One step of a path, as a mathematical value.
pub enum Segment {
    Key(Seq<char>),
    Index(nat),
}

/// One step of a path: a field name or an array index.
#[derive(Debug, PartialEq, Eq)]
pub enum PathSegment {
    Key(String),
    Index(usize),
}

impl View for PathSegment {
    type V = Segment;

    open spec fn view(&self) -> Segment {
        match self {
            PathSegment::Key(k) => Segment::Key(k@),
            PathSegment::Index(i) => Segment::Index(*i as nat),
        }
    }
}

impl Clone for PathSegment {
    fn clone(&self) -> (r: Self)
        ensures
            r == *self,
    {
        match self {
            PathSegment::Key(k) => PathSegment::Key(k.clone()),
            PathSegment::Index(i) => PathSegment::Index(*i),
        }
    }
}

/// The steps of a path. The root path is the empty list.
pub open spec fn path_view(path: Seq<PathSegment>) -> Seq<Segment> {
    Seq::new(path.len(), |i: int| path[i]@)
}

/// The node one step below `doc`: the member of an object under a key, or the
/// element of an array at an index. `None` where `doc` has no such node.
pub open spec fn child(doc: Json, seg: Segment) -> Option<Json> {
    match (doc, seg) {
        (Json::Object(members), Segment::Key(k)) => if members.contains_key(k) {
            Some(members[k])
        } else {
            None
        },
        (Json::Array(items), Segment::Index(i)) => if i < items.len() {
            Some(items[i as int])
        } else {
            None
        },
        _ => None,
    }
}

/// The node that `path` leads to from `doc`; `None` where a step is not found
/// or meets a value that is not of the kind the step asks for.
pub open spec fn resolve(doc: Json, path: Seq<Segment>) -> Option<Json>
    decreases path.len(),
{
    if path.len() == 0 {
        Some(doc)
    } else {
        match child(doc, path[0]) {
            Some(below) => resolve(below, path.drop_first()),
            None => None,
        }
    }
}

/// `doc` with the node one step below it replaced by `value`.
pub open spec fn with_child(doc: Json, seg: Segment, value: Json) -> Json {
    match (doc, seg) {
        (Json::Object(members), Segment::Key(k)) => Json::Object(members.insert(k, value)),
        (Json::Array(items), Segment::Index(i)) => Json::Array(items.update(i as int, value)),
        _ => doc,
    }
}

/// `doc` with the node that `path` leads to replaced by `value`. It is meant
/// for a path that resolves.
pub open spec fn replace_at(doc: Json, path: Seq<Segment>, value: Json) -> Json
    decreases path.len(),
{
    if path.len() == 0 {
        value
    } else {
        match child(doc, path[0]) {
            Some(below) => with_child(doc, path[0], replace_at(below, path.drop_first(), value)),
            None => doc,
        }
    }
}

/// After a node is replaced, the path leads to the new node.
pub proof fn lemma_resolve_replaced(doc: Json, path: Seq<Segment>, value: Json)
    requires
        resolve(doc, path) is Some,
    ensures
        resolve(replace_at(doc, path, value), path) == Some(value),
    decreases path.len(),
{
    if path.len() > 0 {
        let below = child(doc, path[0])->Some_0;
        lemma_resolve_replaced(below, path.drop_first(), value);
    }
}

/// The node under one step of `doc`, by reference.
pub fn step<'a>(doc: &'a Document, seg: &PathSegment) -> (r: Option<&'a Document>)
    ensures
        match r {
            Some(below) => child(doc@, seg@) == Some(below@),
            None => child(doc@, seg@) is None,
        },
{
    match seg {
        PathSegment::Key(k) => doc.get(k),
        PathSegment::Index(i) => match doc {
            Document::Array(items) => if *i < items.len() {
                Some(&items[*i])
            } else {
                None
            },
            _ => None,
        },
    }
}

/// Resolves `path` against `doc`.
pub fn lookup<'a>(doc: &'a Document, path: &Vec<PathSegment>) -> (r: Option<&'a Document>)
    ensures
        match r {
            Some(node) => resolve(doc@, path_view(path@)) == Some(node@),
            None => resolve(doc@, path_view(path@)) is None,
        },
{
    let mut node: &Document = doc;
    let mut i: usize = 0;
    assert(path_view(path@).subrange(0, path.len() as int) =~= path_view(path@));
    while i < path.len()
        invariant
            i <= path.len(),
            resolve(doc@, path_view(path@)) == resolve(
                node@,
                path_view(path@).subrange(i as int, path.len() as int),
            ),
        decreases path.len() - i,
    {
        let ghost rest = path_view(path@).subrange(i as int, path.len() as int);
        assert(rest[0] == path@[i as int]@);
        assert(rest.drop_first() =~= path_view(path@).subrange(i + 1, path.len() as int));
        match step(node, &path[i]) {
            Some(below) => {
                node = below;
            },
            None => {
                return None;
            },
        }
        i += 1;
    }
    Some(node)
}

/// The character of a decimal digit.
pub open spec fn digit(d: nat) -> char {
    if d == 0 {
        '0'
    } else if d == 1 {
        '1'
    } else if d == 2 {
        '2'
    } else if d == 3 {
        '3'
    } else if d == 4 {
        '4'
    } else if d == 5 {
        '5'
    } else if d == 6 {
        '6'
    } else if d == 7 {
        '7'
    } else if d == 8 {
        '8'
    } else {
        '9'
    }
}

/// The decimal text of a number, without leading zeros.
pub open spec fn decimal(n: nat) -> Seq<char>
    decreases n,
{
    if n < 10 {
        seq![digit(n)]
    } else {
        decimal(n / 10).push(digit(n % 10))
    }
}

/// The text of one decimal digit.
fn digit_text(d: usize) -> (s: &'static str)
    requires
        d < 10,
    ensures
        s@ == seq![digit(d as nat)],
{
    proof {
        reveal_strlit("0");
        reveal_strlit("1");
        reveal_strlit("2");
        reveal_strlit("3");
        reveal_strlit("4");
        reveal_strlit("5");
        reveal_strlit("6");
        reveal_strlit("7");
        reveal_strlit("8");
        reveal_strlit("9");
    }
    let s = if d == 0 {
        "0"
    } else if d == 1 {
        "1"
    } else if d == 2 {
        "2"
    } else if d == 3 {
        "3"
    } else if d == 4 {
        "4"
    } else if d == 5 {
        "5"
    } else if d == 6 {
        "6"
    } else if d == 7 {
        "7"
    } else if d == 8 {
        "8"
    } else {
        "9"
    };
    assert(s@ =~= seq![digit(d as nat)]);
    s
}

/// Writes a number in decimal.
pub fn decimal_text(n: usize) -> (s: String)
    ensures
        s@ == decimal(n as nat),
    decreases n,
{
    if n < 10 {
        digit_text(n).to_owned()
    } else {
        let mut s = decimal_text(n / 10);
        s.append(digit_text(n % 10));
        assert(s@ =~= decimal(n as nat));
        s
    }
}

/// A step of a path as a JSON value: a string for a field name, a number for an
/// index.
pub open spec fn segment_json(seg: Segment) -> Json {
    match seg {
        Segment::Key(k) => Json::Text(k),
        Segment::Index(i) => Json::Number(decimal(i)),
    }
}

/// A path as a JSON array of its steps.
pub open spec fn path_json(path: Seq<Segment>) -> Json {
    Json::Array(Seq::new(path.len(), |i: int| segment_json(path[i])))
}

/// Writes a path as a JSON array of its steps.
pub fn path_document(path: &Vec<PathSegment>) -> (d: Document)
    ensures
        d@ == path_json(path_view(path@)),
{
    let mut steps: Vec<Document> = Vec::new();
    let mut i: usize = 0;
    while i < path.len()
        invariant
            i <= path.len(),
            steps.len() == i,
            forall|j: int| 0 <= j < i ==> doc_view(#[trigger] steps@[j]) == segment_json(path@[j]@),
        decreases path.len() - i,
    {
        let step = match &path[i] {
            PathSegment::Key(k) => Document::String(k.clone()),
            PathSegment::Index(n) => Document::Number(decimal_text(*n)),
        };
        steps.push(step);
        i += 1;
    }
    assert(items_view(steps@) =~= path_json(path_view(path@))->Array_0);
    Document::Array(steps)
}

} // verus!
