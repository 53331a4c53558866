//! Edits at a path: the node that a path leads to is merged with incoming data
//! or, where it is an array, extended with incoming items.

use crate::json::{
    doc_view, entries_view, find_key, items_view, lemma_entries_absent, lemma_entries_found,
    lemma_entries_update, Document, Json,
};
use crate::merge::{conflicts, deep_merge, merge, splice, spliced};
use crate::path::{path_view, replace_at, resolve, PathSegment, Segment};
use vstd::prelude::*;

verus! {

/// What is done to the node that a path leads to, as a mathematical value.
pub enum EditModel {
    /// Deep-merge the data into the node.
    Merge(Json),
    /// Write the items into the node, an array, from the given position on.
    Splice(nat, Seq<Json>),
}

/// What is done to the node that a path leads to.
pub enum Edit<'a> {
    Merge(&'a Document),
    Splice(usize, &'a Vec<Document>),
}

impl<'a> View for Edit<'a> {
    type V = EditModel;

    open spec fn view(&self) -> EditModel {
        match self {
            Edit::Merge(data) => EditModel::Merge(data@),
            Edit::Splice(start, items) => EditModel::Splice(*start as nat, items_view(items@)),
        }
    }
}

/// The node after the edit. A splice needs an array that reaches the start
/// position: its items arrive in order, so a gap is refused, as is any other
/// kind of node.
pub open spec fn edited(node: Json, edit: EditModel) -> Option<Json> {
    match edit {
        EditModel::Merge(data) => Some(deep_merge(node, data)),
        EditModel::Splice(start, items) => match node {
            Json::Array(existing) => if start <= existing.len() {
                Some(Json::Array(spliced(existing, start as int, items)))
            } else {
                None
            },
            _ => None,
        },
    }
}

/// Whether the edit overwrites a value with a different one. Only a merge can.
pub open spec fn edit_conflicts(node: Json, edit: EditModel) -> bool {
    match edit {
        EditModel::Merge(data) => conflicts(node, data),
        EditModel::Splice(_, _) => false,
    }
}

/// The document after the edit at `path`; `None` where the path does not
/// resolve, or the node it leads to does not take the edit.
pub open spec fn edit_at(doc: Json, path: Seq<Segment>, edit: EditModel) -> Option<Json> {
    match resolve(doc, path) {
        Some(node) => match edited(node, edit) {
            Some(after) => Some(replace_at(doc, path, after)),
            None => None,
        },
        None => None,
    }
}

/// Edits one node in place.
fn edit_node(node: &mut Document, edit: &Edit) -> (r: Option<bool>)
    ensures
        match edited(old(node)@, edit@) {
            Some(after) => final(node)@ == after && r == Some(edit_conflicts(old(node)@, edit@)),
            None => r is None && final(node)@ == old(node)@,
        },
{
    match edit {
        Edit::Merge(data) => Some(merge(node, data)),
        Edit::Splice(start, items) => match node {
            Document::Array(existing) => if splice(existing, *start, items) {
                Some(false)
            } else {
                None
            },
            _ => None,
        },
    }
}

/// Edits, in place, the node that `path` leads to.
///
/// On success the result says whether a value was overwritten with a different
/// one. On failure the document keeps its value.
pub fn edit_document(doc: &mut Document, path: &Vec<PathSegment>, edit: &Edit) -> (r: Option<bool>)
    ensures
        match edit_at(old(doc)@, path_view(path@), edit@) {
            Some(after) => final(doc)@ == after && r == Some(
                edit_conflicts(resolve(old(doc)@, path_view(path@))->Some_0, edit@),
            ),
            None => r is None && final(doc)@ == old(doc)@,
        },
{
    assert(path_view(path@).subrange(0, path.len() as int) =~= path_view(path@));
    edit_steps(doc, path, 0, path.len(), edit)
}

/// Edits, in place, the node that the steps `from..upto` of `path` lead to.
pub(crate) fn edit_steps(
    doc: &mut Document,
    path: &Vec<PathSegment>,
    from: usize,
    upto: usize,
    edit: &Edit,
) -> (r: Option<bool>)
    requires
        from <= upto <= path.len(),
    ensures
        ({
            let steps = path_view(path@).subrange(from as int, upto as int);
            match edit_at(old(doc)@, steps, edit@) {
                Some(after) => final(doc)@ == after && r == Some(
                    edit_conflicts(resolve(old(doc)@, steps)->Some_0, edit@),
                ),
                None => r is None && final(doc)@ == old(doc)@,
            }
        }),
    decreases upto - from,
{
    let ghost steps = path_view(path@).subrange(from as int, upto as int);
    if from == upto {
        return edit_node(doc, edit);
    }
    proof {
        assert(steps[0] == path@[from as int]@);
        assert(steps.drop_first() =~= path_view(path@).subrange(from + 1, upto as int));
    }
    match &path[from] {
        PathSegment::Key(k) => match doc {
            Document::Object(entries) => {
                let ghost before = entries@;
                match find_key(entries, k) {
                    Some(i) => {
                        proof {
                            lemma_entries_found(before, k@, i as int);
                        }
                        let r = edit_steps(&mut entries[i].1, path, from + 1, upto, edit);
                        proof {
                            assert(entries@ =~= before.update(i as int, entries@[i as int]));
                            lemma_entries_update(before, i as int, entries@[i as int]);
                            if r is None {
                                assert(entries_view(entries@) =~= entries_view(before));
                            }
                        }
                        r
                    },
                    None => {
                        proof {
                            lemma_entries_absent(before, k@);
                        }
                        None
                    },
                }
            },
            _ => None,
        },
        PathSegment::Index(i) => match doc {
            Document::Array(items) => {
                let ghost before = items@;
                if *i < items.len() {
                    let r = edit_steps(&mut items[*i], path, from + 1, upto, edit);
                    proof {
                        assert(items@ =~= before.update(*i as int, items@[*i as int]));
                        assert(items_view(items@) =~= items_view(before).update(
                            *i as int,
                            doc_view(items@[*i as int]),
                        ));
                        if r is None {
                            assert(items_view(items@) =~= items_view(before));
                        }
                    }
                    r
                } else {
                    None
                }
            },
            _ => None,
        },
    }
}

} // verus!
