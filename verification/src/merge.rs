//! The merge rules: how an incoming value is folded into an existing one.

use crate::json::{
    doc_view, entries_view, find_key, items_view, last_with_key, lemma_entries_absent,
    lemma_entries_found, lemma_entries_update, lemma_entries_witness, Document, Json,
};
use vstd::prelude::*;

verus! {

/// Deep merge of `incoming` into `existing`.
///
/// Two objects merge key by key, two arrays index by index (the result is as
/// long as the longer one), each pair of members by this same rule; a member
/// that only one side has is kept as it is. Any other pairing yields `incoming`.
pub open spec fn deep_merge(existing: Json, incoming: Json) -> Json
    decreases incoming,
{
    match (existing, incoming) {
        (Json::Object(a), Json::Object(b)) => Json::Object(
            Map::new(
                |k: Seq<char>| a.contains_key(k) || b.contains_key(k),
                |k: Seq<char>|
                    if b.contains_key(k) {
                        if a.contains_key(k) {
                            deep_merge(a[k], b[k])
                        } else {
                            b[k]
                        }
                    } else {
                        a[k]
                    },
            ),
        ),
        (Json::Array(a), Json::Array(b)) => Json::Array(
            Seq::new(
                if a.len() >= b.len() {
                    a.len()
                } else {
                    b.len()
                },
                |i: int|
                    if 0 <= i < b.len() {
                        if i < a.len() {
                            deep_merge(a[i], b[i])
                        } else {
                            b[i]
                        }
                    } else {
                        a[i]
                    },
            ),
        ),
        (_, other) => other,
    }
}

/// Whether a deep merge of `incoming` into `existing` overwrites a value with a
/// different one: somewhere in the two trees a value that is not null meets an
/// incoming value that it cannot merge with and that differs from it.
pub open spec fn conflicts(existing: Json, incoming: Json) -> bool
    decreases incoming,
{
    match (existing, incoming) {
        (Json::Object(a), Json::Object(b)) => exists|k: Seq<char>|
            a.contains_key(k) && #[trigger] b.contains_key(k) && conflicts(a[k], b[k]),
        (Json::Array(a), Json::Array(b)) => exists|i: int|
            0 <= i < a.len() && i < b.len() && conflicts(a[i], #[trigger] b[i]),
        (Json::Null, _) => false,
        (_, _) => existing != incoming,
    }
}

/// Shallow merge at the root: every member of `data` overwrites or adds the
/// member of `root` with its key, and the other members of `root` stay. Where
/// the two are not both objects, there is no member to write or no object to
/// write it on, and the root stays as it is.
pub open spec fn shallow_merge(root: Json, data: Json) -> Json {
    match (root, data) {
        (Json::Object(a), Json::Object(b)) => Json::Object(a.union_prefer_right(b)),
        _ => root,
    }
}

/// `existing` with `incoming` written at the positions `start`, `start + 1`,
/// and so on: positions that exist are overwritten, the rest are appended.
pub open spec fn spliced(existing: Seq<Json>, start: int, incoming: Seq<Json>) -> Seq<Json> {
    Seq::new(
        if existing.len() >= start + incoming.len() {
            existing.len()
        } else {
            (start + incoming.len()) as nat
        },
        |t: int|
            if start <= t < start + incoming.len() {
                incoming[t - start]
            } else {
                existing[t]
            },
    )
}

/// Some member before place `j` of `b` is the one that counts for `key`.
spec fn settled(b: Seq<(String, Document)>, key: Seq<char>, j: int) -> bool {
    exists|t: int| 0 <= t < j && #[trigger] last_with_key(b, key, t)
}

/// The object `a0` after the members of `b` before place `j` that count were
/// merged into it.
spec fn merged_upto(a0: Map<Seq<char>, Json>, b: Seq<(String, Document)>, j: int) -> Map<
    Seq<char>,
    Json,
> {
    Map::new(
        |k: Seq<char>| a0.contains_key(k) || settled(b, k, j),
        |k: Seq<char>|
            if settled(b, k, j) {
                if a0.contains_key(k) {
                    deep_merge(a0[k], entries_view(b)[k])
                } else {
                    entries_view(b)[k]
                }
            } else {
                a0[k]
            },
    )
}

/// Whether one of the members of `b` before place `j` that count overwrote a
/// value of `a0`.
spec fn conflict_upto(a0: Map<Seq<char>, Json>, b: Seq<(String, Document)>, j: int) -> bool {
    exists|k: Seq<char>|
        a0.contains_key(k) && #[trigger] settled(b, k, j) && conflicts(a0[k], entries_view(b)[k])
}

/// Once every member of `b` was looked at, the settled keys are the keys of `b`.
proof fn lemma_settled_all(b: Seq<(String, Document)>, key: Seq<char>)
    ensures
        settled(b, key, b.len() as int) <==> entries_view(b).contains_key(key),
{
    if settled(b, key, b.len() as int) {
        let t = choose|t: int| 0 <= t < b.len() && #[trigger] last_with_key(b, key, t);
        lemma_entries_found(b, key, t);
    }
    if entries_view(b).contains_key(key) {
        lemma_entries_witness(b, key);
        let t = choose|t: int| last_with_key(b, key, t);
        assert(0 <= t < b.len() && last_with_key(b, key, t));
    }
}

/// Whether writing `b` over `a` is a conflict, for a pair that does not merge.
fn overwrites(a: &Document, b: &Document) -> (c: bool)
    requires
        !(a@ is Object && b@ is Object),
        !(a@ is Array && b@ is Array),
    ensures
        c == conflicts(a@, b@),
{
    match a {
        Document::Null => false,
        Document::Bool(x) => match b {
            Document::Bool(y) => *x != *y,
            _ => true,
        },
        Document::Number(x) => match b {
            Document::Number(y) => !(*x == *y),
            _ => true,
        },
        Document::String(x) => match b {
            Document::String(y) => !(*x == *y),
            _ => true,
        },
        Document::Array(_) => true,
        Document::Object(_) => true,
    }
}

/// Deep-merges `b` into `a` in place, and says whether a value was overwritten
/// with a different one.
pub fn merge(a: &mut Document, b: &Document) -> (conflict: bool)
    ensures
        final(a)@ == deep_merge(old(a)@, b@),
        conflict == conflicts(old(a)@, b@),
    decreases b,
{
    match b {
        Document::Object(b_entries) => match a {
            Document::Object(a_entries) => {
                assert(decreases_to!(*b => b->Object_0));
                merge_members(a_entries, b_entries)
            },
            _ => {
                let c = overwrites(a, b);
                *a = b.clone();
                c
            },
        },
        Document::Array(b_items) => match a {
            Document::Array(a_items) => {
                assert(decreases_to!(*b => b->Array_0));
                merge_items(a_items, b_items)
            },
            _ => {
                let c = overwrites(a, b);
                *a = b.clone();
                c
            },
        },
        _ => {
            let c = overwrites(a, b);
            *a = b.clone();
            c
        },
    }
}

/// What looking at member `j` of `b` adds to the settled keys: its key, where
/// it is the member that counts for it, and nothing otherwise.
proof fn lemma_settled_step(b: Seq<(String, Document)>, j: int)
    requires
        0 <= j < b.len(),
    ensures
        !settled(b, b[j].0@, j),
        forall|k: Seq<char>|
            settled(b, k, j + 1) <==> settled(b, k, j) || (k == b[j].0@ && last_with_key(b, k, j)),
{
    let key = b[j].0@;
    if settled(b, key, j) {
        let t = choose|t: int| 0 <= t < j && #[trigger] last_with_key(b, key, t);
        assert(b[j].0@ != key);
    }
    assert forall|k: Seq<char>|
        settled(b, k, j + 1) <==> settled(b, k, j) || (k == key && last_with_key(b, k, j)) by {
        if settled(b, k, j + 1) {
            let t = choose|t: int| 0 <= t < j + 1 && #[trigger] last_with_key(b, k, t);
            if t < j {
                assert(settled(b, k, j));
            }
        }
        if settled(b, k, j) {
            let t = choose|t: int| 0 <= t < j && #[trigger] last_with_key(b, k, t);
            assert(0 <= t < j + 1 && last_with_key(b, k, t));
        }
        if k == key && last_with_key(b, k, j) {
            assert(0 <= j < j + 1 && last_with_key(b, k, j));
        }
    }
}

/// What looking at member `j` of `b` adds to the conflicts: the one at its
/// key, where it is the member that counts for it and overwrites a value.
proof fn lemma_conflict_step(a0: Map<Seq<char>, Json>, b: Seq<(String, Document)>, j: int)
    requires
        0 <= j < b.len(),
    ensures
        conflict_upto(a0, b, j + 1) <==> conflict_upto(a0, b, j) || (last_with_key(b, b[j].0@, j)
            && a0.contains_key(b[j].0@) && conflicts(a0[b[j].0@], entries_view(b)[b[j].0@])),
{
    let key = b[j].0@;
    let bm = entries_view(b);
    lemma_settled_step(b, j);
    if conflict_upto(a0, b, j + 1) {
        let k = choose|k: Seq<char>|
            a0.contains_key(k) && #[trigger] settled(b, k, j + 1) && conflicts(a0[k], bm[k]);
        if settled(b, k, j) {
            assert(conflict_upto(a0, b, j));
        }
    }
    if conflict_upto(a0, b, j) {
        let k = choose|k: Seq<char>|
            a0.contains_key(k) && #[trigger] settled(b, k, j) && conflicts(a0[k], bm[k]);
        assert(settled(b, k, j + 1));
    }
    if last_with_key(b, key, j) && a0.contains_key(key) && conflicts(a0[key], bm[key]) {
        assert(settled(b, key, j + 1));
    }
}

/// Once every member of `b` was looked at, the object and the conflicts are
/// those of the deep merge.
proof fn lemma_merged_all(a0: Map<Seq<char>, Json>, b: Seq<(String, Document)>)
    ensures
        Json::Object(merged_upto(a0, b, b.len() as int)) == deep_merge(
            Json::Object(a0),
            Json::Object(entries_view(b)),
        ),
        conflict_upto(a0, b, b.len() as int) == conflicts(
            Json::Object(a0),
            Json::Object(entries_view(b)),
        ),
{
    let bm = entries_view(b);
    let n = b.len() as int;
    assert forall|k: Seq<char>| settled(b, k, n) <==> bm.contains_key(k) by {
        lemma_settled_all(b, k);
    }
    assert(merged_upto(a0, b, n) =~= deep_merge(Json::Object(a0), Json::Object(bm))->Object_0);
    if conflicts(Json::Object(a0), Json::Object(bm)) {
        let k = choose|k: Seq<char>|
            a0.contains_key(k) && #[trigger] bm.contains_key(k) && conflicts(a0[k], bm[k]);
        assert(settled(b, k, n));
    }
    if conflict_upto(a0, b, n) {
        let k = choose|k: Seq<char>|
            a0.contains_key(k) && #[trigger] settled(b, k, n) && conflicts(a0[k], bm[k]);
        assert(bm.contains_key(k));
    }
}

/// Merges the members of one object into another, key by key.
fn merge_members(a: &mut Vec<(String, Document)>, b: &Vec<(String, Document)>) -> (conflict: bool)
    ensures
        Json::Object(entries_view(final(a)@)) == deep_merge(
            Json::Object(entries_view(old(a)@)),
            Json::Object(entries_view(b@)),
        ),
        conflict == conflicts(Json::Object(entries_view(old(a)@)), Json::Object(entries_view(b@))),
    decreases b,
{
    let ghost a0 = entries_view(a@);
    let mut conflict = false;
    let mut j: usize = 0;
    assert(entries_view(a@) =~= merged_upto(a0, b@, 0));
    while j < b.len()
        invariant
            j <= b.len(),
            entries_view(a@) == merged_upto(a0, b@, j as int),
            conflict == conflict_upto(a0, b@, j as int),
        decreases b.len() - j,
    {
        let ghost before = a@;
        let ghost key = b@[j as int].0@;
        proof {
            lemma_settled_step(b@, j as int);
            lemma_conflict_step(a0, b@, j as int);
        }
        if find_key(b, &b[j].0) == Some(j) {
            proof {
                lemma_entries_found(b@, key, j as int);
            }
            match find_key(a, &b[j].0) {
                Some(i) => {
                    proof {
                        lemma_entries_found(before, key, i as int);
                    }
                    assert(decreases_to!(*b => b[j as int].1));
                    let c = merge(&mut a[i].1, &b[j].1);
                    conflict = conflict || c;
                    proof {
                        assert(a@ =~= before.update(i as int, a@[i as int]));
                        lemma_entries_update(before, i as int, a@[i as int]);
                    }
                },
                None => {
                    proof {
                        lemma_entries_absent(before, key);
                    }
                    a.push((b[j].0.clone(), b[j].1.clone()));
                    assert(a@.drop_last() =~= before);
                },
            }
        }
        assert(entries_view(a@) =~= merged_upto(a0, b@, j + 1));
        j += 1;
    }
    proof {
        lemma_merged_all(a0, b@);
    }
    conflict
}

/// Merges the elements of one array into another, index by index.
fn merge_items(a: &mut Vec<Document>, b: &Vec<Document>) -> (conflict: bool)
    ensures
        Json::Array(items_view(final(a)@)) == deep_merge(
            Json::Array(items_view(old(a)@)),
            Json::Array(items_view(b@)),
        ),
        conflict == conflicts(Json::Array(items_view(old(a)@)), Json::Array(items_view(b@))),
    decreases b,
{
    let ghost a0 = items_view(a@);
    let ghost bv = items_view(b@);
    let mut conflict = false;
    let mut i: usize = 0;
    while i < b.len()
        invariant
            i <= b.len(),
            a0.len() == old(a)@.len(),
            bv == items_view(b@),
            a.len() == if a0.len() >= i { a0.len() } else { i as nat },
            forall|t: int|
                0 <= t < a.len() ==> doc_view(#[trigger] a@[t]) == if t < i {
                    if t < a0.len() {
                        deep_merge(a0[t], bv[t])
                    } else {
                        bv[t]
                    }
                } else {
                    a0[t]
                },
            conflict == exists|t: int| 0 <= t < i && t < a0.len() && conflicts(a0[t], #[trigger] bv[t]),
        decreases b.len() - i,
    {
        let ghost before = a@;
        if i < a.len() {
            assert(decreases_to!(*b => b[i as int]));
            let c = merge(&mut a[i], &b[i]);
            proof {
                assert(a@ =~= before.update(i as int, a@[i as int]));
                if c {
                    assert(0 <= i < i + 1 && i < a0.len() && conflicts(a0[i as int], bv[i as int]));
                }
            }
            conflict = conflict || c;
        } else {
            a.push(b[i].clone());
        }
        i += 1;
    }
    proof {
        assert(items_view(a@) =~= deep_merge(Json::Array(a0), Json::Array(bv))->Array_0);
    }
    conflict
}

/// Writes `value` under `key`: over the member that counts for the key, or as a
/// new member where the object has none.
pub fn set_member(entries: &mut Vec<(String, Document)>, key: &String, value: Document)
    ensures
        entries_view(final(entries)@) == entries_view(old(entries)@).insert(key@, value@),
{
    let ghost before = entries@;
    match find_key(entries, key) {
        Some(i) => {
            entries[i].1 = value;
            proof {
                assert(entries@ =~= before.update(i as int, entries@[i as int]));
                lemma_entries_update(before, i as int, entries@[i as int]);
            }
        },
        None => {
            entries.push((key.clone(), value));
            proof {
                assert(entries@.drop_last() =~= before);
            }
        },
    }
}

/// Shallow-merges `data` into the root of a document, in place.
pub fn merge_root(root: &mut Document, data: &Document)
    ensures
        final(root)@ == shallow_merge(old(root)@, data@),
{
    match data {
        Document::Object(b) => match root {
            Document::Object(a) => {
                let ghost a0 = entries_view(a@);
                let mut j: usize = 0;
                assert(b@.take(0) =~= Seq::empty());
                assert(entries_view(a@) =~= a0.union_prefer_right(entries_view(b@.take(0))));
                while j < b.len()
                    invariant
                        j <= b.len(),
                        entries_view(a@) == a0.union_prefer_right(entries_view(b@.take(j as int))),
                    decreases b.len() - j,
                {
                    let ghost done = entries_view(b@.take(j as int));
                    set_member(a, &b[j].0, b[j].1.clone());
                    proof {
                        let next = b@.take(j + 1);
                        assert(next.drop_last() =~= b@.take(j as int));
                        assert(next.last() == b@[j as int]);
                        assert(entries_view(a@) =~= a0.union_prefer_right(entries_view(next)));
                    }
                    j += 1;
                }
                assert(b@.take(b.len() as int) =~= b@);
            },
            _ => {},
        },
        _ => {},
    }
}

/// Writes `incoming` into an array at the positions from `start` on, in place.
/// A start beyond the end of the array would leave a gap: it is refused, and
/// the array stays as it is.
pub fn splice(existing: &mut Vec<Document>, start: usize, incoming: &Vec<Document>) -> (done: bool)
    ensures
        done == (start <= old(existing)@.len()),
        done ==> items_view(final(existing)@) == spliced(
            items_view(old(existing)@),
            start as int,
            items_view(incoming@),
        ),
        !done ==> *final(existing) == *old(existing),
{
    if start > existing.len() {
        return false;
    }
    let ghost a0 = items_view(existing@);
    let ghost inc = items_view(incoming@);
    let mut t: usize = 0;
    while t < incoming.len()
        invariant
            t <= incoming.len(),
            start <= a0.len(),
            inc == items_view(incoming@),
            existing.len() == if a0.len() >= start + t {
                a0.len()
            } else {
                (start + t) as nat
            },
            forall|p: int|
                0 <= p < existing.len() ==> doc_view(#[trigger] existing@[p]) == if start <= p < start
                    + t {
                    inc[p - start]
                } else {
                    a0[p]
                },
        decreases incoming.len() - t,
    {
        if t < existing.len() - start {
            existing[start + t] = incoming[t].clone();
        } else {
            existing.push(incoming[t].clone());
        }
        t += 1;
    }
    assert(items_view(existing@) =~= spliced(a0, start as int, inc));
    true
}

} // verus!
