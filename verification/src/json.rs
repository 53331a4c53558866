//! JSON documents: the mathematical tree the contracts speak of, and the
//! in-memory tree the engine mutates.

use vstd::prelude::*;

verus! {

/// A JSON value as a mathematical tree. An object is a finite map from keys to
/// values, so two objects that list the same members in another order are equal.
pub enum Json {
    Null,
    Bool(bool),
    /// A number, held as its decimal text (`1`, `-3`, `2.5e10`).
    Number(Seq<char>),
    Text(Seq<char>),
    Array(Seq<Json>),
    Object(Map<Seq<char>, Json>),
}

/// A JSON document in memory.
///
/// An object is a list of members. Where a key occurs more than once, the last
/// member with that key is the one that counts; every operation of this crate
/// reads and writes objects by that rule, so any list of members is a valid
/// object.
#[derive(Debug, PartialEq, Eq)]
pub enum Document {
    Null,
    Bool(bool),
    /// A number, held as its decimal text.
    Number(String),
    String(String),
    Array(Vec<Document>),
    Object(Vec<(String, Document)>),
}

/// The values of a list of documents.
pub open spec fn items_view(items: Seq<Document>) -> Seq<Json>
    decreases items,
{
    Seq::new(
        items.len(),
        |i: int|
            if 0 <= i < items.len() {
                doc_view(items[i])
            } else {
                Json::Null
            },
    )
}

/// The map that a list of members stands for: later members override earlier
/// ones with the same key.
pub open spec fn entries_view(entries: Seq<(String, Document)>) -> Map<Seq<char>, Json>
    decreases entries,
{
    if entries.len() == 0 {
        Map::empty()
    } else {
        entries_view(entries.drop_last()).insert(entries.last().0@, doc_view(entries.last().1))
    }
}

/// The value of a document.
pub open spec fn doc_view(d: Document) -> Json
    decreases d,
{
    match d {
        Document::Null => Json::Null,
        Document::Bool(b) => Json::Bool(b),
        Document::Number(n) => Json::Number(n@),
        Document::String(s) => Json::Text(s@),
        Document::Array(items) => Json::Array(items_view(items@)),
        Document::Object(entries) => Json::Object(entries_view(entries@)),
    }
}

impl View for Document {
    type V = Json;

    open spec fn view(&self) -> Json {
        doc_view(*self)
    }
}

/// No member of `entries` has the key `key`.
pub open spec fn key_absent(entries: Seq<(String, Document)>, key: Seq<char>) -> bool {
    forall|j: int| 0 <= j < entries.len() ==> (#[trigger] entries[j]).0@ != key
}

/// Member `i` of `entries` has the key `key`, and no later member has it.
pub open spec fn last_with_key(entries: Seq<(String, Document)>, key: Seq<char>, i: int) -> bool {
    &&& 0 <= i < entries.len()
    &&& entries[i].0@ == key
    &&& forall|j: int| i < j < entries.len() ==> (#[trigger] entries[j]).0@ != key
}

/// A key that no member carries is not in the object.
pub proof fn lemma_entries_absent(entries: Seq<(String, Document)>, key: Seq<char>)
    requires
        key_absent(entries, key),
    ensures
        !entries_view(entries).contains_key(key),
    decreases entries.len(),
{
    if entries.len() > 0 {
        let init = entries.drop_last();
        assert forall|j: int| 0 <= j < init.len() implies (#[trigger] init[j]).0@ != key by {
            assert(init[j] == entries[j]);
        }
        lemma_entries_absent(init, key);
        assert(entries.last() == entries[entries.len() - 1]);
    }
}

/// The last member with a key gives the object's value at that key.
pub proof fn lemma_entries_found(entries: Seq<(String, Document)>, key: Seq<char>, i: int)
    requires
        last_with_key(entries, key, i),
    ensures
        entries_view(entries).contains_key(key),
        entries_view(entries)[key] == doc_view(entries[i].1),
    decreases entries.len(),
{
    let init = entries.drop_last();
    if i == entries.len() - 1 {
    } else {
        assert(entries.last() == entries[entries.len() - 1]);
        assert(init[i] == entries[i]);
        assert forall|j: int| i < j < init.len() implies (#[trigger] init[j]).0@ != key by {
            assert(init[j] == entries[j]);
        }
        lemma_entries_found(init, key, i);
    }
}

/// A key of the object is carried by some member, and one of them is the last.
pub proof fn lemma_entries_witness(entries: Seq<(String, Document)>, key: Seq<char>)
    requires
        entries_view(entries).contains_key(key),
    ensures
        exists|i: int| last_with_key(entries, key, i),
    decreases entries.len(),
{
    if entries.len() > 0 {
        let n = entries.len() - 1;
        assert(entries.last() == entries[n]);
        if entries[n].0@ == key {
            assert(last_with_key(entries, key, n));
        } else {
            let init = entries.drop_last();
            lemma_entries_witness(init, key);
            let i = choose|i: int| last_with_key(init, key, i);
            assert(init[i] == entries[i]);
            assert forall|j: int| i < j < entries.len() implies (#[trigger] entries[j]).0@ != key by {
                if j < n {
                    assert(init[j] == entries[j]);
                }
            }
            assert(last_with_key(entries, key, i));
        }
    }
}

/// Replacing the last member with a key changes the object at that key alone.
pub proof fn lemma_entries_update(
    entries: Seq<(String, Document)>,
    i: int,
    member: (String, Document),
)
    requires
        last_with_key(entries, member.0@, i),
    ensures
        entries_view(entries.update(i, member)) == entries_view(entries).insert(
            member.0@,
            doc_view(member.1),
        ),
    decreases entries.len(),
{
    let key = member.0@;
    let updated = entries.update(i, member);
    let init = entries.drop_last();
    if i == entries.len() - 1 {
        assert(updated.drop_last() =~= init);
        assert(entries_view(updated) =~= entries_view(entries).insert(key, doc_view(member.1)));
    } else {
        assert(entries.last() == entries[entries.len() - 1]);
        assert(init[i] == entries[i]);
        assert forall|j: int| i < j < init.len() implies (#[trigger] init[j]).0@ != key by {
            assert(init[j] == entries[j]);
        }
        lemma_entries_update(init, i, member);
        assert(updated.drop_last() =~= init.update(i, member));
        assert(updated.last() == entries.last());
        assert(entries.last().0@ != key);
        assert(entries_view(updated) =~= entries_view(entries).insert(key, doc_view(member.1)));
    }
}

/// Two lists of members with the same keys and the same values, place by
/// place, stand for the same object.
pub proof fn lemma_entries_same(a: Seq<(String, Document)>, b: Seq<(String, Document)>)
    requires
        a.len() == b.len(),
        forall|j: int| 0 <= j < a.len() ==> (#[trigger] a[j]).0@ == b[j].0@,
        forall|j: int| 0 <= j < a.len() ==> doc_view((#[trigger] a[j]).1) == doc_view(b[j].1),
    ensures
        entries_view(a) == entries_view(b),
    decreases a.len(),
{
    if a.len() > 0 {
        let ai = a.drop_last();
        let bi = b.drop_last();
        assert forall|j: int| 0 <= j < ai.len() implies (#[trigger] ai[j]).0@ == bi[j].0@ by {
            assert(ai[j] == a[j]);
        }
        assert forall|j: int| 0 <= j < ai.len() implies doc_view((#[trigger] ai[j]).1) == doc_view(
            bi[j].1,
        ) by {
            assert(ai[j] == a[j]);
        }
        lemma_entries_same(ai, bi);
        assert(a.last() == a[a.len() - 1]);
    }
}

/// The place of the member that counts for `key`: the last one that carries it.
pub fn find_key(entries: &Vec<(String, Document)>, key: &String) -> (r: Option<usize>)
    ensures
        match r {
            Some(i) => last_with_key(entries@, key@, i as int),
            None => key_absent(entries@, key@),
        },
{
    let mut i: usize = entries.len();
    while i > 0
        invariant
            i <= entries.len(),
            forall|j: int| i <= j < entries.len() ==> (#[trigger] entries@[j]).0@ != key@,
        decreases i,
    {
        i -= 1;
        if entries[i].0 == *key {
            return Some(i);
        }
    }
    None
}

impl Document {
    /// The member of an object at `key`; `None` where `self` is no object or
    /// has no such member.
    pub fn get(&self, key: &String) -> (r: Option<&Document>)
        ensures
            match r {
                Some(d) => self@ is Object && self@->Object_0.contains_key(key@) && d@
                    == self@->Object_0[key@],
                None => !(self@ is Object && self@->Object_0.contains_key(key@)),
            },
    {
        match self {
            Document::Object(entries) => match find_key(entries, key) {
                Some(i) => {
                    proof {
                        lemma_entries_found(entries@, key@, i as int);
                    }
                    Some(&entries[i].1)
                },
                None => {
                    proof {
                        lemma_entries_absent(entries@, key@);
                    }
                    None
                },
            },
            _ => None,
        }
    }
}

impl Clone for Document {
    /// A copy with the same value.
    fn clone(&self) -> (r: Self)
        ensures
            r@ == self@,
        decreases self,
    {
        match self {
            Document::Null => Document::Null,
            Document::Bool(b) => Document::Bool(*b),
            Document::Number(n) => Document::Number(n.clone()),
            Document::String(s) => Document::String(s.clone()),
            Document::Array(items) => {
                let mut copy: Vec<Document> = Vec::new();
                let mut i: usize = 0;
                while i < items.len()
                    invariant
                        *self == Document::Array(*items),
                        i <= items.len(),
                        copy.len() == i,
                        forall|j: int| 0 <= j < i ==> doc_view(#[trigger] copy@[j]) == doc_view(items@[j]),
                    decreases items.len() - i,
                {
                    assert(decreases_to!(*self => self->Array_0[i as int]));
                    copy.push(items[i].clone());
                    i += 1;
                }
                assert(items_view(copy@) =~= items_view(items@));
                Document::Array(copy)
            },
            Document::Object(entries) => {
                let mut copy: Vec<(String, Document)> = Vec::new();
                let mut i: usize = 0;
                while i < entries.len()
                    invariant
                        *self == Document::Object(*entries),
                        i <= entries.len(),
                        copy.len() == i,
                        forall|j: int| 0 <= j < i ==> (#[trigger] copy@[j]).0@ == entries@[j].0@,
                        forall|j: int|
                            0 <= j < i ==> doc_view((#[trigger] copy@[j]).1) == doc_view(entries@[j].1),
                    decreases entries.len() - i,
                {
                    assert(decreases_to!(*self => self->Object_0[i as int].1));
                    copy.push((entries[i].0.clone(), entries[i].1.clone()));
                    i += 1;
                }
                proof {
                    lemma_entries_same(copy@, entries@);
                }
                Document::Object(copy)
            },
        }
    }
}

/// Appends a copy of each document of `source` to `target`, in order.
pub fn append_copies(target: &mut Vec<Document>, source: &Vec<Document>)
    ensures
        items_view(final(target)@) == items_view(old(target)@) + items_view(source@),
{
    let ghost before = items_view(target@);
    let mut i: usize = 0;
    assert(items_view(source@).take(0) =~= Seq::empty());
    assert(items_view(target@) =~= before + items_view(source@).take(0));
    while i < source.len()
        invariant
            i <= source.len(),
            items_view(target@) == before + items_view(source@).take(i as int),
        decreases source.len() - i,
    {
        let ghost so_far = items_view(target@);
        target.push(source[i].clone());
        proof {
            assert(items_view(target@) =~= so_far.push(doc_view(source@[i as int])));
            assert(items_view(source@).take(i + 1) =~= items_view(source@).take(i as int).push(
                doc_view(source@[i as int]),
            ));
            assert(items_view(target@) =~= before + items_view(source@).take(i + 1));
        }
        i += 1;
    }
    assert(items_view(source@).take(source.len() as int) =~= items_view(source@));
}

} // verus!
