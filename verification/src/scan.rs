//! Searching in bytes: where a pattern first occurs, and where trailing white
//! space begins.

use vstd::prelude::*;
use vstd::slice::slice_subrange;

verus! {

/// `needle` stands in `hay` at place `i`.
pub open spec fn occurs_at(hay: Seq<u8>, needle: Seq<u8>, i: int) -> bool {
    0 <= i && i + needle.len() <= hay.len() && hay.subrange(i, i + needle.len()) == needle
}

/// The first place at or after `from` where `needle` stands in `hay`.
pub open spec fn first_at(hay: Seq<u8>, needle: Seq<u8>, from: int) -> Option<int>
    decreases hay.len() + 1 - from,
{
    if from < 0 || from + needle.len() > hay.len() {
        None
    } else if occurs_at(hay, needle, from) {
        Some(from)
    } else {
        first_at(hay, needle, from + 1)
    }
}

/// What `first_at` finds is an occurrence, and none lies before it; where it
/// finds nothing, there is none from `from` on.
pub proof fn lemma_first_at(hay: Seq<u8>, needle: Seq<u8>, from: int)
    requires
        0 <= from,
    ensures
        match first_at(hay, needle, from) {
            Some(i) => from <= i && occurs_at(hay, needle, i) && forall|j: int|
                from <= j < i ==> !occurs_at(hay, needle, j),
            None => forall|j: int| from <= j ==> !occurs_at(hay, needle, j),
        },
    decreases hay.len() + 1 - from,
{
    if from + needle.len() <= hay.len() && !occurs_at(hay, needle, from) {
        lemma_first_at(hay, needle, from + 1);
    }
}

/// Whether `needle` stands in `hay` at place `i`.
pub fn stands_at(hay: &[u8], needle: &[u8], i: usize) -> (r: bool)
    ensures
        r == occurs_at(hay@, needle@, i as int),
{
    if i > hay.len() || needle.len() > hay.len() - i {
        return false;
    }
    let mut k: usize = 0;
    while k < needle.len()
        invariant
            k <= needle.len(),
            i + needle.len() <= hay.len(),
            forall|j: int| 0 <= j < k ==> hay@[i + j] == needle@[j],
        decreases needle.len() - k,
    {
        if hay[i + k] != needle[k] {
            assert(hay@.subrange(i as int, i + needle.len())[k as int] != needle@[k as int]);
            return false;
        }
        k += 1;
    }
    assert(hay@.subrange(i as int, i + needle.len()) =~= needle@);
    true
}

/// Finds the first place at or after `from` where `needle` stands in `hay`.
pub fn find(hay: &[u8], needle: &[u8], from: usize) -> (r: Option<usize>)
    ensures
        match first_at(hay@, needle@, from as int) {
            Some(i) => from <= i && r == Some(i as usize) && i + needle@.len() <= hay@.len(),
            None => r is None,
        },
{
    proof {
        lemma_first_at(hay@, needle@, from as int);
    }
    if from > hay.len() || needle.len() > hay.len() - from {
        return None;
    }
    let last = hay.len() - needle.len();
    let mut i: usize = from;
    loop
        invariant
            from <= i <= last,
            last == hay.len() - needle.len(),
            first_at(hay@, needle@, from as int) == first_at(hay@, needle@, i as int),
        decreases last - i,
    {
        if stands_at(hay, needle, i) {
            return Some(i);
        }
        if i == last {
            assert(first_at(hay@, needle@, i + 1) is None);
            return None;
        }
        i += 1;
    }
}

/// Place `i` of `hay` starts a line: it is the start of `hay`, or it follows a
/// line feed.
pub open spec fn starts_line(hay: Seq<u8>, i: int) -> bool {
    i == 0 || (0 < i <= hay.len() && hay[i - 1] == 10)
}

/// A line of `hay` begins at place `i` with `marker`. Where `whole` is set, the
/// line is `marker` and nothing more: a line feed follows it.
pub open spec fn line_at(hay: Seq<u8>, marker: Seq<u8>, i: int, whole: bool) -> bool {
    &&& starts_line(hay, i)
    &&& occurs_at(hay, marker, i)
    &&& whole ==> i + marker.len() < hay.len() && hay[i + marker.len()] == 10
}

/// The first place at or after `from` where a line of `hay` begins with
/// `marker`, or, where `whole` is set, is `marker`.
pub open spec fn first_line(hay: Seq<u8>, marker: Seq<u8>, from: int, whole: bool) -> Option<int>
    decreases hay.len() + 1 - from,
{
    if from < 0 || from + marker.len() > hay.len() {
        None
    } else if line_at(hay, marker, from, whole) {
        Some(from)
    } else {
        first_line(hay, marker, from + 1, whole)
    }
}

/// What `first_line` finds is such a line, and none begins before it; where it
/// finds nothing, there is none from `from` on.
pub proof fn lemma_first_line(hay: Seq<u8>, marker: Seq<u8>, from: int, whole: bool)
    requires
        0 <= from,
    ensures
        match first_line(hay, marker, from, whole) {
            Some(i) => from <= i && line_at(hay, marker, i, whole) && forall|j: int|
                from <= j < i ==> !line_at(hay, marker, j, whole),
            None => forall|j: int| from <= j ==> !line_at(hay, marker, j, whole),
        },
    decreases hay.len() + 1 - from,
{
    if from + marker.len() <= hay.len() && !line_at(hay, marker, from, whole) {
        lemma_first_line(hay, marker, from + 1, whole);
    }
}

/// Whether a line of `hay` begins at place `i` with `marker`, or, where `whole`
/// is set, is `marker`.
pub fn line_stands_at(hay: &[u8], marker: &[u8], i: usize, whole: bool) -> (r: bool)
    ensures
        r == line_at(hay@, marker@, i as int, whole),
{
    if i > 0 && (i > hay.len() || hay[i - 1] != 10) {
        return false;
    }
    if !stands_at(hay, marker, i) {
        return false;
    }
    if whole {
        let after = i + marker.len();
        after < hay.len() && hay[after] == 10
    } else {
        true
    }
}

/// Finds the first place at or after `from` where a line of `hay` begins with
/// `marker`, or, where `whole` is set, is `marker`.
pub fn find_line(hay: &[u8], marker: &[u8], from: usize, whole: bool) -> (r: Option<usize>)
    ensures
        match first_line(hay@, marker@, from as int, whole) {
            Some(i) => from <= i && r == Some(i as usize) && i + marker@.len() <= hay@.len() && (
            whole ==> i + marker@.len() < hay@.len()),
            None => r is None,
        },
{
    proof {
        lemma_first_line(hay@, marker@, from as int, whole);
    }
    if from > hay.len() || marker.len() > hay.len() - from {
        return None;
    }
    let last = hay.len() - marker.len();
    let mut i: usize = from;
    loop
        invariant
            from <= i <= last,
            last == hay.len() - marker.len(),
            first_line(hay@, marker@, from as int, whole) == first_line(
                hay@,
                marker@,
                i as int,
                whole,
            ),
        decreases last - i,
    {
        if line_stands_at(hay, marker, i, whole) {
            return Some(i);
        }
        if i == last {
            assert(first_line(hay@, marker@, i + 1, whole) is None);
            return None;
        }
        i += 1;
    }
}

/// A byte of ASCII white space: space, tab, line feed, vertical tab, form feed
/// or carriage return.
pub open spec fn is_space(b: u8) -> bool {
    b == 32 || (9 <= b <= 13)
}

/// The length of `bytes` without its trailing white space.
pub open spec fn trimmed_len(bytes: Seq<u8>) -> int
    decreases bytes.len(),
{
    if bytes.len() == 0 {
        0
    } else if is_space(bytes.last()) {
        trimmed_len(bytes.drop_last())
    } else {
        bytes.len() as int
    }
}

/// `bytes` without its trailing white space.
pub open spec fn trim_end(bytes: Seq<u8>) -> Seq<u8> {
    bytes.take(trimmed_len(bytes))
}

/// Cutting trailing white space leaves a prefix.
pub proof fn lemma_trimmed_len(bytes: Seq<u8>)
    ensures
        0 <= trimmed_len(bytes) <= bytes.len(),
    decreases bytes.len(),
{
    if bytes.len() > 0 && is_space(bytes.last()) {
        lemma_trimmed_len(bytes.drop_last());
    }
}

/// Cuts the trailing white space off a slice.
pub fn trimmed(bytes: &[u8]) -> (r: &[u8])
    ensures
        r@ == trim_end(bytes@),
{
    let mut n: usize = bytes.len();
    assert(bytes@.take(n as int) =~= bytes@);
    while n > 0 && (bytes[n - 1] == 32 || (9 <= bytes[n - 1] && bytes[n - 1] <= 13))
        invariant
            n <= bytes.len(),
            trimmed_len(bytes@) == trimmed_len(bytes@.take(n as int)),
        decreases n,
    {
        assert(bytes@.take(n as int).drop_last() =~= bytes@.take(n - 1));
        n -= 1;
    }
    proof {
        if n > 0 {
            assert(bytes@.take(n as int).last() == bytes@[n - 1]);
        }
        assert(bytes@.subrange(0, n as int) =~= bytes@.take(n as int));
    }
    slice_subrange(bytes, 0, n)
}

} // verus!
