use vstd::prelude::*;
use crate::normalize::{chars_of, normalize, normalized};

verus! {

/// `needle` occurs in `hay` starting at position `i`.
pub open spec fn occurs_at(hay: Seq<char>, needle: Seq<char>, i: int) -> bool {
    0 <= i && i + needle.len() <= hay.len() && hay.subrange(i, i + needle.len()) == needle
}

/// `needle` is a contiguous part of `hay` (the empty sequence is part of every one).
pub open spec fn contains_seq(hay: Seq<char>, needle: Seq<char>) -> bool {
    exists|i: int| occurs_at(hay, needle, i)
}

/// A device whose raw identifier is `identifier` is selected by `query`:
/// the normalised query is part of the normalised identifier, compared
/// character by character (so case matters).
pub open spec fn selects(identifier: Seq<char>, query: Seq<char>) -> bool {
    contains_seq(normalized(identifier), normalized(query))
}

/// A device whose identifier could be read (`Some`) and is selected by `query`.
/// A device whose identifier could not be read is never selected.
pub open spec fn selects_device(name: Option<String>, query: Seq<char>) -> bool {
    match name {
        Some(n) => selects(n@, query),
        None => false,
    }
}

/// The positions, in order, of the devices that `query` selects.
pub open spec fn selected_positions(names: Seq<Option<String>>, query: Seq<char>) -> Seq<usize>
    decreases names.len(),
{
    if names.len() == 0 {
        Seq::empty()
    } else {
        let rest = selected_positions(names.drop_last(), query);
        if selects_device(names.last(), query) {
            rest.push((names.len() - 1) as usize)
        } else {
            rest
        }
    }
}

fn occurs_at_exec(hay: &Vec<char>, needle: &Vec<char>, i: usize) -> (r: bool)
    requires
        i + needle@.len() <= hay@.len(),
    ensures
        r == occurs_at(hay@, needle@, i as int),
{
    let hay_len = hay.len();
    let mut j: usize = 0;
    while j < needle.len()
        invariant
            i + needle@.len() <= hay@.len(),
            hay_len == hay@.len(),
            j <= needle@.len(),
            forall|k: int| 0 <= k < j ==> hay@[i + k] == needle@[k],
        decreases needle@.len() - j,
    {
        if hay[i + j] != needle[j] {
            assert(hay@.subrange(i as int, i + needle@.len())[j as int] != needle@[j as int]);
            return false;
        }
        j = j + 1;
    }
    assert(hay@.subrange(i as int, i + needle@.len()) =~= needle@);
    true
}

/// Whether `needle` is a contiguous part of `hay`.
pub fn contains_chars(hay: &Vec<char>, needle: &Vec<char>) -> (r: bool)
    ensures
        r == contains_seq(hay@, needle@),
{
    if needle.len() > hay.len() {
        return false;
    }
    let last = hay.len() - needle.len();
    let mut i: usize = 0;
    loop
        invariant
            last == hay@.len() - needle@.len(),
            i <= last,
            forall|k: int| 0 <= k < i ==> !occurs_at(hay@, needle@, k),
        decreases last - i,
    {
        if occurs_at_exec(hay, needle, i) {
            return true;
        }
        if i == last {
            assert forall|k: int| !occurs_at(hay@, needle@, k) by {
                if 0 <= k && k != i {
                    assert(k < i || k > last);
                }
            }
            return false;
        }
        i = i + 1;
    }
}

/// Whether the device with raw identifier `identifier` is selected by `query`.
pub fn device_matches(identifier: &str, query: &str) -> (r: bool)
    ensures
        r == selects(identifier@, query@),
{
    let id = normalize(identifier);
    let q = normalize(query);
    let idc = chars_of(id.as_str());
    let qc = chars_of(q.as_str());
    contains_chars(&idc, &qc)
}

/// The positions, in enumeration order, of the devices that `query` selects;
/// `names[i]` is the raw identifier of device `i`, or `None` where it could
/// not be read.
pub fn matching_devices(names: &Vec<Option<String>>, query: &str) -> (r: Vec<usize>)
    ensures
        r@ == selected_positions(names@, query@),
{
    let mut r: Vec<usize> = Vec::new();
    let mut i: usize = 0;
    while i < names.len()
        invariant
            i <= names@.len(),
            r@ == selected_positions(names@.subrange(0, i as int), query@),
        decreases names@.len() - i,
    {
        let ghost before = names@.subrange(0, i as int);
        let ghost upto = names@.subrange(0, i + 1);
        assert(upto.drop_last() =~= before);
        assert(upto.last() == names@[i as int]);
        match &names[i] {
            Some(n) => {
                if device_matches(n.as_str(), query) {
                    r.push(i);
                }
            },
            None => {},
        }
        i = i + 1;
    }
    assert(names@.subrange(0, names@.len() as int) =~= names@);
    r
}

/// The selection holds exactly the devices that the query selects, each once,
/// in strictly increasing (enumeration) order.
pub proof fn lemma_selection_exact(names: Seq<Option<String>>, query: Seq<char>)
    requires
        names.len() <= usize::MAX,
    ensures
        forall|i: int|
            0 <= i < names.len() ==> (selected_positions(names, query).contains(i as usize)
                <==> selects_device(#[trigger] names[i], query)),
        forall|j: int|
            0 <= j < selected_positions(names, query).len() ==> #[trigger] selected_positions(
                names,
                query,
            )[j] < names.len(),
        forall|j: int, k: int|
            0 <= j < k < selected_positions(names, query).len() ==> #[trigger] selected_positions(
                names,
                query,
            )[j] < #[trigger] selected_positions(names, query)[k],
    decreases names.len(),
{
    if names.len() > 0 {
        let n = names.len() - 1;
        let rest = names.drop_last();
        lemma_selection_exact(rest, query);
        let sr = selected_positions(rest, query);
        let s = selected_positions(names, query);
        assert forall|i: int|
            0 <= i < names.len() implies (s.contains(i as usize)
                <==> selects_device(#[trigger] names[i], query)) by {
            if s.contains(i as usize) {
                let w = choose|w: int| 0 <= w < s.len() && s[w] == i as usize;
                if w < sr.len() {
                    assert(sr[w] == s[w]);
                    assert(sr.contains(i as usize));
                    assert(rest[i] == names[i]);
                }
            }
            if selects_device(names[i], query) {
                if i < n {
                    assert(rest[i] == names[i]);
                    assert(sr.contains(i as usize));
                    let w = choose|w: int| 0 <= w < sr.len() && sr[w] == i as usize;
                    assert(s[w] == sr[w]);
                } else {
                    assert(s[s.len() - 1] == i as usize);
                }
            }
        }
    }
}

} // verus!
