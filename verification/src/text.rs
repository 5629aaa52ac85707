//! Lists of strings, read through their views.

use vstd::prelude::*;

verus! {

/// The strings of a list, each as its sequence of characters.
pub open spec fn names(list: Seq<String>) -> Seq<Seq<char>> {
    Seq::new(list.len(), |i: int| list[i]@)
}

/// An optional string as its optional sequence of characters.
pub open spec fn opt_chars(text: Option<String>) -> Option<Seq<char>> {
    match text {
        Some(text) => Some(text@),
        None => None,
    }
}

/// The first `n` characters of `text`, or all of it where it is shorter.
pub open spec fn prefix(text: Seq<char>, n: nat) -> Seq<char> {
    if text.len() <= n {
        text
    } else {
        text.take(n as int)
    }
}

/// Pushing onto a list pushes the view of the new string onto its names.
pub proof fn lemma_names_push(list: Seq<String>, item: String)
    ensures
        names(list.push(item)) == names(list).push(item@),
{
    assert(names(list.push(item)) =~= names(list).push(item@));
}

/// Whether `list` holds a string equal to `name`.
pub fn contains_name(list: &Vec<String>, name: &String) -> (found: bool)
    ensures
        found == names(list@).contains(name@),
{
    let mut i: usize = 0;
    while i < list.len()
        invariant
            i <= list@.len(),
            forall|k: int| 0 <= k < i ==> #[trigger] names(list@)[k] != name@,
        decreases list@.len() - i,
    {
        if list[i] == *name {
            proof {
                assert(names(list@)[i as int] == name@);
            }
            return true;
        }
        i += 1;
    }
    false
}

/// Whether the strings of `list` are pairwise different.
pub fn all_distinct(list: &Vec<String>) -> (ok: bool)
    ensures
        ok == names(list@).no_duplicates(),
{
    let mut j: usize = 0;
    while j < list.len()
        invariant
            j <= list@.len(),
            forall|a: int, b: int|
                0 <= a < j && 0 <= b < j && a != b ==> names(list@)[a] != names(list@)[b],
        decreases list@.len() - j,
    {
        let mut i: usize = 0;
        while i < j
            invariant
                i <= j < list@.len(),
                forall|k: int| 0 <= k < i ==> #[trigger] names(list@)[k] != names(list@)[j as int],
            decreases j - i,
        {
            if list[i] == list[j] {
                proof {
                    assert(names(list@)[i as int] == names(list@)[j as int]);
                }
                return false;
            }
            i += 1;
        }
        j += 1;
    }
    true
}

/// A copy of `list`, string by string.
pub fn clone_names(list: &Vec<String>) -> (copy: Vec<String>)
    ensures
        copy@ == list@,
{
    let mut copy: Vec<String> = Vec::new();
    let mut i: usize = 0;
    while i < list.len()
        invariant
            i <= list@.len(),
            copy@ == list@.take(i as int),
        decreases list@.len() - i,
    {
        copy.push(list[i].clone());
        proof {
            assert(list@.take(i + 1) =~= list@.take(i as int).push(list@[i as int]));
        }
        i += 1;
    }
    proof {
        assert(list@.take(i as int) =~= list@);
    }
    copy
}

/// The first `n` characters of `text` as a string of its own.
pub fn leading(text: &String, n: usize) -> (head: String)
    ensures
        head@ == prefix(text@, n as nat),
{
    let length: usize = text.as_str().unicode_len();
    if length <= n {
        text.clone()
    } else {
        text.as_str().substring_char(0, n).to_owned()
    }
}

} // verus!
