//! Names of objects and lookups by name.
//!
//! Every object of a system is known by its name. A list of names is modelled
//! as a sequence of character sequences, and a lookup by the first place at
//! which a name stands in such a list.

use vstd::prelude::*;
use vstd::string::*;

verus! {

/// The first place at which `name` stands in `names`, if it stands there at all.
pub open spec fn position_of(names: Seq<Seq<char>>, name: Seq<char>) -> Option<int>
    decreases names.len(),
{
    if names.len() == 0 {
        None
    } else if names.first() == name {
        Some(0int)
    } else {
        match position_of(names.drop_first(), name) {
            Some(i) => Some(i + 1),
            None => None,
        }
    }
}

/// No name stands twice in `names`.
pub open spec fn all_distinct(names: Seq<Seq<char>>) -> bool {
    forall|i: int, j: int| 0 <= i < j < names.len() ==> names[i] != names[j]
}

/// `position_of` gives the first index that holds the name, and `None` exactly
/// when no index does.
pub proof fn lemma_position_of(names: Seq<Seq<char>>, name: Seq<char>)
    ensures
        match position_of(names, name) {
            Some(i) => {
                &&& 0 <= i < names.len()
                &&& names[i] == name
                &&& forall|j: int| 0 <= j < i ==> names[j] != name
            },
            None => forall|j: int| 0 <= j < names.len() ==> names[j] != name,
        },
    decreases names.len(),
{
    if names.len() == 0 {
    } else if names.first() == name {
    } else {
        let rest = names.drop_first();
        lemma_position_of(rest, name);
        match position_of(rest, name) {
            Some(i) => {
                assert(names[i + 1] == rest[i]);
                assert forall|j: int| 0 <= j < i + 1 implies names[j] != name by {
                    if j > 0 {
                        assert(names[j] == rest[j - 1]);
                    }
                }
            },
            None => {
                assert forall|j: int| 0 <= j < names.len() implies names[j] != name by {
                    if j > 0 {
                        assert(names[j] == rest[j - 1]);
                    }
                }
            },
        }
    }
}

/// An index that holds the name, with no earlier one that does, is the
/// position of the name.
pub proof fn lemma_position_of_is(names: Seq<Seq<char>>, name: Seq<char>, i: int)
    requires
        0 <= i < names.len(),
        names[i] == name,
        forall|j: int| 0 <= j < i ==> names[j] != name,
    ensures
        position_of(names, name) == Some(i),
{
    lemma_position_of(names, name);
}

/// A name that no index holds has no position.
pub proof fn lemma_position_of_none(names: Seq<Seq<char>>, name: Seq<char>)
    requires
        forall|j: int| 0 <= j < names.len() ==> names[j] != name,
    ensures
        position_of(names, name) is None,
{
    lemma_position_of(names, name);
}

/// In a list without repetition every name is found at its own index.
pub proof fn lemma_position_of_distinct(names: Seq<Seq<char>>, i: int)
    requires
        all_distinct(names),
        0 <= i < names.len(),
    ensures
        position_of(names, names[i]) == Some(i),
{
    lemma_position_of(names, names[i]);
}

/// Tells whether two texts are the same, letter for letter.
pub fn same_text(a: &str, b: &str) -> (r: bool)
    ensures
        r == (a@ == b@),
{
    a.to_owned() == b.to_owned()
}

/// Finds the first place at which `name` stands in `names`.
pub fn position(names: &Vec<String>, name: &str) -> (r: Option<usize>)
    ensures
        r is Some <==> names.deep_view().contains(name@),
        match r {
            Some(i) => position_of(names.deep_view(), name@) == Some(i as int),
            None => position_of(names.deep_view(), name@) is None,
        },
{
    let wanted = name.to_owned();
    let n: usize = names.len();
    let mut i: usize = 0;
    while i < n
        invariant
            n == names.len(),
            i <= n,
            wanted@ == name@,
            forall|j: int| 0 <= j < i ==> names.deep_view()[j] != name@,
        decreases n - i,
    {
        if names[i] == wanted {
            proof {
                assert(names.deep_view()[i as int] == name@);
                lemma_position_of_is(names.deep_view(), name@, i as int);
            }
            return Some(i);
        }
        i = i + 1;
    }
    proof {
        lemma_position_of_none(names.deep_view(), name@);
    }
    None
}

/// Tells whether `name` stands in `names`.
pub fn contains_name(names: &Vec<String>, name: &str) -> (r: bool)
    ensures
        r == names.deep_view().contains(name@),
{
    position(names, name).is_some()
}

} // verus!
