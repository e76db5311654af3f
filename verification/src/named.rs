//! Lists of named entries, looked up by name: the first entry of a name
//! is the one that counts.

use vstd::prelude::*;

verus! {

/// The names of the entries, in their order.
pub open spec fn names<V>(entries: Seq<(String, V)>) -> Seq<Seq<char>> {
    entries.map_values(|e: (String, V)| e.0@)
}

/// Where the first of `names` that equals `name` stands; their number
/// where none does.
pub open spec fn place_of(names: Seq<Seq<char>>, name: Seq<char>) -> int
    decreases names.len(),
{
    if names.len() == 0 {
        0
    } else if names[0] == name {
        0
    } else {
        1 + place_of(names.drop_first(), name)
    }
}

/// The place of a name is in the list or at its end; no name before it is
/// the name, and the name at it is.
pub proof fn lemma_place_of(names: Seq<Seq<char>>, name: Seq<char>)
    ensures
        0 <= place_of(names, name) <= names.len(),
        forall|j: int| 0 <= j < place_of(names, name) ==> names[j] != name,
        place_of(names, name) < names.len() ==> names[place_of(names, name)] == name,
    decreases names.len(),
{
    if names.len() > 0 && names[0] != name {
        lemma_place_of(names.drop_first(), name);
        assert forall|j: int| 0 <= j < place_of(names, name) implies names[j] != name by {
            if j > 0 {
                assert(names.drop_first()[j - 1] == names[j]);
            }
        }
    }
}

/// A place before which no name is the name, and at which the name
/// stands or the list ends, is the place of the name.
pub proof fn lemma_place_is(names: Seq<Seq<char>>, name: Seq<char>, i: int)
    requires
        0 <= i <= names.len(),
        forall|j: int| 0 <= j < i ==> names[j] != name,
        i < names.len() ==> names[i] == name,
    ensures
        place_of(names, name) == i,
{
    lemma_place_of(names, name);
    let p = place_of(names, name);
    if p < i {
        assert(names[p] != name);
    }
    if p > i {
        assert(names[i] != name);
    }
}

/// Where the first entry named `name` stands; the number of entries where
/// there is none.
pub fn find_named<V>(entries: &Vec<(String, V)>, name: &str) -> (r: usize)
    ensures
        r == place_of(names(entries@), name@),
        r <= entries.len(),
        r < entries.len() ==> entries[r as int].0@ == name@,
{
    let wanted = name.to_owned();
    let ghost all = names(entries@);
    let mut i: usize = 0;
    while i < entries.len()
        invariant
            0 <= i <= entries.len(),
            wanted@ == name@,
            all == names(entries@),
            forall|j: int| 0 <= j < i ==> all[j] != name@,
        decreases entries.len() - i,
    {
        proof {
            assert(all[i as int] == entries[i as int].0@);
        }
        if entries[i].0 == wanted {
            proof {
                lemma_place_is(all, name@, i as int);
            }
            return i;
        }
        i = i + 1;
    }
    proof {
        lemma_place_is(all, name@, i as int);
    }
    i
}

} // verus!
