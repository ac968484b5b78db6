//! Membership in a listing of database names.
//!
//! A listing is the sequence of names a deployment reports; the
//! check-before-create idiom asks whether a desired name is already present.

use vstd::prelude::*;

verus! {

/// A name is present in a listing when some entry of the listing has exactly
/// its characters.
pub open spec fn name_present(names: Seq<String>, name: Seq<char>) -> bool {
    exists|i: int| 0 <= i < names.len() && names[i]@ == name
}

/// Whether `name` occurs among `names`, compared character for character.
pub fn contains_name(names: &Vec<String>, name: &str) -> (r: bool)
    ensures
        r == name_present(names@, name@),
{
    let needle = String::from_str(name);
    let mut i: usize = 0;
    while i < names.len()
        invariant
            0 <= i <= names.len(),
            needle@ == name@,
            forall|j: int| 0 <= j < i ==> names@[j]@ != name@,
        decreases names.len() - i,
    {
        if names[i] == needle {
            return true;
        }
        i = i + 1;
    }
    false
}

} // verus!
