//! The decorative room-name generator: an adjective, a noun and a verb
//! drawn from three fixed vocabularies and joined with dashes. The choice is
//! random; the name plays no part in protocol correctness.

use vstd::prelude::*;
use vstd::string::{StringExecFns, StrSliceExecFns};

verus! {

/// Number of words in each of the three vocabularies.
pub const WORD_CHOICES: usize = 8;

pub open spec fn spec_adjective(i: int) -> Seq<char> {
    if i == 0 {
        "arcane"@
    } else if i == 1 {
        "mossy"@
    } else if i == 2 {
        "gentle"@
    } else if i == 3 {
        "hidden"@
    } else if i == 4 {
        "amber"@
    } else if i == 5 {
        "quiet"@
    } else if i == 6 {
        "vivid"@
    } else {
        "restless"@
    }
}

pub open spec fn spec_noun(i: int) -> Seq<char> {
    if i == 0 {
        "memory"@
    } else if i == 1 {
        "lawn"@
    } else if i == 2 {
        "river"@
    } else if i == 3 {
        "ember"@
    } else if i == 4 {
        "meadow"@
    } else if i == 5 {
        "lantern"@
    } else if i == 6 {
        "harbor"@
    } else {
        "thicket"@
    }
}

pub open spec fn spec_verb(i: int) -> Seq<char> {
    if i == 0 {
        "hoping"@
    } else if i == 1 {
        "drifting"@
    } else if i == 2 {
        "waking"@
    } else if i == 3 {
        "humming"@
    } else if i == 4 {
        "glowing"@
    } else if i == 5 {
        "wandering"@
    } else if i == 6 {
        "settling"@
    } else {
        "listening"@
    }
}

/// The name built from the words at the three given indices.
pub open spec fn spec_room_name(i: int, j: int, k: int) -> Seq<char> {
    spec_adjective(i) + "-"@ + spec_noun(j) + "-"@ + spec_verb(k)
}

fn adjective(i: usize) -> (r: &'static str)
    requires
        i < WORD_CHOICES,
    ensures
        r@ == spec_adjective(i as int),
{
    if i == 0 {
        "arcane"
    } else if i == 1 {
        "mossy"
    } else if i == 2 {
        "gentle"
    } else if i == 3 {
        "hidden"
    } else if i == 4 {
        "amber"
    } else if i == 5 {
        "quiet"
    } else if i == 6 {
        "vivid"
    } else {
        "restless"
    }
}

fn noun(i: usize) -> (r: &'static str)
    requires
        i < WORD_CHOICES,
    ensures
        r@ == spec_noun(i as int),
{
    if i == 0 {
        "memory"
    } else if i == 1 {
        "lawn"
    } else if i == 2 {
        "river"
    } else if i == 3 {
        "ember"
    } else if i == 4 {
        "meadow"
    } else if i == 5 {
        "lantern"
    } else if i == 6 {
        "harbor"
    } else {
        "thicket"
    }
}

fn verb(i: usize) -> (r: &'static str)
    requires
        i < WORD_CHOICES,
    ensures
        r@ == spec_verb(i as int),
{
    if i == 0 {
        "hoping"
    } else if i == 1 {
        "drifting"
    } else if i == 2 {
        "waking"
    } else if i == 3 {
        "humming"
    } else if i == 4 {
        "glowing"
    } else if i == 5 {
        "wandering"
    } else if i == 6 {
        "settling"
    } else {
        "listening"
    }
}

/// The name at the three given vocabulary indices, joined with dashes.
pub fn room_name_from(i: usize, j: usize, k: usize) -> (r: String)
    requires
        i < WORD_CHOICES,
        j < WORD_CHOICES,
        k < WORD_CHOICES,
    ensures
        r@ == spec_room_name(i as int, j as int, k as int),
{
    let mut name = String::from_str(adjective(i));
    name.append("-");
    name.append(noun(j));
    name.append("-");
    name.append(verb(k));
    name
}

/// Relies on `rand::random_range`: a draw from `0..n` lies below `n` (the
/// range is nonempty, so the call returns).
#[verifier::external_body]
fn random_index(n: usize) -> (r: usize)
    requires
        1 <= n,
    ensures
        r < n,
{
    rand::random_range(0..n)
}

/// A room name drawn at random from the fixed vocabularies.
pub fn random_room_name() -> (r: String)
    ensures
        exists|i: int, j: int, k: int|
            0 <= i < WORD_CHOICES && 0 <= j < WORD_CHOICES && 0 <= k < WORD_CHOICES && r@
                == spec_room_name(i, j, k),
{
    let i = random_index(WORD_CHOICES);
    let j = random_index(WORD_CHOICES);
    let k = random_index(WORD_CHOICES);
    let name = room_name_from(i, j, k);
    proof {
        assert(name@ == spec_room_name(i as int, j as int, k as int));
    }
    name
}

} // verus!
