//! Suggestions for unknown identifiers: the known name closest to the unknown one by edit
//! distance.

use vstd::prelude::*;

verus! {

/// The least of three numbers.
pub open spec fn min3(x: nat, y: nat, z: nat) -> nat {
    if x <= y && x <= z {
        x
    } else if y <= z {
        y
    } else {
        z
    }
}

/// The Levenshtein edit distance between two strings: the least number of single-character
/// insertions, deletions and substitutions turning `a` into `b`.
pub open spec fn levenshtein(a: Seq<char>, b: Seq<char>) -> nat
    decreases a.len() + b.len(),
{
    if a.len() == 0 {
        b.len()
    } else if b.len() == 0 {
        a.len()
    } else {
        min3(
            levenshtein(a.drop_last(), b) + 1,
            levenshtein(a, b.drop_last()) + 1,
            levenshtein(a.drop_last(), b.drop_last()) + if a.last() == b.last() {
                0nat
            } else {
                1nat
            },
        )
    }
}

/// The edit distance of two strings as a machine integer (it is at most the longer length).
pub open spec fn edit_distance_of(a: Seq<char>, b: Seq<char>) -> usize {
    levenshtein(a, b) as usize
}

/// Trusted: `edit_distance::edit_distance`, documented as the Levenshtein distance between the
/// two strings: the number of single-character insertions, deletions and substitutions turning
/// `a` into `b`, counted over characters.
#[verifier::external_body]
fn distance_between(a: &str, b: &str) -> (d: usize)
    ensures
        d == levenshtein(a@, b@),
{
    ::edit_distance::edit_distance(a, b)
}

/// The distance above which no name is suggested: only names strictly closer are candidates.
pub const SUGGESTION_LIMIT: usize = 1000;

/// The name suggested among `names`, whose distances to the unknown name are `dists`, with the
/// distance of the suggestion: the first name strictly closer than every name before it and
/// than the limit; the empty name at the limit when there is none.
pub open spec fn closest(names: Seq<Seq<char>>, dists: Seq<usize>) -> (Seq<char>, int)
    decreases names.len(),
{
    if names.len() == 0 {
        (Seq::empty(), SUGGESTION_LIMIT as int)
    } else {
        let n = names.len() - 1;
        let best = closest(names.subrange(0, n), dists);
        if (dists[n] as int) < best.1 {
            (names[n], dists[n] as int)
        } else {
            best
        }
    }
}

/// The name among `names` closest to the unknown one, given the distance of each name to it in
/// `distances`: the first one at the smallest distance, if that distance is below the limit;
/// otherwise the empty string.
pub fn closest_name(names: &Vec<String>, distances: &Vec<usize>) -> (r: String)
    requires
        names.len() == distances.len(),
    ensures
        r@ == closest(names@.map_values(|s: String| s@), distances@).0,
{
    let ghost ns = names@.map_values(|s: String| s@);
    let mut closer_string = String::new();
    let mut closer_distance: usize = SUGGESTION_LIMIT;
    let mut i: usize = 0;
    while i < names.len()
        invariant
            i <= names.len(),
            names.len() == distances.len(),
            ns == names@.map_values(|s: String| s@),
            (closer_string@, closer_distance as int) == closest(ns.subrange(0, i as int), distances@),
        decreases names.len() - i,
    {
        proof {
            let p = ns.subrange(0, i + 1);
            assert(p.subrange(0, i as int) =~= ns.subrange(0, i as int));
            assert(p[i as int] == names@[i as int]@);
        }
        if distances[i] < closer_distance {
            closer_string = names[i].clone();
            closer_distance = distances[i];
        }
        i = i + 1;
    }
    assert(ns.subrange(0, names.len() as int) =~= ns);
    closer_string
}

/// The distance of each name to `id`.
pub open spec fn distances_to(names: Seq<Seq<char>>, id: Seq<char>) -> Seq<usize> {
    names.map_values(|n: Seq<char>| edit_distance_of(n, id))
}

/// The name among `names` to suggest in place of the unknown `id`.
pub fn suggest(names: &Vec<String>, id: &String) -> (r: String)
    ensures
        r@ == closest(
            names@.map_values(|s: String| s@),
            distances_to(names@.map_values(|s: String| s@), id@),
        ).0,
{
    let ghost ns = names@.map_values(|s: String| s@);
    let mut distances: Vec<usize> = Vec::new();
    let mut i: usize = 0;
    while i < names.len()
        invariant
            i <= names.len(),
            ns == names@.map_values(|s: String| s@),
            distances@ == distances_to(ns, id@).subrange(0, i as int),
        decreases names.len() - i,
    {
        let d = distance_between(names[i].as_str(), id.as_str());
        distances.push(d);
        i = i + 1;
        assert(distances@ =~= distances_to(ns, id@).subrange(0, i as int));
    }
    proof {
        assert(distances@ =~= distances_to(ns, id@));
        lemma_closest_prefix(ns, distances@, distances_to(ns, id@));
    }
    closest_name(names, &distances)
}

/// The suggestion depends only on the distances of the names it looks at.
pub proof fn lemma_closest_prefix(names: Seq<Seq<char>>, d1: Seq<usize>, d2: Seq<usize>)
    requires
        d1.len() >= names.len(),
        d2.len() >= names.len(),
        forall|i: int| 0 <= i < names.len() ==> d1[i] == d2[i],
    ensures
        closest(names, d1) == closest(names, d2),
    decreases names.len(),
{
    if names.len() > 0 {
        lemma_closest_prefix(names.subrange(0, names.len() - 1), d1, d2);
    }
}

} // verus!
