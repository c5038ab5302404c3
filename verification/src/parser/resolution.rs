//! Scopes of declared identifiers, searched from the outermost scope inwards.

use vstd::prelude::*;
use crate::parser::similar::{closest, distances_to, suggest};
use crate::text::strs_match;

verus! {

/// The strings of a vector, as character sequences.
pub open spec fn names_of(v: Seq<String>) -> Seq<Seq<char>> {
    v.map_values(|s: String| s@)
}

/// The identifiers declared in each scope, outermost first.
#[derive(Debug)]
pub struct Resolution {
    matrix: Vec<Vec<String>>,
}

/// Every identifier of a list of scopes, outermost scope first, each in declaration order.
fn all_identifiers(matrix: &Vec<Vec<String>>) -> (all: Vec<String>)
    ensures
        names_of(all@) == matrix@.map_values(|v: Vec<String>| names_of(v@)).flatten(),
{
    let ghost scopes = matrix@.map_values(|v: Vec<String>| names_of(v@));
    let mut all: Vec<String> = Vec::new();
    let mut k: usize = 0;
    while k < matrix.len()
        invariant
            k <= matrix.len(),
            scopes == matrix@.map_values(|v: Vec<String>| names_of(v@)),
            names_of(all@) == scopes.subrange(0, k as int).flatten_alt(),
        decreases matrix.len() - k,
    {
        let v = &matrix[k];
        let ghost base = names_of(all@);
        let mut j: usize = 0;
        while j < v.len()
            invariant
                j <= v.len(),
                names_of(all@) == base + names_of(v@).subrange(0, j as int),
            decreases v.len() - j,
        {
            let ghost before = all@;
            all.push(v[j].clone());
            assert(names_of(all@) =~= names_of(before).push(v@[j as int]@));
            assert(names_of(v@).subrange(0, j + 1) =~= names_of(v@).subrange(0, j as int).push(
                v@[j as int]@,
            ));
            assert(names_of(all@) =~= base + names_of(v@).subrange(0, j + 1));
            j = j + 1;
        }
        proof {
            assert(names_of(v@).subrange(0, v.len() as int) =~= names_of(v@));
            let q = scopes.subrange(0, k + 1);
            assert(q.drop_last() =~= scopes.subrange(0, k as int));
            assert(q.last() == names_of(v@));
        }
        k = k + 1;
    }
    proof {
        assert(scopes.subrange(0, matrix.len() as int) =~= scopes);
        scopes.lemma_flatten_and_flatten_alt_are_equivalent();
    }
    all
}

/// Whether `id` is one of the strings of `all`.
fn contains_name(all: &Vec<String>, id: &String) -> (b: bool)
    ensures
        b == names_of(all@).contains(id@),
{
    let mut i: usize = 0;
    while i < all.len()
        invariant
            i <= all.len(),
            forall|k: int| 0 <= k < i ==> all@[k]@ != id@,
        decreases all.len() - i,
    {
        if strs_match(all[i].as_str(), id.as_str()) {
            assert(names_of(all@)[i as int] == id@);
            return true;
        }
        i = i + 1;
    }
    assert forall|k: int| 0 <= k < names_of(all@).len() implies names_of(all@)[k] != id@ by {
        assert(names_of(all@)[k] == all@[k]@);
    }
    false
}

impl Resolution {
    /// The declared identifiers, scope by scope, outermost first.
    pub closed spec fn scopes(self) -> Seq<Seq<Seq<char>>> {
        self.matrix@.map_values(|v: Vec<String>| names_of(v@))
    }

    /// A resolution with no scope.
    pub fn new() -> (r: Resolution)
        ensures
            r.scopes() == Seq::<Seq<Seq<char>>>::empty(),
    {
        let matrix: Vec<Vec<String>> = Vec::new();
        let r = Resolution { matrix };
        assert(r.scopes() =~= Seq::<Seq<Seq<char>>>::empty());
        r
    }

    /// Opens a new, empty, innermost scope.
    pub fn add_scope(&mut self)
        ensures
            final(self).scopes() == old(self).scopes().push(Seq::empty()),
    {
        let fresh: Vec<String> = Vec::new();
        assert(names_of(fresh@) =~= Seq::<Seq<char>>::empty());
        self.matrix.push(fresh);
        assert(self.scopes() =~= old(self).scopes().push(Seq::empty()));
    }

    /// Closes the innermost scope, which must exist.
    pub fn remove_scope(&mut self)
        requires
            old(self).scopes().len() > 0,
        ensures
            final(self).scopes() == old(self).scopes().drop_last(),
    {
        self.matrix.pop();
        assert(self.scopes() =~= old(self).scopes().drop_last());
    }

    /// Declares `id` in the innermost scope, which must exist.
    pub fn add_identifier(&mut self, id: &String)
        requires
            old(self).scopes().len() > 0,
        ensures
            final(self).scopes() == old(self).scopes().update(
                old(self).scopes().len() - 1,
                old(self).scopes().last().push(id@),
            ),
    {
        let index = self.matrix.len() - 1;
        let mut scope = Vec::new();
        std::mem::swap(&mut scope, &mut self.matrix[index]);
        let ghost before = scope@;
        scope.push(id.clone());
        std::mem::swap(&mut scope, &mut self.matrix[index]);
        proof {
            assert(names_of(self.matrix@[index as int]@) =~= names_of(before).push(id@));
            assert(self.scopes() =~= old(self).scopes().update(
                old(self).scopes().len() - 1,
                old(self).scopes().last().push(id@),
            ));
        }
    }

    /// `Ok` when `id` is declared in some scope; otherwise the declared identifier closest to it
    /// by edit distance, the empty string if none is close enough.
    pub fn search_identifier(&self, id: &String) -> (r: Result<(), String>)
        ensures
            match r {
                Ok(()) => self.scopes().flatten().contains(id@),
                Err(s) => !self.scopes().flatten().contains(id@) && s@ == closest(
                    self.scopes().flatten(),
                    distances_to(self.scopes().flatten(), id@),
                ).0,
            },
    {
        let all = all_identifiers(&self.matrix);
        if contains_name(&all, id) {
            return Ok(());
        }
        Err(suggest(&all, id))
    }
}

/// Once `add_identifier` has declared `id`, searching it succeeds.
pub proof fn lemma_add_then_search(scopes: Seq<Seq<Seq<char>>>, id: Seq<char>)
    requires
        scopes.len() > 0,
    ensures
        scopes.update(scopes.len() - 1, scopes.last().push(id)).flatten().contains(id),
{
    crate::parser::symbol_table::lemma_flatten_push_last(scopes, id);
    assert(scopes.flatten().push(id)[scopes.flatten().len() as int] == id);
}

/// Closing a scope just opened gives back the scopes there were before.
pub proof fn lemma_add_then_remove_scope(scopes: Seq<Seq<Seq<char>>>)
    ensures
        scopes.push(Seq::empty()).drop_last() == scopes,
{
    assert(scopes.push(Seq::empty()).drop_last() =~= scopes);
}

/// The scopes after `add_identifier` of each of `ids` in order.
pub open spec fn after_identifiers(scopes: Seq<Seq<Seq<char>>>, ids: Seq<Seq<char>>) -> Seq<Seq<Seq<char>>>
    decreases ids.len(),
{
    if ids.len() == 0 {
        scopes
    } else {
        let prev = after_identifiers(scopes, ids.drop_last());
        prev.update(prev.len() - 1, prev.last().push(ids.last()))
    }
}

proof fn lemma_identifiers_keep_outer(scopes: Seq<Seq<Seq<char>>>, ids: Seq<Seq<char>>)
    requires
        scopes.len() >= 1,
    ensures
        after_identifiers(scopes, ids).len() == scopes.len(),
        after_identifiers(scopes, ids).drop_last() == scopes.drop_last(),
    decreases ids.len(),
{
    if ids.len() > 0 {
        lemma_identifiers_keep_outer(scopes, ids.drop_last());
        let prev = after_identifiers(scopes, ids.drop_last());
        assert(prev.update(prev.len() - 1, prev.last().push(ids.last())).drop_last() =~= prev.drop_last());
    }
}

/// Opening a scope, declaring identifiers in it and closing it gives back the scopes there were
/// before, so every search gives what it gave before.
pub proof fn lemma_scope_round_trip(scopes: Seq<Seq<Seq<char>>>, ids: Seq<Seq<char>>)
    ensures
        after_identifiers(scopes.push(Seq::empty()), ids).drop_last() == scopes,
        after_identifiers(scopes.push(Seq::empty()), ids).drop_last().flatten() == scopes.flatten(),
{
    lemma_identifiers_keep_outer(scopes.push(Seq::empty()), ids);
    assert(scopes.push(Seq::empty()).drop_last() =~= scopes);
}

} // verus!
