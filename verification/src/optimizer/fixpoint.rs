//! The optimizer's result is a fixpoint: dead code removal removes nothing more from it, nor
//! does control flow removal, and optimizing it again gives it back.

use vstd::prelude::*;
use crate::lirgen::irnode::{dest_of, IrModel};
use crate::optimizer::optimizer::{
    always_critical, closed, dce_critical, dce_keep, embeds, function_nodes, is_alloc_to,
    is_function, is_init, is_program, justified, lemma_needed_regs_mono, lemma_optimized,
    lemma_pass_program, lemma_pass_unchanged, lemma_select_len, local_allocs, needed_regs,
    nonlocal_store, optimized, pass_changed, pass_program,
    program_functions, provides, select,
};

verus! {

/// The positions of the elements that `select` keeps: in order, all marked, and every marked
/// position among them.
pub proof fn lemma_select_positions<A>(s: Seq<A>, keep: Seq<bool>) -> (f: Seq<int>)
    ensures
        embeds(f, select(s, keep), s),
        forall|t: int| 0 <= t < f.len() ==> #[trigger] keep[f[t]],
        forall|i: int| 0 <= i < s.len() && #[trigger] keep[i] ==> exists|t: int| 0 <= t < f.len() && f[t] == i,
    decreases s.len(),
{
    if s.len() == 0 {
        Seq::empty()
    } else {
        let n = s.len() - 1;
        let p = s.subrange(0, n);
        let f0 = lemma_select_positions(p, keep);
        if keep[n] {
            let g = f0.push(n);
            assert(embeds(g, select(s, keep), s)) by {
                assert forall|t: int| 0 <= t < select(s, keep).len() implies 0 <= #[trigger] g[t] < s.len()
                    && select(s, keep)[t] == s[g[t]] by {
                    if t < f0.len() {
                        assert(p[f0[t]] == s[f0[t]]);
                    }
                }
            }
            assert forall|i: int| 0 <= i < s.len() && #[trigger] keep[i] implies exists|t: int|
                0 <= t < g.len() && g[t] == i by {
                if i == n {
                    assert(g[f0.len() as int] == n);
                } else {
                    let t = choose|t: int| 0 <= t < f0.len() && f0[t] == i;
                    assert(g[t] == i);
                }
            }
            assert forall|t: int| 0 <= t < g.len() implies #[trigger] keep[g[t]] by {
                if t < f0.len() {
                    assert(g[t] == f0[t]);
                }
            }
            g
        } else {
            assert(embeds(f0, select(s, keep), s)) by {
                assert forall|t: int| 0 <= t < select(s, keep).len() implies 0 <= #[trigger] f0[t] < s.len()
                    && select(s, keep)[t] == s[f0[t]] by {
                    assert(p[f0[t]] == s[f0[t]]);
                }
            }
            f0
        }
    }
}

/// The critical positions of a body.
pub open spec fn critical_set(nodes: Seq<IrModel>) -> Set<int> {
    Set::new(|i: int| 0 <= i < nodes.len() && dce_critical(nodes, i))
}

/// The critical positions form a closed set, the least one.
pub proof fn lemma_critical_closed(nodes: Seq<IrModel>)
    ensures
        closed(nodes, critical_set(nodes)),
{
    let k = critical_set(nodes);
    assert forall|i: int| 0 <= i < nodes.len() && #[trigger] justified(nodes, k, i) implies k.contains(i) by {
        assert forall|m: Set<int>| #[trigger] closed(nodes, m) implies m.contains(i) by {
            assert forall|j: int| k.contains(j) implies m.contains(j) by {
                assert(dce_critical(nodes, j));
            }
            assert(k.subset_of(m));
            lemma_needed_regs_mono(nodes, k, m);
            assert(justified(nodes, m, i));
        }
    }
}

/// The local variables of a selection of a body are local variables of the body.
proof fn lemma_local_allocs_select(nodes: Seq<IrModel>, out: Seq<IrModel>, f: Seq<int>, r: u32)
    requires
        embeds(f, out, nodes),
        local_allocs(out).contains(r),
    ensures
        local_allocs(nodes).contains(r),
{
    let k = choose|k: int| 0 <= k < out.len() && #[trigger] is_alloc_to(out[k], r);
    assert(is_alloc_to(nodes[f[k]], r));
}

/// A store kept by the selection that is not to a local variable of the body is not to a local
/// variable of the selection either.
proof fn lemma_nonlocal_select(nodes: Seq<IrModel>, out: Seq<IrModel>, f: Seq<int>, u: int)
    requires
        embeds(f, out, nodes),
        0 <= u < out.len(),
        nonlocal_store(nodes, f[u]),
    ensures
        nonlocal_store(out, u),
{
    if local_allocs(out).contains(dest_of(out[u])) {
        lemma_local_allocs_select(nodes, out, f, dest_of(out[u]));
    }
}

/// Dead code removal removes nothing from a body it has already cleaned.
pub proof fn lemma_dce_body_fixpoint(nodes: Seq<IrModel>)
    ensures
        select(select(nodes, dce_keep(nodes)), dce_keep(select(nodes, dce_keep(nodes)))) == select(
            nodes,
            dce_keep(nodes),
        ),
{
    let keep = dce_keep(nodes);
    let out = select(nodes, keep);
    let f = lemma_select_positions(nodes, keep);
    let kset = critical_set(nodes);
    lemma_critical_closed(nodes);
    assert forall|t: int| 0 <= t < out.len() implies #[trigger] dce_keep(out)[t] by {
        assert forall|mp: Set<int>| #[trigger] closed(out, mp) implies mp.contains(t) by {
            let nset = Set::new(|i: int| exists|u: int| 0 <= u < out.len() && mp.contains(u) && f[u] == i);
            assert(nset.subset_of(kset)) by {
                assert forall|i: int| nset.contains(i) implies kset.contains(i) by {
                    let u = choose|u: int| 0 <= u < out.len() && mp.contains(u) && f[u] == i;
                    assert(keep[f[u]]);
                }
            }
            assert forall|i: int| 0 <= i < nodes.len() && #[trigger] justified(nodes, nset, i) implies nset.contains(
                i,
            ) by {
                lemma_needed_regs_mono(nodes, nset, kset);
                assert(justified(nodes, kset, i));
                assert(kset.contains(i));
                assert(keep[i]);
                let u = choose|u: int| 0 <= u < f.len() && f[u] == i;
                assert(out[u] == nodes[i]);
                if always_critical(nodes[i]) {
                    assert(justified(out, mp, u));
                } else if nonlocal_store(nodes, i) {
                    lemma_nonlocal_select(nodes, out, f, u);
                    assert(justified(out, mp, u));
                } else {
                    let r = dest_of(nodes[i]);
                    assert(needed_regs(nodes, nset).contains(r));
                    let j = choose|j: int| nset.contains(j) && 0 <= j < nodes.len() && #[trigger] provides(nodes, j, r);
                    let v = choose|v: int| 0 <= v < out.len() && mp.contains(v) && f[v] == j;
                    assert(out[v] == nodes[j]);
                    if nonlocal_store(nodes, j) && dest_of(nodes[j]) == r {
                        lemma_nonlocal_select(nodes, out, f, v);
                    }
                    assert(provides(out, v, r));
                    assert(needed_regs(out, mp).contains(r));
                    assert(justified(out, mp, u));
                }
                assert(mp.contains(u));
            }
            assert(closed(nodes, nset));
            assert(keep[f[t]]);
            assert(dce_critical(nodes, f[t]));
            assert(nset.contains(f[t]));
            let u = choose|u: int| 0 <= u < out.len() && mp.contains(u) && f[u] == f[t];
            if u < t {
                assert(f[u] < f[t]);
            } else if u > t {
                assert(f[t] < f[u]);
            }
        }
        assert(dce_critical(out, t));
    }
    lemma_select_len(out, dce_keep(out));
}

/// A program whose functions dead code removal has cleaned is left alone by it.
proof fn lemma_dce_pass_fixpoint(m: IrModel)
    requires
        is_program(m),
    ensures
        pass_program(pass_program(m, true), true) == pass_program(m, true),
{
    lemma_pass_program(m, true);
    let d = pass_program(m, true);
    let fs = program_functions(m);
    let ds = program_functions(d);
    let es = program_functions(pass_program(d, true));
    assert forall|i: int| 0 <= i < ds.len() implies es[i] == ds[i] by {
        let f = fs[i];
        assert(is_function(f));
        if !is_init(f) {
            lemma_dce_body_fixpoint(function_nodes(f));
        }
    }
    assert(es =~= ds);
}

/// Dead code removal removes nothing from an optimized program.
pub proof fn lemma_optimized_dce_fixpoint(m: IrModel)
    requires
        is_program(m),
    ensures
        pass_program(optimized(m), true) == optimized(m),
    decreases crate::optimizer::optimizer::program_size(m),
{
    let d = pass_program(m, true);
    let c = pass_program(d, false);
    lemma_pass_program(m, true);
    lemma_pass_program(d, false);
    if pass_changed(program_functions(d), program_functions(c)) {
        lemma_optimized_dce_fixpoint(c);
    } else {
        lemma_pass_unchanged(d, false);
        lemma_dce_pass_fixpoint(m);
    }
}

/// Optimizing an optimized program gives it back: neither dead code removal nor control flow
/// removal finds anything more to remove.
pub proof fn lemma_optimized_idempotent(m: IrModel)
    requires
        is_program(m),
    ensures
        optimized(optimized(m)) == optimized(m),
        pass_program(optimized(m), true) == optimized(m),
        pass_program(optimized(m), false) == optimized(m),
{
    let r = optimized(m);
    lemma_optimized(m);
    lemma_optimized_dce_fixpoint(m);
    lemma_pass_unchanged(r, false);
    lemma_pass_program(r, true);
}

} // verus!
