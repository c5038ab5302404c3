//! Optimisation of the linear intermediate representation: removal of dead code and of jumps to
//! the labels right after them, repeated until nothing changes.

use vstd::prelude::*;
use crate::text::strs_match;
use crate::lirgen::irnode::{copy_vec, 
    dest_of, ir_list_model, lemma_ir_list_model, lemma_ir_list_model_push, srcs_of, IrModel, IrNode,
};

verus! {

/// The elements of `s` whose position is marked in `keep`, in order.
pub open spec fn select<A>(s: Seq<A>, keep: Seq<bool>) -> Seq<A>
    decreases s.len(),
{
    if s.len() == 0 {
        Seq::empty()
    } else {
        let p = select(s.subrange(0, s.len() - 1), keep);
        if keep[s.len() - 1] {
            p.push(s[s.len() - 1])
        } else {
            p
        }
    }
}

/// Whether a node is a label.
pub open spec fn is_label(n: IrModel) -> bool {
    n is Label
}

/// The target label of a branch.
pub open spec fn branch_label(n: IrModel) -> u32 {
    match n {
        IrModel::Branch(_, _, _, _, l) => l,
        _ => 0,
    }
}

/// Node `i` is a branch whose target label follows it with only labels in between, and `j` is
/// the first label after `i` carrying that target.
pub open spec fn jumps_to_next(nodes: Seq<IrModel>, i: int, j: int) -> bool {
    &&& 0 <= i < j < nodes.len()
    &&& nodes[i] is Branch
    &&& forall|k: int| #![trigger nodes[k]] i < k <= j ==> is_label(nodes[k])
    &&& nodes[j] == IrModel::Label(branch_label(nodes[i]))
    &&& forall|k: int| #![trigger nodes[k]] i < k < j ==> nodes[k] != IrModel::Label(branch_label(nodes[i]))
}

/// Whether control flow removal drops node `k`: a branch to a label right after it, or that
/// label.
pub open spec fn cf_removed(nodes: Seq<IrModel>, k: int) -> bool {
    (exists|j: int| #[trigger] jumps_to_next(nodes, k, j)) || (exists|i: int|
        #[trigger] jumps_to_next(nodes, i, k))
}

/// The nodes control flow removal keeps.
pub open spec fn cf_keep(nodes: Seq<IrModel>) -> Seq<bool> {
    Seq::new(nodes.len(), |k: int| !cf_removed(nodes, k))
}

/// The registers allocated by an `alloc` of the function: its local variables.
pub open spec fn local_allocs(nodes: Seq<IrModel>) -> Set<u32> {
    Set::new(|r: u32| exists|i: int| 0 <= i < nodes.len() && #[trigger] is_alloc_to(nodes[i], r))
}

/// Whether a node is an `alloc` of register `r`.
pub open spec fn is_alloc_to(n: IrModel, r: u32) -> bool {
    n is Alloc && dest_of(n) == r
}

/// Nodes that are never removed: returns, calls, branches and labels.
pub open spec fn always_critical(n: IrModel) -> bool {
    n is Return || n is Call || n is Branch || n is Label
}

/// Node `i` stores to an address that is not a local variable of the function.
pub open spec fn nonlocal_store(nodes: Seq<IrModel>, i: int) -> bool {
    nodes[i] is Store && !local_allocs(nodes).contains(dest_of(nodes[i]))
}

/// Keeping node `i` needs register `r`: it reads it, or it is a store to a non-local address held
/// in it.
pub open spec fn provides(nodes: Seq<IrModel>, i: int, r: u32) -> bool {
    srcs_of(nodes[i]).contains(r) || (nonlocal_store(nodes, i) && dest_of(nodes[i]) == r)
}

/// The registers needed by the nodes at the positions in `m`.
pub open spec fn needed_regs(nodes: Seq<IrModel>, m: Set<int>) -> Set<u32> {
    Set::new(
        |r: u32| exists|i: int| m.contains(i) && 0 <= i < nodes.len() && #[trigger] provides(nodes, i, r),
    )
}

/// Node `i` must be kept when the nodes at the positions in `m` are: it is never removed, it is
/// a store to a non-local address, or it writes a register they need.
pub open spec fn justified(nodes: Seq<IrModel>, m: Set<int>, i: int) -> bool {
    always_critical(nodes[i]) || nonlocal_store(nodes, i) || needed_regs(nodes, m).contains(
        dest_of(nodes[i]),
    )
}

/// A set of positions that holds every node it makes necessary.
pub open spec fn closed(nodes: Seq<IrModel>, m: Set<int>) -> bool {
    forall|i: int| 0 <= i < nodes.len() && #[trigger] justified(nodes, m, i) ==> m.contains(i)
}

/// Node `i` is critical: it belongs to every closed set of positions, so to the least one.
pub open spec fn dce_critical(nodes: Seq<IrModel>, i: int) -> bool {
    forall|m: Set<int>| #[trigger] closed(nodes, m) ==> m.contains(i)
}

/// The nodes dead code removal keeps: the critical ones.
pub open spec fn dce_keep(nodes: Seq<IrModel>) -> Seq<bool> {
    Seq::new(nodes.len(), |i: int| dce_critical(nodes, i))
}

/// The positions marked in `crit`.
pub open spec fn marked(crit: Seq<bool>) -> Set<int> {
    Set::new(|k: int| 0 <= k < crit.len() && crit[k])
}

/// The number of marked positions.
pub open spec fn count_true(s: Seq<bool>) -> nat
    decreases s.len(),
{
    if s.len() == 0 {
        0
    } else {
        count_true(s.subrange(0, s.len() - 1)) + if s[s.len() - 1] { 1nat } else { 0nat }
    }
}

/// Selecting from a sequence extended by one element.
pub proof fn lemma_select_push<A>(s: Seq<A>, x: A, keep: Seq<bool>)
    ensures
        select(s.push(x), keep) == if keep[s.len() as int] {
            select(s, keep).push(x)
        } else {
            select(s, keep)
        },
{
    assert(s.push(x).subrange(0, s.len() as int) =~= s);
}

/// A copy of the nodes whose position is marked in `keep`.
fn select_nodes(nodes: &Vec<IrNode>, keep: &Vec<bool>) -> (r: Vec<IrNode>)
    requires
        keep.len() == nodes.len(),
    ensures
        ir_list_model(r@) == select(ir_list_model(nodes@), keep@),
{
    let mut r: Vec<IrNode> = Vec::new();
    let mut i: usize = 0;
    while i < nodes.len()
        invariant
            i <= nodes.len(),
            keep.len() == nodes.len(),
            ir_list_model(r@) == select(ir_list_model(nodes@.subrange(0, i as int)), keep@),
        decreases nodes.len() - i,
    {
        let ghost p = nodes@.subrange(0, i as int);
        proof {
            assert(p.push(nodes@[i as int]) =~= nodes@.subrange(0, i + 1));
            lemma_ir_list_model_push(p, nodes@[i as int]);
            lemma_ir_list_model(p);
            lemma_select_push(ir_list_model(p), nodes@[i as int]@, keep@);
        }
        if keep[i] {
            let d = nodes[i].duplicate();
            proof {
                lemma_ir_list_model_push(r@, d);
            }
            r.push(d);
        }
        i = i + 1;
    }
    assert(nodes@.subrange(0, nodes.len() as int) =~= nodes@);
    r
}

/// A branch jumps to at most one label right after it.
pub proof fn lemma_jumps_to_next_unique(nodes: Seq<IrModel>, i: int, j1: int, j2: int)
    requires
        jumps_to_next(nodes, i, j1),
        jumps_to_next(nodes, i, j2),
    ensures
        j1 == j2,
{
    if j1 < j2 {
        assert(nodes[j1] == IrModel::Label(branch_label(nodes[i])));
    } else if j2 < j1 {
        assert(nodes[j2] == IrModel::Label(branch_label(nodes[i])));
    }
}

/// The removal state of control flow removal once the branches at positions `i` and above have
/// been looked at.
pub open spec fn cf_marked(ms: Seq<IrModel>, i: int, x: int) -> bool {
    (x >= i && exists|j: int| #[trigger] jumps_to_next(ms, x, j)) || (exists|b: int|
        #[trigger] jumps_to_next(ms, b, x) && b >= i)
}

/// The position of the label that the branch at position `i` jumps to, when that label follows
/// the branch with only labels in between.
fn find_next_target(nodes: &Vec<IrNode>, i: usize, label: u32) -> (r: Option<usize>)
    requires
        i < nodes.len(),
        ir_list_model(nodes@).len() == nodes.len(),
        ir_list_model(nodes@)[i as int] is Branch,
        branch_label(ir_list_model(nodes@)[i as int]) == label,
        forall|x: int| 0 <= x < nodes.len() ==> #[trigger] ir_list_model(nodes@)[x] == nodes@[x]@,
    ensures
        match r {
            Some(j) => jumps_to_next(ir_list_model(nodes@), i as int, j as int),
            None => forall|j: int| !jumps_to_next(ir_list_model(nodes@), i as int, j),
        },
{
    let ghost ms = ir_list_model(nodes@);
    let n = nodes.len();
    let mut j: usize = i + 1;
    while j < n
        invariant
            i < j <= n,
            n == nodes.len(),
            ms == ir_list_model(nodes@),
            ms.len() == n,
            forall|x: int| 0 <= x < n ==> #[trigger] ms[x] == nodes@[x]@,
            ms[i as int] is Branch,
            branch_label(ms[i as int]) == label,
            forall|k: int| #![trigger ms[k]] i < k < j ==> is_label(ms[k]) && ms[k] != IrModel::Label(label),
        decreases n - j,
    {
        assert(ms[j as int] == nodes@[j as int]@);
        match &nodes[j] {
            IrNode::Label(l) => {
                if *l == label {
                    assert(jumps_to_next(ms, i as int, j as int));
                    return Some(j);
                }
            },
            _ => {
                assert forall|jj: int| !jumps_to_next(ms, i as int, jj) by {
                    if jumps_to_next(ms, i as int, jj) {
                        if jj < j {
                            assert(ms[jj] != IrModel::Label(label));
                        } else {
                            assert(is_label(ms[j as int]));
                        }
                    }
                }
                return None;
            },
        }
        j = j + 1;
    }
    assert forall|jj: int| !jumps_to_next(ms, i as int, jj) by {
        if jumps_to_next(ms, i as int, jj) {
            assert(ms[jj] != IrModel::Label(label));
        }
    }
    None
}

/// Which nodes control flow removal keeps in a function body.
fn cf_keep_of(nodes: &Vec<IrNode>) -> (to_keep: Vec<bool>)
    ensures
        to_keep@ == cf_keep(ir_list_model(nodes@)),
{
    let ghost ms = ir_list_model(nodes@);
    proof {
        lemma_ir_list_model(nodes@);
    }
    let n = nodes.len();
    let mut to_remove: Vec<bool> = Vec::new();
    let mut k: usize = 0;
    while k < n
        invariant
            k <= n,
            n == nodes.len(),
            ms.len() == n,
            forall|x: int| 0 <= x < k ==> #[trigger] to_remove@[x] == cf_marked(ms, n as int, x),
            to_remove.len() == k,
        decreases n - k,
    {
        to_remove.push(false);
        k = k + 1;
    }
    let mut i: usize = n;
    while i > 0
        invariant
            i <= n,
            n == nodes.len(),
            ms == ir_list_model(nodes@),
            ms.len() == n,
            forall|x: int| 0 <= x < n ==> #[trigger] ms[x] == nodes@[x]@,
            to_remove.len() == n,
            forall|x: int| 0 <= x < n ==> #[trigger] to_remove@[x] == cf_marked(ms, i as int, x),
        decreases i,
    {
        i = i - 1;
        let ghost before = to_remove@;
        let mut found: Option<usize> = None;
        assert(ms[i as int] == nodes@[i as int]@);
        match &nodes[i] {
            IrNode::Branch(_, _, _, _, label) => {
                found = find_next_target(nodes, i, *label);
                match found {
                    Some(j) => {
                        to_remove.set(i, true);
                        to_remove.set(j, true);
                    },
                    None => {},
                }
            },
            _ => {},
        }
        proof {
            assert forall|x: int| 0 <= x < n implies #[trigger] to_remove@[x] == cf_marked(
                ms,
                i as int,
                x,
            ) by {
                assert(before[x] == cf_marked(ms, i + 1, x));
                match found {
                    Some(j) => {
                        if x != i && x != j {
                            if jumps_to_next(ms, i as int, x) {
                                lemma_jumps_to_next_unique(ms, i as int, j as int, x);
                            }
                        }
                    },
                    None => {
                        assert(!jumps_to_next(ms, i as int, x));
                    },
                }
            }
        }
    }
    let mut to_keep: Vec<bool> = Vec::new();
    let mut k: usize = 0;
    while k < n
        invariant
            k <= n,
            n == nodes.len(),
            ms.len() == n,
            to_remove.len() == n,
            forall|x: int| 0 <= x < n ==> #[trigger] to_remove@[x] == cf_marked(ms, 0, x),
            to_keep@ == Seq::new(k as nat, |x: int| !to_remove@[x]),
        decreases n - k,
    {
        to_keep.push(!to_remove[k]);
        k = k + 1;
        assert(to_keep@ =~= Seq::new(k as nat, |x: int| !to_remove@[x]));
    }
    assert(to_keep@ =~= cf_keep(ms));
    to_keep
}

/// Whether `x` occurs in `v`.
fn vec_contains(v: &Vec<u32>, x: u32) -> (b: bool)
    ensures
        b == v@.contains(x),
{
    let mut i: usize = 0;
    while i < v.len()
        invariant
            i <= v.len(),
            forall|k: int| 0 <= k < i ==> v@[k] != x,
        decreases v.len() - i,
    {
        if v[i] == x {
            assert(v@[i as int] == x);
            return true;
        }
        i = i + 1;
    }
    false
}

/// Marking one more position raises the count by one, and the count never exceeds the length.
pub proof fn lemma_count_true(s: Seq<bool>, i: int)
    requires
        0 <= i < s.len(),
    ensures
        count_true(s) <= s.len(),
        !s[i] ==> count_true(s.update(i, true)) == count_true(s) + 1,
    decreases s.len(),
{
    let n = s.len() - 1;
    let p = s.subrange(0, n);
    assert(s.update(i, true).subrange(0, n) =~= if i < n { p.update(i, true) } else { p });
    if n > 0 {
        if i < n {
            lemma_count_true(p, i);
        } else {
            lemma_count_true(p, 0);
        }
    }
}

/// More positions need at least the same registers.
pub proof fn lemma_needed_regs_mono(nodes: Seq<IrModel>, m1: Set<int>, m2: Set<int>)
    requires
        m1.subset_of(m2),
    ensures
        needed_regs(nodes, m1).subset_of(needed_regs(nodes, m2)),
{
    assert forall|r: u32| needed_regs(nodes, m1).contains(r) implies needed_regs(nodes, m2).contains(
        r,
    ) by {
        let i = choose|i: int| m1.contains(i) && 0 <= i < nodes.len() && #[trigger] provides(nodes, i, r);
        assert(m2.contains(i));
    }
}

/// The registers needed once position `i` is added.
pub proof fn lemma_needed_regs_insert(nodes: Seq<IrModel>, m: Set<int>, i: int, r: u32)
    requires
        0 <= i < nodes.len(),
    ensures
        needed_regs(nodes, m.insert(i)).contains(r) == (needed_regs(nodes, m).contains(r)
            || provides(nodes, i, r)),
{
    if needed_regs(nodes, m.insert(i)).contains(r) {
        let k = choose|k: int| m.insert(i).contains(k) && 0 <= k < nodes.len() && #[trigger] provides(nodes, k, r);
        if k != i {
            assert(needed_regs(nodes, m).contains(r));
        }
    }
    if provides(nodes, i, r) {
        assert(m.insert(i).contains(i));
    }
}

/// The registers of the `alloc` nodes of a function body.
fn local_allocs_of(nodes: &Vec<IrNode>) -> (v: Vec<u32>)
    ensures
        forall|r: u32| v@.contains(r) <==> local_allocs(ir_list_model(nodes@)).contains(r),
{
    let ghost ms = ir_list_model(nodes@);
    proof {
        lemma_ir_list_model(nodes@);
    }
    let mut v: Vec<u32> = Vec::new();
    let mut k: usize = 0;
    while k < nodes.len()
        invariant
            k <= nodes.len(),
            ms == ir_list_model(nodes@),
            ms.len() == nodes.len(),
            forall|x: int| 0 <= x < nodes.len() ==> #[trigger] ms[x] == nodes@[x]@,
            forall|r: u32|
                v@.contains(r) <==> exists|i: int| 0 <= i < k && #[trigger] is_alloc_to(ms[i], r),
        decreases nodes.len() - k,
    {
        assert(ms[k as int] == nodes@[k as int]@);
        match &nodes[k] {
            IrNode::Alloc(..) => {
                let d = nodes[k].get_dest();
                let ghost old_v = v@;
                v.push(d);
                assert(is_alloc_to(ms[k as int], d));
                assert forall|r: u32|
                    v@.contains(r) <==> exists|i: int| 0 <= i < k + 1 && #[trigger] is_alloc_to(ms[i], r) by {
                    if v@.contains(r) {
                        let idx = choose|idx: int| 0 <= idx < v@.len() && v@[idx] == r;
                        if idx < old_v.len() {
                            assert(old_v[idx] == r);
                            assert(old_v.contains(r));
                        } else {
                            assert(is_alloc_to(ms[k as int], r));
                        }
                    }
                    if exists|i: int| 0 <= i < k + 1 && #[trigger] is_alloc_to(ms[i], r) {
                        let i = choose|i: int| 0 <= i < k + 1 && #[trigger] is_alloc_to(ms[i], r);
                        if i < k {
                            assert(is_alloc_to(ms[i], r));
                            assert(old_v.contains(r));
                            let idx = choose|idx: int| 0 <= idx < old_v.len() && old_v[idx] == r;
                            assert(v@[idx] == r);
                        } else {
                            assert(v@[old_v.len() as int] == r);
                        }
                    }
                }
            },
            _ => {
                assert forall|r: u32|
                    v@.contains(r) <==> exists|i: int| 0 <= i < k + 1 && #[trigger] is_alloc_to(ms[i], r) by {
                    if exists|i: int| 0 <= i < k + 1 && #[trigger] is_alloc_to(ms[i], r) {
                        let i = choose|i: int| 0 <= i < k + 1 && #[trigger] is_alloc_to(ms[i], r);
                        assert(i != k);
                        assert(is_alloc_to(ms[i], r));
                    }
                }
            },
        }
        k = k + 1;
    }
    v
}

/// Marks node `i` as critical and records the registers keeping it needs: the ones it reads,
/// and its destination too when `with_dest` is set.
fn mark_critical(
    nodes: &Vec<IrNode>,
    crit: &mut Vec<bool>,
    regs: &mut Vec<u32>,
    i: usize,
    with_dest: bool,
    Ghost(ms): Ghost<Seq<IrModel>>,
)
    requires
        ms == ir_list_model(nodes@),
        ms.len() == nodes.len(),
        i < nodes.len(),
        forall|x: int| 0 <= x < nodes.len() ==> #[trigger] ms[x] == nodes@[x]@,
        old(crit).len() == nodes.len(),
        justified(ms, marked(old(crit)@), i as int),
        with_dest ==> nonlocal_store(ms, i as int),
        !with_dest ==> nonlocal_store(ms, i as int) ==> old(regs)@.contains(dest_of(ms[i as int])),
        forall|c: Set<int>| #[trigger] closed(ms, c) ==> marked(old(crit)@).subset_of(c),
        forall|r: u32| old(regs)@.contains(r) <==> needed_regs(ms, marked(old(crit)@)).contains(r),
    ensures
        final(crit)@ == old(crit)@.update(i as int, true),
        forall|c: Set<int>| #[trigger] closed(ms, c) ==> marked(final(crit)@).subset_of(c),
        forall|r: u32| final(regs)@.contains(r) <==> needed_regs(ms, marked(final(crit)@)).contains(r),
{
    let ghost m0 = marked(crit@);
    let ghost r0 = regs@;
    assert(ms[i as int] == nodes@[i as int]@);
    let mut srcs = nodes[i].get_src();
    let ghost sv = srcs@;
    regs.append(&mut srcs);
    let ghost r1 = regs@;
    if with_dest {
        regs.push(nodes[i].get_dest());
    }
    crit.set(i, true);
    proof {
        assert(marked(crit@) =~= m0.insert(i as int));
        assert forall|c: Set<int>| #[trigger] closed(ms, c) implies marked(crit@).subset_of(c) by {
            lemma_needed_regs_mono(ms, m0, c);
            assert(justified(ms, c, i as int));
        }
        assert forall|r: u32| regs@.contains(r) <==> needed_regs(ms, marked(crit@)).contains(r) by {
            lemma_needed_regs_insert(ms, m0, i as int, r);
            assert(r1 == r0 + sv);
            if r1.contains(r) {
                let idx = choose|idx: int| 0 <= idx < r1.len() && r1[idx] == r;
                if idx < r0.len() {
                    assert(r0[idx] == r);
                } else {
                    assert(sv[idx - r0.len()] == r);
                }
            }
            if sv.contains(r) {
                let idx = choose|idx: int| 0 <= idx < sv.len() && sv[idx] == r;
                assert(r1[r0.len() + idx] == r);
            }
            if r0.contains(r) {
                let idx = choose|idx: int| 0 <= idx < r0.len() && r0[idx] == r;
                assert(r1[idx] == r);
            }
            if with_dest {
                assert(regs@ == r1.push(dest_of(ms[i as int])));
                if regs@.contains(r) {
                    let idx = choose|idx: int| 0 <= idx < regs@.len() && regs@[idx] == r;
                    if idx < r1.len() {
                        assert(r1[idx] == r);
                    }
                }
                if r1.contains(r) {
                    let idx = choose|idx: int| 0 <= idx < r1.len() && r1[idx] == r;
                    assert(regs@[idx] == r);
                }
                assert(regs@[r1.len() as int] == dest_of(ms[i as int]));
            }
        }
    }
}

/// Which nodes dead code removal keeps in a function body: the critical ones.
#[verifier::rlimit(40)]
fn dce_keep_of(nodes: &Vec<IrNode>) -> (crit: Vec<bool>)
    ensures
        crit@ == dce_keep(ir_list_model(nodes@)),
{
    let ghost ms = ir_list_model(nodes@);
    proof {
        lemma_ir_list_model(nodes@);
    }
    let n = nodes.len();
    let local_alloc_references = local_allocs_of(nodes);
    let mut is_node_critical: Vec<bool> = Vec::new();
    let mut k: usize = 0;
    while k < n
        invariant
            k <= n,
            forall|x: int| 0 <= x < k ==> !#[trigger] is_node_critical@[x],
            is_node_critical.len() == k,
        decreases n - k,
    {
        is_node_critical.push(false);
        k = k + 1;
    }
    assert(marked(is_node_critical@) =~= Set::<int>::empty());
    assert forall|r: u32| !needed_regs(ms, marked(is_node_critical@)).contains(r) by {}
    let mut critical_registers: Vec<u32> = Vec::new();
    loop
        invariant
            n == nodes.len(),
            ms == ir_list_model(nodes@),
            ms.len() == n,
            forall|x: int| 0 <= x < n ==> #[trigger] ms[x] == nodes@[x]@,
            forall|r: u32| local_alloc_references@.contains(r) <==> local_allocs(ms).contains(r),
            is_node_critical.len() == n,
            forall|c: Set<int>| #[trigger] closed(ms, c) ==> marked(is_node_critical@).subset_of(c),
            forall|r: u32|
                critical_registers@.contains(r) <==> needed_regs(ms, marked(is_node_critical@)).contains(r),
        ensures
            is_node_critical.len() == n,
            forall|c: Set<int>| #[trigger] closed(ms, c) ==> marked(is_node_critical@).subset_of(c),
            closed(ms, marked(is_node_critical@)),
        decreases n - count_true(is_node_critical@),
    {
        let ghost start = is_node_critical@;
        let mut is_added = false;
        let mut i: usize = n;
        while i > 0
            invariant
                i <= n,
                n == nodes.len(),
                ms == ir_list_model(nodes@),
                ms.len() == n,
                forall|x: int| 0 <= x < n ==> #[trigger] ms[x] == nodes@[x]@,
                forall|r: u32| local_alloc_references@.contains(r) <==> local_allocs(ms).contains(r),
                is_node_critical.len() == n,
                start.len() == n,
                forall|c: Set<int>| #[trigger] closed(ms, c) ==> marked(is_node_critical@).subset_of(c),
                forall|r: u32|
                    critical_registers@.contains(r) <==> needed_regs(ms, marked(is_node_critical@)).contains(r),
                count_true(is_node_critical@) >= count_true(start) + if is_added { 1nat } else { 0nat },
                !is_added ==> is_node_critical@ == start,
                !is_added ==> forall|x: int| i <= x < n && !is_node_critical@[x] ==> !#[trigger] justified(
                    ms,
                    marked(is_node_critical@),
                    x,
                ),
            decreases i,
        {
            i = i - 1;
            let ghost before = is_node_critical@;
            let ghost was_added = is_added;
            if !is_node_critical[i] {
                proof {
                    assert(ms[i as int] == nodes@[i as int]@);
                }
                let node = &nodes[i];
                match node {
                    IrNode::Store(..) => {
                        if !vec_contains(&local_alloc_references, node.get_dest()) {
                            assert(nonlocal_store(ms, i as int));
                            self::mark_critical(
                                nodes,
                                &mut is_node_critical,
                                &mut critical_registers,
                                i,
                                true,
                                Ghost(ms),
                            );
                            is_added = true;
                        }
                    },
                    _ => {},
                }
                match node {
                    IrNode::Return(..) | IrNode::Call(..) | IrNode::Branch(..) | IrNode::Label(..) => {
                        assert(always_critical(ms[i as int]));
                        self::mark_critical(
                            nodes,
                            &mut is_node_critical,
                            &mut critical_registers,
                            i,
                            false,
                            Ghost(ms),
                        );
                        is_added = true;
                    },
                    _ => {
                        if vec_contains(&critical_registers, node.get_dest()) {
                            self::mark_critical(
                                nodes,
                                &mut is_node_critical,
                                &mut critical_registers,
                                i,
                                false,
                                Ghost(ms),
                            );
                            is_added = true;
                        }
                    },
                }
                proof {
                    lemma_count_true(before, i as int);
                    if is_node_critical@[i as int] {
                        assert(is_node_critical@ == before.update(i as int, true));
                    } else {
                        assert(is_node_critical@ == before);
                    }
                    if !is_added {
                        assert forall|x: int| i <= x < n && !is_node_critical@[x] implies !#[trigger] justified(
                            ms,
                            marked(is_node_critical@),
                            x,
                        ) by {
                            if x == i {
                                assert(!always_critical(ms[i as int]));
                                assert(!nonlocal_store(ms, i as int));
                            }
                        }
                    }
                }
            }
        }
        if !is_added {
            proof {
                let m = marked(is_node_critical@);
                assert forall|x: int| 0 <= x < n && #[trigger] justified(ms, m, x) implies m.contains(x) by {
                    if !is_node_critical@[x] {
                        assert(!justified(ms, m, x));
                    }
                }
            }
            break;
        }
        proof {
            if n > 0 {
                lemma_count_true(is_node_critical@, 0);
            }
        }
    }
    proof {
        let m = marked(is_node_critical@);
        assert forall|x: int| 0 <= x < n implies #[trigger] is_node_critical@[x] == dce_critical(
            ms,
            x,
        ) by {
            if is_node_critical@[x] {
                assert forall|c: Set<int>| #[trigger] closed(ms, c) implies c.contains(x) by {
                    assert(m.contains(x));
                }
            } else {
                assert(!m.contains(x));
            }
        }
    }
    assert(is_node_critical@ =~= dce_keep(ms));
    is_node_critical
}

/// Whether a node is a function declaration.
pub open spec fn is_function(f: IrModel) -> bool {
    f is FunctionDeclaration
}

/// The body of a function.
pub open spec fn function_nodes(f: IrModel) -> Seq<IrModel> {
    match f {
        IrModel::FunctionDeclaration(_, _, _, nodes) => nodes,
        _ => Seq::empty(),
    }
}

/// The name of a function.
pub open spec fn function_name(f: IrModel) -> Seq<char> {
    match f {
        IrModel::FunctionDeclaration(name, _, _, _) => name,
        _ => Seq::empty(),
    }
}

/// A function with its body replaced.
pub open spec fn with_nodes(f: IrModel, nodes: Seq<IrModel>) -> IrModel {
    match f {
        IrModel::FunctionDeclaration(name, t, args, _) => IrModel::FunctionDeclaration(
            name,
            t,
            args,
            nodes,
        ),
        _ => f,
    }
}

/// Whether a function is the `init` function, which the optimizer leaves alone.
pub open spec fn is_init(f: IrModel) -> bool {
    function_name(f) == "init"@
}

/// The nodes one pass keeps in a body: dead code removal when `dce` is set, control flow
/// removal otherwise.
pub open spec fn pass_keep(nodes: Seq<IrModel>, dce: bool) -> Seq<bool> {
    if dce {
        dce_keep(nodes)
    } else {
        cf_keep(nodes)
    }
}

/// A function after one pass: unchanged for `init`, else its body filtered by the pass.
pub open spec fn pass_function(f: IrModel, dce: bool) -> IrModel {
    if is_init(f) {
        f
    } else {
        with_nodes(f, select(function_nodes(f), pass_keep(function_nodes(f), dce)))
    }
}

/// The functions of a program.
pub open spec fn program_functions(m: IrModel) -> Seq<IrModel> {
    match m {
        IrModel::Program(fs) => fs,
        _ => Seq::empty(),
    }
}

/// Whether a node is a program made of function declarations, the only shape the optimizer
/// accepts.
pub open spec fn is_program(m: IrModel) -> bool {
    m is Program && forall|i: int|
        0 <= i < program_functions(m).len() ==> #[trigger] is_function(program_functions(m)[i])
}

/// A program after one pass over each of its functions.
pub open spec fn pass_program(m: IrModel, dce: bool) -> IrModel {
    IrModel::Program(program_functions(m).map_values(|f: IrModel| pass_function(f, dce)))
}

/// Whether a pass changed the length of the body of some function.
pub open spec fn pass_changed(before: Seq<IrModel>, after: Seq<IrModel>) -> bool {
    exists|i: int|
        0 <= i < before.len() && #[trigger] function_nodes(after[i]).len() != function_nodes(
            before[i],
        ).len()
}

/// One pass over every function of a program, and whether it removed any node.
fn run_pass(ir: &IrNode, dce: bool) -> (r: (IrNode, bool))
    requires
        is_program(ir@),
    ensures
        r.0@ == pass_program(ir@, dce),
        r.1 == pass_changed(program_functions(ir@), program_functions(r.0@)),
{
    let ghost fs = program_functions(ir@);
    let mut is_changed = false;
    match ir {
        IrNode::Program(functions_list) => {
            proof {
                lemma_ir_list_model(functions_list@);
            }
            let mut new_functions_list: Vec<IrNode> = Vec::new();
            let mut k: usize = 0;
            while k < functions_list.len()
                invariant
                    k <= functions_list.len(),
                    fs == ir_list_model(functions_list@),
                    fs.len() == functions_list.len(),
                    forall|x: int| 0 <= x < fs.len() ==> #[trigger] fs[x] == functions_list@[x]@,
                    forall|x: int| 0 <= x < fs.len() ==> #[trigger] is_function(fs[x]),
                    ir_list_model(new_functions_list@) == fs.subrange(0, k as int).map_values(
                        |f: IrModel| pass_function(f, dce),
                    ),
                    is_changed == exists|i: int|
                        0 <= i < k && function_nodes(#[trigger] pass_function(fs[i], dce)).len()
                            != function_nodes(fs[i]).len(),
                decreases functions_list.len() - k,
            {
                let ghost f = fs[k as int];
                assert(f == functions_list@[k as int]@);
                assert(is_function(f));
                let ghost was_changed = is_changed;
                let new_function: IrNode;
                match &functions_list[k] {
                    IrNode::FunctionDeclaration(n, t, args, nodes) => {
                        if strs_match(n.as_str(), "init") {
                            new_function = functions_list[k].duplicate();
                        } else {
                            let keep = if dce {
                                dce_keep_of(nodes)
                            } else {
                                cf_keep_of(nodes)
                            };
                            proof {
                                lemma_ir_list_model(nodes@);
                                lemma_select_len(ir_list_model(nodes@), keep@);
                            }
                            let new_nodes = select_nodes(nodes, &keep);
                            proof {
                                lemma_ir_list_model(new_nodes@);
                            }
                            if nodes.len() != new_nodes.len() {
                                is_changed = true;
                            }
                            new_function = IrNode::FunctionDeclaration(
                                n.clone(),
                                *t,
                                copy_vec(args),
                                new_nodes,
                            );
                        }
                    },
                    _ => {
                        new_function = IrNode::Program(Vec::new());
                    },
                }
                assert(new_function@ == pass_function(f, dce));
                let ghost old_list = new_functions_list@;
                proof {
                    lemma_ir_list_model_push(old_list, new_function);
                    assert(fs.subrange(0, k as int).map_values(|f: IrModel| pass_function(f, dce)).push(
                        pass_function(f, dce),
                    ) =~= fs.subrange(0, k + 1).map_values(|f: IrModel| pass_function(f, dce)));
                    if is_changed && !was_changed {
                        assert(function_nodes(pass_function(fs[k as int], dce)).len() != function_nodes(fs[k as int]).len());
                    }
                    if !is_changed {
                        assert(function_nodes(pass_function(fs[k as int], dce)).len() == function_nodes(fs[k as int]).len());
                    }
                }
                new_functions_list.push(new_function);
                k = k + 1;
            }
            assert(fs.subrange(0, fs.len() as int) =~= fs);
            proof {
                let mapped = fs.map_values(|f: IrModel| pass_function(f, dce));
                if is_changed {
                    let i = choose|i: int|
                        0 <= i < fs.len() && function_nodes(#[trigger] pass_function(fs[i], dce)).len()
                            != function_nodes(fs[i]).len();
                    assert(mapped[i] == pass_function(fs[i], dce));
                }
                if pass_changed(fs, mapped) {
                    let i = choose|i: int|
                        0 <= i < fs.len() && #[trigger] function_nodes(mapped[i]).len() != function_nodes(
                            fs[i],
                        ).len();
                    assert(mapped[i] == pass_function(fs[i], dce));
                }
            }
            (IrNode::Program(new_functions_list), is_changed)
        },
        _ => (IrNode::Program(Vec::new()), false),
    }
}

/// Selecting keeps at most every element, and keeps them all exactly when every position is
/// marked.
pub proof fn lemma_select_len<A>(s: Seq<A>, keep: Seq<bool>)
    ensures
        select(s, keep).len() <= s.len(),
        (forall|k: int| 0 <= k < s.len() ==> #[trigger] keep[k]) ==> select(s, keep) == s,
        select(s, keep).len() == s.len() ==> forall|k: int| 0 <= k < s.len() ==> #[trigger] keep[k],
    decreases s.len(),
{
    if s.len() > 0 {
        let p = s.subrange(0, s.len() - 1);
        lemma_select_len(p, keep);
        if forall|k: int| 0 <= k < s.len() ==> #[trigger] keep[k] {
            assert(forall|k: int| 0 <= k < p.len() ==> #[trigger] keep[k]);
            assert(p.push(s[s.len() - 1]) =~= s);
        }
    }
}

/// The number of nodes in the bodies of a sequence of functions.
pub open spec fn funcs_size(fs: Seq<IrModel>) -> nat
    decreases fs.len(),
{
    if fs.len() == 0 {
        0
    } else {
        funcs_size(fs.subrange(0, fs.len() - 1)) + function_nodes(fs[fs.len() - 1]).len()
    }
}

/// The number of nodes in the bodies of the functions of a program.
pub open spec fn program_size(m: IrModel) -> nat {
    funcs_size(program_functions(m))
}

/// Bodies no longer one by one give a total no larger, and smaller when one body is shorter.
pub proof fn lemma_funcs_size_le(a: Seq<IrModel>, b: Seq<IrModel>)
    requires
        a.len() == b.len(),
        forall|i: int| 0 <= i < a.len() ==> #[trigger] function_nodes(a[i]).len() <= function_nodes(b[i]).len(),
    ensures
        funcs_size(a) <= funcs_size(b),
        (exists|i: int| 0 <= i < a.len() && #[trigger] function_nodes(a[i]).len() != function_nodes(b[i]).len())
            ==> funcs_size(a) < funcs_size(b),
    decreases a.len(),
{
    if a.len() > 0 {
        let n = a.len() - 1;
        let pa = a.subrange(0, n);
        let pb = b.subrange(0, n);
        assert forall|i: int| 0 <= i < pa.len() implies #[trigger] function_nodes(pa[i]).len()
            <= function_nodes(pb[i]).len() by {
            assert(pa[i] == a[i] && pb[i] == b[i]);
        }
        lemma_funcs_size_le(pa, pb);
        if exists|i: int| 0 <= i < a.len() && #[trigger] function_nodes(a[i]).len() != function_nodes(b[i]).len() {
            let i = choose|i: int| 0 <= i < a.len() && #[trigger] function_nodes(a[i]).len() != function_nodes(b[i]).len();
            if i < n {
                assert(pa[i] == a[i] && pb[i] == b[i]);
                assert(function_nodes(pa[i]).len() != function_nodes(pb[i]).len());
            }
        }
    }
}

/// A pass keeps the shape of a program, never lengthens a body, and shortens the program when it
/// reports a change.
pub proof fn lemma_pass_program(m: IrModel, dce: bool)
    requires
        is_program(m),
    ensures
        is_program(pass_program(m, dce)),
        program_functions(pass_program(m, dce)).len() == program_functions(m).len(),
        program_size(pass_program(m, dce)) <= program_size(m),
        pass_changed(program_functions(m), program_functions(pass_program(m, dce))) ==> program_size(
            pass_program(m, dce),
        ) < program_size(m),
{
    let fs = program_functions(m);
    let gs = program_functions(pass_program(m, dce));
    assert forall|i: int| 0 <= i < gs.len() implies #[trigger] function_nodes(gs[i]).len()
        <= function_nodes(fs[i]).len() by {
        assert(gs[i] == pass_function(fs[i], dce));
        assert(is_function(fs[i]));
        lemma_select_len(function_nodes(fs[i]), pass_keep(function_nodes(fs[i]), dce));
    }
    assert forall|i: int| 0 <= i < gs.len() implies #[trigger] is_function(gs[i]) by {
        assert(gs[i] == pass_function(fs[i], dce));
        assert(is_function(fs[i]));
    }
    lemma_funcs_size_le(gs, fs);
    if pass_changed(fs, gs) {
        let i = choose|i: int| 0 <= i < fs.len() && #[trigger] function_nodes(gs[i]).len() != function_nodes(fs[i]).len();
        assert(function_nodes(gs[i]).len() != function_nodes(fs[i]).len());
    }
}

/// The program the optimizer produces: dead code removal then control flow removal, repeated
/// until control flow removal removes nothing.
pub open spec fn optimized(m: IrModel) -> IrModel
    decreases program_size(m),
{
    if is_program(m) {
        let d = pass_program(m, true);
        let c = pass_program(d, false);
        if pass_changed(program_functions(d), program_functions(c)) {
            proof {
                lemma_pass_program(m, true);
                lemma_pass_program(d, false);
            }
            optimized(c)
        } else {
            c
        }
    } else {
        m
    }
}

/// `f` maps the positions of `a` to increasing positions of `b` holding the same elements.
pub open spec fn embeds<A>(f: Seq<int>, a: Seq<A>, b: Seq<A>) -> bool {
    &&& f.len() == a.len()
    &&& forall|i: int| 0 <= i < a.len() ==> 0 <= #[trigger] f[i] < b.len() && a[i] == b[f[i]]
    &&& forall|i: int, j: int| 0 <= i < j < a.len() ==> #[trigger] f[i] < #[trigger] f[j]
}

/// `a` is `b` with some elements left out, the others in their order.
pub open spec fn is_subsequence<A>(a: Seq<A>, b: Seq<A>) -> bool {
    exists|f: Seq<int>| #[trigger] embeds(f, a, b)
}

/// What `select` keeps is a subsequence.
pub proof fn lemma_select_subsequence<A>(s: Seq<A>, keep: Seq<bool>)
    ensures
        is_subsequence(select(s, keep), s),
    decreases s.len(),
{
    if s.len() == 0 {
        assert(embeds(Seq::<int>::empty(), select(s, keep), s));
    } else {
        let n = s.len() - 1;
        let p = s.subrange(0, n);
        lemma_select_subsequence(p, keep);
        let f = choose|f: Seq<int>| #[trigger] embeds(f, select(p, keep), p);
        if keep[n] {
            let g = f.push(n);
            assert(embeds(g, select(s, keep), s));
        } else {
            assert(embeds(f, select(s, keep), s));
        }
    }
}

/// A sequence is a subsequence of itself.
pub proof fn lemma_subsequence_refl<A>(a: Seq<A>)
    ensures
        is_subsequence(a, a),
{
    let f = Seq::new(a.len(), |i: int| i);
    assert(embeds(f, a, a));
}

/// A subsequence of a subsequence is a subsequence.
pub proof fn lemma_subsequence_trans<A>(a: Seq<A>, b: Seq<A>, c: Seq<A>)
    requires
        is_subsequence(a, b),
        is_subsequence(b, c),
    ensures
        is_subsequence(a, c),
{
    let f = choose|f: Seq<int>| #[trigger] embeds(f, a, b);
    let g = choose|g: Seq<int>| #[trigger] embeds(g, b, c);
    let h = Seq::new(a.len(), |i: int| g[f[i]]);
    assert forall|i: int, j: int| 0 <= i < j < a.len() implies #[trigger] h[i] < #[trigger] h[j] by {
        assert(f[i] < f[j]);
    }
    assert(embeds(h, a, c));
}

/// `g` is `f` with another body: same name, return type and arguments.
pub open spec fn same_header(g: IrModel, f: IrModel) -> bool {
    g == with_nodes(f, function_nodes(g))
}

/// A pass keeps every function's header, keeps a subsequence of every body, and leaves `init`
/// alone.
pub proof fn lemma_pass_shape(m: IrModel, dce: bool)
    requires
        is_program(m),
    ensures
        program_functions(pass_program(m, dce)).len() == program_functions(m).len(),
        forall|i: int|
            0 <= i < program_functions(m).len() ==> {
                let g = #[trigger] program_functions(pass_program(m, dce))[i];
                let f = program_functions(m)[i];
                &&& is_function(g)
                &&& same_header(g, f)
                &&& is_subsequence(function_nodes(g), function_nodes(f))
                &&& (is_init(f) ==> g == f)
            },
{
    let fs = program_functions(m);
    assert forall|i: int| 0 <= i < fs.len() implies {
        let g = #[trigger] program_functions(pass_program(m, dce))[i];
        let f = program_functions(m)[i];
        &&& is_function(g)
        &&& same_header(g, f)
        &&& is_subsequence(function_nodes(g), function_nodes(f))
        &&& (is_init(f) ==> g == f)
    } by {
        let f = fs[i];
        assert(is_function(f));
        assert(program_functions(pass_program(m, dce))[i] == pass_function(f, dce));
        if is_init(f) {
            lemma_subsequence_refl(function_nodes(f));
        } else {
            lemma_select_subsequence(function_nodes(f), pass_keep(function_nodes(f), dce));
        }
    }
}

/// A pass that reports no change gives back the program it was given.
pub proof fn lemma_pass_unchanged(m: IrModel, dce: bool)
    requires
        is_program(m),
        !pass_changed(program_functions(m), program_functions(pass_program(m, dce))),
    ensures
        pass_program(m, dce) == m,
{
    let fs = program_functions(m);
    let gs = program_functions(pass_program(m, dce));
    assert forall|i: int| 0 <= i < fs.len() implies gs[i] == fs[i] by {
        let f = fs[i];
        assert(is_function(f));
        assert(gs[i] == pass_function(f, dce));
        assert(function_nodes(gs[i]).len() == function_nodes(fs[i]).len());
        if !is_init(f) {
            lemma_select_len(function_nodes(f), pass_keep(function_nodes(f), dce));
        }
    }
    assert(gs =~= fs);
}

/// The optimizer keeps every function's header, keeps a subsequence of every body, leaves
/// `init` alone, and gives a program on which control flow removal finds nothing more to
/// remove.
pub proof fn lemma_optimized(m: IrModel)
    requires
        is_program(m),
    ensures
        is_program(optimized(m)),
        program_functions(optimized(m)).len() == program_functions(m).len(),
        forall|i: int|
            0 <= i < program_functions(m).len() ==> {
                let g = #[trigger] program_functions(optimized(m))[i];
                let f = program_functions(m)[i];
                &&& is_function(g)
                &&& same_header(g, f)
                &&& is_subsequence(function_nodes(g), function_nodes(f))
                &&& (is_init(f) ==> g == f)
            },
        !pass_changed(
            program_functions(optimized(m)),
            program_functions(pass_program(optimized(m), false)),
        ),
    decreases program_size(m),
{
    let d = pass_program(m, true);
    let c = pass_program(d, false);
    lemma_pass_program(m, true);
    lemma_pass_program(d, false);
    lemma_pass_shape(m, true);
    lemma_pass_shape(d, false);
    let fs = program_functions(m);
    let ds = program_functions(d);
    let cs = program_functions(c);
    if pass_changed(ds, cs) {
        lemma_optimized(c);
        let os = program_functions(optimized(c));
        assert forall|i: int| 0 <= i < fs.len() implies {
            let g = #[trigger] program_functions(optimized(m))[i];
            let f = program_functions(m)[i];
            &&& is_function(g)
            &&& same_header(g, f)
            &&& is_subsequence(function_nodes(g), function_nodes(f))
            &&& (is_init(f) ==> g == f)
        } by {
            assert(os[i] == program_functions(optimized(c))[i]);
            assert(cs[i] == program_functions(pass_program(d, false))[i]);
            assert(ds[i] == program_functions(pass_program(m, true))[i]);
            lemma_subsequence_trans(function_nodes(cs[i]), function_nodes(ds[i]), function_nodes(fs[i]));
            lemma_subsequence_trans(function_nodes(os[i]), function_nodes(cs[i]), function_nodes(fs[i]));
        }
    } else {
        lemma_pass_unchanged(d, false);
        assert forall|i: int| 0 <= i < fs.len() implies {
            let g = #[trigger] program_functions(optimized(m))[i];
            let f = program_functions(m)[i];
            &&& is_function(g)
            &&& same_header(g, f)
            &&& is_subsequence(function_nodes(g), function_nodes(f))
            &&& (is_init(f) ==> g == f)
        } by {
            assert(cs[i] == program_functions(pass_program(d, false))[i]);
            assert(ds[i] == program_functions(pass_program(m, true))[i]);
            lemma_subsequence_trans(function_nodes(cs[i]), function_nodes(ds[i]), function_nodes(fs[i]));
        }
    }
}

/// Dead code removal keeps every return, call, branch and label, every store to a non-local
/// address, and every node that writes a register needed by a kept node.
pub proof fn lemma_dce_keeps_needed(nodes: Seq<IrModel>, i: int)
    requires
        0 <= i < nodes.len(),
        always_critical(nodes[i]) || nonlocal_store(nodes, i) || needed_regs(
            nodes,
            marked(dce_keep(nodes)),
        ).contains(dest_of(nodes[i])),
    ensures
        dce_keep(nodes)[i],
{
    let k = marked(dce_keep(nodes));
    assert forall|c: Set<int>| #[trigger] closed(nodes, c) implies c.contains(i) by {
        assert(k.subset_of(c)) by {
            assert forall|x: int| k.contains(x) implies c.contains(x) by {
                assert(dce_critical(nodes, x));
            }
        }
        lemma_needed_regs_mono(nodes, k, c);
        assert(justified(nodes, c, i));
    }
}

/// The optimizer of the intermediate representation, for an optimisation level.
#[derive(Clone, Copy, Debug, PartialEq, Eq, Structural, PartialOrd, Ord)]
pub struct Optimizer {
    opt: u32,
}

impl Default for Optimizer {
    /// An optimizer for level 0.
    fn default() -> (r: Optimizer)
        ensures
            r.level() == 0,
    {
        Optimizer { opt: 0 }
    }
}

impl Optimizer {
    /// The optimisation level the optimizer was made for.
    pub closed spec fn level(self) -> u32 {
        self.opt
    }

    /// An optimizer for the optimisation level `opt`.
    pub fn new(opt: u32) -> (r: Optimizer)
        ensures
            r.level() == opt,
    {
        Optimizer { opt }
    }

    /// Runs dead code removal and control flow removal until control flow removal finds nothing
    /// to remove. Functions named `init` are left as they are.
    pub fn optimize(&mut self, ir: IrNode) -> (r: IrNode)
        requires
            is_program(ir@),
        ensures
            r@ == optimized(ir@),
            *final(self) == *old(self),
    {
        let ghost orig = ir@;
        let mut ir = ir;
        let mut is_changed: bool;
        loop
            invariant_except_break
                is_program(ir@),
                optimized(ir@) == optimized(orig),
            invariant
                *self == *old(self),
            ensures
                ir@ == optimized(orig),
                *self == *old(self),
            decreases program_size(ir@),
        {
            let ghost before = ir@;
            let (d, _) = self.dead_code_removal(ir);
            proof {
                lemma_pass_program(before, true);
            }
            let (c, changed) = self.control_flow_removal(d);
            proof {
                lemma_pass_program(pass_program(before, true), false);
            }
            ir = c;
            is_changed = changed;
            if !is_changed {
                break;
            }
        }
        ir
    }

    /// Removes each branch to a label that follows it with only labels in between, together with
    /// that label, in every function but `init`; reports whether anything was removed.
    fn control_flow_removal(&mut self, ir: IrNode) -> (r: (IrNode, bool))
        requires
            is_program(ir@),
        ensures
            r.0@ == pass_program(ir@, false),
            r.1 == pass_changed(program_functions(ir@), program_functions(r.0@)),
            *final(self) == *old(self),
    {
        run_pass(&ir, false)
    }

    /// Keeps, in every function but `init`, only the critical nodes: returns, calls, branches,
    /// labels, stores to non-local addresses, and every node writing a register that a kept node
    /// needs; reports whether anything was removed.
    fn dead_code_removal(&mut self, ir: IrNode) -> (r: (IrNode, bool))
        requires
            is_program(ir@),
        ensures
            r.0@ == pass_program(ir@, true),
            r.1 == pass_changed(program_functions(ir@), program_functions(r.0@)),
            *final(self) == *old(self),
    {
        run_pass(&ir, true)
    }
}

} // verus!
