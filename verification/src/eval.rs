//! The scheduler/evaluator: what one evaluation of the graph means, and
//! the reference backend that carries it out.
//!
//! An evaluation takes the node arena as it stands, marks the nodes that
//! feed a scheduled output or a pending side effect, and materializes the
//! marked nodes in arena order.  Arena order is a topological order, and
//! it gives scatters program-order semantics: a gather built before a
//! scatter reads the old contents, one built after it reads the new.
//! [`run_store`] is the mathematical statement of that process; the
//! executable evaluator in this module is proved to produce exactly its
//! outcome, and to leave the trace untouched when any step fails.

use vstd::prelude::*;
use crate::sem::{
    binop_lanes, broadcast_ok, cast_lanes, compress_lanes, gather_lanes, index_lanes, lane_at,
    lane_binop, lane_cast, lane_ternop, lane_unop, replicate, scatter_add_lanes, scatter_lanes,
    ternop_lanes, unop_lanes, BinOp, TernOp, UnOp,
};
use crate::trace::{lanes_canonical, node_wf, Node, Op, Trace};
use crate::vartype::VarType;

verus! {

/// The lanes a result slot holds, as a mathematical value.
pub open spec fn res_at(results: Seq<Option<Vec<u64>>>, j: int) -> Option<Seq<u64>> {
    match results[j] {
        Option::Some(v) => Option::Some(v@),
        Option::None => Option::None,
    }
}

/// The whole result vector as a mathematical store.
pub open spec fn store_view(st: Seq<Option<Vec<u64>>>) -> Seq<Option<Seq<u64>>> {
    Seq::new(st.len(), |j: int| res_at(st, j))
}

/// The lanes node `j` currently exposes during a run: what this run has
/// computed for it, else what an earlier evaluation materialized.
pub open spec fn cur_lanes(
    results: Seq<Option<Vec<u64>>>,
    st: Seq<Option<Seq<u64>>>,
    j: int,
) -> Option<Seq<u64>> {
    if st[j] is Some {
        st[j]
    } else {
        res_at(results, j)
    }
}

/// The common length two operands broadcast to.
pub open spec fn bc2(a: nat, b: nat) -> Option<nat> {
    if a == b {
        Option::Some(a)
    } else if a == 1 {
        Option::Some(b)
    } else if b == 1 {
        Option::Some(a)
    } else {
        Option::None
    }
}

/// The common length three operands broadcast to.
pub open spec fn bc3(a: nat, b: nat, c: nat) -> Option<nat> {
    match bc2(a, b) {
        Option::None => Option::None,
        Option::Some(x) => bc2(x, c),
    }
}

/// What materializing node `i` does to the store: `None` where the
/// reference backend cannot run the node or the run faults.
pub open spec fn step_sem(
    nodes: Seq<Node>,
    results: Seq<Option<Vec<u64>>>,
    st: Seq<Option<Seq<u64>>>,
    i: int,
) -> Option<Seq<Option<Seq<u64>>>> {
    let nd = nodes[i];
    match nd.op {
        Op::Literal => Option::Some(st.update(i, Option::Some(replicate(nd.lit, nd.size as nat)))),
        Op::Buffer => Option::Some(st.update(i, Option::Some(nd.buf@))),
        Op::Index => Option::Some(st.update(i, Option::Some(index_lanes(nd.size as nat)))),
        Op::Texture { .. } => Option::Some(
            st.update(i, Option::Some(replicate(0u64, nd.size as nat))),
        ),
        Op::Cast => match cur_lanes(results, st, nd.deps@[0] as int) {
            Option::None => Option::None,
            Option::Some(a) => match cast_lanes(
                nodes[nd.deps@[0] as int].ty,
                nd.ty,
                a,
                a.len(),
            ) {
                Option::None => Option::None,
                Option::Some(l) => Option::Some(st.update(i, Option::Some(l))),
            },
        },
        Op::Bitcast => match cur_lanes(results, st, nd.deps@[0] as int) {
            Option::None => Option::None,
            Option::Some(a) => Option::Some(st.update(i, Option::Some(a))),
        },
        Op::Binary { op } => match (
            cur_lanes(results, st, nd.deps@[0] as int),
            cur_lanes(results, st, nd.deps@[1] as int),
        ) {
            (Option::Some(a), Option::Some(b)) => match bc2(a.len(), b.len()) {
                Option::None => Option::None,
                Option::Some(n) => match binop_lanes(op, nodes[nd.deps@[0] as int].ty, a, b, n) {
                    Option::None => Option::None,
                    Option::Some(l) => Option::Some(st.update(i, Option::Some(l))),
                },
            },
            _ => Option::None,
        },
        Op::Unary { op } => match cur_lanes(results, st, nd.deps@[0] as int) {
            Option::None => Option::None,
            Option::Some(a) => match unop_lanes(op, nd.ty, a, a.len()) {
                Option::None => Option::None,
                Option::Some(l) => Option::Some(st.update(i, Option::Some(l))),
            },
        },
        Op::Tern { op } => match (
            cur_lanes(results, st, nd.deps@[0] as int),
            cur_lanes(results, st, nd.deps@[1] as int),
            cur_lanes(results, st, nd.deps@[2] as int),
        ) {
            (Option::Some(a), Option::Some(b), Option::Some(c)) => match bc3(
                a.len(),
                b.len(),
                c.len(),
            ) {
                Option::None => Option::None,
                Option::Some(n) => match ternop_lanes(op, nd.ty, a, b, c, n) {
                    Option::None => Option::None,
                    Option::Some(l) => Option::Some(st.update(i, Option::Some(l))),
                },
            },
            _ => Option::None,
        },
        Op::Gather => match (
            cur_lanes(results, st, nd.deps@[0] as int),
            cur_lanes(results, st, nd.deps@[1] as int),
            cur_lanes(results, st, nd.deps@[2] as int),
        ) {
            (Option::Some(src), Option::Some(idx), Option::Some(mask)) => match bc2(
                idx.len(),
                mask.len(),
            ) {
                Option::None => Option::None,
                Option::Some(n) => match gather_lanes(src, idx, mask, n) {
                    Option::None => Option::None,
                    Option::Some(l) => Option::Some(st.update(i, Option::Some(l))),
                },
            },
            _ => Option::None,
        },
        Op::Scatter => match (
            cur_lanes(results, st, nd.deps@[0] as int),
            cur_lanes(results, st, nd.deps@[1] as int),
            cur_lanes(results, st, nd.deps@[2] as int),
            cur_lanes(results, st, nd.deps@[3] as int),
        ) {
            (Option::Some(src), Option::Some(dstl), Option::Some(idx), Option::Some(mask)) =>
                match bc3(src.len(), idx.len(), mask.len()) {
                Option::None => Option::None,
                Option::Some(n) => match scatter_lanes(dstl, src, idx, mask, n) {
                    Option::None => Option::None,
                    Option::Some(d2) => Option::Some(
                        st.update(nd.deps@[1] as int, Option::Some(d2)).update(
                            i,
                            Option::Some(Seq::<u64>::empty()),
                        ),
                    ),
                },
            },
            _ => Option::None,
        },
        Op::ScatterAdd => match (
            cur_lanes(results, st, nd.deps@[0] as int),
            cur_lanes(results, st, nd.deps@[1] as int),
            cur_lanes(results, st, nd.deps@[2] as int),
            cur_lanes(results, st, nd.deps@[3] as int),
        ) {
            (Option::Some(src), Option::Some(dstl), Option::Some(idx), Option::Some(mask)) =>
                match bc3(src.len(), idx.len(), mask.len()) {
                Option::None => Option::None,
                Option::Some(n) => match scatter_add_lanes(nd.ty, dstl, src, idx, mask, n) {
                    Option::None => Option::None,
                    Option::Some(d2) => Option::Some(
                        st.update(nd.deps@[1] as int, Option::Some(d2)).update(
                            i,
                            Option::Some(Seq::<u64>::empty()),
                        ),
                    ),
                },
            },
            _ => Option::None,
        },
        Op::Compress => match cur_lanes(results, st, nd.deps@[0] as int) {
            Option::None => Option::None,
            Option::Some(a) => if a.len() > 0xFFFF_FFFF {
                Option::None
            } else {
                Option::Some(st.update(i, Option::Some(compress_lanes(a, a.len()))))
            },
        },
        Op::ToTexture { .. } | Op::TexToBuffer => match cur_lanes(results, st, nd.deps@[0] as int) {
            Option::None => Option::None,
            Option::Some(a) => Option::Some(st.update(i, Option::Some(a))),
        },
        Op::TexLookup { .. } => Option::None,
        Op::Accel => Option::Some(st.update(i, Option::Some(Seq::<u64>::empty()))),
        Op::TraceRay { .. } => Option::None,
    }
}

/// The nodes named directly by the schedule and the pending side effects.
pub open spec fn base_marks(n: nat, schedule: Seq<usize>, effects: Seq<usize>) -> Seq<bool> {
    Seq::new(n, |p: int| schedule.contains(p as usize) || effects.contains(p as usize))
}

/// The first `q` operands of node `i` marked into `m`.
pub open spec fn mark_deps(nodes: Seq<Node>, m: Seq<bool>, i: int, q: nat) -> Seq<bool>
    decreases q,
{
    if q == 0 {
        m
    } else {
        mark_deps(nodes, m, i, (q - 1) as nat).update(nodes[i].deps@[q - 1] as int, true)
    }
}

/// What marking the operands computes, pointwise.
pub proof fn lemma_mark_deps_char(nodes: Seq<Node>, m: Seq<bool>, i: int, q: nat, p: int)
    requires
        0 <= p < m.len(),
        forall|u: int| 0 <= u < nodes[i].deps@.len() ==> 0 <= (#[trigger] nodes[i].deps@[u])
            < m.len(),
        q <= nodes[i].deps@.len(),
    ensures
        mark_deps(nodes, m, i, q).len() == m.len(),
        mark_deps(nodes, m, i, q)[p] == (m[p] || exists|u: int|
            0 <= u < q && nodes[i].deps@[u] == p),
    decreases q,
{
    if q > 0 {
        lemma_mark_deps_char(nodes, m, i, (q - 1) as nat, p);
        if nodes[i].deps@[q - 1] == p {
            assert(mark_deps(nodes, m, i, q)[p] == true);
        } else {
            assert(mark_deps(nodes, m, i, q)[p] == mark_deps(nodes, m, i, (q - 1) as nat)[p]);
            assert((exists|u: int| 0 <= u < q && nodes[i].deps@[u] == p) == (exists|u: int|
                0 <= u < q - 1 && nodes[i].deps@[u] == p)) by {
                if exists|u: int| 0 <= u < q && nodes[i].deps@[u] == p {
                    let u = choose|u: int| 0 <= u < q && nodes[i].deps@[u] == p;
                    assert(u < q - 1);
                }
            }
        }
    }
}

/// One step of the marking pass: a marked node marks its operands.
pub open spec fn mark_step(nodes: Seq<Node>, m: Seq<bool>, i: int) -> Seq<bool> {
    if m[i] {
        mark_deps(nodes, m, i, nodes[i].deps@.len())
    } else {
        m
    }
}

/// The marking pass over nodes `n-1` down to `i`.
pub open spec fn marks_down(nodes: Seq<Node>, base: Seq<bool>, i: int) -> Seq<bool>
    decreases nodes.len() - i,
{
    if i >= nodes.len() || i < 0 {
        base
    } else {
        mark_step(nodes, marks_down(nodes, base, i + 1), i)
    }
}

/// The nodes one evaluation of the trace must materialize.
pub open spec fn needed_marks(t: Trace) -> Seq<bool> {
    marks_down(t.nodes@, base_marks(t.nodes@.len(), t.schedule@, t.effects@), 0)
}

/// The store after the marked nodes among the first `k` have been
/// materialized in arena order, skipping those an earlier evaluation
/// already covered; `None` as soon as a step fails.
pub open spec fn run_store(
    nodes: Seq<Node>,
    results: Seq<Option<Vec<u64>>>,
    needed: Seq<bool>,
    k: nat,
) -> Option<Seq<Option<Seq<u64>>>>
    decreases k,
{
    if k == 0 {
        Option::Some(Seq::new(nodes.len(), |j: int| Option::<Seq<u64>>::None))
    } else {
        match run_store(nodes, results, needed, (k - 1) as nat) {
            Option::None => Option::None,
            Option::Some(st) => {
                if needed[k - 1] && cur_lanes(results, st, k - 1) is None {
                    step_sem(nodes, results, st, k - 1)
                } else {
                    Option::Some(st)
                }
            },
        }
    }
}

/// A failed run stays failed.
pub proof fn lemma_run_store_none_mono(
    nodes: Seq<Node>,
    results: Seq<Option<Vec<u64>>>,
    needed: Seq<bool>,
    k1: nat,
    k2: nat,
)
    requires
        k1 <= k2,
        run_store(nodes, results, needed, k1) is None,
    ensures
        run_store(nodes, results, needed, k2) is None,
    decreases k2,
{
    if k2 > k1 {
        lemma_run_store_none_mono(nodes, results, needed, k1, (k2 - 1) as nat);
    }
}

/// A failed lane family stays failed as the lane count grows.
proof fn lemma_binop_lanes_none(op: BinOp, k: VarType, a: Seq<u64>, b: Seq<u64>, j1: nat, j2: nat)
    requires
        j1 <= j2,
        binop_lanes(op, k, a, b, j1) is None,
    ensures
        binop_lanes(op, k, a, b, j2) is None,
    decreases j2,
{
    if j2 > j1 {
        lemma_binop_lanes_none(op, k, a, b, j1, (j2 - 1) as nat);
    }
}

proof fn lemma_unop_lanes_none(op: UnOp, k: VarType, a: Seq<u64>, j1: nat, j2: nat)
    requires
        j1 <= j2,
        unop_lanes(op, k, a, j1) is None,
    ensures
        unop_lanes(op, k, a, j2) is None,
    decreases j2,
{
    if j2 > j1 {
        lemma_unop_lanes_none(op, k, a, j1, (j2 - 1) as nat);
    }
}

proof fn lemma_ternop_lanes_none(
    op: TernOp,
    k: VarType,
    a: Seq<u64>,
    b: Seq<u64>,
    c: Seq<u64>,
    j1: nat,
    j2: nat,
)
    requires
        j1 <= j2,
        ternop_lanes(op, k, a, b, c, j1) is None,
    ensures
        ternop_lanes(op, k, a, b, c, j2) is None,
    decreases j2,
{
    if j2 > j1 {
        lemma_ternop_lanes_none(op, k, a, b, c, j1, (j2 - 1) as nat);
    }
}

proof fn lemma_cast_lanes_none(from: VarType, to: VarType, a: Seq<u64>, j1: nat, j2: nat)
    requires
        j1 <= j2,
        cast_lanes(from, to, a, j1) is None,
    ensures
        cast_lanes(from, to, a, j2) is None,
    decreases j2,
{
    if j2 > j1 {
        lemma_cast_lanes_none(from, to, a, j1, (j2 - 1) as nat);
    }
}

proof fn lemma_gather_lanes_none(src: Seq<u64>, idx: Seq<u64>, mask: Seq<u64>, j1: nat, j2: nat)
    requires
        j1 <= j2,
        gather_lanes(src, idx, mask, j1) is None,
    ensures
        gather_lanes(src, idx, mask, j2) is None,
    decreases j2,
{
    if j2 > j1 {
        lemma_gather_lanes_none(src, idx, mask, j1, (j2 - 1) as nat);
    }
}

proof fn lemma_scatter_lanes_none(
    dst: Seq<u64>,
    src: Seq<u64>,
    idx: Seq<u64>,
    mask: Seq<u64>,
    j1: nat,
    j2: nat,
)
    requires
        j1 <= j2,
        scatter_lanes(dst, src, idx, mask, j1) is None,
    ensures
        scatter_lanes(dst, src, idx, mask, j2) is None,
    decreases j2,
{
    if j2 > j1 {
        lemma_scatter_lanes_none(dst, src, idx, mask, j1, (j2 - 1) as nat);
    }
}

proof fn lemma_scatter_add_lanes_none(
    k: VarType,
    dst: Seq<u64>,
    src: Seq<u64>,
    idx: Seq<u64>,
    mask: Seq<u64>,
    j1: nat,
    j2: nat,
)
    requires
        j1 <= j2,
        scatter_add_lanes(k, dst, src, idx, mask, j1) is None,
    ensures
        scatter_add_lanes(k, dst, src, idx, mask, j2) is None,
    decreases j2,
{
    if j2 > j1 {
        lemma_scatter_add_lanes_none(k, dst, src, idx, mask, j1, (j2 - 1) as nat);
    }
}

/// Broadcast indexing, executable side.
fn lane_of(a: &Vec<u64>, i: usize) -> (l: u64)
    requires
        a@.len() == 1 || i < a@.len(),
    ensures
        l == lane_at(a@, i as int),
{
    if a.len() == 1 {
        a[0]
    } else {
        a[i]
    }
}

/// An exact copy of a lane vector.
fn copy_lanes(v: &Vec<u64>) -> (out: Vec<u64>)
    ensures
        out@ == v@,
{
    let mut out: Vec<u64> = Vec::new();
    let mut i: usize = 0;
    while i < v.len()
        invariant
            i <= v@.len(),
            out@ == v@.subrange(0, i as int),
        decreases v@.len() - i,
    {
        out.push(v[i]);
        proof {
            assert(out@ =~= v@.subrange(0, i + 1));
        }
        i = i + 1;
    }
    proof {
        assert(out@ =~= v@);
    }
    out
}

/// Elementwise binary run over broadcast operands.
fn run_binop(op: BinOp, k: VarType, a: &Vec<u64>, b: &Vec<u64>, n: usize) -> (r: Option<Vec<u64>>)
    requires
        k.is_supported(),
        lanes_canonical(k, a@),
        lanes_canonical(k, b@),
        broadcast_ok(a@.len(), n as nat),
        broadcast_ok(b@.len(), n as nat),
    ensures
        match r {
            Option::Some(v) => binop_lanes(op, k, a@, b@, n as nat) == Option::Some(v@)
                && lanes_canonical(op.result_type(k), v@),
            Option::None => binop_lanes(op, k, a@, b@, n as nat) is None,
        },
{
    let mut out: Vec<u64> = Vec::new();
    let mut i: usize = 0;
    while i < n
        invariant
            i <= n,
            k.is_supported(),
            lanes_canonical(k, a@),
            lanes_canonical(k, b@),
            broadcast_ok(a@.len(), n as nat),
            broadcast_ok(b@.len(), n as nat),
            binop_lanes(op, k, a@, b@, i as nat) == Option::Some(out@),
            lanes_canonical(op.result_type(k), out@),
        decreases n - i,
    {
        let la = lane_of(a, i);
        let lb = lane_of(b, i);
        match lane_binop(op, k, la, lb) {
            Option::Some(v) => {
                out.push(v);
            },
            Option::None => {
                proof {
                    lemma_binop_lanes_none(op, k, a@, b@, (i + 1) as nat, n as nat);
                }
                return None;
            },
        }
        i = i + 1;
    }
    Some(out)
}

/// Elementwise unary run.
fn run_unop(op: UnOp, k: VarType, a: &Vec<u64>) -> (r: Option<Vec<u64>>)
    requires
        k.is_supported(),
        lanes_canonical(k, a@),
    ensures
        match r {
            Option::Some(v) => unop_lanes(op, k, a@, a@.len()) == Option::Some(v@)
                && lanes_canonical(k, v@),
            Option::None => unop_lanes(op, k, a@, a@.len()) is None,
        },
{
    let n = a.len();
    let mut out: Vec<u64> = Vec::new();
    let mut i: usize = 0;
    while i < n
        invariant
            i <= n == a@.len(),
            k.is_supported(),
            lanes_canonical(k, a@),
            unop_lanes(op, k, a@, i as nat) == Option::Some(out@),
            lanes_canonical(k, out@),
        decreases n - i,
    {
        match lane_unop(op, k, a[i]) {
            Option::Some(v) => {
                out.push(v);
            },
            Option::None => {
                proof {
                    lemma_unop_lanes_none(op, k, a@, (i + 1) as nat, a@.len());
                }
                return None;
            },
        }
        i = i + 1;
    }
    Some(out)
}

/// Elementwise ternary run over broadcast operands.
fn run_ternop(
    op: TernOp,
    k: VarType,
    a: &Vec<u64>,
    b: &Vec<u64>,
    c: &Vec<u64>,
    n: usize,
) -> (r: Option<Vec<u64>>)
    requires
        k.is_supported(),
        lanes_canonical(k, b@),
        lanes_canonical(k, c@),
        broadcast_ok(a@.len(), n as nat),
        broadcast_ok(b@.len(), n as nat),
        broadcast_ok(c@.len(), n as nat),
    ensures
        match r {
            Option::Some(v) => ternop_lanes(op, k, a@, b@, c@, n as nat) == Option::Some(v@)
                && lanes_canonical(k, v@),
            Option::None => ternop_lanes(op, k, a@, b@, c@, n as nat) is None,
        },
{
    let mut out: Vec<u64> = Vec::new();
    let mut i: usize = 0;
    while i < n
        invariant
            i <= n,
            k.is_supported(),
            lanes_canonical(k, b@),
            lanes_canonical(k, c@),
            broadcast_ok(a@.len(), n as nat),
            broadcast_ok(b@.len(), n as nat),
            broadcast_ok(c@.len(), n as nat),
            ternop_lanes(op, k, a@, b@, c@, i as nat) == Option::Some(out@),
            lanes_canonical(k, out@),
        decreases n - i,
    {
        let la = lane_of(a, i);
        let lb = lane_of(b, i);
        let lc = lane_of(c, i);
        match lane_ternop(op, k, la, lb, lc) {
            Option::Some(v) => {
                out.push(v);
            },
            Option::None => {
                proof {
                    lemma_ternop_lanes_none(op, k, a@, b@, c@, (i + 1) as nat, n as nat);
                }
                return None;
            },
        }
        i = i + 1;
    }
    Some(out)
}

/// Elementwise cast run.
fn run_cast(from: VarType, to: VarType, a: &Vec<u64>) -> (r: Option<Vec<u64>>)
    requires
        from.is_supported(),
        to.is_supported(),
        lanes_canonical(from, a@),
    ensures
        match r {
            Option::Some(v) => cast_lanes(from, to, a@, a@.len()) == Option::Some(v@)
                && lanes_canonical(to, v@),
            Option::None => cast_lanes(from, to, a@, a@.len()) is None,
        },
{
    let n = a.len();
    let mut out: Vec<u64> = Vec::new();
    let mut i: usize = 0;
    while i < n
        invariant
            i <= n == a@.len(),
            from.is_supported(),
            to.is_supported(),
            lanes_canonical(from, a@),
            cast_lanes(from, to, a@, i as nat) == Option::Some(out@),
            lanes_canonical(to, out@),
        decreases n - i,
    {
        match lane_cast(from, to, a[i]) {
            Option::Some(v) => {
                out.push(v);
            },
            Option::None => {
                proof {
                    lemma_cast_lanes_none(from, to, a@, (i + 1) as nat, a@.len());
                }
                return None;
            },
        }
        i = i + 1;
    }
    Some(out)
}

/// A gather run.
fn run_gather(k: VarType, src: &Vec<u64>, idx: &Vec<u64>, mask: &Vec<u64>, n: usize) -> (r: Option<
    Vec<u64>,
>)
    requires
        lanes_canonical(k, src@),
        broadcast_ok(idx@.len(), n as nat),
        broadcast_ok(mask@.len(), n as nat),
    ensures
        match r {
            Option::Some(v) => gather_lanes(src@, idx@, mask@, n as nat) == Option::Some(v@)
                && lanes_canonical(k, v@),
            Option::None => gather_lanes(src@, idx@, mask@, n as nat) is None,
        },
{
    let mut out: Vec<u64> = Vec::new();
    let mut i: usize = 0;
    while i < n
        invariant
            i <= n,
            lanes_canonical(k, src@),
            broadcast_ok(idx@.len(), n as nat),
            broadcast_ok(mask@.len(), n as nat),
            gather_lanes(src@, idx@, mask@, i as nat) == Option::Some(out@),
            lanes_canonical(k, out@),
        decreases n - i,
    {
        let mi = lane_of(mask, i);
        if mi == 0 {
            proof {
                assert(k.canonical(0u64));
            }
            out.push(0u64);
        } else {
            let ji = lane_of(idx, i);
            if ji < src.len() as u64 {
                out.push(src[ji as usize]);
            } else {
                proof {
                    lemma_gather_lanes_none(src@, idx@, mask@, (i + 1) as nat, n as nat);
                }
                return None;
            }
        }
        i = i + 1;
    }
    Some(out)
}

/// A scatter run: the destination lanes after every set-mask write.
fn run_scatter(
    k: VarType,
    dst: &Vec<u64>,
    src: &Vec<u64>,
    idx: &Vec<u64>,
    mask: &Vec<u64>,
    n: usize,
) -> (r: Option<Vec<u64>>)
    requires
        lanes_canonical(k, dst@),
        lanes_canonical(k, src@),
        broadcast_ok(src@.len(), n as nat),
        broadcast_ok(idx@.len(), n as nat),
        broadcast_ok(mask@.len(), n as nat),
    ensures
        match r {
            Option::Some(v) => scatter_lanes(dst@, src@, idx@, mask@, n as nat) == Option::Some(
                v@,
            ) && lanes_canonical(k, v@),
            Option::None => scatter_lanes(dst@, src@, idx@, mask@, n as nat) is None,
        },
{
    let mut out: Vec<u64> = copy_lanes(dst);
    let mut i: usize = 0;
    while i < n
        invariant
            i <= n,
            lanes_canonical(k, dst@),
            lanes_canonical(k, src@),
            broadcast_ok(src@.len(), n as nat),
            broadcast_ok(idx@.len(), n as nat),
            broadcast_ok(mask@.len(), n as nat),
            scatter_lanes(dst@, src@, idx@, mask@, i as nat) == Option::Some(out@),
            out@.len() == dst@.len(),
            lanes_canonical(k, out@),
        decreases n - i,
    {
        let mi = lane_of(mask, i);
        if mi != 0 {
            let ji = lane_of(idx, i);
            if ji < dst.len() as u64 {
                let la = lane_of(src, i);
                out[ji as usize] = la;
            } else {
                proof {
                    lemma_scatter_lanes_none(dst@, src@, idx@, mask@, (i + 1) as nat, n as nat);
                }
                return None;
            }
        }
        i = i + 1;
    }
    Some(out)
}

/// An accumulating scatter run.
fn run_scatter_add(
    k: VarType,
    dst: &Vec<u64>,
    src: &Vec<u64>,
    idx: &Vec<u64>,
    mask: &Vec<u64>,
    n: usize,
) -> (r: Option<Vec<u64>>)
    requires
        k.is_int(),
        lanes_canonical(k, dst@),
        lanes_canonical(k, src@),
        broadcast_ok(src@.len(), n as nat),
        broadcast_ok(idx@.len(), n as nat),
        broadcast_ok(mask@.len(), n as nat),
    ensures
        match r {
            Option::Some(v) => scatter_add_lanes(k, dst@, src@, idx@, mask@, n as nat)
                == Option::Some(v@) && lanes_canonical(k, v@),
            Option::None => scatter_add_lanes(k, dst@, src@, idx@, mask@, n as nat) is None,
        },
{
    let mut out: Vec<u64> = copy_lanes(dst);
    let mut i: usize = 0;
    while i < n
        invariant
            i <= n,
            k.is_int(),
            lanes_canonical(k, dst@),
            lanes_canonical(k, src@),
            broadcast_ok(src@.len(), n as nat),
            broadcast_ok(idx@.len(), n as nat),
            broadcast_ok(mask@.len(), n as nat),
            scatter_add_lanes(k, dst@, src@, idx@, mask@, i as nat) == Option::Some(out@),
            out@.len() == dst@.len(),
            lanes_canonical(k, out@),
        decreases n - i,
    {
        let mi = lane_of(mask, i);
        if mi != 0 {
            let ji = lane_of(idx, i);
            if ji < dst.len() as u64 {
                let la = lane_of(src, i);
                let prev = out[ji as usize];
                match lane_binop(BinOp::Add, k, prev, la) {
                    Option::Some(v) => {
                        out[ji as usize] = v;
                    },
                    Option::None => {
                        proof {
                            assert(false);
                        }
                    },
                }
            } else {
                proof {
                    lemma_scatter_add_lanes_none(
                        k,
                        dst@,
                        src@,
                        idx@,
                        mask@,
                        (i + 1) as nat,
                        n as nat,
                    );
                }
                return None;
            }
        }
        i = i + 1;
    }
    Some(out)
}

/// A compress run: the indices of the set lanes.
fn run_compress(a: &Vec<u64>) -> (out: Vec<u64>)
    requires
        a@.len() <= 0xFFFF_FFFF,
    ensures
        out@ == compress_lanes(a@, a@.len()),
        lanes_canonical(VarType::U32, out@),
{
    let mut out: Vec<u64> = Vec::new();
    let mut i: usize = 0;
    while i < a.len()
        invariant
            i <= a@.len() <= 0xFFFF_FFFF,
            out@ == compress_lanes(a@, i as nat),
            lanes_canonical(VarType::U32, out@),
        decreases a@.len() - i,
    {
        if a[i] != 0 {
            out.push(i as u64);
        }
        i = i + 1;
    }
    out
}

/// An index-generator run: the first `n` naturals.
fn run_index(n: usize) -> (out: Vec<u64>)
    requires
        n <= 0xFFFF_FFFF,
    ensures
        out@ == index_lanes(n as nat),
        lanes_canonical(VarType::U32, out@),
{
    let mut out: Vec<u64> = Vec::new();
    let mut i: usize = 0;
    while i < n
        invariant
            i <= n <= 0xFFFF_FFFF,
            out@.len() == i,
            forall|j: int| 0 <= j < i ==> out@[j] == j as u64,
        decreases n - i,
    {
        out.push(i as u64);
        i = i + 1;
    }
    proof {
        assert(out@ =~= index_lanes(n as nat));
    }
    out
}

/// A literal or texture-storage run: `n` copies of one canonical pattern.
fn run_replicate(k: VarType, v: u64, n: usize) -> (out: Vec<u64>)
    requires
        k.canonical(v),
    ensures
        out@ == replicate(v, n as nat),
        lanes_canonical(k, out@),
{
    let mut out: Vec<u64> = Vec::new();
    let mut i: usize = 0;
    while i < n
        invariant
            i <= n,
            k.canonical(v),
            out@.len() == i,
            forall|j: int| 0 <= j < i ==> out@[j] == v,
        decreases n - i,
    {
        out.push(v);
        i = i + 1;
    }
    proof {
        assert(out@ =~= replicate(v, n as nat));
    }
    out
}

/// Every filled slot of a result vector holds canonical lanes of its
/// node's kind.
pub open spec fn store_canonical(nodes: Seq<Node>, s: Seq<Option<Vec<u64>>>) -> bool {
    forall|j: int|
        0 <= j < s.len() ==> match #[trigger] s[j] {
            Option::Some(v) => lanes_canonical(nodes[j].ty, v@),
            Option::None => true,
        }
}

/// The lanes node `d` currently exposes, executable side.
fn cur_ref<'a>(results: &'a Vec<Option<Vec<u64>>>, st: &'a Vec<Option<Vec<u64>>>, d: usize) -> (r:
    Option<&'a Vec<u64>>)
    requires
        d < st@.len(),
        d < results@.len(),
    ensures
        match r {
            Option::Some(v) => cur_lanes(results@, store_view(st@), d as int) == Option::Some(v@),
            Option::None => cur_lanes(results@, store_view(st@), d as int) is None,
        },
{
    match &st[d] {
        Option::Some(v) => Some(v),
        Option::None => match &results[d] {
            Option::Some(v) => Some(v),
            Option::None => None,
        },
    }
}

/// The common broadcast length, executable side.
fn bc2_x(a: usize, b: usize) -> (r: Option<usize>)
    ensures
        match r {
            Option::Some(n) => bc2(a as nat, b as nat) == Option::Some(n as nat),
            Option::None => bc2(a as nat, b as nat) is None,
        },
{
    if a == b {
        Some(a)
    } else if a == 1 {
        Some(b)
    } else if b == 1 {
        Some(a)
    } else {
        None
    }
}

/// Materializes node `i` into the working store, exactly as [`step_sem`]
/// says; on failure the store is untouched and the error kind says whether
/// the reference backend cannot run the node or the run faulted.
#[verifier::rlimit(100)]
fn compute_step(
    nodes: &Vec<Node>,
    results: &Vec<Option<Vec<u64>>>,
    st: &mut Vec<Option<Vec<u64>>>,
    i: usize,
) -> (r: Result<(), crate::error::BackendErrorKind>)
    requires
        forall|j: int| 0 <= j < nodes@.len() ==> node_wf(nodes@, j),
        results@.len() == nodes@.len(),
        old(st)@.len() == nodes@.len(),
        i < nodes@.len(),
        store_canonical(nodes@, results@),
        store_canonical(nodes@, old(st)@),
    ensures
        final(st)@.len() == nodes@.len(),
        match r {
            Result::Ok(()) => step_sem(nodes@, results@, store_view(old(st)@), i as int)
                == Option::Some(store_view(final(st)@)) && store_canonical(nodes@, final(st)@),
            Result::Err(_) => step_sem(nodes@, results@, store_view(old(st)@), i as int) is None
                && final(st)@ == old(st)@,
        },
{
    proof {
        assert(node_wf(nodes@, i as int));
    }
    let nd = &nodes[i];
    match &nd.op {
        Op::Literal => {
            let lanes = run_replicate(nd.ty, nd.lit, nd.size);
            let ghost lseq = lanes@;
            st[i] = Some(lanes);
            proof {
                assert(store_view(st@) =~= store_view(old(st)@).update(
                    i as int,
                    Option::Some(lseq),
                ));
            }
            Ok(())
        },
        Op::Buffer => {
            let lanes = copy_lanes(&nd.buf);
            let ghost lseq = lanes@;
            st[i] = Some(lanes);
            proof {
                assert(store_view(st@) =~= store_view(old(st)@).update(
                    i as int,
                    Option::Some(lseq),
                ));
            }
            Ok(())
        },
        Op::Index => {
            let lanes = run_index(nd.size);
            let ghost lseq = lanes@;
            st[i] = Some(lanes);
            proof {
                assert(store_view(st@) =~= store_view(old(st)@).update(
                    i as int,
                    Option::Some(lseq),
                ));
            }
            Ok(())
        },
        Op::Texture { .. } => {
            proof {
                assert(nd.ty.canonical(0u64));
            }
            let lanes = run_replicate(nd.ty, 0, nd.size);
            let ghost lseq = lanes@;
            st[i] = Some(lanes);
            proof {
                assert(store_view(st@) =~= store_view(old(st)@).update(
                    i as int,
                    Option::Some(lseq),
                ));
            }
            Ok(())
        },
        Op::Cast => {
            let d0 = nd.deps[0];
            proof {
                assert(node_wf(nodes@, d0 as int));
            }
            let a = match cur_ref(results, st, d0) {
                Option::Some(a) => a,
                Option::None => {
                    return Err(crate::error::BackendErrorKind::ExecutionFault);
                },
            };
            match run_cast(nodes[d0].ty, nd.ty, a) {
                Option::Some(lanes) => {
                    let ghost lseq = lanes@;
                    st[i] = Some(lanes);
                    proof {
                        assert(store_view(st@) =~= store_view(old(st)@).update(
                            i as int,
                            Option::Some(lseq),
                        ));
                    }
                    Ok(())
                },
                Option::None => Err(crate::error::BackendErrorKind::UnsupportedOp),
            }
        },
        Op::Bitcast => {
            let d0 = nd.deps[0];
            let a = match cur_ref(results, st, d0) {
                Option::Some(a) => a,
                Option::None => {
                    return Err(crate::error::BackendErrorKind::ExecutionFault);
                },
            };
            let lanes = copy_lanes(a);
            let ghost lseq = lanes@;
            proof {
                assert(lanes_canonical(nd.ty, lseq)) by {
                    assert(forall|p: int|
                        0 <= p < lseq.len() ==> nodes@[d0 as int].ty.canonical(
                            #[trigger] lseq[p],
                        ));
                }
            }
            st[i] = Some(lanes);
            proof {
                assert(store_view(st@) =~= store_view(old(st)@).update(
                    i as int,
                    Option::Some(lseq),
                ));
            }
            Ok(())
        },
        Op::Binary { op } => {
            let op = *op;
            let d0 = nd.deps[0];
            let d1 = nd.deps[1];
            proof {
                assert(node_wf(nodes@, d0 as int));
            }
            let a = match cur_ref(results, st, d0) {
                Option::Some(a) => a,
                Option::None => {
                    return Err(crate::error::BackendErrorKind::ExecutionFault);
                },
            };
            let b = match cur_ref(results, st, d1) {
                Option::Some(b) => b,
                Option::None => {
                    return Err(crate::error::BackendErrorKind::ExecutionFault);
                },
            };
            let n = match bc2_x(a.len(), b.len()) {
                Option::Some(n) => n,
                Option::None => {
                    return Err(crate::error::BackendErrorKind::ExecutionFault);
                },
            };
            match run_binop(op, nodes[d0].ty, a, b, n) {
                Option::Some(lanes) => {
                    let ghost lseq = lanes@;
                    st[i] = Some(lanes);
                    proof {
                        assert(store_view(st@) =~= store_view(old(st)@).update(
                            i as int,
                            Option::Some(lseq),
                        ));
                    }
                    Ok(())
                },
                Option::None => {
                    if nodes[d0].ty.float_kind() {
                        Err(crate::error::BackendErrorKind::UnsupportedOp)
                    } else {
                        Err(crate::error::BackendErrorKind::ExecutionFault)
                    }
                },
            }
        },
        Op::Unary { op } => {
            let op = *op;
            let d0 = nd.deps[0];
            let a = match cur_ref(results, st, d0) {
                Option::Some(a) => a,
                Option::None => {
                    return Err(crate::error::BackendErrorKind::ExecutionFault);
                },
            };
            match run_unop(op, nd.ty, a) {
                Option::Some(lanes) => {
                    let ghost lseq = lanes@;
                    st[i] = Some(lanes);
                    proof {
                        assert(store_view(st@) =~= store_view(old(st)@).update(
                            i as int,
                            Option::Some(lseq),
                        ));
                    }
                    Ok(())
                },
                Option::None => Err(crate::error::BackendErrorKind::UnsupportedOp),
            }
        },
        Op::Tern { op } => {
            let op = *op;
            let d0 = nd.deps[0];
            let d1 = nd.deps[1];
            let d2 = nd.deps[2];
            let a = match cur_ref(results, st, d0) {
                Option::Some(a) => a,
                Option::None => {
                    return Err(crate::error::BackendErrorKind::ExecutionFault);
                },
            };
            let b = match cur_ref(results, st, d1) {
                Option::Some(b) => b,
                Option::None => {
                    return Err(crate::error::BackendErrorKind::ExecutionFault);
                },
            };
            let c = match cur_ref(results, st, d2) {
                Option::Some(c) => c,
                Option::None => {
                    return Err(crate::error::BackendErrorKind::ExecutionFault);
                },
            };
            let n0 = match bc2_x(a.len(), b.len()) {
                Option::Some(n) => n,
                Option::None => {
                    return Err(crate::error::BackendErrorKind::ExecutionFault);
                },
            };
            let n = match bc2_x(n0, c.len()) {
                Option::Some(n) => n,
                Option::None => {
                    return Err(crate::error::BackendErrorKind::ExecutionFault);
                },
            };
            match run_ternop(op, nd.ty, a, b, c, n) {
                Option::Some(lanes) => {
                    let ghost lseq = lanes@;
                    st[i] = Some(lanes);
                    proof {
                        assert(store_view(st@) =~= store_view(old(st)@).update(
                            i as int,
                            Option::Some(lseq),
                        ));
                    }
                    Ok(())
                },
                Option::None => Err(crate::error::BackendErrorKind::UnsupportedOp),
            }
        },
        Op::Gather => {
            let d0 = nd.deps[0];
            let d1 = nd.deps[1];
            let d2 = nd.deps[2];
            let src = match cur_ref(results, st, d0) {
                Option::Some(v) => v,
                Option::None => {
                    return Err(crate::error::BackendErrorKind::ExecutionFault);
                },
            };
            let idx = match cur_ref(results, st, d1) {
                Option::Some(v) => v,
                Option::None => {
                    return Err(crate::error::BackendErrorKind::ExecutionFault);
                },
            };
            let mask = match cur_ref(results, st, d2) {
                Option::Some(v) => v,
                Option::None => {
                    return Err(crate::error::BackendErrorKind::ExecutionFault);
                },
            };
            let n = match bc2_x(idx.len(), mask.len()) {
                Option::Some(n) => n,
                Option::None => {
                    return Err(crate::error::BackendErrorKind::ExecutionFault);
                },
            };
            match run_gather(nd.ty, src, idx, mask, n) {
                Option::Some(lanes) => {
                    let ghost lseq = lanes@;
                    st[i] = Some(lanes);
                    proof {
                        assert(store_view(st@) =~= store_view(old(st)@).update(
                            i as int,
                            Option::Some(lseq),
                        ));
                    }
                    Ok(())
                },
                Option::None => Err(crate::error::BackendErrorKind::ExecutionFault),
            }
        },
        Op::Scatter => {
            let d0 = nd.deps[0];
            let d1 = nd.deps[1];
            let d2 = nd.deps[2];
            let d3 = nd.deps[3];
            let src = match cur_ref(results, st, d0) {
                Option::Some(v) => v,
                Option::None => {
                    return Err(crate::error::BackendErrorKind::ExecutionFault);
                },
            };
            let dstl = match cur_ref(results, st, d1) {
                Option::Some(v) => v,
                Option::None => {
                    return Err(crate::error::BackendErrorKind::ExecutionFault);
                },
            };
            let idx = match cur_ref(results, st, d2) {
                Option::Some(v) => v,
                Option::None => {
                    return Err(crate::error::BackendErrorKind::ExecutionFault);
                },
            };
            let mask = match cur_ref(results, st, d3) {
                Option::Some(v) => v,
                Option::None => {
                    return Err(crate::error::BackendErrorKind::ExecutionFault);
                },
            };
            let n0 = match bc2_x(src.len(), idx.len()) {
                Option::Some(n) => n,
                Option::None => {
                    return Err(crate::error::BackendErrorKind::ExecutionFault);
                },
            };
            let n = match bc2_x(n0, mask.len()) {
                Option::Some(n) => n,
                Option::None => {
                    return Err(crate::error::BackendErrorKind::ExecutionFault);
                },
            };
            match run_scatter(nd.ty, dstl, src, idx, mask, n) {
                Option::Some(d2lanes) => {
                    let ghost dseq = d2lanes@;
                    st[d1] = Some(d2lanes);
                    st[i] = Some(Vec::new());
                    proof {
                        assert(store_view(st@) =~= store_view(old(st)@).update(
                            d1 as int,
                            Option::Some(dseq),
                        ).update(i as int, Option::Some(Seq::<u64>::empty())));
                    }
                    Ok(())
                },
                Option::None => Err(crate::error::BackendErrorKind::ExecutionFault),
            }
        },
        Op::ScatterAdd => {
            let d0 = nd.deps[0];
            let d1 = nd.deps[1];
            let d2 = nd.deps[2];
            let d3 = nd.deps[3];
            let src = match cur_ref(results, st, d0) {
                Option::Some(v) => v,
                Option::None => {
                    return Err(crate::error::BackendErrorKind::ExecutionFault);
                },
            };
            let dstl = match cur_ref(results, st, d1) {
                Option::Some(v) => v,
                Option::None => {
                    return Err(crate::error::BackendErrorKind::ExecutionFault);
                },
            };
            let idx = match cur_ref(results, st, d2) {
                Option::Some(v) => v,
                Option::None => {
                    return Err(crate::error::BackendErrorKind::ExecutionFault);
                },
            };
            let mask = match cur_ref(results, st, d3) {
                Option::Some(v) => v,
                Option::None => {
                    return Err(crate::error::BackendErrorKind::ExecutionFault);
                },
            };
            let n0 = match bc2_x(src.len(), idx.len()) {
                Option::Some(n) => n,
                Option::None => {
                    return Err(crate::error::BackendErrorKind::ExecutionFault);
                },
            };
            let n = match bc2_x(n0, mask.len()) {
                Option::Some(n) => n,
                Option::None => {
                    return Err(crate::error::BackendErrorKind::ExecutionFault);
                },
            };
            match run_scatter_add(nd.ty, dstl, src, idx, mask, n) {
                Option::Some(d2lanes) => {
                    let ghost dseq = d2lanes@;
                    st[d1] = Some(d2lanes);
                    st[i] = Some(Vec::new());
                    proof {
                        assert(store_view(st@) =~= store_view(old(st)@).update(
                            d1 as int,
                            Option::Some(dseq),
                        ).update(i as int, Option::Some(Seq::<u64>::empty())));
                    }
                    Ok(())
                },
                Option::None => Err(crate::error::BackendErrorKind::ExecutionFault),
            }
        },
        Op::Compress => {
            let d0 = nd.deps[0];
            let a = match cur_ref(results, st, d0) {
                Option::Some(a) => a,
                Option::None => {
                    return Err(crate::error::BackendErrorKind::ExecutionFault);
                },
            };
            if a.len() > 0xFFFF_FFFFusize {
                return Err(crate::error::BackendErrorKind::ExecutionFault);
            }
            let lanes = run_compress(a);
            let ghost lseq = lanes@;
            st[i] = Some(lanes);
            proof {
                assert(store_view(st@) =~= store_view(old(st)@).update(
                    i as int,
                    Option::Some(lseq),
                ));
            }
            Ok(())
        },
        Op::ToTexture { .. } | Op::TexToBuffer => {
            let d0 = nd.deps[0];
            let a = match cur_ref(results, st, d0) {
                Option::Some(a) => a,
                Option::None => {
                    return Err(crate::error::BackendErrorKind::ExecutionFault);
                },
            };
            let lanes = copy_lanes(a);
            let ghost lseq = lanes@;
            st[i] = Some(lanes);
            proof {
                assert(store_view(st@) =~= store_view(old(st)@).update(
                    i as int,
                    Option::Some(lseq),
                ));
            }
            Ok(())
        },
        Op::TexLookup { .. } => Err(crate::error::BackendErrorKind::UnsupportedOp),
        Op::Accel => {
            st[i] = Some(Vec::new());
            proof {
                assert(store_view(st@) =~= store_view(old(st)@).update(
                    i as int,
                    Option::Some(Seq::<u64>::empty()),
                ));
            }
            Ok(())
        },
        Op::TraceRay { .. } => Err(crate::error::BackendErrorKind::UnsupportedOp),
    }
}

/// The whole contract of one evaluation: on success the marked part of
/// the graph was materialized exactly as [`run_store`] says and the
/// schedule and pending side effects are cleared; on failure the trace is
/// untouched and the error says whether no backend was bound or the
/// backend refused or faulted.
pub open spec fn evaluated(pre: Trace, post: Trace, r: Result<(), crate::error::Error>) -> bool {
    &&& post.wf()
    &&& post.nodes@ == pre.nodes@
    &&& post.backend == pre.backend
    &&& match r {
        Result::Ok(()) => {
            &&& pre.backend is Some
            &&& run_store(pre.nodes@, pre.results@, needed_marks(pre), pre.nodes@.len() as nat)
                is Some
            &&& post.schedule@.len() == 0
            &&& post.effects@.len() == 0
            &&& post.results@.len() == pre.results@.len()
            &&& (forall|j: int|
                0 <= j < post.results@.len() ==> res_at(post.results@, j) == cur_lanes(
                    pre.results@,
                    run_store(
                        pre.nodes@,
                        pre.results@,
                        needed_marks(pre),
                        pre.nodes@.len() as nat,
                    ).unwrap(),
                    j,
                ))
        },
        Result::Err(e) => {
            &&& post == pre
            &&& (pre.backend is None ==> e == (crate::error::Error::BackendError {
                kind: crate::error::BackendErrorKind::NoBackend,
            }))
            &&& (pre.backend is Some ==> run_store(
                pre.nodes@,
                pre.results@,
                needed_marks(pre),
                pre.nodes@.len() as nat,
            ) is None && (e matches crate::error::Error::BackendError { .. }))
        },
    }
}

impl Trace {
    /// Flushes the pending graph through the bound backend: every node
    /// feeding a scheduled output or a pending scatter is materialized, in
    /// arena order, exactly as [`run_store`] says; already-materialized
    /// nodes are not recomputed.  On success the schedule and the pending
    /// side effects are cleared.  On any failure — no backend bound, an
    /// operation the backend cannot run, or a fault during the run — the
    /// trace is left exactly as it was: no partial completion is
    /// observable.
    #[verifier::rlimit(50)]
    #[verifier::loop_isolation(false)]
    pub fn eval(&mut self) -> (r: Result<(), crate::error::Error>)
        requires
            old(self).wf(),
        ensures
            evaluated(*old(self), *final(self), r),
    {
        self.eval_inner()
    }

    /// The working body of [`Trace::eval`].
    #[verifier::rlimit(50)]
    #[verifier::loop_isolation(false)]
    fn eval_inner(&mut self) -> (r: Result<(), crate::error::Error>)
        requires
            old(self).wf(),
        ensures
            final(self).wf(),
            final(self).nodes@ == old(self).nodes@,
            final(self).backend == old(self).backend,
            match r {
                Result::Ok(()) => {
                    &&& old(self).backend is Some
                    &&& run_store(
                        old(self).nodes@,
                        old(self).results@,
                        needed_marks(*old(self)),
                        old(self).nodes@.len() as nat,
                    ) is Some
                    &&& final(self).schedule@.len() == 0
                    &&& final(self).effects@.len() == 0
                    &&& final(self).results@.len() == old(self).results@.len()
                    &&& (forall|j: int|
                        0 <= j < final(self).results@.len() ==> res_at(final(self).results@, j)
                            == cur_lanes(
                            old(self).results@,
                            run_store(
                                old(self).nodes@,
                                old(self).results@,
                                needed_marks(*old(self)),
                                old(self).nodes@.len() as nat,
                            ).unwrap(),
                            j,
                        ))
                },
                Result::Err(e) => {
                    &&& *final(self) == *old(self)
                    &&& (old(self).backend is None ==> e == (crate::error::Error::BackendError {
                        kind: crate::error::BackendErrorKind::NoBackend,
                    }))
                    &&& (old(self).backend is Some ==> run_store(
                        old(self).nodes@,
                        old(self).results@,
                        needed_marks(*old(self)),
                        old(self).nodes@.len() as nat,
                    ) is None && (e matches crate::error::Error::BackendError { .. }))
                },
            },
    {
        if self.backend.is_none() {
            return Err(
                crate::error::Error::BackendError {
                    kind: crate::error::BackendErrorKind::NoBackend,
                },
            );
        }
        let n = self.nodes.len();

        // Base marks: the scheduled nodes and the pending side effects.
        let mut marks: Vec<bool> = Vec::new();
        let mut p: usize = 0;
        while p < n
            invariant
                p <= n,
                marks@.len() == p,
                forall|q: int| 0 <= q < p ==> marks@[q] == false,
            decreases n - p,
        {
            marks.push(false);
            p = p + 1;
        }
        let mut si: usize = 0;
        while si < self.schedule.len()
            invariant
                self.wf(),
                *self == *old(self),
                n == self.nodes@.len(),
                marks@.len() == n,
                si <= self.schedule@.len(),
                forall|q: int|
                    0 <= q < n ==> marks@[q] == exists|u: int|
                        0 <= u < si && self.schedule@[u] == q as usize,
            decreases self.schedule@.len() - si,
        {
            let id = self.schedule[si];
            marks[id] = true;
            si = si + 1;
            proof {
                assert(forall|q: int|
                    0 <= q < n ==> marks@[q] == exists|u: int|
                        0 <= u < si && self.schedule@[u] == q as usize) by {
                    assert(forall|q: int|
                        0 <= q < n && q != id ==> marks@[q] == exists|u: int|
                            0 <= u < si && self.schedule@[u] == q as usize);
                    assert(self.schedule@[si - 1] == id);
                }
            }
        }
        let mut ei: usize = 0;
        while ei < self.effects.len()
            invariant
                self.wf(),
                *self == *old(self),
                n == self.nodes@.len(),
                marks@.len() == n,
                ei <= self.effects@.len(),
                forall|q: int|
                    0 <= q < n ==> marks@[q] == (self.schedule@.contains(q as usize) || exists|
                        u: int,
                    |
                        0 <= u < ei && self.effects@[u] == q as usize),
            decreases self.effects@.len() - ei,
        {
            let id = self.effects[ei];
            marks[id] = true;
            ei = ei + 1;
            proof {
                assert(forall|q: int|
                    0 <= q < n ==> marks@[q] == (self.schedule@.contains(q as usize) || exists|
                        u: int,
                    |
                        0 <= u < ei && self.effects@[u] == q as usize)) by {
                    assert(forall|q: int|
                        0 <= q < n && q != id ==> marks@[q] == (self.schedule@.contains(q as usize)
                            || exists|u: int| 0 <= u < ei && self.effects@[u] == q as usize));
                    assert(self.effects@[ei - 1] == id);
                }
            }
        }
        let ghost base = marks@;
        proof {
            assert(base =~= base_marks(n as nat, self.schedule@, self.effects@));
        }

        // Backward marking: a marked node marks its operands.
        let mut j: usize = n;
        while j > 0
            invariant
                self.wf(),
                *self == *old(self),
                n == self.nodes@.len(),
                marks@.len() == n,
                j <= n,
                marks@ == marks_down(self.nodes@, base, j as int),
            decreases j,
        {
            j = j - 1;
            if marks[j] {
                let ghost m0 = marks@;
                let mut q: usize = 0;
                let deps_len = self.nodes[j].deps.len();
                proof {
                    assert(node_wf(self.nodes@, j as int));
                }
                while q < deps_len
                    invariant
                        self.wf(),
                        *self == *old(self),
                        n == self.nodes@.len(),
                        j < n,
                        node_wf(self.nodes@, j as int),
                        deps_len == self.nodes@[j as int].deps@.len(),
                        q <= deps_len,
                        marks@.len() == n,
                        m0.len() == n,
                        m0[j as int] == true,
                        marks@ == mark_deps(self.nodes@, m0, j as int, q as nat),
                    decreases deps_len - q,
                {
                    let d = self.nodes[j].deps[q];
                    marks[d] = true;
                    q = q + 1;
                }
                proof {
                    assert(marks@ == mark_step(self.nodes@, m0, j as int));
                }
            }
        }
        let ghost needed = marks@;
        proof {
            assert(needed == needed_marks(*old(self)));
        }

        // Forward pass: materialize the marked nodes into a working store;
        // nothing in the trace is touched until every step has succeeded.
        let mut st: Vec<Option<Vec<u64>>> = Vec::new();
        let mut p2: usize = 0;
        while p2 < n
            invariant
                p2 <= n,
                st@.len() == p2,
                forall|q: int| 0 <= q < p2 ==> st@[q] is None,
            decreases n - p2,
        {
            st.push(None);
            p2 = p2 + 1;
        }
        proof {
            assert(store_view(st@) =~= run_store(
                self.nodes@,
                self.results@,
                needed,
                0,
            ).unwrap());
        }
        let mut i: usize = 0;
        while i < n
            invariant
                self.wf(),
                *self == *old(self),
                n == self.nodes@.len() == self.results@.len(),
                marks@ == needed,
                needed.len() == n,
                i <= n,
                st@.len() == n,
                run_store(self.nodes@, self.results@, needed, i as nat) == Option::Some(
                    store_view(st@),
                ),
                store_canonical(self.nodes@, st@),
            decreases n - i,
        {
            if marks[i] {
                let have = match &st[i] {
                    Option::Some(_) => true,
                    Option::None => match &self.results[i] {
                        Option::Some(_) => true,
                        Option::None => false,
                    },
                };
                if !have {
                    let ghost st_pre = store_view(st@);
                    match compute_step(&self.nodes, &self.results, &mut st, i) {
                        Result::Ok(()) => {},
                        Result::Err(kind) => {
                            proof {
                                assert(cur_lanes(self.results@, st_pre, i as int) is None);
                                assert(run_store(
                                    self.nodes@,
                                    self.results@,
                                    needed,
                                    (i + 1) as nat,
                                ) is None);
                                lemma_run_store_none_mono(
                                    self.nodes@,
                                    self.results@,
                                    needed,
                                    (i + 1) as nat,
                                    n as nat,
                                );
                            }
                            return Err(crate::error::Error::BackendError { kind });
                        },
                    }
                }
            }
            i = i + 1;
        }

        // Commit: merge the store into the materialized results and clear
        // the schedule and the pending side effects.
        let ghost stfull = st@;
        let ghost final_store = store_view(st@);
        self.schedule = Vec::new();
        self.effects = Vec::new();
        while st.len() > 0
            invariant
                st@.len() <= n,
                st@ == stfull.subrange(0, st@.len() as int),
                stfull.len() == n,
                store_canonical(self.nodes@, stfull),
                self.nodes@ == old(self).nodes@,
                self.backend == old(self).backend,
                self.schedule@.len() == 0,
                self.effects@.len() == 0,
                self.results@.len() == n == self.nodes@.len(),
                forall|i2: int|
                    0 <= i2 < self.nodes@.len() ==> node_wf(self.nodes@, i2),
                forall|q: int| 0 <= q < st@.len() ==> self.results@[q] == old(self).results@[q],
                forall|q: int|
                    st@.len() <= q < n ==> res_at(self.results@, q) == cur_lanes(
                        old(self).results@,
                        final_store,
                        q,
                    ),
                forall|q: int|
                    0 <= q < self.results@.len() ==> match #[trigger] self.results@[q] {
                        Option::Some(v) => lanes_canonical(self.nodes@[q].ty, v@),
                        Option::None => true,
                    },
            decreases st@.len(),
        {
            let j2 = st.len() - 1;
            let ghost stpre = st@;
            let ghost rpre = self.results@;
            match st.pop() {
                Option::Some(slot) => {
                    proof {
                        assert(stpre.last() == stfull[j2 as int]);
                    }
                    match slot {
                        Option::Some(lanes) => {
                            let ghost lseq = lanes@;
                            self.results[j2] = Some(lanes);
                            proof {
                                assert(res_at(stfull, j2 as int) == Option::Some(lseq));
                                assert(final_store[j2 as int] == Option::Some(lseq));
                                assert(res_at(self.results@, j2 as int) == Option::Some(lseq));
                            }
                        },
                        Option::None => {
                            proof {
                                assert(res_at(stfull, j2 as int) is None);
                                assert(final_store[j2 as int] is None);
                                assert(cur_lanes(old(self).results@, final_store, j2 as int)
                                    == res_at(old(self).results@, j2 as int));
                                assert(res_at(self.results@, j2 as int) == res_at(
                                    old(self).results@,
                                    j2 as int,
                                ));
                            }
                        },
                    }
                },
                Option::None => {
                    proof {
                        assert(false);
                    }
                },
            }
            proof {
                assert(st@ =~= stfull.subrange(0, st@.len() as int));
                assert forall|q: int|
                    st@.len() <= q < n implies res_at(self.results@, q) == cur_lanes(
                    old(self).results@,
                    final_store,
                    q,
                ) by {
                    if q != j2 {
                        assert(self.results@[q] == rpre[q]);
                        assert(res_at(self.results@, q) == res_at(rpre, q));
                    }
                }
            }
        }
        Ok(())
    }
}

/// Marking never unmarks: everything named by the base stays marked.
pub proof fn lemma_marks_down_len(nodes: Seq<Node>, base: Seq<bool>, i: int)
    requires
        base.len() == nodes.len(),
        forall|j: int| 0 <= j < nodes.len() ==> node_wf(nodes, j),
    ensures
        marks_down(nodes, base, i).len() == nodes.len(),
        forall|p: int|
            0 <= p < nodes.len() && base[p] ==> (#[trigger] marks_down(nodes, base, i)[p]),
    decreases nodes.len() - i,
{
    if 0 <= i < nodes.len() {
        lemma_marks_down_len(nodes, base, i + 1);
        let m = marks_down(nodes, base, i + 1);
        if m[i] {
            assert(node_wf(nodes, i));
            assert(mark_deps(nodes, m, i, nodes[i].deps@.len()).len() == nodes.len()) by {
                lemma_mark_deps_char(nodes, m, i, nodes[i].deps@.len(), 0);
            }
        }
        assert forall|p: int| 0 <= p < nodes.len() && base[p] implies (#[trigger] marks_down(
            nodes,
            base,
            i,
        )[p]) by {
            assert(m[p]);
            if m[i] {
                lemma_mark_deps_char(nodes, m, i, nodes[i].deps@.len(), p);
            }
        }
    }
}

/// A successful step keeps the store's length.
#[verifier::rlimit(100)]
pub proof fn lemma_step_sem_len(
    nodes: Seq<Node>,
    results: Seq<Option<Vec<u64>>>,
    st: Seq<Option<Seq<u64>>>,
    j: int,
)
    requires
        0 <= j < nodes.len(),
        st.len() == nodes.len(),
        node_wf(nodes, j),
        step_sem(nodes, results, st, j) is Some,
    ensures
        step_sem(nodes, results, st, j).unwrap().len() == st.len(),
{
}

/// A step leaves every slot alone except its own and, for a scatter, its
/// destination buffer's.
#[verifier::rlimit(100)]
pub proof fn lemma_step_sem_other_slots(
    nodes: Seq<Node>,
    results: Seq<Option<Vec<u64>>>,
    st: Seq<Option<Seq<u64>>>,
    j: int,
    p: int,
)
    requires
        0 <= j < nodes.len(),
        st.len() == nodes.len(),
        node_wf(nodes, j),
        0 <= p < st.len(),
        p != j,
        !((nodes[j].op is Scatter || nodes[j].op is ScatterAdd) && nodes[j].deps@[1] == p),
        step_sem(nodes, results, st, j) is Some,
    ensures
        step_sem(nodes, results, st, j).unwrap()[p] == st[p],
{
}

/// A run that ends well was well at every prefix.
pub proof fn lemma_run_store_some_mono(
    nodes: Seq<Node>,
    results: Seq<Option<Vec<u64>>>,
    needed: Seq<bool>,
    k1: nat,
    k2: nat,
)
    requires
        k1 <= k2,
        run_store(nodes, results, needed, k2) is Some,
    ensures
        run_store(nodes, results, needed, k1) is Some,
{
    if run_store(nodes, results, needed, k1) is None {
        lemma_run_store_none_mono(nodes, results, needed, k1, k2);
    }
}

/// Before its own step runs, a node's slot is empty.
pub proof fn lemma_run_store_slot_none(
    nodes: Seq<Node>,
    results: Seq<Option<Vec<u64>>>,
    needed: Seq<bool>,
    k: nat,
    i: int,
)
    requires
        k <= i < nodes.len(),
        forall|j: int| 0 <= j < nodes.len() ==> node_wf(nodes, j),
        run_store(nodes, results, needed, k) is Some,
    ensures
        run_store(nodes, results, needed, k).unwrap().len() == nodes.len(),
        run_store(nodes, results, needed, k).unwrap()[i] is None,
    decreases k,
{
    if k > 0 {
        lemma_run_store_some_mono(nodes, results, needed, (k - 1) as nat, k);
        lemma_run_store_slot_none(nodes, results, needed, (k - 1) as nat, i);
        let st = run_store(nodes, results, needed, (k - 1) as nat).unwrap();
        let j = k - 1;
        if needed[j] && cur_lanes(results, st, j) is None {
            assert(node_wf(nodes, j));
            lemma_step_sem_other_slots(nodes, results, st, j, i);
            lemma_step_sem_len(nodes, results, st, j);
        }
    }
}

/// Once set, a slot keeps its lanes for the rest of the run, as long as no
/// later scatter targets it.
pub proof fn lemma_run_store_preserves(
    nodes: Seq<Node>,
    results: Seq<Option<Vec<u64>>>,
    needed: Seq<bool>,
    k1: nat,
    k2: nat,
    i: int,
)
    requires
        k1 <= k2 <= nodes.len(),
        0 <= i < k1,
        forall|j: int| 0 <= j < nodes.len() ==> node_wf(nodes, j),
        run_store(nodes, results, needed, k2) is Some,
        run_store(nodes, results, needed, k1).unwrap().len() == nodes.len(),
        forall|j: int|
            k1 <= j < k2 ==> !((nodes[j].op is Scatter || nodes[j].op is ScatterAdd)
                && (#[trigger] nodes[j].deps@)[1] == i),
    ensures
        run_store(nodes, results, needed, k2).unwrap()[i] == run_store(
            nodes,
            results,
            needed,
            k1,
        ).unwrap()[i],
        run_store(nodes, results, needed, k2).unwrap().len() == nodes.len(),
    decreases k2,
{
    if k2 > k1 {
        lemma_run_store_some_mono(nodes, results, needed, (k2 - 1) as nat, k2);
        lemma_run_store_preserves(nodes, results, needed, k1, (k2 - 1) as nat, i);
        let st = run_store(nodes, results, needed, (k2 - 1) as nat).unwrap();
        let j = k2 - 1;
        if needed[j] && cur_lanes(results, st, j) is None {
            assert(node_wf(nodes, j));
            lemma_step_sem_other_slots(nodes, results, st, j, i);
            lemma_step_sem_len(nodes, results, st, j);
        }
    }
}

/// A sized literal that is scheduled and not yet materialized comes out of
/// a successful evaluation as exactly its `size` copies of its pattern.
pub proof fn law_literal_materializes(t: Trace, i: int)
    requires
        t.wf(),
        0 <= i < t.nodes@.len(),
        t.nodes@[i].op is Literal,
        t.schedule@.contains(i as usize),
        res_at(t.results@, i) is None,
        run_store(t.nodes@, t.results@, needed_marks(t), t.nodes@.len() as nat) is Some,
    ensures
        cur_lanes(
            t.results@,
            run_store(t.nodes@, t.results@, needed_marks(t), t.nodes@.len() as nat).unwrap(),
            i,
        ) == Option::Some(replicate(t.nodes@[i].lit, t.nodes@[i].size as nat)),
{
    let nodes = t.nodes@;
    let results = t.results@;
    let needed = needed_marks(t);
    let n = nodes.len();
    lemma_marks_down_len(nodes, base_marks(n, t.schedule@, t.effects@), 0);
    assert(base_marks(n, t.schedule@, t.effects@)[i]);
    assert(needed[i]);
    lemma_run_store_some_mono(nodes, results, needed, (i + 1) as nat, n);
    lemma_run_store_some_mono(nodes, results, needed, i as nat, (i + 1) as nat);
    lemma_run_store_slot_none(nodes, results, needed, i as nat, i);
    let st_i = run_store(nodes, results, needed, i as nat).unwrap();
    assert(cur_lanes(results, st_i, i) is None);
    assert(run_store(nodes, results, needed, (i + 1) as nat) == step_sem(
        nodes,
        results,
        st_i,
        i,
    ));
    let st_i1 = run_store(nodes, results, needed, (i + 1) as nat).unwrap();
    assert(st_i1[i] == Option::Some(replicate(nodes[i].lit, nodes[i].size as nat)));
    assert forall|j: int|
        i + 1 <= j < n implies !((nodes[j].op is Scatter || nodes[j].op is ScatterAdd)
        && (#[trigger] nodes[j].deps@)[1] == i) by {
        if (nodes[j].op is Scatter || nodes[j].op is ScatterAdd) && nodes[j].deps@[1] == i {
            assert(node_wf(nodes, j));
            assert(nodes[i].op is Buffer);
        }
    }
    lemma_run_store_preserves(nodes, results, needed, (i + 1) as nat, n, i);
}

/// A buffer that is scheduled, not yet materialized, and not the target of
/// any scatter in the graph comes out of a successful evaluation holding
/// exactly the uploaded lanes, order preserved.
pub proof fn law_buffer_materializes(t: Trace, i: int)
    requires
        t.wf(),
        0 <= i < t.nodes@.len(),
        t.nodes@[i].op is Buffer,
        t.schedule@.contains(i as usize),
        res_at(t.results@, i) is None,
        forall|j: int|
            0 <= j < t.nodes@.len() ==> !((t.nodes@[j].op is Scatter || t.nodes@[j].op
                is ScatterAdd) && (#[trigger] t.nodes@[j].deps@)[1] == i),
        run_store(t.nodes@, t.results@, needed_marks(t), t.nodes@.len() as nat) is Some,
    ensures
        cur_lanes(
            t.results@,
            run_store(t.nodes@, t.results@, needed_marks(t), t.nodes@.len() as nat).unwrap(),
            i,
        ) == Option::Some(t.nodes@[i].buf@),
{
    let nodes = t.nodes@;
    let results = t.results@;
    let needed = needed_marks(t);
    let n = nodes.len();
    lemma_marks_down_len(nodes, base_marks(n, t.schedule@, t.effects@), 0);
    assert(base_marks(n, t.schedule@, t.effects@)[i]);
    assert(needed[i]);
    lemma_run_store_some_mono(nodes, results, needed, (i + 1) as nat, n);
    lemma_run_store_some_mono(nodes, results, needed, i as nat, (i + 1) as nat);
    lemma_run_store_slot_none(nodes, results, needed, i as nat, i);
    let st_i = run_store(nodes, results, needed, i as nat).unwrap();
    assert(cur_lanes(results, st_i, i) is None);
    let st_i1 = run_store(nodes, results, needed, (i + 1) as nat).unwrap();
    assert(st_i1[i] == Option::Some(nodes[i].buf@));
    lemma_run_store_preserves(nodes, results, needed, (i + 1) as nat, n, i);
}

/// With nothing scheduled and no pending side effects, nothing is marked.
pub proof fn lemma_empty_marks(nodes: Seq<Node>, base: Seq<bool>, i: int)
    requires
        base.len() == nodes.len(),
        forall|p: int| 0 <= p < base.len() ==> !base[p],
    ensures
        marks_down(nodes, base, i) == base,
    decreases nodes.len() - i,
{
    if 0 <= i < nodes.len() {
        lemma_empty_marks(nodes, base, i + 1);
    }
}

/// An evaluation with nothing marked computes nothing.
pub proof fn lemma_run_store_unneeded(
    nodes: Seq<Node>,
    results: Seq<Option<Vec<u64>>>,
    needed: Seq<bool>,
    k: nat,
)
    requires
        needed.len() == nodes.len(),
        k <= nodes.len(),
        forall|p: int| 0 <= p < needed.len() ==> !needed[p],
    ensures
        run_store(nodes, results, needed, k) == Option::Some(
            Seq::new(nodes.len(), |j: int| Option::<Seq<u64>>::None),
        ),
    decreases k,
{
    if k > 0 {
        lemma_run_store_unneeded(nodes, results, needed, (k - 1) as nat);
    }
}

/// Scheduling is a set operation: two traces that agree on everything
/// but the order (and multiplicity) of their schedule entries mark the
/// same nodes and evaluate identically.
pub proof fn law_schedule_order_irrelevant(t1: Trace, t2: Trace)
    requires
        t1.nodes@ == t2.nodes@,
        t1.results@ == t2.results@,
        t1.effects@ == t2.effects@,
        forall|id: usize| t1.schedule@.contains(id) == t2.schedule@.contains(id),
    ensures
        needed_marks(t1) == needed_marks(t2),
        run_store(t1.nodes@, t1.results@, needed_marks(t1), t1.nodes@.len() as nat) == run_store(
            t2.nodes@,
            t2.results@,
            needed_marks(t2),
            t2.nodes@.len() as nat,
        ),
{
    assert(base_marks(t1.nodes@.len(), t1.schedule@, t1.effects@) =~= base_marks(
        t2.nodes@.len(),
        t2.schedule@,
        t2.effects@,
    ));
}

/// Calling `eval` with no newly scheduled nodes and no pending side
/// effects performs no backend work: the run succeeds and every node's
/// materialized lanes are exactly what they already were, bit for bit.
pub proof fn law_eval_memoized(t: Trace)
    requires
        t.wf(),
        t.schedule@.len() == 0,
        t.effects@.len() == 0,
    ensures
        run_store(t.nodes@, t.results@, needed_marks(t), t.nodes@.len() as nat) is Some,
        forall|j: int|
            0 <= j < t.nodes@.len() ==> cur_lanes(
                t.results@,
                run_store(
                    t.nodes@,
                    t.results@,
                    needed_marks(t),
                    t.nodes@.len() as nat,
                ).unwrap(),
                j,
            ) == res_at(t.results@, j),
{
    let nodes = t.nodes@;
    let base = base_marks(nodes.len(), t.schedule@, t.effects@);
    assert(forall|p: int| 0 <= p < base.len() ==> !base[p]);
    lemma_empty_marks(nodes, base, 0);
    lemma_run_store_unneeded(nodes, t.results@, needed_marks(t), nodes.len());
}

} // verus!
