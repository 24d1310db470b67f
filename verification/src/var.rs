//! The shared graph-value handle and the operation builder: arithmetic,
//! bitwise, comparison, memory and texture operations that append typed
//! nodes to a trace.

use vstd::prelude::*;
use crate::error::{BackendErrorKind, Error, HostKind};
use crate::eval::bc2;
use crate::funcs::{coercible, host_kind_of, hostvalue_valid, ingested, make, HostValue};
use crate::sem::{BinOp, TernOp, UnOp};
use crate::trace::{node_wf, Node, Op, Trace};
use crate::vartype::VarType;

verus! {

/// The element count the ingestion of a host value will report, before it
/// is carried out.
pub open spec fn ingest_size(pre: Seq<Node>, v: HostValue, n_opt: Option<usize>) -> int {
    match v {
        HostValue::Node(x) => pre[x.id as int].size as int,
        HostValue::Scalar(_) => match n_opt {
            Option::Some(n) => n as int,
            Option::None => 1,
        },
        HostValue::Sequence(vs) => vs@.len() as int,
        HostValue::Array(t2, lanes) => lanes@.len() as int,
    }
}

/// The mask actually in force: an omitted mask is a single all-set lane,
/// which broadcasts over every index lane.
pub open spec fn mask_host(mask: Option<HostValue>) -> HostValue {
    match mask {
        Option::Some(m) => m,
        Option::None => HostValue::Scalar(crate::funcs::HostScalar::Bool(true)),
    }
}

/// Executable twin of [`ingest_size`] for the default literal length.
fn host_size_x(t: &Trace, v: &HostValue) -> (n: usize)
    requires
        hostvalue_valid(*t, *v),
    ensures
        n as int == ingest_size(t.nodes@, *v, Option::None),
{
    match v {
        HostValue::Node(x) => t.node_size(x.id),
        HostValue::Scalar(_) => 1,
        HostValue::Sequence(vs) => vs.len(),
        HostValue::Array(_, l) => l.len(),
    }
}

/// Indexing into a prefix reads the same node.
proof fn lemma_prefix_index(pre: Seq<Node>, post: Seq<Node>, j: int)
    requires
        pre.is_prefix_of(post),
        0 <= j < pre.len(),
    ensures
        post[j] == pre[j],
{
    assert(pre[j] == post.subrange(0, pre.len() as int)[j]);
}

/// Prefixes chain.
proof fn lemma_prefix_trans(a: Seq<Node>, b: Seq<Node>, c: Seq<Node>)
    requires
        a.is_prefix_of(b),
        b.is_prefix_of(c),
    ensures
        a.is_prefix_of(c),
{
    assert forall|j: int| 0 <= j < a.len() implies a[j] == c.subrange(0, a.len() as int)[j] by {
        lemma_prefix_index(a, b, j);
        lemma_prefix_index(b, c, j);
    }
    assert(a =~= c.subrange(0, a.len() as int));
}

/// The number of elements a shape covers.
pub open spec fn product_of(s: Seq<usize>) -> int
    decreases s.len(),
{
    if s.len() == 0 {
        1
    } else {
        product_of(s.drop_last()) * (s.last() as int)
    }
}

/// A shape of positive extents covers at least one element.
proof fn lemma_product_pos(s: Seq<usize>)
    requires
        forall|i: int| 0 <= i < s.len() ==> (#[trigger] s[i]) >= 1,
    ensures
        product_of(s) >= 1,
    decreases s.len(),
{
    if s.len() > 0 {
        lemma_product_pos(s.drop_last());
        assert(product_of(s.drop_last()) * (s.last() as int) >= 1) by (nonlinear_arith)
            requires product_of(s.drop_last()) >= 1 && s.last() as int >= 1;
    }
}

/// With positive extents, a prefix covers no more than the whole.
proof fn lemma_product_prefix_le(s: Seq<usize>, j: int)
    requires
        forall|i: int| 0 <= i < s.len() ==> (#[trigger] s[i]) >= 1,
        0 <= j <= s.len(),
    ensures
        product_of(s.subrange(0, j)) <= product_of(s),
    decreases s.len() - j,
{
    if j == s.len() {
        assert(s.subrange(0, j) =~= s);
    } else {
        lemma_product_prefix_le(s, j + 1);
        assert(s.subrange(0, j + 1).drop_last() =~= s.subrange(0, j));
        assert(s.subrange(0, j + 1).last() == s[j]);
        let p = product_of(s.subrange(0, j));
        assert(forall|i: int|
            0 <= i < s.subrange(0, j).len() ==> (#[trigger] s.subrange(0, j)[i]) >= 1);
        lemma_product_pos(s.subrange(0, j));
        assert(p * (s[j] as int) >= p) by (nonlinear_arith)
            requires p >= 1 && s[j] as int >= 1;
    }
}

/// The trace only grew: every node that existed is untouched, and the
/// backend, the schedule and the pending side effects are as they were.
pub open spec fn trace_extended(pre: Trace, post: Trace) -> bool {
    &&& post.wf()
    &&& pre.nodes@.is_prefix_of(post.nodes@)
    &&& post.backend == pre.backend
    &&& post.schedule@ == pre.schedule@
    &&& post.effects@ == pre.effects@
    &&& (forall|j: int| 0 <= j < pre.results@.len() ==> post.results@[j] == pre.results@[j])
}

/// The whole contract of building one binary-operation node from a left
/// operand and a host value coerced to its kind: when it succeeds, for
/// which inputs it succeeds, which node it appends, and which error comes
/// back on which failure — the operation must be defined for the kind,
/// the element counts must broadcast, and the right operand must be
/// coercible; any failure leaves the trace untouched.
pub open spec fn binop_built(
    pre: Trace,
    post: Trace,
    op: BinOp,
    a: Var,
    other: HostValue,
    r: Result<Var, Error>,
) -> bool {
    let k = pre.nodes@[a.id as int].ty;
    let asz = pre.nodes@[a.id as int].size as nat;
    let bsz = ingest_size(pre.nodes@, other, Option::None);
    &&& trace_extended(pre, post)
    &&& ((r is Ok) <==> (op.kind_ok(k) && bc2(asz, bsz as nat) is Some && coercible(k, other)))
    &&& match r {
        Result::Ok(v) => {
            let nn = post.nodes@;
            &&& v.id as int == nn.len() - 1
            &&& nn[v.id as int].op == (Op::Binary { op })
            &&& nn[v.id as int].ty == op.result_type(k)
            &&& nn[v.id as int].size as nat == bc2(asz, bsz as nat).unwrap()
            &&& nn[v.id as int].deps@.len() == 2
            &&& nn[v.id as int].deps@[0] == a.id
            &&& ingested(pre.nodes@, nn, other, k, Option::None, nn[v.id as int].deps@[1] as int)
        },
        Result::Err(e) => {
            &&& post == pre
            &&& if !op.kind_ok(k) {
                e == (Error::UnsupportedType { ty: k })
            } else if bc2(asz, bsz as nat) is None {
                e == (Error::SizeMismatch {
                    expected: pre.nodes@[a.id as int].size,
                    found: bsz as usize,
                })
            } else {
                e == (Error::TypeMismatch {
                    expected: k,
                    found: host_kind_of(pre.nodes@, other),
                })
            }
        },
    }
}

/// The contract of building one unary-operation node: it succeeds exactly
/// when the operation is defined for the value's kind.
pub open spec fn unop_built(pre: Trace, post: Trace, op: UnOp, a: Var, r: Result<Var, Error>)
    -> bool {
    let k = pre.nodes@[a.id as int].ty;
    &&& trace_extended(pre, post)
    &&& ((r is Ok) <==> op.kind_ok(k))
    &&& match r {
        Result::Ok(v) => {
            let nn = post.nodes@;
            &&& nn.len() == pre.nodes@.len() + 1
            &&& v.id as int == nn.len() - 1
            &&& nn[v.id as int].op == (Op::Unary { op })
            &&& nn[v.id as int].ty == k
            &&& nn[v.id as int].size == pre.nodes@[a.id as int].size
            &&& nn[v.id as int].deps@ == seq![a.id]
        },
        Result::Err(e) => post == pre && e == (Error::UnsupportedType { ty: k }),
    }
}

/// Builds one binary-operation node, per [`binop_built`].
fn build_binary(t: &mut Trace, op: BinOp, a: Var, other: HostValue) -> (r: Result<Var, Error>)
    requires
        old(t).wf(),
        a.valid(*old(t)),
        hostvalue_valid(*old(t), other),
    ensures
        binop_built(*old(t), *final(t), op, a, other, r),
{
    let k = t.node_ty(a.id);
    if !op.kind_ok_x(k) {
        return Err(Error::UnsupportedType { ty: k });
    }
    let asz = t.node_size(a.id);
    let bsz: usize = match &other {
        HostValue::Node(x) => t.node_size(x.id),
        HostValue::Scalar(_) => 1,
        HostValue::Sequence(vs) => vs.len(),
        HostValue::Array(_, l) => l.len(),
    };
    let n: usize = if asz == bsz {
        asz
    } else if asz == 1 {
        bsz
    } else if bsz == 1 {
        asz
    } else {
        return Err(Error::SizeMismatch { expected: asz, found: bsz });
    };
    let b = match make(t, k, other, None) {
        Result::Ok(b) => b,
        Result::Err(e) => {
            return Err(e);
        },
    };
    let rt = op.result_type_x(k);
    let mut deps: Vec<usize> = Vec::new();
    deps.push(a.id);
    deps.push(b.id);
    let nd = Node {
        ty: rt,
        size: n,
        op: Op::Binary { op },
        deps,
        lit: 0,
        buf: Vec::new(),
        accel: None,
    };
    proof {
        assert(t.nodes@[a.id as int] == old(t).nodes@[a.id as int]);
        assert(node_wf(t.nodes@.push(nd), t.nodes@.len() as int));
    }
    let id = t.push_node(nd);
    proof {
        assert(old(t).nodes@.is_prefix_of(t.nodes@)) by {
            assert(old(t).nodes@ =~= t.nodes@.subrange(0, old(t).nodes@.len() as int));
        }
    }
    Ok(Var { id })
}

/// Builds one unary-operation node, per [`unop_built`].
fn build_unary(t: &mut Trace, op: UnOp, a: Var) -> (r: Result<Var, Error>)
    requires
        old(t).wf(),
        a.valid(*old(t)),
    ensures
        unop_built(*old(t), *final(t), op, a, r),
{
    let k = t.node_ty(a.id);
    if !op.kind_ok_x(k) {
        return Err(Error::UnsupportedType { ty: k });
    }
    let sz = t.node_size(a.id);
    let mut deps: Vec<usize> = Vec::new();
    deps.push(a.id);
    let nd = Node {
        ty: k,
        size: sz,
        op: Op::Unary { op },
        deps,
        lit: 0,
        buf: Vec::new(),
        accel: None,
    };
    proof {
        assert(node_wf(t.nodes@.push(nd), t.nodes@.len() as int));
        assert(nd.deps@ =~= seq![a.id]);
    }
    let id = t.push_node(nd);
    Ok(Var { id })
}

/// The whole contract of recording a scatter (accumulating when `add`):
/// the destination must be a buffer of the source's kind (an integer one
/// when accumulating), the index and mask must coerce, the three element
/// counts must broadcast; on success a scatter node is appended and
/// recorded as a pending side effect; on any failure the trace is
/// untouched.
pub open spec fn scatter_built(
    pre: Trace,
    post: Trace,
    add: bool,
    src: Var,
    dst: Var,
    idx: HostValue,
    mask: Option<HostValue>,
    r: Result<(), Error>,
) -> bool {
    let ks = pre.nodes@[src.id as int].ty;
    let kd = pre.nodes@[dst.id as int].ty;
    let mh = mask_host(mask);
    let ssz = pre.nodes@[src.id as int].size as int;
    let isz = ingest_size(pre.nodes@, idx, Option::None);
    let msz = ingest_size(pre.nodes@, mh, Option::None);
    let n3 = crate::eval::bc3(ssz as nat, isz as nat, msz as nat);
    &&& post.wf()
    &&& pre.nodes@.is_prefix_of(post.nodes@)
    &&& post.backend == pre.backend
    &&& post.schedule@ == pre.schedule@
    &&& (forall|j: int| 0 <= j < pre.results@.len() ==> post.results@[j] == pre.results@[j])
    &&& ((r is Ok) <==> (pre.nodes@[dst.id as int].op is Buffer && ks == kd && (add
        ==> kd.is_int()) && coercible(VarType::U32, idx) && coercible(VarType::Bool, mh) && n3
        is Some))
    &&& match r {
        Result::Ok(_) => {
            let nn = post.nodes@;
            let sid = nn.len() - 1;
            &&& post.effects@ == pre.effects@.push(sid as usize)
            &&& nn[sid].op == (if add {
                Op::ScatterAdd
            } else {
                Op::Scatter
            })
            &&& nn[sid].ty == kd
            &&& nn[sid].size == 0
            &&& nn[sid].deps@.len() == 4
            &&& nn[sid].deps@[0] == src.id
            &&& nn[sid].deps@[1] == dst.id
            &&& ingested(pre.nodes@, nn, idx, VarType::U32, Option::None, nn[sid].deps@[2] as int)
            &&& ingested(pre.nodes@, nn, mh, VarType::Bool, Option::None, nn[sid].deps@[3] as int)
        },
        Result::Err(e) => {
            &&& post == pre
            &&& if !(pre.nodes@[dst.id as int].op is Buffer) {
                e == (Error::UnsupportedType { ty: kd })
            } else if ks != kd {
                e == (Error::TypeMismatch { expected: kd, found: HostKind::Node(ks) })
            } else if add && !kd.is_int() {
                e == (Error::UnsupportedType { ty: kd })
            } else if !coercible(VarType::U32, idx) {
                e == (Error::TypeMismatch {
                    expected: VarType::U32,
                    found: host_kind_of(pre.nodes@, idx),
                })
            } else if !coercible(VarType::Bool, mh) {
                e == (Error::TypeMismatch {
                    expected: VarType::Bool,
                    found: host_kind_of(pre.nodes@, mh),
                })
            } else {
                e matches Error::SizeMismatch { .. }
            }
        },
    }
}

/// Builds one scatter node and records it as a pending side effect, per
/// [`scatter_built`].
fn build_scatter(
    t: &mut Trace,
    add: bool,
    src: Var,
    dst: Var,
    idx: HostValue,
    mask: Option<HostValue>,
) -> (r: Result<(), Error>)
    requires
        old(t).wf(),
        src.valid(*old(t)),
        dst.valid(*old(t)),
        hostvalue_valid(*old(t), idx),
        match mask {
            Option::Some(m) => hostvalue_valid(*old(t), m),
            Option::None => true,
        },
    ensures
        scatter_built(*old(t), *final(t), add, src, dst, idx, mask, r),
{
    let ks = t.node_ty(src.id);
    let kd = t.node_ty(dst.id);
    let dst_is_buffer = match &t.nodes[dst.id].op {
        Op::Buffer => true,
        _ => false,
    };
    if !dst_is_buffer {
        return Err(Error::UnsupportedType { ty: kd });
    }
    if !(ks == kd) {
        return Err(Error::TypeMismatch { expected: kd, found: HostKind::Node(ks) });
    }
    if add && !kd.int_kind() {
        return Err(Error::UnsupportedType { ty: kd });
    }
    if !crate::funcs::coercible_x(VarType::U32, &idx) {
        let hk = crate::funcs::host_kind_of_x(t, &idx);
        return Err(Error::TypeMismatch { expected: VarType::U32, found: hk });
    }
    let ssz = t.node_size(src.id);
    let isz = host_size_x(t, &idx);
    let (mv, msz): (HostValue, usize) = match mask {
        Option::Some(m) => {
            if !crate::funcs::coercible_x(VarType::Bool, &m) {
                let hk = crate::funcs::host_kind_of_x(t, &m);
                return Err(Error::TypeMismatch { expected: VarType::Bool, found: hk });
            }
            let s = host_size_x(t, &m);
            (m, s)
        },
        Option::None => (HostValue::Scalar(crate::funcs::HostScalar::Bool(true)), 1),
    };
    let n0: usize = if ssz == isz {
        ssz
    } else if ssz == 1 {
        isz
    } else if isz == 1 {
        ssz
    } else {
        return Err(Error::SizeMismatch { expected: ssz, found: isz });
    };
    let n: usize = if n0 == msz {
        n0
    } else if n0 == 1 {
        msz
    } else if msz == 1 {
        n0
    } else {
        return Err(Error::SizeMismatch { expected: n0, found: msz });
    };
    let iv = match make(t, VarType::U32, idx, None) {
        Result::Ok(v) => v,
        Result::Err(_) => {
            proof {
                assert(false);
            }
            return Err(Error::UnsupportedType { ty: VarType::U32 });
        },
    };
    let ghost g1 = t.nodes@;
    let bv = match make(t, VarType::Bool, mv, None) {
        Result::Ok(v) => v,
        Result::Err(_) => {
            proof {
                assert(false);
            }
            return Err(Error::UnsupportedType { ty: VarType::Bool });
        },
    };
    let mut deps: Vec<usize> = Vec::new();
    deps.push(src.id);
    deps.push(dst.id);
    deps.push(iv.id);
    deps.push(bv.id);
    let nd = Node {
        ty: kd,
        size: 0,
        op: if add {
            Op::ScatterAdd
        } else {
            Op::Scatter
        },
        deps,
        lit: 0,
        buf: Vec::new(),
        accel: None,
    };
    proof {
        assert(node_wf(old(t).nodes@, src.id as int));
        assert(node_wf(old(t).nodes@, dst.id as int));
        lemma_prefix_trans(old(t).nodes@, g1, t.nodes@);
        lemma_prefix_index(old(t).nodes@, t.nodes@, src.id as int);
        lemma_prefix_index(old(t).nodes@, t.nodes@, dst.id as int);
        lemma_prefix_index(g1, t.nodes@, iv.id as int);
        assert(t.nodes@[iv.id as int].ty is U32);
        assert(t.nodes@[bv.id as int].ty is Bool);
        assert(nd.deps@ =~= seq![src.id, dst.id, iv.id, bv.id]);
        assert(node_wf(t.nodes@.push(nd), t.nodes@.len() as int));
    }
    let id = t.push_node(nd);
    t.push_effect(id);
    proof {
        assert(old(t).nodes@.is_prefix_of(t.nodes@)) by {
            assert(old(t).nodes@ =~= t.nodes@.subrange(0, old(t).nodes@.len() as int));
        }
    }
    Ok(())
}

/// The element count a shape with a channel count covers, computed
/// without overflow under the stated bounds.
#[verifier::loop_isolation(false)]
pub(crate) fn shape_elems(shape: &Vec<usize>, n_channels: usize) -> (n: usize)
    requires
        forall|i: int| 0 <= i < shape@.len() ==> (#[trigger] shape@[i]) >= 1,
        1 <= n_channels,
        product_of(shape@) * n_channels <= usize::MAX,
    ensures
        n as int == product_of(shape@) * n_channels,
{
    proof {
        lemma_product_pos(shape@);
        assert(product_of(shape@) * n_channels >= product_of(shape@)) by (nonlinear_arith)
            requires product_of(shape@) >= 1 && n_channels >= 1;
    }
    let mut acc: usize = 1;
    let mut i: usize = 0;
    while i < shape.len()
        invariant
            i <= shape@.len(),
            acc as int == product_of(shape@.subrange(0, i as int)),
        decreases shape@.len() - i,
    {
        proof {
            assert(shape@.subrange(0, i + 1).drop_last() =~= shape@.subrange(0, i as int));
            assert(shape@.subrange(0, i + 1).last() == shape@[i as int]);
            lemma_product_prefix_le(shape@, i + 1);
        }
        acc = acc * shape[i];
        i = i + 1;
    }
    proof {
        assert(shape@.subrange(0, shape@.len() as int) =~= shape@);
        assert(product_of(shape@) * n_channels <= usize::MAX);
    }
    acc * n_channels
}

/// Coerces a list of host values to one kind, returning the node ids, in
/// order.
fn coerce_all(t: &mut Trace, k: VarType, vs: Vec<HostValue>) -> (r: Result<Vec<usize>, Error>)
    requires
        old(t).wf(),
        k.is_supported(),
        forall|i: int| 0 <= i < vs@.len() ==> hostvalue_valid(*old(t), #[trigger] vs@[i]),
    ensures
        final(t).wf(),
        old(t).nodes@.is_prefix_of(final(t).nodes@),
        final(t).backend == old(t).backend,
        final(t).schedule@ == old(t).schedule@,
        final(t).effects@ == old(t).effects@,
        forall|j: int|
            0 <= j < old(t).results@.len() ==> final(t).results@[j] == old(t).results@[j],
        ((r is Ok) <==> (forall|i: int| 0 <= i < vs@.len() ==> coercible(k, #[trigger] vs@[i]))),
        match r {
            Result::Ok(ids) => ids@.len() == vs@.len() && forall|j: int|
                0 <= j < ids@.len() ==> (#[trigger] ids@[j]) < final(t).nodes@.len()
                    && final(t).nodes@[ids@[j] as int].ty == k,
            Result::Err(e) => true,
        },
{
    let mut rem = vs;
    let ghost vs0 = rem@;
    let mut ids: Vec<usize> = Vec::new();
    proof {
        assert(vs0 == vs@);
    }
    while rem.len() > 0
        invariant
            vs0 == vs@,
            ids@.len() + rem@.len() == vs0.len(),
            rem@ == vs0.subrange(ids@.len() as int, vs0.len() as int),
            forall|j: int| 0 <= j < ids@.len() ==> coercible(k, #[trigger] vs0[j]),
            old(t).wf(),
            t.wf(),
            k.is_supported(),
            forall|i: int| 0 <= i < rem@.len() ==> hostvalue_valid(*old(t), #[trigger] rem@[i]),
            old(t).nodes@.is_prefix_of(t.nodes@),
            t.backend == old(t).backend,
            t.schedule@ == old(t).schedule@,
            t.effects@ == old(t).effects@,
            forall|j: int|
                0 <= j < old(t).results@.len() ==> t.results@[j] == old(t).results@[j],
            forall|j: int|
                0 <= j < ids@.len() ==> (#[trigger] ids@[j]) < t.nodes@.len() && t.nodes@[
                    ids@[j] as int
                ].ty == k,
        decreases rem@.len(),
    {
        let hv = rem.remove(0);
        proof {
            assert(rem@ =~= vs0.subrange(ids@.len() as int + 1, vs0.len() as int));
            assert(hv == vs0[ids@.len() as int]);
            assert(hostvalue_valid(*old(t), hv));
            assert(hostvalue_valid(*t, hv)) by {
                match hv {
                    HostValue::Node(x) => {
                        assert((x.id as int) < old(t).nodes@.len());
                    },
                    _ => {},
                }
            }
        }
        let ghost gpre = t.nodes@;
        match make(t, k, hv, None) {
            Result::Ok(v) => {
                proof {
                    lemma_prefix_trans(old(t).nodes@, gpre, t.nodes@);
                    assert forall|j: int| 0 <= j < ids@.len() implies (#[trigger] ids@[j])
                        < t.nodes@.len() && t.nodes@[ids@[j] as int].ty == k by {
                        lemma_prefix_index(gpre, t.nodes@, ids@[j] as int);
                    }
                    assert(t.nodes@[v.id as int].ty == k) by {
                        match hv {
                            HostValue::Node(x) => {
                                lemma_prefix_index(old(t).nodes@, gpre, x.id as int);
                                if v.id == x.id {
                                    lemma_prefix_index(gpre, t.nodes@, x.id as int);
                                }
                            },
                            _ => {},
                        }
                    }
                }
                ids.push(v.id);
            },
            Result::Err(e) => {
                proof {
                    assert(!coercible(k, vs0[ids@.len() as int]));
                }
                return Err(e);
            },
        }
    }
    proof {
        assert(vs0.subrange(ids@.len() as int, vs0.len() as int).len() == 0);
    }
    Ok(ids)
}

/// An omitted optional argument needs no coercion.
pub open spec fn opt_coercible(k: VarType, o: Option<HostValue>) -> bool {
    match o {
        Option::Some(v) => coercible(k, v),
        Option::None => true,
    }
}

/// Coerces an optional argument to one kind, returning the node id where
/// one was given.
fn coerce_opt(t: &mut Trace, k: VarType, o: Option<HostValue>) -> (r: Result<
    Option<usize>,
    Error,
>)
    requires
        old(t).wf(),
        k.is_supported(),
        match o {
            Option::Some(v) => hostvalue_valid(*old(t), v),
            Option::None => true,
        },
    ensures
        final(t).wf(),
        old(t).nodes@.is_prefix_of(final(t).nodes@),
        final(t).backend == old(t).backend,
        final(t).schedule@ == old(t).schedule@,
        final(t).effects@ == old(t).effects@,
        forall|j: int|
            0 <= j < old(t).results@.len() ==> final(t).results@[j] == old(t).results@[j],
        ((r is Ok) <==> opt_coercible(k, o)),
        match r {
            Result::Ok(id) => match id {
                Option::Some(id) => o is Some && id < final(t).nodes@.len() && final(t).nodes@[
                    id as int
                ].ty == k,
                Option::None => o is None && *final(t) == *old(t),
            },
            Result::Err(e) => true,
        },
{
    match o {
        Option::None => Ok(None),
        Option::Some(v) => {
            if !crate::funcs::coercible_x(k, &v) {
                let hk = crate::funcs::host_kind_of_x(t, &v);
                return Err(Error::TypeMismatch { expected: k, found: hk });
            }
            match make(t, k, v, None) {
                Result::Ok(var) => Ok(Some(var.id)),
                Result::Err(_) => {
                    proof {
                        assert(false);
                    }
                    Err(Error::UnsupportedType { ty: k })
                },
            }
        },
    }
}

/// Appends node ids to a dependency list, preserving a validity bound.
fn append_ids(deps: &mut Vec<usize>, ids: &Vec<usize>, bound: Ghost<int>)
    requires
        forall|j: int| 0 <= j < old(deps)@.len() ==> (#[trigger] old(deps)@[j]) < bound@,
        forall|j: int| 0 <= j < ids@.len() ==> (#[trigger] ids@[j]) < bound@,
    ensures
        final(deps)@.len() == old(deps)@.len() + ids@.len(),
        forall|j: int| 0 <= j < final(deps)@.len() ==> (#[trigger] final(deps)@[j]) < bound@,
{
    let mut q: usize = 0;
    while q < ids.len()
        invariant
            q <= ids@.len(),
            deps@.len() == old(deps)@.len() + q,
            forall|j: int| 0 <= j < ids@.len() ==> (#[trigger] ids@[j]) < bound@,
            forall|j: int| 0 <= j < deps@.len() ==> (#[trigger] deps@[j]) < bound@,
        decreases ids@.len() - q,
    {
        deps.push(ids[q]);
        q = q + 1;
    }
}

/// A handle to one graph value.  Handles are plain indices into the
/// trace's arena; copying one shares the value, and the value lives as
/// long as the trace.
#[derive(Clone, Copy, Debug, PartialEq, Eq, Structural)]
pub struct Var {
    pub id: usize,
}

impl Var {
    /// The handle names a node the trace holds.
    pub open spec fn valid(self, t: Trace) -> bool {
        (self.id as int) < t.nodes@.len()
    }

    /// The kind of this value.
    pub fn ty(&self, t: &Trace) -> (k: VarType)
        requires
            self.valid(*t),
        ensures
            k == t.nodes@[self.id as int].ty,
    {
        t.node_ty(self.id)
    }

    /// The logical element count of this value: the materialized lane
    /// count once a backend has produced it, else the count recorded when
    /// the node was built.
    pub fn size(&self, t: &Trace) -> (n: usize)
        requires
            self.valid(*t),
            t.wf(),
        ensures
            n == match t.results@[self.id as int] {
                Option::Some(r) => r@.len() as int,
                Option::None => t.nodes@[self.id as int].size as int,
            },
    {
        match &t.results[self.id] {
            Option::Some(r) => r.len(),
            Option::None => t.node_size(self.id),
        }
    }

    /// Marks this value as a required output of the next evaluation;
    /// idempotent, and only the set of scheduled values matters.
    pub fn schedule(&self, t: &mut Trace)
        requires
            old(t).wf(),
            self.valid(*old(t)),
        ensures
            final(t).wf(),
            final(t).nodes@ == old(t).nodes@,
            final(t).results@ == old(t).results@,
            final(t).effects@ == old(t).effects@,
            final(t).backend == old(t).backend,
            final(t).schedule@ == if old(t).schedule@.contains(self.id) {
                old(t).schedule@
            } else {
                old(t).schedule@.push(self.id)
            },
            final(t).schedule@.contains(self.id),
    {
        t.schedule_node(self.id);
    }

    /// Converts an arbitrary host value into a graph value of the given
    /// kind, per the ingestion contract of [`crate::funcs::make`].
    pub fn from_any_of(t: &mut Trace, any: HostValue, ty: VarType) -> (r: Result<Var, Error>)
        requires
            old(t).wf(),
            hostvalue_valid(*old(t), any),
        ensures
            crate::funcs::made(*old(t), *final(t), ty, any, Option::None, r),
    {
        make(t, ty, any, None)
    }

    /// Elementwise addition; the right operand is coerced to this value's
    /// kind first.
    pub fn add(&self, t: &mut Trace, other: HostValue) -> (r: Result<Var, Error>)
        requires
            old(t).wf(),
            self.valid(*old(t)),
            hostvalue_valid(*old(t), other),
        ensures
            binop_built(*old(t), *final(t), BinOp::Add, *self, other, r),
    {
        build_binary(t, BinOp::Add, *self, other)
    }

    /// Elementwise subtraction.
    pub fn sub(&self, t: &mut Trace, other: HostValue) -> (r: Result<Var, Error>)
        requires
            old(t).wf(),
            self.valid(*old(t)),
            hostvalue_valid(*old(t), other),
        ensures
            binop_built(*old(t), *final(t), BinOp::Sub, *self, other, r),
    {
        build_binary(t, BinOp::Sub, *self, other)
    }

    /// Elementwise multiplication.
    pub fn mul(&self, t: &mut Trace, other: HostValue) -> (r: Result<Var, Error>)
        requires
            old(t).wf(),
            self.valid(*old(t)),
            hostvalue_valid(*old(t), other),
        ensures
            binop_built(*old(t), *final(t), BinOp::Mul, *self, other, r),
    {
        build_binary(t, BinOp::Mul, *self, other)
    }

    /// Elementwise division (integer lanes round toward zero).
    pub fn div(&self, t: &mut Trace, other: HostValue) -> (r: Result<Var, Error>)
        requires
            old(t).wf(),
            self.valid(*old(t)),
            hostvalue_valid(*old(t), other),
        ensures
            binop_built(*old(t), *final(t), BinOp::Div, *self, other, r),
    {
        build_binary(t, BinOp::Div, *self, other)
    }

    /// Elementwise remainder, carrying the dividend's sign.
    pub fn modulo(&self, t: &mut Trace, other: HostValue) -> (r: Result<Var, Error>)
        requires
            old(t).wf(),
            self.valid(*old(t)),
            hostvalue_valid(*old(t), other),
        ensures
            binop_built(*old(t), *final(t), BinOp::Mod, *self, other, r),
    {
        build_binary(t, BinOp::Mod, *self, other)
    }

    /// Elementwise conjunction (logical on booleans, bitwise on integers).
    pub fn and(&self, t: &mut Trace, other: HostValue) -> (r: Result<Var, Error>)
        requires
            old(t).wf(),
            self.valid(*old(t)),
            hostvalue_valid(*old(t), other),
        ensures
            binop_built(*old(t), *final(t), BinOp::And, *self, other, r),
    {
        build_binary(t, BinOp::And, *self, other)
    }

    /// Elementwise disjunction.
    pub fn or(&self, t: &mut Trace, other: HostValue) -> (r: Result<Var, Error>)
        requires
            old(t).wf(),
            self.valid(*old(t)),
            hostvalue_valid(*old(t), other),
        ensures
            binop_built(*old(t), *final(t), BinOp::Or, *self, other, r),
    {
        build_binary(t, BinOp::Or, *self, other)
    }

    /// Elementwise exclusive or.
    pub fn xor(&self, t: &mut Trace, other: HostValue) -> (r: Result<Var, Error>)
        requires
            old(t).wf(),
            self.valid(*old(t)),
            hostvalue_valid(*old(t), other),
        ensures
            binop_built(*old(t), *final(t), BinOp::Xor, *self, other, r),
    {
        build_binary(t, BinOp::Xor, *self, other)
    }

    /// Elementwise left shift; shift counts act modulo the lane width.
    pub fn shl(&self, t: &mut Trace, other: HostValue) -> (r: Result<Var, Error>)
        requires
            old(t).wf(),
            self.valid(*old(t)),
            hostvalue_valid(*old(t), other),
        ensures
            binop_built(*old(t), *final(t), BinOp::Shl, *self, other, r),
    {
        build_binary(t, BinOp::Shl, *self, other)
    }

    /// Elementwise right shift: logical for unsigned kinds, arithmetic for
    /// signed ones.
    pub fn shr(&self, t: &mut Trace, other: HostValue) -> (r: Result<Var, Error>)
        requires
            old(t).wf(),
            self.valid(*old(t)),
            hostvalue_valid(*old(t), other),
        ensures
            binop_built(*old(t), *final(t), BinOp::Shr, *self, other, r),
    {
        build_binary(t, BinOp::Shr, *self, other)
    }

    /// Elementwise minimum.
    pub fn min(&self, t: &mut Trace, other: HostValue) -> (r: Result<Var, Error>)
        requires
            old(t).wf(),
            self.valid(*old(t)),
            hostvalue_valid(*old(t), other),
        ensures
            binop_built(*old(t), *final(t), BinOp::Min, *self, other, r),
    {
        build_binary(t, BinOp::Min, *self, other)
    }

    /// Elementwise maximum.
    pub fn max(&self, t: &mut Trace, other: HostValue) -> (r: Result<Var, Error>)
        requires
            old(t).wf(),
            self.valid(*old(t)),
            hostvalue_valid(*old(t), other),
        ensures
            binop_built(*old(t), *final(t), BinOp::Max, *self, other, r),
    {
        build_binary(t, BinOp::Max, *self, other)
    }

    /// Elementwise equality test; the result is a boolean value.
    pub fn eq(&self, t: &mut Trace, other: HostValue) -> (r: Result<Var, Error>)
        requires
            old(t).wf(),
            self.valid(*old(t)),
            hostvalue_valid(*old(t), other),
        ensures
            binop_built(*old(t), *final(t), BinOp::Eq, *self, other, r),
    {
        build_binary(t, BinOp::Eq, *self, other)
    }

    /// Elementwise inequality test.
    pub fn neq(&self, t: &mut Trace, other: HostValue) -> (r: Result<Var, Error>)
        requires
            old(t).wf(),
            self.valid(*old(t)),
            hostvalue_valid(*old(t), other),
        ensures
            binop_built(*old(t), *final(t), BinOp::Neq, *self, other, r),
    {
        build_binary(t, BinOp::Neq, *self, other)
    }

    /// Elementwise less-than.
    pub fn lt(&self, t: &mut Trace, other: HostValue) -> (r: Result<Var, Error>)
        requires
            old(t).wf(),
            self.valid(*old(t)),
            hostvalue_valid(*old(t), other),
        ensures
            binop_built(*old(t), *final(t), BinOp::Lt, *self, other, r),
    {
        build_binary(t, BinOp::Lt, *self, other)
    }

    /// Elementwise less-or-equal.
    pub fn le(&self, t: &mut Trace, other: HostValue) -> (r: Result<Var, Error>)
        requires
            old(t).wf(),
            self.valid(*old(t)),
            hostvalue_valid(*old(t), other),
        ensures
            binop_built(*old(t), *final(t), BinOp::Le, *self, other, r),
    {
        build_binary(t, BinOp::Le, *self, other)
    }

    /// Elementwise greater-than.
    pub fn gt(&self, t: &mut Trace, other: HostValue) -> (r: Result<Var, Error>)
        requires
            old(t).wf(),
            self.valid(*old(t)),
            hostvalue_valid(*old(t), other),
        ensures
            binop_built(*old(t), *final(t), BinOp::Gt, *self, other, r),
    {
        build_binary(t, BinOp::Gt, *self, other)
    }

    /// Elementwise greater-or-equal.
    pub fn ge(&self, t: &mut Trace, other: HostValue) -> (r: Result<Var, Error>)
        requires
            old(t).wf(),
            self.valid(*old(t)),
            hostvalue_valid(*old(t), other),
        ensures
            binop_built(*old(t), *final(t), BinOp::Ge, *self, other, r),
    {
        build_binary(t, BinOp::Ge, *self, other)
    }

    /// Elementwise reciprocal (float kinds only).
    pub fn rcp(&self, t: &mut Trace) -> (r: Result<Var, Error>)
        requires
            old(t).wf(),
            self.valid(*old(t)),
        ensures
            unop_built(*old(t), *final(t), UnOp::Rcp, *self, r),
    {
        build_unary(t, UnOp::Rcp, *self)
    }

    /// Elementwise reciprocal square root (float kinds only).
    pub fn rsqrt(&self, t: &mut Trace) -> (r: Result<Var, Error>)
        requires
            old(t).wf(),
            self.valid(*old(t)),
        ensures
            unop_built(*old(t), *final(t), UnOp::Rsqrt, *self, r),
    {
        build_unary(t, UnOp::Rsqrt, *self)
    }

    /// Elementwise sine (float kinds only).
    pub fn sin(&self, t: &mut Trace) -> (r: Result<Var, Error>)
        requires
            old(t).wf(),
            self.valid(*old(t)),
        ensures
            unop_built(*old(t), *final(t), UnOp::Sin, *self, r),
    {
        build_unary(t, UnOp::Sin, *self)
    }

    /// Elementwise cosine (float kinds only).
    pub fn cos(&self, t: &mut Trace) -> (r: Result<Var, Error>)
        requires
            old(t).wf(),
            self.valid(*old(t)),
        ensures
            unop_built(*old(t), *final(t), UnOp::Cos, *self, r),
    {
        build_unary(t, UnOp::Cos, *self)
    }

    /// Elementwise base-two exponential (float kinds only).
    pub fn exp2(&self, t: &mut Trace) -> (r: Result<Var, Error>)
        requires
            old(t).wf(),
            self.valid(*old(t)),
        ensures
            unop_built(*old(t), *final(t), UnOp::Exp2, *self, r),
    {
        build_unary(t, UnOp::Exp2, *self)
    }

    /// Elementwise base-two logarithm (float kinds only).
    pub fn log2(&self, t: &mut Trace) -> (r: Result<Var, Error>)
        requires
            old(t).wf(),
            self.valid(*old(t)),
        ensures
            unop_built(*old(t), *final(t), UnOp::Log2, *self, r),
    {
        build_unary(t, UnOp::Log2, *self)
    }

    /// Elementwise negation (integer lanes wrap).
    pub fn neg(&self, t: &mut Trace) -> (r: Result<Var, Error>)
        requires
            old(t).wf(),
            self.valid(*old(t)),
        ensures
            unop_built(*old(t), *final(t), UnOp::Neg, *self, r),
    {
        build_unary(t, UnOp::Neg, *self)
    }

    /// Elementwise logical or bitwise complement.
    pub fn not(&self, t: &mut Trace) -> (r: Result<Var, Error>)
        requires
            old(t).wf(),
            self.valid(*old(t)),
        ensures
            unop_built(*old(t), *final(t), UnOp::Not, *self, r),
    {
        build_unary(t, UnOp::Not, *self)
    }

    /// Elementwise absolute value.
    pub fn abs(&self, t: &mut Trace) -> (r: Result<Var, Error>)
        requires
            old(t).wf(),
            self.valid(*old(t)),
        ensures
            unop_built(*old(t), *final(t), UnOp::Abs, *self, r),
    {
        build_unary(t, UnOp::Abs, *self)
    }

    /// Elementwise round toward negative infinity (float kinds only).
    pub fn floor(&self, t: &mut Trace) -> (r: Result<Var, Error>)
        requires
            old(t).wf(),
            self.valid(*old(t)),
        ensures
            unop_built(*old(t), *final(t), UnOp::Floor, *self, r),
    {
        build_unary(t, UnOp::Floor, *self)
    }

    /// Elementwise round toward positive infinity (float kinds only).
    pub fn ceil(&self, t: &mut Trace) -> (r: Result<Var, Error>)
        requires
            old(t).wf(),
            self.valid(*old(t)),
        ensures
            unop_built(*old(t), *final(t), UnOp::Ceil, *self, r),
    {
        build_unary(t, UnOp::Ceil, *self)
    }

    /// Elementwise round toward zero (float kinds only).
    pub fn trunc(&self, t: &mut Trace) -> (r: Result<Var, Error>)
        requires
            old(t).wf(),
            self.valid(*old(t)),
        ensures
            unop_built(*old(t), *final(t), UnOp::Trunc, *self, r),
    {
        build_unary(t, UnOp::Trunc, *self)
    }

    /// Elementwise population count (integer kinds only).
    pub fn popc(&self, t: &mut Trace) -> (r: Result<Var, Error>)
        requires
            old(t).wf(),
            self.valid(*old(t)),
        ensures
            unop_built(*old(t), *final(t), UnOp::Popc, *self, r),
    {
        build_unary(t, UnOp::Popc, *self)
    }

    /// Elementwise leading-zero count (integer kinds only).
    pub fn clz(&self, t: &mut Trace) -> (r: Result<Var, Error>)
        requires
            old(t).wf(),
            self.valid(*old(t)),
        ensures
            unop_built(*old(t), *final(t), UnOp::Clz, *self, r),
    {
        build_unary(t, UnOp::Clz, *self)
    }

    /// Elementwise trailing-zero count (integer kinds only).
    pub fn ctz(&self, t: &mut Trace) -> (r: Result<Var, Error>)
        requires
            old(t).wf(),
            self.valid(*old(t)),
        ensures
            unop_built(*old(t), *final(t), UnOp::Ctz, *self, r),
    {
        build_unary(t, UnOp::Ctz, *self)
    }

    /// Reinterprets this value's bit patterns under another kind of the
    /// same byte width.  Distinct from a numeric cast: the value is not
    /// numerically preserved, the bits are.  A reserved kind, a kind of
    /// another width, or a boolean target for a non-boolean source is
    /// refused.
    pub fn bitcast(&self, t: &mut Trace, kind: VarType) -> (r: Result<Var, Error>)
        requires
            old(t).wf(),
            self.valid(*old(t)),
        ensures
            trace_extended(*old(t), *final(t)),
            ({
                let k = old(t).nodes@[self.id as int].ty;
                &&& ((r is Ok) <==> (kind.is_supported() && kind.bytes() == k.bytes()
                    && kind.modulus() >= k.modulus()))
                &&& match r {
                    Result::Ok(v) => {
                        let nn = final(t).nodes@;
                        &&& nn.len() == old(t).nodes@.len() + 1
                        &&& v.id as int == nn.len() - 1
                        &&& nn[v.id as int].op is Bitcast
                        &&& nn[v.id as int].ty == kind
                        &&& nn[v.id as int].size == old(t).nodes@[self.id as int].size
                        &&& nn[v.id as int].deps@ == seq![self.id]
                    },
                    Result::Err(e) => {
                        &&& *final(t) == *old(t)
                        &&& if !kind.is_supported() {
                            e == (Error::UnsupportedType { ty: kind })
                        } else if kind.bytes() != k.bytes() {
                            e == (Error::SizeMismatch {
                                expected: k.bytes() as usize,
                                found: kind.bytes() as usize,
                            })
                        } else {
                            e == (Error::UnsupportedType { ty: kind })
                        }
                    },
                }
            }),
    {
        let k = t.node_ty(self.id);
        if !kind.supported() {
            return Err(Error::UnsupportedType { ty: kind });
        }
        if kind.bytes_usize() != k.bytes_usize() {
            return Err(
                Error::SizeMismatch { expected: k.bytes_usize(), found: kind.bytes_usize() },
            );
        }
        if kind.modulus_u128() < k.modulus_u128() {
            return Err(Error::UnsupportedType { ty: kind });
        }
        let sz = t.node_size(self.id);
        let mut deps: Vec<usize> = Vec::new();
        deps.push(self.id);
        let nd = Node {
            ty: kind,
            size: sz,
            op: Op::Bitcast,
            deps,
            lit: 0,
            buf: Vec::new(),
            accel: None,
        };
        proof {
            assert(node_wf(t.nodes@.push(nd), t.nodes@.len() as int));
            assert(nd.deps@ =~= seq![self.id]);
        }
        let id = t.push_node(nd);
        Ok(Var { id })
    }

    /// The indices of the set lanes of this boolean value, in increasing
    /// order; the result is shorter than the input wherever lanes are
    /// clear.
    pub fn compress(&self, t: &mut Trace) -> (r: Result<Var, Error>)
        requires
            old(t).wf(),
            self.valid(*old(t)),
        ensures
            trace_extended(*old(t), *final(t)),
            ({
                let k = old(t).nodes@[self.id as int].ty;
                &&& ((r is Ok) <==> k is Bool)
                &&& match r {
                    Result::Ok(v) => {
                        let nn = final(t).nodes@;
                        &&& nn.len() == old(t).nodes@.len() + 1
                        &&& v.id as int == nn.len() - 1
                        &&& nn[v.id as int].op is Compress
                        &&& nn[v.id as int].ty is U32
                        &&& nn[v.id as int].size == old(t).nodes@[self.id as int].size
                        &&& nn[v.id as int].deps@ == seq![self.id]
                    },
                    Result::Err(e) => *final(t) == *old(t) && e == (Error::UnsupportedType {
                        ty: k,
                    }),
                }
            }),
    {
        let k = t.node_ty(self.id);
        if !matches!(k, VarType::Bool) {
            return Err(Error::UnsupportedType { ty: k });
        }
        let sz = t.node_size(self.id);
        let mut deps: Vec<usize> = Vec::new();
        deps.push(self.id);
        let nd = Node {
            ty: VarType::U32,
            size: sz,
            op: Op::Compress,
            deps,
            lit: 0,
            buf: Vec::new(),
            accel: None,
        };
        proof {
            assert(node_wf(t.nodes@.push(nd), t.nodes@.len() as int));
            assert(nd.deps@ =~= seq![self.id]);
        }
        let id = t.push_node(nd);
        Ok(Var { id })
    }

    /// Reads lanes of this value at index positions: lane `i` of the
    /// result is this value at `idx[i]` where the mask is set; where it is
    /// clear the lane is left unspecified, and nothing faults.  The index
    /// is coerced to unsigned 32-bit, the mask (all-set when omitted) to
    /// boolean.
    pub fn gather(&self, t: &mut Trace, idx: HostValue, mask: Option<HostValue>) -> (r: Result<
        Var,
        Error,
    >)
        requires
            old(t).wf(),
            self.valid(*old(t)),
            hostvalue_valid(*old(t), idx),
            match mask {
                Option::Some(m) => hostvalue_valid(*old(t), m),
                Option::None => true,
            },
        ensures
            trace_extended(*old(t), *final(t)),
            ({
                let k = old(t).nodes@[self.id as int].ty;
                let mh = mask_host(mask);
                let isz = ingest_size(old(t).nodes@, idx, Option::None);
                let msz = ingest_size(old(t).nodes@, mh, Option::None);
                &&& ((r is Ok) <==> (coercible(VarType::U32, idx) && coercible(VarType::Bool, mh)
                    && bc2(isz as nat, msz as nat) is Some))
                &&& match r {
                    Result::Ok(v) => {
                        let nn = final(t).nodes@;
                        &&& v.id as int == nn.len() - 1
                        &&& nn[v.id as int].op is Gather
                        &&& nn[v.id as int].ty == k
                        &&& nn[v.id as int].size as nat == bc2(isz as nat, msz as nat).unwrap()
                        &&& nn[v.id as int].deps@.len() == 3
                        &&& nn[v.id as int].deps@[0] == self.id
                        &&& ingested(
                            old(t).nodes@,
                            nn,
                            idx,
                            VarType::U32,
                            Option::None,
                            nn[v.id as int].deps@[1] as int,
                        )
                        &&& ingested(
                            old(t).nodes@,
                            nn,
                            mh,
                            VarType::Bool,
                            Option::None,
                            nn[v.id as int].deps@[2] as int,
                        )
                    },
                    Result::Err(e) => {
                        &&& *final(t) == *old(t)
                        &&& if !coercible(VarType::U32, idx) {
                            e == (Error::TypeMismatch {
                                expected: VarType::U32,
                                found: host_kind_of(old(t).nodes@, idx),
                            })
                        } else if !coercible(VarType::Bool, mh) {
                            e == (Error::TypeMismatch {
                                expected: VarType::Bool,
                                found: host_kind_of(old(t).nodes@, mh),
                            })
                        } else {
                            e == (Error::SizeMismatch {
                                expected: isz as usize,
                                found: msz as usize,
                            })
                        }
                    },
                }
            }),
    {
        let k = t.node_ty(self.id);
        if !crate::funcs::coercible_x(VarType::U32, &idx) {
            let hk = crate::funcs::host_kind_of_x(t, &idx);
            return Err(Error::TypeMismatch { expected: VarType::U32, found: hk });
        }
        let isz = host_size_x(t, &idx);
        let (mv, msz): (HostValue, usize) = match mask {
            Option::Some(m) => {
                if !crate::funcs::coercible_x(VarType::Bool, &m) {
                    let hk = crate::funcs::host_kind_of_x(t, &m);
                    return Err(Error::TypeMismatch { expected: VarType::Bool, found: hk });
                }
                let s = host_size_x(t, &m);
                (m, s)
            },
            Option::None => (HostValue::Scalar(crate::funcs::HostScalar::Bool(true)), 1),
        };
        let n: usize = if isz == msz {
            isz
        } else if isz == 1 {
            msz
        } else if msz == 1 {
            isz
        } else {
            return Err(Error::SizeMismatch { expected: isz, found: msz });
        };
        let iv = match make(t, VarType::U32, idx, None) {
            Result::Ok(v) => v,
            Result::Err(_) => {
                proof {
                    assert(false);
                }
                return Err(Error::UnsupportedType { ty: VarType::U32 });
            },
        };
        let ghost g1 = t.nodes@;
        let bv = match make(t, VarType::Bool, mv, None) {
            Result::Ok(v) => v,
            Result::Err(_) => {
                proof {
                    assert(false);
                }
                return Err(Error::UnsupportedType { ty: VarType::Bool });
            },
        };
        let mut deps: Vec<usize> = Vec::new();
        deps.push(self.id);
        deps.push(iv.id);
        deps.push(bv.id);
        let nd = Node {
            ty: k,
            size: n,
            op: Op::Gather,
            deps,
            lit: 0,
            buf: Vec::new(),
            accel: None,
        };
        proof {
            assert(node_wf(old(t).nodes@, self.id as int));
            assert(k.is_supported());
            lemma_prefix_trans(old(t).nodes@, g1, t.nodes@);
            lemma_prefix_index(old(t).nodes@, t.nodes@, self.id as int);
            lemma_prefix_index(g1, t.nodes@, iv.id as int);
            assert(t.nodes@[self.id as int].ty == k);
            assert(t.nodes@[iv.id as int].ty is U32);
            assert(t.nodes@[bv.id as int].ty is Bool);
            assert(nd.deps@ =~= seq![self.id, iv.id, bv.id]);
            assert(node_wf(t.nodes@.push(nd), t.nodes@.len() as int));
        }
        let id = t.push_node(nd);
        proof {
            assert(old(t).nodes@.is_prefix_of(t.nodes@)) by {
                assert(old(t).nodes@ =~= t.nodes@.subrange(0, old(t).nodes@.len() as int));
            }
        }
        Ok(Var { id })
    }

    /// Writes this value's lanes into a buffer at index positions: lane
    /// `i` goes to `dst[idx[i]]` where the mask is set; mask-clear lanes
    /// write nothing and leave the destination untouched there.  The write
    /// happens at the next evaluation, in program order.
    pub fn scatter(&self, t: &mut Trace, dst: &Var, idx: HostValue, mask: Option<HostValue>) -> (
        r: Result<(), Error>)
        requires
            old(t).wf(),
            self.valid(*old(t)),
            dst.valid(*old(t)),
            hostvalue_valid(*old(t), idx),
            match mask {
                Option::Some(m) => hostvalue_valid(*old(t), m),
                Option::None => true,
            },
        ensures
            scatter_built(*old(t), *final(t), false, *self, *dst, idx, mask, r),
    {
        build_scatter(t, false, *self, *dst, idx, mask)
    }

    /// As [`Var::scatter`], but written lanes accumulate into the
    /// destination with the kind's wrapping addition instead of
    /// overwriting it; integer kinds only.
    pub fn scatter_reduce(
        &self,
        t: &mut Trace,
        dst: &Var,
        idx: HostValue,
        mask: Option<HostValue>,
    ) -> (r: Result<(), Error>)
        requires
            old(t).wf(),
            self.valid(*old(t)),
            dst.valid(*old(t)),
            hostvalue_valid(*old(t), idx),
            match mask {
                Option::Some(m) => hostvalue_valid(*old(t), m),
                Option::None => true,
            },
        ensures
            scatter_built(*old(t), *final(t), true, *self, *dst, idx, mask, r),
    {
        build_scatter(t, true, *self, *dst, idx, mask)
    }

    /// Fused multiply-add: this value times `d1`, plus `d2`, elementwise;
    /// both operands are coerced to this value's kind.
    pub fn fma(&self, t: &mut Trace, d1: HostValue, d2: HostValue) -> (r: Result<Var, Error>)
        requires
            old(t).wf(),
            self.valid(*old(t)),
            hostvalue_valid(*old(t), d1),
            hostvalue_valid(*old(t), d2),
        ensures
            trace_extended(*old(t), *final(t)),
            ({
                let k = old(t).nodes@[self.id as int].ty;
                let ssz = old(t).nodes@[self.id as int].size as int;
                let s1 = ingest_size(old(t).nodes@, d1, Option::None);
                let s2 = ingest_size(old(t).nodes@, d2, Option::None);
                &&& ((r is Ok) <==> ((k.is_int() || k.is_float()) && coercible(k, d1)
                    && coercible(k, d2) && crate::eval::bc3(ssz as nat, s1 as nat, s2 as nat)
                    is Some))
                &&& match r {
                    Result::Ok(v) => {
                        let nn = final(t).nodes@;
                        &&& v.id as int == nn.len() - 1
                        &&& nn[v.id as int].op == (Op::Tern { op: TernOp::Fma })
                        &&& nn[v.id as int].ty == k
                        &&& nn[v.id as int].size as nat == crate::eval::bc3(
                            ssz as nat,
                            s1 as nat,
                            s2 as nat,
                        ).unwrap()
                        &&& nn[v.id as int].deps@.len() == 3
                        &&& nn[v.id as int].deps@[0] == self.id
                        &&& ingested(
                            old(t).nodes@,
                            nn,
                            d1,
                            k,
                            Option::None,
                            nn[v.id as int].deps@[1] as int,
                        )
                        &&& ingested(
                            old(t).nodes@,
                            nn,
                            d2,
                            k,
                            Option::None,
                            nn[v.id as int].deps@[2] as int,
                        )
                    },
                    Result::Err(e) => {
                        &&& *final(t) == *old(t)
                        &&& if !(k.is_int() || k.is_float()) {
                            e == (Error::UnsupportedType { ty: k })
                        } else if !coercible(k, d1) {
                            e == (Error::TypeMismatch {
                                expected: k,
                                found: host_kind_of(old(t).nodes@, d1),
                            })
                        } else if !coercible(k, d2) {
                            e == (Error::TypeMismatch {
                                expected: k,
                                found: host_kind_of(old(t).nodes@, d2),
                            })
                        } else if bc2(ssz as nat, s1 as nat) is None {
                            e == (Error::SizeMismatch {
                                expected: ssz as usize,
                                found: s1 as usize,
                            })
                        } else {
                            e == (Error::SizeMismatch {
                                expected: bc2(ssz as nat, s1 as nat).unwrap() as usize,
                                found: s2 as usize,
                            })
                        }
                    },
                }
            }),
    {
        let k = t.node_ty(self.id);
        if !(k.int_kind() || k.float_kind()) {
            return Err(Error::UnsupportedType { ty: k });
        }
        if !crate::funcs::coercible_x(k, &d1) {
            let hk = crate::funcs::host_kind_of_x(t, &d1);
            return Err(Error::TypeMismatch { expected: k, found: hk });
        }
        if !crate::funcs::coercible_x(k, &d2) {
            let hk = crate::funcs::host_kind_of_x(t, &d2);
            return Err(Error::TypeMismatch { expected: k, found: hk });
        }
        let ssz = t.node_size(self.id);
        let s1 = host_size_x(t, &d1);
        let s2 = host_size_x(t, &d2);
        let n0: usize = if ssz == s1 {
            ssz
        } else if ssz == 1 {
            s1
        } else if s1 == 1 {
            ssz
        } else {
            return Err(Error::SizeMismatch { expected: ssz, found: s1 });
        };
        let n: usize = if n0 == s2 {
            n0
        } else if n0 == 1 {
            s2
        } else if s2 == 1 {
            n0
        } else {
            return Err(Error::SizeMismatch { expected: n0, found: s2 });
        };
        proof {
            assert(node_wf(old(t).nodes@, self.id as int));
        }
        let b1 = match make(t, k, d1, None) {
            Result::Ok(v) => v,
            Result::Err(_) => {
                proof {
                    assert(false);
                }
                return Err(Error::UnsupportedType { ty: k });
            },
        };
        let ghost g1 = t.nodes@;
        let b2 = match make(t, k, d2, None) {
            Result::Ok(v) => v,
            Result::Err(_) => {
                proof {
                    assert(false);
                }
                return Err(Error::UnsupportedType { ty: k });
            },
        };
        let mut deps: Vec<usize> = Vec::new();
        deps.push(self.id);
        deps.push(b1.id);
        deps.push(b2.id);
        let nd = Node {
            ty: k,
            size: n,
            op: Op::Tern { op: TernOp::Fma },
            deps,
            lit: 0,
            buf: Vec::new(),
            accel: None,
        };
        proof {
            assert(node_wf(old(t).nodes@, self.id as int));
            lemma_prefix_trans(old(t).nodes@, g1, t.nodes@);
            lemma_prefix_index(old(t).nodes@, t.nodes@, self.id as int);
            lemma_prefix_index(g1, t.nodes@, b1.id as int);
            assert(t.nodes@[b1.id as int].ty == k);
            assert(t.nodes@[b2.id as int].ty == k);
            assert(nd.deps@ =~= seq![self.id, b1.id, b2.id]);
            assert(node_wf(t.nodes@.push(nd), t.nodes@.len() as int));
        }
        let id = t.push_node(nd);
        proof {
            assert(old(t).nodes@.is_prefix_of(t.nodes@)) by {
                assert(old(t).nodes@ =~= t.nodes@.subrange(0, old(t).nodes@.len() as int));
            }
        }
        Ok(Var { id })
    }

    /// Lanewise choice: where this boolean value is set the result takes
    /// `d1`'s lane, elsewhere `d2`'s; `d2` is coerced to `d1`'s kind.
    pub fn select(&self, t: &mut Trace, d1: &Var, d2: HostValue) -> (r: Result<Var, Error>)
        requires
            old(t).wf(),
            self.valid(*old(t)),
            d1.valid(*old(t)),
            hostvalue_valid(*old(t), d2),
        ensures
            trace_extended(*old(t), *final(t)),
            ({
                let kc = old(t).nodes@[self.id as int].ty;
                let k = old(t).nodes@[d1.id as int].ty;
                let csz = old(t).nodes@[self.id as int].size as int;
                let s1 = old(t).nodes@[d1.id as int].size as int;
                let s2 = ingest_size(old(t).nodes@, d2, Option::None);
                &&& ((r is Ok) <==> (kc is Bool && coercible(k, d2) && crate::eval::bc3(
                    csz as nat,
                    s1 as nat,
                    s2 as nat,
                ) is Some))
                &&& match r {
                    Result::Ok(v) => {
                        let nn = final(t).nodes@;
                        &&& v.id as int == nn.len() - 1
                        &&& nn[v.id as int].op == (Op::Tern { op: TernOp::Select })
                        &&& nn[v.id as int].ty == k
                        &&& nn[v.id as int].size as nat == crate::eval::bc3(
                            csz as nat,
                            s1 as nat,
                            s2 as nat,
                        ).unwrap()
                        &&& nn[v.id as int].deps@.len() == 3
                        &&& nn[v.id as int].deps@[0] == self.id
                        &&& nn[v.id as int].deps@[1] == d1.id
                        &&& ingested(
                            old(t).nodes@,
                            nn,
                            d2,
                            k,
                            Option::None,
                            nn[v.id as int].deps@[2] as int,
                        )
                    },
                    Result::Err(e) => {
                        &&& *final(t) == *old(t)
                        &&& if !(kc is Bool) {
                            e == (Error::UnsupportedType { ty: kc })
                        } else if !coercible(k, d2) {
                            e == (Error::TypeMismatch {
                                expected: k,
                                found: host_kind_of(old(t).nodes@, d2),
                            })
                        } else if bc2(csz as nat, s1 as nat) is None {
                            e == (Error::SizeMismatch {
                                expected: csz as usize,
                                found: s1 as usize,
                            })
                        } else {
                            e == (Error::SizeMismatch {
                                expected: bc2(csz as nat, s1 as nat).unwrap() as usize,
                                found: s2 as usize,
                            })
                        }
                    },
                }
            }),
    {
        let kc = t.node_ty(self.id);
        let k = t.node_ty(d1.id);
        if !matches!(kc, VarType::Bool) {
            return Err(Error::UnsupportedType { ty: kc });
        }
        if !crate::funcs::coercible_x(k, &d2) {
            let hk = crate::funcs::host_kind_of_x(t, &d2);
            return Err(Error::TypeMismatch { expected: k, found: hk });
        }
        let csz = t.node_size(self.id);
        let s1 = t.node_size(d1.id);
        let s2 = host_size_x(t, &d2);
        let n0: usize = if csz == s1 {
            csz
        } else if csz == 1 {
            s1
        } else if s1 == 1 {
            csz
        } else {
            return Err(Error::SizeMismatch { expected: csz, found: s1 });
        };
        let n: usize = if n0 == s2 {
            n0
        } else if n0 == 1 {
            s2
        } else if s2 == 1 {
            n0
        } else {
            return Err(Error::SizeMismatch { expected: n0, found: s2 });
        };
        proof {
            assert(node_wf(old(t).nodes@, d1.id as int));
        }
        let b2 = match make(t, k, d2, None) {
            Result::Ok(v) => v,
            Result::Err(_) => {
                proof {
                    assert(false);
                }
                return Err(Error::UnsupportedType { ty: k });
            },
        };
        let mut deps: Vec<usize> = Vec::new();
        deps.push(self.id);
        deps.push(d1.id);
        deps.push(b2.id);
        let nd = Node {
            ty: k,
            size: n,
            op: Op::Tern { op: TernOp::Select },
            deps,
            lit: 0,
            buf: Vec::new(),
            accel: None,
        };
        proof {
            assert(node_wf(old(t).nodes@, self.id as int));
            assert(node_wf(old(t).nodes@, d1.id as int));
            lemma_prefix_index(old(t).nodes@, t.nodes@, self.id as int);
            lemma_prefix_index(old(t).nodes@, t.nodes@, d1.id as int);
            assert(t.nodes@[b2.id as int].ty == k);
            assert(nd.deps@ =~= seq![self.id, d1.id, b2.id]);
            assert(node_wf(t.nodes@.push(nd), t.nodes@.len() as int));
        }
        let id = t.push_node(nd);
        proof {
            assert(old(t).nodes@.is_prefix_of(t.nodes@)) by {
                assert(old(t).nodes@ =~= t.nodes@.subrange(0, old(t).nodes@.len() as int));
            }
        }
        Ok(Var { id })
    }

    /// Reinterprets this value as a multi-dimensional texture of the
    /// given shape and channel count; the shape must cover the value's
    /// element count exactly.
    pub fn to_texture(&self, t: &mut Trace, shape: Vec<usize>, n_channels: usize) -> (r: Result<
        Var,
        Error,
    >)
        requires
            old(t).wf(),
            self.valid(*old(t)),
            forall|i: int| 0 <= i < shape@.len() ==> (#[trigger] shape@[i]) >= 1,
            1 <= n_channels,
            product_of(shape@) * n_channels <= usize::MAX,
        ensures
            trace_extended(*old(t), *final(t)),
            ({
                let k = old(t).nodes@[self.id as int].ty;
                let total = product_of(shape@) * n_channels;
                &&& ((r is Ok) <==> total == old(t).nodes@[self.id as int].size)
                &&& match r {
                    Result::Ok(v) => {
                        let nn = final(t).nodes@;
                        &&& nn.len() == old(t).nodes@.len() + 1
                        &&& v.id as int == nn.len() - 1
                        &&& nn[v.id as int].op == (Op::ToTexture { shape, channels: n_channels })
                        &&& nn[v.id as int].ty == k
                        &&& nn[v.id as int].size == old(t).nodes@[self.id as int].size
                        &&& nn[v.id as int].deps@ == seq![self.id]
                    },
                    Result::Err(e) => *final(t) == *old(t) && e == (Error::SizeMismatch {
                        expected: total as usize,
                        found: old(t).nodes@[self.id as int].size,
                    }),
                }
            }),
    {
        let k = t.node_ty(self.id);
        let sz = t.node_size(self.id);
        let total = shape_elems(&shape, n_channels);
        if total != sz {
            return Err(Error::SizeMismatch { expected: total, found: sz });
        }
        let mut deps: Vec<usize> = Vec::new();
        deps.push(self.id);
        let nd = Node {
            ty: k,
            size: sz,
            op: Op::ToTexture { shape, channels: n_channels },
            deps,
            lit: 0,
            buf: Vec::new(),
            accel: None,
        };
        proof {
            assert(node_wf(t.nodes@, self.id as int));
            assert(node_wf(t.nodes@.push(nd), t.nodes@.len() as int));
            assert(nd.deps@ =~= seq![self.id]);
        }
        let id = t.push_node(nd);
        Ok(Var { id })
    }

    /// Reads a texture's lanes back as a plain buffer value, the inverse
    /// of [`Var::to_texture`]; only texture values can be read back.
    pub fn tex_to_buffer(&self, t: &mut Trace) -> (r: Result<Var, Error>)
        requires
            old(t).wf(),
            self.valid(*old(t)),
        ensures
            trace_extended(*old(t), *final(t)),
            ({
                let k = old(t).nodes@[self.id as int].ty;
                let is_tex = old(t).nodes@[self.id as int].op matches Op::Texture { .. } || old(
                    t,
                ).nodes@[self.id as int].op matches Op::ToTexture { .. };
                &&& ((r is Ok) <==> is_tex)
                &&& match r {
                    Result::Ok(v) => {
                        let nn = final(t).nodes@;
                        &&& nn.len() == old(t).nodes@.len() + 1
                        &&& v.id as int == nn.len() - 1
                        &&& nn[v.id as int].op is TexToBuffer
                        &&& nn[v.id as int].ty == k
                        &&& nn[v.id as int].size == old(t).nodes@[self.id as int].size
                        &&& nn[v.id as int].deps@ == seq![self.id]
                    },
                    Result::Err(e) => *final(t) == *old(t) && e == (Error::UnsupportedType {
                        ty: k,
                    }),
                }
            }),
    {
        let k = t.node_ty(self.id);
        let is_tex = match &t.nodes[self.id].op {
            Op::Texture { .. } => true,
            Op::ToTexture { .. } => true,
            _ => false,
        };
        if !is_tex {
            return Err(Error::UnsupportedType { ty: k });
        }
        let sz = t.node_size(self.id);
        let mut deps: Vec<usize> = Vec::new();
        deps.push(self.id);
        let nd = Node {
            ty: k,
            size: sz,
            op: Op::TexToBuffer,
            deps,
            lit: 0,
            buf: Vec::new(),
            accel: None,
        };
        proof {
            assert(node_wf(t.nodes@, self.id as int));
            assert(node_wf(t.nodes@.push(nd), t.nodes@.len() as int));
            assert(nd.deps@ =~= seq![self.id]);
        }
        let id = t.push_node(nd);
        Ok(Var { id })
    }

    /// Samples this texture at floating-point coordinates, one coordinate
    /// value per dimension, returning one value per channel.  The
    /// coordinates are coerced to 32-bit float kind first.  Sampling
    /// needs a numeric backend; the reference backend refuses it at
    /// evaluation time.
    pub fn tex_lookup(&self, t: &mut Trace, pos: Vec<Var>) -> (r: Result<Vec<Var>, Error>)
        requires
            old(t).wf(),
            self.valid(*old(t)),
            forall|i: int| 0 <= i < pos@.len() ==> (#[trigger] pos@[i]).valid(*old(t)),
        ensures
            final(t).wf(),
            old(t).nodes@.is_prefix_of(final(t).nodes@),
            final(t).backend == old(t).backend,
            final(t).schedule@ == old(t).schedule@,
            final(t).effects@ == old(t).effects@,
            forall|j: int|
                0 <= j < old(t).results@.len() ==> final(t).results@[j] == old(t).results@[j],
            ((r is Ok) <==> match old(t).nodes@[self.id as int].op {
                Op::Texture { shape, channels } => pos@.len() == shape@.len(),
                Op::ToTexture { shape, channels } => pos@.len() == shape@.len(),
                _ => false,
            }),
            match r {
                Result::Ok(vs) => {
                    &&& vs@.len() as int == (match old(t).nodes@[self.id as int].op {
                        Op::Texture { shape, channels } => channels as int,
                        Op::ToTexture { shape, channels } => channels as int,
                        _ => 0,
                    })
                    &&& forall|c: int|
                        0 <= c < vs@.len() ==> (#[trigger] vs@[c]).valid(*final(t))
                            && final(t).nodes@[vs@[c].id as int].op == (Op::TexLookup {
                            channel: c as usize,
                        }) && final(t).nodes@[vs@[c].id as int].ty is F32
                },
                Result::Err(e) => *final(t) == *old(t),
            },
    {
        let k = t.node_ty(self.id);
        let (dims, channels): (usize, usize) = match &t.nodes[self.id].op {
            Op::Texture { shape, channels } => (shape.len(), *channels),
            Op::ToTexture { shape, channels } => (shape.len(), *channels),
            _ => {
                return Err(Error::UnsupportedType { ty: k });
            },
        };
        if pos.len() != dims {
            return Err(Error::SizeMismatch { expected: dims, found: pos.len() });
        }
        let mut cids: Vec<usize> = Vec::new();
        let mut i: usize = 0;
        while i < pos.len()
            invariant
                old(t).wf(),
                t.wf(),
                i <= pos@.len(),
                self.valid(*old(t)),
                forall|j: int| 0 <= j < pos@.len() ==> (#[trigger] pos@[j]).valid(*old(t)),
                old(t).nodes@.is_prefix_of(t.nodes@),
                t.backend == old(t).backend,
                t.schedule@ == old(t).schedule@,
                t.effects@ == old(t).effects@,
                forall|j: int|
                    0 <= j < old(t).results@.len() ==> t.results@[j] == old(t).results@[j],
                forall|j: int| 0 <= j < i ==> (#[trigger] cids@[j]) < t.nodes@.len(),
                cids@.len() == i,
            decreases pos@.len() - i,
        {
            let ghost gpre = t.nodes@;
            let pv = match make(t, VarType::F32, HostValue::Node(pos[i]), None) {
                Result::Ok(v) => v,
                Result::Err(_) => {
                    proof {
                        assert(false);
                    }
                    return Err(Error::UnsupportedType { ty: VarType::F32 });
                },
            };
            proof {
                lemma_prefix_trans(old(t).nodes@, gpre, t.nodes@);
                assert(forall|j: int|
                    0 <= j < cids@.len() ==> (#[trigger] cids@[j]) < t.nodes@.len());
            }
            cids.push(pv.id);
            i = i + 1;
        }
        let first_size: usize = if pos.len() > 0 {
            proof {
                assert(cids@[0] < t.nodes@.len());
            }
            t.node_size(cids[0])
        } else {
            1
        };
        let mut out: Vec<Var> = Vec::new();
        let mut c: usize = 0;
        while c < channels
            invariant
                old(t).wf(),
                t.wf(),
                c <= channels,
                self.valid(*old(t)),
                old(t).nodes@.is_prefix_of(t.nodes@),
                t.backend == old(t).backend,
                t.schedule@ == old(t).schedule@,
                t.effects@ == old(t).effects@,
                forall|j: int|
                    0 <= j < old(t).results@.len() ==> t.results@[j] == old(t).results@[j],
                forall|j: int| 0 <= j < cids@.len() ==> (#[trigger] cids@[j]) < t.nodes@.len(),
                out@.len() == c,
                forall|j: int|
                    0 <= j < c ==> (#[trigger] out@[j]).valid(*t) && t.nodes@[out@[j].id as int].op
                        == (Op::TexLookup { channel: j as usize }) && t.nodes@[out@[j].id as int].ty
                        is F32,
            decreases channels - c,
        {
            let mut deps: Vec<usize> = Vec::new();
            deps.push(self.id);
            let mut q: usize = 0;
            while q < cids.len()
                invariant
                    q <= cids@.len(),
                    deps@.len() == q + 1,
                    deps@[0] == self.id,
                    forall|j: int| 0 <= j < cids@.len() ==> (#[trigger] cids@[j]) < t.nodes@.len(),
                    self.valid(*t),
                    forall|j: int| 1 <= j < deps@.len() ==> (#[trigger] deps@[j]) == cids@[j - 1],
                decreases cids@.len() - q,
            {
                deps.push(cids[q]);
                q = q + 1;
            }
            let nd = Node {
                ty: VarType::F32,
                size: first_size,
                op: Op::TexLookup { channel: c },
                deps,
                lit: 0,
                buf: Vec::new(),
                accel: None,
            };
            proof {
                assert(node_wf(t.nodes@.push(nd), t.nodes@.len() as int));
            }
            let ghost gpre = t.nodes@;
            let id = t.push_node(nd);
            proof {
                assert(gpre.is_prefix_of(t.nodes@)) by {
                    assert(gpre =~= t.nodes@.subrange(0, gpre.len() as int));
                }
                lemma_prefix_trans(old(t).nodes@, gpre, t.nodes@);
            }
            out.push(Var { id });
            c = c + 1;
        }
        Ok(out)
    }

    /// Issues a ray-tracing query against this acceleration structure,
    /// returning one value per payload slot plus the updated hit
    /// distance.  Ray geometry is coerced to 32-bit float kind, payload
    /// and table indices to unsigned 32-bit, the lane mask to boolean.
    /// Ray queries need a ray-tracing backend; the reference backend
    /// refuses them at evaluation time.
    #[verifier::rlimit(100)]
    #[verifier::loop_isolation(false)]
    pub fn trace_ray(
        &self,
        t: &mut Trace,
        payload: Vec<HostValue>,
        o: Vec<HostValue>,
        d: Vec<HostValue>,
        tmin: HostValue,
        tmax: HostValue,
        dist: HostValue,
        vis_mask: Option<HostValue>,
        flags: Option<HostValue>,
        sbt_offset: Option<HostValue>,
        sbt_stride: Option<HostValue>,
        miss_sbt: Option<HostValue>,
        mask: Option<HostValue>,
    ) -> (r: Result<Vec<Var>, Error>)
        requires
            old(t).wf(),
            self.valid(*old(t)),
            o@.len() == 3,
            d@.len() == 3,
            payload@.len() < usize::MAX,
            forall|i: int| 0 <= i < payload@.len() ==> hostvalue_valid(*old(t), #[trigger] payload@[i]),
            forall|i: int| 0 <= i < o@.len() ==> hostvalue_valid(*old(t), #[trigger] o@[i]),
            forall|i: int| 0 <= i < d@.len() ==> hostvalue_valid(*old(t), #[trigger] d@[i]),
            hostvalue_valid(*old(t), tmin),
            hostvalue_valid(*old(t), tmax),
            hostvalue_valid(*old(t), dist),
            match vis_mask {
                Option::Some(v) => hostvalue_valid(*old(t), v),
                Option::None => true,
            },
            match flags {
                Option::Some(v) => hostvalue_valid(*old(t), v),
                Option::None => true,
            },
            match sbt_offset {
                Option::Some(v) => hostvalue_valid(*old(t), v),
                Option::None => true,
            },
            match sbt_stride {
                Option::Some(v) => hostvalue_valid(*old(t), v),
                Option::None => true,
            },
            match miss_sbt {
                Option::Some(v) => hostvalue_valid(*old(t), v),
                Option::None => true,
            },
            match mask {
                Option::Some(v) => hostvalue_valid(*old(t), v),
                Option::None => true,
            },
        ensures
            final(t).wf(),
            old(t).nodes@.is_prefix_of(final(t).nodes@),
            final(t).backend == old(t).backend,
            final(t).schedule@ == old(t).schedule@,
            final(t).effects@ == old(t).effects@,
            forall|j: int|
                0 <= j < old(t).results@.len() ==> final(t).results@[j] == old(t).results@[j],
            ((r is Ok) <==> (old(t).nodes@[self.id as int].op is Accel && (forall|i: int|
                0 <= i < payload@.len() ==> coercible(VarType::U32, #[trigger] payload@[i])) && (
            forall|i: int| 0 <= i < o@.len() ==> coercible(VarType::F32, #[trigger] o@[i])) && (
            forall|i: int| 0 <= i < d@.len() ==> coercible(VarType::F32, #[trigger] d@[i]))
                && coercible(VarType::F32, tmin) && coercible(VarType::F32, tmax) && coercible(
                VarType::F32,
                dist,
            ) && opt_coercible(VarType::U32, vis_mask) && opt_coercible(VarType::U32, flags)
                && opt_coercible(VarType::U32, sbt_offset) && opt_coercible(
                VarType::U32,
                sbt_stride,
            ) && opt_coercible(VarType::U32, miss_sbt) && opt_coercible(VarType::Bool, mask))),
            match r {
                Result::Ok(vs) => {
                    &&& vs@.len() == payload@.len() + 1
                    &&& forall|j: int|
                        0 <= j < vs@.len() ==> (#[trigger] vs@[j]).valid(*final(t))
                            && final(t).nodes@[vs@[j].id as int].op == (Op::TraceRay {
                            slot: j as usize,
                        }) && final(t).nodes@[vs@[j].id as int].ty == (if j < payload@.len() {
                            VarType::U32
                        } else {
                            VarType::F32
                        })
                },
                Result::Err(e) => true,
            },
    {
        let k = t.node_ty(self.id);
        let is_accel = match &t.nodes[self.id].op {
            Op::Accel => true,
            _ => false,
        };
        if !is_accel {
            return Err(Error::UnsupportedType { ty: k });
        }
        let n_payload = payload.len();
        let pids = match coerce_all(t, VarType::U32, payload) {
            Result::Ok(v) => v,
            Result::Err(e) => {
                return Err(e);
            },
        };
        let ghost t1 = *t;
        let oids = match coerce_all(t, VarType::F32, o) {
            Result::Ok(v) => v,
            Result::Err(e) => {
                return Err(e);
            },
        };
        let ghost t2 = *t;
        let dids = match coerce_all(t, VarType::F32, d) {
            Result::Ok(v) => v,
            Result::Err(e) => {
                return Err(e);
            },
        };
        let ghost t3 = *t;
        let mut extra: Vec<usize> = Vec::new();
        let tmin_id = match coerce_opt(t, VarType::F32, Some(tmin)) {
            Result::Ok(Option::Some(id)) => id,
            Result::Ok(Option::None) => {
                proof {
                    assert(false);
                }
                return Err(Error::UnsupportedType { ty: VarType::F32 });
            },
            Result::Err(e) => {
                return Err(e);
            },
        };
        extra.push(tmin_id);
        let ghost t4 = *t;
        let tmax_id = match coerce_opt(t, VarType::F32, Some(tmax)) {
            Result::Ok(Option::Some(id)) => id,
            Result::Ok(Option::None) => {
                proof {
                    assert(false);
                }
                return Err(Error::UnsupportedType { ty: VarType::F32 });
            },
            Result::Err(e) => {
                return Err(e);
            },
        };
        extra.push(tmax_id);
        let ghost t5 = *t;
        let dist_id = match coerce_opt(t, VarType::F32, Some(dist)) {
            Result::Ok(Option::Some(id)) => id,
            Result::Ok(Option::None) => {
                proof {
                    assert(false);
                }
                return Err(Error::UnsupportedType { ty: VarType::F32 });
            },
            Result::Err(e) => {
                return Err(e);
            },
        };
        extra.push(dist_id);
        let ghost t6 = *t;
        match coerce_opt(t, VarType::U32, vis_mask) {
            Result::Ok(Option::Some(id)) => {
                extra.push(id);
            },
            Result::Ok(Option::None) => {},
            Result::Err(e) => {
                return Err(e);
            },
        }
        let ghost t7 = *t;
        match coerce_opt(t, VarType::U32, flags) {
            Result::Ok(Option::Some(id)) => {
                extra.push(id);
            },
            Result::Ok(Option::None) => {},
            Result::Err(e) => {
                return Err(e);
            },
        }
        let ghost t8 = *t;
        match coerce_opt(t, VarType::U32, sbt_offset) {
            Result::Ok(Option::Some(id)) => {
                extra.push(id);
            },
            Result::Ok(Option::None) => {},
            Result::Err(e) => {
                return Err(e);
            },
        }
        let ghost t9 = *t;
        match coerce_opt(t, VarType::U32, sbt_stride) {
            Result::Ok(Option::Some(id)) => {
                extra.push(id);
            },
            Result::Ok(Option::None) => {},
            Result::Err(e) => {
                return Err(e);
            },
        }
        let ghost t10 = *t;
        match coerce_opt(t, VarType::U32, miss_sbt) {
            Result::Ok(Option::Some(id)) => {
                extra.push(id);
            },
            Result::Ok(Option::None) => {},
            Result::Err(e) => {
                return Err(e);
            },
        }
        let ghost t11 = *t;
        match coerce_opt(t, VarType::Bool, mask) {
            Result::Ok(Option::Some(id)) => {
                extra.push(id);
            },
            Result::Ok(Option::None) => {},
            Result::Err(e) => {
                return Err(e);
            },
        }
        proof {
            lemma_prefix_trans(t10.nodes@, t11.nodes@, t.nodes@);
            lemma_prefix_trans(t9.nodes@, t10.nodes@, t.nodes@);
            lemma_prefix_trans(t8.nodes@, t9.nodes@, t.nodes@);
            lemma_prefix_trans(t7.nodes@, t8.nodes@, t.nodes@);
            lemma_prefix_trans(t6.nodes@, t7.nodes@, t.nodes@);
            lemma_prefix_trans(t5.nodes@, t6.nodes@, t.nodes@);
            lemma_prefix_trans(t4.nodes@, t5.nodes@, t.nodes@);
            lemma_prefix_trans(t3.nodes@, t4.nodes@, t.nodes@);
            lemma_prefix_trans(t2.nodes@, t3.nodes@, t.nodes@);
            lemma_prefix_trans(t1.nodes@, t2.nodes@, t.nodes@);
            lemma_prefix_trans(old(t).nodes@, t1.nodes@, t.nodes@);
        }
        // One ray node per output slot: the payload slots first, then the
        // updated hit distance.
        let mut out: Vec<Var> = Vec::new();
        let mut s: usize = 0;
        while s < n_payload + 1
            invariant
                old(t).wf(),
                t.wf(),
                s <= n_payload + 1,
                self.valid(*old(t)),
                old(t).nodes@.is_prefix_of(t.nodes@),
                t.backend == old(t).backend,
                t.schedule@ == old(t).schedule@,
                t.effects@ == old(t).effects@,
                forall|j: int|
                    0 <= j < old(t).results@.len() ==> t.results@[j] == old(t).results@[j],
                pids@.len() == n_payload,
                forall|j: int|
                    0 <= j < pids@.len() ==> (#[trigger] pids@[j]) < t.nodes@.len(),
                forall|j: int| 0 <= j < oids@.len() ==> (#[trigger] oids@[j]) < t.nodes@.len(),
                forall|j: int| 0 <= j < dids@.len() ==> (#[trigger] dids@[j]) < t.nodes@.len(),
                forall|j: int| 0 <= j < extra@.len() ==> (#[trigger] extra@[j]) < t.nodes@.len(),
                out@.len() == s,
                forall|j: int|
                    0 <= j < s ==> (#[trigger] out@[j]).valid(*t) && t.nodes@[out@[j].id as int].op
                        == (Op::TraceRay { slot: j as usize }) && t.nodes@[out@[j].id as int].ty
                        == (if j < n_payload {
                        VarType::U32
                    } else {
                        VarType::F32
                    }),
            decreases n_payload + 1 - s,
        {
            let mut deps: Vec<usize> = Vec::new();
            deps.push(self.id);
            let ghost bound = t.nodes@.len() as int;
            append_ids(&mut deps, &pids, Ghost(bound));
            append_ids(&mut deps, &oids, Ghost(bound));
            append_ids(&mut deps, &dids, Ghost(bound));
            append_ids(&mut deps, &extra, Ghost(bound));
            let ray_ty = if s < n_payload {
                VarType::U32
            } else {
                VarType::F32
            };
            let nd = Node {
                ty: ray_ty,
                size: 1,
                op: Op::TraceRay { slot: s },
                deps,
                lit: 0,
                buf: Vec::new(),
                accel: None,
            };
            proof {
                assert(node_wf(t.nodes@.push(nd), t.nodes@.len() as int));
            }
            let ghost gpre = t.nodes@;
            let id = t.push_node(nd);
            proof {
                assert(gpre.is_prefix_of(t.nodes@)) by {
                    assert(gpre =~= t.nodes@.subrange(0, gpre.len() as int));
                }
                lemma_prefix_trans(old(t).nodes@, gpre, t.nodes@);
            }
            out.push(Var { id });
            s = s + 1;
        }
        Ok(out)
    }

    /// The materialized lanes of this value, as raw canonical patterns;
    /// fails if no evaluation has materialized it yet.
    pub fn to_list(&self, t: &Trace) -> (r: Result<Vec<u64>, Error>)
        requires
            self.valid(*t),
            t.wf(),
        ensures
            match r {
                Result::Ok(v) => t.results@[self.id as int] is Some && v@ == t.results@[
                    self.id as int
                ].unwrap()@,
                Result::Err(e) => t.results@[self.id as int] is None && e
                    == (Error::BackendError { kind: BackendErrorKind::NotMaterialized }),
            },
    {
        match &t.results[self.id] {
            Option::Some(lanes) => {
                let mut out: Vec<u64> = Vec::new();
                let mut i: usize = 0;
                while i < lanes.len()
                    invariant
                        i <= lanes@.len(),
                        out@ == lanes@.subrange(0, i as int),
                    decreases lanes@.len() - i,
                {
                    out.push(lanes[i]);
                    proof {
                        assert(out@ =~= lanes@.subrange(0, i + 1));
                    }
                    i = i + 1;
                }
                proof {
                    assert(out@ =~= lanes@);
                }
                Ok(out)
            },
            Option::None => Err(
                Error::BackendError { kind: BackendErrorKind::NotMaterialized },
            ),
        }
    }
}

} // verus!
