//! The boundary surface of the library: heterogeneous-input ingestion
//! ([`make`]), backend selection, the index and texture constructors, the
//! acceleration-structure descriptor builder, and the evaluation entry
//! point.

use vstd::prelude::*;
use vstd::string::StringSliceAdditionalSpecFns;
use crate::error::{BackendErrorKind, DescriptorErrorKind, Error, HostKind};
use crate::sem::{bool_lane, encode, encode_i128, in_range};
use crate::trace::{node_wf, AccelData, Backend, Node, Op, Trace};
use crate::var::Var;
use crate::vartype::VarType;

verus! {

/// A plain host scalar, as the binding layer hands it over.  Floating
/// point scalars arrive as their IEEE-754 bit patterns.
#[derive(Clone, Copy, Debug, PartialEq, Eq, Structural)]
pub enum HostScalar {
    Bool(bool),
    Int(i64),
    UInt(u64),
    F32Bits(u32),
    F64Bits(u64),
}

/// An arbitrary host value offered for ingestion: an existing graph
/// value, a plain scalar, a sequence of scalars, or a typed array carried
/// as raw canonical lanes of a stated kind.
pub enum HostValue {
    Node(Var),
    Scalar(HostScalar),
    Sequence(Vec<HostScalar>),
    Array(VarType, Vec<u64>),
}

/// A host scalar is a value of the requested kind.
pub open spec fn scalar_matches(k: VarType, s: HostScalar) -> bool {
    match s {
        HostScalar::Bool(_) => k is Bool,
        HostScalar::Int(v) => k.is_int() && in_range(k, v as int),
        HostScalar::UInt(u) => k.is_int() && in_range(k, u as int),
        HostScalar::F32Bits(_) => k is F32,
        HostScalar::F64Bits(_) => k is F64,
    }
}

/// The canonical lane pattern of a matching host scalar.
pub open spec fn encode_scalar(k: VarType, s: HostScalar) -> u64 {
    match s {
        HostScalar::Bool(b) => bool_lane(b),
        HostScalar::Int(v) => encode(k, v as int),
        HostScalar::UInt(u) => encode(k, u as int),
        HostScalar::F32Bits(b) => b as u64,
        HostScalar::F64Bits(b) => b,
    }
}

/// What shape of host value this is, for the failure report.
pub open spec fn host_kind_of(nodes: Seq<Node>, v: HostValue) -> HostKind {
    match v {
        HostValue::Node(x) => HostKind::Node(nodes[x.id as int].ty),
        HostValue::Scalar(s) => match s {
            HostScalar::Bool(_) => HostKind::Bool,
            HostScalar::Int(_) => HostKind::Int,
            HostScalar::UInt(_) => HostKind::UInt,
            HostScalar::F32Bits(_) => HostKind::F32Bits,
            HostScalar::F64Bits(_) => HostKind::F64Bits,
        },
        HostValue::Sequence(_) => HostKind::Sequence,
        HostValue::Array(t2, _) => HostKind::Array(t2),
    }
}

/// A host value only names nodes the trace actually holds.
pub open spec fn hostvalue_valid(t: Trace, v: HostValue) -> bool {
    match v {
        HostValue::Node(x) => (x.id as int) < t.nodes@.len(),
        _ => true,
    }
}

/// The requested coercion is possible: an existing node can always be
/// cast; a scalar or a sequence must be of the kind; a typed array must be
/// of the kind and hold canonical lanes.
pub open spec fn coercible(k: VarType, v: HostValue) -> bool {
    match v {
        HostValue::Node(_) => true,
        HostValue::Scalar(s) => scalar_matches(k, s),
        HostValue::Sequence(vs) => forall|i: int|
            0 <= i < vs@.len() ==> scalar_matches(k, #[trigger] vs@[i]),
        HostValue::Array(t2, lanes) => t2 == k && forall|i: int|
            0 <= i < lanes@.len() ==> k.canonical(#[trigger] lanes@[i]),
    }
}

/// What node the ingestion produced for a host value: the value itself if
/// it was already a node of the kind, a cast of it if it was a node of
/// another kind, a sized literal for a scalar, a buffer holding exactly
/// the encoded lanes for a sequence or a typed array.
pub open spec fn ingested(
    pre: Seq<Node>,
    post: Seq<Node>,
    v: HostValue,
    k: VarType,
    n_opt: Option<usize>,
    id: int,
) -> bool {
    &&& 0 <= id < post.len()
    &&& match v {
        HostValue::Node(x) => if pre[x.id as int].ty == k {
            id == x.id as int
        } else {
            &&& id >= pre.len()
            &&& post[id].op is Cast
            &&& post[id].ty == k
            &&& post[id].deps@ == seq![x.id]
            &&& post[id].size == pre[x.id as int].size
        },
        HostValue::Scalar(s) => {
            &&& id >= pre.len()
            &&& post[id].op is Literal
            &&& post[id].ty == k
            &&& post[id].lit == encode_scalar(k, s)
            &&& post[id].size == (match n_opt {
                Option::Some(n) => n as int,
                Option::None => 1,
            })
        },
        HostValue::Sequence(vs) => {
            &&& id >= pre.len()
            &&& post[id].op is Buffer
            &&& post[id].ty == k
            &&& post[id].buf@ == vs@.map_values(|s: HostScalar| encode_scalar(k, s))
            &&& post[id].size == vs@.len()
        },
        HostValue::Array(t2, lanes) => {
            &&& id >= pre.len()
            &&& post[id].op is Buffer
            &&& post[id].ty == k
            &&& post[id].buf@ == lanes@
            &&& post[id].size == lanes@.len()
        },
    }
}

/// Executable twin of [`scalar_matches`].
fn scalar_matches_x(k: VarType, s: &HostScalar) -> (r: bool)
    ensures
        r == scalar_matches(k, *s),
{
    match s {
        HostScalar::Bool(_) => matches!(k, VarType::Bool),
        HostScalar::Int(v) => {
            if !k.int_kind() {
                false
            } else {
                let m = k.modulus_u128();
                if k.signed_int_kind() {
                    let h = (m / 2) as i128;
                    -h <= *v as i128 && (*v as i128) < h
                } else {
                    0 <= *v && (*v as i128) < m as i128
                }
            }
        },
        HostScalar::UInt(u) => {
            if !k.int_kind() {
                false
            } else {
                let m = k.modulus_u128();
                if k.signed_int_kind() {
                    let h = (m / 2) as u128;
                    (*u as u128) < h
                } else {
                    (*u as u128) < m
                }
            }
        },
        HostScalar::F32Bits(_) => matches!(k, VarType::F32),
        HostScalar::F64Bits(_) => matches!(k, VarType::F64),
    }
}

/// Executable twin of [`encode_scalar`]; the scalar must match the kind.
fn encode_scalar_x(k: VarType, s: &HostScalar) -> (r: u64)
    requires
        k.is_supported(),
        scalar_matches(k, *s),
    ensures
        r == encode_scalar(k, *s),
        k.canonical(r),
{
    match s {
        HostScalar::Bool(b) => if *b {
            1
        } else {
            0
        },
        HostScalar::Int(v) => encode_i128(k, *v as i128),
        HostScalar::UInt(u) => encode_i128(k, *u as i128),
        HostScalar::F32Bits(b) => *b as u64,
        HostScalar::F64Bits(b) => *b,
    }
}

/// Executable twin of [`coercible`].
#[verifier::loop_isolation(false)]
pub(crate) fn coercible_x(k: VarType, v: &HostValue) -> (r: bool)
    ensures
        r == coercible(k, *v),
{
    match v {
        HostValue::Node(_) => true,
        HostValue::Scalar(s) => scalar_matches_x(k, s),
        HostValue::Sequence(vs) => {
            let mut i: usize = 0;
            while i < vs.len()
                invariant
                    i <= vs@.len(),
                    forall|j: int| 0 <= j < i ==> scalar_matches(k, #[trigger] vs@[j]),
                decreases vs@.len() - i,
            {
                if !scalar_matches_x(k, &vs[i]) {
                    return false;
                }
                i = i + 1;
            }
            true
        },
        HostValue::Array(t2, lanes) => {
            if !(*t2 == k) {
                return false;
            }
            let m = k.modulus_u128();
            let mut i: usize = 0;
            while i < lanes.len()
                invariant
                    m == k.modulus(),
                    i <= lanes@.len(),
                    forall|j: int| 0 <= j < i ==> k.canonical(#[trigger] lanes@[j]),
                decreases lanes@.len() - i,
            {
                if !((lanes[i] as u128) < m) {
                    return false;
                }
                i = i + 1;
            }
            true
        },
    }
}

/// Executable twin of [`host_kind_of`].
pub(crate) fn host_kind_of_x(t: &Trace, v: &HostValue) -> (r: HostKind)
    requires
        hostvalue_valid(*t, *v),
    ensures
        r == host_kind_of(t.nodes@, *v),
{
    match v {
        HostValue::Node(x) => HostKind::Node(t.node_ty(x.id)),
        HostValue::Scalar(s) => match s {
            HostScalar::Bool(_) => HostKind::Bool,
            HostScalar::Int(_) => HostKind::Int,
            HostScalar::UInt(_) => HostKind::UInt,
            HostScalar::F32Bits(_) => HostKind::F32Bits,
            HostScalar::F64Bits(_) => HostKind::F64Bits,
        },
        HostValue::Sequence(_) => HostKind::Sequence,
        HostValue::Array(t2, _) => HostKind::Array(*t2),
    }
}

/// The whole contract of ingestion: how the trace may change, when the
/// call succeeds, which node stands for the value, and which error comes
/// back otherwise.
pub open spec fn made(
    pre: Trace,
    post: Trace,
    kind: VarType,
    value: HostValue,
    len: Option<usize>,
    r: Result<Var, Error>,
) -> bool {
    &&& post.wf()
    &&& post.backend == pre.backend
    &&& post.schedule@ == pre.schedule@
    &&& post.effects@ == pre.effects@
    &&& pre.nodes@.is_prefix_of(post.nodes@)
    &&& (forall|j: int| 0 <= j < pre.results@.len() ==> post.results@[j] == pre.results@[j])
    &&& ((r is Ok) <==> (kind.is_supported() && coercible(kind, value)))
    &&& match r {
        Result::Ok(v) => ingested(pre.nodes@, post.nodes@, value, kind, len, v.id as int) && (
        v.id as int >= pre.nodes@.len() ==> crate::eval::res_at(post.results@, v.id as int)
            is None),
        Result::Err(e) => {
            &&& post == pre
            &&& if !kind.is_supported() {
                e == (Error::UnsupportedType { ty: kind })
            } else {
                e == (Error::TypeMismatch {
                    expected: kind,
                    found: host_kind_of(pre.nodes@, value),
                })
            }
        },
    }
    &&& match value {
        HostValue::Node(x) => (kind.is_supported() && pre.nodes@[x.id as int].ty == kind) ==> (r
            == Result::<Var, Error>::Ok(x) && post == pre),
        _ => true,
    }
}

/// Converts an arbitrary host value into a graph value of exactly the
/// requested kind, per the coercion contract: an existing node of the
/// kind is returned unchanged with no node inserted; a node of another
/// kind gets an explicit cast node; a matching scalar becomes a sized
/// literal of length `len` (default 1); a matching sequence or typed
/// array becomes a buffer holding exactly those lanes, order preserved.
/// A reserved kind is refused as [`Error::UnsupportedType`]; a host value
/// that cannot be coerced is refused as [`Error::TypeMismatch`], naming
/// both sides.  On any failure the trace is untouched.
#[verifier::loop_isolation(false)]
pub fn make(t: &mut Trace, kind: VarType, value: HostValue, len: Option<usize>) -> (r: Result<
    Var,
    Error,
>)
    requires
        old(t).wf(),
        hostvalue_valid(*old(t), value),
    ensures
        made(*old(t), *final(t), kind, value, len, r),
{
    if !kind.supported() {
        return Err(Error::UnsupportedType { ty: kind });
    }
    match value {
        HostValue::Node(x) => {
            let nty = t.node_ty(x.id);
            if nty == kind {
                Ok(x)
            } else {
                let sz = t.node_size(x.id);
                let mut deps: Vec<usize> = Vec::new();
                deps.push(x.id);
                let nd = Node {
                    ty: kind,
                    size: sz,
                    op: Op::Cast,
                    deps,
                    lit: 0,
                    buf: Vec::new(),
                    accel: None,
                };
                proof {
                    assert(node_wf(old(t).nodes@.push(nd), old(t).nodes@.len() as int));
                }
                let id = t.push_node(nd);
                Ok(Var { id })
            }
        },
        HostValue::Scalar(s) => {
            if !scalar_matches_x(kind, &s) {
                return Err(
                    Error::TypeMismatch {
                        expected: kind,
                        found: match s {
                            HostScalar::Bool(_) => HostKind::Bool,
                            HostScalar::Int(_) => HostKind::Int,
                            HostScalar::UInt(_) => HostKind::UInt,
                            HostScalar::F32Bits(_) => HostKind::F32Bits,
                            HostScalar::F64Bits(_) => HostKind::F64Bits,
                        },
                    },
                );
            }
            let n: usize = match len {
                Option::Some(n) => n,
                Option::None => 1,
            };
            let lit = encode_scalar_x(kind, &s);
            let nd = Node {
                ty: kind,
                size: n,
                op: Op::Literal,
                deps: Vec::new(),
                lit,
                buf: Vec::new(),
                accel: None,
            };
            proof {
                assert(node_wf(old(t).nodes@.push(nd), old(t).nodes@.len() as int));
            }
            let id = t.push_node(nd);
            Ok(Var { id })
        },
        HostValue::Sequence(vs) => {
            let mut buf: Vec<u64> = Vec::new();
            let mut i: usize = 0;
            while i < vs.len()
                invariant
                    kind.is_supported(),
                    i <= vs@.len(),
                    buf@.len() == i,
                    forall|j: int| 0 <= j < i ==> scalar_matches(kind, #[trigger] vs@[j]),
                    forall|j: int|
                        0 <= j < i ==> buf@[j] == encode_scalar(kind, vs@[j]) && kind.canonical(
                            #[trigger] buf@[j],
                        ),
                decreases vs@.len() - i,
            {
                if !scalar_matches_x(kind, &vs[i]) {
                    return Err(
                        Error::TypeMismatch { expected: kind, found: HostKind::Sequence },
                    );
                }
                let lane = encode_scalar_x(kind, &vs[i]);
                buf.push(lane);
                i = i + 1;
            }
            proof {
                assert(buf@ =~= vs@.map_values(|s: HostScalar| encode_scalar(kind, s)));
            }
            let n = buf.len();
            let nd = Node {
                ty: kind,
                size: n,
                op: Op::Buffer,
                deps: Vec::new(),
                lit: 0,
                buf,
                accel: None,
            };
            proof {
                assert(node_wf(old(t).nodes@.push(nd), old(t).nodes@.len() as int));
            }
            let id = t.push_node(nd);
            Ok(Var { id })
        },
        HostValue::Array(t2, lanes) => {
            if !(t2 == kind) {
                return Err(
                    Error::TypeMismatch { expected: kind, found: HostKind::Array(t2) },
                );
            }
            let m = kind.modulus_u128();
            let mut i: usize = 0;
            while i < lanes.len()
                invariant
                    kind.is_supported(),
                    m == kind.modulus(),
                    i <= lanes@.len(),
                    forall|j: int| 0 <= j < i ==> kind.canonical(#[trigger] lanes@[j]),
                decreases lanes@.len() - i,
            {
                if !((lanes[i] as u128) < m) {
                    return Err(
                        Error::TypeMismatch { expected: kind, found: HostKind::Array(t2) },
                    );
                }
                i = i + 1;
            }
            let n = lanes.len();
            let nd = Node {
                ty: kind,
                size: n,
                op: Op::Buffer,
                deps: Vec::new(),
                lit: 0,
                buf: lanes,
                accel: None,
            };
            proof {
                assert(node_wf(old(t).nodes@.push(nd), old(t).nodes@.len() as int));
            }
            let id = t.push_node(nd);
            Ok(Var { id })
        },
    }
}

/// A shader module: source text plus the entry point to invoke.  Opaque
/// to the graph; it is carried into the shader binding table as is.
pub struct ModuleDesc {
    pub source: String,
    pub entry_point: String,
}

/// A hit group: the closest-hit module, with optional any-hit and
/// intersection modules.  A stored group is consistent by construction:
/// each optional module carries its source and its entry point together.
pub struct HitGroupDesc {
    pub closest_hit: ModuleDesc,
    pub any_hit: Option<ModuleDesc>,
    pub intersection: Option<ModuleDesc>,
}

/// A miss group: the module run when a ray hits nothing.
pub struct MissGroupDesc {
    pub miss: ModuleDesc,
}

/// One geometry: triangles, as a 32-bit float vertex buffer and an
/// unsigned 32-bit index buffer.
pub enum GeometryDesc {
    Triangles { vertices: Var, indices: Var },
}

/// One geometry instance: a geometry id, a row-major 3x4 transform
/// carried as 12 bit patterns of 32-bit floats, and a hit-group id.
pub struct InstanceDesc {
    pub geometry: usize,
    pub transform: Vec<u32>,
    pub hit_group: u32,
}

/// The acceleration-structure descriptor builder.  It accumulates
/// geometries, instances, hit groups and miss groups — each append hands
/// back a stable id — until the one-shot [`accel`] call validates the
/// cross references and consumes it.
pub struct AccelDesc {
    pub geometries: Vec<GeometryDesc>,
    pub instances: Vec<InstanceDesc>,
    pub hit_groups: Vec<HitGroupDesc>,
    pub miss_groups: Vec<MissGroupDesc>,
}

/// Every instance's geometry id names a geometry the descriptor holds.
pub open spec fn geometry_refs_ok(d: AccelDesc) -> bool {
    forall|i: int|
        0 <= i < d.instances@.len() ==> ((#[trigger] d.instances@[i]).geometry as int)
            < d.geometries@.len()
}

/// Every instance's hit-group id names a hit group the descriptor holds;
/// with no hit groups registered the table degenerates to empty and the
/// ids are not consulted.
pub open spec fn hit_refs_ok(d: AccelDesc) -> bool {
    d.hit_groups@.len() == 0 || forall|i: int|
        0 <= i < d.instances@.len() ==> ((#[trigger] d.instances@[i]).hit_group as int)
            < d.hit_groups@.len()
}

/// The descriptor's geometry buffers name nodes the trace holds.
pub open spec fn desc_valid(d: AccelDesc, t: Trace) -> bool {
    forall|g: int|
        0 <= g < d.geometries@.len() ==> match #[trigger] d.geometries@[g] {
            GeometryDesc::Triangles { vertices, indices } => (vertices.id as int)
                < t.nodes@.len() && (indices.id as int) < t.nodes@.len(),
        }
}

impl AccelDesc {
    /// A fresh, empty descriptor in its accumulating state.
    pub fn new() -> (d: AccelDesc)
        ensures
            d.geometries@.len() == 0,
            d.instances@.len() == 0,
            d.hit_groups@.len() == 0,
            d.miss_groups@.len() == 0,
    {
        AccelDesc {
            geometries: Vec::new(),
            instances: Vec::new(),
            hit_groups: Vec::new(),
            miss_groups: Vec::new(),
        }
    }

    /// Registers a triangle geometry: the vertices are coerced to 32-bit
    /// float kind and the indices to unsigned 32-bit kind, and the stable
    /// geometry id is handed back.
    pub fn add_triangles(&mut self, t: &mut Trace, vertices: HostValue, indices: HostValue) -> (
        r: Result<usize, Error>)
        requires
            old(t).wf(),
            hostvalue_valid(*old(t), vertices),
            hostvalue_valid(*old(t), indices),
        ensures
            final(t).wf(),
            old(t).nodes@.is_prefix_of(final(t).nodes@),
            final(t).backend == old(t).backend,
            final(t).schedule@ == old(t).schedule@,
            final(t).effects@ == old(t).effects@,
            forall|j: int|
                0 <= j < old(t).results@.len() ==> final(t).results@[j] == old(t).results@[j],
            final(self).instances@ == old(self).instances@,
            final(self).hit_groups@ == old(self).hit_groups@,
            final(self).miss_groups@ == old(self).miss_groups@,
            ((r is Ok) <==> (coercible(VarType::F32, vertices) && coercible(
                VarType::U32,
                indices,
            ))),
            match r {
                Result::Ok(id) => {
                    &&& id == old(self).geometries@.len()
                    &&& final(self).geometries@.len() == old(self).geometries@.len() + 1
                    &&& (forall|g: int|
                        0 <= g < old(self).geometries@.len() ==> final(self).geometries@[g] == old(
                            self,
                        ).geometries@[g])
                    &&& match final(self).geometries@.last() {
                        GeometryDesc::Triangles { vertices: vv, indices: iv } => {
                            &&& ingested(
                                old(t).nodes@,
                                final(t).nodes@,
                                vertices,
                                VarType::F32,
                                Option::None,
                                vv.id as int,
                            )
                            &&& ingested(
                                old(t).nodes@,
                                final(t).nodes@,
                                indices,
                                VarType::U32,
                                Option::None,
                                iv.id as int,
                            )
                        },
                    }
                },
                Result::Err(e) => {
                    &&& *final(self) == *old(self)
                    &&& *final(t) == *old(t)
                    &&& if !coercible(VarType::F32, vertices) {
                        e == (Error::TypeMismatch {
                            expected: VarType::F32,
                            found: host_kind_of(old(t).nodes@, vertices),
                        })
                    } else {
                        e == (Error::TypeMismatch {
                            expected: VarType::U32,
                            found: host_kind_of(old(t).nodes@, indices),
                        })
                    }
                },
            },
    {
        if !coercible_x(VarType::F32, &vertices) {
            let hk = host_kind_of_x(t, &vertices);
            return Err(Error::TypeMismatch { expected: VarType::F32, found: hk });
        }
        if !coercible_x(VarType::U32, &indices) {
            let hk = host_kind_of_x(t, &indices);
            return Err(Error::TypeMismatch { expected: VarType::U32, found: hk });
        }
        let vv = match make(t, VarType::F32, vertices, None) {
            Result::Ok(v) => v,
            Result::Err(_) => {
                proof {
                    assert(false);
                }
                return Err(Error::UnsupportedType { ty: VarType::F32 });
            },
        };
        let ghost g1 = t.nodes@;
        let iv = match make(t, VarType::U32, indices, None) {
            Result::Ok(v) => v,
            Result::Err(_) => {
                proof {
                    assert(false);
                }
                return Err(Error::UnsupportedType { ty: VarType::U32 });
            },
        };
        let id = self.geometries.len();
        self.geometries.push(GeometryDesc::Triangles { vertices: vv, indices: iv });
        proof {
            assert(old(t).nodes@.is_prefix_of(t.nodes@)) by {
                assert(forall|j: int|
                    0 <= j < old(t).nodes@.len() ==> old(t).nodes@[j] == g1[j] && g1[j]
                        == t.nodes@[j]) by {
                    assert(forall|j: int|
                        0 <= j < old(t).nodes@.len() ==> old(t).nodes@[j] == g1.subrange(
                            0,
                            old(t).nodes@.len() as int,
                        )[j]);
                    assert(forall|j: int|
                        0 <= j < g1.len() ==> g1[j] == t.nodes@.subrange(0, g1.len() as int)[j]);
                }
                assert(old(t).nodes@ =~= t.nodes@.subrange(0, old(t).nodes@.len() as int));
            }
        }
        Ok(id)
    }

    /// Registers one instance of a geometry with its 3x4 transform (12
    /// float bit patterns, row-major) and a hit-group id.  Cross
    /// references are validated when [`accel`] consumes the descriptor,
    /// not here.
    pub fn add_instance(&mut self, geometry: usize, transform: Vec<u32>, hit_group: u32)
        requires
            transform@.len() == 12,
        ensures
            final(self).geometries@ == old(self).geometries@,
            final(self).hit_groups@ == old(self).hit_groups@,
            final(self).miss_groups@ == old(self).miss_groups@,
            final(self).instances@.len() == old(self).instances@.len() + 1,
            (forall|i: int|
                0 <= i < old(self).instances@.len() ==> final(self).instances@[i] == old(
                    self,
                ).instances@[i]),
            final(self).instances@.last().geometry == geometry,
            final(self).instances@.last().transform == transform,
            final(self).instances@.last().hit_group == hit_group,
    {
        self.instances.push(InstanceDesc { geometry, transform, hit_group });
    }

    /// Registers a hit group from shader sources and entry points.  The
    /// optional any-hit and intersection modules must come as a pair of
    /// source and entry point: one without the other is rejected as an
    /// inconsistent descriptor.
    pub fn add_hit_group(
        &mut self,
        closest_hit_entry_point: &str,
        closest_hit_source: &str,
        any_hit_entry_point: Option<&str>,
        any_hit_source: Option<&str>,
        intersection_entry_point: Option<&str>,
        intersection_source: Option<&str>,
    ) -> (r: Result<u32, Error>)
        requires
            old(self).hit_groups@.len() < 0xFFFF_FFFF,
        ensures
            final(self).geometries@ == old(self).geometries@,
            final(self).instances@ == old(self).instances@,
            final(self).miss_groups@ == old(self).miss_groups@,
            ((r is Ok) <==> ((any_hit_entry_point is Some <==> any_hit_source is Some) && (
            intersection_entry_point is Some <==> intersection_source is Some))),
            match r {
                Result::Ok(idx) => {
                    &&& idx == old(self).hit_groups@.len()
                    &&& final(self).hit_groups@.len() == old(self).hit_groups@.len() + 1
                    &&& (forall|i: int|
                        0 <= i < old(self).hit_groups@.len() ==> final(self).hit_groups@[i] == old(
                            self,
                        ).hit_groups@[i])
                    &&& final(self).hit_groups@.last().closest_hit.source@
                        == closest_hit_source@
                    &&& final(self).hit_groups@.last().closest_hit.entry_point@
                        == closest_hit_entry_point@
                    &&& (final(self).hit_groups@.last().any_hit is Some <==> any_hit_source
                        is Some)
                    &&& (final(self).hit_groups@.last().intersection is Some
                        <==> intersection_source is Some)
                },
                Result::Err(e) => *final(self) == *old(self) && e == (Error::DescriptorError {
                    kind: DescriptorErrorKind::InconsistentModule,
                }),
            },
    {
        let any_hit: Option<ModuleDesc> = match (any_hit_entry_point, any_hit_source) {
            (Option::Some(ep), Option::Some(src)) => Some(
                ModuleDesc { source: src.to_owned(), entry_point: ep.to_owned() },
            ),
            (Option::None, Option::None) => None,
            _ => {
                return Err(
                    Error::DescriptorError { kind: DescriptorErrorKind::InconsistentModule },
                );
            },
        };
        let intersection: Option<ModuleDesc> = match (
            intersection_entry_point,
            intersection_source,
        ) {
            (Option::Some(ep), Option::Some(src)) => Some(
                ModuleDesc { source: src.to_owned(), entry_point: ep.to_owned() },
            ),
            (Option::None, Option::None) => None,
            _ => {
                return Err(
                    Error::DescriptorError { kind: DescriptorErrorKind::InconsistentModule },
                );
            },
        };
        let idx = self.hit_groups.len();
        self.hit_groups.push(
            HitGroupDesc {
                closest_hit: ModuleDesc {
                    source: closest_hit_source.to_owned(),
                    entry_point: closest_hit_entry_point.to_owned(),
                },
                any_hit,
                intersection,
            },
        );
        Ok(idx as u32)
    }

    /// Registers a miss group from a shader source and entry point,
    /// handing back its stable id.
    pub fn add_miss_group(&mut self, entry_point: &str, source: &str) -> (idx: u32)
        requires
            old(self).miss_groups@.len() < 0xFFFF_FFFF,
        ensures
            final(self).geometries@ == old(self).geometries@,
            final(self).instances@ == old(self).instances@,
            final(self).hit_groups@ == old(self).hit_groups@,
            idx == old(self).miss_groups@.len(),
            final(self).miss_groups@.len() == old(self).miss_groups@.len() + 1,
            (forall|i: int|
                0 <= i < old(self).miss_groups@.len() ==> final(self).miss_groups@[i] == old(
                    self,
                ).miss_groups@[i]),
            final(self).miss_groups@.last().miss.source@ == source@,
            final(self).miss_groups@.last().miss.entry_point@ == entry_point@,
    {
        let idx = self.miss_groups.len();
        self.miss_groups.push(
            MissGroupDesc {
                miss: ModuleDesc { source: source.to_owned(), entry_point: entry_point.to_owned() },
            },
        );
        idx as u32
    }
}

/// Validates and consumes an acceleration-structure descriptor,
/// projecting it into the graph as one opaque node.  Every instance's
/// geometry id must name a registered geometry, and — when hit groups are
/// registered — its hit-group id must name one of them; a violation
/// rejects the whole call with a descriptor error and leaves the trace
/// untouched, never building a partially wired structure.
#[verifier::loop_isolation(false)]
pub fn accel(t: &mut Trace, desc: AccelDesc) -> (r: Result<Var, Error>)
    requires
        old(t).wf(),
        desc_valid(desc, *old(t)),
    ensures
        final(t).wf(),
        old(t).nodes@.is_prefix_of(final(t).nodes@),
        final(t).backend == old(t).backend,
        final(t).schedule@ == old(t).schedule@,
        final(t).effects@ == old(t).effects@,
        forall|j: int|
            0 <= j < old(t).results@.len() ==> final(t).results@[j] == old(t).results@[j],
        ((r is Ok) <==> (geometry_refs_ok(desc) && hit_refs_ok(desc))),
        (!geometry_refs_ok(desc) ==> r == Result::<Var, Error>::Err(
            Error::DescriptorError { kind: DescriptorErrorKind::GeometryOutOfRange },
        )),
        (geometry_refs_ok(desc) && !hit_refs_ok(desc) ==> r == Result::<Var, Error>::Err(
            Error::DescriptorError { kind: DescriptorErrorKind::HitGroupOutOfRange },
        )),
        match r {
            Result::Ok(v) => {
                let nn = final(t).nodes@;
                &&& nn.len() == old(t).nodes@.len() + 1
                &&& v.id as int == nn.len() - 1
                &&& nn[v.id as int].op is Accel
                &&& nn[v.id as int].size == 0
                &&& match nn[v.id as int].accel {
                    Option::Some(a) => {
                        &&& a.geometries@.len() == desc.geometries@.len()
                        &&& (forall|g: int|
                            0 <= g < desc.geometries@.len() ==> match #[trigger] desc.geometries@[g] {
                                GeometryDesc::Triangles { vertices, indices } => a.geometries@[g]
                                    == (vertices.id, indices.id),
                            })
                        &&& a.instances@ == desc.instances@
                        &&& a.hit_groups@ == desc.hit_groups@
                        &&& a.miss_groups@ == desc.miss_groups@
                    },
                    Option::None => false,
                }
            },
            Result::Err(e) => *final(t) == *old(t) && (e matches Error::DescriptorError { .. }),
        },
{
    let mut i: usize = 0;
    while i < desc.instances.len()
        invariant
            i <= desc.instances@.len(),
            forall|j: int|
                0 <= j < i ==> ((#[trigger] desc.instances@[j]).geometry as int)
                    < desc.geometries@.len(),
        decreases desc.instances@.len() - i,
    {
        if desc.instances[i].geometry >= desc.geometries.len() {
            return Err(Error::DescriptorError { kind: DescriptorErrorKind::GeometryOutOfRange });
        }
        i = i + 1;
    }
    if desc.hit_groups.len() > 0 {
        let mut i2: usize = 0;
        while i2 < desc.instances.len()
            invariant
                i2 <= desc.instances@.len(),
                forall|j: int|
                    0 <= j < i2 ==> ((#[trigger] desc.instances@[j]).hit_group as int)
                        < desc.hit_groups@.len(),
            decreases desc.instances@.len() - i2,
        {
            if desc.instances[i2].hit_group as usize >= desc.hit_groups.len() {
                return Err(
                    Error::DescriptorError { kind: DescriptorErrorKind::HitGroupOutOfRange },
                );
            }
            i2 = i2 + 1;
        }
    }
    let AccelDesc { geometries, instances, hit_groups, miss_groups } = desc;
    let mut deps: Vec<usize> = Vec::new();
    let mut pairs: Vec<(usize, usize)> = Vec::new();
    let mut g: usize = 0;
    while g < geometries.len()
        invariant
            g <= geometries@.len(),
            pairs@.len() == g,
            forall|j: int|
                0 <= j < g ==> match #[trigger] geometries@[j] {
                    GeometryDesc::Triangles { vertices, indices } => pairs@[j] == (
                        vertices.id,
                        indices.id,
                    ),
                },
            forall|j: int| 0 <= j < deps@.len() ==> (#[trigger] deps@[j]) < t.nodes@.len(),
        decreases geometries@.len() - g,
    {
        match &geometries[g] {
            GeometryDesc::Triangles { vertices, indices } => {
                deps.push(vertices.id);
                deps.push(indices.id);
                pairs.push((vertices.id, indices.id));
            },
        }
        g = g + 1;
    }
    let data = AccelData { geometries: pairs, instances, hit_groups, miss_groups };
    let nd = Node {
        ty: VarType::U32,
        size: 0,
        op: Op::Accel,
        deps,
        lit: 0,
        buf: Vec::new(),
        accel: Some(data),
    };
    proof {
        assert(node_wf(t.nodes@.push(nd), t.nodes@.len() as int));
    }
    let id = t.push_node(nd);
    Ok(Var { id })
}

/// The byte string that names the built-in deterministic reference
/// backend.
pub open spec fn reference_backend_name(s: Seq<u8>) -> bool {
    s == seq![99u8, 112u8, 117u8]
}

/// Selects the backend by name.  The one backend this library ships is
/// the deterministic host-side reference interpreter; an unrecognized
/// name is a backend error.  Rebinding invalidates all materialized
/// state: node caches belong to a backend, so every result is dropped.
pub fn set_backend(t: &mut Trace, backend: &str) -> (r: Result<(), Error>)
    requires
        old(t).wf(),
    ensures
        final(t).wf(),
        final(t).nodes@ == old(t).nodes@,
        final(t).schedule@ == old(t).schedule@,
        final(t).effects@ == old(t).effects@,
        ((r is Ok) <==> reference_backend_name(backend.spec_bytes())),
        match r {
            Result::Ok(()) => final(t).backend == Option::Some(Backend::Reference) && forall|
                j: int,
            | 0 <= j < final(t).results@.len() ==> (#[trigger] final(t).results@[j]) is None,
            Result::Err(e) => *final(t) == *old(t) && e == (Error::BackendError {
                kind: BackendErrorKind::UnknownBackend,
            }),
        },
{
    let b = backend.as_bytes();
    if b.len() == 3 && b[0] == 99 && b[1] == 112 && b[2] == 117 {
        proof {
            assert(backend.spec_bytes() =~= seq![99u8, 112u8, 117u8]);
        }
        self_clear_results(t);
        t.backend = Some(Backend::Reference);
        Ok(())
    } else {
        proof {
            if backend.spec_bytes() == seq![99u8, 112u8, 117u8] {
                assert(b@.len() == 3 && b@[0] == 99 && b@[1] == 112 && b@[2] == 117);
            }
        }
        Err(Error::BackendError { kind: BackendErrorKind::UnknownBackend })
    }
}

/// Drops every materialized result.
fn self_clear_results(t: &mut Trace)
    requires
        old(t).wf(),
    ensures
        final(t).wf(),
        final(t).nodes@ == old(t).nodes@,
        final(t).schedule@ == old(t).schedule@,
        final(t).effects@ == old(t).effects@,
        final(t).backend == old(t).backend,
        final(t).results@.len() == old(t).results@.len(),
        forall|j: int|
            0 <= j < final(t).results@.len() ==> (#[trigger] final(t).results@[j]) is None,
{
    let n = t.nodes.len();
    let mut fresh: Vec<Option<Vec<u64>>> = Vec::new();
    let mut i: usize = 0;
    while i < n
        invariant
            i <= n,
            fresh@.len() == i,
            forall|j: int| 0 <= j < i ==> (#[trigger] fresh@[j]) is None,
        decreases n - i,
    {
        fresh.push(None);
        i = i + 1;
    }
    t.results = fresh;
}

/// Produces a buffer holding the first `num` naturals as unsigned 32-bit
/// lanes, typically used as a lane index.
pub fn index(t: &mut Trace, num: usize) -> (v: Var)
    requires
        old(t).wf(),
        num <= 0xFFFF_FFFF,
    ensures
        final(t).wf(),
        final(t).nodes@.len() == old(t).nodes@.len() + 1,
        old(t).nodes@.is_prefix_of(final(t).nodes@),
        final(t).backend == old(t).backend,
        final(t).schedule@ == old(t).schedule@,
        final(t).effects@ == old(t).effects@,
        forall|j: int|
            0 <= j < old(t).results@.len() ==> final(t).results@[j] == old(t).results@[j],
        v.id as int == final(t).nodes@.len() - 1,
        final(t).nodes@.last().op is Index,
        final(t).nodes@.last().ty is U32,
        final(t).nodes@.last().size == num,
    {
    let nd = Node {
        ty: VarType::U32,
        size: num,
        op: Op::Index,
        deps: Vec::new(),
        lit: 0,
        buf: Vec::new(),
        accel: None,
    };
    proof {
        assert(node_wf(t.nodes@.push(nd), t.nodes@.len() as int));
    }
    let id = t.push_node(nd);
    proof {
        assert(old(t).nodes@.is_prefix_of(t.nodes@)) by {
            assert(old(t).nodes@ =~= t.nodes@.subrange(0, old(t).nodes@.len() as int));
        }
    }
    Var { id }
}

/// Creates uninitialized texture storage of the given shape and channel
/// count, as a 32-bit float value covering the whole extent.
pub fn texture(t: &mut Trace, shape: Vec<usize>, n_channels: usize) -> (r: Result<Var, Error>)
    requires
        old(t).wf(),
        forall|i: int| 0 <= i < shape@.len() ==> (#[trigger] shape@[i]) >= 1,
        1 <= n_channels,
        crate::var::product_of(shape@) * n_channels <= usize::MAX,
    ensures
        final(t).wf(),
        final(t).nodes@.len() == old(t).nodes@.len() + 1,
        old(t).nodes@.is_prefix_of(final(t).nodes@),
        final(t).backend == old(t).backend,
        final(t).schedule@ == old(t).schedule@,
        final(t).effects@ == old(t).effects@,
        forall|j: int|
            0 <= j < old(t).results@.len() ==> final(t).results@[j] == old(t).results@[j],
        match r {
            Result::Ok(v) => {
                &&& v.id as int == final(t).nodes@.len() - 1
                &&& final(t).nodes@.last().op == (Op::Texture { shape, channels: n_channels })
                &&& final(t).nodes@.last().ty is F32
                &&& final(t).nodes@.last().size as int == crate::var::product_of(shape@)
                    * n_channels
            },
            Result::Err(e) => false,
        },
{
    let total = crate::var::shape_elems(&shape, n_channels);
    let nd = Node {
        ty: VarType::F32,
        size: total,
        op: Op::Texture { shape, channels: n_channels },
        deps: Vec::new(),
        lit: 0,
        buf: Vec::new(),
        accel: None,
    };
    proof {
        assert(node_wf(t.nodes@.push(nd), t.nodes@.len() as int));
    }
    let id = t.push_node(nd);
    proof {
        assert(old(t).nodes@.is_prefix_of(t.nodes@)) by {
            assert(old(t).nodes@ =~= t.nodes@.subrange(0, old(t).nodes@.len() as int));
        }
    }
    Ok(Var { id })
}

/// For every kind and every matching scalar, a sized literal of length
/// `n` materializes to exactly `n` copies of the scalar's lane pattern:
/// ingest the scalar into trace `t1`, schedule the value (and whatever
/// else) into `t2`, and a successful evaluation of `t2` exposes those
/// lanes.
pub proof fn law_sized_literal_materializes(
    t0: Trace,
    t1: Trace,
    t2: Trace,
    k: VarType,
    s: HostScalar,
    n: usize,
    v: Var,
)
    requires
        made(t0, t1, k, HostValue::Scalar(s), Option::Some(n), Result::Ok(v)),
        t2.wf(),
        t2.nodes@ == t1.nodes@,
        t2.results@ == t1.results@,
        t2.schedule@.contains(v.id),
        crate::eval::run_store(
            t2.nodes@,
            t2.results@,
            crate::eval::needed_marks(t2),
            t2.nodes@.len() as nat,
        ) is Some,
    ensures
        crate::eval::cur_lanes(
            t2.results@,
            crate::eval::run_store(
                t2.nodes@,
                t2.results@,
                crate::eval::needed_marks(t2),
                t2.nodes@.len() as nat,
            ).unwrap(),
            v.id as int,
        ) == Option::Some(crate::sem::replicate(encode_scalar(k, s), n as nat)),
{
    crate::eval::law_literal_materializes(t2, v.id as int);
}

/// For every kind and every matching sequence, a buffer built from it
/// materializes to exactly that sequence's lane patterns, order
/// preserved, as long as no scatter in the graph targets the buffer.
pub proof fn law_buffer_round_trip(
    t0: Trace,
    t1: Trace,
    t2: Trace,
    k: VarType,
    vs: Seq<HostScalar>,
    v: Var,
)
    requires
        exists|vsv: Vec<HostScalar>|
            vsv@ == vs && made(
                t0,
                t1,
                k,
                HostValue::Sequence(vsv),
                Option::None,
                Result::Ok(v),
            ),
        t2.wf(),
        t2.nodes@ == t1.nodes@,
        t2.results@ == t1.results@,
        t2.schedule@.contains(v.id),
        forall|j: int|
            0 <= j < t2.nodes@.len() ==> !((t2.nodes@[j].op is Scatter || t2.nodes@[j].op
                is ScatterAdd) && (#[trigger] t2.nodes@[j].deps@)[1] == v.id as int),
        crate::eval::run_store(
            t2.nodes@,
            t2.results@,
            crate::eval::needed_marks(t2),
            t2.nodes@.len() as nat,
        ) is Some,
    ensures
        crate::eval::cur_lanes(
            t2.results@,
            crate::eval::run_store(
                t2.nodes@,
                t2.results@,
                crate::eval::needed_marks(t2),
                t2.nodes@.len() as nat,
            ).unwrap(),
            v.id as int,
        ) == Option::Some(vs.map_values(|x: HostScalar| encode_scalar(k, x))),
{
    crate::eval::law_buffer_materializes(t2, v.id as int);
}

/// Flushes every scheduled node through the bound backend, per the
/// evaluation contract of [`crate::eval::evaluated`]: a synchronous,
/// all-or-nothing operation.
pub fn eval(t: &mut Trace) -> (r: Result<(), Error>)
    requires
        old(t).wf(),
    ensures
        crate::eval::evaluated(*old(t), *final(t), r),
{
    t.eval()
}

} // verus!
