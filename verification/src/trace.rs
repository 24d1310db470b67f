//! The graph container: node records, the well-formedness invariant every
//! operation preserves, and the trace object that owns the node arena, the
//! schedule set and the backend binding.
//!
//! Nodes are held in an arena and addressed by index; an operation only
//! ever references nodes that already exist, so the graph is acyclic by
//! construction and the arena is append-only between evaluations.

use vstd::prelude::*;
use crate::sem::{BinOp, TernOp, UnOp};
use crate::vartype::VarType;

verus! {

/// The validated contents of an acceleration-structure node: geometry
/// buffers by node id, instances, and the shader binding table groups.
pub struct AccelData {
    /// For each triangle geometry, the vertex and index buffer node ids.
    pub geometries: Vec<(usize, usize)>,
    pub instances: Vec<crate::funcs::InstanceDesc>,
    pub hit_groups: Vec<crate::funcs::HitGroupDesc>,
    pub miss_groups: Vec<crate::funcs::MissGroupDesc>,
}

/// The operation a node performs.
pub enum Op {
    /// A sized literal: `size` copies of the `lit` pattern.
    Literal,
    /// An uploaded buffer: exactly the lanes of `buf`.
    Buffer,
    /// The first `size` naturals, as unsigned 32-bit lanes.
    Index,
    /// Uninitialized texture storage of the given shape.
    Texture { shape: Vec<usize>, channels: usize },
    /// Numeric conversion of the operand to this node's kind.
    Cast,
    /// Bit reinterpretation of the operand under this node's kind.
    Bitcast,
    /// An elementwise binary operation over two broadcast operands.
    Binary { op: BinOp },
    /// An elementwise unary operation.
    Unary { op: UnOp },
    /// An elementwise ternary operation (`deps` order for `Select`:
    /// condition, then-value, else-value).
    Tern { op: TernOp },
    /// Reads source lanes at index positions: `deps` are source, index,
    /// mask.
    Gather,
    /// Writes source lanes at index positions into a buffer node: `deps`
    /// are source, destination, index, mask.
    Scatter,
    /// As `Scatter`, but written lanes accumulate with wrapping addition.
    ScatterAdd,
    /// The indices of the set lanes of a boolean operand.
    Compress,
    /// Reinterprets a buffer as a texture of the given shape.
    ToTexture { shape: Vec<usize>, channels: usize },
    /// Reads a texture's lanes back as a buffer.
    TexToBuffer,
    /// Samples one channel of a texture at floating-point coordinates:
    /// `deps` are the texture, then one coordinate node per dimension.
    TexLookup { channel: usize },
    /// An acceleration structure built from the descriptor in `accel`;
    /// `deps` are the geometry vertex and index buffers.
    Accel,
    /// One result slot of a ray query: the payload slots first, then the
    /// updated hit distance; `deps` are the acceleration structure and the
    /// coerced ray arguments.
    TraceRay { slot: usize },
}

/// One graph value: its kind, logical element count, operation, operand
/// node ids, operation payload.  Materialized lanes live beside the arena
/// in [`Trace::results`], index for index.
pub struct Node {
    pub ty: VarType,
    pub size: usize,
    pub op: Op,
    pub deps: Vec<usize>,
    pub lit: u64,
    pub buf: Vec<u64>,
    pub accel: Option<AccelData>,
}

/// The backends this library can bind.  The reference backend is a
/// deterministic host-side interpreter of the integer, boolean and
/// bit-level operations.
#[derive(Clone, Copy, Debug, PartialEq, Eq, Structural)]
pub enum Backend {
    Reference,
}

/// All lanes of a sequence are canonical patterns of the kind.
pub open spec fn lanes_canonical(k: VarType, s: Seq<u64>) -> bool {
    forall|i: int| 0 <= i < s.len() ==> k.canonical(#[trigger] s[i])
}

/// Structural well-formedness of node `i` within the arena: operands
/// strictly precede it, kinds agree with the operation, and every stored
/// lane is canonical.
pub open spec fn node_wf(nodes: Seq<Node>, i: int) -> bool {
    let nd = nodes[i];
    &&& nd.ty.is_supported()
    &&& (forall|j: int| 0 <= j < nd.deps@.len() ==> (#[trigger] nd.deps@[j]) < i)
    &&& match nd.op {
        Op::Literal => nd.ty.canonical(nd.lit) && nd.deps@.len() == 0,
        Op::Buffer => nd.buf@.len() == nd.size && lanes_canonical(nd.ty, nd.buf@)
            && nd.deps@.len() == 0,
        Op::Index => nd.ty is U32 && nd.size <= 0xFFFF_FFFF && nd.deps@.len() == 0,
        Op::Texture { .. } => nd.deps@.len() == 0,
        Op::Cast => nd.deps@.len() == 1,
        Op::Bitcast => nd.deps@.len() == 1 && nodes[nd.deps@[0] as int].ty.bytes()
            == nd.ty.bytes() && nd.ty.modulus() >= nodes[nd.deps@[0] as int].ty.modulus(),
        Op::Binary { op } => nd.deps@.len() == 2 && {
            let k = nodes[nd.deps@[0] as int].ty;
            nodes[nd.deps@[1] as int].ty == k && op.kind_ok(k) && nd.ty == op.result_type(k)
        },
        Op::Unary { op } => nd.deps@.len() == 1 && op.kind_ok(nd.ty) && nodes[nd.deps@[0] as int].ty
            == nd.ty,
        Op::Tern { op } => nd.deps@.len() == 3 && match op {
            TernOp::Fma => (nd.ty.is_int() || nd.ty.is_float()) && nodes[nd.deps@[0] as int].ty
                == nd.ty && nodes[nd.deps@[1] as int].ty == nd.ty && nodes[nd.deps@[2] as int].ty
                == nd.ty,
            TernOp::Select => nodes[nd.deps@[0] as int].ty is Bool && nodes[nd.deps@[1] as int].ty
                == nd.ty && nodes[nd.deps@[2] as int].ty == nd.ty,
        },
        Op::Gather => nd.deps@.len() == 3 && nodes[nd.deps@[0] as int].ty == nd.ty
            && nodes[nd.deps@[1] as int].ty is U32 && nodes[nd.deps@[2] as int].ty is Bool,
        Op::Scatter | Op::ScatterAdd => nd.deps@.len() == 4 && nd.size == 0 && {
            let dst = nd.deps@[1] as int;
            &&& nodes[dst].op is Buffer
            &&& nodes[nd.deps@[0] as int].ty == nodes[dst].ty
            &&& nd.ty == nodes[dst].ty
            &&& nodes[nd.deps@[2] as int].ty is U32
            &&& nodes[nd.deps@[3] as int].ty is Bool
            &&& (nd.op is ScatterAdd ==> nodes[dst].ty.is_int())
        },
        Op::Compress => nd.deps@.len() == 1 && nd.ty is U32 && nodes[nd.deps@[0] as int].ty
            is Bool,
        Op::ToTexture { .. } => nd.deps@.len() == 1 && nodes[nd.deps@[0] as int].ty == nd.ty,
        Op::TexToBuffer => nd.deps@.len() == 1 && nodes[nd.deps@[0] as int].ty == nd.ty,
        Op::TexLookup { .. } => nd.deps@.len() >= 1,
        Op::Accel => nd.size == 0,
        Op::TraceRay { .. } => nd.deps@.len() >= 1,
    }
}

/// The process-wide graph registry: the node arena, the set of nodes
/// scheduled as outputs of the next evaluation, the pending side-effect
/// nodes (scatters), and the bound backend.
pub struct Trace {
    pub nodes: Vec<Node>,
    /// The materialized lanes of each node, `None` until a backend has
    /// produced them.
    pub results: Vec<Option<Vec<u64>>>,
    pub schedule: Vec<usize>,
    pub effects: Vec<usize>,
    pub backend: Option<Backend>,
}

impl Trace {
    /// The invariant every public operation preserves.
    pub open spec fn wf(self) -> bool {
        &&& (forall|i: int| 0 <= i < self.nodes@.len() ==> node_wf(self.nodes@, i))
        &&& self.results@.len() == self.nodes@.len()
        &&& (forall|i: int|
            0 <= i < self.results@.len() ==> match #[trigger] self.results@[i] {
                Option::Some(r) => lanes_canonical(self.nodes@[i].ty, r@),
                Option::None => true,
            })
        &&& (forall|i: int|
            0 <= i < self.schedule@.len() ==> (#[trigger] self.schedule@[i]) < self.nodes@.len())
        &&& (forall|i: int|
            0 <= i < self.effects@.len() ==> (#[trigger] self.effects@[i]) < self.nodes@.len())
    }

    /// A fresh, empty trace with no backend bound.
    pub fn new() -> (t: Trace)
        ensures
            t.wf(),
            t.nodes@.len() == 0,
            t.schedule@.len() == 0,
            t.effects@.len() == 0,
            t.backend is None,
    {
        Trace {
            nodes: Vec::new(),
            results: Vec::new(),
            schedule: Vec::new(),
            effects: Vec::new(),
            backend: None,
        }
    }

    /// Appends a node whose record is well formed at the next index;
    /// everything already in the trace is untouched.
    pub(crate) fn push_node(&mut self, nd: Node) -> (id: usize)
        requires
            old(self).wf(),
            node_wf(old(self).nodes@.push(nd), old(self).nodes@.len() as int),
        ensures
            final(self).wf(),
            id == old(self).nodes@.len(),
            final(self).nodes@ == old(self).nodes@.push(nd),
            final(self).results@ == old(self).results@.push(Option::None),
            final(self).schedule@ == old(self).schedule@,
            final(self).effects@ == old(self).effects@,
            final(self).backend == old(self).backend,
    {
        let id = self.nodes.len();
        self.nodes.push(nd);
        self.results.push(None);
        proof {
            assert(forall|i: int|
                0 <= i < old(self).nodes@.len() ==> node_wf(old(self).nodes@, i) ==> node_wf(
                    self.nodes@,
                    i,
                )) by {
                assert(forall|i: int, j: int|
                    0 <= i < old(self).nodes@.len() && 0 <= j
                        < old(self).nodes@[i].deps@.len() ==> (#[trigger] old(
                        self,
                    ).nodes@[i].deps@[j]) < old(self).nodes@.len() || true);
            }
            assert(forall|i: int| 0 <= i < self.nodes@.len() ==> node_wf(self.nodes@, i)) by {
                assert(forall|i: int|
                    0 <= i < old(self).nodes@.len() ==> self.nodes@[i] == old(self).nodes@[i]);
            }
        }
        id
    }

    /// Records a node as a pending side effect, to be carried out by the
    /// next evaluation.
    pub(crate) fn push_effect(&mut self, id: usize)
        requires
            old(self).wf(),
            id < old(self).nodes@.len(),
        ensures
            final(self).wf(),
            final(self).nodes@ == old(self).nodes@,
            final(self).results@ == old(self).results@,
            final(self).schedule@ == old(self).schedule@,
            final(self).backend == old(self).backend,
            final(self).effects@ == old(self).effects@.push(id),
    {
        self.effects.push(id);
    }

    /// The kind of a node.
    pub fn node_ty(&self, id: usize) -> (k: VarType)
        requires
            id < self.nodes@.len(),
        ensures
            k == self.nodes@[id as int].ty,
    {
        self.nodes[id].ty
    }

    /// The logical element count of a node.
    pub fn node_size(&self, id: usize) -> (n: usize)
        requires
            id < self.nodes@.len(),
        ensures
            n == self.nodes@[id as int].size,
    {
        self.nodes[id].size
    }

    /// Whether the schedule set already holds a node.
    pub fn scheduled(&self, id: usize) -> (r: bool)
        ensures
            r == self.schedule@.contains(id),
    {
        let mut i: usize = 0;
        while i < self.schedule.len()
            invariant
                i <= self.schedule@.len(),
                forall|j: int| 0 <= j < i ==> self.schedule@[j] != id,
            decreases self.schedule@.len() - i,
        {
            if self.schedule[i] == id {
                proof {
                    assert(self.schedule@.contains(id));
                }
                return true;
            }
            i = i + 1;
        }
        false
    }

    /// Marks a node as a required output of the next evaluation.  The
    /// operation is idempotent: scheduling a node twice changes nothing,
    /// and only the set of scheduled ids matters to evaluation.
    pub fn schedule_node(&mut self, id: usize)
        requires
            old(self).wf(),
            id < old(self).nodes@.len(),
        ensures
            final(self).wf(),
            final(self).nodes@ == old(self).nodes@,
            final(self).results@ == old(self).results@,
            final(self).effects@ == old(self).effects@,
            final(self).backend == old(self).backend,
            final(self).schedule@ == if old(self).schedule@.contains(id) {
                old(self).schedule@
            } else {
                old(self).schedule@.push(id)
            },
            final(self).schedule@.contains(id),
    {
        if !self.scheduled(id) {
            self.schedule.push(id);
            proof {
                assert(self.schedule@[self.schedule@.len() - 1] == id);
            }
        }
    }
}

} // verus!
