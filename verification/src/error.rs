//! The error taxonomy surfaced at the call boundary.  Every failure is a
//! typed, recoverable value; verified functions never panic.

use vstd::prelude::*;
use crate::vartype::VarType;

verus! {

/// What shape of host value an ingestion call was handed; named in
/// [`Error::TypeMismatch`] so the failure reports both sides.
#[derive(Clone, Copy, Debug, PartialEq, Eq, Structural)]
pub enum HostKind {
    /// An existing graph value of the given kind.
    Node(VarType),
    /// A plain boolean scalar.
    Bool,
    /// A signed integer scalar.
    Int,
    /// An unsigned integer scalar.
    UInt,
    /// A 32-bit floating-point scalar, carried as its bit pattern.
    F32Bits,
    /// A 64-bit floating-point scalar, carried as its bit pattern.
    F64Bits,
    /// A sequence of scalars.
    Sequence,
    /// A typed array whose elements are of the given kind.
    Array(VarType),
}

/// Why the backend could not carry out a request.
#[derive(Clone, Copy, Debug, PartialEq, Eq, Structural)]
pub enum BackendErrorKind {
    /// The name handed to backend selection is not one of the available
    /// backends.
    UnknownBackend,
    /// Evaluation was requested while no backend is bound.
    NoBackend,
    /// The flushed graph holds an operation the bound backend cannot run
    /// (for the reference backend: anything needing floating-point
    /// arithmetic, texture sampling or ray queries).
    UnsupportedOp,
    /// The backend hit a fault while running (division by zero, an index
    /// lane out of range).
    ExecutionFault,
    /// A readback was requested of a value that has not been materialized.
    NotMaterialized,
}

/// Why an acceleration-structure descriptor was rejected as a whole.
#[derive(Clone, Copy, Debug, PartialEq, Eq, Structural)]
pub enum DescriptorErrorKind {
    /// An instance names a geometry id at or past the geometry count.
    GeometryOutOfRange,
    /// An instance names a hit group id at or past the hit-group count.
    HitGroupOutOfRange,
    /// A hit group was handed a module source without its entry point, or
    /// an entry point without its source.
    InconsistentModule,
}

/// Recoverable failures of the graph-building boundary.
#[derive(Clone, Copy, Debug, PartialEq, Eq, Structural)]
pub enum Error {
    /// A host value could not be coerced to the requested kind; both sides
    /// are named.
    TypeMismatch { expected: VarType, found: HostKind },
    /// A reserved kind (`Void`, `F16`) was requested, or an operation was
    /// asked of a kind it is not defined for.
    UnsupportedType { ty: VarType },
    /// The backend refused or failed; see the kind.
    BackendError { kind: BackendErrorKind },
    /// An acceleration-structure descriptor failed cross-reference
    /// validation; see the kind.
    DescriptorError { kind: DescriptorErrorKind },
    /// Two operands' element counts cannot be broadcast together, or a
    /// reshape does not cover the value exactly.
    SizeMismatch { expected: usize, found: usize },
}

} // verus!
