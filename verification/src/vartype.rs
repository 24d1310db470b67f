//! Scalar element kinds and the bit-level facts the rest of the library
//! builds on: byte widths, signedness, and the canonical lane encoding.
//!
//! Every lane of every graph value is stored as a `u64` holding the raw bit
//! pattern of one element, zero-extended to 64 bits.  A pattern is
//! *canonical* for a kind when it is strictly below the kind's modulus
//! (`2^width`); booleans additionally use only `0` and `1`.

use vstd::prelude::*;

verus! {

/// Closed enumeration of scalar element kinds.  `Void` and `F16` are
/// reserved and rejected by every constructor.
#[derive(Clone, Copy, Debug, PartialEq, Eq, Structural)]
pub enum VarType {
    Void,
    Bool,
    I8,
    U8,
    I16,
    U16,
    I32,
    U32,
    I64,
    U64,
    F16,
    F32,
    F64,
}

impl VarType {
    /// Kinds that values may actually have; `Void` and `F16` are reserved.
    pub open spec fn is_supported(self) -> bool {
        !(self is Void || self is F16)
    }

    pub open spec fn is_float(self) -> bool {
        self is F32 || self is F64
    }

    pub open spec fn is_signed_int(self) -> bool {
        self is I8 || self is I16 || self is I32 || self is I64
    }

    pub open spec fn is_unsigned_int(self) -> bool {
        self is U8 || self is U16 || self is U32 || self is U64
    }

    pub open spec fn is_int(self) -> bool {
        self.is_signed_int() || self.is_unsigned_int()
    }

    /// Width in bits of one element's payload as the lane encoding sees it.
    /// A boolean lane carries a single bit (`0` or `1`).
    pub open spec fn bits(self) -> nat {
        match self {
            VarType::Void => 0,
            VarType::Bool => 1,
            VarType::I8 => 8,
            VarType::U8 => 8,
            VarType::I16 => 16,
            VarType::U16 => 16,
            VarType::I32 => 32,
            VarType::U32 => 32,
            VarType::I64 => 64,
            VarType::U64 => 64,
            VarType::F16 => 16,
            VarType::F32 => 32,
            VarType::F64 => 64,
        }
    }

    /// Storage width in bytes; this is what bit reinterpretation compares.
    pub open spec fn bytes(self) -> nat {
        match self {
            VarType::Void => 0,
            VarType::Bool => 1,
            VarType::I8 => 1,
            VarType::U8 => 1,
            VarType::I16 => 2,
            VarType::U16 => 2,
            VarType::I32 => 4,
            VarType::U32 => 4,
            VarType::I64 => 8,
            VarType::U64 => 8,
            VarType::F16 => 2,
            VarType::F32 => 4,
            VarType::F64 => 8,
        }
    }

    /// `2^bits`: one more than the largest canonical lane pattern.
    pub open spec fn modulus(self) -> int {
        match self {
            VarType::Void => 1,
            VarType::Bool => 2,
            VarType::I8 => 0x100,
            VarType::U8 => 0x100,
            VarType::I16 => 0x1_0000,
            VarType::U16 => 0x1_0000,
            VarType::I32 => 0x1_0000_0000,
            VarType::U32 => 0x1_0000_0000,
            VarType::I64 => 0x1_0000_0000_0000_0000,
            VarType::U64 => 0x1_0000_0000_0000_0000,
            VarType::F16 => 0x1_0000,
            VarType::F32 => 0x1_0000_0000,
            VarType::F64 => 0x1_0000_0000_0000_0000,
        }
    }

    /// Signed kinds flip to negative at `2^(bits-1)`.
    pub open spec fn half_modulus(self) -> int {
        self.modulus() / 2
    }

    /// A `u64` lane holds a canonical pattern of this kind.
    pub open spec fn canonical(self, lane: u64) -> bool {
        (lane as int) < self.modulus()
    }

    /// The executable twin of [`VarType::is_supported`].
    pub fn supported(&self) -> (r: bool)
        ensures
            r == self.is_supported(),
    {
        !(matches!(*self, VarType::Void) || matches!(*self, VarType::F16))
    }

    /// The executable twin of [`VarType::is_float`].
    pub fn float_kind(&self) -> (r: bool)
        ensures
            r == self.is_float(),
    {
        matches!(*self, VarType::F32) || matches!(*self, VarType::F64)
    }

    /// The executable twin of [`VarType::is_int`].
    pub fn int_kind(&self) -> (r: bool)
        ensures
            r == self.is_int(),
    {
        self.signed_int_kind() || self.unsigned_int_kind()
    }

    /// The executable twin of [`VarType::is_signed_int`].
    pub fn signed_int_kind(&self) -> (r: bool)
        ensures
            r == self.is_signed_int(),
    {
        matches!(*self, VarType::I8) || matches!(*self, VarType::I16) || matches!(
            *self,
            VarType::I32,
        ) || matches!(*self, VarType::I64)
    }

    /// The executable twin of [`VarType::is_unsigned_int`].
    pub fn unsigned_int_kind(&self) -> (r: bool)
        ensures
            r == self.is_unsigned_int(),
    {
        matches!(*self, VarType::U8) || matches!(*self, VarType::U16) || matches!(
            *self,
            VarType::U32,
        ) || matches!(*self, VarType::U64)
    }

    /// Modulus as an executable 128-bit value (the 64-bit kinds need the
    /// extra room).
    pub fn modulus_u128(&self) -> (m: u128)
        ensures
            m == self.modulus(),
    {
        match *self {
            VarType::Void => 1,
            VarType::Bool => 2,
            VarType::I8 => 0x100,
            VarType::U8 => 0x100,
            VarType::I16 => 0x1_0000,
            VarType::U16 => 0x1_0000,
            VarType::I32 => 0x1_0000_0000,
            VarType::U32 => 0x1_0000_0000,
            VarType::I64 => 0x1_0000_0000_0000_0000,
            VarType::U64 => 0x1_0000_0000_0000_0000,
            VarType::F16 => 0x1_0000,
            VarType::F32 => 0x1_0000_0000,
            VarType::F64 => 0x1_0000_0000_0000_0000,
        }
    }

    /// Bit width as an executable value.
    pub fn bits_u64(&self) -> (b: u64)
        ensures
            b == self.bits(),
    {
        match *self {
            VarType::Void => 0,
            VarType::Bool => 1,
            VarType::I8 => 8,
            VarType::U8 => 8,
            VarType::I16 => 16,
            VarType::U16 => 16,
            VarType::I32 => 32,
            VarType::U32 => 32,
            VarType::I64 => 64,
            VarType::U64 => 64,
            VarType::F16 => 16,
            VarType::F32 => 32,
            VarType::F64 => 64,
        }
    }

    /// Byte width as an executable value.
    pub fn bytes_usize(&self) -> (b: usize)
        ensures
            b == self.bytes(),
    {
        match *self {
            VarType::Void => 0,
            VarType::Bool => 1,
            VarType::I8 => 1,
            VarType::U8 => 1,
            VarType::I16 => 2,
            VarType::U16 => 2,
            VarType::I32 => 4,
            VarType::U32 => 4,
            VarType::I64 => 8,
            VarType::U64 => 8,
            VarType::F16 => 2,
            VarType::F32 => 4,
            VarType::F64 => 8,
        }
    }
}

} // verus!
