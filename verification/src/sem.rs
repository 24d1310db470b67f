//! Lane-level semantics of the operations the graph can hold.
//!
//! A lane is one element of a vectorized value, stored as the raw bit
//! pattern in a `u64` (see [`crate::vartype`]).  The spec functions here say
//! exactly what pattern each operation produces; the executable helpers are
//! proved against them and drive the reference backend in
//! [`crate::trace`].  Operations whose result needs floating-point
//! arithmetic have no lane semantics here: the reference backend reports
//! them as unsupported, and only bit-moving operations (literals, buffers,
//! reinterpretation, select, gather, scatter) touch float-kind lanes.

use vstd::prelude::*;
use vstd::arithmetic::div_mod::{
    lemma_fundamental_div_mod, lemma_fundamental_div_mod_converse, lemma_mod_add_multiples_vanish,
    lemma_mod_bound, lemma_mod_multiples_basic, lemma_small_mod,
};
use vstd::arithmetic::power2::pow2;
use vstd::arithmetic::power2::lemma_pow2_unfold;
use vstd::arithmetic::power2::lemma_pow2_pos;
use crate::vartype::VarType;

verus! {

/// The mathematical value a canonical lane pattern denotes: the pattern
/// itself for unsigned and boolean kinds, the two's-complement reading for
/// signed integer kinds.
pub open spec fn decode(k: VarType, a: u64) -> int {
    if k.is_signed_int() && a as int >= k.half_modulus() {
        a - k.modulus()
    } else {
        a as int
    }
}

/// The canonical lane pattern of an integer value, reduced into the kind's
/// range: exactly two's-complement truncation to the kind's width.
pub open spec fn encode(k: VarType, v: int) -> u64 {
    (v % k.modulus()) as u64
}

/// `encode` always yields a canonical pattern.
pub proof fn lemma_encode_canonical(k: VarType, v: int)
    ensures
        k.canonical(encode(k, v)),
        0 <= v % k.modulus() < k.modulus(),
{
    lemma_mod_bound(v, k.modulus());
}

/// On canonical patterns, `encode` undoes `decode`.
pub proof fn lemma_encode_decode(k: VarType, a: u64)
    requires
        k.canonical(a),
    ensures
        encode(k, decode(k, a)) == a,
{
    if k.is_signed_int() && a as int >= k.half_modulus() {
        lemma_mod_add_multiples_vanish(a as int - k.modulus(), k.modulus());
        lemma_small_mod(a as nat, k.modulus() as nat);
    } else {
        lemma_small_mod(a as nat, k.modulus() as nat);
    }
}

/// `decode` undoes `encode` for any value inside the kind's own range.
pub proof fn lemma_decode_encode(k: VarType, v: int)
    requires
        k.is_int(),
        in_range(k, v),
    ensures
        decode(k, encode(k, v)) == v,
{
    let m = k.modulus();
    if 0 <= v {
        lemma_small_mod(v as nat, m as nat);
    } else {
        lemma_mod_add_multiples_vanish(v, m);
        lemma_small_mod((v + m) as nat, m as nat);
    }
}

/// The values an integer kind can represent.
pub open spec fn in_range(k: VarType, v: int) -> bool {
    if k.is_signed_int() {
        -k.half_modulus() <= v < k.half_modulus()
    } else {
        0 <= v < k.modulus()
    }
}

/// Binary operations on two lanes of a common kind.  Comparisons produce
/// boolean lanes; everything else stays in the operands' kind.
#[derive(Clone, Copy, Debug, PartialEq, Eq, Structural)]
pub enum BinOp {
    Add,
    Sub,
    Mul,
    Div,
    Mod,
    And,
    Or,
    Xor,
    Shl,
    Shr,
    Min,
    Max,
    Eq,
    Neq,
    Lt,
    Le,
    Gt,
    Ge,
}

/// Unary operations on one lane.  The transcendental and rounding entries
/// are defined on float kinds only and are left to a numeric backend.
#[derive(Clone, Copy, Debug, PartialEq, Eq, Structural)]
pub enum UnOp {
    Neg,
    Not,
    Abs,
    Popc,
    Clz,
    Ctz,
    Rcp,
    Rsqrt,
    Sin,
    Cos,
    Exp2,
    Log2,
    Floor,
    Ceil,
    Trunc,
}

/// Ternary operations.
#[derive(Clone, Copy, Debug, PartialEq, Eq, Structural)]
pub enum TernOp {
    Fma,
    Select,
}

impl BinOp {
    /// The kinds an operation accepts when the node is built.
    pub open spec fn kind_ok(self, k: VarType) -> bool {
        match self {
            BinOp::Add | BinOp::Sub | BinOp::Mul | BinOp::Div | BinOp::Mod | BinOp::Min
                | BinOp::Max | BinOp::Lt | BinOp::Le | BinOp::Gt | BinOp::Ge => k.is_int()
                || k.is_float(),
            BinOp::And | BinOp::Or | BinOp::Xor => k is Bool || k.is_int(),
            BinOp::Shl | BinOp::Shr => k.is_int(),
            BinOp::Eq | BinOp::Neq => k.is_supported(),
        }
    }

    /// Comparisons yield boolean lanes.
    pub open spec fn result_type(self, k: VarType) -> VarType {
        match self {
            BinOp::Eq | BinOp::Neq | BinOp::Lt | BinOp::Le | BinOp::Gt | BinOp::Ge =>
                VarType::Bool,
            _ => k,
        }
    }

    /// Executable twin of [`BinOp::kind_ok`].
    pub fn kind_ok_x(&self, k: VarType) -> (r: bool)
        ensures
            r == self.kind_ok(k),
    {
        match *self {
            BinOp::Add | BinOp::Sub | BinOp::Mul | BinOp::Div | BinOp::Mod | BinOp::Min
                | BinOp::Max | BinOp::Lt | BinOp::Le | BinOp::Gt | BinOp::Ge => k.int_kind()
                || k.float_kind(),
            BinOp::And | BinOp::Or | BinOp::Xor => matches!(k, VarType::Bool) || k.int_kind(),
            BinOp::Shl | BinOp::Shr => k.int_kind(),
            BinOp::Eq | BinOp::Neq => k.supported(),
        }
    }

    /// Executable twin of [`BinOp::result_type`].
    pub fn result_type_x(&self, k: VarType) -> (r: VarType)
        ensures
            r == self.result_type(k),
    {
        match *self {
            BinOp::Eq | BinOp::Neq | BinOp::Lt | BinOp::Le | BinOp::Gt | BinOp::Ge =>
                VarType::Bool,
            _ => k,
        }
    }
}

impl UnOp {
    /// The kinds an operation accepts when the node is built.
    pub open spec fn kind_ok(self, k: VarType) -> bool {
        match self {
            UnOp::Neg => k.is_int() || k.is_float(),
            UnOp::Not => k is Bool || k.is_int(),
            UnOp::Abs => k.is_int() || k.is_float(),
            UnOp::Popc | UnOp::Clz | UnOp::Ctz => k.is_int(),
            UnOp::Rcp | UnOp::Rsqrt | UnOp::Sin | UnOp::Cos | UnOp::Exp2 | UnOp::Log2
                | UnOp::Floor | UnOp::Ceil | UnOp::Trunc => k.is_float(),
        }
    }

    /// Executable twin of [`UnOp::kind_ok`].
    pub fn kind_ok_x(&self, k: VarType) -> (r: bool)
        ensures
            r == self.kind_ok(k),
    {
        match *self {
            UnOp::Neg => k.int_kind() || k.float_kind(),
            UnOp::Not => matches!(k, VarType::Bool) || k.int_kind(),
            UnOp::Abs => k.int_kind() || k.float_kind(),
            UnOp::Popc | UnOp::Clz | UnOp::Ctz => k.int_kind(),
            UnOp::Rcp | UnOp::Rsqrt | UnOp::Sin | UnOp::Cos | UnOp::Exp2 | UnOp::Log2
                | UnOp::Floor | UnOp::Ceil | UnOp::Trunc => k.float_kind(),
        }
    }
}

/// Truncated (round-toward-zero) division, the semantics of integer
/// division lanes.
pub open spec fn tdiv(a: int, b: int) -> int {
    if (a < 0) == (b < 0) {
        abs_int(a) / abs_int(b)
    } else {
        -(abs_int(a) / abs_int(b))
    }
}

/// Remainder matching [`tdiv`]: it carries the dividend's sign.
pub open spec fn tmod(a: int, b: int) -> int {
    if a < 0 {
        -(abs_int(a) % abs_int(b))
    } else {
        abs_int(a) % abs_int(b)
    }
}

pub open spec fn abs_int(a: int) -> int {
    if a < 0 {
        -a
    } else {
        a
    }
}

/// Number of set bits among the low `w` bits.
pub open spec fn popcount(w: nat, a: int) -> int
    decreases w,
{
    if w == 0 {
        0
    } else {
        a % 2 + popcount((w - 1) as nat, a / 2)
    }
}

/// Trailing zero count over `w` bits (`w` when no bit is set).
pub open spec fn ctz_count(w: nat, a: int) -> int
    decreases w,
{
    if w == 0 {
        0
    } else if a % 2 == 1 {
        0
    } else {
        1 + ctz_count((w - 1) as nat, a / 2)
    }
}

/// Leading zero count over `w` bits (`w` when no bit is set).
pub open spec fn clz_count(w: nat, a: int) -> int
    decreases w,
{
    if w == 0 {
        0
    } else if a / (pow2((w - 1) as nat) as int) >= 1 {
        0
    } else {
        1 + clz_count((w - 1) as nat, a)
    }
}

/// What one binary-operation lane evaluates to on the reference backend:
/// `None` where that backend cannot run it (float arithmetic) or where the
/// run faults (division by zero).
pub open spec fn binop_sem(op: BinOp, k: VarType, a: u64, b: u64) -> Option<u64> {
    if k.is_float() {
        None
    } else if k is Bool {
        match op {
            BinOp::And => Some(bool_lane(a != 0 && b != 0)),
            BinOp::Or => Some(bool_lane(a != 0 || b != 0)),
            BinOp::Xor => Some(bool_lane((a != 0) != (b != 0))),
            BinOp::Eq => Some(bool_lane(a == b)),
            BinOp::Neq => Some(bool_lane(a != b)),
            _ => None,
        }
    } else {
        match op {
            BinOp::Add => Some(encode(k, a + b)),
            BinOp::Sub => Some(encode(k, a - b)),
            BinOp::Mul => Some(encode(k, a * b)),
            BinOp::Div => if decode(k, b) == 0 {
                None
            } else {
                Some(encode(k, tdiv(decode(k, a), decode(k, b))))
            },
            BinOp::Mod => if decode(k, b) == 0 {
                None
            } else {
                Some(encode(k, tmod(decode(k, a), decode(k, b))))
            },
            BinOp::And => Some(a & b),
            BinOp::Or => Some(a | b),
            BinOp::Xor => Some(a ^ b),
            BinOp::Shl => Some(encode(k, a * (pow2(((b as int) % (k.bits() as int)) as nat) as int))),
            BinOp::Shr => Some(
                encode(k, decode(k, a) / (pow2(((b as int) % (k.bits() as int)) as nat) as int)),
            ),
            BinOp::Min => if decode(k, a) <= decode(k, b) {
                Some(a)
            } else {
                Some(b)
            },
            BinOp::Max => if decode(k, a) >= decode(k, b) {
                Some(a)
            } else {
                Some(b)
            },
            BinOp::Eq => Some(bool_lane(a == b)),
            BinOp::Neq => Some(bool_lane(a != b)),
            BinOp::Lt => Some(bool_lane(decode(k, a) < decode(k, b))),
            BinOp::Le => Some(bool_lane(decode(k, a) <= decode(k, b))),
            BinOp::Gt => Some(bool_lane(decode(k, a) > decode(k, b))),
            BinOp::Ge => Some(bool_lane(decode(k, a) >= decode(k, b))),
        }
    }
}

pub open spec fn bool_lane(b: bool) -> u64 {
    if b {
        1u64
    } else {
        0u64
    }
}

/// What one unary-operation lane evaluates to on the reference backend.
pub open spec fn unop_sem(op: UnOp, k: VarType, a: u64) -> Option<u64> {
    if k.is_float() {
        None
    } else if k is Bool {
        match op {
            UnOp::Not => Some(bool_lane(a == 0)),
            _ => None,
        }
    } else {
        match op {
            UnOp::Neg => Some(encode(k, -(a as int))),
            UnOp::Not => Some(encode(k, k.modulus() - 1 - a)),
            UnOp::Abs => Some(encode(k, abs_int(decode(k, a)))),
            UnOp::Popc => Some(encode(k, popcount(k.bits(), a as int))),
            UnOp::Clz => Some(encode(k, clz_count(k.bits(), a as int))),
            UnOp::Ctz => Some(encode(k, ctz_count(k.bits(), a as int))),
            _ => None,
        }
    }
}

/// What one ternary-operation lane evaluates to on the reference backend.
/// `Select` moves bits and is defined for every kind; fused multiply-add
/// needs arithmetic and is integer-only here.
pub open spec fn ternop_sem(op: TernOp, k: VarType, a: u64, b: u64, c: u64) -> Option<u64> {
    match op {
        TernOp::Select => Some(
            if a != 0 {
                b
            } else {
                c
            },
        ),
        TernOp::Fma => if k.is_int() {
            Some(encode(k, a * b + c))
        } else {
            None
        },
    }
}

/// What a numeric cast lane evaluates to on the reference backend: exact
/// conversion between the integer and boolean kinds, two's-complement
/// truncation where the value does not fit; casts touching a float kind
/// need numeric work and are left to a numeric backend.
pub open spec fn cast_sem(from: VarType, to: VarType, a: u64) -> Option<u64> {
    if from.is_float() || to.is_float() {
        None
    } else if to is Bool {
        Some(bool_lane(a != 0))
    } else {
        Some(encode(to, decode(from, a)))
    }
}

/// The modulus of a kind is two to its bit width.
pub proof fn lemma_modulus_pow2(k: VarType)
    requires
        k.is_supported(),
    ensures
        k.modulus() == pow2(k.bits()),
{
    vstd::arithmetic::power2::lemma2_to64();
    vstd::arithmetic::power2::lemma2_to64_rest();
}

/// Executable `2^e` for exponents that fit a lane width.
pub fn pow2_u64(e: u64) -> (p: u64)
    requires
        e <= 63,
    ensures
        p == pow2(e as nat),
{
    let mut p: u64 = 1;
    let mut j: u64 = 0;
    proof {
        vstd::arithmetic::power2::lemma2_to64();
        vstd::arithmetic::power2::lemma2_to64_rest();
    }
    while j < e
        invariant
            j <= e <= 63,
            p == pow2(j as nat),
        decreases e - j,
    {
        proof {
            lemma_pow2_unfold((j + 1) as nat);
            vstd::arithmetic::power2::lemma_pow2_strictly_increases(j as nat, 63);
            vstd::arithmetic::power2::lemma2_to64_rest();
        }
        p = p * 2;
        j = j + 1;
    }
    p
}

/// Executable two's-complement reading of a canonical lane.
pub fn decode_i128(k: VarType, a: u64) -> (v: i128)
    requires
        k.canonical(a),
    ensures
        v == decode(k, a),
{
    if k.signed_int_kind() {
        let m = k.modulus_u128();
        let h = m / 2;
        if (a as u128) >= h {
            a as i128 - m as i128
        } else {
            a as i128
        }
    } else {
        a as i128
    }
}

/// Executable reduction of an integer value to its canonical lane.
pub fn encode_i128(k: VarType, v: i128) -> (r: u64)
    requires
        k.is_supported(),
        -0x1_0000_0000_0000_0000 <= v <= 0x1_0000_0000_0000_0000,
    ensures
        r == encode(k, v as int),
        k.canonical(r),
{
    let m = k.modulus_u128();
    proof {
        lemma_encode_canonical(k, v as int);
    }
    if v >= 0 {
        ((v as u128) % m) as u64
    } else {
        let mag = (-v) as u128;
        let r0 = mag % m;
        proof {
            lemma_fundamental_div_mod(mag as int, m as int);
        }
        if r0 == 0 {
            proof {
                lemma_mod_multiples_basic(-((mag as int) / (m as int)), m as int);
            }
            0u64
        } else {
            proof {
                lemma_fundamental_div_mod_converse(
                    v as int,
                    m as int,
                    -((mag as int) / (m as int)) - 1,
                    m as int - r0 as int,
                );
            }
            (m - r0) as u64
        }
    }
}

/// One binary-operation lane of the reference backend, proved against
/// [`binop_sem`].
#[verifier::rlimit(50)]
pub fn lane_binop(op: BinOp, k: VarType, a: u64, b: u64) -> (r: Option<u64>)
    requires
        k.is_supported(),
        k.canonical(a),
        k.canonical(b),
    ensures
        r == binop_sem(op, k, a, b),
        r is Some ==> op.result_type(k).canonical(r.unwrap()),
{
    let m = k.modulus_u128();
    if k.float_kind() {
        None
    } else if matches!(k, VarType::Bool) {
        match op {
            BinOp::And => Some(if a != 0 && b != 0 { 1 } else { 0 }),
            BinOp::Or => Some(if a != 0 || b != 0 { 1 } else { 0 }),
            BinOp::Xor => Some(if (a != 0) != (b != 0) { 1 } else { 0 }),
            BinOp::Eq => Some(if a == b { 1 } else { 0 }),
            BinOp::Neq => Some(if a != b { 1 } else { 0 }),
            _ => None,
        }
    } else {
        match op {
            BinOp::Add => {
                proof { lemma_encode_canonical(k, a + b); }
                Some(((a as u128 + b as u128) % m) as u64)
            },
            BinOp::Sub => {
                proof {
                    lemma_encode_canonical(k, a - b);
                    lemma_mod_add_multiples_vanish(a - b, m as int);
                }
                Some(((a as u128 + m - b as u128) % m) as u64)
            },
            BinOp::Mul => {
                proof {
                    lemma_encode_canonical(k, (a as int) * (b as int));
                    assert((a as u128) * (b as u128) <= 0xFFFF_FFFF_FFFF_FFFFu128
                        * 0xFFFF_FFFF_FFFF_FFFFu128) by (nonlinear_arith)
                        requires a as u128 <= 0xFFFF_FFFF_FFFF_FFFFu128
                            && b as u128 <= 0xFFFF_FFFF_FFFF_FFFFu128;
                }
                Some(((a as u128 * b as u128) % m) as u64)
            },
            BinOp::Div => {
                let da = decode_i128(k, a);
                let db = decode_i128(k, b);
                if db == 0 {
                    None
                } else {
                    let ua: u128 = if da < 0 { (-da) as u128 } else { da as u128 };
                    let ub: u128 = if db < 0 { (-db) as u128 } else { db as u128 };
                    let q = ua / ub;
                    let qv: i128 = if (da < 0) == (db < 0) { q as i128 } else { -(q as i128) };
                    Some(encode_i128(k, qv))
                }
            },
            BinOp::Mod => {
                let da = decode_i128(k, a);
                let db = decode_i128(k, b);
                if db == 0 {
                    None
                } else {
                    let ua: u128 = if da < 0 { (-da) as u128 } else { da as u128 };
                    let ub: u128 = if db < 0 { (-db) as u128 } else { db as u128 };
                    let g = ua % ub;
                    let gv: i128 = if da < 0 { -(g as i128) } else { g as i128 };
                    Some(encode_i128(k, gv))
                }
            },
            BinOp::And => {
                proof { lemma_bitwise_canonical(k, a, b); }
                Some(a & b)
            },
            BinOp::Or => {
                proof { lemma_bitwise_canonical(k, a, b); }
                Some(a | b)
            },
            BinOp::Xor => {
                proof { lemma_bitwise_canonical(k, a, b); }
                Some(a ^ b)
            },
            BinOp::Shl => {
                let w = k.bits_u64();
                let s = b % w;
                let p = pow2_u64(s);
                proof {
                    lemma_encode_canonical(k, a * (pow2(s as nat) as int));
                    assert((a as u128) * (p as u128) <= 0xFFFF_FFFF_FFFF_FFFFu128
                        * 0xFFFF_FFFF_FFFF_FFFFu128) by (nonlinear_arith)
                        requires a as u128 <= 0xFFFF_FFFF_FFFF_FFFFu128
                            && p as u128 <= 0xFFFF_FFFF_FFFF_FFFFu128;
                }
                Some(((a as u128 * p as u128) % m) as u64)
            },
            BinOp::Shr => {
                let w = k.bits_u64();
                let s = b % w;
                let p = pow2_u64(s);
                let da = decode_i128(k, a);
                proof {
                    lemma_pow2_pos(s as nat);
                }
                if da >= 0 {
                    let q = (da as u128) / (p as u128);
                    Some(encode_i128(k, q as i128))
                } else {
                    let mag = (-da) as u128;
                    let q = (mag + p as u128 - 1) / (p as u128);
                    proof {
                        let ai = mag as int;
                        let pi = p as int;
                        let qi = (ai + pi - 1) / pi;
                        lemma_fundamental_div_mod(ai + pi - 1, pi);
                        lemma_mod_bound(ai + pi - 1, pi);
                        assert(pi * qi == ai + pi - 1 - (ai + pi - 1) % pi);
                        assert(-ai == (-qi) * pi + (pi * qi - ai)) by (nonlinear_arith);
                        lemma_fundamental_div_mod_converse(-ai, pi, -qi, pi * qi - ai);
                        vstd::arithmetic::div_mod::lemma_div_pos_is_pos(ai + pi - 1, pi);
                        if qi >= 1 {
                            assert(pi * qi >= qi + pi - 1) by (nonlinear_arith)
                                requires pi >= 1 && qi >= 1;
                        }
                        assert(qi <= ai);
                        assert(k.modulus() <= 0x1_0000_0000_0000_0000);
                    }
                    Some(encode_i128(k, -(q as i128)))
                }
            },
            BinOp::Min => {
                let da = decode_i128(k, a);
                let db = decode_i128(k, b);
                Some(if da <= db { a } else { b })
            },
            BinOp::Max => {
                let da = decode_i128(k, a);
                let db = decode_i128(k, b);
                Some(if da >= db { a } else { b })
            },
            BinOp::Eq => Some(if a == b { 1 } else { 0 }),
            BinOp::Neq => Some(if a != b { 1 } else { 0 }),
            BinOp::Lt => {
                let da = decode_i128(k, a);
                let db = decode_i128(k, b);
                Some(if da < db { 1 } else { 0 })
            },
            BinOp::Le => {
                let da = decode_i128(k, a);
                let db = decode_i128(k, b);
                Some(if da <= db { 1 } else { 0 })
            },
            BinOp::Gt => {
                let da = decode_i128(k, a);
                let db = decode_i128(k, b);
                Some(if da > db { 1 } else { 0 })
            },
            BinOp::Ge => {
                let da = decode_i128(k, a);
                let db = decode_i128(k, b);
                Some(if da >= db { 1 } else { 0 })
            },
        }
    }
}

/// The bitwise connectives keep lanes canonical.
proof fn lemma_bitwise_canonical(k: VarType, a: u64, b: u64)
    requires
        k.is_int(),
        k.canonical(a),
        k.canonical(b),
    ensures
        k.canonical(a & b),
        k.canonical(a | b),
        k.canonical(a ^ b),
{
    let w = k.bits();
    if w == 8 {
        assert((a & b) < 0x100 && (a | b) < 0x100 && (a ^ b) < 0x100) by (bit_vector)
            requires a < 0x100 && b < 0x100;
    } else if w == 16 {
        assert((a & b) < 0x1_0000 && (a | b) < 0x1_0000 && (a ^ b) < 0x1_0000) by (bit_vector)
            requires a < 0x1_0000 && b < 0x1_0000;
    } else if w == 32 {
        assert((a & b) < 0x1_0000_0000 && (a | b) < 0x1_0000_0000 && (a ^ b)
            < 0x1_0000_0000) by (bit_vector)
            requires a < 0x1_0000_0000 && b < 0x1_0000_0000;
    }
}

/// One unary-operation lane of the reference backend, proved against
/// [`unop_sem`].
pub fn lane_unop(op: UnOp, k: VarType, a: u64) -> (r: Option<u64>)
    requires
        k.is_supported(),
        k.canonical(a),
    ensures
        r == unop_sem(op, k, a),
        r is Some ==> k.canonical(r.unwrap()),
{
    let m = k.modulus_u128();
    if k.float_kind() {
        None
    } else if matches!(k, VarType::Bool) {
        match op {
            UnOp::Not => Some(if a == 0 { 1 } else { 0 }),
            _ => None,
        }
    } else {
        match op {
            UnOp::Neg => Some(encode_i128(k, -(a as i128))),
            UnOp::Not => {
                proof {
                    lemma_small_mod((m - 1 - a as u128) as nat, m as nat);
                }
                Some((m - 1 - a as u128) as u64)
            },
            UnOp::Abs => {
                let da = decode_i128(k, a);
                let mag: i128 = if da < 0 { -da } else { da };
                Some(encode_i128(k, mag))
            },
            UnOp::Popc => {
                let w = k.bits_u64();
                let c = popc_u64(w, a);
                Some(encode_i128(k, c as i128))
            },
            UnOp::Clz => {
                let w = k.bits_u64();
                proof {
                    lemma_modulus_pow2(k);
                }
                let c = clz_u64(w, a);
                Some(encode_i128(k, c as i128))
            },
            UnOp::Ctz => {
                let w = k.bits_u64();
                let c = ctz_u64(w, a);
                Some(encode_i128(k, c as i128))
            },
            _ => None,
        }
    }
}

/// Executable population count over the low `w` bits.
pub fn popc_u64(w: u64, a: u64) -> (c: u64)
    requires
        w <= 64,
    ensures
        c == popcount(w as nat, a as int),
{
    let mut x: u64 = a;
    let mut c: u64 = 0;
    let mut j: u64 = 0;
    while j < w
        invariant
            j <= w <= 64,
            c <= j,
            popcount(w as nat, a as int) == c + popcount((w - j) as nat, x as int),
        decreases w - j,
    {
        c = c + x % 2;
        x = x / 2;
        j = j + 1;
    }
    c
}

/// Executable trailing-zero count over the low `w` bits.
pub fn ctz_u64(w: u64, a: u64) -> (c: u64)
    requires
        w <= 64,
    ensures
        c == ctz_count(w as nat, a as int),
{
    let mut x: u64 = a;
    let mut j: u64 = 0;
    while j < w && x % 2 == 0
        invariant
            j <= w <= 64,
            ctz_count(w as nat, a as int) == j + ctz_count((w - j) as nat, x as int),
        decreases w - j,
    {
        x = x / 2;
        j = j + 1;
    }
    j
}

/// Executable leading-zero count over the low `w` bits.
pub fn clz_u64(w: u64, a: u64) -> (c: u64)
    requires
        1 <= w <= 64,
        a < pow2(w as nat),
    ensures
        c == clz_count(w as nat, a as int),
{
    let mut j: u64 = 0;
    let mut p: u64 = pow2_u64(w - 1);
    while j < w && a < p
        invariant
            j <= w,
            clz_count(w as nat, a as int) == j + clz_count((w - j) as nat, a as int),
            j < w ==> p == pow2((w - j - 1) as nat),
            j < w ==> a < pow2((w - j) as nat),
        decreases w - j,
    {
        proof {
            lemma_pow2_pos((w - j - 1) as nat);
            vstd::arithmetic::div_mod::lemma_basic_div(a as int, p as int);
            if j + 1 < w {
                lemma_pow2_unfold((w - j - 1) as nat);
            }
        }
        j = j + 1;
        if j < w {
            p = p / 2;
        }
    }
    proof {
        if j < w {
            lemma_pow2_pos((w - j - 1) as nat);
            vstd::arithmetic::div_mod::lemma_div_non_zero(a as int, p as int);
        }
    }
    j
}

/// One ternary-operation lane of the reference backend, proved against
/// [`ternop_sem`].
pub fn lane_ternop(op: TernOp, k: VarType, a: u64, b: u64, c: u64) -> (r: Option<u64>)
    requires
        k.is_supported(),
        k.canonical(b),
        k.canonical(c),
    ensures
        r == ternop_sem(op, k, a, b, c),
        r is Some ==> k.canonical(r.unwrap()),
{
    match op {
        TernOp::Select => Some(if a != 0 { b } else { c }),
        TernOp::Fma => {
            if k.int_kind() {
                let m = k.modulus_u128();
                proof {
                    lemma_encode_canonical(k, (a as int) * (b as int) + c);
                    assert((a as u128) * (b as u128) <= 0xFFFF_FFFF_FFFF_FFFFu128
                        * 0xFFFF_FFFF_FFFF_FFFFu128) by (nonlinear_arith)
                        requires a as u128 <= 0xFFFF_FFFF_FFFF_FFFFu128
                            && b as u128 <= 0xFFFF_FFFF_FFFF_FFFFu128;
                }
                Some(((a as u128 * b as u128 + c as u128) % m) as u64)
            } else {
                None
            }
        },
    }
}

/// One numeric-cast lane of the reference backend, proved against
/// [`cast_sem`].
pub fn lane_cast(from: VarType, to: VarType, a: u64) -> (r: Option<u64>)
    requires
        from.is_supported(),
        to.is_supported(),
        from.canonical(a),
    ensures
        r == cast_sem(from, to, a),
        r is Some ==> to.canonical(r.unwrap()),
{
    if from.float_kind() || to.float_kind() {
        None
    } else if matches!(to, VarType::Bool) {
        Some(if a != 0 { 1 } else { 0 })
    } else {
        let da = decode_i128(from, a);
        Some(encode_i128(to, da))
    }
}

/// Broadcast indexing: a one-element value repeats its lane across any
/// target length.
pub open spec fn lane_at(s: Seq<u64>, i: int) -> u64 {
    if s.len() == 1 {
        s[0]
    } else {
        s[i]
    }
}

/// A one-element value, or one of the target length, broadcasts to the
/// target length.
pub open spec fn broadcast_ok(len: nat, n: nat) -> bool {
    len == 1 || len == n
}

/// The lanes of an index generator: the first `n` naturals.
pub open spec fn index_lanes(n: nat) -> Seq<u64> {
    Seq::new(n, |i: int| i as u64)
}

/// The lanes of a sized literal: `n` copies of one pattern.
pub open spec fn replicate(v: u64, n: nat) -> Seq<u64> {
    Seq::new(n, |i: int| v)
}

/// Lanes of a binary operation applied across two broadcast operands;
/// `None` as soon as any lane has none.
pub open spec fn binop_lanes(op: BinOp, k: VarType, a: Seq<u64>, b: Seq<u64>, n: nat) -> Option<
    Seq<u64>,
>
    decreases n,
{
    if n == 0 {
        Some(Seq::empty())
    } else {
        match binop_lanes(op, k, a, b, (n - 1) as nat) {
            Option::None => None,
            Option::Some(s) => match binop_sem(op, k, lane_at(a, n - 1), lane_at(b, n - 1)) {
                Option::None => None,
                Option::Some(v) => Some(s.push(v)),
            },
        }
    }
}

/// Lanes of a unary operation.
pub open spec fn unop_lanes(op: UnOp, k: VarType, a: Seq<u64>, n: nat) -> Option<Seq<u64>>
    decreases n,
{
    if n == 0 {
        Some(Seq::empty())
    } else {
        match unop_lanes(op, k, a, (n - 1) as nat) {
            Option::None => None,
            Option::Some(s) => match unop_sem(op, k, lane_at(a, n - 1)) {
                Option::None => None,
                Option::Some(v) => Some(s.push(v)),
            },
        }
    }
}

/// Lanes of a ternary operation across three broadcast operands.
pub open spec fn ternop_lanes(
    op: TernOp,
    k: VarType,
    a: Seq<u64>,
    b: Seq<u64>,
    c: Seq<u64>,
    n: nat,
) -> Option<Seq<u64>>
    decreases n,
{
    if n == 0 {
        Some(Seq::empty())
    } else {
        match ternop_lanes(op, k, a, b, c, (n - 1) as nat) {
            Option::None => None,
            Option::Some(s) => match ternop_sem(
                op,
                k,
                lane_at(a, n - 1),
                lane_at(b, n - 1),
                lane_at(c, n - 1),
            ) {
                Option::None => None,
                Option::Some(v) => Some(s.push(v)),
            },
        }
    }
}

/// Lanes of a numeric cast.
pub open spec fn cast_lanes(from: VarType, to: VarType, a: Seq<u64>, n: nat) -> Option<Seq<u64>>
    decreases n,
{
    if n == 0 {
        Some(Seq::empty())
    } else {
        match cast_lanes(from, to, a, (n - 1) as nat) {
            Option::None => None,
            Option::Some(s) => match cast_sem(from, to, lane_at(a, n - 1)) {
                Option::None => None,
                Option::Some(v) => Some(s.push(v)),
            },
        }
    }
}

/// Lanes of a gather: lane `i` reads `src[idx[i]]` where the mask is set
/// and is left all-zero where it is not; a set mask lane with an index out
/// of range faults.
pub open spec fn gather_lanes(src: Seq<u64>, idx: Seq<u64>, mask: Seq<u64>, n: nat) -> Option<
    Seq<u64>,
>
    decreases n,
{
    if n == 0 {
        Some(Seq::empty())
    } else {
        match gather_lanes(src, idx, mask, (n - 1) as nat) {
            Option::None => None,
            Option::Some(s) => {
                if lane_at(mask, n - 1) == 0 {
                    Some(s.push(0u64))
                } else if lane_at(idx, n - 1) < src.len() {
                    Some(s.push(src[lane_at(idx, n - 1) as int]))
                } else {
                    None
                }
            },
        }
    }
}

/// The destination contents after a scatter: lanes are written in lane
/// order (on colliding indices the last write wins); mask-clear lanes
/// write nothing; a set mask lane with an index out of range faults.
pub open spec fn scatter_lanes(dst: Seq<u64>, src: Seq<u64>, idx: Seq<u64>, mask: Seq<u64>, n: nat)
    -> Option<Seq<u64>>
    decreases n,
{
    if n == 0 {
        Some(dst)
    } else {
        match scatter_lanes(dst, src, idx, mask, (n - 1) as nat) {
            Option::None => None,
            Option::Some(d) => {
                if lane_at(mask, n - 1) == 0 {
                    Some(d)
                } else if lane_at(idx, n - 1) < dst.len() {
                    Some(d.update(lane_at(idx, n - 1) as int, lane_at(src, n - 1)))
                } else {
                    None
                }
            },
        }
    }
}

/// The destination contents after an accumulating scatter: written lanes
/// add into the destination with the kind's wrapping addition.
pub open spec fn scatter_add_lanes(
    k: VarType,
    dst: Seq<u64>,
    src: Seq<u64>,
    idx: Seq<u64>,
    mask: Seq<u64>,
    n: nat,
) -> Option<Seq<u64>>
    decreases n,
{
    if n == 0 {
        Some(dst)
    } else {
        match scatter_add_lanes(k, dst, src, idx, mask, (n - 1) as nat) {
            Option::None => None,
            Option::Some(d) => {
                if lane_at(mask, n - 1) == 0 {
                    Some(d)
                } else if lane_at(idx, n - 1) < dst.len() {
                    let j = lane_at(idx, n - 1) as int;
                    Some(d.update(j, encode(k, d[j] + lane_at(src, n - 1))))
                } else {
                    None
                }
            },
        }
    }
}

/// Lanes of a compress: the indices of the set lanes of a boolean value,
/// in increasing order.
pub open spec fn compress_lanes(src: Seq<u64>, n: nat) -> Seq<u64>
    decreases n,
{
    if n == 0 {
        Seq::empty()
    } else {
        let s = compress_lanes(src, (n - 1) as nat);
        if src[n - 1] != 0 {
            s.push((n - 1) as u64)
        } else {
            s
        }
    }
}

/// Widening an integer and narrowing back to the original kind preserves
/// the value whenever it fits the wider kind (it always does between
/// same-signedness kinds of non-decreasing width).
pub proof fn lemma_widen_narrow_preserves(k1: VarType, k2: VarType, a: u64)
    requires
        k1.is_int(),
        k2.is_int(),
        k1.canonical(a),
        in_range(k2, decode(k1, a)),
    ensures
        cast_sem(k1, k2, a) is Some,
        cast_sem(k2, k1, cast_sem(k1, k2, a).unwrap()) == Some(a),
{
    let v = decode(k1, a);
    let c = encode(k2, v);
    lemma_decode_encode(k2, v);
    lemma_encode_decode(k1, a);
}

/// Narrowing an integer truncates deterministically: the result is the
/// two's-complement low bits, the source pattern reduced by the narrow
/// kind's modulus.
pub proof fn lemma_narrow_truncates(k2: VarType, k1: VarType, a: u64)
    requires
        k1.is_int(),
        k2.is_int(),
        k1.bits() <= k2.bits(),
        k2.canonical(a),
    ensures
        cast_sem(k2, k1, a) == Some((((a as int) % k1.modulus()) as u64)),
{
    let m1 = k1.modulus();
    let m2 = k2.modulus();
    lemma_modulus_pow2(k1);
    lemma_modulus_pow2(k2);
    vstd::arithmetic::power2::lemma_pow2_adds(
        k1.bits(),
        (k2.bits() - k1.bits()) as nat,
    );
    let t = pow2((k2.bits() - k1.bits()) as nat) as int;
    if k2.is_signed_int() && a as int >= k2.half_modulus() {
        assert(m2 == m1 * t);
        vstd::arithmetic::div_mod::lemma_mod_multiples_vanish(-t, a as int, m1);
        assert((a - m1 * t) % m1 == (m1 * (-t) + a) % m1);
    }
}

/// A gather whose set-mask indices are all in range succeeds, and each
/// result lane is exactly the addressed source lane (mask-clear lanes are
/// left zero).
pub proof fn lemma_gather_ok(src: Seq<u64>, idx: Seq<u64>, mask: Seq<u64>, n: nat)
    requires
        forall|i: int| 0 <= i < n && lane_at(mask, i) != 0 ==> lane_at(idx, i) < src.len(),
    ensures
        gather_lanes(src, idx, mask, n) is Some,
        gather_lanes(src, idx, mask, n).unwrap().len() == n,
        forall|i: int|
            0 <= i < n ==> gather_lanes(src, idx, mask, n).unwrap()[i] == (if lane_at(mask, i)
                != 0 {
                src[lane_at(idx, i) as int]
            } else {
                0u64
            }),
    decreases n,
{
    if n > 0 {
        lemma_gather_ok(src, idx, mask, (n - 1) as nat);
    }
}

/// A scatter whose set-mask indices are all in range succeeds; where the
/// indices written do not collide, every written destination lane holds
/// its source lane, and every other destination lane — in particular every
/// mask-clear lane's target — is untouched.
pub proof fn lemma_scatter_ok(dst: Seq<u64>, src: Seq<u64>, idx: Seq<u64>, mask: Seq<u64>, n: nat)
    requires
        forall|i: int| 0 <= i < n && lane_at(mask, i) != 0 ==> lane_at(idx, i) < dst.len(),
        forall|i: int, j: int|
            0 <= i < n && 0 <= j < n && i != j && lane_at(mask, i) != 0 && lane_at(mask, j) != 0
                ==> lane_at(idx, i) != lane_at(idx, j),
    ensures
        scatter_lanes(dst, src, idx, mask, n) is Some,
        scatter_lanes(dst, src, idx, mask, n).unwrap().len() == dst.len(),
        forall|i: int|
            0 <= i < n && lane_at(mask, i) != 0 ==> scatter_lanes(dst, src, idx, mask, n).unwrap()[
                lane_at(idx, i) as int
            ] == lane_at(src, i),
        forall|p: int|
            0 <= p < dst.len() && (forall|i: int|
                0 <= i < n ==> !(lane_at(mask, i) != 0 && lane_at(idx, i) == p)) ==> scatter_lanes(
                dst,
                src,
                idx,
                mask,
                n,
            ).unwrap()[p] == dst[p],
    decreases n,
{
    if n > 0 {
        lemma_scatter_ok(dst, src, idx, mask, (n - 1) as nat);
    }
}

/// Scattering values and gathering at the same indices under the same mask
/// returns the scattered values at every set-mask lane, provided the set
/// lanes' indices are in range and do not collide.
pub proof fn lemma_scatter_then_gather(
    dst: Seq<u64>,
    src: Seq<u64>,
    idx: Seq<u64>,
    mask: Seq<u64>,
    n: nat,
)
    requires
        forall|i: int| 0 <= i < n && lane_at(mask, i) != 0 ==> lane_at(idx, i) < dst.len(),
        forall|i: int, j: int|
            0 <= i < n && 0 <= j < n && i != j && lane_at(mask, i) != 0 && lane_at(mask, j) != 0
                ==> lane_at(idx, i) != lane_at(idx, j),
    ensures
        scatter_lanes(dst, src, idx, mask, n) is Some,
        gather_lanes(scatter_lanes(dst, src, idx, mask, n).unwrap(), idx, mask, n) is Some,
        forall|i: int|
            0 <= i < n && lane_at(mask, i) != 0 ==> gather_lanes(
                scatter_lanes(dst, src, idx, mask, n).unwrap(),
                idx,
                mask,
                n,
            ).unwrap()[i] == lane_at(src, i),
{
    lemma_scatter_ok(dst, src, idx, mask, n);
    let d2 = scatter_lanes(dst, src, idx, mask, n).unwrap();
    lemma_gather_ok(d2, idx, mask, n);
}

} // verus!
