//! Elementwise operations on the reference backend: arithmetic with
//! two's-complement semantics, comparisons, bit counting, selection, and
//! the typed failures of unsupported combinations.

use lazyjit::error::{BackendErrorKind, Error};
use lazyjit::funcs::{eval, make, set_backend, HostScalar, HostValue};
use lazyjit::trace::Trace;
use lazyjit::vartype::VarType;

fn i32_seq(vals: &[i32]) -> HostValue {
    let mut s = Vec::new();
    for v in vals {
        s.push(HostScalar::Int(*v as i64));
    }
    HostValue::Sequence(s)
}

fn as_i32(lane: u64) -> i32 {
    lane as u32 as i32
}

#[test]
fn add_broadcasts_scalar() {
    let mut t = Trace::new();
    set_backend(&mut t, "cpu").unwrap();
    let a = make(&mut t, VarType::I32, i32_seq(&[1, 2, 3]), None).unwrap();
    let b = make(&mut t, VarType::I32, HostValue::Scalar(HostScalar::Int(10)), None).unwrap();
    let c = a.add(&mut t, HostValue::Node(b)).unwrap();
    c.schedule(&mut t);
    eval(&mut t).unwrap();
    assert_eq!(c.to_list(&t).unwrap(), vec![11, 12, 13]);
}

#[test]
fn sub_and_mul_wrap() {
    let mut t = Trace::new();
    set_backend(&mut t, "cpu").unwrap();
    let a = make(&mut t, VarType::U8, i32_seq(&[3, 200]), None).unwrap();
    let b = make(&mut t, VarType::U8, i32_seq(&[5, 2]), None).unwrap();
    let d = a.sub(&mut t, HostValue::Node(b)).unwrap();
    let m = a.mul(&mut t, HostValue::Node(b)).unwrap();
    d.schedule(&mut t);
    m.schedule(&mut t);
    eval(&mut t).unwrap();
    assert_eq!(d.to_list(&t).unwrap(), vec![(3u8.wrapping_sub(5)) as u64, 198]);
    assert_eq!(m.to_list(&t).unwrap(), vec![15, (200u8.wrapping_mul(2)) as u64]);
}

#[test]
fn division_truncates_toward_zero() {
    let mut t = Trace::new();
    set_backend(&mut t, "cpu").unwrap();
    let a = make(&mut t, VarType::I32, i32_seq(&[-7, 7, -7]), None).unwrap();
    let b = make(&mut t, VarType::I32, i32_seq(&[2, -2, -2]), None).unwrap();
    let q = a.div(&mut t, HostValue::Node(b)).unwrap();
    let r = a.modulo(&mut t, HostValue::Node(b)).unwrap();
    q.schedule(&mut t);
    r.schedule(&mut t);
    eval(&mut t).unwrap();
    let ql: Vec<i32> = q.to_list(&t).unwrap().into_iter().map(as_i32).collect();
    let rl: Vec<i32> = r.to_list(&t).unwrap().into_iter().map(as_i32).collect();
    assert_eq!(ql, vec![-3, -3, 3]);
    assert_eq!(rl, vec![-1, 1, -1]);
}

#[test]
fn division_by_zero_faults_at_eval() {
    let mut t = Trace::new();
    set_backend(&mut t, "cpu").unwrap();
    let a = make(&mut t, VarType::I32, i32_seq(&[1]), None).unwrap();
    let b = make(&mut t, VarType::I32, i32_seq(&[0]), None).unwrap();
    let q = a.div(&mut t, HostValue::Node(b)).unwrap();
    q.schedule(&mut t);
    let r = eval(&mut t);
    assert_eq!(
        r.err().unwrap(),
        Error::BackendError { kind: BackendErrorKind::ExecutionFault }
    );
    // No partial completion is observable.
    assert!(q.to_list(&t).is_err());
}

#[test]
fn shifts_follow_width() {
    let mut t = Trace::new();
    set_backend(&mut t, "cpu").unwrap();
    let a = make(&mut t, VarType::U8, i32_seq(&[3, 128]), None).unwrap();
    let s = make(&mut t, VarType::U8, i32_seq(&[2, 1]), None).unwrap();
    let l = a.shl(&mut t, HostValue::Node(s)).unwrap();
    let r = a.shr(&mut t, HostValue::Node(s)).unwrap();
    l.schedule(&mut t);
    r.schedule(&mut t);
    eval(&mut t).unwrap();
    assert_eq!(l.to_list(&t).unwrap(), vec![12, 0]);
    assert_eq!(r.to_list(&t).unwrap(), vec![0, 64]);
}

#[test]
fn arithmetic_shift_extends_sign() {
    let mut t = Trace::new();
    set_backend(&mut t, "cpu").unwrap();
    let a = make(&mut t, VarType::I8, i32_seq(&[-7]), None).unwrap();
    let s = make(&mut t, VarType::I8, i32_seq(&[1]), None).unwrap();
    let r = a.shr(&mut t, HostValue::Node(s)).unwrap();
    r.schedule(&mut t);
    eval(&mut t).unwrap();
    assert_eq!(r.to_list(&t).unwrap(), vec![(-4i8 as u8) as u64]);
}

#[test]
fn comparisons_are_signed() {
    let mut t = Trace::new();
    set_backend(&mut t, "cpu").unwrap();
    let a = make(&mut t, VarType::I16, i32_seq(&[-1, 5, 5]), None).unwrap();
    let b = make(&mut t, VarType::I16, i32_seq(&[1, 5, -9]), None).unwrap();
    let lt = a.lt(&mut t, HostValue::Node(b)).unwrap();
    let ge = a.ge(&mut t, HostValue::Node(b)).unwrap();
    let eqv = a.eq(&mut t, HostValue::Node(b)).unwrap();
    assert_eq!(lt.ty(&t), VarType::Bool);
    lt.schedule(&mut t);
    ge.schedule(&mut t);
    eqv.schedule(&mut t);
    eval(&mut t).unwrap();
    assert_eq!(lt.to_list(&t).unwrap(), vec![1, 0, 0]);
    assert_eq!(ge.to_list(&t).unwrap(), vec![0, 1, 1]);
    assert_eq!(eqv.to_list(&t).unwrap(), vec![0, 1, 0]);
}

#[test]
fn min_max_are_signed() {
    let mut t = Trace::new();
    set_backend(&mut t, "cpu").unwrap();
    let a = make(&mut t, VarType::I32, i32_seq(&[-3, 9]), None).unwrap();
    let b = make(&mut t, VarType::I32, i32_seq(&[2, -8]), None).unwrap();
    let lo = a.min(&mut t, HostValue::Node(b)).unwrap();
    let hi = a.max(&mut t, HostValue::Node(b)).unwrap();
    lo.schedule(&mut t);
    hi.schedule(&mut t);
    eval(&mut t).unwrap();
    let lov: Vec<i32> = lo.to_list(&t).unwrap().into_iter().map(as_i32).collect();
    let hiv: Vec<i32> = hi.to_list(&t).unwrap().into_iter().map(as_i32).collect();
    assert_eq!(lov, vec![-3, -8]);
    assert_eq!(hiv, vec![2, 9]);
}

#[test]
fn neg_not_abs() {
    let mut t = Trace::new();
    set_backend(&mut t, "cpu").unwrap();
    let a = make(&mut t, VarType::I32, i32_seq(&[-6, 6]), None).unwrap();
    let n = a.neg(&mut t).unwrap();
    let b = a.not(&mut t).unwrap();
    let ab = a.abs(&mut t).unwrap();
    n.schedule(&mut t);
    b.schedule(&mut t);
    ab.schedule(&mut t);
    eval(&mut t).unwrap();
    let nv: Vec<i32> = n.to_list(&t).unwrap().into_iter().map(as_i32).collect();
    let bv: Vec<i32> = b.to_list(&t).unwrap().into_iter().map(as_i32).collect();
    let av: Vec<i32> = ab.to_list(&t).unwrap().into_iter().map(as_i32).collect();
    assert_eq!(nv, vec![6, -6]);
    assert_eq!(bv, vec![5, -7]);
    assert_eq!(av, vec![6, 6]);
}

#[test]
fn bit_counts() {
    let mut t = Trace::new();
    set_backend(&mut t, "cpu").unwrap();
    let a = make(&mut t, VarType::U8, i32_seq(&[0b1011_0000, 0, 1]), None).unwrap();
    let p = a.popc(&mut t).unwrap();
    let lz = a.clz(&mut t).unwrap();
    let tz = a.ctz(&mut t).unwrap();
    p.schedule(&mut t);
    lz.schedule(&mut t);
    tz.schedule(&mut t);
    eval(&mut t).unwrap();
    assert_eq!(p.to_list(&t).unwrap(), vec![3, 0, 1]);
    assert_eq!(lz.to_list(&t).unwrap(), vec![0, 8, 7]);
    assert_eq!(tz.to_list(&t).unwrap(), vec![4, 8, 0]);
}

#[test]
fn boolean_connectives() {
    let mut t = Trace::new();
    set_backend(&mut t, "cpu").unwrap();
    let a = make(
        &mut t,
        VarType::Bool,
        HostValue::Sequence(vec![
            HostScalar::Bool(true),
            HostScalar::Bool(true),
            HostScalar::Bool(false),
        ]),
        None,
    )
    .unwrap();
    let b = make(
        &mut t,
        VarType::Bool,
        HostValue::Sequence(vec![
            HostScalar::Bool(true),
            HostScalar::Bool(false),
            HostScalar::Bool(false),
        ]),
        None,
    )
    .unwrap();
    let c = a.and(&mut t, HostValue::Node(b)).unwrap();
    let d = a.or(&mut t, HostValue::Node(b)).unwrap();
    let x = a.xor(&mut t, HostValue::Node(b)).unwrap();
    c.schedule(&mut t);
    d.schedule(&mut t);
    x.schedule(&mut t);
    eval(&mut t).unwrap();
    assert_eq!(c.to_list(&t).unwrap(), vec![1, 0, 0]);
    assert_eq!(d.to_list(&t).unwrap(), vec![1, 1, 0]);
    assert_eq!(x.to_list(&t).unwrap(), vec![0, 1, 0]);
}

#[test]
fn select_chooses_by_condition() {
    let mut t = Trace::new();
    set_backend(&mut t, "cpu").unwrap();
    let c = make(
        &mut t,
        VarType::Bool,
        HostValue::Sequence(vec![HostScalar::Bool(true), HostScalar::Bool(false)]),
        None,
    )
    .unwrap();
    let a = make(&mut t, VarType::I32, i32_seq(&[10, 20]), None).unwrap();
    let r = c.select(&mut t, &a, HostValue::Scalar(HostScalar::Int(0))).unwrap();
    r.schedule(&mut t);
    eval(&mut t).unwrap();
    assert_eq!(r.to_list(&t).unwrap(), vec![10, 0]);
}

#[test]
fn fma_is_exact_on_integers() {
    let mut t = Trace::new();
    set_backend(&mut t, "cpu").unwrap();
    let a = make(&mut t, VarType::I32, i32_seq(&[2, 3]), None).unwrap();
    let r = a
        .fma(
            &mut t,
            HostValue::Scalar(HostScalar::Int(10)),
            HostValue::Scalar(HostScalar::Int(1)),
        )
        .unwrap();
    r.schedule(&mut t);
    eval(&mut t).unwrap();
    assert_eq!(r.to_list(&t).unwrap(), vec![21, 31]);
}

#[test]
fn add_on_bool_is_refused() {
    let mut t = Trace::new();
    let a = make(&mut t, VarType::Bool, HostValue::Scalar(HostScalar::Bool(true)), None)
        .unwrap();
    let r = a.add(&mut t, HostValue::Scalar(HostScalar::Bool(false)));
    assert_eq!(r.err().unwrap(), Error::UnsupportedType { ty: VarType::Bool });
}

#[test]
fn sin_on_int_is_refused() {
    let mut t = Trace::new();
    let a = make(&mut t, VarType::I32, i32_seq(&[1]), None).unwrap();
    let r = a.sin(&mut t);
    assert_eq!(r.err().unwrap(), Error::UnsupportedType { ty: VarType::I32 });
}

#[test]
fn incompatible_sizes_are_refused() {
    let mut t = Trace::new();
    let a = make(&mut t, VarType::I32, i32_seq(&[1, 2]), None).unwrap();
    let b = make(&mut t, VarType::I32, i32_seq(&[1, 2, 3]), None).unwrap();
    let r = a.add(&mut t, HostValue::Node(b));
    assert_eq!(r.err().unwrap(), Error::SizeMismatch { expected: 2, found: 3 });
}

#[test]
fn float_arithmetic_is_unsupported_by_reference_backend() {
    let mut t = Trace::new();
    set_backend(&mut t, "cpu").unwrap();
    let a = make(
        &mut t,
        VarType::F32,
        HostValue::Scalar(HostScalar::F32Bits(1.0f32.to_bits())),
        None,
    )
    .unwrap();
    let s = a.add(&mut t, HostValue::Scalar(HostScalar::F32Bits(2.0f32.to_bits()))).unwrap();
    s.schedule(&mut t);
    let r = eval(&mut t);
    assert_eq!(
        r.err().unwrap(),
        Error::BackendError { kind: BackendErrorKind::UnsupportedOp }
    );
}

#[test]
fn bitcast_preserves_float_bit_patterns() {
    let mut t = Trace::new();
    set_backend(&mut t, "cpu").unwrap();
    let v = make(
        &mut t,
        VarType::F32,
        HostValue::Sequence(vec![
            HostScalar::F32Bits(1.5f32.to_bits()),
            HostScalar::F32Bits(2.5f32.to_bits()),
        ]),
        None,
    )
    .unwrap();
    let w = v.bitcast(&mut t, VarType::I32).unwrap();
    assert_eq!(w.ty(&t), VarType::I32);
    w.schedule(&mut t);
    eval(&mut t).unwrap();
    assert_eq!(
        w.to_list(&t).unwrap(),
        vec![1.5f32.to_bits() as u64, 2.5f32.to_bits() as u64]
    );
}

#[test]
fn bitcast_requires_equal_width() {
    let mut t = Trace::new();
    let v = make(&mut t, VarType::I32, i32_seq(&[1]), None).unwrap();
    let r = v.bitcast(&mut t, VarType::I64);
    assert_eq!(r.err().unwrap(), Error::SizeMismatch { expected: 4, found: 8 });
}
