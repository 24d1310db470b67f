//! The remaining boundary surface: dispatch through `from_any_of`,
//! rounding builders, and unsigned conversions.

use lazyjit::error::Error;
use lazyjit::funcs::{eval, make, set_backend, HostScalar, HostValue};
use lazyjit::trace::Trace;
use lazyjit::var::Var;
use lazyjit::vartype::VarType;

#[test]
fn from_any_of_dispatches_like_make() {
    let mut t = Trace::new();
    set_backend(&mut t, "cpu").unwrap();
    let v = Var::from_any_of(&mut t, HostValue::Scalar(HostScalar::UInt(9)), VarType::U64)
        .unwrap();
    assert_eq!(v.ty(&t), VarType::U64);
    v.schedule(&mut t);
    eval(&mut t).unwrap();
    assert_eq!(v.to_list(&t).unwrap(), vec![9]);
}

#[test]
fn from_any_of_reports_both_sides_on_failure() {
    let mut t = Trace::new();
    let r = Var::from_any_of(&mut t, HostValue::Scalar(HostScalar::F64Bits(0)), VarType::F32);
    assert!(matches!(r, Err(Error::TypeMismatch { .. })));
}

#[test]
fn rounding_builders_are_float_only() {
    let mut t = Trace::new();
    let f = make(
        &mut t,
        VarType::F64,
        HostValue::Scalar(HostScalar::F64Bits(2.25f64.to_bits())),
        None,
    )
    .unwrap();
    assert!(f.floor(&mut t).is_ok());
    assert!(f.ceil(&mut t).is_ok());
    assert!(f.trunc(&mut t).is_ok());
    let i = make(&mut t, VarType::I32, HostValue::Scalar(HostScalar::Int(2)), None).unwrap();
    assert_eq!(
        i.floor(&mut t).err().unwrap(),
        Error::UnsupportedType { ty: VarType::I32 }
    );
}

#[test]
fn unsigned_widen_then_narrow_preserves_value() {
    let mut t = Trace::new();
    set_backend(&mut t, "cpu").unwrap();
    let v = make(&mut t, VarType::U8, HostValue::Scalar(HostScalar::UInt(200)), None).unwrap();
    let wide = make(&mut t, VarType::U64, HostValue::Node(v), None).unwrap();
    let back = make(&mut t, VarType::U8, HostValue::Node(wide), None).unwrap();
    back.schedule(&mut t);
    eval(&mut t).unwrap();
    assert_eq!(back.to_list(&t).unwrap(), vec![200]);
}

#[test]
fn signed_to_unsigned_narrowing_keeps_low_bits() {
    let mut t = Trace::new();
    set_backend(&mut t, "cpu").unwrap();
    let v = make(&mut t, VarType::I16, HostValue::Scalar(HostScalar::Int(-1)), None).unwrap();
    let narrow = make(&mut t, VarType::U8, HostValue::Node(v), None).unwrap();
    narrow.schedule(&mut t);
    eval(&mut t).unwrap();
    assert_eq!(narrow.to_list(&t).unwrap(), vec![0xFF]);
}

#[test]
fn int_to_bool_is_nonzero_test() {
    let mut t = Trace::new();
    set_backend(&mut t, "cpu").unwrap();
    let mut s = Vec::new();
    for x in [0i64, 3, 0, 250] {
        s.push(HostScalar::Int(x));
    }
    let v = make(&mut t, VarType::U8, HostValue::Sequence(s), None).unwrap();
    let b = make(&mut t, VarType::Bool, HostValue::Node(v), None).unwrap();
    b.schedule(&mut t);
    eval(&mut t).unwrap();
    assert_eq!(b.to_list(&t).unwrap(), vec![0, 1, 0, 1]);
}

#[test]
fn bool_to_int_is_zero_or_one() {
    let mut t = Trace::new();
    set_backend(&mut t, "cpu").unwrap();
    let mut s = Vec::new();
    for x in [true, false] {
        s.push(HostScalar::Bool(x));
    }
    let v = make(&mut t, VarType::Bool, HostValue::Sequence(s), None).unwrap();
    let w = make(&mut t, VarType::I32, HostValue::Node(v), None).unwrap();
    w.schedule(&mut t);
    eval(&mut t).unwrap();
    assert_eq!(w.to_list(&t).unwrap(), vec![1, 0]);
}

#[test]
fn cast_between_float_kinds_needs_numeric_backend() {
    let mut t = Trace::new();
    set_backend(&mut t, "cpu").unwrap();
    let v = make(
        &mut t,
        VarType::F32,
        HostValue::Scalar(HostScalar::F32Bits(1.0f32.to_bits())),
        None,
    )
    .unwrap();
    let w = make(&mut t, VarType::F64, HostValue::Node(v), None).unwrap();
    w.schedule(&mut t);
    assert!(eval(&mut t).is_err());
}
