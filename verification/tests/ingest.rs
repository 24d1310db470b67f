//! Ingestion and coercion: sized literals, buffers, casts, and the typed
//! failure paths.

use lazyjit::error::{BackendErrorKind, DescriptorErrorKind, Error, HostKind};
use lazyjit::funcs::{eval, make, set_backend, HostScalar, HostValue};
use lazyjit::trace::Trace;
use lazyjit::vartype::VarType;

fn lanes_of(t: &Trace, v: lazyjit::var::Var) -> Vec<u64> {
    v.to_list(t).expect("value should be materialized")
}

#[test]
fn sized_literal_replicates_bool() {
    let mut t = Trace::new();
    set_backend(&mut t, "cpu").unwrap();
    let v = make(&mut t, VarType::Bool, HostValue::Scalar(HostScalar::Bool(true)), Some(5))
        .unwrap();
    v.schedule(&mut t);
    eval(&mut t).unwrap();
    assert_eq!(lanes_of(&t, v), vec![1, 1, 1, 1, 1]);
}

#[test]
fn sized_literal_replicates_i32() {
    let mut t = Trace::new();
    set_backend(&mut t, "cpu").unwrap();
    let v = make(&mut t, VarType::I32, HostValue::Scalar(HostScalar::Int(-7)), Some(3)).unwrap();
    v.schedule(&mut t);
    eval(&mut t).unwrap();
    let expect = (-7i32 as u32) as u64;
    assert_eq!(lanes_of(&t, v), vec![expect, expect, expect]);
}

#[test]
fn buffer_round_trips_unchanged() {
    let mut t = Trace::new();
    set_backend(&mut t, "cpu").unwrap();
    let v = make(
        &mut t,
        VarType::U16,
        HostValue::Sequence(vec![
            HostScalar::Int(9),
            HostScalar::Int(0),
            HostScalar::Int(65535),
            HostScalar::Int(3),
        ]),
        None,
    )
    .unwrap();
    v.schedule(&mut t);
    eval(&mut t).unwrap();
    assert_eq!(lanes_of(&t, v), vec![9, 0, 65535, 3]);
}

#[test]
fn typed_array_round_trips_unchanged() {
    let mut t = Trace::new();
    set_backend(&mut t, "cpu").unwrap();
    let v = make(&mut t, VarType::U8, HostValue::Array(VarType::U8, vec![1, 2, 255]), None)
        .unwrap();
    v.schedule(&mut t);
    eval(&mut t).unwrap();
    assert_eq!(lanes_of(&t, v), vec![1, 2, 255]);
}

#[test]
fn cast_to_same_kind_is_identity() {
    let mut t = Trace::new();
    let v = make(&mut t, VarType::I32, HostValue::Scalar(HostScalar::Int(4)), None).unwrap();
    let before = t.nodes.len();
    let w = make(&mut t, VarType::I32, HostValue::Node(v), None).unwrap();
    assert_eq!(v.id, w.id);
    assert_eq!(t.nodes.len(), before);
}

#[test]
fn cast_to_other_kind_inserts_cast_node() {
    let mut t = Trace::new();
    let v = make(&mut t, VarType::I32, HostValue::Scalar(HostScalar::Int(4)), None).unwrap();
    let before = t.nodes.len();
    let w = make(&mut t, VarType::I64, HostValue::Node(v), None).unwrap();
    assert_ne!(v.id, w.id);
    assert_eq!(t.nodes.len(), before + 1);
    assert_eq!(w.ty(&t), VarType::I64);
}

#[test]
fn widen_then_narrow_preserves_value() {
    let mut t = Trace::new();
    set_backend(&mut t, "cpu").unwrap();
    let v = make(&mut t, VarType::I8, HostValue::Scalar(HostScalar::Int(-5)), None).unwrap();
    let wide = make(&mut t, VarType::I32, HostValue::Node(v), None).unwrap();
    let back = make(&mut t, VarType::I8, HostValue::Node(wide), None).unwrap();
    back.schedule(&mut t);
    eval(&mut t).unwrap();
    assert_eq!(lanes_of(&t, back), vec![(-5i8 as u8) as u64]);
}

#[test]
fn narrowing_truncates_to_low_bits() {
    let mut t = Trace::new();
    set_backend(&mut t, "cpu").unwrap();
    let v = make(&mut t, VarType::I32, HostValue::Scalar(HostScalar::Int(300)), None).unwrap();
    let narrow = make(&mut t, VarType::U8, HostValue::Node(v), None).unwrap();
    narrow.schedule(&mut t);
    eval(&mut t).unwrap();
    assert_eq!(lanes_of(&t, narrow), vec![300 % 256]);
}

#[test]
fn mismatched_scalar_is_type_mismatch() {
    let mut t = Trace::new();
    let r = make(&mut t, VarType::Bool, HostValue::Scalar(HostScalar::Int(5)), None);
    assert_eq!(
        r.err().unwrap(),
        Error::TypeMismatch { expected: VarType::Bool, found: HostKind::Int }
    );
}

#[test]
fn out_of_range_scalar_is_type_mismatch() {
    let mut t = Trace::new();
    let r = make(&mut t, VarType::I8, HostValue::Scalar(HostScalar::Int(200)), None);
    assert_eq!(
        r.err().unwrap(),
        Error::TypeMismatch { expected: VarType::I8, found: HostKind::Int }
    );
}

#[test]
fn mismatched_array_kind_is_type_mismatch() {
    let mut t = Trace::new();
    let r = make(&mut t, VarType::I32, HostValue::Array(VarType::U8, vec![1]), None);
    assert_eq!(
        r.err().unwrap(),
        Error::TypeMismatch { expected: VarType::I32, found: HostKind::Array(VarType::U8) }
    );
}

#[test]
fn reserved_kind_is_unsupported() {
    let mut t = Trace::new();
    let r = make(&mut t, VarType::Void, HostValue::Scalar(HostScalar::Int(0)), None);
    assert_eq!(r.err().unwrap(), Error::UnsupportedType { ty: VarType::Void });
    let r2 = make(&mut t, VarType::F16, HostValue::Scalar(HostScalar::Int(0)), None);
    assert_eq!(r2.err().unwrap(), Error::UnsupportedType { ty: VarType::F16 });
}

#[test]
fn float_literal_carries_bit_pattern() {
    let mut t = Trace::new();
    set_backend(&mut t, "cpu").unwrap();
    let v = make(
        &mut t,
        VarType::F32,
        HostValue::Scalar(HostScalar::F32Bits(1.5f32.to_bits())),
        Some(2),
    )
    .unwrap();
    v.schedule(&mut t);
    eval(&mut t).unwrap();
    let b = 1.5f32.to_bits() as u64;
    assert_eq!(lanes_of(&t, v), vec![b, b]);
}

#[test]
fn failed_ingestion_leaves_trace_untouched() {
    let mut t = Trace::new();
    let _ = make(&mut t, VarType::I32, HostValue::Scalar(HostScalar::Int(1)), None).unwrap();
    let before = t.nodes.len();
    let r = make(&mut t, VarType::I8, HostValue::Scalar(HostScalar::Int(4000)), None);
    assert!(r.is_err());
    assert_eq!(t.nodes.len(), before);
}

#[test]
fn descriptor_error_kinds_are_distinct() {
    let a = Error::DescriptorError { kind: DescriptorErrorKind::GeometryOutOfRange };
    let b = Error::DescriptorError { kind: DescriptorErrorKind::HitGroupOutOfRange };
    assert_ne!(a, b);
    let c = Error::BackendError { kind: BackendErrorKind::NoBackend };
    assert_ne!(a, c);
}
