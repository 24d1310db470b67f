//! Memory operations and the evaluation protocol: gather, scatter,
//! compress, index generation, memoized re-evaluation, and backend
//! selection.

use lazyjit::error::{BackendErrorKind, Error};
use lazyjit::funcs::{eval, index, make, set_backend, HostScalar, HostValue};
use lazyjit::trace::Trace;
use lazyjit::vartype::VarType;

fn i32_seq(vals: &[i32]) -> HostValue {
    let mut s = Vec::new();
    for v in vals {
        s.push(HostScalar::Int(*v as i64));
    }
    HostValue::Sequence(s)
}

fn bool_seq(vals: &[bool]) -> HostValue {
    let mut s = Vec::new();
    for v in vals {
        s.push(HostScalar::Bool(*v));
    }
    HostValue::Sequence(s)
}

#[test]
fn index_counts_from_zero() {
    let mut t = Trace::new();
    set_backend(&mut t, "cpu").unwrap();
    let v = index(&mut t, 4);
    assert_eq!(v.ty(&t), VarType::U32);
    v.schedule(&mut t);
    eval(&mut t).unwrap();
    assert_eq!(v.to_list(&t).unwrap(), vec![0, 1, 2, 3]);
}

#[test]
fn gather_reads_at_indices() {
    let mut t = Trace::new();
    set_backend(&mut t, "cpu").unwrap();
    let src = make(&mut t, VarType::I32, i32_seq(&[10, 20, 30, 40]), None).unwrap();
    let idx = make(&mut t, VarType::U32, i32_seq(&[3, 0, 2]), None).unwrap();
    let g = src.gather(&mut t, HostValue::Node(idx), None).unwrap();
    g.schedule(&mut t);
    eval(&mut t).unwrap();
    assert_eq!(g.to_list(&t).unwrap(), vec![40, 10, 30]);
}

#[test]
fn masked_gather_skips_clear_lanes_without_faulting() {
    let mut t = Trace::new();
    set_backend(&mut t, "cpu").unwrap();
    let src = make(&mut t, VarType::I32, i32_seq(&[10, 20, 30]), None).unwrap();
    let idx = index(&mut t, 3);
    let g = src
        .gather(&mut t, HostValue::Node(idx), Some(bool_seq(&[true, false, true])))
        .unwrap();
    g.schedule(&mut t);
    eval(&mut t).unwrap();
    let lanes = g.to_list(&t).unwrap();
    assert_eq!(lanes.len(), 3);
    assert_eq!(lanes[0], 10);
    assert_eq!(lanes[2], 30);
}

#[test]
fn masked_gather_ignores_out_of_range_index_under_clear_lane() {
    let mut t = Trace::new();
    set_backend(&mut t, "cpu").unwrap();
    let src = make(&mut t, VarType::I32, i32_seq(&[10, 20]), None).unwrap();
    let idx = make(&mut t, VarType::U32, i32_seq(&[0, 99]), None).unwrap();
    let g = src
        .gather(&mut t, HostValue::Node(idx), Some(bool_seq(&[true, false])))
        .unwrap();
    g.schedule(&mut t);
    eval(&mut t).unwrap();
    assert_eq!(g.to_list(&t).unwrap()[0], 10);
}

#[test]
fn gather_out_of_range_faults() {
    let mut t = Trace::new();
    set_backend(&mut t, "cpu").unwrap();
    let src = make(&mut t, VarType::I32, i32_seq(&[10, 20]), None).unwrap();
    let idx = make(&mut t, VarType::U32, i32_seq(&[5]), None).unwrap();
    let g = src.gather(&mut t, HostValue::Node(idx), None).unwrap();
    g.schedule(&mut t);
    assert_eq!(
        eval(&mut t).err().unwrap(),
        Error::BackendError { kind: BackendErrorKind::ExecutionFault }
    );
}

#[test]
fn scatter_then_gather_returns_scattered_values() {
    let mut t = Trace::new();
    set_backend(&mut t, "cpu").unwrap();
    let dst = make(&mut t, VarType::I32, i32_seq(&[0, 0, 0, 0]), None).unwrap();
    let src = make(&mut t, VarType::I32, i32_seq(&[7, 8]), None).unwrap();
    let idx = make(&mut t, VarType::U32, i32_seq(&[2, 0]), None).unwrap();
    src.scatter(&mut t, &dst, HostValue::Node(idx), None).unwrap();
    let g = dst.gather(&mut t, HostValue::Node(idx), None).unwrap();
    g.schedule(&mut t);
    dst.schedule(&mut t);
    eval(&mut t).unwrap();
    assert_eq!(g.to_list(&t).unwrap(), vec![7, 8]);
    assert_eq!(dst.to_list(&t).unwrap(), vec![8, 0, 7, 0]);
}

#[test]
fn masked_scatter_leaves_clear_lanes_untouched() {
    let mut t = Trace::new();
    set_backend(&mut t, "cpu").unwrap();
    let dst = make(&mut t, VarType::I32, i32_seq(&[1, 2, 3]), None).unwrap();
    let src = make(&mut t, VarType::I32, i32_seq(&[70, 80, 90]), None).unwrap();
    let idx = index(&mut t, 3);
    src.scatter(
        &mut t,
        &dst,
        HostValue::Node(idx),
        Some(bool_seq(&[true, false, true])),
    )
    .unwrap();
    dst.schedule(&mut t);
    eval(&mut t).unwrap();
    assert_eq!(dst.to_list(&t).unwrap(), vec![70, 2, 90]);
}

#[test]
fn scatter_reduce_accumulates() {
    let mut t = Trace::new();
    set_backend(&mut t, "cpu").unwrap();
    let dst = make(&mut t, VarType::I32, i32_seq(&[5, 5]), None).unwrap();
    let src = make(&mut t, VarType::I32, i32_seq(&[1, 2, 3]), None).unwrap();
    let idx = make(&mut t, VarType::U32, i32_seq(&[0, 0, 1]), None).unwrap();
    src.scatter_reduce(&mut t, &dst, HostValue::Node(idx), None).unwrap();
    dst.schedule(&mut t);
    eval(&mut t).unwrap();
    assert_eq!(dst.to_list(&t).unwrap(), vec![8, 8]);
}

#[test]
fn scatter_into_non_buffer_is_refused() {
    let mut t = Trace::new();
    let a = make(&mut t, VarType::I32, i32_seq(&[1, 2]), None).unwrap();
    let b = a.add(&mut t, HostValue::Scalar(HostScalar::Int(1))).unwrap();
    let src = make(&mut t, VarType::I32, i32_seq(&[9, 9]), None).unwrap();
    let idx = make(&mut t, VarType::U32, i32_seq(&[0, 1]), None).unwrap();
    let r = src.scatter(&mut t, &b, HostValue::Node(idx), None);
    assert_eq!(r.err().unwrap(), Error::UnsupportedType { ty: VarType::I32 });
}

#[test]
fn compress_returns_set_lane_indices() {
    let mut t = Trace::new();
    set_backend(&mut t, "cpu").unwrap();
    let p = make(&mut t, VarType::Bool, bool_seq(&[false, true, true, false, true]), None)
        .unwrap();
    let c = p.compress(&mut t).unwrap();
    assert_eq!(c.ty(&t), VarType::U32);
    c.schedule(&mut t);
    eval(&mut t).unwrap();
    assert_eq!(c.to_list(&t).unwrap(), vec![1, 2, 4]);
}

#[test]
fn program_order_decides_what_a_gather_sees() {
    let mut t = Trace::new();
    set_backend(&mut t, "cpu").unwrap();
    let dst = make(&mut t, VarType::I32, i32_seq(&[1, 1]), None).unwrap();
    let idx = index(&mut t, 2);
    // Built before the scatter: sees the original contents.
    let before = dst.gather(&mut t, HostValue::Node(idx), None).unwrap();
    let src = make(&mut t, VarType::I32, i32_seq(&[5, 6]), None).unwrap();
    src.scatter(&mut t, &dst, HostValue::Node(idx), None).unwrap();
    // Built after the scatter: sees the written contents.
    let after = dst.gather(&mut t, HostValue::Node(idx), None).unwrap();
    before.schedule(&mut t);
    after.schedule(&mut t);
    eval(&mut t).unwrap();
    assert_eq!(before.to_list(&t).unwrap(), vec![1, 1]);
    assert_eq!(after.to_list(&t).unwrap(), vec![5, 6]);
}

#[test]
fn repeated_eval_changes_nothing() {
    let mut t = Trace::new();
    set_backend(&mut t, "cpu").unwrap();
    let v = make(&mut t, VarType::I32, i32_seq(&[4, 5]), None).unwrap();
    let w = v.add(&mut t, HostValue::Scalar(HostScalar::Int(1))).unwrap();
    w.schedule(&mut t);
    eval(&mut t).unwrap();
    let first = w.to_list(&t).unwrap();
    // Nothing newly scheduled: the second call performs no observable
    // backend work and every materialized result is bit-identical.
    let nodes_before = t.nodes.len();
    eval(&mut t).unwrap();
    assert_eq!(t.nodes.len(), nodes_before);
    assert_eq!(w.to_list(&t).unwrap(), first);
}

#[test]
fn schedule_is_idempotent() {
    let mut t = Trace::new();
    set_backend(&mut t, "cpu").unwrap();
    let v = make(&mut t, VarType::I32, i32_seq(&[1]), None).unwrap();
    v.schedule(&mut t);
    v.schedule(&mut t);
    assert_eq!(t.schedule.len(), 1);
    eval(&mut t).unwrap();
    assert_eq!(t.schedule.len(), 0);
}

#[test]
fn unknown_backend_is_refused() {
    let mut t = Trace::new();
    let r = set_backend(&mut t, "cuda");
    assert_eq!(
        r.err().unwrap(),
        Error::BackendError { kind: BackendErrorKind::UnknownBackend }
    );
    assert!(t.backend.is_none());
}

#[test]
fn eval_without_backend_is_refused() {
    let mut t = Trace::new();
    let v = make(&mut t, VarType::I32, i32_seq(&[1]), None).unwrap();
    v.schedule(&mut t);
    assert_eq!(
        eval(&mut t).err().unwrap(),
        Error::BackendError { kind: BackendErrorKind::NoBackend }
    );
}

#[test]
fn rebinding_backend_drops_materialized_state() {
    let mut t = Trace::new();
    set_backend(&mut t, "cpu").unwrap();
    let v = make(&mut t, VarType::I32, i32_seq(&[1, 2]), None).unwrap();
    v.schedule(&mut t);
    eval(&mut t).unwrap();
    assert!(v.to_list(&t).is_ok());
    set_backend(&mut t, "cpu").unwrap();
    assert_eq!(
        v.to_list(&t).err().unwrap(),
        Error::BackendError { kind: BackendErrorKind::NotMaterialized }
    );
}

#[test]
fn size_reports_materialized_length() {
    let mut t = Trace::new();
    set_backend(&mut t, "cpu").unwrap();
    let p = make(&mut t, VarType::Bool, bool_seq(&[true, false, true]), None).unwrap();
    let c = p.compress(&mut t).unwrap();
    c.schedule(&mut t);
    eval(&mut t).unwrap();
    assert_eq!(c.size(&t), 2);
    assert_eq!(p.size(&t), 3);
}
