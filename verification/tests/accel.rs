//! The acceleration-structure descriptor builder, its cross-reference
//! validation, textures, and ray queries.

use lazyjit::error::{BackendErrorKind, DescriptorErrorKind, Error};
use lazyjit::funcs::{
    accel, eval, make, set_backend, texture, AccelDesc, HostScalar, HostValue,
};
use lazyjit::trace::Trace;
use lazyjit::vartype::VarType;

fn f32_seq(vals: &[f32]) -> HostValue {
    let mut s = Vec::new();
    for v in vals {
        s.push(HostScalar::F32Bits(v.to_bits()));
    }
    HostValue::Sequence(s)
}

fn u32_seq(vals: &[u32]) -> HostValue {
    let mut s = Vec::new();
    for v in vals {
        s.push(HostScalar::UInt(*v as u64));
    }
    HostValue::Sequence(s)
}

fn identity_transform() -> Vec<u32> {
    let rows: [f32; 12] = [
        1.0, 0.0, 0.0, 0.0, 0.0, 1.0, 0.0, 0.0, 0.0, 0.0, 1.0, 0.0,
    ];
    rows.iter().map(|x| x.to_bits()).collect()
}

fn one_triangle(t: &mut Trace, desc: &mut AccelDesc) -> usize {
    let vertices = f32_seq(&[0.0, 0.0, 0.0, 1.0, 0.0, 0.0, 0.0, 1.0, 0.0]);
    let indices = u32_seq(&[0, 1, 2]);
    desc.add_triangles(t, vertices, indices).unwrap()
}

#[test]
fn accel_succeeds_on_consistent_descriptor() {
    let mut t = Trace::new();
    set_backend(&mut t, "cpu").unwrap();
    let mut desc = AccelDesc::new();
    let gid = one_triangle(&mut t, &mut desc);
    assert_eq!(gid, 0);
    let hg = desc
        .add_hit_group("closest_hit_main", "closest hit shader text", None, None, None, None)
        .unwrap();
    assert_eq!(hg, 0);
    let mg = desc.add_miss_group("miss_main", "miss shader text");
    assert_eq!(mg, 0);
    desc.add_instance(0, identity_transform(), 0);
    let a = accel(&mut t, desc).unwrap();
    // The structure projects into the graph as a single node, and an
    // evaluation accepts it.
    a.schedule(&mut t);
    eval(&mut t).unwrap();
}

#[test]
fn accel_rejects_geometry_out_of_range() {
    let mut t = Trace::new();
    let mut desc = AccelDesc::new();
    one_triangle(&mut t, &mut desc);
    desc.add_instance(1, identity_transform(), 0);
    let nodes_before = t.nodes.len();
    let r = accel(&mut t, desc);
    assert_eq!(
        r.err().unwrap(),
        Error::DescriptorError { kind: DescriptorErrorKind::GeometryOutOfRange }
    );
    assert_eq!(t.nodes.len(), nodes_before);
}

#[test]
fn accel_rejects_hit_group_out_of_range() {
    let mut t = Trace::new();
    let mut desc = AccelDesc::new();
    one_triangle(&mut t, &mut desc);
    desc.add_hit_group("ch", "src", None, None, None, None).unwrap();
    desc.add_instance(0, identity_transform(), 3);
    let r = accel(&mut t, desc);
    assert_eq!(
        r.err().unwrap(),
        Error::DescriptorError { kind: DescriptorErrorKind::HitGroupOutOfRange }
    );
}

#[test]
fn accel_without_hit_groups_ignores_hit_group_ids() {
    let mut t = Trace::new();
    let mut desc = AccelDesc::new();
    one_triangle(&mut t, &mut desc);
    desc.add_instance(0, identity_transform(), 7);
    assert!(accel(&mut t, desc).is_ok());
}

#[test]
fn hit_group_with_source_but_no_entry_point_is_inconsistent() {
    let mut desc = AccelDesc::new();
    let r = desc.add_hit_group("ch", "src", None, Some("any hit text"), None, None);
    assert_eq!(
        r.err().unwrap(),
        Error::DescriptorError { kind: DescriptorErrorKind::InconsistentModule }
    );
    let r2 = desc.add_hit_group("ch", "src", None, None, Some("isect_main"), None);
    assert_eq!(
        r2.err().unwrap(),
        Error::DescriptorError { kind: DescriptorErrorKind::InconsistentModule }
    );
}

#[test]
fn hit_group_with_full_pairs_is_accepted() {
    let mut desc = AccelDesc::new();
    let r = desc.add_hit_group(
        "ch",
        "src",
        Some("ah_main"),
        Some("any hit text"),
        Some("is_main"),
        Some("intersection text"),
    );
    assert_eq!(r.unwrap(), 0);
}

#[test]
fn trace_ray_yields_payload_slots_and_distance() {
    let mut t = Trace::new();
    set_backend(&mut t, "cpu").unwrap();
    let mut desc = AccelDesc::new();
    one_triangle(&mut t, &mut desc);
    desc.add_instance(0, identity_transform(), 0);
    let a = accel(&mut t, desc).unwrap();
    let payload = vec![HostValue::Scalar(HostScalar::UInt(0))];
    let o = vec![
        HostValue::Scalar(HostScalar::F32Bits(0.25f32.to_bits())),
        HostValue::Scalar(HostScalar::F32Bits(0.25f32.to_bits())),
        HostValue::Scalar(HostScalar::F32Bits(1.0f32.to_bits())),
    ];
    let d = vec![
        HostValue::Scalar(HostScalar::F32Bits(0.0f32.to_bits())),
        HostValue::Scalar(HostScalar::F32Bits(0.0f32.to_bits())),
        HostValue::Scalar(HostScalar::F32Bits((-1.0f32).to_bits())),
    ];
    let tmin = HostValue::Scalar(HostScalar::F32Bits(0.0f32.to_bits()));
    let tmax = HostValue::Scalar(HostScalar::F32Bits(100.0f32.to_bits()));
    let dist = HostValue::Scalar(HostScalar::F32Bits(100.0f32.to_bits()));
    let rays = a
        .trace_ray(
            &mut t, payload, o, d, tmin, tmax, dist, None, None, None, None, None, None,
        )
        .unwrap();
    assert_eq!(rays.len(), 2);
    assert_eq!(rays[0].ty(&t), VarType::U32);
    assert_eq!(rays[1].ty(&t), VarType::F32);
    // Ray queries need a ray-tracing backend.
    rays[0].schedule(&mut t);
    assert_eq!(
        eval(&mut t).err().unwrap(),
        Error::BackendError { kind: BackendErrorKind::UnsupportedOp }
    );
}

#[test]
fn trace_ray_on_non_accel_is_refused() {
    let mut t = Trace::new();
    let v = make(&mut t, VarType::U32, u32_seq(&[1]), None).unwrap();
    let r = v.trace_ray(
        &mut t,
        vec![],
        vec![
            HostValue::Scalar(HostScalar::F32Bits(0)),
            HostValue::Scalar(HostScalar::F32Bits(0)),
            HostValue::Scalar(HostScalar::F32Bits(0)),
        ],
        vec![
            HostValue::Scalar(HostScalar::F32Bits(0)),
            HostValue::Scalar(HostScalar::F32Bits(0)),
            HostValue::Scalar(HostScalar::F32Bits(0)),
        ],
        HostValue::Scalar(HostScalar::F32Bits(0)),
        HostValue::Scalar(HostScalar::F32Bits(0)),
        HostValue::Scalar(HostScalar::F32Bits(0)),
        None,
        None,
        None,
        None,
        None,
        None,
    );
    assert_eq!(r.err().unwrap(), Error::UnsupportedType { ty: VarType::U32 });
}

#[test]
fn texture_round_trips_through_buffer() {
    let mut t = Trace::new();
    set_backend(&mut t, "cpu").unwrap();
    let lanes: Vec<f32> = vec![
        0.5, 1.5, 2.5, 3.5, 4.5, 5.5, 6.5, 7.5, 8.5, 9.5, 10.5, 11.5,
    ];
    let v = make(&mut t, VarType::F32, f32_seq(&lanes), None).unwrap();
    let tex = v.to_texture(&mut t, vec![2, 2], 3).unwrap();
    let back = tex.tex_to_buffer(&mut t).unwrap();
    back.schedule(&mut t);
    eval(&mut t).unwrap();
    let expect: Vec<u64> = lanes.iter().map(|x| x.to_bits() as u64).collect();
    assert_eq!(back.to_list(&t).unwrap(), expect);
}

#[test]
fn to_texture_checks_extent() {
    let mut t = Trace::new();
    let v = make(&mut t, VarType::F32, f32_seq(&[1.0, 2.0, 3.0]), None).unwrap();
    let r = v.to_texture(&mut t, vec![2, 2], 1);
    assert_eq!(r.err().unwrap(), Error::SizeMismatch { expected: 4, found: 3 });
}

#[test]
fn texture_storage_materializes_to_zeroes() {
    let mut t = Trace::new();
    set_backend(&mut t, "cpu").unwrap();
    let tex = texture(&mut t, vec![2], 2).unwrap();
    assert_eq!(tex.ty(&t), VarType::F32);
    let back = tex.tex_to_buffer(&mut t).unwrap();
    back.schedule(&mut t);
    eval(&mut t).unwrap();
    assert_eq!(back.to_list(&t).unwrap(), vec![0, 0, 0, 0]);
}

#[test]
fn tex_lookup_builds_one_node_per_channel() {
    let mut t = Trace::new();
    set_backend(&mut t, "cpu").unwrap();
    let tex = texture(&mut t, vec![2, 2], 3).unwrap();
    let x = make(
        &mut t,
        VarType::F32,
        HostValue::Scalar(HostScalar::F32Bits(0.5f32.to_bits())),
        None,
    )
    .unwrap();
    let y = make(
        &mut t,
        VarType::F32,
        HostValue::Scalar(HostScalar::F32Bits(0.5f32.to_bits())),
        None,
    )
    .unwrap();
    let channels = tex.tex_lookup(&mut t, vec![x, y]).unwrap();
    assert_eq!(channels.len(), 3);
    for c in &channels {
        assert_eq!(c.ty(&t), VarType::F32);
    }
    // Sampling needs a numeric backend.
    channels[0].schedule(&mut t);
    assert_eq!(
        eval(&mut t).err().unwrap(),
        Error::BackendError { kind: BackendErrorKind::UnsupportedOp }
    );
}

#[test]
fn tex_lookup_checks_dimension_count() {
    let mut t = Trace::new();
    let tex = texture(&mut t, vec![2, 2], 1).unwrap();
    let x = make(
        &mut t,
        VarType::F32,
        HostValue::Scalar(HostScalar::F32Bits(0)),
        None,
    )
    .unwrap();
    let r = tex.tex_lookup(&mut t, vec![x]);
    assert_eq!(r.err().unwrap(), Error::SizeMismatch { expected: 2, found: 1 });
}
