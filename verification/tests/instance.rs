use cgmath::{Deg, Matrix4, Rotation3, SquareMatrix};
use scenegraph::renderer::instance::{Instance, InstanceRaw};
use scenegraph::renderer::upload::{
    instance_buffer_size, instance_bytes, instance_words, model_vertex_layout, VertexFormat,
    VertexStepMode,
};
use scenegraph::transform::{Factor, Quaternion, Transform, Vector3, Vector4, ONE, ZERO};

fn scalar(bits: u32) -> f32 {
    f32::from_bits(bits)
}

fn matrix_of(factor: &Factor) -> Matrix4<f32> {
    match factor {
        Factor::Rotation(q) => Matrix4::from(cgmath::Quaternion::new(
            scalar(q.s),
            scalar(q.v.x),
            scalar(q.v.y),
            scalar(q.v.z),
        )),
        Factor::Translation(v) => {
            Matrix4::from_translation(cgmath::Vector3::new(scalar(v.x), scalar(v.y), scalar(v.z)))
        }
        Factor::Scale(s) => Matrix4::from_scale(scalar(*s)),
    }
}

fn column(v: cgmath::Vector4<f32>) -> Vector4 {
    Vector4 { x: v.x.to_bits(), y: v.y.to_bits(), z: v.z.to_bits(), w: v.w.to_bits() }
}

fn bits_of(m: Matrix4<f32>) -> scenegraph::transform::Matrix4 {
    scenegraph::transform::Matrix4 { x: column(m.x), y: column(m.y), z: column(m.z), w: column(m.w) }
}

fn eval(t: &Transform) -> InstanceRaw {
    let mut product = Matrix4::identity();
    for factor in &t.factors {
        product = product * matrix_of(factor);
    }
    InstanceRaw { model: bits_of(product), inverse_model: bits_of(product.invert().unwrap()) }
}

#[test]
fn default_instance_is_at_the_origin() {
    let instance = Instance::default();
    assert_eq!(instance.position, Vector3 { x: 0, y: 0, z: 0 });
    assert_eq!(instance.rotation, Quaternion { s: 1.0f32.to_bits(), v: Vector3 { x: 0, y: 0, z: 0 } });
    assert_eq!(instance.scale, 1.0f32.to_bits());
}

#[test]
fn default_rotation_is_no_rotation_about_any_axis() {
    let q = cgmath::Quaternion::from_axis_angle(cgmath::Vector3::unit_z(), Deg(0.0f32));
    let identity = Quaternion::identity();
    assert_eq!(identity.s, q.s.to_bits());
    assert_eq!(identity.v, Vector3::new(q.v.x.to_bits(), q.v.y.to_bits(), q.v.z.to_bits()));
}

#[test]
fn scalar_constants_are_bit_patterns() {
    assert_eq!(ZERO, 0.0f32.to_bits());
    assert_eq!(ONE, 1.0f32.to_bits());
    assert_eq!(scenegraph::transform::THREE_QUARTERS, 0.75f32.to_bits());
    assert_eq!(scenegraph::transform::TWO, 2.0f32.to_bits());
    assert_eq!(scenegraph::transform::FIVE, 5.0f32.to_bits());
    assert_eq!(scenegraph::transform::TEN, 10.0f32.to_bits());
}

#[test]
fn model_matrix_is_translation_then_rotation_then_scale() {
    let instance = Instance {
        position: Vector3::new(1.0f32.to_bits(), 2.0f32.to_bits(), 3.0f32.to_bits()),
        rotation: Quaternion::identity(),
        scale: 4.0f32.to_bits(),
    };
    let t = instance.transform();
    assert_eq!(
        t.factors,
        vec![
            Factor::Translation(instance.position),
            Factor::Rotation(instance.rotation),
            Factor::Scale(instance.scale),
        ]
    );
}

#[test]
fn to_raw_hands_the_model_matrix_to_eval() {
    let q = cgmath::Quaternion::from_axis_angle(cgmath::Vector3::unit_z(), Deg(90.0f32));
    let instance = Instance {
        position: Vector3::new(1.0f32.to_bits(), 2.0f32.to_bits(), 3.0f32.to_bits()),
        rotation: Quaternion {
            s: q.s.to_bits(),
            v: Vector3::new(q.v.x.to_bits(), q.v.y.to_bits(), q.v.z.to_bits()),
        },
        scale: 2.0f32.to_bits(),
    };
    let raw = instance.to_raw(&eval);
    let expected = Matrix4::from_translation(cgmath::Vector3::new(1.0f32, 2.0, 3.0))
        * Matrix4::from(q)
        * Matrix4::from_scale(2.0f32);
    assert_eq!(raw.model, bits_of(expected));
    assert_eq!(raw.inverse_model, bits_of(expected.invert().unwrap()));
    // the translation is the position, whatever the rotation
    assert_eq!(scalar(raw.model.w.x), 1.0);
    assert_eq!(scalar(raw.model.w.y), 2.0);
    assert_eq!(scalar(raw.model.w.z), 3.0);
}

#[test]
fn identity_transform_has_no_factor() {
    assert!(Transform::identity().factors.is_empty());
}

#[test]
fn then_local_appends_rotation_translation_scale() {
    let start = Transform { factors: vec![Factor::Scale(TWO_BITS)] };
    let q = Quaternion::identity();
    let p = Vector3::new(ONE, ZERO, ZERO);
    let t = start.then_local(q, p, ONE);
    assert_eq!(
        t.factors,
        vec![
            Factor::Scale(TWO_BITS),
            Factor::Rotation(q),
            Factor::Translation(p),
            Factor::Scale(ONE),
        ]
    );
    assert_eq!(start.factors, vec![Factor::Scale(TWO_BITS)]);
    assert_eq!(start.duplicate().factors, start.factors);
    assert_eq!(
        Transform::local(q, p, ONE).factors,
        vec![Factor::Rotation(q), Factor::Translation(p), Factor::Scale(ONE)]
    );
}

const TWO_BITS: u32 = 0x4000_0000;

#[test]
fn instance_bytes_are_the_scalars_in_memory() {
    let m = Matrix4::from_translation(cgmath::Vector3::new(1.0f32, 2.0, 3.0))
        * Matrix4::from_scale(2.0f32);
    let record = InstanceRaw { model: bits_of(m), inverse_model: bits_of(m.invert().unwrap()) };
    let other = eval(&Transform::identity());
    let records = vec![record, other];
    let words = instance_words(&records);
    assert_eq!(words.len(), 64);
    let columns: [[f32; 4]; 4] = m.into();
    let inverse: [[f32; 4]; 4] = m.invert().unwrap().into();
    let mut expected: Vec<u8> = Vec::new();
    for (k, x) in columns.iter().flatten().chain(inverse.iter().flatten()).enumerate() {
        assert_eq!(words[k], x.to_bits());
        expected.extend_from_slice(&x.to_ne_bytes());
    }
    let bytes = instance_bytes(&records);
    assert_eq!(bytes.len(), 256);
    assert_eq!(&bytes[..128], &expected[..]);
    assert_eq!(&bytes[128..132], &1.0f32.to_ne_bytes());
    assert_eq!(&bytes[132..136], &0.0f32.to_ne_bytes());
    assert!(instance_bytes(&vec![]).is_empty());
    assert_eq!(instance_buffer_size(0), Some(0));
    assert_eq!(instance_buffer_size(3), Some(384));
    assert_eq!(instance_buffer_size(usize::MAX), (usize::MAX as u64).checked_mul(128));
}

#[test]
fn instance_layout_is_eight_columns() {
    let layout = InstanceRaw::layout();
    assert_eq!(layout.array_stride, 128);
    assert_eq!(layout.array_stride, std::mem::size_of::<[[f32; 4]; 8]>() as u64);
    assert_eq!(layout.step_mode, VertexStepMode::Instance);
    assert_eq!(layout.attributes.len(), 8);
    for (k, attribute) in layout.attributes.iter().enumerate() {
        assert_eq!(attribute.offset, 16 * k as u64);
        assert_eq!(attribute.shader_location, 5 + k as u32);
        assert_eq!(attribute.format, VertexFormat::Float32x4);
    }
    assert_eq!(layout.attributes[4].offset, std::mem::size_of::<[f32; 16]>() as u64);
    assert_eq!(layout.attributes[7].shader_location, 12);
}

#[test]
fn model_vertex_layout_is_five_attributes() {
    let layout = model_vertex_layout();
    assert_eq!(layout.array_stride, 56);
    assert_eq!(layout.array_stride, std::mem::size_of::<[f32; 14]>() as u64);
    assert_eq!(layout.step_mode, VertexStepMode::Vertex);
    let table: Vec<(u64, u32, VertexFormat)> =
        layout.attributes.iter().map(|a| (a.offset, a.shader_location, a.format)).collect();
    assert_eq!(
        table,
        vec![
            (0, 0, VertexFormat::Float32x3),
            (12, 1, VertexFormat::Float32x2),
            (20, 2, VertexFormat::Float32x3),
            (32, 3, VertexFormat::Float32x3),
            (44, 4, VertexFormat::Float32x3),
        ]
    );
}

#[test]
fn formats_have_four_bytes_to_a_scalar() {
    assert_eq!(VertexFormat::Float32x2.size(), 8);
    assert_eq!(VertexFormat::Float32x3.size(), 12);
    assert_eq!(VertexFormat::Float32x4.size(), 16);
}
