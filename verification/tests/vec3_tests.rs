use stl_parser::vec3::Vec3;

fn v(x: f32, y: f32, z: f32) -> Vec3 {
    Vec3 { x: x.to_bits(), y: y.to_bits(), z: z.to_bits() }
}

#[test]
fn test_add() {
    let v1 = v(1.0, 2.0, 3.0);
    let v2 = v(2.0, 3.0, 4.0);
    let result = v1.add(v2);
    assert_eq!(result, v(3.0, 5.0, 7.0));
}

#[test]
fn test_sub() {
    let v1 = v(1.0, 2.0, 3.0);
    let v2 = v(2.0, 3.0, 4.0);
    let result = v1.sub(v2);
    assert_eq!(result, v(-1.0, -1.0, -1.0));
}

#[test]
fn test_mul_scalar() {
    let a = v(1.0, 2.0, 3.0);
    let scalar = 2.0f32;
    let result = a.scale(scalar.to_bits());
    assert_eq!(result, v(2.0, 4.0, 6.0));
}

#[test]
fn test_mul_vec3() {
    let v1 = v(1.0, 2.0, 3.0);
    let v2 = v(2.0, 3.0, 4.0);
    let result = v1.mul(v2);
    assert_eq!(result, v(2.0, 6.0, 12.0));
}

#[test]
fn test_div() {
    let a = v(2.0, 4.0, 6.0);
    let scalar = 2.0f32;
    let result = a.div(scalar.to_bits());
    assert_eq!(result, v(1.0, 2.0, 3.0));
}

#[test]
fn test_neg() {
    let a = v(1.0, 2.0, 3.0);
    let result = a.neg();
    assert_eq!(result, v(-1.0, -2.0, -3.0));
}

#[test]
fn test_from_tuple() {
    let tuple = (1.0f32.to_bits(), 2.0f32.to_bits(), 3.0f32.to_bits());
    let result = Vec3::from(tuple);
    assert_eq!(result, v(1.0, 2.0, 3.0));
}

#[test]
fn test_from_array() {
    let array = [1.0f32.to_bits(), 2.0f32.to_bits(), 3.0f32.to_bits()];
    let result = Vec3::from(array);
    assert_eq!(result, v(1.0, 2.0, 3.0));
}

#[test]
fn test_from_str() {
    let s = "1.0 2.0 3.0";
    let result = Vec3::from_str(s.as_bytes()).unwrap();
    assert_eq!(result, v(1.0, 2.0, 3.0));
}

#[test]
fn test_try_from_vec() {
    let vec = vec![1.0f32.to_bits(), 2.0f32.to_bits(), 3.0f32.to_bits()];
    let result = Vec3::try_from(vec);
    assert_eq!(result.unwrap(), v(1.0, 2.0, 3.0));
}

#[test]
fn test_d3() {
    let a = v(1.0, 2.0, 3.0);
    let result = a.d3();
    assert_eq!(result, f32::sqrt(14.0).to_bits());
}

#[test]
fn test_dot() {
    let v1 = v(1.0, 2.0, 3.0);
    let v2 = v(2.0, 3.0, 4.0);
    let result = v1.dot(v2);
    assert_eq!(result, (1.0f32 * 2.0 + 2.0 * 3.0 + 3.0 * 4.0).to_bits());
}

#[test]
fn test_normalize() {
    let a = v(1.0, 2.0, 3.0);
    let length = f32::from_bits(a.d3());
    let normalized = a.normalize();
    assert_eq!(normalized, v(1.0 / length, 2.0 / length, 3.0 / length));
}

#[test]
fn test_cross_simple() {
    let v1 = v(1.0, 0.0, 0.0);
    let v2 = v(0.0, 1.0, 0.0);
    let _result = v1.cross(v2);
    assert_eq!(v1.cross(v2), v(0.0, 0.0, 1.0));
    assert_eq!(v2.cross(v1), v(0.0, 0.0, -1.0));
}

#[test]
fn test_cross() {
    let v1 = v(1.0, 2.0, 3.0);
    let v2 = v(2.0, 3.0, 4.0);
    let result = v1.cross(v2);
    assert_eq!(result, v(2.0 - 3.0, 3.0 * 2.0 - 1.0 * 4.0, 1.0 * 3.0 - 2.0 * 2.0));
}

#[test]
fn test_write_le_bytes() {
    let a = v(1.0, 2.0, 3.0);
    let mut buffer = Vec::new();
    a.write_le_bytes(&mut buffer);
    let expected_bytes: Vec<u8> = vec![
        0x00, 0x00, 0x80, 0x3F, // 1.0 as little-endian bytes
        0x00, 0x00, 0x00, 0x40, // 2.0 as little-endian bytes
        0x00, 0x00, 0x40, 0x40, // 3.0 as little-endian bytes
    ];
    assert_eq!(buffer, expected_bytes);
}
