use rt::object::{cube_normal, total_key, Face};

fn bits(d: [f64; 6]) -> [u64; 6] {
    d.map(f64::to_bits)
}

#[test]
fn the_nearest_face_is_chosen() {
    assert_eq!(cube_normal(&bits([0.5, 1.5, 0.2, 1.8, 0.9, 1.1])), Face::NegY);
    assert_eq!(cube_normal(&bits([0.5, 1.5, 0.7, 1.8, 0.9, 0.0])), Face::PosZ);
    assert_eq!(cube_normal(&bits([2.0, 1e-9, 0.7, 1.8, 0.9, 0.3])), Face::PosX);
}

#[test]
fn ties_go_to_the_first_face() {
    assert_eq!(cube_normal(&bits([1.0, 1.0, 1.0, 1.0, 1.0, 1.0])), Face::NegX);
    assert_eq!(cube_normal(&bits([3.0, 2.0, 1.0, 1.0, 2.0, 1.0])), Face::NegY);
}

#[test]
fn nan_distances_sort_last() {
    assert_eq!(cube_normal(&bits([f64::NAN, 5.0, f64::NAN, 4.0, 6.0, f64::INFINITY])), Face::PosY);
}

#[test]
fn face_normals_point_outwards() {
    assert_eq!(Face::NegX.normal(), (-1, 0, 0));
    assert_eq!(Face::PosX.normal(), (1, 0, 0));
    assert_eq!(Face::NegY.normal(), (0, -1, 0));
    assert_eq!(Face::PosY.normal(), (0, 1, 0));
    assert_eq!(Face::NegZ.normal(), (0, 0, -1));
    assert_eq!(Face::PosZ.normal(), (0, 0, 1));
}

#[test]
fn total_keys_order_like_total_cmp() {
    let values = [
        f64::NEG_INFINITY, -1e300, -2.5, -1.0, -f64::MIN_POSITIVE, -0.0, 0.0, 5e-324, 1.0, 2.5,
        f64::MAX, f64::INFINITY, f64::NAN, -f64::NAN,
    ];
    for a in values {
        for b in values {
            assert_eq!(total_key(a.to_bits()).cmp(&total_key(b.to_bits())), a.total_cmp(&b), "{} {}", a, b);
        }
    }
}

#[test]
fn total_keys_have_exact_values() {
    assert_eq!(total_key(0), 0);
    assert_eq!(total_key(1.0f64.to_bits()), 0x3FF0_0000_0000_0000);
    assert_eq!(total_key((-0.0f64).to_bits()), -1);
    assert_eq!(total_key(u64::MAX), i64::MIN);
}
