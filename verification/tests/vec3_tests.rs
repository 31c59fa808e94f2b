use raytracer_weekend_lib::scalar::Scalar;
use raytracer_weekend_lib::vec3::{GenericVec3, Vec3};

fn s(x: f32) -> Scalar {
    Scalar::from_bits(x.to_bits())
}

#[test]
fn a_triple_keeps_its_components() {
    let v = GenericVec3::new(1u8, 2, 3);
    assert_eq!((v.x(), v.y(), v.z()), (1, 2, 3));
    assert_eq!(v.as_tuple(), (1, 2, 3));
    assert_eq!((v.axis(0), v.axis(1), v.axis(2)), (1, 2, 3));
    let w = GenericVec3::from_tuple((7i64, -8, 9));
    assert_eq!(w.as_tuple(), (7, -8, 9));
    let copy = w;
    assert_eq!(copy.clone().as_tuple(), w.as_tuple());
}

#[test]
fn the_opposite_vector_flips_every_sign() {
    let v = Vec3::new(s(1.5), s(-0.0), s(f32::INFINITY));
    let n = v.neg();
    assert_eq!(n.x(), s(-1.5));
    assert_eq!(n.y(), s(0.0));
    assert_eq!(n.z(), s(f32::NEG_INFINITY));
    assert_eq!(n.neg().as_tuple(), v.as_tuple());
}

#[test]
fn whole_number_vectors_multiply() {
    let a = GenericVec3::new(1i64, -2, 3);
    let b = GenericVec3::new(4i64, 5, -6);
    assert_eq!(a.dot(&b), 4 - 10 - 18);
    assert_eq!(a.length_squared(), 14);
    assert_eq!(a.cross(&b).as_tuple(), (12 - 15, 12 + 6, 5 + 8));
    assert_eq!(b.cross(&a).as_tuple(), (3, -18, -13));
    assert_eq!(a.internal_product(), -6);
    assert_eq!(GenericVec3::new(0i64, 0, 0).length_squared(), 0);
}

#[test]
fn whole_numbers_keep_their_low_bits_as_indices() {
    assert_eq!(GenericVec3::new(0i64, 5, 1 << 40).to_usize().as_tuple(), (0, 5, (1i64 << 40) as usize));
    assert_eq!(
        GenericVec3::new(-1i64, -2, i64::MIN).to_usize().as_tuple(),
        (usize::MAX, usize::MAX - 1, i64::MIN as usize)
    );
}

#[test]
fn indices_add_with_wrapping() {
    let a = GenericVec3::new(1usize, 2, 3);
    let (sum, wrapped) = a.overflowing_add(GenericVec3::new(10, 20, 30));
    assert_eq!(sum.as_tuple(), (11, 22, 33));
    assert!(!wrapped);
    let (sum, wrapped) = a.overflowing_add(GenericVec3::new(0, usize::MAX, 0));
    assert_eq!(sum.as_tuple(), (1, 1, 3));
    assert!(wrapped);
    let (sum, wrapped) = GenericVec3::new(usize::MAX, 0, 0).overflowing_add(GenericVec3::new(0, 0, 0));
    assert_eq!(sum.as_tuple(), (usize::MAX, 0, 0));
    assert!(!wrapped);
}

#[test]
fn indices_are_masked_and_combined() {
    let a = GenericVec3::new(0x1ffusize, 256, 255);
    assert_eq!(a.bitand(255).as_tuple(), (255, 0, 255));
    assert_eq!(a.bitand(0).as_tuple(), (0, 0, 0));
    assert_eq!(GenericVec3::new(0b1100usize, 0b1010, 0b0001).internal_bit_xor(), 0b0111);
    assert_eq!(GenericVec3::new(7usize, 7, 0).internal_bit_xor(), 0);
}
