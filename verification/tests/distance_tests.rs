use ordered_float::OrderedFloat;
use vector_index::distance::{
    check_dimension, distance_key_of_bits, is_supported_dimension, DIM_104, DIM_128, DIM_256,
};
use vector_index::error::VectorIndexError;

#[test]
fn equal_lengths_pass() {
    assert!(check_dimension(128, 128).is_ok());
    assert!(check_dimension(0, 0).is_ok());
}

#[test]
fn different_lengths_give_invalid_dimension() {
    let r = check_dimension(104, 128);
    assert!(matches!(
        r,
        Err(VectorIndexError::InvalidDimension { expected: 128, actual: 104 })
    ));
    let r = check_dimension(256, 0);
    assert!(matches!(r, Err(VectorIndexError::InvalidDimension { expected: 0, actual: 256 })));
}

#[test]
fn supported_dimensions_are_three() {
    assert_eq!((DIM_104, DIM_128, DIM_256), (104, 128, 256));
    assert!(is_supported_dimension(104));
    assert!(is_supported_dimension(128));
    assert!(is_supported_dimension(256));
    assert!(!is_supported_dimension(0));
    assert!(!is_supported_dimension(64));
    assert!(!is_supported_dimension(127));
    assert!(!is_supported_dimension(512));
}

#[test]
fn keys_of_given_bit_patterns() {
    assert_eq!(distance_key_of_bits(0), 0x7FFF_FFFF);
    assert_eq!(distance_key_of_bits(0x8000_0000), 0x7FFF_FFFF);
    assert_eq!(distance_key_of_bits(1), 0x8000_0000);
    assert_eq!(distance_key_of_bits(0x8000_0001), 0x7FFF_FFFE);
    assert_eq!(distance_key_of_bits(0x7F80_0000), 0xFF7F_FFFF);
    assert_eq!(distance_key_of_bits(0xFF80_0000), 0x007F_FFFF);
    assert_eq!(distance_key_of_bits(0x7F80_0001), u32::MAX);
    assert_eq!(distance_key_of_bits(0x7FC0_0000), u32::MAX);
    assert_eq!(distance_key_of_bits(0xFFC0_0000), u32::MAX);
    assert_eq!(distance_key_of_bits(u32::MAX), u32::MAX);
    assert_eq!(distance_key_of_bits(1.0f32.to_bits()), 0x7FFF_FFFF + 0x3F80_0000);
}

#[test]
fn keys_are_ordered_as_the_distances_are() {
    let values = [
        f32::NEG_INFINITY,
        -1.0e30,
        -2.5,
        -1.0,
        -f32::MIN_POSITIVE,
        -1.0e-45,
        -0.0,
        0.0,
        1.0e-45,
        f32::MIN_POSITIVE,
        0.1,
        0.5,
        1.0,
        1.0000001,
        2.5,
        1234.5,
        3.0e38,
        f32::MAX,
        f32::INFINITY,
        f32::NAN,
        -f32::NAN,
    ];
    for a in values {
        for b in values {
            let ka = distance_key_of_bits(a.to_bits());
            let kb = distance_key_of_bits(b.to_bits());
            assert_eq!(ka < kb, OrderedFloat(a) < OrderedFloat(b), "{} against {}", a, b);
            assert_eq!(ka == kb, OrderedFloat(a) == OrderedFloat(b), "{} against {}", a, b);
        }
    }
}

#[test]
fn keys_of_squared_distances_rise_with_them() {
    let mut last = distance_key_of_bits(0.0f32.to_bits());
    let mut d = 0.0f32;
    for _ in 0..1000 {
        d += 0.37;
        let key = distance_key_of_bits((d * d).to_bits());
        assert!(key > last);
        last = key;
    }
}
