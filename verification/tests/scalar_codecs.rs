//! Round trips and error cases for the boolean, unsigned and signed
//! integer codecs.

use rlp::{decode_usize, Decodable, DecoderError, Encodable, Node};

fn payload(n: &Node) -> &Vec<u8> {
    match n {
        Node::Value(p) => p,
        Node::List(_) => panic!("expected a value node"),
    }
}

#[test]
fn unsigned_zero_encodes_to_empty_payload() {
    assert_eq!(0u8.encode(), Node::Value(vec![]));
    assert_eq!(0u16.encode(), Node::Value(vec![]));
    assert_eq!(0u32.encode(), Node::Value(vec![]));
    assert_eq!(0u64.encode(), Node::Value(vec![]));
    assert_eq!(0u128.encode(), Node::Value(vec![]));
    assert_eq!(0usize.encode(), Node::Value(vec![]));
}

#[test]
fn unsigned_one_encodes_to_single_byte() {
    assert_eq!(1u8.encode(), Node::Value(vec![0x01]));
    assert_eq!(1u16.encode(), Node::Value(vec![0x01]));
    assert_eq!(1u32.encode(), Node::Value(vec![0x01]));
    assert_eq!(1u64.encode(), Node::Value(vec![0x01]));
    assert_eq!(1u128.encode(), Node::Value(vec![0x01]));
    assert_eq!(1usize.encode(), Node::Value(vec![0x01]));
}

#[test]
fn unsigned_encoding_is_big_endian_minimal() {
    assert_eq!(0x0400u16.encode(), Node::Value(vec![0x04, 0x00]));
    assert_eq!(0x010203u32.encode(), Node::Value(vec![0x01, 0x02, 0x03]));
    assert_eq!(256u64.encode(), Node::Value(vec![0x01, 0x00]));
}

#[test]
fn unsigned_round_trips() {
    for v in [0u8, 1, 0x7f, 0x80, 0xff] {
        assert_eq!(u8::decode(&v.encode()), Ok(v));
    }
    for v in [0u16, 1, 0xff, 0x100, u16::MAX] {
        assert_eq!(u16::decode(&v.encode()), Ok(v));
    }
    for v in [0u32, 1, 0xffff, 0x10000, u32::MAX] {
        assert_eq!(u32::decode(&v.encode()), Ok(v));
    }
    for v in [0u64, 1, 0xdeadbeef, u64::MAX] {
        assert_eq!(u64::decode(&v.encode()), Ok(v));
    }
    for v in [0u128, 1, u64::MAX as u128 + 1, u128::MAX] {
        assert_eq!(u128::decode(&v.encode()), Ok(v));
    }
    for v in [0usize, 1, usize::MAX] {
        assert_eq!(usize::decode(&v.encode()), Ok(v));
    }
}

#[test]
fn leading_zero_byte_is_rejected_as_invalid_indirection() {
    let n = Node::Value(vec![0x00, 0x01]);
    assert_eq!(u16::decode(&n), Err(DecoderError::RlpInvalidIndirection));
    assert_eq!(u32::decode(&n), Err(DecoderError::RlpInvalidIndirection));
    assert_eq!(u64::decode(&n), Err(DecoderError::RlpInvalidIndirection));
    assert_eq!(u128::decode(&n), Err(DecoderError::RlpInvalidIndirection));
    assert_eq!(usize::decode(&n), Err(DecoderError::RlpInvalidIndirection));
}

#[test]
fn single_zero_byte_is_rejected_for_u8() {
    let n = Node::Value(vec![0x00]);
    assert_eq!(u8::decode(&n), Err(DecoderError::RlpInvalidIndirection));
}

#[test]
fn payload_longer_than_width_is_too_big() {
    let n = Node::Value(vec![0x01, 0x02, 0x03]);
    assert_eq!(u16::decode(&n), Err(DecoderError::RlpIsTooBig));
    let n = Node::Value(vec![0x01, 0x02]);
    assert_eq!(u8::decode(&n), Err(DecoderError::RlpIsTooBig));
    let n = Node::Value(vec![1, 2, 3, 4, 5, 6, 7, 8, 9]);
    assert_eq!(u64::decode(&n), Err(DecoderError::RlpIsTooBig));
    let n = Node::Value(vec![1; 17]);
    assert_eq!(u128::decode(&n), Err(DecoderError::RlpIsTooBig));
}

#[test]
fn scalar_decode_of_a_list_node_is_a_structural_mismatch() {
    let n = Node::List(vec![]);
    assert_eq!(u64::decode(&n), Err(DecoderError::RlpExpectedToBeData));
    assert_eq!(bool::decode(&n), Err(DecoderError::RlpExpectedToBeData));
    assert_eq!(i32::decode(&n), Err(DecoderError::RlpExpectedToBeData));
}

#[test]
fn bool_encodes_canonically() {
    assert_eq!(false.encode(), Node::Value(vec![]));
    assert_eq!(true.encode(), Node::Value(vec![0x01]));
}

#[test]
fn bool_round_trips_and_accepts_explicit_zero_byte() {
    assert_eq!(bool::decode(&false.encode()), Ok(false));
    assert_eq!(bool::decode(&true.encode()), Ok(true));
    // An explicit zero byte is a valid, non-canonical false.
    assert_eq!(bool::decode(&Node::Value(vec![0x00])), Ok(false));
    assert_eq!(bool::decode(&Node::Value(vec![0x07])), Ok(true));
    assert_eq!(
        bool::decode(&Node::Value(vec![0x00, 0x00])),
        Err(DecoderError::RlpIsTooBig)
    );
}

#[test]
fn zigzag_keeps_small_magnitudes_short() {
    let minus_one = (-1i8).encode();
    assert_eq!(payload(&minus_one).len(), 1);
    assert_eq!(minus_one, Node::Value(vec![0x01]));
    let one = 1i8.encode();
    assert_eq!(payload(&one).len(), 1);
    assert_eq!(one, Node::Value(vec![0x02]));
    assert_eq!(i8::decode(&minus_one), Ok(-1));
    assert_eq!(i8::decode(&one), Ok(1));
    assert_eq!(0i64.encode(), Node::Value(vec![]));
}

#[test]
fn zigzag_payloads_are_exact() {
    assert_eq!(2i8.encode(), Node::Value(vec![0x04]));
    assert_eq!((-2i8).encode(), Node::Value(vec![0x03]));
    assert_eq!(i8::MIN.encode(), Node::Value(vec![0xff]));
    assert_eq!(i16::MIN.encode(), Node::Value(vec![0xff, 0xff]));
}

#[test]
fn signed_minimum_values_round_trip() {
    assert_eq!(i8::decode(&i8::MIN.encode()), Ok(i8::MIN));
    assert_eq!(i16::decode(&i16::MIN.encode()), Ok(i16::MIN));
    assert_eq!(i32::decode(&i32::MIN.encode()), Ok(i32::MIN));
    assert_eq!(i64::decode(&i64::MIN.encode()), Ok(i64::MIN));
    assert_eq!(i128::decode(&i128::MIN.encode()), Ok(i128::MIN));
}

#[test]
fn signed_round_trips() {
    for v in [i8::MIN, -2, -1, 0, 1, 2, i8::MAX] {
        assert_eq!(i8::decode(&v.encode()), Ok(v));
    }
    for v in [i16::MIN, -300, 0, 300, i16::MAX] {
        assert_eq!(i16::decode(&v.encode()), Ok(v));
    }
    for v in [i32::MIN, -70000, 0, 70000, i32::MAX] {
        assert_eq!(i32::decode(&v.encode()), Ok(v));
    }
    for v in [i64::MIN, -1, 0, 1, i64::MAX] {
        assert_eq!(i64::decode(&v.encode()), Ok(v));
    }
    for v in [i128::MIN, -1, 0, 1, i128::MAX] {
        assert_eq!(i128::decode(&v.encode()), Ok(v));
    }
}

#[test]
fn float_bit_patterns_round_trip_exactly() {
    for f in [f32::NAN, -0.0f32, f32::INFINITY, f32::NEG_INFINITY, 1.5f32] {
        let bits = f.to_bits();
        let back = u32::decode(&bits.encode()).unwrap();
        assert_eq!(back, bits);
    }
    assert!(f32::from_bits(u32::decode(&f32::NAN.to_bits().encode()).unwrap()).is_nan());
    for f in [f64::NAN, -0.0f64, f64::INFINITY, f64::NEG_INFINITY, 2.25f64] {
        let bits = f.to_bits();
        let back = u64::decode(&bits.encode()).unwrap();
        assert_eq!(back, bits);
    }
    assert!(f64::from_bits(u64::decode(&f64::NAN.to_bits().encode()).unwrap()).is_nan());
}

#[test]
fn decode_usize_applies_the_canonical_algorithm() {
    assert_eq!(decode_usize(&[]), Ok(0));
    assert_eq!(decode_usize(&[0x01]), Ok(1));
    assert_eq!(decode_usize(&[0x01, 0x00]), Ok(256));
    assert_eq!(
        decode_usize(&[0x00, 0x01]),
        Err(DecoderError::RlpInvalidIndirection)
    );
    assert_eq!(
        decode_usize(&[1, 2, 3, 4, 5, 6, 7, 8, 9]),
        Err(DecoderError::RlpIsTooBig)
    );
}
