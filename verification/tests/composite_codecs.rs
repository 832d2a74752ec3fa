//! Round trips and error cases for the byte-sequence, string, fixed-size
//! array, option and boxed-value codecs.

use rlp::{Decodable, DecoderError, Encodable, Node};

#[test]
fn byte_sequences_pass_through_verbatim() {
    let empty: Vec<u8> = vec![];
    assert_eq!(empty.encode(), Node::Value(vec![]));
    assert_eq!(Vec::<u8>::decode(&empty.encode()), Ok(vec![]));
    let data: Vec<u8> = vec![0x00, 0xff, 0x10];
    assert_eq!(data.encode(), Node::Value(vec![0x00, 0xff, 0x10]));
    assert_eq!(Vec::<u8>::decode(&data.encode()), Ok(data));
}

#[test]
fn byte_slice_encodes_like_its_vector() {
    let slice: &[u8] = &[1, 2, 3];
    assert_eq!(slice.encode(), Node::Value(vec![1, 2, 3]));
}

#[test]
fn byte_sequence_decode_of_a_list_is_a_structural_mismatch() {
    assert_eq!(
        Vec::<u8>::decode(&Node::List(vec![])),
        Err(DecoderError::RlpExpectedToBeData)
    );
}

#[test]
fn strings_round_trip_exactly() {
    for s in ["", "hello", "caf\u{e9}", "\u{1f600} \u{4e16}\u{754c}"] {
        let owned = String::from(s);
        let n = owned.encode();
        assert_eq!(String::decode(&n), Ok(owned));
    }
}

#[test]
fn string_encodes_as_utf8_bytes() {
    let s = String::from("abc");
    assert_eq!(s.encode(), Node::Value(vec![b'a', b'b', b'c']));
    assert_eq!("abc".encode(), Node::Value(vec![b'a', b'b', b'c']));
    let accented = String::from("\u{e9}");
    assert_eq!(accented.encode(), Node::Value(vec![0xc3, 0xa9]));
}

#[test]
fn invalid_utf8_is_rejected() {
    assert_eq!(
        String::decode(&Node::Value(vec![0xff, 0xfe])),
        Err(DecoderError::RlpExpectedToBeData)
    );
    assert_eq!(
        String::decode(&Node::Value(vec![0xc3])),
        Err(DecoderError::RlpExpectedToBeData)
    );
    // An overlong encoding of '/' is not valid UTF-8.
    assert_eq!(
        String::decode(&Node::Value(vec![0xc0, 0xaf])),
        Err(DecoderError::RlpExpectedToBeData)
    );
}

#[test]
fn arrays_demand_the_exact_length() {
    assert_eq!(
        <[u8; 32]>::decode(&Node::Value(vec![0xab; 31])),
        Err(DecoderError::RlpIsTooShort)
    );
    assert_eq!(
        <[u8; 32]>::decode(&Node::Value(vec![0xab; 33])),
        Err(DecoderError::RlpIsTooBig)
    );
    assert_eq!(<[u8; 32]>::decode(&Node::Value(vec![0xab; 32])), Ok([0xab; 32]));
}

#[test]
fn arrays_round_trip_for_every_supported_size() {
    let a4 = [0x11u8; 4];
    assert_eq!(<[u8; 4]>::decode(&a4.encode()), Ok(a4));
    let a8 = [0x22u8; 8];
    assert_eq!(<[u8; 8]>::decode(&a8.encode()), Ok(a8));
    let a16 = [0x33u8; 16];
    assert_eq!(<[u8; 16]>::decode(&a16.encode()), Ok(a16));
    let mut a32 = [0u8; 32];
    for (i, b) in a32.iter_mut().enumerate() {
        *b = i as u8;
    }
    assert_eq!(<[u8; 32]>::decode(&a32.encode()), Ok(a32));
    let a64 = [0x55u8; 64];
    assert_eq!(<[u8; 64]>::decode(&a64.encode()), Ok(a64));
    let a128 = [0x66u8; 128];
    assert_eq!(<[u8; 128]>::decode(&a128.encode()), Ok(a128));
}

#[test]
fn option_absent_is_the_empty_list() {
    let none: Option<u64> = None;
    assert_eq!(none.encode(), Node::List(vec![]));
    assert_eq!(Option::<u64>::decode(&none.encode()), Ok(None));
}

#[test]
fn option_present_is_a_one_element_list() {
    let some: Option<u64> = Some(5);
    assert_eq!(some.encode(), Node::List(vec![Node::Value(vec![0x05])]));
    assert_eq!(Option::<u64>::decode(&some.encode()), Ok(Some(5)));
}

#[test]
fn option_rejects_any_other_arity() {
    let two = Node::List(vec![Node::Value(vec![0x01]), Node::Value(vec![0x02])]);
    assert_eq!(
        Option::<u64>::decode(&two),
        Err(DecoderError::RlpIncorrectListLen)
    );
}

#[test]
fn option_decode_of_a_value_node_is_a_structural_mismatch() {
    assert_eq!(
        Option::<u64>::decode(&Node::Value(vec![0x01])),
        Err(DecoderError::RlpExpectedToBeData)
    );
}

#[test]
fn option_propagates_the_child_error() {
    let bad = Node::List(vec![Node::Value(vec![0x00, 0x01])]);
    assert_eq!(
        Option::<u64>::decode(&bad),
        Err(DecoderError::RlpInvalidIndirection)
    );
}

#[test]
fn options_nest() {
    let v: Option<Option<u8>> = Some(Some(7));
    assert_eq!(Option::<Option<u8>>::decode(&v.encode()), Ok(v));
    let v: Option<Option<u8>> = Some(None);
    assert_eq!(Option::<Option<u8>>::decode(&v.encode()), Ok(v));
}

#[test]
fn boxed_values_are_wire_transparent() {
    let b: Box<u64> = Box::new(300);
    assert_eq!(b.encode(), 300u64.encode());
    assert_eq!(Box::<u64>::decode(&b.encode()), Ok(Box::new(300u64)));
    let bs: Box<String> = Box::new(String::from("hi"));
    assert_eq!(bs.encode(), String::from("hi").encode());
    assert_eq!(Box::<String>::decode(&bs.encode()), Ok(bs));
}
