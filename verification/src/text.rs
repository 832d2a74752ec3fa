//! Codec for UTF-8 strings.
//!
//! A string travels as the verbatim byte sequence of its UTF-8 encoding.
//! Decoding validates the payload: invalid UTF-8 is rejected with the
//! content-validation error, with no partial recovery or replacement
//! characters.

use vstd::prelude::*;

use vstd::utf8::{decode_utf8, encode_utf8, encode_utf8_decode_utf8, encode_utf8_valid_utf8,
    valid_utf8};

use crate::codec::{Decodable, Encodable};
use crate::error::DecoderError;
use crate::node::{Node, NodeView};

verus! {

/// Relies on `String::from_utf8`: it succeeds exactly when the bytes are
/// valid UTF-8, and the returned string is the one whose UTF-8 encoding is
/// those bytes.
#[verifier::external_body]
fn utf8_to_string(bytes: &Vec<u8>) -> (r: Option<String>)
    ensures
        r is Some <==> valid_utf8(bytes@),
        (match r {
            Some(s) => encode_utf8(s@) == bytes@,
            None => true,
        }),
{
    String::from_utf8(bytes.clone()).ok()
}

impl Encodable for String {
    open spec fn valid(v: Seq<char>) -> bool {
        true
    }

    open spec fn wire(v: Seq<char>) -> NodeView {
        NodeView::Value(encode_utf8(v))
    }

    fn encode(&self) -> (n: Node) {
        Node::Value(vstd::slice::slice_to_vec(self.as_str().as_bytes()))
    }
}

impl<'a> Encodable for &'a str {
    open spec fn valid(v: Seq<char>) -> bool {
        true
    }

    open spec fn wire(v: Seq<char>) -> NodeView {
        NodeView::Value(encode_utf8(v))
    }

    fn encode(&self) -> (n: Node) {
        Node::Value(vstd::slice::slice_to_vec((*self).as_bytes()))
    }
}

impl Decodable for String {
    open spec fn parse(n: NodeView) -> Result<Seq<char>, DecoderError> {
        match n {
            NodeView::Value(b) => if valid_utf8(b) {
                Ok(decode_utf8(b))
            } else {
                Err(DecoderError::RlpExpectedToBeData)
            },
            NodeView::List(_) => Err(DecoderError::RlpExpectedToBeData),
        }
    }

    fn decode(n: &Node) -> (r: Result<String, DecoderError>) {
        match n {
            Node::Value(b) => match utf8_to_string(b) {
                Some(s) => {
                    proof {
                        encode_utf8_decode_utf8(s@);
                    }
                    Ok(s)
                },
                None => Err(DecoderError::RlpExpectedToBeData),
            },
            Node::List(_) => Err(DecoderError::RlpExpectedToBeData),
        }
    }

    proof fn lemma_round_trip(v: Seq<char>) {
        encode_utf8_valid_utf8(v);
        encode_utf8_decode_utf8(v);
    }
}

} // verus!
