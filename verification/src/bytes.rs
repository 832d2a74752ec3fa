//! Codec for plain byte sequences: verbatim payload pass-through.
//!
//! Encoding wraps the bytes unchanged as a value node; decoding returns the
//! payload unchanged, with no interpretation and no length restriction.

use vstd::prelude::*;

use crate::codec::{Decodable, Encodable};
use crate::error::DecoderError;
use crate::node::{Node, NodeView};

verus! {

impl Encodable for Vec<u8> {
    open spec fn valid(v: Seq<u8>) -> bool {
        true
    }

    open spec fn wire(v: Seq<u8>) -> NodeView {
        NodeView::Value(v)
    }

    fn encode(&self) -> (n: Node) {
        proof {
            assert(self.deep_view() =~= self@);
        }
        Node::Value(vstd::slice::slice_to_vec(self.as_slice()))
    }
}

impl<'a> Encodable for &'a [u8] {
    open spec fn valid(v: Seq<u8>) -> bool {
        true
    }

    open spec fn wire(v: Seq<u8>) -> NodeView {
        NodeView::Value(v)
    }

    fn encode(&self) -> (n: Node) {
        proof {
            assert(self.deep_view() =~= (*self)@);
        }
        Node::Value(vstd::slice::slice_to_vec(*self))
    }
}

impl Decodable for Vec<u8> {
    open spec fn parse(n: NodeView) -> Result<Seq<u8>, DecoderError> {
        match n {
            NodeView::Value(b) => Ok(b),
            NodeView::List(_) => Err(DecoderError::RlpExpectedToBeData),
        }
    }

    fn decode(n: &Node) -> (r: Result<Vec<u8>, DecoderError>) {
        match n {
            Node::Value(b) => {
                let out = vstd::slice::slice_to_vec(b.as_slice());
                proof {
                    assert(out.deep_view() =~= b@);
                }
                Ok(out)
            },
            Node::List(_) => Err(DecoderError::RlpExpectedToBeData),
        }
    }

    proof fn lemma_round_trip(v: Seq<u8>) {
    }
}

} // verus!
