//! Codec for fixed-size byte buffers, generic over the compile-time
//! length.
//!
//! A buffer travels as its verbatim payload; decoding demands the exact
//! declared length.  A short payload is rejected as too short, a long one
//! as too big — no padding, no truncation.

use vstd::prelude::*;

use vstd::array::array_fill_for_copy_types;

use crate::codec::{Decodable, Encodable};
use crate::error::DecoderError;
use crate::node::{Node, NodeView};

verus! {

impl<const N: usize> Encodable for [u8; N] {
    open spec fn valid(v: Seq<u8>) -> bool {
        v.len() == N
    }

    open spec fn wire(v: Seq<u8>) -> NodeView {
        NodeView::Value(v)
    }

    fn encode(&self) -> (n: Node) {
        proof {
            assert(self.deep_view() =~= self@);
        }
        Node::Value(vstd::slice::slice_to_vec(self.as_slice()))
    }
}

impl<const N: usize> Decodable for [u8; N] {
    open spec fn parse(n: NodeView) -> Result<Seq<u8>, DecoderError> {
        match n {
            NodeView::Value(b) => if b.len() < N {
                Err(DecoderError::RlpIsTooShort)
            } else if b.len() > N {
                Err(DecoderError::RlpIsTooBig)
            } else {
                Ok(b)
            },
            NodeView::List(_) => Err(DecoderError::RlpExpectedToBeData),
        }
    }

    fn decode(n: &Node) -> (r: Result<[u8; N], DecoderError>) {
        match n {
            Node::Value(b) => {
                let len = b.len();
                if len < N {
                    Err(DecoderError::RlpIsTooShort)
                } else if len > N {
                    Err(DecoderError::RlpIsTooBig)
                } else {
                    let mut buf: [u8; N] = array_fill_for_copy_types::<u8, N>(0);
                    let mut i: usize = 0;
                    while i < N
                        invariant
                            i <= N,
                            b@.len() == N,
                            buf@.len() == N,
                            forall|j: int| 0 <= j < i ==> buf@[j] == b@[j],
                        decreases N - i,
                    {
                        buf[i] = *vstd::slice::slice_index_get(b.as_slice(), i);
                        i = i + 1;
                    }
                    proof {
                        assert(buf@ =~= b@);
                        assert(buf.deep_view() =~= b@);
                    }
                    Ok(buf)
                }
            },
            Node::List(_) => Err(DecoderError::RlpExpectedToBeData),
        }
    }

    proof fn lemma_round_trip(v: Seq<u8>) {
    }
}

} // verus!
