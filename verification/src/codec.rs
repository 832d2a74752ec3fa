//! The codec capability: one encode/decode operation pair per supported
//! type.
//!
//! For a value type, `encode` emits the value's canonical wire node and
//! never fails; `decode` is a single complete-value operation that either
//! recovers a value or reports the first error.  No codec holds state
//! between calls.  The mathematical content of both operations lives in the
//! `wire` and `parse` spec functions, and every decodable type carries a
//! proof that decoding the canonical encoding of a value yields that value
//! back.

use vstd::prelude::*;

use crate::error::DecoderError;
use crate::node::{Node, NodeView};

verus! {

/// A type whose values can be emitted as wire nodes.
pub trait Encodable: DeepView + Sized {
    /// Which abstract values stand for a real value of the type: for a
    /// fixed-size buffer, sequences of exactly its length; for most types,
    /// every abstract value.
    spec fn valid(v: Self::V) -> bool;

    /// The canonical wire node of an abstract value.
    spec fn wire(v: Self::V) -> NodeView;

    /// Encodes the value as its canonical wire node.  Encoding a
    /// well-formed in-memory value is total: it never fails.
    fn encode(&self) -> (n: Node)
        ensures
            n.deep_view() == Self::wire(self.deep_view()),
            Self::valid(self.deep_view()),
    ;
}

/// A type whose values can be recovered from a wire node.
pub trait Decodable: Encodable {
    /// What decoding a wire node as this type returns: the abstract value
    /// recovered, or the error the node is rejected with.
    spec fn parse(n: NodeView) -> Result<Self::V, DecoderError>;

    /// Decodes a wire node as a value of this type.  Malformed input is
    /// reported through the closed error set, never repaired.
    fn decode(n: &Node) -> (r: Result<Self, DecoderError>)
        ensures
            (match r {
                Ok(v) => Self::parse(n.deep_view()) == Ok::<Self::V, DecoderError>(v.deep_view())
                    && Self::valid(v.deep_view()),
                Err(e) => Self::parse(n.deep_view()) == Err::<Self::V, DecoderError>(e),
            }),
    ;

    /// Round trip: decoding the canonical encoding of any value of the
    /// type yields exactly that value back.
    proof fn lemma_round_trip(v: Self::V)
        requires
            Self::valid(v),
        ensures
            Self::parse(Self::wire(v)) == Ok::<Self::V, DecoderError>(v),
    ;
}

} // verus!
