//! Codecs for booleans and unsigned integers of every supported width.
//!
//! All unsigned widths share the canonical integer codec of [`crate::uint`]:
//! a value node carrying the minimal-length big-endian payload.  The
//! platform-width integer is anchored to the fixed 64-bit canonical form on
//! the wire, so its encoding does not depend on the host pointer width.
//! The boolean codec accepts an explicit zero byte as false, deliberately
//! more permissive than the integer codec's rejection of a redundant zero
//! byte.

use vstd::prelude::*;

use crate::codec::{Decodable, Encodable};
use crate::error::DecoderError;
use crate::node::{Node, NodeView};
use crate::uint::{
    decode_uint, encode_uint, lemma_be_bytes_val_bound, lemma_pow256_monotonic,
    lemma_pow256_values, lemma_uint_round_trip, min_be_bytes, parse_uint, pow256,
};

verus! {

/// What decoding a wire node as an unsigned magnitude of at most `width`
/// bytes returns: the canonical integer codec on a value node's payload,
/// a structural mismatch on a list node.
pub open spec fn parse_uint_node(n: NodeView, width: nat) -> Result<nat, DecoderError> {
    match n {
        NodeView::Value(b) => parse_uint(b, width),
        NodeView::List(_) => Err(DecoderError::RlpExpectedToBeData),
    }
}

/// Decodes a wire node as an unsigned magnitude of at most `width` bytes.
/// Shared by every unsigned width.
pub fn decode_uint_node(n: &Node, width: usize) -> (r: Result<u128, DecoderError>)
    requires
        width <= 16,
    ensures
        (match r {
            Ok(v) => parse_uint_node(n.deep_view(), width as nat) == Ok::<nat, DecoderError>(
                v as nat,
            ) && (v as nat) < pow256(width as nat),
            Err(e) => parse_uint_node(n.deep_view(), width as nat) == Err::<nat, DecoderError>(e),
        }),
{
    match n {
        Node::Value(b) => {
            let r = decode_uint(b.as_slice(), width);
            proof {
                if let Ok(v) = r {
                    lemma_be_bytes_val_bound(b@);
                    lemma_pow256_monotonic(b@.len(), width as nat);
                }
            }
            r
        },
        Node::List(_) => Err(DecoderError::RlpExpectedToBeData),
    }
}

impl Encodable for bool {
    open spec fn valid(v: bool) -> bool {
        true
    }

    open spec fn wire(v: bool) -> NodeView {
        NodeView::Value(
            if v {
                seq![1u8]
            } else {
                Seq::empty()
            },
        )
    }

    fn encode(&self) -> (n: Node) {
        let mut payload: Vec<u8> = Vec::new();
        if *self {
            payload.push(1);
        }
        proof {
            if *self {
                assert(payload@ =~= seq![1u8]);
            } else {
                assert(payload@ =~= Seq::<u8>::empty());
            }
        }
        Node::Value(payload)
    }
}

impl Decodable for bool {
    open spec fn parse(n: NodeView) -> Result<bool, DecoderError> {
        match n {
            NodeView::Value(b) => if b.len() == 0 {
                Ok(false)
            } else if b.len() == 1 {
                Ok(b[0] != 0)
            } else {
                Err(DecoderError::RlpIsTooBig)
            },
            NodeView::List(_) => Err(DecoderError::RlpExpectedToBeData),
        }
    }

    fn decode(n: &Node) -> (r: Result<bool, DecoderError>) {
        match n {
            Node::Value(b) => {
                let len = b.len();
                if len == 0 {
                    Ok(false)
                } else if len == 1 {
                    Ok(*vstd::slice::slice_index_get(b.as_slice(), 0) != 0)
                } else {
                    Err(DecoderError::RlpIsTooBig)
                }
            },
            Node::List(_) => Err(DecoderError::RlpExpectedToBeData),
        }
    }

    proof fn lemma_round_trip(v: bool) {
    }
}

impl Encodable for u8 {
    open spec fn valid(v: u8) -> bool {
        true
    }

    open spec fn wire(v: u8) -> NodeView {
        NodeView::Value(min_be_bytes(v as nat))
    }

    fn encode(&self) -> (n: Node) {
        Node::Value(encode_uint(*self as u128))
    }
}

impl Decodable for u8 {
    open spec fn parse(n: NodeView) -> Result<u8, DecoderError> {
        match parse_uint_node(n, 1) {
            Ok(v) => Ok(v as u8),
            Err(e) => Err(e),
        }
    }

    fn decode(n: &Node) -> (r: Result<u8, DecoderError>) {
        match decode_uint_node(n, 1) {
            Ok(v) => {
                proof {
                    lemma_pow256_values();
                }
                Ok(v as u8)
            },
            Err(e) => Err(e),
        }
    }

    proof fn lemma_round_trip(v: u8) {
        lemma_pow256_values();
        lemma_uint_round_trip(v as nat, 1);
    }
}

impl Encodable for u16 {
    open spec fn valid(v: u16) -> bool {
        true
    }

    open spec fn wire(v: u16) -> NodeView {
        NodeView::Value(min_be_bytes(v as nat))
    }

    fn encode(&self) -> (n: Node) {
        Node::Value(encode_uint(*self as u128))
    }
}

impl Decodable for u16 {
    open spec fn parse(n: NodeView) -> Result<u16, DecoderError> {
        match parse_uint_node(n, 2) {
            Ok(v) => Ok(v as u16),
            Err(e) => Err(e),
        }
    }

    fn decode(n: &Node) -> (r: Result<u16, DecoderError>) {
        match decode_uint_node(n, 2) {
            Ok(v) => {
                proof {
                    lemma_pow256_values();
                }
                Ok(v as u16)
            },
            Err(e) => Err(e),
        }
    }

    proof fn lemma_round_trip(v: u16) {
        lemma_pow256_values();
        lemma_uint_round_trip(v as nat, 2);
    }
}

impl Encodable for u32 {
    open spec fn valid(v: u32) -> bool {
        true
    }

    open spec fn wire(v: u32) -> NodeView {
        NodeView::Value(min_be_bytes(v as nat))
    }

    fn encode(&self) -> (n: Node) {
        Node::Value(encode_uint(*self as u128))
    }
}

impl Decodable for u32 {
    open spec fn parse(n: NodeView) -> Result<u32, DecoderError> {
        match parse_uint_node(n, 4) {
            Ok(v) => Ok(v as u32),
            Err(e) => Err(e),
        }
    }

    fn decode(n: &Node) -> (r: Result<u32, DecoderError>) {
        match decode_uint_node(n, 4) {
            Ok(v) => {
                proof {
                    lemma_pow256_values();
                }
                Ok(v as u32)
            },
            Err(e) => Err(e),
        }
    }

    proof fn lemma_round_trip(v: u32) {
        lemma_pow256_values();
        lemma_uint_round_trip(v as nat, 4);
    }
}

impl Encodable for u64 {
    open spec fn valid(v: u64) -> bool {
        true
    }

    open spec fn wire(v: u64) -> NodeView {
        NodeView::Value(min_be_bytes(v as nat))
    }

    fn encode(&self) -> (n: Node) {
        Node::Value(encode_uint(*self as u128))
    }
}

impl Decodable for u64 {
    open spec fn parse(n: NodeView) -> Result<u64, DecoderError> {
        match parse_uint_node(n, 8) {
            Ok(v) => Ok(v as u64),
            Err(e) => Err(e),
        }
    }

    fn decode(n: &Node) -> (r: Result<u64, DecoderError>) {
        match decode_uint_node(n, 8) {
            Ok(v) => {
                proof {
                    lemma_pow256_values();
                }
                Ok(v as u64)
            },
            Err(e) => Err(e),
        }
    }

    proof fn lemma_round_trip(v: u64) {
        lemma_pow256_values();
        lemma_uint_round_trip(v as nat, 8);
    }
}

impl Encodable for u128 {
    open spec fn valid(v: u128) -> bool {
        true
    }

    open spec fn wire(v: u128) -> NodeView {
        NodeView::Value(min_be_bytes(v as nat))
    }

    fn encode(&self) -> (n: Node) {
        Node::Value(encode_uint(*self))
    }
}

impl Decodable for u128 {
    open spec fn parse(n: NodeView) -> Result<u128, DecoderError> {
        match parse_uint_node(n, 16) {
            Ok(v) => Ok(v as u128),
            Err(e) => Err(e),
        }
    }

    fn decode(n: &Node) -> (r: Result<u128, DecoderError>) {
        decode_uint_node(n, 16)
    }

    proof fn lemma_round_trip(v: u128) {
        lemma_pow256_values();
        lemma_uint_round_trip(v as nat, 16);
    }
}

impl Encodable for usize {
    open spec fn valid(v: usize) -> bool {
        true
    }

    /// The wire form of a platform-width integer is anchored to the fixed
    /// 64-bit canonical form: it never depends on the host pointer width.
    open spec fn wire(v: usize) -> NodeView {
        NodeView::Value(min_be_bytes(v as nat))
    }

    fn encode(&self) -> (n: Node) {
        Node::Value(encode_uint(*self as u128))
    }
}

impl Decodable for usize {
    open spec fn parse(n: NodeView) -> Result<usize, DecoderError> {
        match parse_uint_node(n, 8) {
            Ok(v) => Ok(((v % (usize::MAX as nat + 1)) as usize)),
            Err(e) => Err(e),
        }
    }

    fn decode(n: &Node) -> (r: Result<usize, DecoderError>) {
        match decode_uint_node(n, 8) {
            Ok(v) => {
                let narrowed: u128 = v % (usize::MAX as u128 + 1);
                Ok(narrowed as usize)
            },
            Err(e) => Err(e),
        }
    }

    proof fn lemma_round_trip(v: usize) {
        broadcast use vstd::layout::layout_of_primitives;

        vstd::layout::unsigned_int_max_values();
        crate::uint::lemma_pow256_is_pow(vstd::layout::size_of::<usize>() as nat);
        lemma_pow256_values();
        lemma_pow256_monotonic(vstd::layout::size_of::<usize>() as nat, 8);
        assert(usize::BITS == 32 || usize::BITS == 64);
        lemma_uint_round_trip(v as nat, 8);
        vstd::arithmetic::div_mod::lemma_small_mod(v as nat, usize::MAX as nat + 1);
    }
}

} // verus!
