//! Codecs for signed integers of every supported width.
//!
//! The wire format has no native signed representation.  A signed value is
//! widened to a 128-bit intermediate, mapped through the zigzag transform
//! (so that small magnitudes of either sign stay short), and the resulting
//! unsigned magnitude goes through the canonical integer codec at the full
//! 16-byte width.  Decoding inverts the transform and narrows back to the
//! target width with exact two's-complement wraparound semantics.

use vstd::prelude::*;

use vstd::arithmetic::div_mod::{
    lemma_fundamental_div_mod, lemma_fundamental_div_mod_converse_div,
    lemma_fundamental_div_mod_converse_mod, lemma_small_mod,
};

use crate::codec::{Decodable, Encodable};
use crate::error::DecoderError;
use crate::node::{Node, NodeView};
use crate::scalars::{decode_uint_node, parse_uint_node};
use crate::uint::{
    encode_uint, lemma_pow256_monotonic, lemma_pow256_values, lemma_uint_round_trip, min_be_bytes,
    pow256,
};

verus! {

/// The zigzag transform: a bijection from the signed integers onto the
/// unsigned ones that keeps small magnitudes of either sign small.
pub open spec fn zigzag(v: int) -> nat {
    if v >= 0 {
        (2 * v) as nat
    } else {
        (-2 * v - 1) as nat
    }
}

/// The inverse of the zigzag transform.
pub open spec fn unzigzag(u: nat) -> int {
    if u % 2 == 0 {
        (u / 2) as int
    } else {
        -((u / 2) as int) - 1
    }
}

/// Narrowing an integer to the range of a signed type whose values number
/// `p`, with two's-complement wraparound semantics.
pub open spec fn narrow_signed(v: int, p: nat) -> int {
    let m = v % (p as int);
    if m >= (p as int) / 2 {
        m - p
    } else {
        m
    }
}

/// What decoding a wire node as a signed integer of `width` bytes returns:
/// the canonical integer codec at the full 16-byte width, then the inverse
/// zigzag transform, then the narrowing to the target width.
pub open spec fn parse_signed_node(n: NodeView, width: nat) -> Result<int, DecoderError> {
    match parse_uint_node(n, 16) {
        Ok(u) => Ok(narrow_signed(unzigzag(u), pow256(width))),
        Err(e) => Err(e),
    }
}

/// The zigzag transform and its inverse cancel.
pub proof fn lemma_zigzag_inverse(v: int)
    ensures
        unzigzag(zigzag(v)) == v,
{
    if v >= 0 {
        lemma_fundamental_div_mod_converse_mod(2 * v, 2, v, 0);
        lemma_fundamental_div_mod_converse_div(2 * v, 2, v, 0);
    } else {
        lemma_fundamental_div_mod_converse_mod(-2 * v - 1, 2, -v - 1, 1);
        lemma_fundamental_div_mod_converse_div(-2 * v - 1, 2, -v - 1, 1);
    }
}

/// The zigzag transform is a bijection: it also inverts its inverse, so
/// every unsigned magnitude is the image of exactly one signed value.
pub proof fn lemma_unzigzag_inverse(u: nat)
    ensures
        zigzag(unzigzag(u)) == u,
{
    lemma_fundamental_div_mod(u as int, 2);
}

/// `pow256` of a positive width is even.
pub proof fn lemma_pow256_even(w: nat)
    requires
        w >= 1,
    ensures
        pow256(w) % 2 == 0,
        (pow256(w) as int) / 2 == 128 * pow256((w - 1) as nat),
{
    let q: int = 128 * (pow256((w - 1) as nat) as int);
    assert(pow256(w) as int == 2 * q + 0) by (nonlinear_arith)
        requires
            pow256(w) == 256 * pow256((w - 1) as nat),
            q == 128 * pow256((w - 1) as nat),
    ;
    lemma_fundamental_div_mod_converse_mod(pow256(w) as int, 2, q, 0);
    lemma_fundamental_div_mod_converse_div(pow256(w) as int, 2, q, 0);
}

/// Narrowing leaves a value that already lies in the target range
/// unchanged.
pub proof fn lemma_narrow_signed_identity(v: int, p: nat)
    requires
        p >= 2,
        p % 2 == 0,
        -((p as int) / 2) <= v < (p as int) / 2,
    ensures
        narrow_signed(v, p) == v,
{
    lemma_fundamental_div_mod(p as int, 2);
    if v >= 0 {
        lemma_small_mod(v as nat, p);
    } else {
        lemma_fundamental_div_mod_converse_mod(v, p as int, -1, v + p);
    }
}

/// The narrowed value always lies in the target range.
pub proof fn lemma_narrow_signed_range(v: int, p: nat)
    requires
        p >= 2,
        p % 2 == 0,
    ensures
        -((p as int) / 2) <= narrow_signed(v, p) < (p as int) / 2,
{
    lemma_fundamental_div_mod(p as int, 2);
}

/// Round trip of the signed codec: decoding the canonical encoding of any
/// value that fits in `width` bytes yields that value back.
pub proof fn lemma_signed_round_trip(v: int, width: nat)
    requires
        1 <= width <= 16,
        -((pow256(width) as int) / 2) <= v < (pow256(width) as int) / 2,
    ensures
        parse_signed_node(NodeView::Value(min_be_bytes(zigzag(v))), width) == Ok::<
            int,
            DecoderError,
        >(v),
{
    lemma_pow256_values();
    lemma_pow256_monotonic(width, 16);
    lemma_pow256_even(width);
    lemma_pow256_even(16);
    assert(zigzag(v) < pow256(16));
    lemma_uint_round_trip(zigzag(v), 16);
    lemma_zigzag_inverse(v);
    lemma_narrow_signed_identity(v, pow256(width));
}

/// Encodes a signed value already widened to the 128-bit intermediate:
/// the zigzag transform followed by the canonical integer codec.
pub fn encode_signed(v: i128) -> (r: Vec<u8>)
    ensures
        r@ == min_be_bytes(zigzag(v as int)),
{
    let z: u128 = if v >= 0 {
        (v as u128) * 2
    } else {
        ((-(v + 1)) as u128) * 2 + 1
    };
    encode_uint(z)
}

/// Computes `pow256` of a width small enough for the result to fit the
/// 128-bit intermediate.
fn pow256_exec(w: usize) -> (r: u128)
    requires
        w <= 15,
    ensures
        r as nat == pow256(w as nat),
{
    let mut r: u128 = 1;
    let mut i: usize = 0;
    while i < w
        invariant
            i <= w <= 15,
            r as nat == pow256(i as nat),
        decreases w - i,
    {
        proof {
            lemma_pow256_monotonic((i + 1) as nat, 15);
            lemma_pow256_values();
            assert((r as nat) * 256 == pow256((i + 1) as nat)) by (nonlinear_arith)
                requires
                    r as nat == pow256(i as nat),
                    pow256((i + 1) as nat) == 256 * pow256(i as nat),
            ;
        }
        r = r * 256;
        i = i + 1;
    }
    r
}

/// A successful signed decode always lies in the target width's range.
pub proof fn lemma_parse_signed_node_range(n: NodeView, width: nat)
    requires
        1 <= width <= 16,
    ensures
        (match parse_signed_node(n, width) {
            Ok(y) => -((pow256(width) as int) / 2) <= y < (pow256(width) as int) / 2,
            Err(_) => true,
        }),
{
    lemma_pow256_monotonic(1, width);
    lemma_pow256_even(width);
    if let Ok(u) = parse_uint_node(n, 16) {
        lemma_narrow_signed_range(unzigzag(u), pow256(width));
    }
}

/// Decodes a wire node as a signed integer narrowed to `width` bytes.
/// Shared by every signed width.
pub fn decode_signed_node(n: &Node, width: usize) -> (r: Result<i128, DecoderError>)
    requires
        1 <= width <= 16,
    ensures
        (match r {
            Ok(x) => parse_signed_node(n.deep_view(), width as nat) == Ok::<int, DecoderError>(
                x as int,
            ),
            Err(e) => parse_signed_node(n.deep_view(), width as nat) == Err::<int, DecoderError>(
                e,
            ),
        }),
{
    let u = match decode_uint_node(n, 16) {
        Ok(u) => u,
        Err(e) => {
            return Err(e);
        },
    };
    proof {
        lemma_pow256_values();
    }
    let mag: u128 = u / 2;
    let even: bool = u % 2 == 0;
    let ghost val: int = unzigzag(u as nat);
    proof {
        assert(mag as nat == (u as nat) / 2);
        assert(even <==> (u as nat) % 2 == 0);
        assert(mag <= 0x7fffffffffffffffffffffffffffffff);
    }
    if width == 16 {
        proof {
            lemma_pow256_even(16);
            assert((pow256(16) as int) / 2 == 0x80000000000000000000000000000000);
            if even {
                lemma_small_mod((mag as nat), pow256(16));
            } else {
                lemma_fundamental_div_mod_converse_mod(
                    val,
                    pow256(16) as int,
                    -1,
                    val + pow256(16),
                );
            }
        }
        if even {
            Ok(mag as i128)
        } else {
            Ok((-(mag as i128)) - 1)
        }
    } else {
        let p: u128 = pow256_exec(width);
        proof {
            lemma_pow256_monotonic(1, width as nat);
            lemma_pow256_monotonic(width as nat, 15);
            lemma_pow256_even(width as nat);
        }
        let m: u128 = if even {
            mag % p
        } else {
            let t: u128 = (mag + 1) % p;
            proof {
                lemma_fundamental_div_mod((mag + 1) as int, p as int);
                let k = ((mag + 1) as int) / (p as int);
                assert((mag + 1) as int == (p as int) * k + t);
                if t == 0 {
                    assert(val == (-k) * (p as int) + 0) by (nonlinear_arith)
                        requires
                            (mag + 1) as int == (p as int) * k + t,
                            t == 0,
                            val == -((mag + 1) as int),
                    ;
                    lemma_fundamental_div_mod_converse_mod(val, p as int, -k, 0);
                } else {
                    assert(val == (-k - 1) * (p as int) + ((p - t) as int)) by (nonlinear_arith)
                        requires
                            (mag + 1) as int == (p as int) * k + t,
                            0 < t < p,
                            val == -((mag + 1) as int),
                    ;
                    lemma_fundamental_div_mod_converse_mod(val, p as int, -k - 1, p - t);
                }
            }
            if t == 0 {
                0
            } else {
                p - t
            }
        };
        proof {
            assert(m as int == val % (p as int));
        }
        if m >= p / 2 {
            Ok((m as i128) - (p as i128))
        } else {
            Ok(m as i128)
        }
    }
}


impl Encodable for i8 {
    open spec fn valid(v: i8) -> bool {
        true
    }

    open spec fn wire(v: i8) -> NodeView {
        NodeView::Value(min_be_bytes(zigzag(v as int)))
    }

    fn encode(&self) -> (n: Node) {
        Node::Value(encode_signed(*self as i128))
    }
}

impl Decodable for i8 {
    open spec fn parse(n: NodeView) -> Result<i8, DecoderError> {
        match parse_signed_node(n, 1) {
            Ok(x) => Ok(x as i8),
            Err(e) => Err(e),
        }
    }

    fn decode(n: &Node) -> (r: Result<i8, DecoderError>) {
        match decode_signed_node(n, 1) {
            Ok(x) => {
                proof {
                    lemma_pow256_values();
                    lemma_pow256_even(1);
                    lemma_parse_signed_node_range(n.deep_view(), 1);
                }
                Ok(x as i8)
            },
            Err(e) => Err(e),
        }
    }

    proof fn lemma_round_trip(v: i8) {
        lemma_pow256_values();
        lemma_pow256_even(1);
        lemma_signed_round_trip(v as int, 1);
    }
}

impl Encodable for i16 {
    open spec fn valid(v: i16) -> bool {
        true
    }

    open spec fn wire(v: i16) -> NodeView {
        NodeView::Value(min_be_bytes(zigzag(v as int)))
    }

    fn encode(&self) -> (n: Node) {
        Node::Value(encode_signed(*self as i128))
    }
}

impl Decodable for i16 {
    open spec fn parse(n: NodeView) -> Result<i16, DecoderError> {
        match parse_signed_node(n, 2) {
            Ok(x) => Ok(x as i16),
            Err(e) => Err(e),
        }
    }

    fn decode(n: &Node) -> (r: Result<i16, DecoderError>) {
        match decode_signed_node(n, 2) {
            Ok(x) => {
                proof {
                    lemma_pow256_values();
                    lemma_pow256_even(2);
                    lemma_parse_signed_node_range(n.deep_view(), 2);
                }
                Ok(x as i16)
            },
            Err(e) => Err(e),
        }
    }

    proof fn lemma_round_trip(v: i16) {
        lemma_pow256_values();
        lemma_pow256_even(2);
        lemma_signed_round_trip(v as int, 2);
    }
}

impl Encodable for i32 {
    open spec fn valid(v: i32) -> bool {
        true
    }

    open spec fn wire(v: i32) -> NodeView {
        NodeView::Value(min_be_bytes(zigzag(v as int)))
    }

    fn encode(&self) -> (n: Node) {
        Node::Value(encode_signed(*self as i128))
    }
}

impl Decodable for i32 {
    open spec fn parse(n: NodeView) -> Result<i32, DecoderError> {
        match parse_signed_node(n, 4) {
            Ok(x) => Ok(x as i32),
            Err(e) => Err(e),
        }
    }

    fn decode(n: &Node) -> (r: Result<i32, DecoderError>) {
        match decode_signed_node(n, 4) {
            Ok(x) => {
                proof {
                    lemma_pow256_values();
                    lemma_pow256_even(4);
                    lemma_parse_signed_node_range(n.deep_view(), 4);
                }
                Ok(x as i32)
            },
            Err(e) => Err(e),
        }
    }

    proof fn lemma_round_trip(v: i32) {
        lemma_pow256_values();
        lemma_pow256_even(4);
        lemma_signed_round_trip(v as int, 4);
    }
}

impl Encodable for i64 {
    open spec fn valid(v: i64) -> bool {
        true
    }

    open spec fn wire(v: i64) -> NodeView {
        NodeView::Value(min_be_bytes(zigzag(v as int)))
    }

    fn encode(&self) -> (n: Node) {
        Node::Value(encode_signed(*self as i128))
    }
}

impl Decodable for i64 {
    open spec fn parse(n: NodeView) -> Result<i64, DecoderError> {
        match parse_signed_node(n, 8) {
            Ok(x) => Ok(x as i64),
            Err(e) => Err(e),
        }
    }

    fn decode(n: &Node) -> (r: Result<i64, DecoderError>) {
        match decode_signed_node(n, 8) {
            Ok(x) => {
                proof {
                    lemma_pow256_values();
                    lemma_pow256_even(8);
                    lemma_parse_signed_node_range(n.deep_view(), 8);
                }
                Ok(x as i64)
            },
            Err(e) => Err(e),
        }
    }

    proof fn lemma_round_trip(v: i64) {
        lemma_pow256_values();
        lemma_pow256_even(8);
        lemma_signed_round_trip(v as int, 8);
    }
}

impl Encodable for i128 {
    open spec fn valid(v: i128) -> bool {
        true
    }

    open spec fn wire(v: i128) -> NodeView {
        NodeView::Value(min_be_bytes(zigzag(v as int)))
    }

    fn encode(&self) -> (n: Node) {
        Node::Value(encode_signed(*self as i128))
    }
}

impl Decodable for i128 {
    open spec fn parse(n: NodeView) -> Result<i128, DecoderError> {
        match parse_signed_node(n, 16) {
            Ok(x) => Ok(x as i128),
            Err(e) => Err(e),
        }
    }

    fn decode(n: &Node) -> (r: Result<i128, DecoderError>) {
        match decode_signed_node(n, 16) {
            Ok(x) => {
                proof {
                    lemma_pow256_values();
                    lemma_pow256_even(16);
                    lemma_parse_signed_node_range(n.deep_view(), 16);
                }
                Ok(x as i128)
            },
            Err(e) => Err(e),
        }
    }

    proof fn lemma_round_trip(v: i128) {
        lemma_pow256_values();
        lemma_pow256_even(16);
        lemma_signed_round_trip(v as int, 16);
    }
}

} // verus!
