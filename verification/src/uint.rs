//! The canonical integer codec: minimal-length big-endian encoding and
//! decoding of unsigned magnitudes of a bounded byte width.
//!
//! One algorithm serves every width.  Encoding strips all leading zero
//! bytes, so zero encodes to the empty payload; decoding rejects a payload
//! with a redundant leading zero byte as non-canonical and a payload longer
//! than the target width as too big.

use vstd::prelude::*;

use crate::error::DecoderError;

verus! {

/// 256 raised to `n`: the number of distinct values of an `n`-byte payload.
pub open spec fn pow256(n: nat) -> nat
    decreases n,
{
    if n == 0 {
        1
    } else {
        256 * pow256((n - 1) as nat)
    }
}

/// The unsigned magnitude that a big-endian byte sequence denotes.
pub open spec fn be_bytes_val(s: Seq<u8>) -> nat
    decreases s.len(),
{
    if s.len() == 0 {
        0
    } else {
        be_bytes_val(s.drop_last()) * 256 + s.last() as nat
    }
}

/// The canonical (minimal-length big-endian) encoding of an unsigned
/// magnitude: no leading zero byte, and zero encodes to the empty sequence.
pub open spec fn min_be_bytes(v: nat) -> Seq<u8>
    decreases v,
{
    if v == 0 {
        Seq::empty()
    } else {
        min_be_bytes(v / 256).push((v % 256) as u8)
    }
}

/// What decoding a payload as an unsigned magnitude of at most `width`
/// bytes returns: the magnitude, or the error the payload is rejected with.
pub open spec fn parse_uint(bytes: Seq<u8>, width: nat) -> Result<nat, DecoderError> {
    if bytes.len() > width {
        Err(DecoderError::RlpIsTooBig)
    } else if bytes.len() == 0 {
        Ok(0)
    } else if bytes[0] == 0 {
        Err(DecoderError::RlpInvalidIndirection)
    } else {
        Ok(be_bytes_val(bytes))
    }
}

/// Concrete values of `pow256` at the widths the codec uses.
pub proof fn lemma_pow256_values()
    ensures
        pow256(1) == 0x100,
        pow256(2) == 0x10000,
        pow256(4) == 0x100000000,
        pow256(8) == 0x10000000000000000,
        pow256(15) == 0x1000000000000000000000000000000,
        pow256(16) == 0x100000000000000000000000000000000,
{
    reveal_with_fuel(pow256, 17);
}

/// `pow256` never falls below one and grows with its argument.
pub proof fn lemma_pow256_monotonic(a: nat, b: nat)
    requires
        a <= b,
    ensures
        1 <= pow256(a) <= pow256(b),
    decreases b,
{
    if b > 0 {
        if a == b {
            lemma_pow256_monotonic((a - 1) as nat, (b - 1) as nat);
        } else {
            lemma_pow256_monotonic(a, (b - 1) as nat);
            assert(pow256(b) == 256 * pow256((b - 1) as nat));
        }
    }
}

/// A byte sequence of length `n` denotes a magnitude below `pow256(n)`.
pub proof fn lemma_be_bytes_val_bound(s: Seq<u8>)
    ensures
        be_bytes_val(s) < pow256(s.len()),
    decreases s.len(),
{
    if s.len() > 0 {
        let d = s.drop_last();
        lemma_be_bytes_val_bound(d);
        assert(be_bytes_val(d) * 256 + 256 <= pow256(d.len()) * 256) by (nonlinear_arith)
            requires
                be_bytes_val(d) < pow256(d.len()),
        ;
    }
}

/// The canonical encoding denotes the magnitude it was made from.
pub proof fn lemma_min_be_bytes_val(v: nat)
    ensures
        be_bytes_val(min_be_bytes(v)) == v,
    decreases v,
{
    if v > 0 {
        lemma_min_be_bytes_val(v / 256);
        let s = min_be_bytes(v);
        assert(s.drop_last() =~= min_be_bytes(v / 256));
        assert(v / 256 * 256 + v % 256 == v) by (nonlinear_arith);
    }
}

/// A magnitude below `pow256(w)` has a canonical encoding of at most `w`
/// bytes.
pub proof fn lemma_min_be_bytes_len(v: nat, w: nat)
    requires
        v < pow256(w),
    ensures
        min_be_bytes(v).len() <= w,
    decreases w,
{
    if v > 0 {
        assert(w > 0) by {
            if w == 0 {
                assert(pow256(0nat) == 1);
            }
        }
        assert(v / 256 < pow256((w - 1) as nat)) by (nonlinear_arith)
            requires
                v < pow256(w),
                pow256(w) == 256 * pow256((w - 1) as nat),
        ;
        lemma_min_be_bytes_len(v / 256, (w - 1) as nat);
    }
}

/// A canonical encoding is minimal: it never starts with a zero byte, and
/// only the magnitude zero encodes to the empty sequence.
pub proof fn lemma_min_be_bytes_canonical(v: nat)
    ensures
        v > 0 ==> min_be_bytes(v).len() > 0 && min_be_bytes(v)[0] != 0,
        v == 0 ==> min_be_bytes(v).len() == 0,
    decreases v,
{
    if v > 0 {
        lemma_min_be_bytes_canonical(v / 256);
        if v / 256 == 0 {
            assert(v % 256 == v) by (nonlinear_arith)
                requires
                    v / 256 == 0,
                    v > 0,
            ;
        } else {
            assert(min_be_bytes(v)[0] == min_be_bytes(v / 256)[0]);
        }
    }
}

/// Round trip of the canonical integer codec: decoding the canonical
/// encoding of any magnitude that fits in `width` bytes yields that
/// magnitude back.
pub proof fn lemma_uint_round_trip(v: nat, width: nat)
    requires
        v < pow256(width),
    ensures
        parse_uint(min_be_bytes(v), width) == Ok::<nat, DecoderError>(v),
{
    lemma_min_be_bytes_val(v);
    lemma_min_be_bytes_len(v, width);
    lemma_min_be_bytes_canonical(v);
}

/// A nonempty payload without a leading zero byte denotes a positive
/// magnitude.
proof fn lemma_be_bytes_val_positive(s: Seq<u8>)
    requires
        s.len() > 0,
        s[0] != 0,
    ensures
        be_bytes_val(s) > 0,
    decreases s.len(),
{
    if s.len() > 1 {
        let d = s.drop_last();
        assert(d[0] == s[0]);
        lemma_be_bytes_val_positive(d);
        assert(be_bytes_val(d) * 256 >= 256) by (nonlinear_arith)
            requires
                be_bytes_val(d) >= 1,
        ;
    }
}

/// A payload with no leading zero byte is the canonical encoding of the
/// magnitude it denotes.
proof fn lemma_min_be_bytes_inverse(b: Seq<u8>)
    requires
        b.len() == 0 || b[0] != 0,
    ensures
        min_be_bytes(be_bytes_val(b)) =~= b,
    decreases b.len(),
{
    if b.len() > 0 {
        let d = b.drop_last();
        let last = b.last();
        let x = be_bytes_val(b);
        vstd::arithmetic::div_mod::lemma_fundamental_div_mod_converse_div(
            x as int,
            256,
            be_bytes_val(d) as int,
            last as int,
        );
        vstd::arithmetic::div_mod::lemma_fundamental_div_mod_converse_mod(
            x as int,
            256,
            be_bytes_val(d) as int,
            last as int,
        );
        if b.len() == 1 {
            assert(d =~= Seq::<u8>::empty());
            assert(x == last);
            assert(min_be_bytes(x) == min_be_bytes(0).push(last));
        } else {
            assert(d[0] == b[0]);
            lemma_be_bytes_val_positive(d);
            assert(x > 0) by (nonlinear_arith)
                requires
                    be_bytes_val(d) >= 1,
                    x == be_bytes_val(d) * 256 + last,
            ;
            lemma_min_be_bytes_inverse(d);
            assert(min_be_bytes(be_bytes_val(d)) == d);
            assert(min_be_bytes(x) == d.push(last));
            assert(d.push(last) =~= b);
        }
    }
}

/// Uniqueness of the canonical encoding: the only payload that the
/// canonical integer codec accepts for a magnitude is that magnitude's
/// canonical encoding, so no two distinct accepted payloads denote the
/// same value.
pub proof fn lemma_uint_canonical(b: Seq<u8>, width: nat, v: nat)
    requires
        parse_uint(b, width) == Ok::<nat, DecoderError>(v),
    ensures
        b =~= min_be_bytes(v),
{
    if b.len() == 0 {
    } else {
        lemma_min_be_bytes_inverse(b);
    }
}

/// Minimality of the canonical integer codec, for every width: zero
/// encodes to the empty payload, and one encodes to exactly the payload
/// `[0x01]`.
pub proof fn lemma_minimality()
    ensures
        min_be_bytes(0) == Seq::<u8>::empty(),
        min_be_bytes(1) =~= seq![1u8],
{
    assert(min_be_bytes(1) =~= min_be_bytes(0).push(1u8));
}

/// The reversal of a byte sequence.
spec fn rev_bytes(s: Seq<u8>) -> Seq<u8>
    decreases s.len(),
{
    if s.len() == 0 {
        Seq::empty()
    } else {
        seq![s.last()] + rev_bytes(s.drop_last())
    }
}

/// Encodes an unsigned magnitude as its canonical minimal-length
/// big-endian payload.  Never fails; zero yields the empty payload.
pub fn encode_uint(v: u128) -> (r: Vec<u8>)
    ensures
        r@ == min_be_bytes(v as nat),
{
    let mut little: Vec<u8> = Vec::new();
    let mut cur: u128 = v;
    while cur > 0
        invariant
            min_be_bytes(v as nat) =~= min_be_bytes(cur as nat) + rev_bytes(little@),
        decreases cur,
    {
        let ghost prev = cur as nat;
        let ghost prev_little = little@;
        let digit: u8 = (cur % 256) as u8;
        little.push(digit);
        cur = cur / 256;
        proof {
            assert(cur as nat == prev / 256);
            assert(little@.drop_last() =~= prev_little);
            assert(rev_bytes(little@) =~= seq![digit] + rev_bytes(prev_little));
            assert(min_be_bytes(prev) =~= min_be_bytes(prev / 256).push(digit));
            assert(min_be_bytes(prev / 256) + rev_bytes(little@) =~= min_be_bytes(prev)
                + rev_bytes(prev_little));
        }
    }
    let mut r: Vec<u8> = Vec::new();
    while little.len() > 0
        invariant
            min_be_bytes(v as nat) =~= r@ + rev_bytes(little@),
        decreases little.len(),
    {
        let ghost prev_little = little@;
        let ghost prev_r = r@;
        let d = little.pop().unwrap();
        r.push(d);
        proof {
            assert(little@ =~= prev_little.drop_last());
            assert(rev_bytes(prev_little) =~= seq![d] + rev_bytes(little@));
            assert(r@ + rev_bytes(little@) =~= prev_r + rev_bytes(prev_little));
        }
    }
    proof {
        assert(r@ =~= min_be_bytes(v as nat));
    }
    r
}

/// Decodes a payload as an unsigned magnitude of at most `width` bytes:
/// the empty payload is zero, a leading zero byte is rejected as
/// non-canonical, a payload longer than `width` is rejected as too big.
pub fn decode_uint(bytes: &[u8], width: usize) -> (r: Result<u128, DecoderError>)
    requires
        width <= 16,
    ensures
        (match r {
            Ok(v) => parse_uint(bytes@, width as nat) == Ok::<nat, DecoderError>(v as nat),
            Err(e) => parse_uint(bytes@, width as nat) == Err::<nat, DecoderError>(e),
        }),
{
    let len = bytes.len();
    if len > width {
        return Err(DecoderError::RlpIsTooBig);
    }
    if len == 0 {
        return Ok(0);
    }
    if *vstd::slice::slice_index_get(bytes, 0) == 0 {
        return Err(DecoderError::RlpInvalidIndirection);
    }
    let mut res: u128 = 0;
    let mut i: usize = 0;
    while i < len
        invariant
            i <= len,
            len == bytes@.len(),
            len <= 16,
            res as nat == be_bytes_val(bytes@.subrange(0, i as int)),
            (res as nat) < pow256(i as nat),
        decreases len - i,
    {
        let b = *vstd::slice::slice_index_get(bytes, i);
        proof {
            lemma_pow256_monotonic((i + 1) as nat, 16);
            lemma_pow256_values();
            assert((res as nat) * 256 + (b as nat) < pow256((i + 1) as nat)) by (nonlinear_arith)
                requires
                    (res as nat) < pow256(i as nat),
                    (b as nat) < 256,
                    pow256((i + 1) as nat) == 256 * pow256(i as nat),
            ;
        }
        let ghost prev = bytes@.subrange(0, i as int);
        res = res * 256 + (b as u128);
        i = i + 1;
        proof {
            let now = bytes@.subrange(0, i as int);
            assert(now.drop_last() =~= prev);
            assert(now.last() == b);
        }
    }
    proof {
        assert(bytes@.subrange(0, len as int) =~= bytes@);
    }
    Ok(res)
}

/// `pow256` agrees with the power function of the standard proof library.
pub proof fn lemma_pow256_is_pow(n: nat)
    ensures
        pow256(n) == vstd::arithmetic::power::pow(256, n),
    decreases n,
{
    reveal(vstd::arithmetic::power::pow);
    if n > 0 {
        lemma_pow256_is_pow((n - 1) as nat);
    }
}

/// Decodes a payload as a platform-width unsigned integer, applying the
/// canonical integer codec bounded by the host pointer width.
pub fn decode_usize(bytes: &[u8]) -> (r: Result<usize, DecoderError>)
    ensures
        (match r {
            Ok(v) => parse_uint(bytes@, vstd::layout::size_of::<usize>() as nat) == Ok::<
                nat,
                DecoderError,
            >(v as nat),
            Err(e) => parse_uint(bytes@, vstd::layout::size_of::<usize>() as nat) == Err::<
                nat,
                DecoderError,
            >(e),
        }),
{
    proof {
        broadcast use vstd::layout::layout_of_primitives;

        vstd::layout::unsigned_int_max_values();
        lemma_pow256_is_pow(vstd::layout::size_of::<usize>() as nat);
        assert(usize::BITS == 32 || usize::BITS == 64);
    }
    let width = core::mem::size_of::<usize>();
    match decode_uint(bytes, width) {
        Ok(v) => {
            proof {
                let w = width as nat;
                if bytes@.len() > 0 {
                    lemma_be_bytes_val_bound(bytes@);
                    lemma_pow256_monotonic(bytes@.len(), w);
                }
                assert((v as nat) < pow256(w));
            }
            Ok(v as usize)
        },
        Err(e) => Err(e),
    }
}

} // verus!
