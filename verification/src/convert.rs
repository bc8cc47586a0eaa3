//! Conversions from a decoded RLP node to field values: raw bytes, a
//! hex display string, and a big-endian unsigned integer.

use vstd::arithmetic::div_mod::{
    lemma_fundamental_div_mod, lemma_mod_mod, lemma_mod_multiples_vanish, lemma_small_mod,
};
use vstd::arithmetic::power2::{lemma2_to64, lemma2_to64_rest, lemma_pow2_adds, lemma_pow2_pos, pow2};
use vstd::prelude::*;
use vstd::string::StringExecFns;

use crate::rlp::{be_val, copy_range, Rlp, RlpVal};
use crate::Error;

verus! {

/// The lowercase hex digit with value `n`.
pub open spec fn hex_digit(n: int) -> char
    recommends
        0 <= n < 16,
{
    if n < 10 {
        ((0x30 + n) as u8) as char
    } else {
        ((0x57 + n) as u8) as char
    }
}

/// The lowercase hex spelling of a byte sequence: two digits per byte,
/// most significant digit first.
pub open spec fn hex_str_of(s: Seq<u8>) -> Seq<char> {
    Seq::new(
        2 * s.len(),
        |i: int|
            if i % 2 == 0 {
                hex_digit(s[i / 2] as int / 16)
            } else {
                hex_digit(s[i / 2] as int % 16)
            },
    )
}

/// Relies on hex::encode: the bytes become two lowercase hex digits each,
/// most significant digit first, in byte order.
#[verifier::external_body]
pub(crate) fn hex_encode(bytes: &Vec<u8>) -> (out: String)
    ensures
        out@ == hex_str_of(bytes@),
{
    hex::encode(bytes)
}

/// The bytes of a string node; a list node is refused.
pub fn to_bytes(node: &Rlp) -> (res: Result<Vec<u8>, Error>)
    ensures
        match res {
            Ok(v) => (node@ matches RlpVal::Str(s) && v@ == s),
            Err(e) => e == Error::RlpError && node@ is List,
        },
{
    match node {
        Rlp::String(value) => {
            let out = copy_range(value, 0, value.len());
            proof {
                assert(out@ =~= value@);
            }
            Ok(out)
        },
        Rlp::List(_) => Err(Error::RlpError),
    }
}

/// The hex display form of a string node: `"0x"` followed by two lowercase
/// digits per byte.  A list node is refused.
pub fn to_string(node: &Rlp) -> (res: Result<String, Error>)
    ensures
        match res {
            Ok(out) => (node@ matches RlpVal::Str(s) && out@ == seq!['0', 'x'] + hex_str_of(s)),
            Err(e) => e == Error::RlpError && node@ is List,
        },
{
    let bytes = to_bytes(node)?;
    let digits = hex_encode(&bytes);
    let mut out = String::from_str("0x");
    out.append(digits.as_str());
    proof {
        reveal_strlit("0x");
        assert("0x"@ =~= seq!['0', 'x']);
    }
    Ok(out)
}

/// How much of a big-endian value one more byte keeps within 128 bits:
/// multiplying the low 120 bits by 256 and adding the byte equals the
/// extended value reduced modulo `pow2(128)`.
proof fn lemma_be_step_mod(x: nat, b: u8)
    ensures
        (x % pow2(128)) % pow2(120) == x % pow2(120),
        (x % pow2(120)) * 256 + b < pow2(128),
        ((x % pow2(120)) * 256 + b) as int == (x * 256 + b) as int % pow2(128) as int,
{
    lemma2_to64();
    lemma2_to64_rest();
    lemma_pow2_adds(64, 56);
    lemma_pow2_adds(120, 8);
    lemma_pow2_pos(120);
    assert(pow2(120) * 256 == pow2(128));
    lemma_mod_mod(x as int, pow2(120) as int, 256);
    let r = x % pow2(120);
    let q = x / pow2(120);
    lemma_fundamental_div_mod(x as int, pow2(120) as int);
    assert(x == pow2(120) * q + r);
    assert(r < pow2(120));
    assert(r * 256 + b < pow2(128)) by (nonlinear_arith)
        requires
            r < pow2(120),
            pow2(120) * 256 == pow2(128),
    ;
    assert(x * 256 + b == pow2(128) * q + (r * 256 + b)) by (nonlinear_arith)
        requires
            x == pow2(120) * q + r,
            pow2(120) * 256 == pow2(128),
    ;
    lemma_mod_multiples_vanish(q as int, (r * 256 + b) as int, pow2(128) as int);
    lemma_small_mod((r * 256 + b) as nat, pow2(128));
}

/// A byte sequence's big-endian value is below `pow2(8 * length)`.
pub proof fn lemma_be_val_bound(s: Seq<u8>)
    ensures
        be_val(s) < pow2(8 * s.len()),
    decreases s.len(),
{
    lemma2_to64();
    lemma2_to64_rest();
    if s.len() == 0 {
    } else {
        lemma_be_val_bound(s.drop_last());
        lemma_pow2_adds((8 * (s.len() - 1)) as nat, 8);
        assert(be_val(s.drop_last()) * 256 + s.last() < pow2((8 * (s.len() - 1)) as nat) * 256)
            by (nonlinear_arith)
            requires
                be_val(s.drop_last()) < pow2((8 * (s.len() - 1)) as nat),
                s.last() < 256,
        ;
    }
}

/// The big-endian integer value of a string node, reduced modulo
/// `pow2(128)`; up to sixteen bytes convert exactly, and the empty string
/// stands for zero.  A list node is refused.
pub fn to_big_int(node: &Rlp) -> (res: Result<u128, Error>)
    ensures
        match res {
            Ok(v) => (node@ matches RlpVal::Str(s) && v as nat == be_val(s) % pow2(128) && (
            s.len() <= 16 ==> v == be_val(s))),
            Err(e) => e == Error::RlpError && node@ is List,
        },
{
    match node {
        Rlp::List(_) => Err(Error::RlpError),
        Rlp::String(bytes) => {
            let mut value: u128 = 0;
            let mut i: usize = 0;
            proof {
                lemma2_to64();
                lemma2_to64_rest();
                lemma_pow2_adds(64, 64);
                lemma_pow2_adds(64, 56);
                assert(be_val(bytes@.take(0)) == 0);
            }
            while i < bytes.len()
                invariant
                    i <= bytes@.len(),
                    value as nat == be_val(bytes@.take(i as int)) % pow2(128),
                    pow2(128) == 0x100000000000000000000000000000000,
                    pow2(120) == 0x1000000000000000000000000000000,
                decreases bytes@.len() - i,
            {
                let b = bytes[i];
                let ghost x = be_val(bytes@.take(i as int));
                let capped: u128 = value % 0x1000000000000000000000000000000u128;
                proof {
                    lemma_mod_mod(x as int, pow2(120) as int, 256);
                    assert(pow2(120) * 256 == pow2(128)) by {
                        lemma_pow2_adds(120, 8);
                        lemma2_to64();
                    }
                    lemma_be_step_mod(x, b);
                    assert(bytes@.take(i + 1).drop_last() =~= bytes@.take(i as int));
                    assert(be_val(bytes@.take(i + 1)) == x * 256 + b);
                }
                let next: u128 = capped * 256 + (b as u128);
                value = next;
                i = i + 1;
            }
            proof {
                assert(bytes@.take(bytes@.len() as int) =~= bytes@);
                if bytes@.len() <= 16 {
                    lemma_be_val_bound(bytes@);
                    assert(pow2(8 * bytes@.len()) <= pow2(128)) by {
                        if 8 * bytes@.len() < 128 {
                            vstd::arithmetic::power2::lemma_pow2_strictly_increases(
                                8 * bytes@.len(),
                                128,
                            );
                        }
                    }
                    lemma_small_mod(be_val(bytes@), pow2(128));
                }
            }
            Ok(value)
        },
    }
}

} // verus!
