//! Turning caller-supplied text into a decoded transaction: the text is
//! trimmed, recognised as hex or base64, decoded to raw bytes, and handed
//! to the transaction decoder.

use vstd::prelude::*;
use vstd::string::StrSliceExecFns;

use crate::transaction::{parse_eth_tx, spec_parse_eth_tx, TransactionData};
use crate::Error;

verus! {

/// Whether a character is whitespace; the name stands for what
/// char::is_whitespace returns.
pub uninterp spec fn is_space(c: char) -> bool;

/// `s` without its leading whitespace.
pub open spec fn trim_left(s: Seq<char>) -> Seq<char>
    decreases s.len(),
{
    if s.len() > 0 && is_space(s.first()) {
        trim_left(s.drop_first())
    } else {
        s
    }
}

/// `s` without its trailing whitespace.
pub open spec fn trim_right(s: Seq<char>) -> Seq<char>
    decreases s.len(),
{
    if s.len() > 0 && is_space(s.last()) {
        trim_right(s.drop_last())
    } else {
        s
    }
}

/// `s` without leading and trailing whitespace.
pub open spec fn trim_of(s: Seq<char>) -> Seq<char> {
    trim_right(trim_left(s))
}

/// Relies on str::trim, which removes the characters at either end for
/// which char::is_whitespace holds.
#[verifier::external_body]
fn trim_str(s: &str) -> (res: &str)
    ensures
        res@ == trim_of(s@),
        s@.len() > 0 && !is_space(s@.first()) && !is_space(s@.last()) ==> res@ == s@,
{
    s.trim()
}

/// Whether a character is a hex digit, in either case.
pub open spec fn is_hex_digit_char(c: char) -> bool {
    let u = c as u32;
    (0x30 <= u && u <= 0x39) || (0x61 <= u && u <= 0x66) || (0x41 <= u && u <= 0x46)
}

/// The value of a hex digit.
pub open spec fn hex_char_val(c: char) -> int
    recommends
        is_hex_digit_char(c),
{
    let u = c as u32;
    if 0x30 <= u && u <= 0x39 {
        u - 0x30
    } else if 0x61 <= u && u <= 0x66 {
        u - 0x57
    } else if 0x41 <= u && u <= 0x46 {
        u - 0x37
    } else {
        0
    }
}

/// The bytes a string of hex digit pairs spells, one byte per pair.
pub open spec fn bytes_of_hex(s: Seq<char>) -> Seq<u8> {
    Seq::new(s.len() / 2, |i: int| (hex_char_val(s[2 * i]) * 16 + hex_char_val(s[2 * i + 1])) as u8)
}

/// The hex digits of `t`: everything after an optional `0x` prefix.
pub open spec fn spec_hex_body(t: Seq<char>) -> Seq<char> {
    if t.len() >= 2 && t[0] == '0' && t[1] == 'x' {
        t.skip(2)
    } else {
        t
    }
}

/// Whether `t` is hex input: an optional `0x` prefix followed by one or
/// more hex digit pairs.
pub open spec fn is_hex_input(t: Seq<char>) -> bool {
    let b = spec_hex_body(t);
    &&& b.len() > 0
    &&& b.len() % 2 == 0
    &&& forall|i: int| 0 <= i < b.len() ==> is_hex_digit_char(b[i])
}

/// The bytes that hex input stands for.
pub open spec fn spec_decode_hex(t: Seq<char>) -> Seq<u8> {
    bytes_of_hex(spec_hex_body(t))
}

/// Whether a character belongs to the standard base64 alphabet.
pub open spec fn is_b64_char(c: char) -> bool {
    let u = c as u32;
    (0x41 <= u && u <= 0x5a) || (0x61 <= u && u <= 0x7a) || (0x30 <= u && u <= 0x39) || u == 0x2b
        || u == 0x2f
}

/// Whether every character of `s` belongs to the base64 alphabet.
pub open spec fn all_b64(s: Seq<char>) -> bool {
    forall|i: int| 0 <= i < s.len() ==> is_b64_char(s[i])
}

/// Whether `t` is base64 input: full groups of four alphabet characters,
/// the last group optionally ending in one or two padding signs.
pub open spec fn is_base64_input(t: Seq<char>) -> bool {
    &&& t.len() % 4 == 0
    &&& {
        ||| all_b64(t)
        ||| (t.len() >= 4 && all_b64(t.take(t.len() - 2)) && t[t.len() - 2] == '=' && t[t.len()
            - 1] == '=')
        ||| (t.len() >= 4 && all_b64(t.take(t.len() - 1)) && t[t.len() - 1] == '=')
    }
}

/// The bytes base64 input stands for; the name stands for what
/// base64::decode returns when it succeeds.
pub uninterp spec fn base64_decoded(s: Seq<char>) -> Seq<u8>;

/// Relies on hex::decode: it succeeds exactly on even-length strings of
/// hex digits and yields one byte per digit pair, high digit first.
#[verifier::external_body]
fn hex_decode(s: &str) -> (res: Result<Vec<u8>, Error>)
    ensures
        match res {
            Ok(b) => {
                &&& s@.len() % 2 == 0
                &&& forall|i: int| 0 <= i < s@.len() ==> is_hex_digit_char(s@[i])
                &&& b@ == bytes_of_hex(s@)
            },
            Err(e) => {
                &&& e == Error::FormatError
                &&& (s@.len() % 2 != 0 || exists|i: int|
                    0 <= i < s@.len() && !is_hex_digit_char(s@[i]))
            },
        },
{
    match hex::decode(s) {
        Ok(b) => Ok(b),
        Err(_) => Err(Error::FormatError),
    }
}

/// Relies on base64::decode (standard alphabet, padded): its result
/// depends on the input characters alone.
#[verifier::external_body]
fn base64_decode(s: &str) -> (res: Result<Vec<u8>, Error>)
    ensures
        res matches Ok(b) ==> b@ == base64_decoded(s@),
{
    match base64::decode(s) {
        Ok(b) => Ok(b),
        Err(_) => Err(Error::FormatError),
    }
}

/// Decides whether `s` is hex input.
fn is_hex_format(s: &str) -> (res: bool)
    ensures
        res == is_hex_input(s@),
{
    let n = s.unicode_len();
    let has_prefix = n >= 2 && s.get_char(0) == '0' && s.get_char(1) == 'x';
    let start: usize = if has_prefix {
        2
    } else {
        0
    };
    let ghost body = spec_hex_body(s@);
    proof {
        assert(body =~= s@.skip(start as int));
    }
    if n == start {
        return false;
    }
    if (n - start) % 2 != 0 {
        return false;
    }
    let mut i: usize = start;
    while i < n
        invariant
            start <= i <= n,
            n == s@.len(),
            body == s@.skip(start as int),
            body == spec_hex_body(s@),
            forall|j: int| start <= j < i ==> is_hex_digit_char(s@[j]),
        decreases n - i,
    {
        let c = s.get_char(i);
        let u = c as u32;
        if !((u >= 0x30 && u <= 0x39) || (u >= 0x61 && u <= 0x66) || (u >= 0x41 && u <= 0x46)) {
            proof {
                assert(!is_hex_digit_char(s@[i as int]));
                assert(body[i - start] == s@[i as int]);
                assert(!is_hex_input(s@));
            }
            return false;
        }
        i = i + 1;
    }
    proof {
        assert forall|j: int| 0 <= j < body.len() implies is_hex_digit_char(#[trigger] body[j]) by {
            assert(body[j] == s@[j + start]);
        }
    }
    true
}

/// Decides whether `s` is base64 input.
fn is_base64_format(s: &str) -> (res: bool)
    ensures
        res == is_base64_input(s@),
{
    let n = s.unicode_len();
    if n % 4 != 0 {
        return false;
    }
    if n == 0 {
        return true;
    }
    let pad: usize = if s.get_char(n - 1) == '=' {
        if s.get_char(n - 2) == '=' {
            2
        } else {
            1
        }
    } else {
        0
    };
    let mut i: usize = 0;
    while i < n - pad
        invariant
            0 <= i <= n - pad,
            pad <= 2,
            n == s@.len(),
            4 <= n,
            n % 4 == 0,
            pad >= 1 ==> s@[n - 1] == '=',
            pad == 2 ==> s@[n - 2] == '=',
            pad == 0 ==> s@[n - 1] != '=',
            pad == 1 ==> s@[n - 2] != '=',
            forall|j: int| 0 <= j < i ==> is_b64_char(s@[j]),
        decreases n - pad - i,
    {
        let c = s.get_char(i);
        let u = c as u32;
        if !((u >= 0x41 && u <= 0x5a) || (u >= 0x61 && u <= 0x7a) || (u >= 0x30 && u <= 0x39) || u
            == 0x2b || u == 0x2f) {
            proof {
                assert(!is_b64_char(s@[i as int]));
                if pad == 1 {
                    assert(s@.take(n - 1)[i as int] == s@[i as int]);
                }
                if pad == 2 {
                    assert(s@.take(n - 2)[i as int] == s@[i as int]);
                    assert(s@.take(n - 1)[n - 2] == s@[n - 2]);
                    assert(!is_b64_char('='));
                }
                assert(!is_base64_input(s@));
            }
            return false;
        }
        i = i + 1;
    }
    proof {
        if pad == 0 {
            assert(all_b64(s@));
        }
        if pad == 1 {
            assert forall|j: int| 0 <= j < n - 1 implies is_b64_char(#[trigger] s@.take(n - 1)[j]) by {
                assert(s@.take(n - 1)[j] == s@[j]);
            }
            assert(all_b64(s@.take(n - 1)));
        }
        if pad == 2 {
            assert forall|j: int| 0 <= j < n - 2 implies is_b64_char(#[trigger] s@.take(n - 2)[j]) by {
                assert(s@.take(n - 2)[j] == s@[j]);
            }
            assert(all_b64(s@.take(n - 2)));
        }
        assert(is_base64_input(s@));
    }
    true
}

/// Decodes transaction text: after trimming, hex input is decoded as hex,
/// base64 input as base64, and anything else is refused; the raw bytes
/// then decode as a transaction, with estimate mode handled by the byte
/// decoder.
pub fn decode_transaction(transaction: &str, estimate: bool) -> (res: Result<
    TransactionData,
    Error,
>)
    ensures
        is_hex_input(trim_of(transaction@)) ==> match res {
            Ok(td) => spec_parse_eth_tx(spec_decode_hex(trim_of(transaction@)), estimate)
                == Some(td@),
            Err(e) => {
                &&& e == Error::RlpError
                &&& spec_parse_eth_tx(spec_decode_hex(trim_of(transaction@)), estimate) is None
            },
        },
        !is_hex_input(trim_of(transaction@)) && is_base64_input(trim_of(transaction@))
            ==> match res {
            Ok(td) => spec_parse_eth_tx(base64_decoded(trim_of(transaction@)), estimate)
                == Some(td@),
            Err(e) => e == Error::FormatError || (e == Error::RlpError && spec_parse_eth_tx(
                base64_decoded(trim_of(transaction@)),
                estimate,
            ) is None),
        },
        !is_hex_input(trim_of(transaction@)) && !is_base64_input(trim_of(transaction@)) ==> res
            == Err::<TransactionData, Error>(Error::FormatError),
{
    let trimmed = trim_str(transaction);
    if is_hex_format(trimmed) {
        let n = trimmed.unicode_len();
        let has_prefix = n >= 2 && trimmed.get_char(0) == '0' && trimmed.get_char(1) == 'x';
        let body = if has_prefix {
            trimmed.substring_char(2, n)
        } else {
            trimmed
        };
        proof {
            assert(body@ =~= spec_hex_body(trimmed@));
        }
        match hex_decode(body) {
            Ok(bytes) => parse_eth_tx(&bytes, estimate),
            Err(e) => {
                proof {
                    assert(false);
                }
                Err(e)
            },
        }
    } else if is_base64_format(trimmed) {
        match base64_decode(trimmed) {
            Ok(bytes) => parse_eth_tx(&bytes, estimate),
            Err(e) => Err(Error::FormatError),
        }
    } else {
        Err(Error::FormatError)
    }
}

} // verus!
