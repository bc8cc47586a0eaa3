//! Recursive Length Prefix (RLP) decoding.
//!
//! An RLP item is either a byte string or a list of further items; the
//! first byte of an encoding (the tag) tells which case applies and how
//! the item's length is written down.  `spec_parse` is the mathematical
//! description of the decoder and `parse_element` the verified
//! implementation.

use vstd::prelude::*;

use crate::Error;

verus! {

/// Declared string and list lengths at or above this bound are rejected,
/// as a guard against resource exhaustion.
pub const LENGTH_LIMIT: usize = 1000000;

/// A decoded RLP node: a raw byte string or a list of nodes.
#[derive(Debug, PartialEq, Eq)]
pub enum Rlp {
    String(Vec<u8>),
    List(Vec<Rlp>),
}

/// The mathematical value of a decoded RLP node.
pub enum RlpVal {
    Str(Seq<u8>),
    List(Seq<RlpVal>),
}

/// The value a node stands for: a string node keeps its bytes, a list
/// node the values of its children.
pub open spec fn node_val(node: Rlp) -> RlpVal
    decreases node,
    via node_val_decreases
{
    match node {
        Rlp::String(v) => RlpVal::Str(v@),
        Rlp::List(items) => RlpVal::List(
            Seq::new(
                items@.len(),
                |i: int|
                    if 0 <= i < items@.len() {
                        node_val(items[i])
                    } else {
                        RlpVal::Str(Seq::empty())
                    },
            ),
        ),
    }
}

#[via_fn]
proof fn node_val_decreases(node: Rlp) {
    match node {
        Rlp::List(items) => {
            assert forall|i: int| 0 <= i < items@.len() implies (decreases_to!(node => items[i])) by {
                vstd::std_specs::vec::axiom_vec_index_decreases(items, i);
                assert(decreases_to!(node => items));
            }
        },
        Rlp::String(_) => {},
    }
}

impl View for Rlp {
    type V = RlpVal;

    open spec fn view(&self) -> RlpVal {
        node_val(*self)
    }
}

/// The views of a sequence of nodes, in order.
pub open spec fn views_of(items: Seq<Rlp>) -> Seq<RlpVal> {
    Seq::new(items.len(), |i: int| items[i]@)
}

/// The big-endian value of a byte sequence; the empty sequence stands for zero.
pub open spec fn be_val(s: Seq<u8>) -> nat
    decreases s.len(),
{
    if s.len() == 0 {
        0
    } else {
        be_val(s.drop_last()) * 256 + s.last() as nat
    }
}

/// Parses one RLP element from the front of `s`: the decoded node and the
/// number of bytes it occupies, or `None` when `s` is truncated, a declared
/// length reaches `LENGTH_LIMIT`, or the tag's length rule would give a
/// negative length (tags `0x7f` and `0xbf`).
pub open spec fn spec_parse(s: Seq<u8>) -> Option<(RlpVal, int)>
    decreases s.len(), 0int,
{
    if s.len() == 0 {
        None
    } else {
        let tag = s[0];
        if tag <= 0x7e {
            // a single byte is its own encoding
            Some((RlpVal::Str(seq![tag]), 1))
        } else if tag == 0x7f {
            // the short-string rule `tag - 0x80` would give length -1
            None
        } else if tag <= 0xb6 {
            // short string: the length is in the tag itself
            let length = tag - 0x80;
            if 1 + length <= s.len() {
                Some((RlpVal::Str(s.subrange(1, 1 + length)), 1 + length))
            } else {
                None
            }
        } else if tag <= 0xbe {
            // long string: the tag gives the width of the length field
            let k = tag - 0xb7;
            if 1 + k <= s.len() {
                let length = be_val(s.subrange(1, 1 + k)) as int;
                if length >= LENGTH_LIMIT as int {
                    None
                } else if 1 + k + length <= s.len() {
                    Some((RlpVal::Str(s.subrange(1 + k, 1 + k + length)), 1 + k + length))
                } else {
                    None
                }
            } else {
                None
            }
        } else if tag == 0xbf {
            // the short-list rule `tag - 0xc0` would give length -1
            None
        } else if tag <= 0xf6 {
            // short list: the payload length is in the tag itself
            let length = tag - 0xc0;
            if 1 + length <= s.len() {
                match spec_parse_items(s.subrange(1, 1 + length)) {
                    Some(items) => Some((RlpVal::List(items), 1 + length)),
                    None => None,
                }
            } else {
                None
            }
        } else {
            // long list: the tag gives the width of the length field
            let k = tag - 0xf7;
            if 1 + k <= s.len() {
                let length = be_val(s.subrange(1, 1 + k)) as int;
                if length >= LENGTH_LIMIT as int {
                    None
                } else if 1 + k + length <= s.len() {
                    match spec_parse_items(s.subrange(1 + k, 1 + k + length)) {
                        Some(items) => Some((RlpVal::List(items), 1 + k + length)),
                        None => None,
                    }
                } else {
                    None
                }
            } else {
                None
            }
        }
    }
}

/// Parses elements from `s` until no byte remains, in encounter order.
pub open spec fn spec_parse_items(s: Seq<u8>) -> Option<Seq<RlpVal>>
    decreases s.len(), 1int,
{
    if s.len() == 0 {
        Some(Seq::<RlpVal>::empty())
    } else {
        match spec_parse(s) {
            Some((v, n)) => {
                if 1 <= n <= s.len() {
                    match spec_parse_items(s.skip(n)) {
                        Some(rest) => Some(seq![v] + rest),
                        None => None,
                    }
                } else {
                    None
                }
            },
            None => None,
        }
    }
}

/// A successful parse consumes at least the tag byte and at most all of `s`.
pub proof fn lemma_parse_bounds(s: Seq<u8>)
    ensures
        spec_parse(s) matches Some(p) ==> 1 <= p.1 <= s.len(),
{
}

/// A one-byte buffer whose byte is at most 0x7e decodes to the byte
/// string holding exactly that byte, and consumes the one byte.
pub proof fn lemma_single_byte(b: u8)
    requires
        b <= 0x7e,
    ensures
        spec_parse(seq![b]) == Some((RlpVal::Str(seq![b]), 1int)),
{
    assert(seq![b][0] == b);
}

/// A short list of two single-byte elements decodes to a list of the two
/// one-byte strings, in order, and consumes three bytes.
pub proof fn lemma_two_byte_list(b1: u8, b2: u8)
    requires
        b1 <= 0x7e,
        b2 <= 0x7e,
    ensures
        spec_parse(seq![0xc2u8, b1, b2]) == Some(
            (RlpVal::List(seq![RlpVal::Str(seq![b1]), RlpVal::Str(seq![b2])]), 3int),
        ),
{
    let s = seq![0xc2u8, b1, b2];
    let p = s.subrange(1, 3);
    assert(p =~= seq![b1, b2]);
    let p2 = seq![b2];
    assert(p.skip(1) =~= p2);
    assert(p2.skip(1) =~= Seq::<u8>::empty());
    assert(spec_parse_items(Seq::<u8>::empty()) == Some(Seq::<RlpVal>::empty()));
    assert(spec_parse(p2) == Some((RlpVal::Str(seq![b2]), 1int)));
    assert(spec_parse_items(p2) == Some(seq![RlpVal::Str(seq![b2])] + Seq::<RlpVal>::empty()));
    assert(spec_parse(p) == Some((RlpVal::Str(seq![b1]), 1int)));
    assert(spec_parse_items(p) == Some(
        seq![RlpVal::Str(seq![b1])] + (seq![RlpVal::Str(seq![b2])] + Seq::<RlpVal>::empty()),
    ));
    assert(seq![RlpVal::Str(seq![b1])] + (seq![RlpVal::Str(seq![b2])] + Seq::<RlpVal>::empty())
        =~= seq![RlpVal::Str(seq![b1]), RlpVal::Str(seq![b2])]);
}

/// A long string or long list whose declared length reaches
/// `LENGTH_LIMIT` fails to parse, whether or not that many bytes follow.
pub proof fn lemma_oversize_guard(s: Seq<u8>, k: int)
    requires
        s.len() > 0,
        (0xb7 <= s[0] <= 0xbe && k == s[0] - 0xb7) || (0xf7 <= s[0] && k == s[0] - 0xf7),
        1 + k <= s.len(),
        be_val(s.subrange(1, 1 + k)) >= LENGTH_LIMIT as nat,
    ensures
        spec_parse(s) is None,
{
}

/// A short string whose declared length exceeds the bytes that remain
/// fails to parse.
pub proof fn lemma_truncated_short_string(s: Seq<u8>)
    requires
        s.len() > 0,
        0x80 <= s[0] <= 0xb6,
        s.len() < 1 + (s[0] - 0x80),
    ensures
        spec_parse(s) is None,
{
}

/// A long string whose declared length reaches past the end of the
/// buffer fails to parse.
pub proof fn lemma_truncated_long_string(s: Seq<u8>, k: int)
    requires
        s.len() > 0,
        0xb7 <= s[0] <= 0xbe,
        k == s[0] - 0xb7,
        1 + k <= s.len(),
        s.len() < 1 + k + be_val(s.subrange(1, 1 + k)),
    ensures
        spec_parse(s) is None,
{
}

/// Extending a byte sequence can only grow its big-endian value.
proof fn lemma_be_val_take_le(s: Seq<u8>, j: int)
    requires
        0 <= j <= s.len(),
    ensures
        be_val(s.take(j)) <= be_val(s),
    decreases s.len() - j,
{
    if j == s.len() {
        assert(s.take(j) =~= s);
    } else {
        assert(s.take(j + 1).drop_last() =~= s.take(j));
        assert(be_val(s.take(j + 1)) == be_val(s.take(j)) * 256 + s[j] as nat);
        lemma_be_val_take_le(s, j + 1);
    }
}

/// Copies `data[start..end]` into a fresh vector.
pub(crate) fn copy_range(data: &Vec<u8>, start: usize, end: usize) -> (out: Vec<u8>)
    requires
        start <= end <= data@.len(),
    ensures
        out@ == data@.subrange(start as int, end as int),
{
    let mut out: Vec<u8> = Vec::new();
    let mut i: usize = start;
    while i < end
        invariant
            start <= i <= end <= data@.len(),
            out@ == data@.subrange(start as int, i as int),
        decreases end - i,
    {
        out.push(data[i]);
        proof {
            assert(data@.subrange(start as int, i as int).push(data@[i as int])
                =~= data@.subrange(start as int, i + 1));
        }
        i = i + 1;
    }
    out
}

/// Reads a `count`-byte big-endian length field at `start`, rejecting
/// values at or above `LENGTH_LIMIT`.
fn read_length(data: &Vec<u8>, start: usize, count: usize) -> (res: Result<usize, Error>)
    requires
        start <= data@.len(),
        count <= 8,
    ensures
        match res {
            Ok(l) => {
                &&& start + count <= data@.len()
                &&& l < LENGTH_LIMIT
                &&& l == be_val(data@.subrange(start as int, start + count))
            },
            Err(e) => {
                &&& e == Error::RlpError
                &&& (start + count > data@.len()
                    || be_val(data@.subrange(start as int, start + count)) >= LENGTH_LIMIT as nat)
            },
        },
{
    let n = data.len();
    if count > n - start {
        return Err(Error::RlpError);
    }
    let ghost field = data@.subrange(start as int, start + count);
    let mut value: usize = 0;
    let mut i: usize = 0;
    while i < count
        invariant
            n == data@.len(),
            start + count <= n,
            i <= count,
            field == data@.subrange(start as int, start + count),
            value == be_val(field.take(i as int)),
            value < LENGTH_LIMIT,
        decreases count - i,
    {
        let b = data[start + i];
        let next: usize = value * 256 + (b as usize);
        proof {
            assert(field.take(i + 1).drop_last() =~= field.take(i as int));
            assert(field.take(i + 1).last() == b);
            assert(next == be_val(field.take(i + 1)));
        }
        if next >= LENGTH_LIMIT {
            proof {
                lemma_be_val_take_le(field, i + 1);
            }
            return Err(Error::RlpError);
        }
        value = next;
        i = i + 1;
    }
    proof {
        assert(field.take(count as int) =~= field);
    }
    Ok(value)
}

/// Reads a `length`-byte string payload at `start`, rejecting lengths at
/// or above `LENGTH_LIMIT` and truncated buffers.
fn read_string(data: &Vec<u8>, start: usize, length: usize) -> (res: Result<Rlp, Error>)
    requires
        start <= data@.len(),
    ensures
        match res {
            Ok(node) => {
                &&& length < LENGTH_LIMIT
                &&& start + length <= data@.len()
                &&& node@ == RlpVal::Str(data@.subrange(start as int, start + length))
            },
            Err(e) => {
                &&& e == Error::RlpError
                &&& (length >= LENGTH_LIMIT || start + length > data@.len())
            },
        },
{
    if length == 0 {
        let empty: Vec<u8> = Vec::new();
        proof {
            assert(empty@ =~= data@.subrange(start as int, start as int));
        }
        return Ok(Rlp::String(empty));
    }
    if length >= LENGTH_LIMIT {
        return Err(Error::RlpError);
    }
    if length > data.len() - start {
        return Err(Error::RlpError);
    }
    let bytes = copy_range(data, start, start + length);
    Ok(Rlp::String(bytes))
}

/// Reads a `length`-byte list payload at `start` and decodes the elements
/// inside it until the payload is exhausted.
fn read_list(data: &Vec<u8>, start: usize, length: usize) -> (res: Result<Rlp, Error>)
    requires
        start + length <= data@.len(),
        length < LENGTH_LIMIT,
    ensures
        match res {
            Ok(node) => (node@ matches RlpVal::List(vs)
                && spec_parse_items(data@.subrange(start as int, start + length)) == Some(vs)),
            Err(e) => {
                &&& e == Error::RlpError
                &&& spec_parse_items(data@.subrange(start as int, start + length)) is None
            },
        },
    decreases length, 2int,
{
    let n = data.len();
    proof {
        assert(start + length <= n);
    }
    let payload = copy_range(data, start, start + length);
    match parse_items(&payload) {
        Ok(items) => {
            let node = Rlp::List(items);
            proof {
                assert(node@->List_0 =~= views_of(node->List_0@));
            }
            Ok(node)
        },
        Err(e) => Err(e),
    }
}

/// Decodes elements from the whole of `data`, in order, until no byte
/// remains.
fn parse_items(data: &Vec<u8>) -> (res: Result<Vec<Rlp>, Error>)
    ensures
        match res {
            Ok(items) => spec_parse_items(data@) == Some(views_of(items@)),
            Err(e) => {
                &&& e == Error::RlpError
                &&& spec_parse_items(data@) is None
            },
        },
    decreases data@.len(), 1int,
{
    let mut items: Vec<Rlp> = Vec::new();
    let mut q: usize = 0;
    proof {
        assert(data@.skip(0) =~= data@);
        if spec_parse_items(data@) is Some {
            let whole = spec_parse_items(data@)->Some_0;
            assert(views_of(items@) + whole =~= whole);
        }
    }
    while q < data.len()
        invariant
            q <= data@.len(),
            spec_parse_items(data@) == join_items(
                views_of(items@),
                spec_parse_items(data@.skip(q as int)),
            ),
        decreases data@.len() - q,
    {
        let ghost before = data@.skip(q as int);
        match parse_element(data, q) {
            Ok(p) => {
                let (node, used) = p;
                proof {
                    assert(before.len() > 0);
                    assert(spec_parse(before) == Some((node@, used as int)));
                    assert(before.skip(used as int) =~= data@.skip(q + used));
                    let tail = spec_parse_items(data@.skip(q + used));
                    if tail is Some {
                        let rest = tail->Some_0;
                        assert(spec_parse_items(before) == Some(seq![node@] + rest));
                        assert(views_of(items@.push(node)) =~= views_of(items@) + seq![node@]);
                        assert(views_of(items@) + (seq![node@] + rest)
                            =~= (views_of(items@) + seq![node@]) + rest);
                    } else {
                        assert(spec_parse_items(before) is None);
                    }
                }
                items.push(node);
                q = q + used;
            },
            Err(e) => {
                proof {
                    assert(spec_parse_items(before) is None);
                }
                return Err(e);
            },
        }
    }
    proof {
        assert(data@.skip(q as int) =~= Seq::<u8>::empty());
        assert(spec_parse_items(data@.skip(q as int)) == Some(Seq::<RlpVal>::empty()));
        assert(views_of(items@) + Seq::<RlpVal>::empty() =~= views_of(items@));
    }
    Ok(items)
}

/// Appends a parsed tail to an already parsed prefix; a failed tail makes
/// the whole parse fail.
pub open spec fn join_items(prefix: Seq<RlpVal>, rest: Option<Seq<RlpVal>>) -> Option<
    Seq<RlpVal>,
> {
    match rest {
        Some(r) => Some(prefix + r),
        None => None,
    }
}

/// Decodes one RLP element of `data` starting at `pos`: the node and the
/// number of bytes consumed.  Bytes after the element are left untouched.
#[verifier::rlimit(60)]
pub fn parse_element(data: &Vec<u8>, pos: usize) -> (res: Result<(Rlp, usize), Error>)
    requires
        pos <= data@.len(),
    ensures
        match res {
            Ok(p) => {
                &&& spec_parse(data@.skip(pos as int)) == Some((p.0@, p.1 as int))
                &&& 1 <= p.1
                &&& pos + p.1 <= data@.len()
            },
            Err(e) => {
                &&& e == Error::RlpError
                &&& spec_parse(data@.skip(pos as int)) is None
            },
        },
    decreases data@.len() - pos, 0int,
{
    let ghost s = data@.skip(pos as int);
    if pos >= data.len() {
        return Err(Error::RlpError);
    }
    let tag = data[pos];
    proof {
        assert(s[0] == tag);
        assert(s.len() == data@.len() - pos);
    }
    if tag <= 0x7e {
        let mut bytes: Vec<u8> = Vec::new();
        bytes.push(tag);
        proof {
            assert(bytes@ =~= seq![tag]);
        }
        Ok((Rlp::String(bytes), 1))
    } else if tag == 0x7f {
        Err(Error::RlpError)
    } else if tag <= 0xb6 {
        let length = (tag - 0x80) as usize;
        match read_string(data, pos + 1, length) {
            Ok(node) => {
                proof {
                    assert(data@.subrange(pos + 1, pos + 1 + length)
                        =~= s.subrange(1, 1 + length));
                }
                Ok((node, 1 + length))
            },
            Err(e) => Err(e),
        }
    } else if tag <= 0xbe {
        let k = (tag - 0xb7) as usize;
        let ghost lenfield = s.subrange(1, 1 + k);
        match read_length(data, pos + 1, k) {
            Ok(len) => {
                proof {
                    assert(data@.subrange(pos + 1, pos + 1 + k) =~= lenfield);
                }
                match read_string(data, pos + 1 + k, len) {
                    Ok(node) => {
                        proof {
                            assert(data@.subrange(pos + 1 + k, pos + 1 + k + len)
                                =~= s.subrange(1 + k, 1 + k + len));
                        }
                        Ok((node, 1 + k + len))
                    },
                    Err(e) => Err(e),
                }
            },
            Err(e) => {
                proof {
                    if pos + 1 + k <= data@.len() {
                        assert(data@.subrange(pos + 1, pos + 1 + k) =~= lenfield);
                    }
                }
                Err(e)
            },
        }
    } else if tag == 0xbf {
        Err(Error::RlpError)
    } else if tag <= 0xf6 {
        let length = (tag - 0xc0) as usize;
        if length > data.len() - (pos + 1) {
            return Err(Error::RlpError);
        }
        let ghost payload = s.subrange(1, 1 + length);
        proof {
            assert(data@.subrange(pos + 1, pos + 1 + length) =~= payload);
        }
        match read_list(data, pos + 1, length) {
            Ok(node) => Ok((node, 1 + length)),
            Err(e) => Err(e),
        }
    } else {
        let k = (tag - 0xf7) as usize;
        let ghost lenfield = s.subrange(1, 1 + k);
        match read_length(data, pos + 1, k) {
            Ok(len) => {
                proof {
                    assert(data@.subrange(pos + 1, pos + 1 + k) =~= lenfield);
                }
                if len > data.len() - (pos + 1 + k) {
                    return Err(Error::RlpError);
                }
                let ghost payload = s.subrange(1 + k, 1 + k + len);
                proof {
                    assert(data@.subrange(pos + 1 + k, pos + 1 + k + len) =~= payload);
                }
                match read_list(data, pos + 1 + k, len) {
                    Ok(node) => Ok((node, 1 + k + len)),
                    Err(e) => Err(e),
                }
            },
            Err(e) => {
                proof {
                    if pos + 1 + k <= data@.len() {
                        assert(data@.subrange(pos + 1, pos + 1 + k) =~= lenfield);
                    }
                }
                Err(e)
            },
        }
    }
}

} // verus!
