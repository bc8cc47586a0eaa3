//! Assembling a decoded RLP tree into the nine-field legacy transaction
//! record, with the optional sender address of estimate mode.

use vstd::arithmetic::power2::pow2;
use vstd::prelude::*;
use vstd::string::StringExecFns;

use crate::convert::{hex_encode, hex_str_of, to_big_int, to_string};
use crate::rlp::{be_val, copy_range, parse_element, spec_parse, Rlp, RlpVal};
use crate::Error;

verus! {

/// A legacy transaction: three counters, the target address, the value,
/// the payload, and the three signature components.
#[derive(Debug, PartialEq, Eq)]
pub struct Transaction {
    pub nonce: u128,
    pub gas: u128,
    pub gas_limit: u128,
    pub target_address: String,
    pub value: u128,
    pub data: String,
    pub v: String,
    pub r: String,
    pub s: String,
}

/// The mathematical value of a transaction record.
pub struct TransactionV {
    pub nonce: nat,
    pub gas: nat,
    pub gas_limit: nat,
    pub target_address: Seq<char>,
    pub value: nat,
    pub data: Seq<char>,
    pub v: Seq<char>,
    pub r: Seq<char>,
    pub s: Seq<char>,
}

impl View for Transaction {
    type V = TransactionV;

    open spec fn view(&self) -> TransactionV {
        TransactionV {
            nonce: self.nonce as nat,
            gas: self.gas as nat,
            gas_limit: self.gas_limit as nat,
            target_address: self.target_address@,
            value: self.value as nat,
            data: self.data@,
            v: self.v@,
            r: self.r@,
            s: self.s@,
        }
    }
}

/// A decoded transaction, alone or paired with the sender address that
/// estimate mode peels off the front of the input.
#[derive(Debug, PartialEq, Eq)]
pub enum TransactionData {
    TransactionWithSender(String, Transaction),
    SubmittableTransaction(Transaction),
}

/// The mathematical value of a decode result.
pub enum TransactionDataV {
    TransactionWithSender(Seq<char>, TransactionV),
    SubmittableTransaction(TransactionV),
}

impl View for TransactionData {
    type V = TransactionDataV;

    open spec fn view(&self) -> TransactionDataV {
        match self {
            TransactionData::TransactionWithSender(addr, tx) => {
                TransactionDataV::TransactionWithSender(addr@, tx@)
            },
            TransactionData::SubmittableTransaction(tx) => {
                TransactionDataV::SubmittableTransaction(tx@)
            },
        }
    }
}

/// The integer a string node's bytes stand for, as a 128-bit value.
pub open spec fn int_field(v: RlpVal) -> nat
    recommends
        v is Str,
{
    be_val(v->Str_0) % pow2(128)
}

/// The hex display form of a string node's bytes.
pub open spec fn hex_field(v: RlpVal) -> Seq<char>
    recommends
        v is Str,
{
    seq!['0', 'x'] + hex_str_of(v->Str_0)
}

/// Builds the transaction record from the elements of the decoded list:
/// there must be at least nine elements, the nine read must all be string
/// nodes, and positions 0, 1, 2 and 4 convert to integers while 3 and 5
/// through 8 convert to hex strings.  Elements past the ninth are ignored.
pub open spec fn spec_assemble(items: Seq<RlpVal>) -> Option<TransactionV> {
    if items.len() >= 9 && items[0] is Str && items[1] is Str && items[2] is Str && items[3] is Str
        && items[4] is Str && items[5] is Str && items[6] is Str && items[7] is Str
        && items[8] is Str {
        Some(
            TransactionV {
                nonce: int_field(items[0]),
                gas: int_field(items[1]),
                gas_limit: int_field(items[2]),
                target_address: hex_field(items[3]),
                value: int_field(items[4]),
                data: hex_field(items[5]),
                v: hex_field(items[6]),
                r: hex_field(items[7]),
                s: hex_field(items[8]),
            },
        )
    } else {
        None
    }
}

/// The transaction encoded at the front of `bytes`: one RLP element is
/// parsed (trailing bytes are ignored) and must be a list that assembles.
pub open spec fn spec_tx_of(bytes: Seq<u8>) -> Option<TransactionV> {
    match spec_parse(bytes) {
        Some(p) => {
            if p.0 is List {
                spec_assemble(p.0->List_0)
            } else {
                None
            }
        },
        None => None,
    }
}

/// The decode result for a raw byte buffer: in estimate mode the first
/// twenty bytes are the sender address, shown as hex, and the transaction
/// follows them; otherwise the buffer holds the transaction alone.
pub open spec fn spec_parse_eth_tx(bytes: Seq<u8>, estimate: bool) -> Option<TransactionDataV> {
    if estimate {
        if bytes.len() < 20 {
            None
        } else {
            match spec_tx_of(bytes.skip(20)) {
                Some(tx) => Some(
                    TransactionDataV::TransactionWithSender(
                        seq!['0', 'x'] + hex_str_of(bytes.take(20)),
                        tx,
                    ),
                ),
                None => None,
            }
        }
    } else {
        match spec_tx_of(bytes) {
            Some(tx) => Some(TransactionDataV::SubmittableTransaction(tx)),
            None => None,
        }
    }
}

/// Whether a node is a list whose elements assemble into a transaction.
pub open spec fn spec_assemble_of(v: RlpVal) -> Option<TransactionV> {
    if v is List {
        spec_assemble(v->List_0)
    } else {
        None
    }
}

/// Extracts the transaction record from a decoded node, which must be a
/// list of at least nine string nodes.
pub fn assemble_tx(node: &Rlp) -> (res: Result<Transaction, Error>)
    ensures
        match res {
            Ok(tx) => spec_assemble_of(node@) == Some(tx@),
            Err(e) => e == Error::RlpError && spec_assemble_of(node@) is None,
        },
{
    let items: &Vec<Rlp> = match node {
        Rlp::List(items) => items,
        Rlp::String(_) => {
            return Err(Error::RlpError);
        },
    };
    let ghost vs = node@->List_0;
    proof {
        assert(forall|i: int| 0 <= i < items@.len() ==> vs[i] == items@[i]@);
    }
    if items.len() < 9 {
        return Err(Error::RlpError);
    }
    let transaction = Transaction {
        nonce: to_big_int(&items[0])?,
        gas: to_big_int(&items[1])?,
        gas_limit: to_big_int(&items[2])?,
        target_address: to_string(&items[3])?,
        value: to_big_int(&items[4])?,
        data: to_string(&items[5])?,
        v: to_string(&items[6])?,
        r: to_string(&items[7])?,
        s: to_string(&items[8])?,
    };
    Ok(transaction)
}

/// Decodes a raw byte buffer into a transaction record; in estimate mode
/// the first twenty bytes are peeled off as the sender address first.
pub fn parse_eth_tx(data: &Vec<u8>, estimate: bool) -> (res: Result<TransactionData, Error>)
    ensures
        match res {
            Ok(td) => spec_parse_eth_tx(data@, estimate) == Some(td@),
            Err(e) => e == Error::RlpError && spec_parse_eth_tx(data@, estimate) is None,
        },
{
    if estimate {
        if data.len() < 20 {
            return Err(Error::RlpError);
        }
        let addr_bytes = copy_range(data, 0, 20);
        let digits = hex_encode(&addr_bytes);
        let mut addr = String::from_str("0x");
        addr.append(digits.as_str());
        proof {
            reveal_strlit("0x");
            assert("0x"@ =~= seq!['0', 'x']);
            assert(addr_bytes@ =~= data@.take(20));
        }
        match parse_element(data, 20) {
            Ok(p) => {
                let tx = assemble_tx(&p.0)?;
                Ok(TransactionData::TransactionWithSender(addr, tx))
            },
            Err(e) => Err(e),
        }
    } else {
        proof {
            assert(data@.skip(0) =~= data@);
        }
        match parse_element(data, 0) {
            Ok(p) => {
                let tx = assemble_tx(&p.0)?;
                Ok(TransactionData::SubmittableTransaction(tx))
            },
            Err(e) => Err(e),
        }
    }
}

/// A decoded list of fewer than nine elements does not assemble into a
/// transaction.
pub proof fn lemma_short_list_rejected(items: Seq<RlpVal>)
    requires
        items.len() < 9,
    ensures
        spec_assemble(items) is None,
{
}

/// Estimate mode peels exactly the first twenty bytes off as the sender
/// address, shown as hex, and decodes the rest as the same bare
/// transaction that plain mode yields.
pub proof fn lemma_estimate_mode(addr: Seq<u8>, bytes: Seq<u8>)
    requires
        addr.len() == 20,
    ensures
        spec_parse_eth_tx(addr + bytes, true) == (match spec_parse_eth_tx(bytes, false) {
            Some(TransactionDataV::SubmittableTransaction(tx)) => Some(
                TransactionDataV::TransactionWithSender(seq!['0', 'x'] + hex_str_of(addr), tx),
            ),
            _ => None::<TransactionDataV>,
        }),
{
    assert((addr + bytes).skip(20) =~= bytes);
    assert((addr + bytes).take(20) =~= addr);
}

} // verus!
