use vstd::prelude::*;
use crate::amount::{all_digits, amount_val, digits_val, parse_amount, parse_uint, valid_amount};
use crate::error::ProcessorError;

verus! {

/// The five kinds of ledger event a record can describe.
#[derive(Clone, Copy, PartialEq, Eq, Structural, Debug)]
pub enum TxType {
    Deposit,
    Withdrawal,
    Dispute,
    Resolve,
    Chargeback,
}

/// One transaction record.
///
/// `amount` is a fixed-point value counting ten-thousandths of a currency
/// unit, so `25000` stands for 2.5; dispute, resolve and chargeback records
/// carry no amount of their own and use 0.
#[derive(Clone, Copy, PartialEq, Eq, Structural, Debug)]
pub struct Transaction {
    pub tx_type: TxType,
    pub client: u16,
    pub tx: u32,
    pub amount: u64,
}

/// The amount given to a record whose row carries none.
pub fn default_amount() -> (r: u64)
    ensures
        r == 0,
{
    0
}

impl Transaction {
    pub fn get_tx_id(self) -> (r: u32)
        ensures
            r == self.tx,
    {
        self.tx
    }

    pub fn get_client_id(self) -> (r: u16)
        ensures
            r == self.client,
    {
        self.client
    }

    pub fn get_amount(self) -> (r: u64)
        ensures
            r == self.amount,
    {
        self.amount
    }

    pub fn get_tx_type(self) -> (r: TxType)
        ensures
            r == self.tx_type,
    {
        self.tx_type
    }
}

// ------------------------------------------------------------------
// Parsing raw rows from the record source into transaction records.

/// ASCII lower-casing of one byte.
pub open spec fn lower(b: u8) -> u8 {
    if 65 <= b <= 90 {
        (b + 32) as u8
    } else {
        b
    }
}

pub open spec fn lower_seq(s: Seq<u8>) -> Seq<u8> {
    s.map_values(|b: u8| lower(b))
}

pub open spec fn deposit_name() -> Seq<u8> {
    seq![100u8, 101, 112, 111, 115, 105, 116]
}

pub open spec fn withdrawal_name() -> Seq<u8> {
    seq![119u8, 105, 116, 104, 100, 114, 97, 119, 97, 108]
}

pub open spec fn dispute_name() -> Seq<u8> {
    seq![100u8, 105, 115, 112, 117, 116, 101]
}

pub open spec fn resolve_name() -> Seq<u8> {
    seq![114u8, 101, 115, 111, 108, 118, 101]
}

pub open spec fn chargeback_name() -> Seq<u8> {
    seq![99u8, 104, 97, 114, 103, 101, 98, 97, 99, 107]
}

/// The transaction kind a type field names, compared without regard to
/// ASCII case.
pub open spec fn kind_of(s: Seq<u8>) -> Option<TxType> {
    let l = lower_seq(s);
    if l == deposit_name() {
        Some(TxType::Deposit)
    } else if l == withdrawal_name() {
        Some(TxType::Withdrawal)
    } else if l == dispute_name() {
        Some(TxType::Dispute)
    } else if l == resolve_name() {
        Some(TxType::Resolve)
    } else if l == chargeback_name() {
        Some(TxType::Chargeback)
    } else {
        None
    }
}

fn lower_byte(b: u8) -> (r: u8)
    ensures
        r == lower(b),
{
    if 65 <= b && b <= 90 {
        b + 32
    } else {
        b
    }
}

/// Parses a type field into its transaction kind.
pub fn parse_tx_type(s: &[u8]) -> (r: Option<TxType>)
    ensures
        r == kind_of(s@),
{
    let n = s.len();
    if n == 7 {
        if lower_byte(s[0]) == 100 && lower_byte(s[1]) == 101 && lower_byte(s[2]) == 112
            && lower_byte(s[3]) == 111 && lower_byte(s[4]) == 115 && lower_byte(s[5]) == 105
            && lower_byte(s[6]) == 116 {
            proof {
                assert(lower_seq(s@) =~= deposit_name());
            }
            return Some(TxType::Deposit);
        }
        if lower_byte(s[0]) == 100 && lower_byte(s[1]) == 105 && lower_byte(s[2]) == 115
            && lower_byte(s[3]) == 112 && lower_byte(s[4]) == 117 && lower_byte(s[5]) == 116
            && lower_byte(s[6]) == 101 {
            proof {
                assert(lower_seq(s@) =~= dispute_name());
                assert(lower_seq(s@)[1] != deposit_name()[1]);
            }
            return Some(TxType::Dispute);
        }
        if lower_byte(s[0]) == 114 && lower_byte(s[1]) == 101 && lower_byte(s[2]) == 115
            && lower_byte(s[3]) == 111 && lower_byte(s[4]) == 108 && lower_byte(s[5]) == 118
            && lower_byte(s[6]) == 101 {
            proof {
                assert(lower_seq(s@) =~= resolve_name());
                assert(lower_seq(s@)[0] != deposit_name()[0]);
                assert(lower_seq(s@)[0] != dispute_name()[0]);
            }
            return Some(TxType::Resolve);
        }
        proof {
            assert(lower_seq(s@).len() == s@.len());
            lemma_name_mismatch(s@, deposit_name());
            lemma_name_mismatch(s@, dispute_name());
            lemma_name_mismatch(s@, resolve_name());
        }
        return None;
    } else if n == 10 {
        if lower_byte(s[0]) == 119 && lower_byte(s[1]) == 105 && lower_byte(s[2]) == 116
            && lower_byte(s[3]) == 104 && lower_byte(s[4]) == 100 && lower_byte(s[5]) == 114
            && lower_byte(s[6]) == 97 && lower_byte(s[7]) == 119 && lower_byte(s[8]) == 97
            && lower_byte(s[9]) == 108 {
            proof {
                assert(lower_seq(s@) =~= withdrawal_name());
            }
            return Some(TxType::Withdrawal);
        }
        if lower_byte(s[0]) == 99 && lower_byte(s[1]) == 104 && lower_byte(s[2]) == 97
            && lower_byte(s[3]) == 114 && lower_byte(s[4]) == 103 && lower_byte(s[5]) == 101
            && lower_byte(s[6]) == 98 && lower_byte(s[7]) == 97 && lower_byte(s[8]) == 99
            && lower_byte(s[9]) == 107 {
            proof {
                assert(lower_seq(s@) =~= chargeback_name());
                assert(lower_seq(s@)[0] != withdrawal_name()[0]);
            }
            return Some(TxType::Chargeback);
        }
        proof {
            assert(lower_seq(s@).len() == s@.len());
            lemma_name_mismatch(s@, withdrawal_name());
            lemma_name_mismatch(s@, chargeback_name());
        }
        return None;
    } else {
        proof {
            assert(lower_seq(s@).len() == s@.len());
        }
        return None;
    }
}

/// A field names `name` exactly when it has its length and lowers to its
/// bytes, position by position.
proof fn lemma_name_mismatch(s: Seq<u8>, name: Seq<u8>)
    ensures
        (lower_seq(s) == name) <==> (s.len() == name.len() && (forall|i: int|
            0 <= i < s.len() ==> lower(#[trigger] s[i]) == name[i])),
{
    if s.len() == name.len() && (forall|i: int|
        0 <= i < s.len() ==> lower(#[trigger] s[i]) == name[i]) {
        assert(lower_seq(s) =~= name);
    }
    if lower_seq(s) == name {
        assert forall|i: int| 0 <= i < s.len() implies lower(#[trigger] s[i]) == name[i] by {
            assert(lower_seq(s)[i] == lower(s[i]));
        }
    }
}

/// Whether a field is a nonempty run of decimal digits.
pub open spec fn valid_uint(s: Seq<u8>) -> bool {
    s.len() > 0 && all_digits(s)
}

/// The transaction a raw row denotes, if any: a type field, a client id, a
/// transaction id, and (only in four-field rows) an amount; a three-field
/// row's amount is 0.
pub open spec fn parsed_record(fields: Seq<Seq<u8>>) -> Option<Transaction> {
    if fields.len() != 3 && fields.len() != 4 {
        None
    } else {
        match kind_of(fields[0]) {
            Option::None => None,
            Option::Some(k) => {
                if !(valid_uint(fields[1]) && digits_val(fields[1]) <= u16::MAX) {
                    None
                } else if !(valid_uint(fields[2]) && digits_val(fields[2]) <= u32::MAX) {
                    None
                } else if fields.len() == 4 {
                    if valid_amount(fields[3]) && amount_val(fields[3]) <= u64::MAX {
                        Some(
                            Transaction {
                                tx_type: k,
                                client: digits_val(fields[1]) as u16,
                                tx: digits_val(fields[2]) as u32,
                                amount: amount_val(fields[3]) as u64,
                            },
                        )
                    } else {
                        None
                    }
                } else {
                    Some(
                        Transaction {
                            tx_type: k,
                            client: digits_val(fields[1]) as u16,
                            tx: digits_val(fields[2]) as u32,
                            amount: 0,
                        },
                    )
                }
            },
        }
    }
}

/// Parses one raw row, its fields already split and trimmed, into a
/// transaction record; a row of the wrong shape is rejected.
pub fn parse_record(fields: &Vec<Vec<u8>>) -> (r: Result<Transaction, ProcessorError>)
    ensures
        r == match parsed_record(fields.deep_view()) {
            Option::Some(t) => Ok::<Transaction, ProcessorError>(t),
            Option::None => Err::<Transaction, ProcessorError>(ProcessorError::MalformedRecord),
        },
{
    proof {
        assert(fields.deep_view().len() == fields@.len());
        assert forall|i: int| 0 <= i < fields@.len() implies fields.deep_view()[i]
            == fields@[i]@ by {}
    }
    if fields.len() != 3 && fields.len() != 4 {
        return Err(ProcessorError::MalformedRecord);
    }
    let kind: TxType = match parse_tx_type(fields[0].as_slice()) {
        Some(k) => k,
        None => {
            return Err(ProcessorError::MalformedRecord);
        },
    };
    let client_v: u64 = match parse_uint(fields[1].as_slice()) {
        Some(v) => v,
        None => {
            return Err(ProcessorError::MalformedRecord);
        },
    };
    if client_v > 0xFFFF {
        return Err(ProcessorError::MalformedRecord);
    }
    let tx_v: u64 = match parse_uint(fields[2].as_slice()) {
        Some(v) => v,
        None => {
            return Err(ProcessorError::MalformedRecord);
        },
    };
    if tx_v > 0xFFFF_FFFF {
        return Err(ProcessorError::MalformedRecord);
    }
    let amount: u64 = if fields.len() == 4 {
        match parse_amount(fields[3].as_slice()) {
            Some(v) => v,
            None => {
                return Err(ProcessorError::MalformedRecord);
            },
        }
    } else {
        0
    };
    Ok(Transaction { tx_type: kind, client: client_v as u16, tx: tx_v as u32, amount })
}

} // verus!
