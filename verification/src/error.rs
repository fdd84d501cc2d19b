use vstd::prelude::*;
use vstd::string::StringExecFns;
use crate::amount::{dec_digits, push_dec};
use crate::transaction::TxType;

verus! {

/// Every way a transaction can be rejected, one variant per rejection kind,
/// carrying the offending ids where the report names them.
#[derive(Clone, Copy, PartialEq, Eq, Structural, Debug)]
pub enum ProcessorError {
    /// The record handed to a consumer was not of that consumer's kind.
    KindMismatch { expected: TxType },
    /// A row could not be read as a transaction record.
    MalformedRecord,
    /// A deposit or withdrawal carried no positive amount.
    InvalidAmount { tx: u32 },
    /// A deposit or withdrawal reused an id already in the ledger.
    DuplicateTransaction { tx: u32 },
    /// A withdrawal reached a locked account.
    AccountLocked,
    /// A withdrawal asked for more than the available funds.
    InsufficientFunds { tx: u32 },
    /// A dispute named an id the ledger does not hold.
    UnknownTransaction { tx: u32, client: u16 },
    /// A stored record of a kind that cannot enter the dispute lifecycle.
    NotDisputable { action: TxType },
    /// A dispute named an id already under dispute or already settled.
    AlreadyDisputed { tx: u32 },
    /// A resolve or chargeback named an id not currently under dispute.
    NotDisputed { tx: u32 },
}

/// The report text of each rejection.
pub open spec fn error_text(e: ProcessorError) -> Seq<char> {
    match e {
        ProcessorError::KindMismatch { expected } => match expected {
            TxType::Deposit => "PROCESSOR ERROR: Deposit consumer accepts only DEPOSIT type transactions."@,
            TxType::Withdrawal => "PROCESSOR ERROR: Withdrawal consumer accepts only WITHDRAWAL type transactions."@,
            TxType::Dispute => "PROCESSOR ERROR: Dispute consumer accepts only DISPUTE type transactions."@,
            TxType::Resolve => "PROCESSOR ERROR: Resolve consumer accepts only RESOLVE type transactions."@,
            TxType::Chargeback => "PROCESSOR ERROR: Chargeback consumer accepts only CHARGEBACK type transactions."@,
        },
        ProcessorError::MalformedRecord => "PROCESSOR ERROR: Only rows with 3 or 4 well-formed fields are allowed."@,
        ProcessorError::InvalidAmount { tx } => "PROCESSOR ERROR: Transaction with ID: "@
            + dec_digits(tx as int) + " cannot have negative or 0 amount."@,
        ProcessorError::DuplicateTransaction { tx } => "PROCESSOR ERROR: Transaction with ID: "@
            + dec_digits(tx as int) + " already exists."@,
        ProcessorError::AccountLocked => "PROCESSOR ERROR: Locked accounts cannot accept withdrawals."@,
        ProcessorError::InsufficientFunds { tx } => "PROCESSOR ERROR: Invalid withdrawal transaction "@
            + dec_digits(tx as int)
            + ". Available amount is smaller than withdraw amount."@,
        ProcessorError::UnknownTransaction { tx, client } => "PROCESSOR ERROR: Transaction "@
            + dec_digits(tx as int) + " isn't registered for client "@
            + dec_digits(client as int) + "."@,
        ProcessorError::NotDisputable { action } => match action {
            TxType::Resolve => "PROCESSOR ERROR: Only DEPOSIT and WITHDRAWAL transactions can be resolved."@,
            TxType::Chargeback => "PROCESSOR ERROR: Only DEPOSIT and WITHDRAWAL transactions can be chargedback."@,
            _ => "PROCESSOR ERROR: Only DEPOSIT and WITHDRAWAL transactions can be disputed."@,
        },
        ProcessorError::AlreadyDisputed { tx } => "PROCESSOR ERROR: Transaction "@
            + dec_digits(tx as int) + " is already disputed/resolved."@,
        ProcessorError::NotDisputed { tx } => "PROCESSOR ERROR: Transaction "@
            + dec_digits(tx as int) + " is not disputed."@,
    }
}

impl ProcessorError {
    /// The rejection's report line, ready for the warning stream.
    pub fn message(&self) -> (r: String)
        ensures
            r@ == error_text(*self),
    {
        let r = match self {
            ProcessorError::KindMismatch { expected } => {
                let t: &str = match expected {
                    TxType::Deposit => "PROCESSOR ERROR: Deposit consumer accepts only DEPOSIT type transactions.",
                    TxType::Withdrawal => "PROCESSOR ERROR: Withdrawal consumer accepts only WITHDRAWAL type transactions.",
                    TxType::Dispute => "PROCESSOR ERROR: Dispute consumer accepts only DISPUTE type transactions.",
                    TxType::Resolve => "PROCESSOR ERROR: Resolve consumer accepts only RESOLVE type transactions.",
                    TxType::Chargeback => "PROCESSOR ERROR: Chargeback consumer accepts only CHARGEBACK type transactions.",
                };
                String::from_str(t)
            },
            ProcessorError::MalformedRecord => String::from_str(
                "PROCESSOR ERROR: Only rows with 3 or 4 well-formed fields are allowed.",
            ),
            ProcessorError::InvalidAmount { tx } => {
                let mut s = String::from_str("PROCESSOR ERROR: Transaction with ID: ");
                push_dec(&mut s, *tx as u128);
                s.append(" cannot have negative or 0 amount.");
                s
            },
            ProcessorError::DuplicateTransaction { tx } => {
                let mut s = String::from_str("PROCESSOR ERROR: Transaction with ID: ");
                push_dec(&mut s, *tx as u128);
                s.append(" already exists.");
                s
            },
            ProcessorError::AccountLocked => String::from_str(
                "PROCESSOR ERROR: Locked accounts cannot accept withdrawals.",
            ),
            ProcessorError::InsufficientFunds { tx } => {
                let mut s = String::from_str("PROCESSOR ERROR: Invalid withdrawal transaction ");
                push_dec(&mut s, *tx as u128);
                s.append(". Available amount is smaller than withdraw amount.");
                s
            },
            ProcessorError::UnknownTransaction { tx, client } => {
                let mut s = String::from_str("PROCESSOR ERROR: Transaction ");
                push_dec(&mut s, *tx as u128);
                s.append(" isn't registered for client ");
                push_dec(&mut s, *client as u128);
                s.append(".");
                s
            },
            ProcessorError::NotDisputable { action } => {
                let t: &str = match action {
                    TxType::Resolve => "PROCESSOR ERROR: Only DEPOSIT and WITHDRAWAL transactions can be resolved.",
                    TxType::Chargeback => "PROCESSOR ERROR: Only DEPOSIT and WITHDRAWAL transactions can be chargedback.",
                    _ => "PROCESSOR ERROR: Only DEPOSIT and WITHDRAWAL transactions can be disputed.",
                };
                String::from_str(t)
            },
            ProcessorError::AlreadyDisputed { tx } => {
                let mut s = String::from_str("PROCESSOR ERROR: Transaction ");
                push_dec(&mut s, *tx as u128);
                s.append(" is already disputed/resolved.");
                s
            },
            ProcessorError::NotDisputed { tx } => {
                let mut s = String::from_str("PROCESSOR ERROR: Transaction ");
                push_dec(&mut s, *tx as u128);
                s.append(" is not disputed.");
                s
            },
        };
        proof {
            assert(r@ =~= error_text(*self));
        }
        r
    }
}

/// Wraps a rejection as the `Err` outcome of a consume operation.
pub fn p_error(error: ProcessorError) -> (r: Result<(), ProcessorError>)
    ensures
        r == Err::<(), ProcessorError>(error),
{
    Err(error)
}

} // verus!
