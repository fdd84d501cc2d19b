use vstd::prelude::*;
use vstd::string::StringExecFns;
use std::collections::{HashMap, HashSet};
use crate::amount::{amount_text, dec_digits, dec_string, format_amount};
use crate::error::{p_error, ProcessorError};
use crate::model::{
    apply_chargeback, apply_deposit, apply_dispute, apply_resolve, apply_withdrawal,
    chargeback_result, deposit_result, dispute_result, lemma_init_wf, lemma_step_chargeback_wf,
    lemma_step_deposit_wf, lemma_step_dispute_wf, lemma_step_resolve_wf, lemma_step_withdrawal_wf,
    lemma_wf_bounds, resolve_result, step_chargeback, step_deposit, step_dispute, step_resolve,
    step_withdrawal, withdrawal_result, AccountView,
};
use crate::transaction::{Transaction, TxType};

verus! {

broadcast use vstd::std_specs::hash::group_hash_axioms;

/// One account: balances, lock state, and the dispute bookkeeping over its
/// ledger of accepted deposits and withdrawals. Balances are fixed-point
/// `i128` values counting ten-thousandths of a unit; its abstract state is an
/// [`AccountView`], and every consume operation moves that view exactly as
/// the spec transitions of the model do.
pub struct Client {
    id: u16,
    available_amount: i128,
    held_amount: i128,
    locked: bool,
    transactions: HashMap<u32, Transaction>,
    disputed_transactions: HashSet<u32>,
    // Transactions that went through dispute -> resolve/chargeback are
    // put here, so they can't be re-disputed and re-resolved/re-chargedback
    resolved_transactions: HashSet<u32>,
    // Which settled ids were settled by chargeback; only the invariant
    // needs the distinction, so it is ghost.
    charged_back_transactions: Ghost<Set<u32>>,
}

impl View for Client {
    type V = AccountView;

    closed spec fn view(&self) -> AccountView {
        AccountView {
            id: self.id,
            available: self.available_amount as int,
            held: self.held_amount as int,
            locked: self.locked,
            ledger: self.transactions@,
            disputed: self.disputed_transactions@,
            resolved: self.resolved_transactions@,
            charged_back: self.charged_back_transactions@,
        }
    }
}

impl Client {
    pub fn new(client_id: u16) -> (r: Self)
        ensures
            r@ == AccountView::init(client_id),
            r@.wf(),
    {
        proof {
            lemma_init_wf(client_id);
        }
        let r = Self {
            id: client_id,
            available_amount: 0,
            held_amount: 0,
            locked: false,
            transactions: HashMap::new(),
            disputed_transactions: HashSet::new(),
            resolved_transactions: HashSet::new(),
            charged_back_transactions: Ghost(Set::empty()),
        };
        proof {
            assert(r@ =~~= AccountView::init(client_id));
        }
        r
    }

    // Getters
    pub fn get_id(&self) -> (r: u16)
        ensures
            r == self@.id,
    {
        self.id
    }

    pub fn get_available_amount(&self) -> (r: i128)
        ensures
            r == self@.available,
    {
        self.available_amount
    }

    pub fn get_held_amount(&self) -> (r: i128)
        ensures
            r == self@.held,
    {
        self.held_amount
    }

    pub fn get_total_amount(&self) -> (r: i128)
        requires
            i128::MIN <= self@.total() <= i128::MAX,
        ensures
            r == self@.total(),
    {
        self.held_amount + self.available_amount
    }

    // Transaction helper functions
    pub fn add_transaction(&mut self, transaction: Transaction)
        ensures
            final(self)@ == (AccountView {
                ledger: old(self)@.ledger.insert(transaction.tx, transaction),
                ..old(self)@
            }),
    {
        self.transactions.insert(transaction.get_tx_id(), transaction);
    }

    pub fn get_transaction(&self, transaction_id: u32) -> (r: Option<&Transaction>)
        ensures
            match r {
                Some(t) => self@.ledger.contains_key(transaction_id) && *t
                    == self@.ledger[transaction_id],
                None => !self@.ledger.contains_key(transaction_id),
            },
    {
        self.transactions.get(&transaction_id)
    }

    // Disputed transactions helper functions
    pub fn add_disputed_transaction(&mut self, transaction_id: u32) -> (r: bool)
        ensures
            final(self)@ == (AccountView {
                disputed: old(self)@.disputed.insert(transaction_id),
                ..old(self)@
            }),
            r == !old(self)@.disputed.contains(transaction_id),
    {
        self.disputed_transactions.insert(transaction_id)
    }

    pub fn remove_disputed_transaction(&mut self, transaction_id: u32) -> (r: bool)
        ensures
            final(self)@ == (AccountView {
                disputed: old(self)@.disputed.remove(transaction_id),
                ..old(self)@
            }),
            r == old(self)@.disputed.contains(transaction_id),
    {
        self.disputed_transactions.remove(&transaction_id)
    }

    pub fn check_disputed_transaction(&self, transaction_id: u32) -> (r: bool)
        ensures
            r == self@.disputed.contains(transaction_id),
    {
        self.disputed_transactions.contains(&transaction_id)
    }

    pub fn check_resolved_transaction(&self, transaction_id: u32) -> (r: bool)
        ensures
            r == self@.resolved.contains(transaction_id),
    {
        self.resolved_transactions.contains(&transaction_id)
    }

    // Amount helper functions
    pub fn increase_available_amount(&mut self, amount: u64)
        requires
            old(self)@.available + amount <= i128::MAX,
        ensures
            final(self)@ == (AccountView { available: old(self)@.available + amount, ..old(self)@ }),
    {
        self.available_amount = self.available_amount + amount as i128;
    }

    pub fn decrease_available_amount(&mut self, amount: u64)
        requires
            i128::MIN <= old(self)@.available - amount,
        ensures
            final(self)@ == (AccountView { available: old(self)@.available - amount, ..old(self)@ }),
    {
        self.available_amount = self.available_amount - amount as i128;
    }

    pub fn increase_held_amount(&mut self, amount: u64)
        requires
            old(self)@.held + amount <= i128::MAX,
        ensures
            final(self)@ == (AccountView { held: old(self)@.held + amount, ..old(self)@ }),
    {
        self.held_amount = self.held_amount + amount as i128;
    }

    pub fn decrease_held_amount(&mut self, amount: u64)
        requires
            i128::MIN <= old(self)@.held - amount,
        ensures
            final(self)@ == (AccountView { held: old(self)@.held - amount, ..old(self)@ }),
    {
        self.held_amount = self.held_amount - amount as i128;
    }

    // Lock helper
    pub fn lock_account(&mut self, lock: bool)
        ensures
            final(self)@ == (AccountView { locked: lock, ..old(self)@ }),
    {
        self.locked = lock;
    }

    pub fn is_locked(&self) -> (r: bool)
        ensures
            r == self@.locked,
    {
        self.locked
    }

    // Transaction consumers
    pub fn consume_deposit(&mut self, transaction: Transaction) -> (r: Result<(), ProcessorError>)
        requires
            old(self)@.wf(),
        ensures
            final(self)@.wf(),
            final(self)@ == step_deposit(old(self)@, transaction),
            r == deposit_result(old(self)@, transaction),
    {
        if transaction.get_tx_type() != TxType::Deposit {
            return p_error(ProcessorError::KindMismatch { expected: TxType::Deposit });
        }
        let tx_id: u32 = transaction.get_tx_id();
        let amount: u64 = transaction.get_amount();

        // Transaction amount has to be bigger than 0
        if amount == 0 {
            return p_error(ProcessorError::InvalidAmount { tx: tx_id });
        }
        // Transaction ID has to be unique
        if self.transactions.contains_key(&tx_id) {
            return p_error(ProcessorError::DuplicateTransaction { tx: tx_id });
        }

        proof {
            lemma_wf_bounds(self@);
            lemma_step_deposit_wf(old(self)@, transaction);
        }
        self.increase_available_amount(transaction.get_amount());
        self.add_transaction(transaction);
        proof {
            assert(self@ =~~= apply_deposit(old(self)@, transaction));
        }
        Ok(())
    }

    pub fn consume_withdrawal(&mut self, transaction: Transaction) -> (r: Result<
        (),
        ProcessorError,
    >)
        requires
            old(self)@.wf(),
        ensures
            final(self)@.wf(),
            final(self)@ == step_withdrawal(old(self)@, transaction),
            r == withdrawal_result(old(self)@, transaction),
    {
        if transaction.get_tx_type() != TxType::Withdrawal {
            return p_error(ProcessorError::KindMismatch { expected: TxType::Withdrawal });
        }
        let tx_id: u32 = transaction.get_tx_id();
        let amount: u64 = transaction.get_amount();

        // Transaction amount has to be bigger than 0
        if amount == 0 {
            return p_error(ProcessorError::InvalidAmount { tx: tx_id });
        }
        // Transaction ID should be unique
        if self.transactions.contains_key(&tx_id) {
            return p_error(ProcessorError::DuplicateTransaction { tx: tx_id });
        }

        // Locked accounts do not accept withdrawals
        if self.is_locked() {
            return p_error(ProcessorError::AccountLocked);
        }

        // Available amount has to cover the withdrawn amount
        if self.get_available_amount() < amount as i128 {
            return p_error(ProcessorError::InsufficientFunds { tx: tx_id });
        }

        proof {
            lemma_wf_bounds(self@);
            lemma_step_withdrawal_wf(old(self)@, transaction);
        }
        self.decrease_available_amount(amount);
        self.add_transaction(transaction);
        proof {
            assert(self@ =~~= apply_withdrawal(old(self)@, transaction));
        }
        Ok(())
    }

    pub fn consume_dispute(&mut self, transaction: Transaction) -> (r: Result<(), ProcessorError>)
        requires
            old(self)@.wf(),
        ensures
            final(self)@.wf(),
            final(self)@ == step_dispute(old(self)@, transaction),
            r == dispute_result(old(self)@, transaction),
    {
        if transaction.get_tx_type() != TxType::Dispute {
            return p_error(ProcessorError::KindMismatch { expected: TxType::Dispute });
        }
        let tx_id: u32 = transaction.get_tx_id();

        // Transaction can't be already disputed or resolved
        if self.check_disputed_transaction(tx_id) == false && self.check_resolved_transaction(tx_id)
            == false {
            let stored: Transaction = match self.get_transaction(tx_id) {
                Some(tx) => *tx,
                None => {
                    return p_error(
                        ProcessorError::UnknownTransaction { tx: tx_id, client: self.id },
                    );
                },
            };
            match stored.get_tx_type() {
                TxType::Deposit => {
                    proof {
                        lemma_wf_bounds(self@);
                        lemma_step_dispute_wf(old(self)@, transaction);
                    }
                    let disputed_amount: u64 = stored.get_amount();
                    self.increase_held_amount(disputed_amount);
                    self.decrease_available_amount(disputed_amount);
                    self.add_disputed_transaction(tx_id);
                    proof {
                        assert(self@ =~~= apply_dispute(old(self)@, transaction));
                    }
                },
                TxType::Withdrawal => {
                    proof {
                        lemma_step_dispute_wf(old(self)@, transaction);
                    }
                    self.add_disputed_transaction(tx_id);
                    proof {
                        assert(self@ =~~= apply_dispute(old(self)@, transaction));
                    }
                },
                _ => {
                    return p_error(ProcessorError::NotDisputable { action: TxType::Dispute });
                },
            }
        } else {
            return p_error(ProcessorError::AlreadyDisputed { tx: tx_id });
        }

        Ok(())
    }

    pub fn consume_resolve(&mut self, transaction: Transaction) -> (r: Result<(), ProcessorError>)
        requires
            old(self)@.wf(),
        ensures
            final(self)@.wf(),
            final(self)@ == step_resolve(old(self)@, transaction),
            r == resolve_result(old(self)@, transaction),
    {
        if transaction.get_tx_type() != TxType::Resolve {
            return p_error(ProcessorError::KindMismatch { expected: TxType::Resolve });
        }
        let tx_id: u32 = transaction.get_tx_id();

        // Transaction has to be disputed in order to be resolved
        if self.check_disputed_transaction(tx_id) {
            let stored: Transaction = match self.get_transaction(tx_id) {
                Some(tx) => *tx,
                None => {
                    return p_error(
                        ProcessorError::UnknownTransaction { tx: tx_id, client: self.id },
                    );
                },
            };
            match stored.get_tx_type() {
                TxType::Deposit => {
                    proof {
                        lemma_wf_bounds(self@);
                        lemma_step_resolve_wf(old(self)@, transaction);
                    }
                    let disputed_amount: u64 = stored.get_amount();
                    self.decrease_held_amount(disputed_amount);
                    self.increase_available_amount(disputed_amount);
                    self.remove_disputed_transaction(tx_id);
                    self.resolved_transactions.insert(tx_id);
                    proof {
                        assert(self@ =~~= apply_resolve(old(self)@, transaction));
                    }
                },
                TxType::Withdrawal => {
                    proof {
                        lemma_step_resolve_wf(old(self)@, transaction);
                    }
                    self.remove_disputed_transaction(tx_id);
                    self.resolved_transactions.insert(tx_id);
                    proof {
                        assert(self@ =~~= apply_resolve(old(self)@, transaction));
                    }
                },
                _ => {
                    return p_error(ProcessorError::NotDisputable { action: TxType::Resolve });
                },
            }
        } else {
            return p_error(ProcessorError::NotDisputed { tx: tx_id });
        }

        Ok(())
    }

    pub fn consume_chargeback(&mut self, transaction: Transaction) -> (r: Result<
        (),
        ProcessorError,
    >)
        requires
            old(self)@.wf(),
        ensures
            final(self)@.wf(),
            final(self)@ == step_chargeback(old(self)@, transaction),
            r == chargeback_result(old(self)@, transaction),
    {
        if transaction.get_tx_type() != TxType::Chargeback {
            return p_error(ProcessorError::KindMismatch { expected: TxType::Chargeback });
        }
        let tx_id: u32 = transaction.get_tx_id();

        // Transaction has to be disputed in order to be charged back
        if self.check_disputed_transaction(tx_id) {
            let stored: Transaction = match self.get_transaction(tx_id) {
                Some(tx) => *tx,
                None => {
                    return p_error(
                        ProcessorError::UnknownTransaction { tx: tx_id, client: self.id },
                    );
                },
            };
            match stored.get_tx_type() {
                TxType::Deposit => {
                    proof {
                        lemma_wf_bounds(self@);
                        lemma_step_chargeback_wf(old(self)@, transaction);
                    }
                    let disputed_amount: u64 = stored.get_amount();
                    self.decrease_held_amount(disputed_amount);
                    self.remove_disputed_transaction(tx_id);
                    self.lock_account(true);
                    self.resolved_transactions.insert(tx_id);
                    proof {
                        self.charged_back_transactions@ = self.charged_back_transactions@.insert(
                            tx_id,
                        );
                    }
                    proof {
                        assert(self@ =~~= apply_chargeback(old(self)@, transaction));
                    }
                },
                // Chargebacks for withdrawals mean adding the amount
                // back to the client account, then locking the account
                // to prevent further malicious actions
                TxType::Withdrawal => {
                    proof {
                        lemma_wf_bounds(self@);
                        lemma_step_chargeback_wf(old(self)@, transaction);
                    }
                    let disputed_amount: u64 = stored.get_amount();
                    self.increase_available_amount(disputed_amount);
                    self.remove_disputed_transaction(tx_id);
                    self.lock_account(true);
                    self.resolved_transactions.insert(tx_id);
                    proof {
                        self.charged_back_transactions@ = self.charged_back_transactions@.insert(
                            tx_id,
                        );
                    }
                    proof {
                        assert(self@ =~~= apply_chargeback(old(self)@, transaction));
                    }
                },
                _ => {
                    return p_error(ProcessorError::NotDisputable { action: TxType::Chargeback });
                },
            }
        } else {
            return p_error(ProcessorError::NotDisputed { tx: tx_id });
        }

        Ok(())
    }

    /// The account's snapshot row: id, available, held, total (each amount
    /// with exactly four decimal places) and the lock state.
    pub fn record(&self) -> (r: Vec<String>)
        requires
            self@.wf(),
        ensures
            r.deep_view() == record_of(self@),
    {
        proof {
            lemma_wf_bounds(self@);
        }
        let total: i128 = self.available_amount + self.held_amount;
        let locked_text: &str = if self.locked { "true" } else { "false" };
        let mut r: Vec<String> = Vec::new();
        r.push(dec_string(self.id as u128));
        r.push(format_amount(self.available_amount));
        r.push(format_amount(self.held_amount));
        r.push(format_amount(total));
        r.push(String::from_str(locked_text));
        proof {
            assert(r.deep_view() =~~= record_of(self@));
        }
        r
    }
}

/// The snapshot row of an account: id, available, held, total, lock state.
pub open spec fn record_of(a: AccountView) -> Seq<Seq<char>> {
    seq![
        dec_digits(a.id as int),
        amount_text(a.available),
        amount_text(a.held),
        amount_text(a.total()),
        if a.locked {
            "true"@
        } else {
            "false"@
        },
    ]
}

} // verus!
