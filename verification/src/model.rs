use vstd::prelude::*;
use crate::error::ProcessorError;
use crate::sums::{
    lemma_sum_bound, lemma_sum_disjoint, lemma_sum_empty, lemma_sum_frame, lemma_sum_insert,
    lemma_sum_le, lemma_sum_nonneg, lemma_sum_remove, share_of, sum_ids,
};
use crate::transaction::{Transaction, TxType};

verus! {

// The mathematical model of one account. The executable `Client` refines
// this: every consume operation's contract says that the client's view moves
// exactly as the spec transition here moves it, and returns exactly the
// result computed here.

/// The abstract state of one account.
#[verifier::ext_equal]
pub ghost struct AccountView {
    pub id: u16,
    /// Funds free to withdraw, in ten-thousandths of a unit.
    pub available: int,
    /// Funds held back by open disputes of deposits.
    pub held: int,
    pub locked: bool,
    /// Every accepted deposit and withdrawal, by transaction id.
    pub ledger: Map<u32, Transaction>,
    /// Ids currently under dispute.
    pub disputed: Set<u32>,
    /// Ids whose dispute was settled, by resolve or by chargeback.
    pub resolved: Set<u32>,
    /// The settled ids that were settled by chargeback.
    pub charged_back: Set<u32>,
}

/// The largest value any single sum over the ledger can reach.
pub open spec fn sum_cap() -> int {
    0x1_0000_0000int * 0xFFFF_FFFF_FFFF_FFFFint
}

impl AccountView {
    /// A fresh account: zero balances, unlocked, empty history.
    pub open spec fn init(id: u16) -> AccountView {
        AccountView {
            id: id,
            available: 0,
            held: 0,
            locked: false,
            ledger: Map::empty(),
            disputed: Set::empty(),
            resolved: Set::empty(),
            charged_back: Set::empty(),
        }
    }

    /// Every ledger entry is a positive-amount deposit or withdrawal of this
    /// account, stored under its own id.
    pub open spec fn ledger_wf(self) -> bool {
        forall|id: u32|
            #[trigger] self.ledger.contains_key(id) ==> {
                let t = self.ledger[id];
                &&& (t.tx_type == TxType::Deposit || t.tx_type == TxType::Withdrawal)
                &&& t.tx == id
                &&& t.amount > 0
            }
    }

    /// The sum of all stored deposit amounts.
    pub open spec fn deposit_total(self) -> int {
        sum_ids(self.ledger, self.ledger.dom(), TxType::Deposit)
    }

    /// The sum of all stored withdrawal amounts.
    pub open spec fn withdrawal_total(self) -> int {
        sum_ids(self.ledger, self.ledger.dom(), TxType::Withdrawal)
    }

    /// The account invariant. Besides the bookkeeping of the dispute
    /// lifecycle it pins both balances down exactly: `held` is the sum of the
    /// deposits under dispute, and `available` is deposits in, withdrawals
    /// out, held funds aside, charged-back deposits gone for good and
    /// charged-back withdrawals returned.
    pub open spec fn wf(self) -> bool {
        &&& self.ledger_wf()
        &&& self.disputed.subset_of(self.ledger.dom())
        &&& self.resolved.subset_of(self.ledger.dom())
        &&& self.disputed.disjoint(self.resolved)
        &&& self.charged_back.subset_of(self.resolved)
        &&& self.held == sum_ids(self.ledger, self.disputed, TxType::Deposit)
        &&& self.available == self.deposit_total() - self.withdrawal_total() - self.held - sum_ids(
            self.ledger,
            self.charged_back,
            TxType::Deposit,
        ) + sum_ids(self.ledger, self.charged_back, TxType::Withdrawal)
    }

    /// Total funds: what the account owns, free or held.
    pub open spec fn total(self) -> int {
        self.available + self.held
    }
}

/// What a deposit record does to an account: accepted or rejected, and why.
pub open spec fn deposit_result(a: AccountView, t: Transaction) -> Result<(), ProcessorError> {
    if t.tx_type != TxType::Deposit {
        Err(ProcessorError::KindMismatch { expected: TxType::Deposit })
    } else if t.amount <= 0 {
        Err(ProcessorError::InvalidAmount { tx: t.tx })
    } else if a.ledger.contains_key(t.tx) {
        Err(ProcessorError::DuplicateTransaction { tx: t.tx })
    } else {
        Ok(())
    }
}

/// The state after an accepted deposit.
pub open spec fn apply_deposit(a: AccountView, t: Transaction) -> AccountView {
    AccountView { available: a.available + t.amount, ledger: a.ledger.insert(t.tx, t), ..a }
}

pub open spec fn step_deposit(a: AccountView, t: Transaction) -> AccountView {
    if deposit_result(a, t) is Ok {
        apply_deposit(a, t)
    } else {
        a
    }
}

/// What a withdrawal record does to an account.
pub open spec fn withdrawal_result(a: AccountView, t: Transaction) -> Result<(), ProcessorError> {
    if t.tx_type != TxType::Withdrawal {
        Err(ProcessorError::KindMismatch { expected: TxType::Withdrawal })
    } else if t.amount <= 0 {
        Err(ProcessorError::InvalidAmount { tx: t.tx })
    } else if a.ledger.contains_key(t.tx) {
        Err(ProcessorError::DuplicateTransaction { tx: t.tx })
    } else if a.locked {
        Err(ProcessorError::AccountLocked)
    } else if a.available < t.amount {
        Err(ProcessorError::InsufficientFunds { tx: t.tx })
    } else {
        Ok(())
    }
}

/// The state after an accepted withdrawal.
pub open spec fn apply_withdrawal(a: AccountView, t: Transaction) -> AccountView {
    AccountView { available: a.available - t.amount, ledger: a.ledger.insert(t.tx, t), ..a }
}

pub open spec fn step_withdrawal(a: AccountView, t: Transaction) -> AccountView {
    if withdrawal_result(a, t) is Ok {
        apply_withdrawal(a, t)
    } else {
        a
    }
}

/// What a dispute record does to an account: the referenced id must be
/// stored, and in neither `disputed` nor `resolved`.
pub open spec fn dispute_result(a: AccountView, t: Transaction) -> Result<(), ProcessorError> {
    if t.tx_type != TxType::Dispute {
        Err(ProcessorError::KindMismatch { expected: TxType::Dispute })
    } else if a.disputed.contains(t.tx) || a.resolved.contains(t.tx) {
        Err(ProcessorError::AlreadyDisputed { tx: t.tx })
    } else if !a.ledger.contains_key(t.tx) {
        Err(ProcessorError::UnknownTransaction { tx: t.tx, client: a.id })
    } else if a.ledger[t.tx].tx_type == TxType::Deposit || a.ledger[t.tx].tx_type
        == TxType::Withdrawal {
        Ok(())
    } else {
        Err(ProcessorError::NotDisputable { action: TxType::Dispute })
    }
}

/// The state after an accepted dispute: a disputed deposit moves its amount
/// from `available` to `held`; a disputed withdrawal is only flagged, its
/// funds already left the account.
pub open spec fn apply_dispute(a: AccountView, t: Transaction) -> AccountView {
    if a.ledger[t.tx].tx_type == TxType::Deposit {
        AccountView {
            available: a.available - a.ledger[t.tx].amount,
            held: a.held + a.ledger[t.tx].amount,
            disputed: a.disputed.insert(t.tx),
            ..a
        }
    } else {
        AccountView { disputed: a.disputed.insert(t.tx), ..a }
    }
}

pub open spec fn step_dispute(a: AccountView, t: Transaction) -> AccountView {
    if dispute_result(a, t) is Ok {
        apply_dispute(a, t)
    } else {
        a
    }
}

/// What a resolve record does to an account: the referenced id must be under
/// dispute.
pub open spec fn resolve_result(a: AccountView, t: Transaction) -> Result<(), ProcessorError> {
    if t.tx_type != TxType::Resolve {
        Err(ProcessorError::KindMismatch { expected: TxType::Resolve })
    } else if !a.disputed.contains(t.tx) {
        Err(ProcessorError::NotDisputed { tx: t.tx })
    } else if !a.ledger.contains_key(t.tx) {
        Err(ProcessorError::UnknownTransaction { tx: t.tx, client: a.id })
    } else if a.ledger[t.tx].tx_type == TxType::Deposit || a.ledger[t.tx].tx_type
        == TxType::Withdrawal {
        Ok(())
    } else {
        Err(ProcessorError::NotDisputable { action: TxType::Resolve })
    }
}

/// The state after an accepted resolve: a deposit's held amount returns to
/// `available`; either way the id is settled for good.
pub open spec fn apply_resolve(a: AccountView, t: Transaction) -> AccountView {
    if a.ledger[t.tx].tx_type == TxType::Deposit {
        AccountView {
            available: a.available + a.ledger[t.tx].amount,
            held: a.held - a.ledger[t.tx].amount,
            disputed: a.disputed.remove(t.tx),
            resolved: a.resolved.insert(t.tx),
            ..a
        }
    } else {
        AccountView {
            disputed: a.disputed.remove(t.tx),
            resolved: a.resolved.insert(t.tx),
            ..a
        }
    }
}

pub open spec fn step_resolve(a: AccountView, t: Transaction) -> AccountView {
    if resolve_result(a, t) is Ok {
        apply_resolve(a, t)
    } else {
        a
    }
}

/// What a chargeback record does to an account: the referenced id must be
/// under dispute.
pub open spec fn chargeback_result(a: AccountView, t: Transaction) -> Result<(), ProcessorError> {
    if t.tx_type != TxType::Chargeback {
        Err(ProcessorError::KindMismatch { expected: TxType::Chargeback })
    } else if !a.disputed.contains(t.tx) {
        Err(ProcessorError::NotDisputed { tx: t.tx })
    } else if !a.ledger.contains_key(t.tx) {
        Err(ProcessorError::UnknownTransaction { tx: t.tx, client: a.id })
    } else if a.ledger[t.tx].tx_type == TxType::Deposit || a.ledger[t.tx].tx_type
        == TxType::Withdrawal {
        Ok(())
    } else {
        Err(ProcessorError::NotDisputable { action: TxType::Chargeback })
    }
}

/// The state after an accepted chargeback. A charged-back deposit's held
/// amount leaves the account for good; a charged-back withdrawal is reversed,
/// its amount returning to `available`. Either way the account is locked.
pub open spec fn apply_chargeback(a: AccountView, t: Transaction) -> AccountView {
    if a.ledger[t.tx].tx_type == TxType::Deposit {
        AccountView {
            held: a.held - a.ledger[t.tx].amount,
            locked: true,
            disputed: a.disputed.remove(t.tx),
            resolved: a.resolved.insert(t.tx),
            charged_back: a.charged_back.insert(t.tx),
            ..a
        }
    } else {
        AccountView {
            available: a.available + a.ledger[t.tx].amount,
            locked: true,
            disputed: a.disputed.remove(t.tx),
            resolved: a.resolved.insert(t.tx),
            charged_back: a.charged_back.insert(t.tx),
            ..a
        }
    }
}

pub open spec fn step_chargeback(a: AccountView, t: Transaction) -> AccountView {
    if chargeback_result(a, t) is Ok {
        apply_chargeback(a, t)
    } else {
        a
    }
}

/// The result of handing `t` to the consume operation of its own kind, as
/// the processors dispatch it.
pub open spec fn account_result(a: AccountView, t: Transaction) -> Result<(), ProcessorError> {
    match t.tx_type {
        TxType::Deposit => deposit_result(a, t),
        TxType::Withdrawal => withdrawal_result(a, t),
        TxType::Dispute => dispute_result(a, t),
        TxType::Resolve => resolve_result(a, t),
        TxType::Chargeback => chargeback_result(a, t),
    }
}

/// The account after handing `t` to the consume operation of its own kind;
/// a rejected record leaves the account as it was.
pub open spec fn account_step(a: AccountView, t: Transaction) -> AccountView {
    match t.tx_type {
        TxType::Deposit => step_deposit(a, t),
        TxType::Withdrawal => step_withdrawal(a, t),
        TxType::Dispute => step_dispute(a, t),
        TxType::Resolve => step_resolve(a, t),
        TxType::Chargeback => step_chargeback(a, t),
    }
}

/// A fresh account satisfies the invariant: all sums are empty.
pub proof fn lemma_init_wf(id: u16)
    ensures
        AccountView::init(id).wf(),
{
    let a = AccountView::init(id);
    assert(a.ledger.dom() =~= Set::<u32>::empty());
    lemma_sum_empty(a.ledger, TxType::Deposit);
    lemma_sum_empty(a.ledger, TxType::Withdrawal);
}

/// A deposit step keeps the invariant.
pub proof fn lemma_step_deposit_wf(a: AccountView, t: Transaction)
    requires
        a.wf(),
    ensures
        step_deposit(a, t).wf(),
{
    if deposit_result(a, t) is Ok {
        let l2 = a.ledger.insert(t.tx, t);
        let dom1 = a.ledger.dom();
        let dep = TxType::Deposit;
        let wd = TxType::Withdrawal;
        assert(l2.dom() =~= dom1.insert(t.tx));
        lemma_sum_frame(a.ledger, l2, a.disputed, dep);
        lemma_sum_frame(a.ledger, l2, a.charged_back, dep);
        lemma_sum_frame(a.ledger, l2, a.charged_back, wd);
        lemma_sum_frame(a.ledger, l2, dom1, dep);
        lemma_sum_frame(a.ledger, l2, dom1, wd);
        lemma_sum_insert(l2, dom1, dep, t.tx);
        lemma_sum_insert(l2, dom1, wd, t.tx);
        assert(share_of(l2, dom1.insert(t.tx), dep, t.tx) == t.amount);
        assert(share_of(l2, dom1.insert(t.tx), wd, t.tx) == 0);
    }
}

/// A withdrawal step keeps the invariant.
pub proof fn lemma_step_withdrawal_wf(a: AccountView, t: Transaction)
    requires
        a.wf(),
    ensures
        step_withdrawal(a, t).wf(),
{
    if withdrawal_result(a, t) is Ok {
        let l2 = a.ledger.insert(t.tx, t);
        let dom1 = a.ledger.dom();
        let dep = TxType::Deposit;
        let wd = TxType::Withdrawal;
        assert(l2.dom() =~= dom1.insert(t.tx));
        lemma_sum_frame(a.ledger, l2, a.disputed, dep);
        lemma_sum_frame(a.ledger, l2, a.charged_back, dep);
        lemma_sum_frame(a.ledger, l2, a.charged_back, wd);
        lemma_sum_frame(a.ledger, l2, dom1, dep);
        lemma_sum_frame(a.ledger, l2, dom1, wd);
        lemma_sum_insert(l2, dom1, dep, t.tx);
        lemma_sum_insert(l2, dom1, wd, t.tx);
        assert(share_of(l2, dom1.insert(t.tx), dep, t.tx) == 0);
        assert(share_of(l2, dom1.insert(t.tx), wd, t.tx) == t.amount);
    }
}

/// A dispute step keeps the invariant.
pub proof fn lemma_step_dispute_wf(a: AccountView, t: Transaction)
    requires
        a.wf(),
    ensures
        step_dispute(a, t).wf(),
{
    if dispute_result(a, t) is Ok {
        let dep = TxType::Deposit;
        lemma_sum_insert(a.ledger, a.disputed, dep, t.tx);
        if a.ledger[t.tx].tx_type == dep {
            assert(share_of(a.ledger, a.disputed.insert(t.tx), dep, t.tx)
                == a.ledger[t.tx].amount);
        } else {
            assert(share_of(a.ledger, a.disputed.insert(t.tx), dep, t.tx) == 0);
        }
    }
}

/// A resolve step keeps the invariant.
pub proof fn lemma_step_resolve_wf(a: AccountView, t: Transaction)
    requires
        a.wf(),
    ensures
        step_resolve(a, t).wf(),
{
    if resolve_result(a, t) is Ok {
        let dep = TxType::Deposit;
        lemma_sum_remove(a.ledger, a.disputed, dep, t.tx);
        if a.ledger[t.tx].tx_type == dep {
            assert(share_of(a.ledger, a.disputed, dep, t.tx) == a.ledger[t.tx].amount);
        } else {
            assert(share_of(a.ledger, a.disputed, dep, t.tx) == 0);
        }
    }
}

/// A chargeback step keeps the invariant.
pub proof fn lemma_step_chargeback_wf(a: AccountView, t: Transaction)
    requires
        a.wf(),
    ensures
        step_chargeback(a, t).wf(),
{
    if chargeback_result(a, t) is Ok {
        let dep = TxType::Deposit;
        let wd = TxType::Withdrawal;
        assert(!a.resolved.contains(t.tx));
        assert(!a.charged_back.contains(t.tx));
        lemma_sum_remove(a.ledger, a.disputed, dep, t.tx);
        lemma_sum_insert(a.ledger, a.charged_back, dep, t.tx);
        lemma_sum_insert(a.ledger, a.charged_back, wd, t.tx);
        if a.ledger[t.tx].tx_type == dep {
            assert(share_of(a.ledger, a.disputed, dep, t.tx) == a.ledger[t.tx].amount);
            assert(share_of(a.ledger, a.charged_back.insert(t.tx), dep, t.tx)
                == a.ledger[t.tx].amount);
            assert(share_of(a.ledger, a.charged_back.insert(t.tx), wd, t.tx) == 0);
        } else {
            assert(share_of(a.ledger, a.disputed, dep, t.tx) == 0);
            assert(share_of(a.ledger, a.charged_back.insert(t.tx), dep, t.tx) == 0);
            assert(share_of(a.ledger, a.charged_back.insert(t.tx), wd, t.tx)
                == a.ledger[t.tx].amount);
        }
    }
}

/// Every step of the account state machine keeps the invariant.
pub proof fn lemma_account_step_wf(a: AccountView, t: Transaction)
    requires
        a.wf(),
    ensures
        account_step(a, t).wf(),
{
    match t.tx_type {
        TxType::Deposit => lemma_step_deposit_wf(a, t),
        TxType::Withdrawal => lemma_step_withdrawal_wf(a, t),
        TxType::Dispute => lemma_step_dispute_wf(a, t),
        TxType::Resolve => lemma_step_resolve_wf(a, t),
        TxType::Chargeback => lemma_step_chargeback_wf(a, t),
    }
}

/// The balance equation: total funds are what is free plus what is held,
/// and what is free plus what is held is the sum of accepted deposits, minus
/// accepted withdrawals, minus the net effect of chargebacks (charged-back
/// deposits remove their amount for good, charged-back withdrawals return
/// theirs).
pub proof fn lemma_balance_equation(a: AccountView)
    requires
        a.wf(),
    ensures
        a.total() == a.available + a.held,
        a.available + a.held == a.deposit_total() - a.withdrawal_total() - sum_ids(
            a.ledger,
            a.charged_back,
            TxType::Deposit,
        ) + sum_ids(a.ledger, a.charged_back, TxType::Withdrawal),
{
}

/// Disputing the same id twice in a row, with nothing in between, is
/// rejected the second time, with no state change.
pub proof fn lemma_dispute_idempotent(a: AccountView, t: Transaction)
    requires
        a.wf(),
        t.tx_type == TxType::Dispute,
    ensures
        step_dispute(step_dispute(a, t), t) == step_dispute(a, t),
        dispute_result(a, t) is Ok ==> dispute_result(step_dispute(a, t), t) == Err::<
            (),
            ProcessorError,
        >(ProcessorError::AlreadyDisputed { tx: t.tx }),
{
}

/// A settled id is settled for good: every further record leaves it in
/// `resolved`, and a dispute naming it is rejected.
pub proof fn lemma_settled_is_final(a: AccountView, t: Transaction, id: u32)
    requires
        a.resolved.contains(id),
    ensures
        account_step(a, t).resolved.contains(id),
        forall|d: Transaction|
            d.tx_type == TxType::Dispute && d.tx == id ==> #[trigger] dispute_result(a, d) == Err::<
                (),
                ProcessorError,
            >(ProcessorError::AlreadyDisputed { tx: id }),
{
}

/// The overdraft guard: a withdrawal asking for more than the available
/// funds is rejected and the account is left unchanged.
pub proof fn lemma_overdraft_rejected(a: AccountView, t: Transaction)
    requires
        t.tx_type == TxType::Withdrawal,
        t.amount > a.available,
    ensures
        withdrawal_result(a, t) is Err,
        step_withdrawal(a, t) == a,
{
}

/// A locked account rejects every withdrawal, unchanged, but judges
/// deposits exactly as it would unlocked.
pub proof fn lemma_locked_policy(a: AccountView, t: Transaction)
    requires
        a.locked,
    ensures
        t.tx_type == TxType::Withdrawal ==> withdrawal_result(a, t) is Err && step_withdrawal(a, t)
            == a,
        t.tx_type == TxType::Deposit ==> deposit_result(a, t) == deposit_result(
            AccountView { locked: false, ..a },
            t,
        ),
{
}

/// A well-formed account's balances are bounded: the whole u32 id space of
/// largest amounts is the worst case, far inside `i128`.
pub proof fn lemma_wf_bounds(a: AccountView)
    requires
        a.wf(),
    ensures
        0 <= a.held <= sum_cap(),
        -sum_cap() <= a.available <= sum_cap(),
{
    let dep = TxType::Deposit;
    let wd = TxType::Withdrawal;
    lemma_sum_nonneg(a.ledger, a.disputed, dep);
    lemma_sum_nonneg(a.ledger, a.charged_back, dep);
    lemma_sum_nonneg(a.ledger, a.charged_back, wd);
    lemma_sum_nonneg(a.ledger, a.ledger.dom(), dep);
    lemma_sum_nonneg(a.ledger, a.ledger.dom(), wd);
    lemma_sum_bound(a.ledger, a.ledger.dom(), dep);
    lemma_sum_bound(a.ledger, a.ledger.dom(), wd);
    lemma_sum_le(a.ledger, a.disputed, a.ledger.dom(), dep);
    // held and charged-back deposits are disjoint slices of all deposits
    assert(a.disputed.disjoint(a.charged_back));
    lemma_sum_disjoint(a.ledger, a.disputed, a.charged_back, dep);
    lemma_sum_le(a.ledger, a.disputed.union(a.charged_back), a.ledger.dom(), dep);
    // charged-back withdrawals are a slice of all withdrawals
    lemma_sum_le(a.ledger, a.charged_back, a.ledger.dom(), wd);
}

} // verus!
