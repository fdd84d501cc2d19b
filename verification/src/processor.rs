use vstd::prelude::*;
use vstd::string::StringExecFns;
use std::collections::HashMap;
use crate::client::{record_of, Client};
use crate::error::ProcessorError;
use crate::model::{account_result, account_step, AccountView};
use crate::transaction::{Transaction, TxType};

verus! {

broadcast use vstd::std_specs::hash::group_hash_axioms;

// The registry model: an abstract registry is a map from account id to
// account state, an account being created fresh the first time any record
// names it, even one its consume operation then rejects.

/// The account that the registry holds for `c`, a fresh one if none yet.
pub open spec fn reg_account(m: Map<u16, AccountView>, c: u16) -> AccountView {
    if m.contains_key(c) {
        m[c]
    } else {
        AccountView::init(c)
    }
}

/// One transaction applied to a registry: its account steps, every other
/// account stands still.
pub open spec fn step_registry(m: Map<u16, AccountView>, t: Transaction) -> Map<u16, AccountView> {
    m.insert(t.client, account_step(reg_account(m, t.client), t))
}

/// Whether the registry accepts or rejects `t`, and with which error.
pub open spec fn registry_result(m: Map<u16, AccountView>, t: Transaction) -> Result<
    (),
    ProcessorError,
> {
    account_result(reg_account(m, t.client), t)
}

/// A whole stream applied to a registry, in order.
pub open spec fn run_registry(m: Map<u16, AccountView>, txs: Seq<Transaction>) -> Map<
    u16,
    AccountView,
>
    decreases txs.len(),
{
    if txs.len() == 0 {
        m
    } else {
        step_registry(run_registry(m, txs.drop_last()), txs.last())
    }
}

/// The rejections a stream draws from a registry, in stream order.
pub open spec fn run_errors(m: Map<u16, AccountView>, txs: Seq<Transaction>) -> Seq<ProcessorError>
    decreases txs.len(),
{
    if txs.len() == 0 {
        Seq::empty()
    } else {
        let prefix = run_errors(m, txs.drop_last());
        match registry_result(run_registry(m, txs.drop_last()), txs.last()) {
            Ok(_) => prefix,
            Err(e) => prefix.push(e),
        }
    }
}

/// Every account a registry holds is well-formed and filed under its own id.
pub open spec fn reg_wf(m: Map<u16, AccountView>) -> bool {
    forall|c: u16| #[trigger] m.contains_key(c) ==> m[c].wf() && m[c].id == c
}

/// Running one stream after another is running their concatenation.
pub proof fn lemma_run_registry_append(
    m: Map<u16, AccountView>,
    a: Seq<Transaction>,
    b: Seq<Transaction>,
)
    ensures
        run_registry(m, a + b) == run_registry(run_registry(m, a), b),
    decreases b.len(),
{
    if b.len() == 0 {
        assert(a + b =~= a);
    } else {
        assert((a + b).drop_last() =~= a + b.drop_last());
        lemma_run_registry_append(m, a, b.drop_last());
    }
}

/// One step keeps every account in the registry well-formed and filed under
/// its own id.
pub proof fn lemma_step_registry_wf(m: Map<u16, AccountView>, t: Transaction)
    requires
        reg_wf(m),
    ensures
        reg_wf(step_registry(m, t)),
{
    crate::model::lemma_init_wf(t.client);
    crate::model::lemma_account_step_wf(reg_account(m, t.client), t);
}

/// Every state a run of the processor reaches is well-formed: with
/// `lemma_balance_equation`, the balance equation holds at every observation
/// point of every stream.
pub proof fn lemma_run_registry_wf(m: Map<u16, AccountView>, txs: Seq<Transaction>)
    requires
        reg_wf(m),
    ensures
        reg_wf(run_registry(m, txs)),
    decreases txs.len(),
{
    if txs.len() > 0 {
        lemma_run_registry_wf(m, txs.drop_last());
        lemma_step_registry_wf(run_registry(m, txs.drop_last()), txs.last());
    }
}

/// A settled id stays settled under any further stream: no record ever
/// takes an id out of an account's `resolved` set.
pub proof fn lemma_resolved_monotone(
    m: Map<u16, AccountView>,
    txs: Seq<Transaction>,
    c: u16,
    id: u32,
)
    requires
        reg_account(m, c).resolved.contains(id),
    ensures
        reg_account(run_registry(m, txs), c).resolved.contains(id),
    decreases txs.len(),
{
    if txs.len() > 0 {
        lemma_resolved_monotone(m, txs.drop_last(), c, id);
    }
}

/// The sequential processor: applies a stream of transaction records to its
/// registry of accounts, one at a time, in input order, continuing past
/// rejections. Its abstract state is the registry map, and processing moves
/// it exactly as `run_registry` does.
pub struct Processor {
    clients: HashMap<u16, Client>,
    // The keys of `clients` in insertion order, so the snapshot can walk
    // them without an order of its own.
    client_ids: Vec<u16>,
}

impl View for Processor {
    type V = Map<u16, AccountView>;

    closed spec fn view(&self) -> Map<u16, AccountView> {
        Map::new(
            |c: u16| self.clients@.contains_key(c),
            |c: u16| self.clients@[c]@,
        )
    }
}

impl Processor {
    /// The registry invariant, together with the bookkeeping that lets the
    /// snapshot walk every account exactly once.
    pub closed spec fn wf(&self) -> bool {
        &&& forall|c: u16|
            #[trigger] self.clients@.contains_key(c) ==> self.clients@[c]@.wf()
                && self.clients@[c]@.id == c
        &&& self.client_ids@.no_duplicates()
        &&& forall|i: int|
            0 <= i < self.client_ids@.len() ==> self.clients@.contains_key(
                #[trigger] self.client_ids@[i],
            )
        &&& forall|c: u16| #[trigger] self.clients@.contains_key(c) ==> self.client_ids@.contains(c)
    }

    /// The snapshot's row order: every account id exactly once.
    pub closed spec fn ids(&self) -> Seq<u16> {
        self.client_ids@
    }

    pub fn new() -> (r: Self)
        ensures
            r.wf(),
            r@ == Map::<u16, AccountView>::empty(),
            r.ids() == Seq::<u16>::empty(),
    {
        let r = Self { clients: HashMap::new(), client_ids: Vec::new() };
        proof {
            assert(r@ =~~= Map::<u16, AccountView>::empty());
        }
        r
    }

    pub fn process_transaction(&mut self, transaction: Transaction) -> (r: Result<
        (),
        ProcessorError,
    >)
        requires
            old(self).wf(),
        ensures
            final(self).wf(),
            final(self)@ == step_registry(old(self)@, transaction),
            r == registry_result(old(self)@, transaction),
            reg_wf(final(self)@),
            final(self).ids() == if old(self)@.contains_key(transaction.client) {
                old(self).ids()
            } else {
                old(self).ids().push(transaction.client)
            },
    {
        // We retrieve the client; if he doesn't exist yet, we create a
        // fresh one under the transaction's account id
        let client_id: u16 = transaction.get_client_id();

        let mut client: Client = match self.clients.remove(&client_id) {
            Some(existing) => existing,
            None => {
                self.client_ids.push(client_id);
                Client::new(client_id)
            },
        };
        let ghost a0 = reg_account(old(self)@, client_id);
        proof {
            assert(client@ == a0);
        }

        let r = match transaction.get_tx_type() {
            TxType::Deposit => client.consume_deposit(transaction),
            TxType::Withdrawal => client.consume_withdrawal(transaction),
            TxType::Dispute => client.consume_dispute(transaction),
            TxType::Resolve => client.consume_resolve(transaction),
            TxType::Chargeback => client.consume_chargeback(transaction),
        };

        self.clients.insert(client_id, client);
        proof {
            assert(self@ =~~= step_registry(old(self)@, transaction));
            assert forall|c: u16| #[trigger] self.clients@.contains_key(c) implies self.clients@[
                c
            ]@.wf() && self.clients@[c]@.id == c by {
                if c != client_id {
                    assert(old(self).clients@.contains_key(c));
                }
            }
            assert forall|c: u16|
                #[trigger] self.clients@.contains_key(c) implies self.client_ids@.contains(c) by {
                if c == client_id && !old(self).clients@.contains_key(c) {
                    assert(self.client_ids@.last() == client_id);
                } else {
                    let i = choose|i: int|
                        0 <= i < old(self).client_ids@.len() && old(self).client_ids@[i] == c;
                    assert(self.client_ids@[i] == c);
                }
            }
        }
        r
    }

    pub fn process_transactions(&mut self, transactions: &Vec<Transaction>) -> (errors: Vec<
        ProcessorError,
    >)
        requires
            old(self).wf(),
        ensures
            final(self).wf(),
            final(self)@ == run_registry(old(self)@, transactions@),
            errors@ == run_errors(old(self)@, transactions@),
    {
        let ghost m0 = self@;
        let mut errors: Vec<ProcessorError> = Vec::new();
        let mut i: usize = 0;
        while i < transactions.len()
            invariant
                0 <= i <= transactions@.len(),
                self.wf(),
                self@ == run_registry(m0, transactions@.take(i as int)),
                errors@ == run_errors(m0, transactions@.take(i as int)),
            decreases transactions@.len() - i,
        {
            let t: Transaction = transactions[i];
            proof {
                assert(transactions@.take(i + 1).drop_last() =~= transactions@.take(i as int));
                assert(transactions@.take(i + 1).last() == transactions@[i as int]);
            }
            if let Err(error) = self.process_transaction(t) {
                errors.push(error);
            }
            i = i + 1;
        }
        proof {
            assert(transactions@.take(transactions@.len() as int) =~= transactions@);
        }
        errors
    }

    /// The final snapshot: one row per account the registry holds, each row
    /// as `Client::record` renders it, in `ids()` order.
    pub fn snapshot_records(&self) -> (r: Vec<Vec<String>>)
        requires
            self.wf(),
        ensures
            r@.len() == self.ids().len(),
            self.ids().no_duplicates(),
            forall|i: int|
                0 <= i < r@.len() ==> self@.contains_key(#[trigger] self.ids()[i]) && r@[
                    i
                ].deep_view() == record_of(self@[self.ids()[i]]),
            forall|c: u16| #[trigger] self@.contains_key(c) ==> self.ids().contains(c),
    {
        let mut r: Vec<Vec<String>> = Vec::new();
        let mut i: usize = 0;
        while i < self.client_ids.len()
            invariant
                0 <= i <= self.client_ids@.len(),
                self.wf(),
                r@.len() == i,
                forall|j: int|
                    0 <= j < i ==> self@.contains_key(#[trigger] self.client_ids@[j]) && r@[
                        j
                    ].deep_view() == record_of(self@[self.client_ids@[j]]),
            decreases self.client_ids@.len() - i,
        {
            let id: u16 = self.client_ids[i];
            let client: &Client = self.clients.get(&id).unwrap();
            r.push(client.record());
            i = i + 1;
        }
        r
    }
}

/// The header row of the snapshot output.
pub fn header_record() -> (r: Vec<String>)
    ensures
        r@.len() == 5,
        r@[0]@ == "client"@,
        r@[1]@ == "available"@,
        r@[2]@ == "held"@,
        r@[3]@ == "total"@,
        r@[4]@ == "locked"@,
{
    let mut r: Vec<String> = Vec::new();
    r.push(String::from_str("client"));
    r.push(String::from_str("available"));
    r.push(String::from_str("held"));
    r.push(String::from_str("total"));
    r.push(String::from_str("locked"));
    r
}

} // verus!
