use vstd::prelude::*;
use crate::client::record_of;
use crate::error::ProcessorError;
use crate::model::AccountView;
use crate::processor::{reg_account, registry_result, run_registry, Processor};
use crate::transaction::Transaction;

verus! {

/// How many worker units the sharded processor runs by default.
pub const TASKS_COUNT: u16 = 10;

// The sharded pipeline routes each record to the worker owning its account,
// `worker_index = account_id mod N`. Each worker applies its own stream to a
// private registry, so the spec model of the pipeline is: filter the stream
// per worker, run each filtered stream on an empty registry, and read each
// account's state from its own worker.

/// Holds of the records that name account `c`.
pub open spec fn for_client(c: u16) -> spec_fn(Transaction) -> bool {
    |t: Transaction| t.client == c
}

/// Holds of the records that route to worker `i` of `n`.
pub open spec fn for_worker(n: int, i: int) -> spec_fn(Transaction) -> bool {
    |t: Transaction| (t.client as int) % n == i
}

/// The subsequence of `txs` that names account `c`, in stream order.
pub open spec fn client_txs(txs: Seq<Transaction>, c: u16) -> Seq<Transaction> {
    txs.filter(for_client(c))
}

/// The subsequence of `txs` routed to worker `i` of `n`, in stream order.
pub open spec fn worker_txs(txs: Seq<Transaction>, n: int, i: int) -> Seq<Transaction> {
    txs.filter(for_worker(n, i))
}

/// The merged outcome of the sharded pipeline: each account's state is read
/// from the one worker its id routes to.
pub open spec fn sharded_run(txs: Seq<Transaction>, n: int) -> Map<u16, AccountView> {
    Map::new(
        |c: u16| run_registry(Map::empty(), worker_txs(txs, n, (c as int) % n)).contains_key(c),
        |c: u16| run_registry(Map::empty(), worker_txs(txs, n, (c as int) % n))[c],
    )
}

/// An account's fate depends only on its own records: running a stream moves
/// account `c` exactly as running just the records that name `c` moves it,
/// and `c` appears in the registry exactly when something named it.
pub proof fn lemma_client_projection(m: Map<u16, AccountView>, txs: Seq<Transaction>, c: u16)
    ensures
        run_registry(m, txs).contains_key(c) <==> (m.contains_key(c) || client_txs(txs, c).len()
            > 0),
        reg_account(run_registry(m, txs), c) == reg_account(
            run_registry(m, client_txs(txs, c)),
            c,
        ),
    decreases txs.len(),
{
    reveal(Seq::filter);
    if txs.len() > 0 {
        let pre = txs.drop_last();
        let t = txs.last();
        lemma_client_projection(m, pre, c);
        if t.client == c {
            assert(client_txs(txs, c) == client_txs(pre, c).push(t));
            assert(client_txs(txs, c).drop_last() =~= client_txs(pre, c));
            assert(client_txs(txs, c).last() == t);
        } else {
            assert(client_txs(txs, c) == client_txs(pre, c));
        }
    }
}

/// Routing keeps each account's records together and in order: filtering a
/// worker's stream down to one of its own accounts gives just that account's
/// records of the whole stream.
pub proof fn lemma_worker_keeps_client(txs: Seq<Transaction>, n: int, c: u16)
    requires
        1 <= n,
    ensures
        client_txs(worker_txs(txs, n, (c as int) % n), c) == client_txs(txs, c),
    decreases txs.len(),
{
    reveal(Seq::filter);
    if txs.len() > 0 {
        let pre = txs.drop_last();
        let t = txs.last();
        lemma_worker_keeps_client(pre, n, c);
        let i = (c as int) % n;
        if (t.client as int) % n == i {
            assert(worker_txs(txs, n, i) == worker_txs(pre, n, i).push(t));
            assert(worker_txs(txs, n, i).drop_last() =~= worker_txs(pre, n, i));
        } else {
            assert(worker_txs(txs, n, i) == worker_txs(pre, n, i));
            assert(t.client != c);
        }
    }
}

proof fn lemma_worker_foreign_empty(txs: Seq<Transaction>, n: int, i: int, c: u16)
    requires
        1 <= n,
        (c as int) % n != i,
    ensures
        client_txs(worker_txs(txs, n, i), c).len() == 0,
    decreases txs.len(),
{
    reveal(Seq::filter);
    if txs.len() > 0 {
        let pre = txs.drop_last();
        let t = txs.last();
        lemma_worker_foreign_empty(pre, n, i, c);
        if (t.client as int) % n == i {
            assert(worker_txs(txs, n, i) == worker_txs(pre, n, i).push(t));
            assert(worker_txs(txs, n, i).drop_last() =~= worker_txs(pre, n, i));
            assert(t.client != c);
        } else {
            assert(worker_txs(txs, n, i) == worker_txs(pre, n, i));
        }
    }
}

/// A worker never holds an account that does not route to it.
pub proof fn lemma_worker_owns_only_its_accounts(txs: Seq<Transaction>, n: int, i: int, c: u16)
    requires
        1 <= n,
        (c as int) % n != i,
    ensures
        !run_registry(Map::empty(), worker_txs(txs, n, i)).contains_key(c),
{
    lemma_worker_foreign_empty(txs, n, i, c);
    lemma_client_projection(Map::empty(), worker_txs(txs, n, i), c);
}

/// Sharded and sequential processing agree: for any stream and any worker
/// count, every account ends in the same state either way.
pub proof fn lemma_sharded_equals_sequential(txs: Seq<Transaction>, n: int)
    requires
        1 <= n,
    ensures
        sharded_run(txs, n) == run_registry(Map::empty(), txs),
{
    let seq_m = run_registry(Map::empty(), txs);
    assert forall|c: u16| #[trigger] sharded_run(txs, n).contains_key(c) <==> seq_m.contains_key(
        c,
    ) by {
        lemma_client_projection(Map::empty(), txs, c);
        lemma_client_projection(Map::empty(), worker_txs(txs, n, (c as int) % n), c);
        lemma_worker_keeps_client(txs, n, c);
    }
    assert forall|c: u16| sharded_run(txs, n).contains_key(c) implies #[trigger] sharded_run(
        txs,
        n,
    )[c] == seq_m[c] by {
        lemma_client_projection(Map::empty(), txs, c);
        lemma_client_projection(Map::empty(), worker_txs(txs, n, (c as int) % n), c);
        lemma_worker_keeps_client(txs, n, c);
        assert(reg_account(run_registry(Map::empty(), worker_txs(txs, n, (c as int) % n)), c)
            == reg_account(seq_m, c));
    }
    assert(sharded_run(txs, n) =~= seq_m);
}

/// The worker index that account `client_id` routes to among `tasks` workers.
pub fn route_index(client_id: u16, tasks: usize) -> (r: usize)
    requires
        1 <= tasks,
    ensures
        r == (client_id as int) % (tasks as int),
{
    (client_id as usize) % tasks
}

/// The sharded processor: `tasks` worker units, each owning a private
/// registry, each record routed to the worker its account id selects. This
/// is the pipeline's decision core; an asynchronous runner performs the same
/// routing over channels and applies the same per-worker processing.
pub struct ProcessorAsync {
    workers: Vec<Processor>,
    // The whole stream routed so far, so the contracts can compare the
    // workers' registries with one sequential run over it.
    log: Ghost<Seq<Transaction>>,
}

impl ProcessorAsync {
    /// Each worker's registry is exactly a sequential run of the records
    /// routed to it, in arrival order.
    pub closed spec fn wf(&self) -> bool {
        &&& 1 <= self.workers@.len()
        &&& forall|i: int|
            0 <= i < self.workers@.len() ==> (#[trigger] self.workers@[i]).wf()
                && self.workers@[i]@ == run_registry(
                Map::empty(),
                worker_txs(self.log@, self.workers@.len() as int, i),
            )
    }

    /// Every record routed so far, in arrival order.
    pub closed spec fn history(&self) -> Seq<Transaction> {
        self.log@
    }

    pub closed spec fn worker_count(&self) -> int {
        self.workers@.len() as int
    }

    pub fn new(tasks: u16) -> (r: Self)
        requires
            1 <= tasks,
        ensures
            r.wf(),
            r.history() == Seq::<Transaction>::empty(),
            r.worker_count() == tasks as int,
    {
        let mut workers: Vec<Processor> = Vec::new();
        while workers.len() < tasks as usize
            invariant
                workers@.len() <= tasks as int,
                forall|i: int|
                    0 <= i < workers@.len() ==> (#[trigger] workers@[i]).wf() && workers@[i]@
                        == Map::<u16, AccountView>::empty(),
            decreases tasks as int - workers@.len(),
        {
            workers.push(Processor::new());
        }
        let r = Self { workers, log: Ghost(Seq::empty()) };
        proof {
            reveal(Seq::filter);
            assert forall|i: int| 0 <= i < r.workers@.len() implies (#[trigger] r.workers@[i]).wf()
                && r.workers@[i]@ == run_registry(
                Map::empty(),
                worker_txs(r.log@, r.workers@.len() as int, i),
            ) by {
                assert(worker_txs(r.log@, r.workers@.len() as int, i)
                    =~= Seq::<Transaction>::empty());
            }
        }
        r
    }

    /// Routes one record to the worker owning its account and applies it
    /// there. The result is exactly what one sequential processor over the
    /// whole stream would have answered.
    pub fn process_transaction(&mut self, transaction: Transaction) -> (r: Result<
        (),
        ProcessorError,
    >)
        requires
            old(self).wf(),
        ensures
            final(self).wf(),
            final(self).worker_count() == old(self).worker_count(),
            final(self).history() == old(self).history().push(transaction),
            r == registry_result(
                run_registry(Map::empty(), old(self).history()),
                transaction,
            ),
    {
        let ghost n = old(self).worker_count();
        let ghost h0 = old(self).history();
        let idx: usize = route_index(transaction.get_client_id(), self.workers.len());
        let mut worker: Processor = self.workers.remove(idx);
        let r = worker.process_transaction(transaction);
        self.workers.insert(idx, worker);
        proof {
            self.log@ = self.log@.push(transaction);
            let h1 = h0.push(transaction);
            assert(self.workers@ =~= old(self).workers@.update(idx as int, worker));
            reveal(Seq::filter);
            assert(h1.drop_last() =~= h0);
            assert forall|i: int| 0 <= i < n implies (#[trigger] self.workers@[i]).wf()
                && self.workers@[i]@ == run_registry(Map::empty(), worker_txs(h1, n, i)) by {
                if i == idx {
                    assert(for_worker(n, i)(transaction));
                    assert(worker_txs(h1, n, i) == worker_txs(h0, n, i).push(transaction));
                    assert(worker_txs(h1, n, i).drop_last() =~= worker_txs(h0, n, i));
                } else {
                    assert(!for_worker(n, i)(transaction));
                    assert(worker_txs(h1, n, i) == worker_txs(h0, n, i));
                }
            }
            // the worker answered over its own registry; project both
            // registries down to this account to see they agree
            lemma_client_projection(Map::empty(), h0, transaction.client);
            lemma_client_projection(
                Map::empty(),
                worker_txs(h0, n, idx as int),
                transaction.client,
            );
            lemma_worker_keeps_client(h0, n, transaction.client);
        }
        r
    }

    /// Routes a whole stream, in order, continuing past rejections. The
    /// rejections reported are exactly those one sequential processor over
    /// the same stream would report, in the same order.
    pub fn process_transactions(&mut self, transactions: &Vec<Transaction>) -> (errors: Vec<
        ProcessorError,
    >)
        requires
            old(self).wf(),
        ensures
            final(self).wf(),
            final(self).worker_count() == old(self).worker_count(),
            final(self).history() == old(self).history() + transactions@,
            errors@ == crate::processor::run_errors(
                run_registry(Map::empty(), old(self).history()),
                transactions@,
            ),
    {
        let ghost h0 = old(self).history();
        let ghost m0 = run_registry(Map::<u16, AccountView>::empty(), h0);
        let mut errors: Vec<ProcessorError> = Vec::new();
        let mut i: usize = 0;
        while i < transactions.len()
            invariant
                0 <= i <= transactions@.len(),
                self.wf(),
                self.worker_count() == old(self).worker_count(),
                h0 == old(self).history(),
                m0 == run_registry(Map::<u16, AccountView>::empty(), h0),
                self.history() == h0 + transactions@.take(i as int),
                errors@ == crate::processor::run_errors(m0, transactions@.take(i as int)),
            decreases transactions@.len() - i,
        {
            let t: Transaction = transactions[i];
            proof {
                assert(transactions@.take(i + 1).drop_last() =~= transactions@.take(i as int));
                assert(transactions@.take(i + 1).last() == transactions@[i as int]);
                crate::processor::lemma_run_registry_append(
                    Map::<u16, AccountView>::empty(),
                    h0,
                    transactions@.take(i as int),
                );
            }
            if let Err(error) = self.process_transaction(t) {
                errors.push(error);
            }
            proof {
                assert(self.history() =~= h0 + transactions@.take(i + 1));
            }
            i = i + 1;
        }
        proof {
            assert(transactions@.take(transactions@.len() as int) =~= transactions@);
        }
        errors
    }

    /// The snapshot's row order: every worker's accounts in turn.
    pub closed spec fn merged_ids(&self) -> Seq<u16> {
        ids_prefix(self.workers@, self.workers@.len() as int)
    }

    /// The merged snapshot: every worker's rows, concatenated. Account ids
    /// are disjoint across workers, so the rows are exactly one per account
    /// of a sequential run over the whole routed stream — the sharded
    /// pipeline and the sequential processor answer alike.
    pub fn snapshot_records(&self) -> (r: Vec<Vec<String>>)
        requires
            self.wf(),
        ensures
            ({
                let m = run_registry(Map::empty(), self.history());
                &&& r@.len() == self.merged_ids().len()
                &&& self.merged_ids().no_duplicates()
                &&& (forall|i: int|
                    0 <= i < r@.len() ==> m.contains_key(#[trigger] self.merged_ids()[i]) && r@[
                        i
                    ].deep_view() == record_of(m[self.merged_ids()[i]]))
                &&& (forall|c: u16| #[trigger] m.contains_key(c) ==> self.merged_ids().contains(c))
            }),
    {
        let ghost m = run_registry(Map::empty(), self.log@);
        let ghost n = self.workers@.len() as int;
        let mut r: Vec<Vec<String>> = Vec::new();
        let mut w: usize = 0;
        while w < self.workers.len()
            invariant
                self.wf(),
                m == run_registry(Map::empty(), self.log@),
                n == self.workers@.len() as int,
                0 <= w <= n,
                r@.len() == ids_prefix(self.workers@, w as int).len(),
                forall|j: int|
                    0 <= j < r@.len() ==> m.contains_key(
                        #[trigger] ids_prefix(self.workers@, w as int)[j],
                    ) && r@[j].deep_view() == record_of(m[ids_prefix(self.workers@, w as int)[j]]),
                forall|j: int|
                    0 <= j < ids_prefix(self.workers@, w as int).len() ==> (#[trigger] ids_prefix(
                        self.workers@,
                        w as int,
                    )[j] as int) % n < w as int,
                ids_prefix(self.workers@, w as int).no_duplicates(),
                forall|c: u16|
                    #[trigger] m.contains_key(c) && (c as int) % n < w as int ==> ids_prefix(
                        self.workers@,
                        w as int,
                    ).contains(c),
            decreases self.workers@.len() - w,
        {
            let worker: &Processor = &self.workers[w];
            let mut rows: Vec<Vec<String>> = worker.snapshot_records();
            let ghost idsw = worker.ids();
            let ghost pref = ids_prefix(self.workers@, w as int);
            let ghost pref1 = ids_prefix(self.workers@, w as int + 1);
            proof {
                assert(pref1 == pref + idsw);
                // every account a worker holds routes to it, and agrees with
                // the sequential registry there
                assert forall|c: u16| #[trigger] worker@.contains_key(c) implies (c as int) % n
                    == w as int && m.contains_key(c) && worker@[c] == m[c] by {
                    if (c as int) % n != w as int {
                        lemma_worker_owns_only_its_accounts(self.log@, n, w as int, c);
                    }
                    lemma_client_projection(Map::empty(), self.log@, c);
                    lemma_client_projection(Map::empty(), worker_txs(self.log@, n, w as int), c);
                    lemma_worker_keeps_client(self.log@, n, c);
                }
                assert forall|c: u16|
                    #[trigger] m.contains_key(c) && (c as int) % n == w as int implies
                worker@.contains_key(c) by {
                    lemma_client_projection(Map::empty(), self.log@, c);
                    lemma_client_projection(Map::empty(), worker_txs(self.log@, n, w as int), c);
                    lemma_worker_keeps_client(self.log@, n, c);
                }
            }
            r.append(&mut rows);
            proof {
                assert forall|i: int, j: int| 0 <= i < j < pref1.len() implies pref1[i] != pref1[
                    j
                ] by {
                    if i < pref.len() && j >= pref.len() {
                        assert(worker@.contains_key(idsw[j - pref.len()]));
                        assert((pref1[j] as int) % n == w as int);
                        assert((pref1[i] as int) % n < w as int);
                    }
                }
                assert forall|c: u16|
                    #[trigger] m.contains_key(c) && (c as int) % n < w as int + 1 implies
                pref1.contains(c) by {
                    if (c as int) % n < w as int {
                        let j = choose|j: int| 0 <= j < pref.len() && pref[j] == c;
                        assert(pref1[j] == c);
                    } else {
                        assert(worker@.contains_key(c));
                        assert(idsw.contains(c));
                        let j = choose|j: int| 0 <= j < idsw.len() && idsw[j] == c;
                        assert(pref1[pref.len() + j] == c);
                    }
                }
            }
            w = w + 1;
        }
        r
    }
}

/// The ids of the first `k` workers' accounts, in worker order.
pub open spec fn ids_prefix(ws: Seq<Processor>, k: int) -> Seq<u16>
    decreases k,
{
    if k <= 0 {
        Seq::empty()
    } else {
        ids_prefix(ws, k - 1) + ws[k - 1].ids()
    }
}

} // verus!
