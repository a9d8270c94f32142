//! Transactions: operations are recorded, logged, made durable, applied in
//! their order and then checkpointed; after a crash the log is replayed.

use vstd::prelude::*;
use crate::error::{DbfsError, DbfsResult};
use crate::log_manager::BlockDevice;
use crate::models::DbfsTimeSpec;
use crate::operation::{
    apply_outcome, lemma_payload_len, payload_len, OpView, TransactionOperation,
};
use crate::tx_engine::{FsView, TransactionEngine};
use crate::wal::{
    entries_view, without_txn, EntryView, WalStorage, WriteAheadLog, FRAME_MAX,
};

verus! {

/// The operations of a list as mathematical values.
pub open spec fn ops_view(ops: Seq<TransactionOperation>) -> Seq<OpView> {
    ops.map_values(|op: TransactionOperation| op@)
}

/// The entries under which the operations `ops` of transaction `txn_id`
/// are logged, in their order.
pub open spec fn txn_entries(txn_id: u64, ops: Seq<OpView>) -> Seq<EntryView> {
    ops.map_values(|operation: OpView| EntryView { txn_id, operation })
}

/// The bytes that stand for `op` are not more than a frame may carry.
pub open spec fn fits_frame(op: OpView) -> bool {
    payload_len(op) <= FRAME_MAX
}

/// Each of `ops` fits a frame.
pub open spec fn all_fit(ops: Seq<OpView>) -> bool {
    forall|i: int| 0 <= i < ops.len() ==> fits_frame(#[trigger] ops[i])
}

/// The length of the frames that carry `ops`: for each operation four bytes
/// and its own.
pub open spec fn frames_len(ops: Seq<OpView>) -> nat
    decreases ops.len(),
{
    if ops.len() == 0 {
        0
    } else {
        frames_len(ops.drop_last()) + 4 + payload_len(ops.last())
    }
}

/// The frames of the first operations are not longer than those of all.
pub proof fn lemma_frames_len_prefix(ops: Seq<OpView>, k: int)
    requires
        0 <= k <= ops.len(),
    ensures
        frames_len(ops.take(k)) <= frames_len(ops),
        k < ops.len() ==> frames_len(ops.take(k + 1)) == frames_len(ops.take(k)) + 4 + payload_len(
            ops[k],
        ),
    decreases ops.len() - k,
{
    if k < ops.len() {
        assert(ops.take(k + 1).drop_last() =~= ops.take(k));
        assert(ops.take(k + 1).last() == ops[k]);
        lemma_frames_len_prefix(ops, k + 1);
    } else {
        assert(ops.take(k) =~= ops);
    }
}

/// The result `r` is that of a logging that failed: `Invalid`, which comes
/// of an operation that does not fit a frame, or `IoError`, which comes of
/// the storage alone and only where the storing may fail. A log without
/// storage, and a log on a dependable storage with room for the frames,
/// asked to log operations that fit, does not fail.
pub open spec fn logging_failed(may_fail: bool, fit: bool, r: Result<(), DbfsError>) -> bool {
    ||| r == Err::<(), DbfsError>(DbfsError::Invalid) && !fit
    ||| r == Err::<(), DbfsError>(DbfsError::IoError) && may_fail
}

/// The number of the transaction after transaction `id`: one more, and the
/// largest number again where `id` is the largest.
pub open spec fn next_after(id: u64) -> u64 {
    if id < u64::MAX {
        (id + 1) as u64
    } else {
        u64::MAX
    }
}

/// A transaction: a number and the operations recorded under it, which take
/// effect when the transaction is committed.
pub struct Transaction {
    pub id: u64,
    pub ops: Vec<TransactionOperation>,
}

impl Transaction {
    /// A transaction with the number `id` and no operations.
    pub fn new(id: u64) -> (txn: Self)
        ensures
            txn.id == id,
            txn.ops@ == Seq::<TransactionOperation>::empty(),
    {
        Self { id, ops: Vec::new() }
    }

    /// Records `op` as the transaction's next operation.
    pub fn record(&mut self, op: TransactionOperation)
        ensures
            final(self).id == old(self).id,
            final(self).ops@ == old(self).ops@.push(op),
    {
        self.ops.push(op);
    }
}

/// The data log only grows: from `pre` to `post` the device keeps its size,
/// the cursor does not move back, and no byte below the old cursor changes.
pub open spec fn log_grows(pre: FsView, post: FsView) -> bool {
    &&& post.log.len() == pre.log.len()
    &&& post.dependable == pre.dependable
    &&& post.cursor >= pre.cursor
    &&& forall|i: int| 0 <= i < pre.cursor ==> post.log[i] == pre.log[i]
}

/// Each of the first `n` operations of `ops` led, applied with success, from
/// its state in `states` to the next.
pub open spec fn steps_ok(ops: Seq<OpView>, states: Seq<FsView>, now: DbfsTimeSpec, n: int) -> bool {
    forall|i: int|
        0 <= i < n ==> apply_outcome(
            #[trigger] ops[i],
            states[i],
            states[i + 1],
            now,
            Ok::<(), DbfsError>(()),
        )
}

/// `states` are the states that the file system went through while `ops`
/// were applied in their order, from `pre` to `post`: with the result `Ok`
/// every operation was applied with success; with an error the operations
/// before the first that failed were, that one failed with the error, and
/// none after it was tried.
pub open spec fn is_commit_trace(
    ops: Seq<OpView>,
    states: Seq<FsView>,
    pre: FsView,
    post: FsView,
    now: DbfsTimeSpec,
    r: Result<(), DbfsError>,
) -> bool {
    &&& states.len() >= 1
    &&& states[0] == pre
    &&& states.last() == post
    &&& match r {
        Ok(()) => states.len() == ops.len() + 1 && steps_ok(ops, states, now, ops.len() as int),
        Err(e) => {
            let n = states.len() - 2;
            &&& 0 <= n < ops.len()
            &&& steps_ok(ops, states, now, n)
            &&& apply_outcome(ops[n], states[n], states[n + 1], now, Err::<(), DbfsError>(e))
        },
    }
}

/// `states` are the states that the file system went through while the
/// operations of `entries` were applied in their order, from `pre` to
/// `post`, each with the result that `results` has for it.
pub open spec fn is_replay_trace(
    entries: Seq<EntryView>,
    states: Seq<FsView>,
    results: Seq<Result<(), DbfsError>>,
    pre: FsView,
    post: FsView,
    now: DbfsTimeSpec,
) -> bool {
    &&& states.len() == entries.len() + 1
    &&& results.len() == entries.len()
    &&& states[0] == pre
    &&& states.last() == post
    &&& forall|i: int|
        0 <= i < entries.len() ==> apply_outcome(
            (#[trigger] entries[i]).operation,
            states[i],
            states[i + 1],
            now,
            results[i],
        )
}

/// `entries` are entries that the log's storage held in a chain of frames
/// from its start, and `states` and `results` tell how the file system went
/// from `pre` to `post` as they were applied. On a dependable storage the
/// chain is the whole one: it ends where no further frame can be read. A
/// log without storage has no entries.
pub open spec fn is_replay_outcome(
    stored: Option<Seq<u8>>,
    dependable: bool,
    entries: Seq<EntryView>,
    states: Seq<FsView>,
    results: Seq<Result<(), DbfsError>>,
    pre: FsView,
    post: FsView,
    now: DbfsTimeSpec,
) -> bool {
    &&& match stored {
        Some(bytes) => exists|end: int|
            0 <= end <= bytes.len() && #[trigger] crate::wal::frames_between(bytes, 0, end) == Some(
                entries,
            ) && (dependable ==> crate::wal::chain_ends(bytes, end)),
        None => entries.len() == 0,
    }
    &&& is_replay_trace(entries, states, results, pre, post, now)
}

/// The transaction manager: the write-ahead log and the counter that numbers
/// the transactions.
pub struct TransactionManager<S: WalStorage> {
    wal: WriteAheadLog<S>,
    next_txn_id: u64,
}

impl<S: WalStorage> TransactionManager<S> {
    /// The write-ahead log.
    pub closed spec fn log(&self) -> WriteAheadLog<S> {
        self.wal
    }

    /// The number that the next transaction gets.
    pub closed spec fn next_id(&self) -> u64 {
        self.next_txn_id
    }

    /// The manager is in order: its log is.
    pub open spec fn wf(&self) -> bool {
        self.log().wf()
    }

    /// A manager whose log has no storage yet. Its first transaction gets
    /// the number 1.
    pub fn new() -> (tm: Self)
        ensures
            tm.wf(),
            tm.next_id() == 1,
            tm.log().pending() == Seq::<EntryView>::empty(),
            tm.log().stored() is None,
            !tm.log().dependable(),
            tm.log().capacity() == 0,
            tm.log().end() == 0,
    {
        Self { wal: WriteAheadLog::new(), next_txn_id: 1 }
    }

    /// Begins a transaction. The transactions are numbered upwards from 1;
    /// the counter stops at the largest number.
    pub fn begin_transaction(&mut self) -> (txn: Transaction)
        ensures
            txn.id == old(self).next_id(),
            txn.ops@ == Seq::<TransactionOperation>::empty(),
            final(self).log() == old(self).log(),
            final(self).next_id() == next_after(old(self).next_id()),
    {
        let id = self.next_txn_id;
        if id < u64::MAX {
            self.next_txn_id = id + 1;
        }
        Transaction::new(id)
    }

    /// Gives the write-ahead log its storage.
    pub fn set_wal_storage(&mut self, storage: S)
        ensures
            final(self).wf(),
            final(self).next_id() == old(self).next_id(),
            final(self).log().pending() == old(self).log().pending(),
            final(self).log().stored() == Some(storage.contents()),
            final(self).log().dependable() == storage.dependable(),
            final(self).log().capacity() == storage.capacity(),
            final(self).log().end() == 0,
    {
        self.wal.set_storage(storage);
    }

    fn log_all(&mut self, txn: &Transaction) -> (r: DbfsResult<()>)
        requires
            old(self).wf(),
        ensures
            final(self).wf(),
            final(self).next_id() == old(self).next_id(),
            final(self).log().dependable() == old(self).log().dependable(),
            final(self).log().capacity() == old(self).log().capacity(),
            final(self).log().stored() is Some <==> old(self).log().stored() is Some,
            without_txn(final(self).log().pending(), txn.id) == without_txn(
                old(self).log().pending(),
                txn.id,
            ),
            match r {
                Ok(()) => {
                    &&& final(self).log().pending() == old(self).log().pending() + txn_entries(
                        txn.id,
                        ops_view(txn.ops@),
                    )
                    &&& old(self).log().stored() is Some ==> final(self).log().logged()
                        == old(self).log().logged() + txn_entries(txn.id, ops_view(txn.ops@))
                    &&& old(self).log().stored() is Some ==> final(self).log().end() == old(self).log().end() + frames_len(ops_view(txn.ops@))
                    &&& all_fit(ops_view(txn.ops@))
                },
                Err(e) => logging_failed(
                    old(self).log().may_fail(frames_len(ops_view(txn.ops@))),
                    all_fit(ops_view(txn.ops@)),
                    r,
                ),
            },
    {
        let ghost ops = ops_view(txn.ops@);
        let mut i: usize = 0;
        proof {
            assert(ops.take(0) =~= Seq::<OpView>::empty());
            let none = txn_entries(txn.id, ops.take(0));
            assert(old(self).log().pending() + none =~= old(self).log().pending());
            assert(old(self).log().logged() + none =~= old(self).log().logged());
        }
        while i < txn.ops.len()
            invariant
                i <= txn.ops@.len(),
                ops == ops_view(txn.ops@),
                self.wf(),
                self.next_id() == old(self).next_id(),
                self.log().dependable() == old(self).log().dependable(),
                self.log().capacity() == old(self).log().capacity(),
                old(self).log().stored() is Some ==> self.log().end() == old(self).log().end()
                    + frames_len(ops.take(i as int)),
                self.log().stored() is Some <==> old(self).log().stored() is Some,
                without_txn(self.log().pending(), txn.id) == without_txn(
                    old(self).log().pending(),
                    txn.id,
                ),
                self.log().pending() == old(self).log().pending() + txn_entries(
                    txn.id,
                    ops.take(i as int),
                ),
                old(self).log().stored() is Some ==> self.log().logged() == old(self).log().logged()
                    + txn_entries(txn.id, ops.take(i as int)),
                forall|j: int| 0 <= j < i ==> fits_frame(#[trigger] ops[j]),
            decreases txn.ops@.len() - i,
        {
            let ghost pending = self.log().pending();
            let ghost logged = self.log().logged();
            let op = txn.ops[i].duplicate();
            proof {
                lemma_payload_len(txn.id, ops[i as int]);
                lemma_frames_len_prefix(ops, i as int);
                lemma_frames_len_prefix(ops, i + 1);
            }
            match self.wal.append(txn.id, op) {
                Ok(()) => {
                    proof {
                        let added = EntryView { txn_id: txn.id, operation: ops[i as int] };
                        assert(pending.push(added).drop_last() =~= pending);
                        assert(txn_entries(txn.id, ops.take(i + 1)) =~= txn_entries(
                            txn.id,
                            ops.take(i as int),
                        ).push(added));
                        assert(self.log().pending() =~= old(self).log().pending() + txn_entries(
                            txn.id,
                            ops.take(i + 1),
                        ));
                        if old(self).log().stored() is Some {
                            assert(self.log().logged() =~= old(self).log().logged() + txn_entries(
                                txn.id,
                                ops.take(i + 1),
                            ));
                        }
                    }
                },
                Err(e) => {
                    return Err(e);
                },
            }
            i = i + 1;
        }
        proof {
            assert(ops.take(i as int) =~= ops);
        }
        Ok(())
    }

    /// Writes the operations of `txn` to the log and makes them durable,
    /// without applying them: the state after a crash between the logging
    /// and the applying of a transaction. With success the entries of `txn`
    /// are the last of those that await their checkpoint and, where the log
    /// has a storage, the last of those that it holds, and the storage would
    /// hold all of it after a loss of power. The logging fails as
    /// `logging_failed` says and not otherwise; the entries of `txn` that
    /// did reach the log then stay in it.
    pub fn commit_into_wal_only(&mut self, txn: Transaction) -> (r: DbfsResult<()>)
        requires
            old(self).wf(),
        ensures
            final(self).wf(),
            final(self).next_id() == old(self).next_id(),
            final(self).log().dependable() == old(self).log().dependable(),
            final(self).log().capacity() == old(self).log().capacity(),
            final(self).log().stored() is Some <==> old(self).log().stored() is Some,
            match r {
                Ok(()) => {
                    &&& final(self).log().pending() == old(self).log().pending() + txn_entries(
                        txn.id,
                        ops_view(txn.ops@),
                    )
                    &&& old(self).log().stored() is Some ==> final(self).log().logged()
                        == old(self).log().logged() + txn_entries(txn.id, ops_view(txn.ops@))
                    &&& final(self).log().durable() == final(self).log().stored()
                    &&& old(self).log().stored() is Some ==> final(self).log().end() == old(self).log().end() + frames_len(ops_view(txn.ops@))
                    &&& all_fit(ops_view(txn.ops@))
                },
                Err(e) => logging_failed(
                    old(self).log().may_fail(frames_len(ops_view(txn.ops@))),
                    all_fit(ops_view(txn.ops@)),
                    r,
                ),
            },
    {
        match self.log_all(&txn) {
            Ok(()) => {},
            Err(e) => {
                return Err(e);
            },
        }
        self.wal.flush()
    }

    /// Commits `txn`: its operations are written to the log and made
    /// durable, then applied to the file system in their order, with `now`
    /// as the time of every change; at the end the entries of `txn` leave
    /// the log, which is checkpointed once it is empty.
    ///
    /// Where the logging fails, nothing is applied and the error is
    /// returned; it fails as `logging_failed` says and not otherwise, so
    /// that operations that fit their frames are applied wherever the log
    /// has no storage. Where an operation fails, the error is returned and
    /// no later operation is tried; the operations applied before stay
    /// applied.
    pub fn commit<D: BlockDevice>(
        &mut self,
        txn: Transaction,
        engine: &mut TransactionEngine<D>,
        now: DbfsTimeSpec,
    ) -> (r: DbfsResult<()>)
        requires
            old(self).wf(),
            old(engine).wf(),
        ensures
            final(self).wf(),
            final(engine).wf(),
            final(self).next_id() == old(self).next_id(),
            final(self).log().dependable() == old(self).log().dependable(),
            final(self).log().capacity() == old(self).log().capacity(),
            final(self).log().pending() == without_txn(old(self).log().pending(), txn.id),
            final(self).log().stored() is Some <==> old(self).log().stored() is Some,
            log_grows(old(engine)@, final(engine)@),
            final(self).log().pending().len() == 0 && old(self).log().dependable() ==> final(self).log().stored() == Some(Seq::<u8>::empty()) && final(self).log().end() == 0,
            (logging_failed(
                old(self).log().may_fail(frames_len(ops_view(txn.ops@))),
                all_fit(ops_view(txn.ops@)),
                r,
            ) && final(engine)@ == old(engine)@) || (all_fit(ops_view(txn.ops@))
                && exists|states: Seq<FsView>|
                #[trigger] is_commit_trace(
                    ops_view(txn.ops@),
                    states,
                    old(engine)@,
                    final(engine)@,
                    now,
                    r,
                )),
    {
        let logged = match self.log_all(&txn) {
            Ok(()) => self.wal.flush(),
            Err(e) => Err(e),
        };
        match logged {
            Ok(()) => {},
            Err(e) => {
                self.wal.clear_txn(txn.id);
                return Err(e);
            },
        }
        let ghost ops = ops_view(txn.ops@);
        let ghost mut states: Seq<FsView> = seq![engine@];
        let mut result: DbfsResult<()> = Ok(());
        let mut i: usize = 0;
        while i < txn.ops.len()
            invariant_except_break
                result is Ok,
                i <= txn.ops@.len(),
                states.len() == i + 1,
            invariant
                ops == ops_view(txn.ops@),
                engine.wf(),
                log_grows(old(engine)@, engine@),
                states.len() >= 1,
                states[0] == old(engine)@,
                states.last() == engine@,
                steps_ok(ops, states, now, i as int),
            ensures
                is_commit_trace(ops, states, old(engine)@, engine@, now, result),
            decreases txn.ops@.len() - i,
        {
            let ghost before = states;
            let r = txn.ops[i].apply(engine, now);
            proof {
                states = before.push(engine@);
                assert(ops[i as int] == txn.ops@[i as int]@);
                assert forall|j: int| 0 <= j < i implies apply_outcome(
                    #[trigger] ops[j],
                    states[j],
                    states[j + 1],
                    now,
                    Ok::<(), DbfsError>(()),
                ) by {
                    assert(states[j] == before[j] && states[j + 1] == before[j + 1]);
                }
                assert(states[i as int] == before[i as int]);
            }
            match r {
                Ok(()) => {},
                Err(e) => {
                    result = Err(e);
                    break ;
                },
            }
            i = i + 1;
        }
        self.wal.clear_txn(txn.id);
        result
    }

    /// Replays the log after a restart: reads the entries that the storage
    /// holds, applies each in its order with `now` as the time of every
    /// change, and checkpoints the log. An entry whose operation fails is
    /// passed over, for it may have been applied before the crash. The
    /// checkpoint leaves the storage empty and sends the next frame to its
    /// start; a failure of the checkpoint, which a dependable storage does
    /// not know, is not reported and leaves the storage as it was. Returns
    /// how many entries were found.
    pub fn replay<D: BlockDevice>(&mut self, engine: &mut TransactionEngine<D>, now: DbfsTimeSpec) -> (r:
        DbfsResult<usize>)
        requires
            old(engine).wf(),
        ensures
            final(self).wf(),
            final(engine).wf(),
            final(self).next_id() == old(self).next_id(),
            final(self).log().dependable() == old(self).log().dependable(),
            final(self).log().capacity() == old(self).log().capacity(),
            final(self).log().pending() == old(self).log().pending(),
            final(self).log().stored() is Some <==> old(self).log().stored() is Some,
            final(self).log().stored() == old(self).log().stored() || (final(self).log().stored()
                == Some(Seq::<u8>::empty()) && final(self).log().end() == 0),
            old(self).log().dependable() ==> final(self).log().stored() == Some(
                Seq::<u8>::empty(),
            ) && final(self).log().end() == 0,
            log_grows(old(engine)@, final(engine)@),
            r is Ok,
            exists|entries: Seq<EntryView>, states: Seq<FsView>, results: Seq<Result<(), DbfsError>>|
                r matches Ok(n) && n == entries.len() && #[trigger] is_replay_outcome(
                    old(self).log().stored(),
                    old(self).log().dependable(),
                    entries,
                    states,
                    results,
                    old(engine)@,
                    final(engine)@,
                    now,
                ),
    {
        let found = match self.wal.recover() {
            Ok(found) => found,
            Err(_) => Vec::new(),
        };
        let ghost entries = entries_view(found@);
        let ghost mut states: Seq<FsView> = seq![engine@];
        let ghost mut results: Seq<Result<(), DbfsError>> = Seq::empty();
        let mut i: usize = 0;
        while i < found.len()
            invariant
                i <= found@.len(),
                entries == entries_view(found@),
                engine.wf(),
                log_grows(old(engine)@, engine@),
                states.len() == i + 1,
                results.len() == i,
                states[0] == old(engine)@,
                states.last() == engine@,
                forall|j: int|
                    0 <= j < i ==> apply_outcome(
                        (#[trigger] entries[j]).operation,
                        states[j],
                        states[j + 1],
                        now,
                        results[j],
                    ),
            decreases found@.len() - i,
        {
            let ghost before = states;
            let ghost earlier = results;
            let r = found[i].operation.apply(engine, now);
            proof {
                states = before.push(engine@);
                results = earlier.push(r);
                assert(entries[i as int] == found@[i as int]@);
                assert forall|j: int| 0 <= j < i + 1 implies apply_outcome(
                    (#[trigger] entries[j]).operation,
                    states[j],
                    states[j + 1],
                    now,
                    results[j],
                ) by {
                    if j < i {
                        assert(states[j] == before[j] && states[j + 1] == before[j + 1]);
                        assert(results[j] == earlier[j]);
                    } else {
                        assert(states[j] == before[j]);
                    }
                }
            }
            i = i + 1;
        }
        proof {
            assert(is_replay_trace(entries, states, results, old(engine)@, engine@, now));
            if old(self).log().stored() is Some {
                let bytes = old(self).log().stored().unwrap();
                let end = self.log().end() as int;
                assert(crate::wal::frames_between(bytes, 0, end) == Some(entries));
            }
            assert(is_replay_outcome(
                old(self).log().stored(),
                old(self).log().dependable(),
                entries,
                states,
                results,
                old(engine)@,
                engine@,
                now,
            ));
        }
        proof {
            self.wal.lemma_dependable_has_storage();
        }
        let _ = self.wal.checkpoint();
        Ok(found.len())
    }

    /// Gives `txn` up. Its operations were never logged nor applied, so
    /// nothing is left of it.
    pub fn rollback(&self, txn: Transaction) {
        let _ = txn;
    }

    /// Runs `op` as a transaction of its own: begins one, which takes the
    /// next number, records `op`, and commits it. The logging fails as
    /// `logging_failed` says and not otherwise, and nothing is applied then;
    /// else the result is that of applying `op`, as `apply_outcome` states
    /// it. In either case the entries of the transaction have left the log
    /// at the end.
    pub fn run<D: BlockDevice>(
        &mut self,
        op: TransactionOperation,
        engine: &mut TransactionEngine<D>,
        now: DbfsTimeSpec,
    ) -> (r: DbfsResult<()>)
        requires
            old(self).wf(),
            old(engine).wf(),
        ensures
            final(self).wf(),
            final(engine).wf(),
            final(self).next_id() == next_after(old(self).next_id()),
            final(self).log().pending() == without_txn(
                old(self).log().pending(),
                old(self).next_id(),
            ),
            final(self).log().stored() is Some <==> old(self).log().stored() is Some,
            final(self).log().dependable() == old(self).log().dependable(),
            final(self).log().capacity() == old(self).log().capacity(),
            log_grows(old(engine)@, final(engine)@),
            final(self).log().pending().len() == 0 && old(self).log().dependable() ==> final(self).log().stored() == Some(Seq::<u8>::empty()) && final(self).log().end() == 0,
            (logging_failed(old(self).log().may_fail(4 + payload_len(op@)), fits_frame(op@), r)
                && final(engine)@ == old(engine)@) || (fits_frame(op@) && apply_outcome(
                op@,
                old(engine)@,
                final(engine)@,
                now,
                r,
            )),
    {
        let mut txn = self.begin_transaction();
        txn.record(op);
        let ghost ops = ops_view(txn.ops@);
        proof {
            assert(ops.len() == 1 && ops[0] == op@);
            assert(all_fit(ops) == fits_frame(op@));
            assert(ops.drop_last() =~= Seq::<OpView>::empty());
            assert(frames_len(ops.drop_last()) == 0);
            assert(frames_len(ops) == 4 + payload_len(op@));
        }
        let r = self.commit(txn, engine, now);
        proof {
            if !(logging_failed(old(self).log().may_fail(frames_len(ops)), all_fit(ops), r)
                && engine@ == old(engine)@) {
                let states = choose|states: Seq<FsView>| #[trigger]
                    is_commit_trace(ops, states, old(engine)@, engine@, now, r);
                assert(states.len() == 2);
                assert(states[0] == old(engine)@ && states[1] == engine@);
            }
        }
        r
    }
}

} // verus!
