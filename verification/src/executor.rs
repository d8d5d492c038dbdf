//! The batch executor: which keys each write transaction deletes or puts,
//! and how the key counter moves from one transaction to the next.

use crate::key::{be_bytes, encode_key};
use crate::pattern::{canonical, initialize_value, MAX_VAL_SIZE};
use crate::store::Mutation;
use rand::Rng;
use vstd::prelude::*;

verus! {

/// Number of key mutations in a full write transaction.
pub const TX_SIZE: usize = 5;

/// Progress is noted whenever the key counter passes a multiple of this.
pub const PROGRESS_INTERVAL: u64 = 10000;

/// The random number generator that draws value lengths. Nothing of its
/// state is known here.
#[verifier::external_type_specification]
#[verifier::external_body]
pub struct ExSmallRng(rand::rngs::SmallRng);

/// `rand::Rng::gen_range(0, high)` on a `SmallRng`: some number from zero up
/// to, not including, `high`. The outside function panics where the range is
/// empty, which `requires` leaves out.
#[verifier::external_body]
fn gen_below(rng: &mut rand::rngs::SmallRng, high: usize) -> (n: usize)
    requires
        high > 0,
    ensures
        n < high,
{
    rng.gen_range(0, high)
}

/// One key mutation of a write transaction.
#[derive(Debug, Clone, PartialEq, Eq)]
pub enum WriteOp {
    /// Delete the record with this key.
    Delete { key: Vec<u8> },
    /// Put a new record.
    Put { key: Vec<u8>, value: Vec<u8> },
}

impl View for WriteOp {
    type V = Mutation;

    open spec fn view(&self) -> Mutation {
        match self {
            WriteOp::Delete { key } => Mutation::Delete { key: key@ },
            WriteOp::Put { key, value } => Mutation::Put { key: key@, value: value@ },
        }
    }
}

/// The mutations of a transaction as the model sees them.
pub open spec fn mutations(ops: Seq<WriteOp>) -> Seq<Mutation> {
    ops.map_values(|op: WriteOp| op@)
}

/// What the caller notes once a transaction is committed.
#[derive(Debug, Clone, Copy, PartialEq, Eq)]
pub enum Progress {
    /// The delete phase brought the key counter down to `last_key`.
    Deleted { last_key: u64 },
    /// The delete phase found the key counter at zero and is over.
    AllDeleted,
    /// The insert phase brought the key counter up to `last_key`.
    Added { last_key: u64 },
}

/// The phases that the executor goes through.
#[derive(Debug, Clone, Copy, PartialEq, Eq)]
pub enum Phase {
    /// Deleting keys from the tail key down.
    Deleting,
    /// Putting keys from 1 up.
    Inserting,
    /// Stopped at a commit boundary, on request.
    Stopped,
}

/// One write transaction: at most `TX_SIZE` mutations, to be applied in
/// order and committed together.
#[derive(Debug, Clone, PartialEq, Eq)]
pub struct Batch {
    pub ops: Vec<WriteOp>,
    pub progress: Option<Progress>,
}

/// The executor's state between two transactions. In the delete phase
/// `last_key` is the largest key still in the store; in the insert phase it
/// is the next key to put.
#[derive(Debug, Clone, Copy, PartialEq, Eq)]
pub struct Executor {
    pub phase: Phase,
    pub last_key: u64,
}

/// The mutations of the delete transaction that starts at `last_key`: the
/// keys from `last_key` down, `TX_SIZE` of them or as many as are left above
/// zero.
pub open spec fn delete_ops(last_key: u64) -> Seq<Mutation> {
    Seq::new(
        if last_key < TX_SIZE {
            last_key as nat
        } else {
            TX_SIZE as nat
        },
        |i: int| Mutation::Delete { key: be_bytes((last_key - i) as u64) },
    )
}

/// What is noted after the delete transaction that starts at `last_key`.
/// A transaction that comes upon zero ends the phase; a full one notes the
/// counter where it has come down to a multiple of the interval.
pub open spec fn delete_progress(last_key: u64) -> Option<Progress> {
    if last_key < TX_SIZE {
        Some(Progress::AllDeleted)
    } else if (last_key - TX_SIZE) % (PROGRESS_INTERVAL as int) == 0 {
        Some(Progress::Deleted { last_key: (last_key - TX_SIZE) as u64 })
    } else {
        None
    }
}

/// The state after the delete transaction that starts at `last_key`: a
/// transaction that comes upon zero hands over to the insert phase, which
/// starts at key 1.
pub open spec fn after_delete(last_key: u64) -> Executor {
    if last_key < TX_SIZE {
        Executor { phase: Phase::Inserting, last_key: 1 }
    } else {
        Executor { phase: Phase::Deleting, last_key: (last_key - TX_SIZE) as u64 }
    }
}

/// The mutations of an insert transaction that starts at `first_key` and
/// writes values of the given lengths: one put per length, keys rising by
/// one.
pub open spec fn insert_ops(first_key: u64, lengths: Seq<usize>) -> Seq<Mutation> {
    Seq::new(
        lengths.len(),
        |i: int|
            Mutation::Put {
                key: be_bytes((first_key + i) as u64),
                value: canonical(lengths[i] as nat),
            },
    )
}

/// Whether `ops` is a transaction of the insert phase that starts at
/// `first_key`: `TX_SIZE` puts, keys rising by one from `first_key`, each
/// value the pattern cut to some length under `MAX_VAL_SIZE`.
pub open spec fn is_insert_batch(ops: Seq<Mutation>, first_key: u64) -> bool {
    &&& ops.len() == TX_SIZE
    &&& forall|i: int|
        0 <= i < TX_SIZE ==> {
            &&& #[trigger] ops[i] is Put
            &&& ops[i]->Put_key == be_bytes((first_key + i) as u64)
            &&& ops[i]->value.len() < MAX_VAL_SIZE
            &&& ops[i]->value == canonical(ops[i]->value.len())
        }
}

/// What is noted after the insert transaction that starts at `first_key`.
pub open spec fn insert_progress(first_key: u64) -> Option<Progress> {
    if (first_key + TX_SIZE) % (PROGRESS_INTERVAL as int) == 1 {
        Some(Progress::Added { last_key: (first_key + TX_SIZE) as u64 })
    } else {
        None
    }
}

/// Builds the delete transaction that starts at `last_key`.
pub fn delete_batch(last_key: u64) -> (ops: Vec<WriteOp>)
    ensures
        mutations(ops@) == delete_ops(last_key),
{
    let mut ops: Vec<WriteOp> = Vec::new();
    let mut key = last_key;
    while ops.len() < TX_SIZE && key > 0
        invariant
            ops@.len() <= TX_SIZE,
            key == last_key - ops@.len(),
            forall|i: int|
                0 <= i < ops@.len() ==> (#[trigger] ops@[i])@ == (Mutation::Delete {
                    key: be_bytes((last_key - i) as u64),
                }),
        decreases key,
    {
        ops.push(WriteOp::Delete { key: encode_key(key) });
        key -= 1;
    }
    ops
}

/// Builds the insert transaction that starts at `first_key` and writes
/// values of the given lengths. The keys must fit in 64 bits.
pub fn insert_batch(first_key: u64, lengths: &[usize]) -> (ops: Vec<WriteOp>)
    requires
        first_key + lengths@.len() <= u64::MAX + 1,
    ensures
        mutations(ops@) == insert_ops(first_key, lengths@),
{
    let mut ops: Vec<WriteOp> = Vec::new();
    let mut i: usize = 0;
    while i < lengths.len()
        invariant
            i <= lengths@.len(),
            ops@.len() == i,
            first_key + lengths@.len() <= u64::MAX + 1,
            forall|j: int|
                0 <= j < i ==> (#[trigger] ops@[j])@ == (Mutation::Put {
                    key: be_bytes((first_key + j) as u64),
                    value: canonical(lengths@[j] as nat),
                }),
        decreases lengths@.len() - i,
    {
        let key = encode_key(first_key + i as u64);
        let value = initialize_value(lengths[i]);
        ops.push(WriteOp::Put { key, value });
        i += 1;
    }
    ops
}

/// Draws the value lengths of one insert transaction: `TX_SIZE` lengths,
/// each under `MAX_VAL_SIZE`.
pub fn draw_lengths(rng: &mut rand::rngs::SmallRng) -> (lengths: Vec<usize>)
    ensures
        lengths@.len() == TX_SIZE,
        forall|i: int| 0 <= i < TX_SIZE ==> lengths@[i] < MAX_VAL_SIZE,
{
    let mut lengths: Vec<usize> = Vec::new();
    while lengths.len() < TX_SIZE
        invariant
            lengths@.len() <= TX_SIZE,
            forall|i: int| 0 <= i < lengths@.len() ==> lengths@[i] < MAX_VAL_SIZE,
        decreases TX_SIZE - lengths@.len(),
    {
        let length = gen_below(rng, MAX_VAL_SIZE);
        lengths.push(length);
    }
    lengths
}

impl Executor {
    /// The executor at the start of the delete phase, given the tail key of
    /// the store; an empty store has none and starts at zero.
    pub fn new(tail: Option<u64>) -> (executor: Self)
        ensures
            executor.phase == Phase::Deleting,
            executor.last_key == match tail {
                Some(last) => last,
                None => 0,
            },
    {
        match tail {
            Some(last) => Executor { phase: Phase::Deleting, last_key: last },
            None => Executor { phase: Phase::Deleting, last_key: 0 },
        }
    }

    /// Whether the executor has another transaction to issue: it was not
    /// stopped, and in the insert phase the key counter can still advance by
    /// a full transaction.
    pub open spec fn can_advance(&self) -> bool {
        match self.phase {
            Phase::Deleting => true,
            Phase::Inserting => self.last_key + TX_SIZE <= u64::MAX,
            Phase::Stopped => false,
        }
    }

    /// Stops the executor. Called between two transactions, this ends the
    /// run at a commit boundary.
    pub fn stop(&mut self)
        ensures
            final(self).phase == Phase::Stopped,
            final(self).last_key == old(self).last_key,
    {
        self.phase = Phase::Stopped;
    }

    /// Hands out the next write transaction and moves the key counter past
    /// it. The caller applies the mutations in order, commits, and notes the
    /// progress, before asking again.
    ///
    /// In the delete phase the transaction deletes the keys from `last_key`
    /// down. One that comes upon zero, after fewer than `TX_SIZE` deletes,
    /// ends the phase: the executor goes on to insert from key 1. In the
    /// insert phase the transaction puts `TX_SIZE` keys from `last_key` up,
    /// each with the pattern cut to the length that `lengths` gives for it;
    /// outside the insert phase `lengths` is not looked at.
    ///
    /// There is no transaction, and the state stays as it is, exactly where
    /// the executor cannot advance.
    pub fn next_batch_with(&mut self, lengths: &[usize]) -> (batch: Option<Batch>)
        requires
            old(self).phase == Phase::Inserting ==> {
                &&& lengths@.len() == TX_SIZE
                &&& forall|i: int| 0 <= i < TX_SIZE ==> lengths@[i] < MAX_VAL_SIZE
            },
        ensures
            batch is Some <==> old(self).can_advance(),
            batch is None ==> *final(self) == *old(self),
            batch is Some ==> batch->0.ops@.len() <= TX_SIZE,
            batch is Some && old(self).phase == Phase::Deleting ==> {
                &&& mutations(batch->0.ops@) == delete_ops(old(self).last_key)
                &&& batch->0.progress == delete_progress(old(self).last_key)
                &&& *final(self) == after_delete(old(self).last_key)
            },
            batch is Some && old(self).phase == Phase::Inserting ==> {
                &&& mutations(batch->0.ops@) == insert_ops(old(self).last_key, lengths@)
                &&& batch->0.progress == insert_progress(old(self).last_key)
                &&& final(self).phase == Phase::Inserting
                &&& final(self).last_key == old(self).last_key + TX_SIZE
            },
    {
        match self.phase {
            Phase::Stopped => None,
            Phase::Deleting => {
                let last_key = self.last_key;
                let ops = delete_batch(last_key);
                assert(ops@.len() == mutations(ops@).len());
                if last_key < TX_SIZE as u64 {
                    self.phase = Phase::Inserting;
                    self.last_key = 1;
                    Some(Batch { ops, progress: Some(Progress::AllDeleted) })
                } else {
                    let left = last_key - TX_SIZE as u64;
                    self.last_key = left;
                    let progress = if left % PROGRESS_INTERVAL == 0 {
                        Some(Progress::Deleted { last_key: left })
                    } else {
                        None
                    };
                    Some(Batch { ops, progress })
                }
            },
            Phase::Inserting => {
                let first_key = self.last_key;
                if first_key > u64::MAX - TX_SIZE as u64 {
                    None
                } else {
                    let ops = insert_batch(first_key, lengths);
                    assert(ops@.len() == mutations(ops@).len());
                    let next = first_key + TX_SIZE as u64;
                    self.last_key = next;
                    let progress = if next % PROGRESS_INTERVAL == 1 {
                        Some(Progress::Added { last_key: next })
                    } else {
                        None
                    };
                    Some(Batch { ops, progress })
                }
            },
        }
    }

    /// Hands out the next write transaction as `next_batch_with` does, with
    /// the value lengths of an insert transaction drawn from `rng`: whatever
    /// is drawn, each value is the pattern cut to some length under
    /// `MAX_VAL_SIZE`.
    pub fn next_batch(&mut self, rng: &mut rand::rngs::SmallRng) -> (batch: Option<Batch>)
        ensures
            batch is Some <==> old(self).can_advance(),
            batch is None ==> *final(self) == *old(self),
            batch is Some ==> batch->0.ops@.len() <= TX_SIZE,
            batch is Some && old(self).phase == Phase::Deleting ==> {
                &&& mutations(batch->0.ops@) == delete_ops(old(self).last_key)
                &&& batch->0.progress == delete_progress(old(self).last_key)
                &&& *final(self) == after_delete(old(self).last_key)
            },
            batch is Some && old(self).phase == Phase::Inserting ==> {
                &&& is_insert_batch(mutations(batch->0.ops@), old(self).last_key)
                &&& batch->0.progress == insert_progress(old(self).last_key)
                &&& final(self).phase == Phase::Inserting
                &&& final(self).last_key == old(self).last_key + TX_SIZE
            },
    {
        match self.phase {
            Phase::Inserting => {
                let lengths = draw_lengths(rng);
                proof {
                    lemma_insert_ops(self.last_key, lengths@);
                }
                self.next_batch_with(lengths.as_slice())
            },
            _ => {
                let unused: Vec<usize> = Vec::new();
                self.next_batch_with(unused.as_slice())
            },
        }
    }
}

/// Puts built from `TX_SIZE` lengths under `MAX_VAL_SIZE` make a transaction
/// of the insert phase.
pub proof fn lemma_insert_ops(first_key: u64, lengths: Seq<usize>)
    requires
        lengths.len() == TX_SIZE,
        forall|i: int| 0 <= i < TX_SIZE ==> lengths[i] < MAX_VAL_SIZE,
    ensures
        is_insert_batch(insert_ops(first_key, lengths), first_key),
{
}

} // verus!
