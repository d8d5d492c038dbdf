//! The delete-then-rebuild cycle as a whole: what the transactions of each
//! phase do to the store, and what a walk of the store then finds.

use crate::executor::{after_delete, delete_ops, is_insert_batch, Phase, TX_SIZE};
use crate::key::{
    be_bytes, be_value, key_value, lemma_decode_encode, lemma_encode_decode, KEY_SIZE,
};
use crate::pattern::{is_canonical, lemma_first_departure};
use crate::store::{
    apply, commit, in_range, is_dense, is_patterned, is_walk_of, key_lt, lemma_key_order,
    lemma_walk_unique, run, tail_of, walk_has_key, Entry, Mutation, Store,
};
use crate::verify::{first_violation, tail_key, walk_outcome, IntegrityViolation};
use vstd::prelude::*;

verus! {

/// The transactions that the delete phase issues from `last_key` on, up to
/// and with the one that comes upon zero.
pub open spec fn delete_run(last_key: u64) -> Seq<Seq<Mutation>>
    decreases last_key,
{
    if after_delete(last_key).phase == Phase::Deleting {
        seq![delete_ops(last_key)] + delete_run(after_delete(last_key).last_key)
    } else {
        seq![delete_ops(last_key)]
    }
}

/// Whether `txns` are transactions of the insert phase, the first starting
/// at the key after `base`, each starting where the one before ended.
pub open spec fn is_insert_run(txns: Seq<Seq<Mutation>>, base: nat) -> bool {
    forall|j: int|
        0 <= j < txns.len() ==> is_insert_batch(#[trigger] txns[j], (base + 1 + TX_SIZE * j) as u64)
}

/// The walk of a store that holds the keys 1 to `n`: record `i` has the key
/// `i + 1`.
pub open spec fn dense_walk(store: Store, n: nat) -> Seq<Entry> {
    Seq::new(
        n,
        |i: int| Entry { key: be_bytes((i + 1) as u64), value: store[be_bytes((i + 1) as u64)] },
    )
}

/// A store that holds no key from 1 up is empty.
pub proof fn lemma_dense_zero(store: Store)
    requires
        is_dense(store, 0),
    ensures
        store == Store::empty(),
{
}

/// Deleting the largest key of a dense store leaves a dense store.
proof fn lemma_delete_top(store: Store, n: u64)
    requires
        is_dense(store, n as nat),
        n >= 1,
    ensures
        apply(store, (Mutation::Delete { key: be_bytes(n) })) == Some(store.remove(be_bytes(n))),
        is_dense(store.remove(be_bytes(n)), (n - 1) as nat),
{
    let top = be_bytes(n);
    lemma_encode_decode(n);
    let less = store.remove(top);
    assert forall|key: Seq<u8>|
        #![trigger less.dom().contains(key)]
        #![trigger in_range(key, (n - 1) as nat)]
        less.dom().contains(key) <==> in_range(key, (n - 1) as nat) by {
        if key.len() == KEY_SIZE {
            lemma_decode_encode(key);
        }
    }
}

/// Putting the key after the largest into a dense store of canonical
/// values, with a canonical value, leaves such a store.
proof fn lemma_put_next(store: Store, n: u64, value: Seq<u8>)
    requires
        is_dense(store, n as nat),
        is_patterned(store),
        n < u64::MAX,
        is_canonical(value),
    ensures
        apply(store, (Mutation::Put { key: be_bytes((n + 1) as u64), value })) == Some(
            store.insert(be_bytes((n + 1) as u64), value),
        ),
        is_dense(store.insert(be_bytes((n + 1) as u64), value), (n + 1) as nat),
        is_patterned(store.insert(be_bytes((n + 1) as u64), value)),
{
    let next = be_bytes((n + 1) as u64);
    lemma_encode_decode((n + 1) as u64);
    let after = store.insert(next, value);
    assert forall|key: Seq<u8>|
        #![trigger after.dom().contains(key)]
        #![trigger in_range(key, (n + 1) as nat)]
        after.dom().contains(key) <==> in_range(key, (n + 1) as nat) by {
        if key.len() == KEY_SIZE {
            lemma_decode_encode(key);
        }
    }
}

/// The first `len` deletes of the transaction that starts at `last_key`
/// take a dense store down by `len` keys.
proof fn lemma_delete_prefix(store: Store, last_key: u64, len: nat)
    requires
        is_dense(store, last_key as nat),
        len <= delete_ops(last_key).len(),
    ensures
        commit(store, delete_ops(last_key).take(len as int)) is Some,
        is_dense(commit(store, delete_ops(last_key).take(len as int))->0, (last_key - len) as nat),
    decreases len,
{
    let ops = delete_ops(last_key).take(len as int);
    if len > 0 {
        lemma_delete_prefix(store, last_key, (len - 1) as nat);
        assert(ops.drop_last() == delete_ops(last_key).take(len - 1));
        let before = commit(store, ops.drop_last())->0;
        lemma_delete_top(before, (last_key - (len - 1)) as u64);
    }
}

/// A delete transaction on a dense store succeeds and leaves a dense store.
pub proof fn lemma_delete_commit(store: Store, last_key: u64)
    requires
        is_dense(store, last_key as nat),
    ensures
        commit(store, delete_ops(last_key)) is Some,
        is_dense(
            commit(store, delete_ops(last_key))->0,
            (last_key - delete_ops(last_key).len()) as nat,
        ),
{
    let ops = delete_ops(last_key);
    lemma_delete_prefix(store, last_key, ops.len());
    assert(ops.take(ops.len() as int) == ops);
}

/// The delete phase deletes `TX_SIZE` keys per transaction and never more;
/// it takes one transaction for every `TX_SIZE` keys and one to come upon
/// zero.
pub proof fn lemma_delete_run_bounded(last_key: u64)
    ensures
        delete_run(last_key).len() == last_key / (TX_SIZE as u64) + 1,
        forall|j: int|
            0 <= j < delete_run(last_key).len() ==> (#[trigger] delete_run(last_key)[j]).len()
                <= TX_SIZE,
        forall|j: int|
            0 <= j < delete_run(last_key).len() - 1 ==> (#[trigger] delete_run(last_key)[j]).len()
                == TX_SIZE,
    decreases last_key,
{
    if after_delete(last_key).phase == Phase::Deleting {
        lemma_delete_run_bounded(after_delete(last_key).last_key);
    }
}

/// Starting from a store that holds exactly the keys 1 to `last_key`, the
/// delete phase runs through without a refused delete and leaves the store
/// empty; seeking to the last record then finds none, and the tail key is
/// `None`.
pub proof fn lemma_delete_phase_empties(store: Store, last_key: u64)
    requires
        is_dense(store, last_key as nat),
    ensures
        run(store, delete_run(last_key)) == Some(Store::empty()),
        forall|walk: Seq<Entry>| #[trigger]
            is_walk_of(walk, Store::empty()) ==> tail_key(tail_of(walk)) == Ok::<
                Option<u64>,
                IntegrityViolation,
            >(None),
    decreases last_key,
{
    let txns = delete_run(last_key);
    lemma_delete_commit(store, last_key);
    let after = commit(store, delete_ops(last_key))->0;
    if after_delete(last_key).phase == Phase::Deleting {
        let rest = delete_run(after_delete(last_key).last_key);
        assert(txns.skip(1) == rest);
        lemma_delete_phase_empties(after, after_delete(last_key).last_key);
    } else {
        lemma_dense_zero(after);
        assert(run(after, txns.skip(1)) == Some(after));
    }
}

/// The first `len` puts of an insert transaction take a dense store of
/// canonical values up by `len` keys.
proof fn lemma_insert_prefix(store: Store, n: u64, ops: Seq<Mutation>, len: nat)
    requires
        is_dense(store, n as nat),
        is_patterned(store),
        n + TX_SIZE <= u64::MAX,
        is_insert_batch(ops, (n + 1) as u64),
        len <= TX_SIZE,
    ensures
        commit(store, ops.take(len as int)) is Some,
        is_dense(commit(store, ops.take(len as int))->0, (n + len) as nat),
        is_patterned(commit(store, ops.take(len as int))->0),
    decreases len,
{
    let prefix = ops.take(len as int);
    if len > 0 {
        lemma_insert_prefix(store, n, ops, (len - 1) as nat);
        assert(prefix.drop_last() == ops.take(len - 1));
        let before = commit(store, prefix.drop_last())->0;
        let op = ops[len - 1];
        lemma_put_next(before, (n + len - 1) as u64, op->value);
    }
}

/// An insert transaction on a dense store of canonical values succeeds and
/// leaves such a store, `TX_SIZE` keys larger.
pub proof fn lemma_insert_commit(store: Store, n: u64, ops: Seq<Mutation>)
    requires
        is_dense(store, n as nat),
        is_patterned(store),
        n + TX_SIZE <= u64::MAX,
        is_insert_batch(ops, (n + 1) as u64),
    ensures
        commit(store, ops) is Some,
        is_dense(commit(store, ops)->0, (n + TX_SIZE) as nat),
        is_patterned(commit(store, ops)->0),
{
    lemma_insert_prefix(store, n, ops, TX_SIZE as nat);
    assert(ops.take(TX_SIZE as int) == ops);
}

/// A run of insert transactions on a dense store of canonical values
/// succeeds and leaves such a store, `TX_SIZE` keys larger per transaction.
pub proof fn lemma_insert_run(store: Store, n: u64, txns: Seq<Seq<Mutation>>)
    requires
        is_dense(store, n as nat),
        is_patterned(store),
        n + TX_SIZE * txns.len() <= u64::MAX,
        is_insert_run(txns, n as nat),
    ensures
        run(store, txns) is Some,
        is_dense(run(store, txns)->0, (n + TX_SIZE * txns.len()) as nat),
        is_patterned(run(store, txns)->0),
    decreases txns.len(),
{
    if txns.len() > 0 {
        lemma_insert_commit(store, n, txns.first());
        let after = commit(store, txns.first())->0;
        let rest = txns.skip(1);
        assert forall|j: int| 0 <= j < rest.len() implies is_insert_batch(
            #[trigger] rest[j],
            (n + TX_SIZE + 1 + TX_SIZE * j) as u64,
        ) by {
            assert(rest[j] == txns[j + 1]);
        }
        lemma_insert_run(after, (n + TX_SIZE) as u64, rest);
    }
}

/// The walk of a dense store visits the keys 1 to `n` in rising order.
pub proof fn lemma_dense_walk(store: Store, n: u64, walk: Seq<Entry>)
    requires
        is_dense(store, n as nat),
        is_walk_of(walk, store),
    ensures
        walk == dense_walk(store, n as nat),
{
    let dense = dense_walk(store, n as nat);
    assert forall|i: int, j: int| 0 <= i < j < dense.len() implies key_lt(
        dense[i].key,
        dense[j].key,
    ) by {
        lemma_key_order((i + 1) as u64, (j + 1) as u64);
    }
    assert forall|i: int| 0 <= i < dense.len() implies store.contains_pair(
        #[trigger] dense[i].key,
        dense[i].value,
    ) by {
        lemma_encode_decode((i + 1) as u64);
    }
    assert forall|key: Seq<u8>| store.dom().contains(key) implies walk_has_key(dense, key) by {
        lemma_decode_encode(key);
        assert(dense[be_value(key) - 1].key == key);
    }
    lemma_walk_unique(store, walk, dense);
}

/// The tail key of a store that holds the keys 1 to `n` is `n`; a store
/// without a key has none.
pub proof fn lemma_dense_tail(store: Store, n: u64, walk: Seq<Entry>)
    requires
        is_dense(store, n as nat),
        is_walk_of(walk, store),
    ensures
        tail_key(tail_of(walk)) == Ok::<Option<u64>, IntegrityViolation>(
            if n == 0 {
                None
            } else {
                Some(n)
            },
        ),
{
    lemma_dense_walk(store, n, walk);
    if n > 0 {
        lemma_encode_decode(n);
    }
}

/// No prefix of the walk of a dense store of canonical values holds an
/// unsound record.
proof fn lemma_dense_walk_sound(store: Store, n: u64, len: nat)
    requires
        is_dense(store, n as nat),
        is_patterned(store),
        len <= n,
    ensures
        first_violation(dense_walk(store, n as nat).take(len as int)) is None,
    decreases len,
{
    let walk = dense_walk(store, n as nat);
    if len > 0 {
        lemma_dense_walk_sound(store, n, (len - 1) as nat);
        assert(walk.take(len as int).drop_last() == walk.take(len - 1));
        let entry = walk[len - 1];
        lemma_encode_decode(len as u64);
        lemma_first_departure(entry.value);
    }
}

/// After the insert phase has written its transactions into an empty store,
/// starting at key 1, a verification pass over the store finds every key
/// from 1 to the number of keys written, in rising order and without a gap,
/// and reports no violation.
pub proof fn lemma_round_trip(txns: Seq<Seq<Mutation>>, walk: Seq<Entry>)
    requires
        is_insert_run(txns, 0),
        TX_SIZE * txns.len() <= u64::MAX,
        run(Store::empty(), txns) is Some ==> is_walk_of(
            walk,
            run(Store::empty(), txns)->0,
        ),
    ensures
        run(Store::empty(), txns) is Some,
        walk.len() == TX_SIZE * txns.len(),
        forall|i: int|
            0 <= i < walk.len() ==> key_value(#[trigger] walk[i].key) == Some((i + 1) as u64),
        first_violation(walk) is None,
        walk_outcome(walk, false) == Ok::<Seq<Option<u64>>, IntegrityViolation>(Seq::empty()),
{
    let empty = Store::empty();
    let n = (TX_SIZE * txns.len()) as u64;
    lemma_insert_run(empty, 0, txns);
    let store = run(empty, txns)->0;
    lemma_dense_walk(store, n, walk);
    lemma_dense_walk_sound(store, n, n as nat);
    assert(walk.take(n as int) == walk);
    assert forall|i: int| 0 <= i < walk.len() implies key_value(#[trigger] walk[i].key) == Some(
        (i + 1) as u64,
    ) by {
        lemma_encode_decode((i + 1) as u64);
    }
}

/// Running one list of transactions after another is running the two lists
/// joined.
proof fn lemma_run_append(store: Store, first: Seq<Seq<Mutation>>, second: Seq<Seq<Mutation>>)
    ensures
        run(store, first + second) == match run(store, first) {
            Some(between) => run(between, second),
            None => None,
        },
    decreases first.len(),
{
    if first.len() > 0 {
        assert((first + second).skip(1) == first.skip(1) + second);
        match commit(store, first.first()) {
            Some(after) => lemma_run_append(after, first.skip(1), second),
            None => {},
        }
    }
}

/// One cycle keeps the store dense: from a store that holds exactly the keys
/// 1 to `last_key`, the delete phase and then any number of insert
/// transactions run through, and a verification pass over what they leave
/// finds `TX_SIZE` keys per insert transaction, from 1 up, and no violation.
pub proof fn lemma_cycle(store: Store, last_key: u64, txns: Seq<Seq<Mutation>>, walk: Seq<Entry>)
    requires
        is_dense(store, last_key as nat),
        is_insert_run(txns, 0),
        TX_SIZE * txns.len() <= u64::MAX,
        run(store, delete_run(last_key) + txns) is Some ==> is_walk_of(
            walk,
            run(store, delete_run(last_key) + txns)->0,
        ),
    ensures
        run(store, delete_run(last_key) + txns) is Some,
        is_dense(run(store, delete_run(last_key) + txns)->0, (TX_SIZE * txns.len()) as nat),
        walk.len() == TX_SIZE * txns.len(),
        first_violation(walk) is None,
{
    lemma_delete_phase_empties(store, last_key);
    lemma_run_append(store, delete_run(last_key), txns);
    lemma_insert_run(Store::empty(), 0, txns);
    lemma_round_trip(txns, walk);
}

/// Verifying twice without a mutation in between gives the same result: a
/// store has one walk, and the outcome of a pass depends on the walk alone.
pub proof fn lemma_verification_repeats(
    store: Store,
    first: Seq<Entry>,
    second: Seq<Entry>,
    dump: bool,
)
    requires
        is_walk_of(first, store),
        is_walk_of(second, store),
    ensures
        walk_outcome(first, dump) == walk_outcome(second, dump),
{
    lemma_walk_unique(store, first, second);
}

} // verus!
