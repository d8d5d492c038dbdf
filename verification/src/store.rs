//! A mathematical model of the store: a finite map from keys to values that
//! a cursor walks in the byte order of its keys.

use crate::key::{be_bytes, be_value, lemma_encode_decode, KEY_SIZE};
use crate::pattern::is_canonical;
use vstd::prelude::*;

verus! {

/// What the store holds: the value under every key that is present.
pub type Store = Map<Seq<u8>, Seq<u8>>;

/// One record as a cursor hands it out.
pub struct Entry {
    pub key: Seq<u8>,
    pub value: Seq<u8>,
}

/// One key mutation of a write transaction.
pub enum Mutation {
    /// Delete the record with this key.
    Delete { key: Seq<u8> },
    /// Put a new record.
    Put { key: Seq<u8>, value: Seq<u8> },
}

/// Whether `a` and `b` agree on their first `at` bytes and part ways there
/// with `a` the smaller: `a` ends at `at`, or holds the smaller byte.
pub open spec fn parts_below(a: Seq<u8>, b: Seq<u8>, at: int) -> bool {
    &&& 0 <= at <= a.len()
    &&& at < b.len()
    &&& forall|j: int| 0 <= j < at ==> a[j] == b[j]
    &&& at < a.len() ==> a[at] < b[at]
}

/// The store's key order: byte by byte, a proper prefix before what extends
/// it.
pub open spec fn key_lt(a: Seq<u8>, b: Seq<u8>) -> bool {
    exists|at: int| parts_below(a, b, at)
}

/// Whether the keys of `walk` rise strictly in key order.
pub open spec fn is_sorted(walk: Seq<Entry>) -> bool {
    forall|i: int, j: int| 0 <= i < j < walk.len() ==> key_lt(walk[i].key, walk[j].key)
}

/// Whether `walk` holds a record with key `key`.
pub open spec fn walk_has_key(walk: Seq<Entry>, key: Seq<u8>) -> bool {
    exists|i: int| 0 <= i < walk.len() && walk[i].key == key
}

/// Whether `walk` is what a full forward walk of `store` yields: every
/// record of the store once, in key order.
pub open spec fn is_walk_of(walk: Seq<Entry>, store: Store) -> bool {
    &&& is_sorted(walk)
    &&& forall|i: int|
        0 <= i < walk.len() ==> store.contains_pair(#[trigger] walk[i].key, walk[i].value)
    &&& forall|key: Seq<u8>| store.dom().contains(key) ==> walk_has_key(walk, key)
}

/// What seeking to the last record came to.
pub enum Tail {
    /// There is no record.
    Empty,
    /// The cursor stands on the last record, yet gave no key.
    Keyless,
    /// The cursor stands on the last record and gave its key.
    Key(Seq<u8>),
}

/// What seeking to the last record of a walk comes to.
pub open spec fn tail_of(walk: Seq<Entry>) -> Tail {
    if walk.len() == 0 {
        Tail::Empty
    } else {
        Tail::Key(walk.last().key)
    }
}

/// The store after one mutation, or `None` where the store refuses it: a
/// delete of a key that is not there, a put of a key that is.
pub open spec fn apply(store: Store, op: Mutation) -> Option<Store> {
    match op {
        Mutation::Delete { key } => if store.dom().contains(key) {
            Some(store.remove(key))
        } else {
            None
        },
        Mutation::Put { key, value } => if store.dom().contains(key) {
            None
        } else {
            Some(store.insert(key, value))
        },
    }
}

/// The store after a transaction that applies `ops` in order, or `None`
/// where one of them is refused and the transaction fails as a whole.
pub open spec fn commit(store: Store, ops: Seq<Mutation>) -> Option<Store>
    decreases ops.len(),
{
    if ops.len() == 0 {
        Some(store)
    } else {
        match commit(store, ops.drop_last()) {
            Some(before) => apply(before, ops.last()),
            None => None,
        }
    }
}

/// The store after the transactions `txns`, one after the other, or `None`
/// where one of them fails.
pub open spec fn run(store: Store, txns: Seq<Seq<Mutation>>) -> Option<Store>
    decreases txns.len(),
{
    if txns.len() == 0 {
        Some(store)
    } else {
        match commit(store, txns.first()) {
            Some(after) => run(after, txns.skip(1)),
            None => None,
        }
    }
}

/// Whether `key` is the key of an integer from 1 to `n`.
pub open spec fn in_range(key: Seq<u8>, n: nat) -> bool {
    key.len() == KEY_SIZE && 1 <= be_value(key) <= n
}

/// Whether `store` holds exactly the keys of the integers from 1 to `n`.
pub open spec fn is_dense(store: Store, n: nat) -> bool {
    forall|key: Seq<u8>|
        #![trigger store.dom().contains(key)]
        #![trigger in_range(key, n)]
        store.dom().contains(key) <==> in_range(key, n)
}

/// Whether every value of `store` is cut from the pattern.
pub open spec fn is_patterned(store: Store) -> bool {
    forall|key: Seq<u8>| store.dom().contains(key) ==> is_canonical(#[trigger] store[key])
}

/// No key sorts before itself.
pub proof fn lemma_key_lt_irreflexive(a: Seq<u8>)
    ensures
        !key_lt(a, a),
{
}

/// The key order is transitive.
pub proof fn lemma_key_lt_transitive(a: Seq<u8>, b: Seq<u8>, c: Seq<u8>)
    requires
        key_lt(a, b),
        key_lt(b, c),
    ensures
        key_lt(a, c),
{
    let i = choose|at: int| parts_below(a, b, at);
    let j = choose|at: int| parts_below(b, c, at);
    if i <= j {
        assert(parts_below(a, c, i));
    } else {
        assert(parts_below(a, c, j));
    }
}

/// Eight-byte keys sort as the integers that they hold.
pub proof fn lemma_be_order(x: Seq<u8>, y: Seq<u8>)
    requires
        x.len() == KEY_SIZE,
        y.len() == KEY_SIZE,
    ensures
        key_lt(x, y) <==> be_value(x) < be_value(y),
{
    if be_value(x) < be_value(y) {
        if x[0] != y[0] {
            assert(parts_below(x, y, 0));
        } else if x[1] != y[1] {
            assert(parts_below(x, y, 1));
        } else if x[2] != y[2] {
            assert(parts_below(x, y, 2));
        } else if x[3] != y[3] {
            assert(parts_below(x, y, 3));
        } else if x[4] != y[4] {
            assert(parts_below(x, y, 4));
        } else if x[5] != y[5] {
            assert(parts_below(x, y, 5));
        } else if x[6] != y[6] {
            assert(parts_below(x, y, 6));
        } else {
            assert(parts_below(x, y, 7));
        }
    }
}

/// Big-endian keys sort as their integers do.
pub proof fn lemma_key_order(a: u64, b: u64)
    ensures
        key_lt(be_bytes(a), be_bytes(b)) <==> a < b,
{
    lemma_encode_decode(a);
    lemma_encode_decode(b);
    lemma_be_order(be_bytes(a), be_bytes(b));
}

/// A store has one walk: two walks of the same store are the same
/// sequence.
pub proof fn lemma_walk_unique(store: Store, first: Seq<Entry>, second: Seq<Entry>)
    requires
        is_walk_of(first, store),
        is_walk_of(second, store),
    ensures
        first == second,
    decreases first.len(),
{
    if first.len() == 0 {
        if second.len() > 0 {
            assert(walk_has_key(first, second[0].key));
        }
    } else {
        let k = first[0].key;
        assert(walk_has_key(second, k));
        lemma_walk_head(store, first, second);
        lemma_walk_head(store, second, first);
        lemma_key_lt_irreflexive(k);
        if key_lt(k, second[0].key) {
            lemma_key_lt_transitive(k, second[0].key, k);
        }
        lemma_walk_tail(store, first);
        lemma_walk_tail(store, second);
        lemma_walk_unique(store.remove(k), first.skip(1), second.skip(1));
        assert(first =~= seq![first[0]] + first.skip(1));
        assert(second =~= seq![second[0]] + second.skip(1));
    }
}

/// The first key of one walk of a store is not above the first key of
/// another.
proof fn lemma_walk_head(store: Store, first: Seq<Entry>, second: Seq<Entry>)
    requires
        is_walk_of(first, store),
        is_walk_of(second, store),
        first.len() > 0,
        second.len() > 0,
    ensures
        first[0].key == second[0].key || key_lt(first[0].key, second[0].key),
{
    assert(walk_has_key(first, second[0].key));
}

/// Dropping the first record of a walk gives the walk of the store without
/// that record's key.
proof fn lemma_walk_tail(store: Store, walk: Seq<Entry>)
    requires
        is_walk_of(walk, store),
        walk.len() > 0,
    ensures
        is_walk_of(walk.skip(1), store.remove(walk[0].key)),
{
    let k = walk[0].key;
    let rest = walk.skip(1);
    let less = store.remove(k);
    lemma_key_lt_irreflexive(k);
    assert forall|key: Seq<u8>| less.dom().contains(key) implies walk_has_key(rest, key) by {
        assert(walk_has_key(walk, key));
        let i = choose|i: int| 0 <= i < walk.len() && walk[i].key == key;
        assert(rest[i - 1].key == key);
    }
}

} // verus!
