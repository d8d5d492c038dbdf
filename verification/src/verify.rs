//! The verifier: checks what a forward walk of the store yields against the
//! dense key range and the value pattern, and locates the tail key.

use crate::key::{decode_key, key_value};
use crate::pattern::{find_departure, first_departure};
use crate::store::{Entry, Tail};
use vstd::prelude::*;

verus! {

/// One record read from the store: the raw key and the raw value.
#[derive(Debug, Clone, PartialEq, Eq)]
pub struct Record {
    pub key: Vec<u8>,
    pub value: Vec<u8>,
}

impl View for Record {
    type V = Entry;

    open spec fn view(&self) -> Entry {
        Entry { key: self.key@, value: self.value@ }
    }
}

/// The records of a walk as the model sees them.
pub open spec fn entries(records: Seq<Record>) -> Seq<Entry> {
    records.map_values(|record: Record| record@)
}

/// Why a store is not the dense, patterned range that it must be. `index`
/// counts the records of a walk from zero; the record at `index` is due to
/// carry the key `index + 1`.
#[derive(Debug, Clone, Copy, PartialEq, Eq)]
pub enum IntegrityViolation {
    /// The key of the record at `index` is too short to hold an integer.
    MalformedKey { index: u64 },
    /// The record at `index` carries the key `found`, not `index + 1`.
    KeyMismatch { index: u64, found: u64 },
    /// The value of the record at `index` departs from the pattern at
    /// `offset`.
    ValueMismatch { index: u64, offset: usize },
    /// Seeking to the last record succeeded, yet gave no key.
    KeylessTail,
    /// The key of the last record is too short to hold an integer.
    MalformedTail,
}

/// What is wrong with `entry` as the record at `index` of a walk, if
/// anything: the key is looked at first, then the value.
pub open spec fn check_entry(index: nat, entry: Entry) -> Option<IntegrityViolation> {
    match key_value(entry.key) {
        None => Some(IntegrityViolation::MalformedKey { index: index as u64 }),
        Some(found) => if found != index + 1 {
            Some(IntegrityViolation::KeyMismatch { index: index as u64, found })
        } else {
            match first_departure(entry.value) {
                Some(offset) => Some(
                    IntegrityViolation::ValueMismatch {
                        index: index as u64,
                        offset: offset as usize,
                    },
                ),
                None => None,
            }
        },
    }
}

/// The violation of the first unsound record of `walk`, if any record is
/// unsound.
pub open spec fn first_violation(walk: Seq<Entry>) -> Option<IntegrityViolation>
    decreases walk.len(),
{
    if walk.len() == 0 {
        None
    } else {
        match first_violation(walk.drop_last()) {
            Some(violation) => Some(violation),
            None => check_entry((walk.len() - 1) as nat, walk.last()),
        }
    }
}

/// The decoded key of every record of `walk`, in order.
pub open spec fn listing(walk: Seq<Entry>) -> Seq<Option<u64>> {
    Seq::new(walk.len(), |i: int| key_value(walk[i].key))
}

/// What a walk over `walk` comes to. Without `dump` it is the first
/// violation, or an empty list for a sound walk; with `dump` it is the
/// listing, whatever the records hold.
pub open spec fn walk_outcome(walk: Seq<Entry>, dump: bool) -> Result<
    Seq<Option<u64>>,
    IntegrityViolation,
> {
    if dump {
        Ok(listing(walk))
    } else {
        match first_violation(walk) {
            Some(violation) => Err(violation),
            None => Ok(Seq::empty()),
        }
    }
}

/// Checks a walk record by record. It counts the records found sound so
/// far; the next one is due to carry that count plus one as its key.
///
/// The length that a value was written with is on record nowhere, so a
/// value passes as soon as it is some cut of the pattern: one that lost its
/// end on the way is not told from one that was written short.
pub struct Verifier {
    verified: u64,
}

impl Verifier {
    /// Number of records found sound so far.
    pub closed spec fn count(&self) -> nat {
        self.verified as nat
    }

    /// A verifier at the start of a walk.
    pub fn new() -> (verifier: Self)
        ensures
            verifier.count() == 0,
    {
        Verifier { verified: 0 }
    }

    /// Number of records found sound so far.
    pub fn verified(&self) -> (n: u64)
        ensures
            n == self.count(),
    {
        self.verified
    }

    /// Checks the next record of the walk. A sound record is counted; an
    /// unsound one is reported and leaves the verifier as it was.
    pub fn check(&mut self, key: &[u8], value: &[u8]) -> (outcome: Result<
        (),
        IntegrityViolation,
    >)
        ensures
            match check_entry(old(self).count(), (Entry { key: key@, value: value@ })) {
                Some(violation) => outcome == Err::<(), IntegrityViolation>(violation)
                    && final(self).count() == old(self).count(),
                None => outcome is Ok && final(self).count() == old(self).count() + 1,
            },
    {
        let index = self.verified;
        match decode_key(key) {
            None => Err(IntegrityViolation::MalformedKey { index }),
            Some(found) => {
                if index == u64::MAX || found != index + 1 {
                    Err(IntegrityViolation::KeyMismatch { index, found })
                } else {
                    match find_departure(value) {
                        Some(offset) => Err(IntegrityViolation::ValueMismatch { index, offset }),
                        None => {
                            self.verified = index + 1;
                            Ok(())
                        },
                    }
                }
            },
        }
    }
}

/// Walks `records`, which a forward cursor gave in this order.
///
/// Without `dump`, every record is checked: record `i` must carry the key
/// `i + 1` and a value cut from the pattern. The first unsound record is
/// reported; a sound walk gives an empty list.
///
/// With `dump`, nothing is checked and nothing can fail: the decoded key of
/// every record comes back, in order, for the caller to show beside the raw
/// value.
pub fn verify_db(records: &[Record], dump: bool) -> (outcome: Result<
    Vec<Option<u64>>,
    IntegrityViolation,
>)
    ensures
        dump ==> outcome is Ok,
        match outcome {
            Ok(keys) => walk_outcome(entries(records@), dump) == Ok::<
                Seq<Option<u64>>,
                IntegrityViolation,
            >(keys@),
            Err(violation) => walk_outcome(entries(records@), dump) == Err::<
                Seq<Option<u64>>,
                IntegrityViolation,
            >(violation),
        },
{
    let ghost walk = entries(records@);
    let mut keys: Vec<Option<u64>> = Vec::new();
    let mut verifier = Verifier::new();
    let mut i: usize = 0;
    while i < records.len()
        invariant
            i <= records.len(),
            walk == entries(records@),
            dump ==> keys@ == listing(walk.take(i as int)),
            !dump ==> keys@.len() == 0 && verifier.count() == i && first_violation(
                walk.take(i as int),
            ) is None,
        decreases records.len() - i,
    {
        let record = &records[i];
        proof {
            assert(walk.take(i + 1).drop_last() == walk.take(i as int));
        }
        if dump {
            keys.push(decode_key(record.key.as_slice()));
        } else {
            match verifier.check(record.key.as_slice(), record.value.as_slice()) {
                Err(violation) => {
                    proof {
                        lemma_violation_stays(walk, i + 1);
                    }
                    return Err(violation);
                },
                Ok(()) => {},
            }
        }
        i += 1;
    }
    assert(walk.take(i as int) == walk);
    assert(!dump ==> keys@ == Seq::<Option<u64>>::empty());
    Ok(keys)
}

/// What `first_violation` finds: nothing exactly where every record is
/// sound in its place, and otherwise what is wrong with the first record
/// that is not.
pub proof fn lemma_first_violation(walk: Seq<Entry>)
    ensures
        first_violation(walk) is None <==> forall|i: int|
            0 <= i < walk.len() ==> check_entry(i as nat, #[trigger] walk[i]) is None,
        first_violation(walk) matches Some(violation) ==> exists|at: int|
            {
                &&& 0 <= at < walk.len()
                &&& check_entry(at as nat, #[trigger] walk[at]) == Some(violation)
                &&& forall|i: int| 0 <= i < at ==> check_entry(i as nat, #[trigger] walk[i]) is None
            },
    decreases walk.len(),
{
    if walk.len() > 0 {
        let front = walk.drop_last();
        lemma_first_violation(front);
        assert forall|i: int| 0 <= i < front.len() implies #[trigger] front[i] == walk[i] by {}
        match first_violation(front) {
            Some(violation) => {
                let at = choose|at: int|
                    {
                        &&& 0 <= at < front.len()
                        &&& check_entry(at as nat, #[trigger] front[at]) == Some(violation)
                        &&& forall|i: int|
                            0 <= i < at ==> check_entry(i as nat, #[trigger] front[i]) is None
                    };
                assert forall|i: int| 0 <= i < at implies check_entry(
                    i as nat,
                    #[trigger] walk[i],
                ) is None by {
                    assert(front[i] == walk[i]);
                }
            },
            None => {
                assert forall|i: int| 0 <= i < walk.len() - 1 implies check_entry(
                    i as nat,
                    #[trigger] walk[i],
                ) is None by {
                    assert(front[i] == walk[i]);
                }
            },
        }
    }
}

/// Once a prefix of a walk holds an unsound record, the walk's first
/// violation is that prefix's.
proof fn lemma_violation_stays(walk: Seq<Entry>, len: int)
    requires
        0 <= len <= walk.len(),
        first_violation(walk.take(len)) is Some,
    ensures
        first_violation(walk) == first_violation(walk.take(len)),
    decreases walk.len(),
{
    if len < walk.len() {
        assert(walk.drop_last().take(len) == walk.take(len));
        lemma_violation_stays(walk.drop_last(), len);
    } else {
        assert(walk.take(len) == walk);
    }
}

/// What seeking to the last record of the store came to.
#[derive(Debug, Clone, PartialEq, Eq)]
pub enum Seek {
    /// The seek found no record, as in an empty store. Every failure of the
    /// seek counts as this one.
    NotFound,
    /// The cursor stands on the last record and gave this key, if any.
    Positioned { key: Option<Vec<u8>> },
}

impl View for Seek {
    type V = Tail;

    open spec fn view(&self) -> Tail {
        match self {
            Seek::NotFound => Tail::Empty,
            Seek::Positioned { key: None } => Tail::Keyless,
            Seek::Positioned { key: Some(key) } => Tail::Key(key@),
        }
    }
}

/// The largest key in the store, from what seeking to the last record came
/// to: `None` for an empty store, else the integer of the last key. A
/// position without a key, or with a key too short to decode, is an
/// integrity violation.
pub open spec fn tail_key(tail: Tail) -> Result<Option<u64>, IntegrityViolation> {
    match tail {
        Tail::Empty => Ok(None),
        Tail::Keyless => Err(IntegrityViolation::KeylessTail),
        Tail::Key(key) => match key_value(key) {
            None => Err(IntegrityViolation::MalformedTail),
            Some(last) => Ok(Some(last)),
        },
    }
}

/// Finds the largest key in the store, from what seeking to the last record
/// came to.
pub fn get_last_key(seek: &Seek) -> (outcome: Result<Option<u64>, IntegrityViolation>)
    ensures
        outcome == tail_key(seek@),
{
    match seek {
        Seek::NotFound => Ok(None),
        Seek::Positioned { key: None } => Err(IntegrityViolation::KeylessTail),
        Seek::Positioned { key: Some(key) } => match decode_key(key.as_slice()) {
            None => Err(IntegrityViolation::MalformedTail),
            Some(last) => Ok(Some(last)),
        },
    }
}

} // verus!
