use std::collections::BTreeMap;

use lmdb_stress::executor::{
    delete_batch, draw_lengths, insert_batch, Batch, Executor, Phase, Progress, WriteOp,
    PROGRESS_INTERVAL, TX_SIZE,
};
use lmdb_stress::key::{decode_key, encode_key};
use lmdb_stress::pattern::{find_departure, initialize_value, MAX_VAL_SIZE};
use lmdb_stress::verify::{get_last_key, verify_db, IntegrityViolation, Record, Seek};
use rand::rngs::SmallRng;
use rand::SeedableRng;

type Store = BTreeMap<Vec<u8>, Vec<u8>>;

fn rng() -> SmallRng {
    SmallRng::seed_from_u64(0x5eed)
}

fn deletes(keys: &[u64]) -> Vec<WriteOp> {
    keys.iter().map(|k| WriteOp::Delete { key: encode_key(*k) }).collect()
}

fn put_keys(batch: &Batch) -> Vec<u64> {
    batch
        .ops
        .iter()
        .map(|op| match op {
            WriteOp::Put { key, .. } => decode_key(key).unwrap(),
            WriteOp::Delete { .. } => panic!("a delete in the insert phase"),
        })
        .collect()
}

fn dense_store(n: u64) -> Store {
    (1..=n).map(|k| (encode_key(k), initialize_value((k as usize * 911) % 4096))).collect()
}

fn commit(store: &mut Store, batch: &Batch) {
    for op in &batch.ops {
        match op {
            WriteOp::Delete { key } => assert!(store.remove(key).is_some()),
            WriteOp::Put { key, value } => {
                assert!(store.insert(key.clone(), value.clone()).is_none())
            }
        }
    }
}

fn walk(store: &Store) -> Vec<Record> {
    store.iter().map(|(k, v)| Record { key: k.clone(), value: v.clone() }).collect()
}

fn seek_last(store: &Store) -> Seek {
    match store.keys().next_back() {
        Some(key) => Seek::Positioned { key: Some(key.clone()) },
        None => Seek::NotFound,
    }
}

#[test]
fn constants() {
    assert_eq!(TX_SIZE, 5);
    assert_eq!(MAX_VAL_SIZE, 4096);
    assert_eq!(PROGRESS_INTERVAL, 10000);
}

#[test]
fn empty_store_skips_deleting_and_inserts_keys_one_to_five() {
    let store = Store::new();
    let tail = get_last_key(&seek_last(&store)).unwrap();
    assert_eq!(tail, None);
    let mut rng = rng();
    let mut executor = Executor::new(tail);
    assert_eq!(executor, Executor { phase: Phase::Deleting, last_key: 0 });

    let batch = executor.next_batch(&mut rng).unwrap();
    assert_eq!(batch, Batch { ops: vec![], progress: Some(Progress::AllDeleted) });
    assert_eq!(executor, Executor { phase: Phase::Inserting, last_key: 1 });

    let batch = executor.next_batch(&mut rng).unwrap();
    assert_eq!(put_keys(&batch), vec![1, 2, 3, 4, 5]);
    assert_eq!(batch.progress, None);
    assert_eq!(executor, Executor { phase: Phase::Inserting, last_key: 6 });
}

#[test]
fn seven_keys_are_deleted_in_two_transactions() {
    let store = dense_store(7);
    let tail = get_last_key(&seek_last(&store)).unwrap();
    assert_eq!(tail, Some(7));
    let mut rng = rng();
    let mut executor = Executor::new(tail);

    let first = executor.next_batch(&mut rng).unwrap();
    assert_eq!(first, Batch { ops: deletes(&[7, 6, 5, 4, 3]), progress: None });
    assert_eq!(executor, Executor { phase: Phase::Deleting, last_key: 2 });

    let second = executor.next_batch(&mut rng).unwrap();
    assert_eq!(second, Batch { ops: deletes(&[2, 1]), progress: Some(Progress::AllDeleted) });
    assert_eq!(executor, Executor { phase: Phase::Inserting, last_key: 1 });
}

#[test]
fn full_last_delete_is_followed_by_an_empty_transaction() {
    let mut rng = rng();
    let mut executor = Executor::new(Some(5));
    let first = executor.next_batch(&mut rng).unwrap();
    assert_eq!(
        first,
        Batch { ops: deletes(&[5, 4, 3, 2, 1]), progress: Some(Progress::Deleted { last_key: 0 }) }
    );
    assert_eq!(executor, Executor { phase: Phase::Deleting, last_key: 0 });
    let second = executor.next_batch(&mut rng).unwrap();
    assert_eq!(second, Batch { ops: vec![], progress: Some(Progress::AllDeleted) });
    assert_eq!(executor.phase, Phase::Inserting);
}

#[test]
fn delete_batch_takes_the_keys_from_the_top() {
    assert_eq!(delete_batch(0), vec![]);
    assert_eq!(delete_batch(1), deletes(&[1]));
    assert_eq!(delete_batch(4), deletes(&[4, 3, 2, 1]));
    assert_eq!(delete_batch(5), deletes(&[5, 4, 3, 2, 1]));
    assert_eq!(delete_batch(6), deletes(&[6, 5, 4, 3, 2]));
    assert_eq!(
        delete_batch(u64::MAX),
        deletes(&[u64::MAX, u64::MAX - 1, u64::MAX - 2, u64::MAX - 3, u64::MAX - 4])
    );
}

#[test]
fn insert_batch_puts_the_pattern_under_rising_keys() {
    let ops = insert_batch(1, &[0, 1, 2, 300, 4095]);
    assert_eq!(
        ops,
        vec![
            WriteOp::Put { key: encode_key(1), value: vec![] },
            WriteOp::Put { key: encode_key(2), value: vec![0] },
            WriteOp::Put { key: encode_key(3), value: vec![0, 1] },
            WriteOp::Put { key: encode_key(4), value: initialize_value(300) },
            WriteOp::Put { key: encode_key(5), value: initialize_value(4095) },
        ]
    );
    assert_eq!(insert_batch(77, &[]), vec![]);
    assert_eq!(
        insert_batch(u64::MAX, &[3]),
        vec![WriteOp::Put { key: encode_key(u64::MAX), value: vec![0, 1, 2] }]
    );
}

#[test]
fn drawn_lengths_stay_under_the_largest_value_size() {
    let mut rng = rng();
    let mut seen = std::collections::BTreeSet::new();
    for _ in 0..2000 {
        let lengths = draw_lengths(&mut rng);
        assert_eq!(lengths.len(), TX_SIZE);
        for len in lengths {
            assert!(len < MAX_VAL_SIZE);
            seen.insert(len);
        }
    }
    assert!(seen.len() > 1000);
}

#[test]
fn progress_is_noted_at_multiples_of_the_interval_when_deleting() {
    let mut rng = rng();
    let mut executor = Executor::new(Some(10005));
    let batch = executor.next_batch(&mut rng).unwrap();
    assert_eq!(batch.progress, Some(Progress::Deleted { last_key: 10000 }));
    let batch = executor.next_batch(&mut rng).unwrap();
    assert_eq!(batch.progress, None);
    assert_eq!(executor.last_key, 9995);

    let mut executor = Executor::new(Some(20004));
    let batch = executor.next_batch(&mut rng).unwrap();
    assert_eq!(batch.progress, None);
    assert_eq!(executor.last_key, 19999);
}

#[test]
fn progress_is_noted_one_past_the_interval_when_inserting() {
    let mut rng = rng();
    let mut executor = Executor { phase: Phase::Inserting, last_key: 9991 };
    let batch = executor.next_batch(&mut rng).unwrap();
    assert_eq!(put_keys(&batch), vec![9991, 9992, 9993, 9994, 9995]);
    assert_eq!(batch.progress, None);
    let batch = executor.next_batch(&mut rng).unwrap();
    assert_eq!(put_keys(&batch), vec![9996, 9997, 9998, 9999, 10000]);
    assert_eq!(batch.progress, Some(Progress::Added { last_key: 10001 }));
    assert_eq!(executor.last_key, 10001);
}

#[test]
fn inserted_values_are_cut_from_the_pattern() {
    let mut rng = rng();
    let mut executor = Executor { phase: Phase::Inserting, last_key: 1 };
    let full = initialize_value(MAX_VAL_SIZE);
    for _ in 0..200 {
        let batch = executor.next_batch(&mut rng).unwrap();
        assert_eq!(batch.ops.len(), TX_SIZE);
        for op in &batch.ops {
            match op {
                WriteOp::Put { value, .. } => {
                    assert!(value.len() < MAX_VAL_SIZE);
                    assert_eq!(value[..], full[..value.len()]);
                    assert_eq!(find_departure(value), None);
                }
                WriteOp::Delete { .. } => panic!("a delete in the insert phase"),
            }
        }
    }
    assert_eq!(executor.last_key, 1001);
}

#[test]
fn no_transaction_holds_more_than_five_mutations() {
    let mut rng = rng();
    for tail in [None, Some(0), Some(1), Some(4), Some(5), Some(6), Some(23), Some(10007)] {
        let mut executor = Executor::new(tail);
        let mut inserted = 0;
        while inserted < 10 {
            let phase = executor.phase;
            let batch = executor.next_batch(&mut rng).unwrap();
            assert!(batch.ops.len() <= TX_SIZE);
            if phase == Phase::Inserting {
                assert_eq!(batch.ops.len(), TX_SIZE);
                inserted += 1;
            }
        }
    }
}

#[test]
fn stopped_executor_hands_out_nothing() {
    let mut rng = rng();
    let mut executor = Executor::new(Some(12));
    assert!(executor.next_batch(&mut rng).is_some());
    executor.stop();
    assert_eq!(executor, Executor { phase: Phase::Stopped, last_key: 7 });
    assert_eq!(executor.next_batch(&mut rng), None);
    assert_eq!(executor.next_batch(&mut rng), None);
    assert_eq!(executor, Executor { phase: Phase::Stopped, last_key: 7 });
}

#[test]
fn insert_phase_ends_where_the_counter_cannot_advance() {
    let mut rng = rng();
    let mut executor = Executor { phase: Phase::Inserting, last_key: u64::MAX - 5 };
    let batch = executor.next_batch(&mut rng).unwrap();
    assert_eq!(
        put_keys(&batch),
        vec![u64::MAX - 5, u64::MAX - 4, u64::MAX - 3, u64::MAX - 2, u64::MAX - 1]
    );
    assert_eq!(executor, Executor { phase: Phase::Inserting, last_key: u64::MAX });
    assert_eq!(executor.next_batch(&mut rng), None);
    assert_eq!(executor, Executor { phase: Phase::Inserting, last_key: u64::MAX });

    let mut executor = Executor { phase: Phase::Inserting, last_key: u64::MAX - 4 };
    assert_eq!(executor.next_batch(&mut rng), None);
    assert_eq!(executor.last_key, u64::MAX - 4);
}

#[test]
fn deleting_never_runs_out_of_counter() {
    let mut rng = rng();
    let mut executor = Executor::new(Some(u64::MAX));
    let batch = executor.next_batch(&mut rng).unwrap();
    assert_eq!(batch.ops.len(), 5);
    assert_eq!(executor.last_key, u64::MAX - 5);
}

#[test]
fn delete_phase_empties_a_dense_store() {
    let mut rng = rng();
    for n in [0u64, 1, 4, 5, 6, 7, 10, 23, 100] {
        let mut store = dense_store(n);
        assert_eq!(verify_db(&walk(&store), false), Ok(vec![]));
        let tail = get_last_key(&seek_last(&store)).unwrap();
        assert_eq!(tail, if n == 0 { None } else { Some(n) });
        let mut executor = Executor::new(tail);
        let mut transactions = 0;
        while executor.phase == Phase::Deleting {
            let batch = executor.next_batch(&mut rng).unwrap();
            commit(&mut store, &batch);
            transactions += 1;
        }
        assert_eq!(transactions, n / 5 + 1);
        assert!(store.is_empty());
        assert_eq!(get_last_key(&seek_last(&store)), Ok(None));
        assert_eq!(executor, Executor { phase: Phase::Inserting, last_key: 1 });
    }
}

#[test]
fn inserted_keys_verify_as_a_dense_range() {
    let mut rng = rng();
    let mut store = Store::new();
    let mut executor = Executor { phase: Phase::Inserting, last_key: 1 };
    for round in 1..=60u64 {
        let batch = executor.next_batch(&mut rng).unwrap();
        commit(&mut store, &batch);
        let records = walk(&store);
        assert_eq!(records.len() as u64, 5 * round);
        assert_eq!(verify_db(&records, false), Ok(vec![]));
        assert_eq!(
            verify_db(&records, true),
            Ok((1..=5 * round).map(Some).collect::<Vec<_>>())
        );
        assert_eq!(get_last_key(&seek_last(&store)), Ok(Some(5 * round)));
    }
}

#[test]
fn cycle_rebuilds_the_store() {
    let mut rng = rng();
    let mut store = dense_store(13);
    let mut executor = Executor::new(get_last_key(&seek_last(&store)).unwrap());
    for _ in 0..10 {
        let batch = executor.next_batch(&mut rng).unwrap();
        commit(&mut store, &batch);
    }
    assert_eq!(executor, Executor { phase: Phase::Inserting, last_key: 36 });
    assert_eq!(store.len(), 35);
    assert_eq!(verify_db(&walk(&store), false), Ok(vec![]));
}

#[test]
fn lost_write_is_found_by_the_verifier() {
    let mut rng = rng();
    let mut store = Store::new();
    let mut executor = Executor { phase: Phase::Inserting, last_key: 1 };
    for _ in 0..4 {
        let batch = executor.next_batch(&mut rng).unwrap();
        commit(&mut store, &batch);
    }
    store.remove(&encode_key(12));
    assert_eq!(
        verify_db(&walk(&store), false),
        Err(IntegrityViolation::KeyMismatch { index: 11, found: 13 })
    );
}

#[test]
fn insert_transaction_is_exact_for_given_lengths() {
    let mut executor = Executor { phase: Phase::Inserting, last_key: 1 };
    let batch = executor.next_batch_with(&[0, 1, 2, 3, 4095]).unwrap();
    assert_eq!(
        batch,
        Batch {
            ops: vec![
                WriteOp::Put { key: vec![0, 0, 0, 0, 0, 0, 0, 1], value: vec![] },
                WriteOp::Put { key: vec![0, 0, 0, 0, 0, 0, 0, 2], value: vec![0] },
                WriteOp::Put { key: vec![0, 0, 0, 0, 0, 0, 0, 3], value: vec![0, 1] },
                WriteOp::Put { key: vec![0, 0, 0, 0, 0, 0, 0, 4], value: vec![0, 1, 2] },
                WriteOp::Put { key: vec![0, 0, 0, 0, 0, 0, 0, 5], value: initialize_value(4095) },
            ],
            progress: None,
        }
    );
    assert_eq!(executor, Executor { phase: Phase::Inserting, last_key: 6 });

    let mut executor = Executor { phase: Phase::Inserting, last_key: 29996 };
    let batch = executor.next_batch_with(&[7, 7, 7, 7, 7]).unwrap();
    assert_eq!(put_keys(&batch), vec![29996, 29997, 29998, 29999, 30000]);
    assert_eq!(batch.progress, Some(Progress::Added { last_key: 30001 }));
}

#[test]
fn lengths_are_not_looked_at_outside_the_insert_phase() {
    let mut executor = Executor::new(Some(7));
    let batch = executor.next_batch_with(&[]).unwrap();
    assert_eq!(batch, Batch { ops: deletes(&[7, 6, 5, 4, 3]), progress: None });
    let batch = executor.next_batch_with(&[9, 9]).unwrap();
    assert_eq!(batch, Batch { ops: deletes(&[2, 1]), progress: Some(Progress::AllDeleted) });
    assert_eq!(executor, Executor { phase: Phase::Inserting, last_key: 1 });

    let mut executor = Executor { phase: Phase::Stopped, last_key: 3 };
    assert_eq!(executor.next_batch_with(&[]), None);
    assert_eq!(executor, Executor { phase: Phase::Stopped, last_key: 3 });
}
