//! Concurrency tests: many facade clones hammer one store from a
//! worker pool, and the state that survives is consistent.

use kvs::{KvStore, KvStoreInner, KvsEngine, RayonThreadPool, ThreadPool};
use std::sync::mpsc;

const WORKERS: usize = 8;
const OPS_PER_WORKER: usize = 1000;
const KEY_SPACE: usize = 100;

#[test]
fn concurrent_clones_stay_consistent() {
    let store = KvStore::open(Vec::new()).unwrap();
    let pool = RayonThreadPool::new(WORKERS as u32).unwrap();
    let (tx, rx) = mpsc::channel::<usize>();

    for w in 0..WORKERS {
        let store = store.clone();
        let tx = tx.clone();
        pool.spawn(move || {
            let mut state: u64 = (w as u64).wrapping_mul(2654435761).wrapping_add(1);
            for i in 0..OPS_PER_WORKER {
                state = state
                    .wrapping_mul(6364136223846793005)
                    .wrapping_add(1442695040888963407);
                let key = format!("key{}", (state >> 33) as usize % KEY_SPACE);
                match state % 3 {
                    0 => {
                        store.set(key, format!("v{}-{}", w, i)).unwrap();
                    }
                    1 => {
                        let got = store.get(key).unwrap();
                        if let Some(value) = got {
                            assert!(value.starts_with('v'));
                        }
                    }
                    _ => {
                        let _ = store.remove(key);
                    }
                }
            }
            tx.send(w).unwrap();
        });
    }
    drop(tx);

    let mut done = Vec::new();
    for _ in 0..WORKERS {
        done.push(rx.recv().unwrap());
    }
    done.sort();
    assert_eq!(done, (0..WORKERS).collect::<Vec<_>>());

    let reopened = KvStoreInner::open(store.log_bytes()).unwrap();
    for i in 0..KEY_SPACE {
        let key = format!("key{}", i);
        assert_eq!(
            store.get(key.clone()).unwrap(),
            reopened.get(key).unwrap()
        );
    }
}

#[test]
fn pool_runs_every_job() {
    let pool = RayonThreadPool::new(4).unwrap();
    let (tx, rx) = mpsc::channel::<usize>();
    for i in 0..20 {
        let tx = tx.clone();
        pool.spawn(move || {
            tx.send(i).unwrap();
        });
    }
    drop(tx);
    let mut got: Vec<usize> = rx.iter().collect();
    got.sort();
    assert_eq!(got, (0..20).collect::<Vec<_>>());
}
