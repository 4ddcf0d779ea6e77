//! The alternate backend and the delegating pool, run against the real
//! outside libraries.

use kvs::thread_pool::{RayonThreadPool, ThreadPool};
use kvs::{KvsEngine, KvsErrorKind, SledKvsEngine};

#[test]
fn sled_engine_set_get_remove() {
    let dir = tempfile::TempDir::new().unwrap();
    let mut engine = SledKvsEngine::open(dir.path().to_str().unwrap()).unwrap();
    engine.set("k".to_string(), "v1".to_string()).unwrap();
    assert_eq!(engine.get("k".to_string()).unwrap(), Some("v1".to_string()));
    engine.set("k".to_string(), "v2".to_string()).unwrap();
    assert_eq!(engine.get("k".to_string()).unwrap(), Some("v2".to_string()));
    engine.remove("k".to_string()).unwrap();
    assert_eq!(engine.get("k".to_string()).unwrap(), None);
    engine.flush().unwrap();
}

#[test]
fn sled_engine_remove_of_missing_key_is_key_not_found() {
    let dir = tempfile::TempDir::new().unwrap();
    let mut engine = SledKvsEngine::open(dir.path().to_str().unwrap()).unwrap();
    let e = engine.remove("missing".to_string()).unwrap_err();
    assert!(matches!(e.kind, KvsErrorKind::KeyNotFound));
}

#[test]
fn rayon_pool_runs_submitted_tasks() {
    let pool = RayonThreadPool::new(2).unwrap();
    let (tx, rx) = crossbeam::channel::unbounded::<u32>();
    for i in 0..8u32 {
        let tx = tx.clone();
        pool.spawn(move || {
            tx.send(i).unwrap();
        });
    }
    let mut got: Vec<u32> = Vec::new();
    for _ in 0..8 {
        got.push(rx.recv_timeout(std::time::Duration::from_secs(10)).unwrap());
    }
    got.sort();
    assert_eq!(got, vec![0, 1, 2, 3, 4, 5, 6, 7]);
    pool.shutdown();
}
