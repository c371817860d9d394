use docstore::disk::{LocalStore, MemDisk};
use docstore::document::Counter;
use docstore::modrinth::ModrinthDatabase;
use docstore::shared::SharedStore;

fn runtime() -> tokio::runtime::Runtime {
    tokio::runtime::Builder::new_multi_thread()
        .worker_threads(4)
        .build()
        .expect("runtime")
}

#[test]
fn three_concurrent_increments_all_land() {
    let rt = runtime();
    let store: SharedStore<Counter> = SharedStore::open(None);
    rt.block_on(async {
        let mut handles = Vec::new();
        for _ in 0..3 {
            let h = store.share();
            handles.push(tokio::spawn(async move {
                h.write(|d: Counter| {
                    let n = d.count + 1;
                    Ok((Counter { count: n }, n))
                })
            }));
        }
        for handle in handles {
            let r = handle.await.expect("task");
            assert!(r.is_ok());
        }
    });
    let total = store.read(|d: Counter| d.count);
    assert_eq!(total, 3);
    // the backing file agrees after a restart
    let image = store.disk_image();
    let reopened: LocalStore<Counter> = LocalStore::open_local(MemDisk::new(image));
    assert_eq!(reopened.snapshot().count, 3);
}

#[test]
fn concurrent_writers_lose_no_update() {
    let rt = runtime();
    let store: SharedStore<ModrinthDatabase> = SharedStore::open(None);
    let writers: u64 = 8;
    rt.block_on(async {
        let mut handles = Vec::new();
        for k in 0..writers {
            let h = store.share();
            handles.push(tokio::spawn(async move {
                h.write(move |mut d: ModrinthDatabase| {
                    let mut name = String::from("user-");
                    name.push_str(&k.to_string());
                    d.link_account(k, name);
                    Ok((d, ()))
                })
            }));
        }
        for handle in handles {
            let r = handle.await.expect("task");
            assert!(r.is_ok());
        }
    });
    for k in 0..writers {
        let got = store.read(move |d: ModrinthDatabase| d.get_modrinth_id(k));
        let expect = format!("user-{}", k);
        assert_eq!(got, Some(expect));
    }
}

#[test]
fn concurrent_readers_see_consistent_snapshots() {
    let rt = runtime();
    let store: SharedStore<Counter> = SharedStore::open(None);
    rt.block_on(async {
        let mut handles = Vec::new();
        for _ in 0..2 {
            let h = store.share();
            handles.push(tokio::spawn(async move {
                for _ in 0..10 {
                    let _ = h.write(|d: Counter| {
                        let n = d.count + 1;
                        Ok((Counter { count: n }, n))
                    });
                }
            }));
        }
        for _ in 0..4 {
            let h = store.share();
            handles.push(tokio::spawn(async move {
                for _ in 0..10 {
                    let seen = h.read(|d: Counter| d.count);
                    assert!(seen <= 20);
                }
            }));
        }
        for handle in handles {
            handle.await.expect("task");
        }
    });
    assert_eq!(store.read(|d: Counter| d.count), 20);
}
