use docstore::codec::{read_u64, write_u64};
use docstore::disk::{LocalStore, MemDisk};
use docstore::document::{decode_doc, encode_doc, Counter};
use docstore::store::{DbError, DocStore, MAX_WRITE_ATTEMPTS, RETRY_BACKOFF_MS, WRITE_TIMEOUT_SECS};

fn fresh() -> LocalStore<Counter> {
    LocalStore::open_local(MemDisk::empty())
}

fn bump(d: Counter) -> Result<(Counter, u64), String> {
    let n = d.count + 1;
    Ok((Counter { count: n }, n))
}

#[test]
fn fresh_open_reads_default() {
    let store = fresh();
    let snap = store.read(|d: Counter| d.clone());
    assert_eq!(snap, Counter { count: 0 });
    assert_eq!(store.snapshot(), Counter { count: 0 });
}

#[test]
fn open_without_file_is_default_doc_store() {
    let store: DocStore<Counter> = DocStore::open_store(None);
    assert_eq!(store.snapshot().count, 0);
}

#[test]
fn write_commits_memory_and_disk() {
    let mut store = fresh();
    let r = store.write(bump);
    assert!(matches!(r, Ok(1)));
    assert_eq!(store.snapshot().count, 1);
    let image = store.disk_image().expect("a committed write must leave a file");
    let decoded: Counter = decode_doc(&image).expect("the file must decode");
    assert_eq!(decoded.count, 1);
}

#[test]
fn reopen_reconstructs_last_committed_value() {
    let mut store = fresh();
    store.write(bump).unwrap();
    store.write(bump).unwrap();
    let image = store.disk_image();
    let reopened: LocalStore<Counter> = LocalStore::open_local(MemDisk::new(image));
    assert_eq!(reopened.snapshot().count, 2);
}

#[test]
fn writes_fold_left_to_right() {
    let mut store = fresh();
    for add in [5u64, 7, 11] {
        let r = store.write(move |d: Counter| {
            let n = d.count + add;
            Ok((Counter { count: n }, n))
        });
        assert!(r.is_ok());
    }
    assert_eq!(store.snapshot().count, 23);
    let decoded: Counter = decode_doc(&store.disk_image().unwrap()).unwrap();
    assert_eq!(decoded.count, 23);
}

#[test]
fn garbage_file_opens_as_fresh() {
    let garbage = vec![0xde, 0xad, 0xbe, 0xef, 0x01];
    let mut store: LocalStore<Counter> = LocalStore::open_local(MemDisk::new(Some(garbage.clone())));
    assert_eq!(store.snapshot().count, 0);
    // a later write replaces the garbage with a valid encoding
    store.write(bump).unwrap();
    let image = store.disk_image().unwrap();
    assert_ne!(image, garbage);
    let decoded: Counter = decode_doc(&image).unwrap();
    assert_eq!(decoded.count, 1);
}

#[test]
fn truncated_file_opens_as_fresh() {
    let valid = encode_doc(&Counter { count: 77 });
    let truncated = valid[..valid.len() - 1].to_vec();
    let store: LocalStore<Counter> = LocalStore::open_local(MemDisk::new(Some(truncated)));
    assert_eq!(store.snapshot().count, 0);
}

#[test]
fn trailing_bytes_make_the_file_invalid() {
    let mut padded = encode_doc(&Counter { count: 77 });
    padded.push(0);
    let store: LocalStore<Counter> = LocalStore::open_local(MemDisk::new(Some(padded)));
    assert_eq!(store.snapshot().count, 0);
}

#[test]
fn application_error_changes_nothing() {
    let mut store = fresh();
    store.write(bump).unwrap();
    let before_mem = store.snapshot();
    let before_disk = store.disk_image();
    let r: Result<u64, DbError> = store.write(|_d: Counter| Err("no room".to_string()));
    match r {
        Err(DbError::Application(m)) => assert_eq!(m, "no room"),
        other => panic!("expected an application error, got {:?}", other),
    }
    assert_eq!(store.snapshot(), before_mem);
    assert_eq!(store.disk_image(), before_disk);
}

#[test]
fn exhausted_disk_reports_io_and_keeps_state() {
    let mut store = fresh();
    store.write(bump).unwrap();
    store.inject_disk_faults(MAX_WRITE_ATTEMPTS, 0);
    let r = store.write(bump);
    assert!(matches!(r, Err(DbError::Io(_))));
    // the failed mutation never applied
    assert_eq!(store.snapshot().count, 1);
    let decoded: Counter = decode_doc(&store.disk_image().unwrap()).unwrap();
    assert_eq!(decoded.count, 1);
}

#[test]
fn transient_disk_faults_are_retried() {
    let mut store = fresh();
    store.inject_disk_faults(MAX_WRITE_ATTEMPTS - 1, 0);
    let r = store.write(bump);
    assert!(matches!(r, Ok(1)));
    assert_eq!(store.snapshot().count, 1);
    let decoded: Counter = decode_doc(&store.disk_image().unwrap()).unwrap();
    assert_eq!(decoded.count, 1);
}

#[test]
fn timed_out_write_commits_and_emergency_saves() {
    let mut store = fresh();
    store.inject_disk_faults(0, 1);
    let r = store.write(bump);
    assert!(matches!(r, Err(DbError::Timeout)));
    // the mutation is committed in memory
    assert_eq!(store.snapshot().count, 1);
    // and the emergency save carried the bytes to the file
    let decoded: Counter = decode_doc(&store.disk_image().unwrap()).unwrap();
    assert_eq!(decoded.count, 1);
}

#[test]
fn persist_policy_constants() {
    assert_eq!(MAX_WRITE_ATTEMPTS, 3);
    assert_eq!(RETRY_BACKOFF_MS, 100);
    assert_eq!(WRITE_TIMEOUT_SECS, 5);
}

#[test]
fn little_endian_codec_is_exact() {
    let mut out: Vec<u8> = Vec::new();
    write_u64(&mut out, 258);
    assert_eq!(out, vec![2, 1, 0, 0, 0, 0, 0, 0]);
    assert_eq!(read_u64(&out, 0), 258);
    let mut big: Vec<u8> = Vec::new();
    write_u64(&mut big, u64::MAX);
    assert_eq!(big, vec![0xff; 8]);
    assert_eq!(read_u64(&big, 0), u64::MAX);
}

#[test]
fn counter_document_encoding_is_exact() {
    let bytes = encode_doc(&Counter { count: 258 });
    assert_eq!(bytes, vec![2, 1, 0, 0, 0, 0, 0, 0]);
    let back: Counter = decode_doc(&bytes).unwrap();
    assert_eq!(back.count, 258);
}
