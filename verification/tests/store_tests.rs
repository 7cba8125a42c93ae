//! End-to-end scenarios over the store model: atomic inserts, streaming
//! reads with the cache tee, the size gate, and bulk preload.

use rose_store::disk::{Disk, FileKey};
use rose_store::error::Error;
use rose_store::fs_manager::{FsManager, StreamItem};
use rose_store::ident::ImageId;

const MIB: u64 = 1024 * 1024;

fn fin_key(id: ImageId, ext: &str) -> FileKey {
    FileKey { id: id.0, ext: ext.to_string(), temp: false }
}

fn tmp_key(id: ImageId, ext: &str) -> FileKey {
    FileKey { id: id.0, ext: ext.to_string(), temp: true }
}

/// Drains a read stream in chunks of `step`, returning all its bytes.
fn drain(d: &mut rose_store::fs_manager::Data, step: usize) -> Vec<u8> {
    let mut out = Vec::new();
    loop {
        let chunk = d.pull(step);
        if chunk.is_empty() {
            break;
        }
        out.extend_from_slice(&chunk);
    }
    out
}

fn pseudo_random_bytes(n: usize) -> Vec<u8> {
    let mut v = Vec::with_capacity(n);
    let mut x: u64 = 0x2545F4914F6CDD1D;
    for _ in 0..n {
        x ^= x << 13;
        x ^= x >> 7;
        x ^= x << 17;
        v.push((x & 0xff) as u8);
    }
    v
}

#[test]
fn post_then_get_round_trip() {
    // a four-byte body stored and read back whole
    let mut disk = Disk::new();
    let mut fm = FsManager::new("root".to_string(), 1 << 30, MIB);
    let id = ImageId(1);
    let body = vec![0xDE, 0xAD, 0xBE, 0xEF];
    let items = vec![StreamItem::Data(body.clone())];
    assert_eq!(fm.insert(&mut disk, id, &items, "jpeg"), Ok(()));
    assert_eq!(disk.read(&fin_key(id, "jpeg")), Some(body.clone()));
    let mut d = fm.get(&disk, id, "jpeg").unwrap();
    assert_eq!(drain(&mut d, 2), body);
}

#[test]
fn round_trip_in_many_chunks() {
    let mut disk = Disk::new();
    let fm = FsManager::new("root".to_string(), 1 << 30, MIB);
    let id = ImageId(77);
    let body = pseudo_random_bytes(10_000);
    let items: Vec<StreamItem> =
        body.chunks(997).map(|c| StreamItem::Data(c.to_vec())).collect();
    assert_eq!(fm.insert(&mut disk, id, &items, "jpeg"), Ok(()));
    assert_eq!(disk.read(&fin_key(id, "jpeg")), Some(body));
}

#[test]
fn oversized_object_never_cached() {
    // a 10 MiB object with a 1 MiB per-entry cap: both reads hit the disk
    let mut disk = Disk::new();
    let mut fm = FsManager::new("root".to_string(), 1 << 30, MIB);
    let id = ImageId(2);
    let body = pseudo_random_bytes(10 * MIB as usize);
    let items = vec![StreamItem::Data(body.clone())];
    assert_eq!(fm.insert(&mut disk, id, &items, "jpeg"), Ok(()));

    let mut d1 = fm.get(&disk, id, "jpeg").unwrap();
    assert!(!d1.from_cache);
    assert!(!d1.tee);
    let got1 = drain(&mut d1, 1 << 16);
    assert_eq!(got1, body);
    d1.finish(&mut fm.cache);
    fm.cache.pump(0);
    fm.cache.force_update();
    fm.cache.pump(0);

    let mut d2 = fm.get(&disk, id, "jpeg").unwrap();
    assert!(!d2.from_cache);
    let got2 = drain(&mut d2, 1 << 16);
    assert_eq!(got2, body);
}

#[test]
fn small_object_cached_after_full_read() {
    // 100 KiB under a 1 MiB cap: the second read is a cache hit
    let mut disk = Disk::new();
    let mut fm = FsManager::new("root".to_string(), 1 << 30, MIB);
    let id = ImageId(3);
    let body = pseudo_random_bytes(100 * 1024);
    let items = vec![StreamItem::Data(body.clone())];
    assert_eq!(fm.insert(&mut disk, id, &items, "jpeg"), Ok(()));

    let mut d1 = fm.get(&disk, id, "jpeg").unwrap();
    assert!(!d1.from_cache);
    assert!(d1.tee);
    assert!(!d1.exhausted());
    let got1 = drain(&mut d1, 4096);
    assert_eq!(got1, body);
    assert!(d1.exhausted());
    d1.finish(&mut fm.cache);
    fm.cache.pump(0);
    fm.cache.force_update();
    fm.cache.pump(0);

    let mut d2 = fm.get(&disk, id, "jpeg").unwrap();
    assert!(d2.from_cache);
    let got2 = drain(&mut d2, 4096);
    assert_eq!(got2, body);
}

#[test]
fn partial_read_does_not_populate_cache() {
    let mut disk = Disk::new();
    let mut fm = FsManager::new("root".to_string(), 1 << 30, MIB);
    let id = ImageId(31);
    let body = pseudo_random_bytes(4096);
    let items = vec![StreamItem::Data(body.clone())];
    assert_eq!(fm.insert(&mut disk, id, &items, "jpeg"), Ok(()));

    let mut d1 = fm.get(&disk, id, "jpeg").unwrap();
    assert!(d1.tee);
    let _ = d1.pull(100);
    // abandoned before the end: the pending buffer is discarded
    d1.finish(&mut fm.cache);
    fm.cache.force_update();
    fm.cache.pump(0);
    let d2 = fm.get(&disk, id, "jpeg").unwrap();
    assert!(!d2.from_cache);
}

#[test]
fn second_insert_of_same_object_refused() {
    let mut disk = Disk::new();
    let mut fm = FsManager::new("root".to_string(), 1 << 30, MIB);
    let id = ImageId(4);
    let first = vec![1, 2, 3];
    let second = vec![9, 9, 9];
    assert_eq!(
        fm.insert(&mut disk, id, &vec![StreamItem::Data(first.clone())], "jpeg"),
        Ok(())
    );
    assert_eq!(
        fm.insert(&mut disk, id, &vec![StreamItem::Data(second)], "jpeg"),
        Err(Error::AlreadyExists)
    );
    // the winner's bytes are what a read returns
    let mut d = fm.get(&disk, id, "jpeg").unwrap();
    assert_eq!(drain(&mut d, 8), first);
}

#[test]
fn stale_temp_file_blocks_insert() {
    let mut disk = Disk::new();
    let fm = FsManager::new("root".to_string(), 1 << 30, MIB);
    let id = ImageId(40);
    assert!(disk.try_create(tmp_key(id, "jpeg")));
    assert_eq!(
        fm.insert(&mut disk, id, &vec![StreamItem::Data(vec![1])], "jpeg"),
        Err(Error::AlreadyExists)
    );
    assert_eq!(disk.read(&fin_key(id, "jpeg")), None);
}

#[test]
fn preload_fills_cache_and_skips_missing() {
    let mut disk = Disk::new();
    let mut fm = FsManager::new("root".to_string(), 1 << 30, MIB);
    let present = ImageId(3);
    let missing = ImageId(0x9999);
    let body = pseudo_random_bytes(100 * 1024);
    assert_eq!(
        fm.insert(&mut disk, present, &vec![StreamItem::Data(body.clone())], "jpeg"),
        Ok(())
    );

    let list = vec![(present, "jpeg".to_string()), (missing, "jpeg".to_string())];
    assert_eq!(fm.load_cache(&disk, &list), Ok(()));
    fm.cache.pump(0);

    let mut d = fm.get(&disk, present, "jpeg").unwrap();
    assert!(d.from_cache);
    assert_eq!(drain(&mut d, 4096), body);
    assert_eq!(fm.get(&disk, missing, "jpeg").err(), Some(Error::NotFound));
}

#[test]
fn preload_skips_oversized_files() {
    let mut disk = Disk::new();
    let mut fm = FsManager::new("root".to_string(), 1 << 30, 64);
    let id = ImageId(50);
    let body = pseudo_random_bytes(64);
    assert_eq!(
        fm.insert(&mut disk, id, &vec![StreamItem::Data(body)], "jpeg"),
        Ok(())
    );
    assert_eq!(fm.load_cache(&disk, &vec![(id, "jpeg".to_string())]), Ok(()));
    fm.cache.pump(0);
    let d = fm.get(&disk, id, "jpeg").unwrap();
    assert!(!d.from_cache);
}

#[test]
fn preload_of_cached_objects_is_content_noop() {
    let mut disk = Disk::new();
    let mut fm = FsManager::new("root".to_string(), 1 << 30, MIB);
    let id = ImageId(60);
    let body = pseudo_random_bytes(1000);
    assert_eq!(
        fm.insert(&mut disk, id, &vec![StreamItem::Data(body.clone())], "jpeg"),
        Ok(())
    );
    assert_eq!(fm.load_cache(&disk, &vec![(id, "jpeg".to_string())]), Ok(()));
    fm.cache.pump(0);
    let mut d1 = fm.get(&disk, id, "jpeg").unwrap();
    assert!(d1.from_cache);
    let before = drain(&mut d1, 4096);
    // a second preload of the same, already cached identifier
    assert_eq!(fm.load_cache(&disk, &vec![(id, "jpeg".to_string())]), Ok(()));
    fm.cache.pump(0);
    let mut d2 = fm.get(&disk, id, "jpeg").unwrap();
    assert!(d2.from_cache);
    assert_eq!(drain(&mut d2, 4096), before);
}

#[test]
fn failing_stream_leaves_no_trace() {
    let mut disk = Disk::new();
    let mut fm = FsManager::new("root".to_string(), 1 << 30, MIB);
    let id = ImageId(5);
    let items = vec![StreamItem::Data(pseudo_random_bytes(1024)), StreamItem::Failed];
    assert_eq!(fm.insert(&mut disk, id, &items, "jpeg"), Err(Error::StreamAborted));
    // neither the final path nor the temporary sibling remains
    assert_eq!(disk.read(&fin_key(id, "jpeg")), None);
    assert!(!disk.contains(&tmp_key(id, "jpeg")));
    assert_eq!(fm.get(&disk, id, "jpeg").err(), Some(Error::NotFound));
    // a later insert of the same identifier succeeds
    let body = vec![7, 8, 9];
    assert_eq!(
        fm.insert(&mut disk, id, &vec![StreamItem::Data(body.clone())], "jpeg"),
        Ok(())
    );
    let mut d = fm.get(&disk, id, "jpeg").unwrap();
    assert_eq!(drain(&mut d, 2), body);
}

#[test]
fn error_descriptions() {
    assert_eq!(Error::NotFound.describe(), "not found");
    assert_eq!(Error::AlreadyExists.describe(), "already exists");
    assert_eq!(Error::Io.describe(), "io error");
    assert_eq!(Error::StreamAborted.describe(), "stream aborted");
    assert_eq!(Error::CachePressure.describe(), "cache pressure");
}
