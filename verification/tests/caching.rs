use bytes::Bytes;
use std::collections::HashMap;
use streaming_engine::cache::backend::{Cache, CacheSettings};
use streaming_engine::cache::fs::{
    is_expired, CacheError, FileOp, FileSystemCache, Lookup, SetOutcome,
};
use streaming_engine::cache::redis::{RedisCache, RedisCommand};
use streaming_engine::disk_evictor::{DirEntry, FileMeta};
use streaming_engine::paths::join_path;
use streaming_engine::storage::cached::{CachedStorage, Source, StreamSource, StreamTee};

/// Files by their paths.
type Files = HashMap<String, Vec<u8>>;

fn apply(files: &mut Files, ops: Vec<FileOp>) {
    for op in ops {
        match op {
            FileOp::Write { path, data } => {
                files.insert(path, data.to_vec());
            }
            FileOp::Remove { path } => {
                files.remove(&path);
            }
        }
    }
}

fn read(cache: &FileSystemCache, files: &Files, key: &str, now: u64) -> Option<Vec<u8>> {
    let path = cache.get_file_path(key);
    let sidecar = files
        .get(&cache.get_meta_path(key))
        .map(|b| String::from_utf8(b.clone()).unwrap());
    match cache.get(files.contains_key(&path), sidecar.as_deref(), Some(now)).unwrap() {
        Lookup::Fresh => files.get(&path).cloned(),
        Lookup::Miss | Lookup::Expired => None,
    }
}

fn put(cache: &FileSystemCache, files: &mut Files, key: &str, value: &[u8], at: u64, ttl: Option<u64>) {
    let expiry = FileSystemCache::expiry_text(Some(at), ttl).unwrap();
    apply(files, cache.set(key, Bytes::copy_from_slice(value), expiry));
}

#[test]
fn filesystem_cache_roundtrips_bytes() {
    let cache = FileSystemCache::new("/cache", 100);
    let mut files = Files::new();
    put(&cache, &mut files, "test_key", b"hello audio cache bytes", 0, None);
    assert_eq!(
        read(&cache, &files, "test_key", 0),
        Some(b"hello audio cache bytes".to_vec())
    );
}

#[test]
fn filesystem_cache_delete_removes_entry() {
    let cache = FileSystemCache::new("/cache", 100);
    let mut files = Files::new();
    put(&cache, &mut files, "del_key", b"ephemeral", 0, None);
    assert_eq!(files.len(), 1);
    apply(&mut files, cache.delete("del_key", true, false));
    assert_eq!(read(&cache, &files, "del_key", 0), None);
    assert!(files.is_empty());
}

#[test]
fn a_sidecar_goes_with_its_entry() {
    let cache = FileSystemCache::new("/cache", 100);
    let mut files = Files::new();
    put(&cache, &mut files, "del_key", b"ephemeral", 0, Some(5));
    assert_eq!(files.len(), 2);
    apply(&mut files, cache.delete("del_key", true, true));
    assert_eq!(read(&cache, &files, "del_key", 0), None);
    assert!(files.is_empty());
    assert!(cache.delete("del_key", false, false).is_empty());
}

#[test]
fn entries_live_up_to_their_expiry() {
    let cache = FileSystemCache::new("/cache", 100);
    let mut files = Files::new();
    put(&cache, &mut files, "k", b"v", 1000, Some(60));
    assert_eq!(files.get("/cache/k.meta").unwrap(), b"1060");
    assert_eq!(read(&cache, &files, "k", 1060), Some(b"v".to_vec()));
    assert_eq!(read(&cache, &files, "k", 1061), None);
}

#[test]
fn an_old_sidecar_outlives_its_entry() {
    let cache = FileSystemCache::new("/cache", 100);
    let mut files = Files::new();
    put(&cache, &mut files, "k", b"old", 1000, Some(60));
    put(&cache, &mut files, "k", b"new", 2000, None);
    assert_eq!(read(&cache, &files, "k", 2000), None);
}

#[test]
fn sidecars_without_a_number_never_expire() {
    assert_eq!(is_expired(None, None), Ok(false));
    assert_eq!(is_expired(Some("soon"), None), Ok(false));
    assert_eq!(is_expired(Some(""), Some(9)), Ok(false));
    assert_eq!(is_expired(Some("12 "), Some(99)), Ok(false));
    assert_eq!(is_expired(Some("+12"), Some(13)), Ok(true));
    assert_eq!(is_expired(Some("18446744073709551616"), Some(13)), Ok(false));
    assert_eq!(is_expired(Some("12"), None), Err(CacheError::ClockBeforeEpoch));
}

#[test]
fn a_clock_before_the_epoch_is_an_error_only_where_time_counts() {
    let cache = FileSystemCache::new("/cache", 1);
    assert_eq!(cache.get(false, Some("1"), None), Ok(Lookup::Miss));
    assert_eq!(cache.get(true, None, None), Ok(Lookup::Fresh));
    assert_eq!(cache.get(true, Some("1"), None), Err(CacheError::ClockBeforeEpoch));
    assert!(FileSystemCache::expiry_text(None, None).unwrap().is_none());
    assert!(FileSystemCache::expiry_text(None, Some(1)).is_err());
}

#[test]
fn counter_follows_the_entries() {
    let mut cache = FileSystemCache::new("/cache", 1);
    assert_eq!(cache.evictor.max_bytes, 1024 * 1024);
    assert!(!cache.entry_set(SetOutcome::Complete, None, 100));
    assert!(!cache.entry_set(SetOutcome::SidecarFailed, Some(100), 300));
    assert_eq!(cache.evictor.current_bytes(), 300);
    assert!(!cache.entry_set(SetOutcome::EntryFailed, Some(300), 7));
    assert!(!cache.entry_set(SetOutcome::ClockFailed, Some(300), 7));
    assert_eq!(cache.evictor.current_bytes(), 300);
    assert!(cache.entry_set(SetOutcome::Complete, None, 1024 * 1024));
    cache.entry_removed(Some(1024 * 1024), true);
    cache.entry_removed(Some(50), false);
    cache.entry_removed(None, true);
    assert_eq!(cache.evictor.current_bytes(), 300);
}

#[test]
fn paths_are_joined() {
    assert_eq!(join_path("/a", "b"), "/a/b");
    assert_eq!(join_path("/a/", "b"), "/a/b");
    assert_eq!(join_path("", "b"), "b");
    assert_eq!(join_path("/a", "/b"), "/b");
    assert_eq!(join_path("/a", ""), "/a/");
}

#[test]
fn settings_choose_the_cache() {
    let redis = Cache::new(CacheSettings::Redis { uri: "redis://h".to_string() });
    assert!(matches!(redis, Cache::Redis(c) if c.uri == "redis://h"));
    let files = Cache::new(CacheSettings::Filesystem {
        base_dir: "/d".to_string(),
        max_size_mb: 2,
    });
    match files {
        Cache::Filesystem(c) => {
            assert_eq!(c.base_path, "/d");
            assert_eq!(c.evictor.max_bytes, 2 * 1024 * 1024);
            assert_eq!(c.evictor.skip_ext.as_deref(), Some("meta"));
            assert!(c.evictor.has_background_task);
        }
        Cache::Redis(_) => panic!("expected the directory"),
    }
}

#[test]
fn redis_commands() {
    let cache = RedisCache::new("redis://h".to_string());
    assert!(matches!(cache.get("k"), RedisCommand::Get { key } if key == "k"));
    assert!(matches!(cache.delete("k"), RedisCommand::Del { key } if key == "k"));
    assert!(matches!(
        cache.set("k", Bytes::from_static(b"v"), Some(7)),
        RedisCommand::PutFor { key, value, seconds: 7 } if key == "k" && &value[..] == b"v"
    ));
    assert!(matches!(
        cache.set("k", Bytes::from_static(b"v"), None),
        RedisCommand::Put { key, value } if key == "k" && &value[..] == b"v"
    ));
}

/// A read through the cache, with `fetches` counting those of the storage behind.
fn fetch(cached: &mut CachedStorage<()>, files: &mut Files, key: &str, fetches: &mut u32) -> Vec<u8> {
    let path = cached.cache_path(key);
    match cached.get(files.get(&path).cloned()) {
        Source::Cached(b) => b.to_vec(),
        Source::Inner => {
            *fetches += 1;
            let data = vec![0xFF, 0xFB, 0x90, 0x00];
            files.insert(path, data.clone());
            cached.blob_written(data.len() as u64, true);
            data
        }
    }
}

fn remove(cached: &mut CachedStorage<()>, files: &mut Files, key: &str) {
    let path = cached.cache_path(key);
    let size = files.get(&path).map(|d| d.len() as u64);
    let removed = files.remove(&path).is_some();
    cached.blob_removed(size, removed);
}

#[test]
fn cache_hit_avoids_inner_fetch() {
    let mut cached = CachedStorage::new_manual((), "/tmp/c", 100);
    let (mut files, mut fetches) = (Files::new(), 0);
    fetch(&mut cached, &mut files, "test.mp3", &mut fetches);
    assert_eq!(fetches, 1);
    fetch(&mut cached, &mut files, "test.mp3", &mut fetches);
    assert_eq!(fetches, 1);
}

#[test]
fn eviction_respects_max_size() {
    let mut cached = CachedStorage::new_manual((), "/tmp/c", 0);
    let (mut files, mut fetches) = (Files::new(), 0);
    fetch(&mut cached, &mut files, "a.mp3", &mut fetches);
    fetch(&mut cached, &mut files, "b.mp3", &mut fetches);
    let listing: Vec<DirEntry> = files
        .iter()
        .map(|(path, data)| DirEntry {
            name: path.rsplit('/').next().unwrap().as_bytes().to_vec(),
            meta: Some(FileMeta { is_file: true, len: data.len() as u64, modified: None }),
        })
        .collect();
    let mut pass = cached.evictor().evict(listing);
    while let Some(i) = pass.victim() {
        let name = String::from_utf8(pass.entries[i].name.clone()).unwrap();
        files.remove(&format!("/tmp/c/{name}"));
        pass.removed();
    }
    let count = files.len();
    assert!(count <= 1, "expected at most 1 file after eviction, found {count}");
}

#[test]
fn delete_removes_from_cache() {
    let mut cached = CachedStorage::new_manual((), "/tmp/c", 100);
    let (mut files, mut fetches) = (Files::new(), 0);
    fetch(&mut cached, &mut files, "test.mp3", &mut fetches);
    assert_eq!(fetches, 1);
    remove(&mut cached, &mut files, "test.mp3");
    fetch(&mut cached, &mut files, "test.mp3", &mut fetches);
    assert_eq!(fetches, 2);
}

#[test]
fn evictor_counter_tracks_writes_and_deletes() {
    let mut cached = CachedStorage::new_manual((), "/tmp/c", 100);
    let (mut files, mut fetches) = (Files::new(), 0);
    fetch(&mut cached, &mut files, "x.mp3", &mut fetches);
    assert_eq!(cached.evictor().current_bytes(), 4);
    remove(&mut cached, &mut files, "x.mp3");
    assert_eq!(cached.evictor().current_bytes(), 0);
}

#[test]
fn keys_become_file_names() {
    let cached = CachedStorage::new((), "/c", 1);
    assert_eq!(cached.cache_path("a/b\\c.mp3"), "/c/a_b_c.mp3");
    assert_eq!(cached.cache_path("/etc/x"), "/c/_etc_x");
    assert!(cached.evictor().has_background_task);
    assert!(cached.evictor().skip_ext.is_none());
}

#[test]
fn a_write_that_failed_is_not_counted() {
    let mut cached = CachedStorage::new((), "/c", 0);
    assert!(!cached.blob_written(10, false));
    assert_eq!(cached.evictor().current_bytes(), 0);
    assert!(cached.blob_written(10, true));
}

#[test]
fn whole_streams_are_cached() {
    let mut tee = StreamTee::new();
    tee.chunk(b"ab", true);
    tee.chunk(b"", true);
    tee.chunk(b"cd", true);
    assert_eq!(&tee.finish().unwrap()[..], b"abcd");
    assert!(StreamTee::new().finish().is_none());
}

#[test]
fn broken_streams_are_not_cached() {
    let mut tee = StreamTee::new();
    tee.chunk(b"ab", true);
    tee.error();
    tee.chunk(b"cd", true);
    assert!(tee.finish().is_none());
    let mut tee = StreamTee::new();
    tee.chunk(b"ab", false);
    tee.chunk(b"cd", true);
    assert!(tee.finish().is_none());
}

#[test]
fn streams_come_from_the_cache_where_it_has_the_key() {
    let cached = CachedStorage::new((), "/c", 1);
    assert!(matches!(cached.get_stream(true), StreamSource::Cached));
    assert!(matches!(cached.get_stream(false), StreamSource::Inner(_)));
}
