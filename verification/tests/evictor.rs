use streaming_engine::disk_evictor::{
    run_eviction, saturating_sub, scan_total_size, should_skip, DirEntry, DiskEvictor,
    EvictionPass, FileMeta, Wake,
};

fn file(name: &str, len: u64, modified: i128) -> DirEntry {
    DirEntry {
        name: name.as_bytes().to_vec(),
        meta: Some(FileMeta { is_file: true, len, modified: Some(modified) }),
    }
}

fn manual(max_bytes: u64, skip_ext: Option<&str>) -> DiskEvictor {
    DiskEvictor::manual("/cache".to_string(), max_bytes, skip_ext.map(|s| s.to_string()))
}

fn seed_files(n: usize, size: u64) -> Vec<DirEntry> {
    (0..n).map(|i| file(&i.to_string(), size, (1_000_000 + i as i128) * 60)).collect()
}

fn name_of(pass: &EvictionPass, i: usize) -> String {
    String::from_utf8(pass.entries[i].name.clone()).unwrap()
}

/// Runs a pass in which every file can be removed. Returns the names of the files and of
/// the sidecars that go.
fn run(mut pass: EvictionPass) -> (u64, Vec<String>, Vec<String>) {
    let mut gone = Vec::new();
    let mut sidecars = Vec::new();
    while let Some(i) = pass.victim() {
        gone.push(name_of(&pass, i));
        if let Some(name) = pass.removed() {
            sidecars.push(String::from_utf8(name).unwrap());
        }
    }
    (pass.freed, gone, sidecars)
}

#[test]
fn track_delete_saturates_at_zero() {
    let mut ev = manual(1024, None);
    ev.track_write(100);
    ev.track_delete(200);
    assert_eq!(ev.current_bytes(), 0, "counter must saturate, not wrap");
}

#[test]
fn repeated_deletes_stay_at_zero() {
    let mut ev = manual(1024, None);
    for _ in 0..10 {
        ev.track_delete(999);
    }
    assert_eq!(ev.current_bytes(), 0);
}

#[test]
fn write_then_delete_exact() {
    let mut ev = manual(1024, None);
    ev.track_write(500);
    ev.track_delete(500);
    assert_eq!(ev.current_bytes(), 0);
}

#[test]
fn scan_initialises_counter() {
    let mut ev = manual(10_000, None);
    assert!(!ev.scan(Some(&seed_files(3, 100))));
    assert_eq!(ev.current_bytes(), 300);
}

#[test]
fn scan_skips_extension() {
    let mut ev = manual(10_000, Some("meta"));
    ev.scan(Some(&vec![file("a", 100, 0), file("a.meta", 5, 0), file("b", 200, 0)]));
    assert_eq!(ev.current_bytes(), 300);
}

#[test]
fn scan_nonexistent_dir_is_zero() {
    let mut ev = manual(1024, None);
    ev.scan(None);
    assert_eq!(ev.current_bytes(), 0);
}

#[test]
fn evict_removes_oldest_files() {
    let mut ev = manual(250, None);
    assert!(ev.scan(Some(&seed_files(5, 100))));
    assert_eq!(ev.current_bytes(), 500);
    let (freed, gone, sidecars) = run(ev.evict(seed_files(5, 100)));
    ev.evicted(freed);
    assert_eq!(freed, 300);
    assert_eq!(ev.current_bytes(), 200);
    assert_eq!(gone, vec!["0", "1", "2"]);
    assert!(sidecars.is_empty());
}

#[test]
fn evict_noop_when_under_limit() {
    let ev = manual(1000, None);
    let (freed, gone, _) = run(ev.evict(seed_files(2, 50)));
    assert_eq!(freed, 0);
    assert!(gone.is_empty());
}

#[test]
fn evict_removes_companion_meta_files() {
    let listing = || {
        let mut v = Vec::new();
        for i in 0..4u8 {
            v.push(file(&format!("f{i}"), 100, (1_000_000 + i as i128) * 60));
            v.push(file(&format!("f{i}.meta"), 12, 0));
        }
        v
    };
    let mut ev = manual(150, Some("meta"));
    ev.scan(Some(&listing()));
    assert_eq!(ev.current_bytes(), 400);
    let (freed, gone, sidecars) = run(ev.evict(listing()));
    ev.evicted(freed);
    assert_eq!(freed, 300);
    assert_eq!(ev.current_bytes(), 100);
    assert_eq!(gone, vec!["f0", "f1", "f2"]);
    assert_eq!(sidecars, vec!["f0.meta", "f1.meta", "f2.meta"]);
}

#[test]
fn evict_with_max_zero_removes_everything() {
    let mut ev = manual(0, None);
    ev.scan(Some(&seed_files(3, 50)));
    assert_eq!(ev.current_bytes(), 150);
    let (freed, gone, _) = run(ev.evict(seed_files(3, 50)));
    ev.evicted(freed);
    assert_eq!(freed, 150);
    assert_eq!(ev.current_bytes(), 0);
    assert_eq!(gone.len(), 3);
}

#[test]
fn track_write_then_evict_counter_stays_consistent() {
    let mut ev = manual(100, None);
    for _ in 0..5u32 {
        assert!(!ev.track_write(50));
    }
    assert_eq!(ev.current_bytes(), 250);
    let (freed, gone, _) = run(ev.evict(seed_files(5, 50)));
    ev.evicted(freed);
    assert_eq!(freed, 150);
    assert_eq!(ev.current_bytes(), 100);
    assert_eq!(gone.len(), 3);
}

#[test]
fn evict_after_external_deletion() {
    let mut ev = manual(200, None);
    ev.scan(Some(&seed_files(4, 100)));
    assert_eq!(ev.current_bytes(), 400);
    let mut left = seed_files(4, 100);
    left.remove(0);
    let (freed, gone, _) = run(ev.evict(left));
    assert_eq!(freed, 100);
    assert_eq!(gone, vec!["1"]);
}

#[test]
fn background_mode_constructs_and_drops() {
    let mut ev = DiskEvictor::new("/cache".to_string(), 1024, None);
    ev.track_write(10);
    ev.track_delete(5);
    assert_eq!(ev.current_bytes(), 5);
    assert_eq!(ev.dir(), "/cache");
    assert!(!ev.handle_dropped(3));
    assert_eq!(ev.wake(), Wake::Idle);
    assert!(ev.handle_dropped(2));
    assert_eq!(ev.wake(), Wake::Stop);
}

#[test]
fn background_task_evicts_while_over_limit() {
    let mut ev = DiskEvictor::new("/cache".to_string(), 100, None);
    assert!(!ev.track_write(100));
    assert!(ev.track_write(1));
    assert_eq!(ev.wake(), Wake::Evict);
    assert!(!ev.evicted(50));
    assert_eq!(ev.wake(), Wake::Idle);
    assert!(ev.scan(Some(&seed_files(3, 50))));
    assert!(ev.evicted(10));
    let mut by_hand = manual(100, None);
    assert!(!by_hand.track_write(1000));
    assert!(!by_hand.handle_dropped(2));
    assert!(!by_hand.shutdown);
}

#[test]
fn a_file_that_stays_is_passed_over() {
    let mut pass = run_eviction(seed_files(3, 100), 150, None);
    assert_eq!(pass.victim(), Some(0));
    pass.kept();
    assert_eq!(pass.victim(), Some(1));
    pass.removed();
    assert_eq!(pass.victim(), Some(2));
    pass.removed();
    assert_eq!(pass.victim(), None);
    assert_eq!((pass.freed, pass.total), (200, 100));
}

#[test]
fn order_is_by_time_and_then_by_listing() {
    let entries = vec![
        file("c", 1, 5),
        file("a", 1, -3),
        file("b", 1, 5),
        DirEntry {
            name: b"epoch".to_vec(),
            meta: Some(FileMeta { is_file: true, len: 1, modified: None }),
        },
        DirEntry { name: b"lost".to_vec(), meta: None },
        DirEntry {
            name: b"sub".to_vec(),
            meta: Some(FileMeta { is_file: false, len: 1, modified: Some(0) }),
        },
    ];
    assert_eq!(scan_total_size(Some(&entries), None), 4);
    let (freed, gone, _) = run(run_eviction(entries, 0, None));
    assert_eq!(freed, 4);
    assert_eq!(gone, vec!["a", "epoch", "c", "b"]);
}

#[test]
fn extensions_are_as_the_file_system_has_them() {
    assert!(should_skip(b"a.meta", Some("meta")));
    assert!(should_skip(b"a.b.meta", Some("meta")));
    assert!(should_skip(b".a.meta", Some("meta")));
    assert!(!should_skip(b".meta", Some("meta")));
    assert!(!should_skip(b"meta", Some("meta")));
    assert!(!should_skip(b"a.metadata", Some("meta")));
    assert!(!should_skip(b"a.Meta", Some("meta")));
    assert!(!should_skip(b"a.meta", None));
    assert!(should_skip(b"a.", Some("")));
    assert!(!should_skip(b"..", Some("")));
    assert!(!should_skip(b"", Some("")));
    assert!(should_skip(b"\xff.meta", Some("meta")));
    assert!(!should_skip(b"a.\xff", Some("meta")));
}

#[test]
fn subtraction_stops_at_zero() {
    let mut n = 5u64;
    saturating_sub(&mut n, 3);
    assert_eq!(n, 2);
    saturating_sub(&mut n, 3);
    assert_eq!(n, 0);
}
