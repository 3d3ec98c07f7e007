use dashmap::DashMap;
use veltro::writer::{content_hash, forget_output, needs_write, record_write, write_if_changed, WriteResult};

#[test]
fn test_write_if_changed() {
    let path = "testdata/writer_test.dart";
    let mut cache = DashMap::new();
    let content = "test content";
    let disk: std::cell::RefCell<Vec<(String, String)>> = std::cell::RefCell::new(Vec::new());
    let write = |p: &str, c: &str| -> Result<(), String> {
        disk.borrow_mut().push((p.to_string(), c.to_string()));
        Ok(())
    };

    // 1. First write
    let res = write_if_changed(path, content, &mut cache, &write);
    assert!(matches!(res, WriteResult::Written));
    assert_eq!(*disk.borrow(), vec![(path.to_string(), content.to_string())]);

    // 2. Second write (same content)
    let res = write_if_changed(path, content, &mut cache, &write);
    assert!(matches!(res, WriteResult::Skipped));
    assert_eq!(disk.borrow().len(), 1);

    // 3. Third write (different content)
    let res = write_if_changed(path, "new content", &mut cache, &write);
    assert!(matches!(res, WriteResult::Written));
    assert_eq!(disk.borrow()[1], (path.to_string(), "new content".to_string()));
}

#[test]
fn failed_disk_write_leaves_the_cache_alone() {
    let mut cache: DashMap<String, u64> = DashMap::new();
    let res = write_if_changed("x.g.dart", "body", &mut cache, &|_p: &str, _c: &str| Err("denied".to_string()));
    assert!(matches!(res, WriteResult::Error(ref e) if e == "denied"));
    assert!(needs_write("x.g.dart", content_hash("body"), &cache));
    let res = write_if_changed("x.g.dart", "body", &mut cache, &|_p: &str, _c: &str| Ok(()));
    assert!(matches!(res, WriteResult::Written));
    assert!(!needs_write("x.g.dart", content_hash("body"), &cache));
}

#[test]
fn hash_is_xxh3_of_the_bytes() {
    assert_eq!(content_hash("test content"), xxhash_rust::xxh3::xxh3_64(b"test content"));
    assert_ne!(content_hash("a"), content_hash("b"));
}

#[test]
fn failed_write_is_not_recorded() {
    let mut cache: DashMap<String, u64> = DashMap::new();
    let h = content_hash("x");
    let r = record_write("out.g.dart", h, Err("disk full".to_string()), &mut cache);
    assert!(matches!(r, WriteResult::Error(ref m) if m == "disk full"));
    assert!(needs_write("out.g.dart", h, &cache));
}

#[test]
fn forgotten_output_is_written_again() {
    let mut cache: DashMap<String, u64> = DashMap::new();
    let h = content_hash("x");
    record_write("a.g.dart", h, Ok(()), &mut cache);
    record_write("b.g.dart", h, Ok(()), &mut cache);
    assert!(!needs_write("a.g.dart", h, &cache));
    forget_output("a.g.dart", &mut cache);
    assert!(needs_write("a.g.dart", h, &cache));
    assert!(!needs_write("b.g.dart", h, &cache));
}
