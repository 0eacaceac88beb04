use parallel_download::chunks::chunk_at;
use parallel_download::engine::DownloadConfig;

const MIB: u64 = 1024 * 1024;

#[test]
fn chunk_at_walks_the_partition() {
    // 25 bytes in windows of 10: chunks of 10, 10 and 5.
    let c0 = chunk_at(25, 10, 0).unwrap();
    assert_eq!(c0.start, 0);
    assert_eq!(c0.size, 10);
    let c1 = chunk_at(25, 10, 10).unwrap();
    assert_eq!(c1.start, 10);
    assert_eq!(c1.size, 10);
    let c2 = chunk_at(25, 10, 20).unwrap();
    assert_eq!(c2.start, 20);
    assert_eq!(c2.size, 5);
    assert!(chunk_at(25, 10, 25).is_none());
}

#[test]
fn chunk_at_empty_resource_has_no_chunks() {
    assert!(chunk_at(0, 10, 0).is_none());
}

#[test]
fn chunk_at_exact_multiple_has_full_chunks_only() {
    let c0 = chunk_at(20, 10, 0).unwrap();
    assert_eq!((c0.start, c0.size), (0, 10));
    let c1 = chunk_at(20, 10, 10).unwrap();
    assert_eq!((c1.start, c1.size), (10, 10));
    assert!(chunk_at(20, 10, 20).is_none());
}

#[test]
fn chunk_at_single_byte_resource() {
    let c = chunk_at(1, 10, 0).unwrap();
    assert_eq!((c.start, c.size), (0, 1));
    assert!(chunk_at(1, 10, 1).is_none());
}

#[test]
fn chunk_at_mebibyte_partition() {
    // 25 MiB in windows of 10 MiB: sizes 10, 10 and 5 MiB.
    let c2 = chunk_at(25 * MIB, (10 * MIB) as u32, 20 * MIB).unwrap();
    assert_eq!(c2.start, 20 * MIB);
    assert_eq!(c2.size as u64, 5 * MIB);
}

#[test]
fn config_defaults() {
    let cfg = DownloadConfig::default();
    assert_eq!(cfg.chunk_size, 50 * 1024 * 1024);
    assert_eq!(cfg.max_concurrency, 6);
    assert_eq!(cfg.read_burst, 1024 * 1024);
}
