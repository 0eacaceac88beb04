use parallel_download::fetcher::{BurstStatus, Download, FetchStep};

#[test]
fn fetch_new_starts_empty_with_default_burst() {
    let f = Download::new(String::from("http://example.test/a"), 100, 50);
    assert_eq!(f.start, 100);
    assert_eq!(f.size, 50);
    assert_eq!(f.bytes_read, 0);
    assert_eq!(f.read_size, 1024 * 1024);
    assert!(f.buffer.is_empty());
}

#[test]
fn fetch_range_bounds_are_inclusive() {
    let f = Download::new(String::from("http://example.test/a"), 100, 50);
    assert_eq!(f.range_bounds(), (100, 149));
    let g = Download::new(String::from("http://example.test/a"), 0, 1);
    assert_eq!(g.range_bounds(), (0, 0));
}

#[test]
fn fetch_bursts_accumulate_in_order() {
    let mut f = Download::new(String::from("http://example.test/a"), 0, 10);
    f.set_read_size(4);
    assert_eq!(f.step(false), FetchStep::Read(4));
    assert_eq!(f.on_burst(&vec![0, 1, 2, 3]), BurstStatus::More);
    assert_eq!(f.step(false), FetchStep::Read(4));
    assert_eq!(f.on_burst(&vec![4, 5, 6, 7]), BurstStatus::More);
    // Only two bytes are owed now: the final burst is truncated.
    assert_eq!(f.step(false), FetchStep::Read(2));
    assert_eq!(f.on_burst(&vec![8, 9]), BurstStatus::Complete);
    assert_eq!(f.step(false), FetchStep::Done);
    let buf = f.take_buffer();
    assert_eq!(buf, vec![0, 1, 2, 3, 4, 5, 6, 7, 8, 9]);
}

#[test]
fn fetch_partial_bursts_are_fine() {
    let mut f = Download::new(String::from("http://example.test/a"), 0, 6);
    f.set_read_size(4);
    // The body may hand back fewer bytes than asked for.
    assert_eq!(f.on_burst(&vec![9]), BurstStatus::More);
    assert_eq!(f.on_burst(&vec![8, 7]), BurstStatus::More);
    assert_eq!(f.step(false), FetchStep::Read(3));
    assert_eq!(f.on_burst(&vec![6, 5, 4]), BurstStatus::Complete);
    assert_eq!(f.take_buffer(), vec![9, 8, 7, 6, 5, 4]);
}

#[test]
fn fetch_cancel_is_honoured_between_bursts() {
    let mut f = Download::new(String::from("http://example.test/a"), 0, 10);
    f.set_read_size(4);
    assert_eq!(f.on_burst(&vec![0, 1, 2, 3]), BurstStatus::More);
    // The signal stops the fetch before any further read.
    assert_eq!(f.step(true), FetchStep::Cancelled);
}

#[test]
fn fetch_finished_chunk_ignores_late_cancel() {
    let mut f = Download::new(String::from("http://example.test/a"), 0, 2);
    assert_eq!(f.on_burst(&vec![1, 2]), BurstStatus::Complete);
    // A complete fetch reports completion even if the signal fired.
    assert_eq!(f.step(true), FetchStep::Done);
}

#[test]
fn fetch_dry_body_is_a_short_read() {
    let mut f = Download::new(String::from("http://example.test/a"), 0, 10);
    assert_eq!(f.on_burst(&vec![0, 1, 2]), BurstStatus::More);
    // Zero bytes while seven are still owed: the chunk is incomplete.
    assert_eq!(f.on_burst(&vec![]), BurstStatus::Short);
}

#[test]
fn fetch_burst_bound_caps_each_read() {
    let mut f = Download::new(String::from("http://example.test/a"), 0, 1000);
    f.set_read_size(256);
    assert_eq!(f.step(false), FetchStep::Read(256));
    assert_eq!(f.on_burst(&vec![0; 256]), BurstStatus::More);
    f.set_read_size(512);
    assert_eq!(f.step(false), FetchStep::Read(512));
}
