use printer_gateway::stream::{backlog_capacity, CmafInit, CmafStream, FragmentCursor};

#[test]
fn backlog_capacity_covers_the_backlog() {
    assert_eq!(backlog_capacity(270_000, 29_970), 10);
    assert_eq!(backlog_capacity(270_000, 30_000), 9);
    assert_eq!(backlog_capacity(270_000, 90_000), 3);
    assert_eq!(backlog_capacity(0, 30_000), 1);
    assert_eq!(backlog_capacity(1, 30_000), 1);
    assert_eq!(backlog_capacity(u64::MAX, 1), 240);
    assert_eq!(backlog_capacity(240 * 5 + 1, 5), 240);
    assert_eq!(backlog_capacity(239 * 5 + 1, 5), 240);
    assert_eq!(backlog_capacity(238 * 5 + 1, 5), 239);
    assert_eq!(backlog_capacity(100, 0), 1);
}

#[test]
fn fragments_are_numbered_from_one() {
    let mut s = CmafStream::new(3);
    for i in 1..=5u64 {
        let f = s.send_fragment(vec![i as u8]);
        assert_eq!(f.seq, i);
        assert_eq!(f.bytes, vec![i as u8]);
    }
    let snapshot = s.backlog_snapshot();
    assert_eq!(snapshot.iter().map(|f| f.seq).collect::<Vec<_>>(), vec![3, 4, 5]);
    assert_eq!(snapshot[0].bytes, vec![3]);
}

#[test]
fn capacity_of_zero_keeps_one() {
    let mut s = CmafStream::new(0);
    assert!(s.backlog_snapshot().is_empty());
    s.send_fragment(vec![1]);
    s.send_fragment(vec![2]);
    let snapshot = s.backlog_snapshot();
    assert_eq!(snapshot.len(), 1);
    assert_eq!(snapshot[0].seq, 2);
}

#[test]
fn lagged_subscriber_resumes_after_last_forwarded() {
    let mut s = CmafStream::new(10);
    for i in 0..6u8 {
        s.send_fragment(vec![i]);
    }
    assert_eq!(s.fragments_after(4).iter().map(|f| f.seq).collect::<Vec<_>>(), vec![5, 6]);
    assert_eq!(s.fragments_after(0).len(), 6);
    assert!(s.fragments_after(6).is_empty());
    assert!(s.fragments_after(u64::MAX).is_empty());
}

#[test]
fn init_is_last_write_wins() {
    let mut s = CmafStream::new(1);
    assert!(s.init().is_none());
    s.update_init(CmafInit { bytes: vec![1], codec: b"avc1.42001F".to_vec() });
    s.update_init(CmafInit { bytes: vec![2], codec: b"avc1.64001F".to_vec() });
    assert_eq!(s.init().unwrap().bytes, vec![2]);
    assert_eq!(s.init().unwrap().codec, b"avc1.64001F".to_vec());
}

#[test]
fn cursor_skips_what_was_forwarded() {
    let mut c = FragmentCursor::new();
    assert!(!c.accept(0));
    assert!(c.accept(3));
    assert!(!c.accept(3));
    assert!(!c.accept(2));
    assert!(c.accept(4));
    assert_eq!(c.last_forwarded, 4);
}
