use flowtrack::network::reassembly::{
    CryptoFrameReassembler, BUFFER_LIMIT, MAX_BUFFER_SIZE, STALE_AFTER_MS,
};
use flowtrack::network::types::{QuicInfo, TlsInfo, TlsVersion};

#[test]
fn new_reassembler_is_empty() {
    let r = CryptoFrameReassembler::new(42);
    assert_eq!(r.contiguous_offset(), 0);
    assert_eq!(r.current_buffer_size(), 0);
    assert_eq!(r.max_buffer_size(), 65536);
    assert_eq!(MAX_BUFFER_SIZE, 64 * 1024);
    assert_eq!(r.last_update(), 42);
    assert!(r.get_fragments().is_empty());
    assert!(r.get_contiguous_data().is_none());
    assert!(r.get_cached_tls_info().is_none());
    assert!(!r.has_complete_tls_info());
}

#[test]
fn duplicate_fragment_is_ignored() {
    let mut r = CryptoFrameReassembler::new(0);
    assert_eq!(r.add_fragment(0, vec![7u8; 32 * 1024], 1), Ok(()));
    assert_eq!(r.add_fragment(0, vec![7u8; 32 * 1024], 2), Ok(()));
    assert_eq!(r.current_buffer_size(), 32768);
    assert_eq!(r.contiguous_offset(), 32768);
    assert_eq!(r.get_fragments().len(), 1);
    assert_eq!(r.last_update(), 2);
}

#[test]
fn fragment_over_the_limit_is_refused() {
    let mut r = CryptoFrameReassembler::new(0);
    assert_eq!(r.add_fragment(0, vec![1u8; 40 * 1024], 1), Ok(()));
    assert_eq!(r.add_fragment(40 * 1024, vec![2u8; 30 * 1024], 2), Err(BUFFER_LIMIT));
    assert_eq!(
        r.add_fragment(40 * 1024, vec![2u8; 30 * 1024], 2),
        Err("Fragment would exceed maximum buffer size")
    );
    assert_eq!(r.current_buffer_size(), 40 * 1024);
    assert_eq!(r.contiguous_offset(), 40 * 1024);
    assert_eq!(r.last_update(), 1);
    assert_eq!(r.get_fragments().len(), 1);
}

#[test]
fn buffer_takes_exactly_its_capacity() {
    let mut r = CryptoFrameReassembler::new(0);
    assert_eq!(r.add_fragment(0, vec![1u8; 65536], 1), Ok(()));
    assert_eq!(r.current_buffer_size(), 65536);
    assert_eq!(r.add_fragment(65536, vec![1u8; 1], 2), Err(BUFFER_LIMIT));
    assert_eq!(r.add_fragment(65536, Vec::new(), 3), Ok(()));
    assert_eq!(r.current_buffer_size(), 65536);
}

#[test]
fn fragments_out_of_order_are_put_together() {
    let mut r = CryptoFrameReassembler::new(0);
    assert_eq!(r.add_fragment(5, vec![5, 6, 7], 1), Ok(()));
    assert_eq!(r.contiguous_offset(), 0);
    assert!(r.get_contiguous_data().is_none());
    assert_eq!(r.add_fragment(10, vec![10, 11], 2), Ok(()));
    assert_eq!(r.add_fragment(0, vec![0, 1, 2, 3, 4], 3), Ok(()));
    assert_eq!(r.contiguous_offset(), 8);
    assert_eq!(r.get_contiguous_data(), Some(vec![0, 1, 2, 3, 4, 5, 6, 7]));
    assert_eq!(r.add_fragment(8, vec![8, 9], 4), Ok(()));
    assert_eq!(r.contiguous_offset(), 12);
    assert_eq!(r.get_contiguous_data(), Some(vec![0, 1, 2, 3, 4, 5, 6, 7, 8, 9, 10, 11]));
    assert_eq!(r.current_buffer_size(), 12);
    let offsets: Vec<u64> = r.get_fragments().iter().map(|f| f.offset).collect();
    assert_eq!(offsets, vec![0, 5, 8, 10]);
}

#[test]
fn overlapping_fragment_gives_way_to_the_first() {
    let mut r = CryptoFrameReassembler::new(0);
    assert_eq!(r.add_fragment(0, vec![1, 1, 1, 1], 1), Ok(()));
    assert_eq!(r.add_fragment(2, vec![9, 9, 9, 9], 2), Ok(()));
    assert_eq!(r.add_fragment(0, vec![9, 9], 3), Ok(()));
    assert_eq!(r.current_buffer_size(), 4);
    assert_eq!(r.contiguous_offset(), 4);
    assert_eq!(r.get_contiguous_data(), Some(vec![1, 1, 1, 1]));
    assert_eq!(r.last_update(), 3);
    assert_eq!(r.add_fragment(4, vec![2, 2], 4), Ok(()));
    assert_eq!(r.get_contiguous_data(), Some(vec![1, 1, 1, 1, 2, 2]));
}

#[test]
fn empty_fragment_does_not_replace_stored_bytes() {
    let mut r = CryptoFrameReassembler::new(0);
    assert_eq!(r.add_fragment(0, vec![1, 2, 3], 1), Ok(()));
    assert_eq!(r.add_fragment(0, Vec::new(), 2), Ok(()));
    assert_eq!(r.get_contiguous_data(), Some(vec![1, 2, 3]));
    assert_eq!(r.current_buffer_size(), 3);
    assert_eq!(r.add_fragment(7, Vec::new(), 3), Ok(()));
    assert_eq!(r.add_fragment(7, vec![7, 8], 4), Ok(()));
    assert_eq!(r.current_buffer_size(), 5);
    assert_eq!(r.get_fragments().len(), 2);
    assert_eq!(r.get_fragments()[1].data, vec![7, 8]);
}

#[test]
fn stale_after_thirty_seconds() {
    let mut r = CryptoFrameReassembler::new(1_000);
    assert_eq!(STALE_AFTER_MS, 30_000);
    assert!(!r.is_stale(1_000));
    assert!(!r.is_stale(31_000));
    assert!(r.is_stale(31_001));
    assert!(!r.is_stale(0));
    assert_eq!(r.add_fragment(0, vec![1], 20_000), Ok(()));
    assert!(!r.is_stale(50_000));
    assert!(r.is_stale(50_001));
}

#[test]
fn clearing_keeps_the_offset_and_the_tls_info() {
    let mut r = CryptoFrameReassembler::new(0);
    assert_eq!(r.add_fragment(0, vec![1, 2, 3], 1), Ok(()));
    let mut info = TlsInfo::new();
    info.sni = Some("example.com".to_string());
    info.version = Some(TlsVersion::Tls13);
    info.alpn = vec!["h3".to_string()];
    r.set_complete_tls_info(info);
    assert!(r.has_complete_tls_info());
    r.clear_fragments();
    assert_eq!(r.current_buffer_size(), 0);
    assert_eq!(r.contiguous_offset(), 3);
    assert!(r.get_fragments().is_empty());
    assert!(r.get_contiguous_data().is_none());
    let cached = r.get_cached_tls_info().unwrap();
    assert_eq!(cached.sni, Some("example.com".to_string()));
    assert_eq!(cached.version, Some(TlsVersion::Tls13));
    assert_eq!(cached.alpn, vec!["h3".to_string()]);
    assert_eq!(r.last_update(), 1);
}

#[test]
fn copy_of_a_reassembler_holds_the_same() {
    let mut r = CryptoFrameReassembler::new(0);
    assert_eq!(r.add_fragment(0, vec![1, 2, 3], 1), Ok(()));
    assert_eq!(r.add_fragment(9, vec![9], 2), Ok(()));
    let copy = r.clone();
    assert_eq!(copy.contiguous_offset(), 3);
    assert_eq!(copy.current_buffer_size(), 4);
    assert_eq!(copy.last_update(), 2);
    assert_eq!(copy.get_contiguous_data(), Some(vec![1, 2, 3]));
    assert_eq!(copy.get_fragments().len(), 2);
}

#[test]
fn offset_never_goes_back() {
    let mut r = CryptoFrameReassembler::new(0);
    let mut last = 0;
    let steps: [(u64, usize); 6] = [(4, 4), (0, 2), (2, 2), (100, 1), (8, 92), (0, 1)];
    for (i, (offset, len)) in steps.iter().enumerate() {
        let _ = r.add_fragment(*offset, vec![0u8; *len], i as u64);
        assert!(r.contiguous_offset() >= last);
        assert!(r.current_buffer_size() <= 65536);
        last = r.contiguous_offset();
    }
    assert_eq!(last, 101);
}

#[test]
fn quic_info_gets_a_reassembler_once() {
    let mut info = QuicInfo::new(1);
    assert!(info.crypto_reassembler.is_none());
    info.ensure_reassembler(5);
    assert_eq!(info.crypto_reassembler.as_ref().unwrap().last_update(), 5);
    let _ = info.crypto_reassembler.as_mut().unwrap().add_fragment(0, vec![1], 6);
    info.ensure_reassembler(9);
    let r = info.crypto_reassembler.as_ref().unwrap();
    assert_eq!(r.last_update(), 6);
    assert_eq!(r.current_buffer_size(), 1);
}
