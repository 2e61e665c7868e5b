use corepin::stream::StreamBuffer;

#[test]
fn round_trip_across_partial_reads_and_writes() {
    let mut s = StreamBuffer::new();
    s.write_bytes(&vec![b'h', b'e', b'l']);
    s.write_bytes(&vec![b'l', b'o', b' ']);
    s.write_bytes(&vec![b'w', b'o', b'r', b'l', b'd']);
    let mut got: Vec<u8> = Vec::new();
    got.extend(s.read_bytes(4));
    got.extend(s.read_bytes(1));
    got.extend(s.read_bytes(100));
    assert_eq!(got, b"hello world".to_vec());
    assert!(s.is_empty());
}

#[test]
fn read_takes_oldest_bytes_first() {
    let mut s = StreamBuffer::new();
    s.write_bytes(&vec![1, 2, 3, 4, 5]);
    assert_eq!(s.read_bytes(2), vec![1, 2]);
    s.write_bytes(&vec![6]);
    assert_eq!(s.read_bytes(10), vec![3, 4, 5, 6]);
    assert_eq!(s.read_bytes(10), vec![]);
}

#[test]
fn try_read_blocks_only_when_empty() {
    let mut s = StreamBuffer::new();
    assert_eq!(s.try_read(8), None);
    s.write_bytes(&vec![9]);
    assert_eq!(s.try_read(8), Some(vec![9]));
    assert_eq!(s.try_read(8), None);
}

#[test]
fn resumed_read_sees_bytes_at_resume_time() {
    let mut s = StreamBuffer::new();
    // The first attempt would block: nothing is in flight yet.
    assert_eq!(s.try_read(16), None);
    // Data arrives while the read is suspended.
    s.write_bytes(&vec![10, 11, 12]);
    // The resumed attempt returns exactly the bytes present now.
    assert_eq!(s.try_read(16), Some(vec![10, 11, 12]));
}

#[test]
fn read_respects_caller_limit() {
    let mut s = StreamBuffer::new();
    s.write_bytes(&vec![1, 2, 3]);
    let r = s.try_read(2);
    assert_eq!(r, Some(vec![1, 2]));
    assert_eq!(s.read_bytes(2), vec![3]);
}
