use anyserve::shm::{read_span, RingCursor, ShmError, ShmManager, SHM_SIZE};

#[test]
fn new_manager_uses_default_size() {
    let shm = ShmManager::new();
    assert_eq!(shm.h2d_capacity(), SHM_SIZE);
    assert_eq!(shm.d2h_capacity(), 10 * 1024 * 1024);
    assert_eq!(shm.h2d_offset(), 0);
}

#[test]
fn writes_read_back_byte_for_byte() {
    let mut shm = ShmManager::with_capacity(16);
    let mut region = vec![0u8; 16];
    let a = shm.write_h2d(&mut region, &[1, 2, 3]).unwrap();
    let b = shm.write_h2d(&mut region, &[4, 5]).unwrap();
    let c = shm.write_h2d(&mut region, &[6, 7, 8, 9]).unwrap();
    assert_eq!(a, (0, 3));
    assert_eq!(b, (3, 2));
    assert_eq!(c, (5, 4));
    assert_eq!(shm.h2d_offset(), 9);
    assert_eq!(read_span(&region, a.0, a.1).unwrap(), vec![1, 2, 3]);
    assert_eq!(read_span(&region, b.0, b.1).unwrap(), vec![4, 5]);
    assert_eq!(read_span(&region, c.0, c.1).unwrap(), vec![6, 7, 8, 9]);
}

#[test]
fn write_filling_region_exactly_does_not_reset() {
    let mut shm = ShmManager::with_capacity(8);
    let mut region = vec![0u8; 8];
    assert_eq!(shm.write_h2d(&mut region, &[1, 1, 1, 1, 1]).unwrap(), (0, 5));
    assert_eq!(shm.write_h2d(&mut region, &[2, 2, 2]).unwrap(), (5, 3));
    assert_eq!(region, vec![1, 1, 1, 1, 1, 2, 2, 2]);
    assert_eq!(shm.h2d_offset(), 8);
}

#[test]
fn overflowing_write_starts_at_zero() {
    let mut shm = ShmManager::with_capacity(8);
    let mut region = vec![0u8; 8];
    assert_eq!(shm.write_h2d(&mut region, &[1, 1, 1, 1, 1]).unwrap(), (0, 5));
    let placed = shm.write_h2d(&mut region, &[9, 9, 9, 9]).unwrap();
    assert_eq!(placed, (0, 4));
    assert_eq!(shm.h2d_offset(), 4);
    assert_eq!(region, vec![9, 9, 9, 9, 1, 0, 0, 0]);
}

#[test]
fn payload_longer_than_region_is_refused() {
    let mut shm = ShmManager::with_capacity(4);
    let mut region = vec![0u8; 4];
    shm.write_h2d(&mut region, &[7]).unwrap();
    let r = shm.write_h2d(&mut region, &[1, 2, 3, 4, 5]);
    assert_eq!(r, Err(ShmError::PayloadTooLarge { len: 5, capacity: 4 }));
    assert_eq!(shm.h2d_offset(), 1);
    assert_eq!(region, vec![7, 0, 0, 0]);
}

#[test]
fn empty_write_is_placed_at_cursor() {
    let mut shm = ShmManager::with_capacity(4);
    let mut region = vec![0u8; 4];
    shm.write_h2d(&mut region, &[1, 2]).unwrap();
    assert_eq!(shm.write_h2d(&mut region, &[]).unwrap(), (2, 0));
    assert_eq!(shm.h2d_offset(), 2);
}

#[test]
fn read_outside_region_is_refused() {
    let shm = ShmManager::with_capacity(8);
    let region = vec![3u8; 8];
    assert_eq!(shm.read_d2h(&region, 6, 2).unwrap(), vec![3, 3]);
    assert_eq!(
        shm.read_d2h(&region, 6, 3),
        Err(ShmError::OutOfBounds { offset: 6, len: 3, capacity: 8 })
    );
    assert_eq!(
        shm.read_d2h(&region, usize::MAX, 2),
        Err(ShmError::OutOfBounds { offset: usize::MAX, len: 2, capacity: 8 })
    );
    assert_eq!(shm.read_d2h(&region, 8, 0).unwrap(), Vec::<u8>::new());
}

#[test]
fn cursor_claims_and_resets() {
    let mut c = RingCursor::new(10);
    assert_eq!(c.claim(6), Ok(0));
    assert_eq!(c.claim(4), Ok(6));
    assert_eq!(c.offset(), 10);
    assert_eq!(c.claim(1), Ok(0));
    assert_eq!(c.claim(11), Err(ShmError::PayloadTooLarge { len: 11, capacity: 10 }));
    assert_eq!(c.offset(), 1);
    assert_eq!(c.capacity(), 10);
}

#[test]
fn serialized_calls_each_read_their_own_bytes() {
    // Each call writes, then reads its bytes back before the next call writes,
    // as the node's lock on the channel makes them do.
    let mut shm = ShmManager::with_capacity(6);
    let mut region = vec![0u8; 6];
    let calls: Vec<Vec<u8>> = vec![vec![1, 2, 3, 4], vec![5, 6, 7], vec![8, 9], vec![10, 11, 12, 13, 14, 15]];
    for payload in &calls {
        let (offset, len) = shm.write_h2d(&mut region, payload).unwrap();
        assert_eq!(&read_span(&region, offset, len).unwrap(), payload);
    }
}
