use bdsup::vobs::{read_rle, NibbleStream, Rle};

#[test]
fn nibbles_come_high_half_first() {
    let data = [0xAB, 0xCD];
    let mut s = NibbleStream::new(&data);
    assert_eq!(s.take_nibble(), Some(0xA));
    assert_eq!(s.take_nibble(), Some(0xB));
    assert_eq!(s.take_nibble(), Some(0xC));
    assert_eq!(s.take_nibble(), Some(0xD));
    assert_eq!(s.take_nibble(), None);
    assert_eq!(s.take_nibble(), None);
}

#[test]
fn byte_align_skips_half_a_byte() {
    let data = [0x12, 0x34];
    let mut s = NibbleStream::new(&data);
    s.byte_align();
    assert_eq!(s.take_nibble(), Some(0x1));
    s.byte_align();
    assert_eq!(s.take_nibble(), Some(0x3));
    s.byte_align();
    assert_eq!(s.take_nibble(), None);
}

#[test]
fn run_codes_of_each_length() {
    // 0x7 -> one nibble: length 1, color 3.
    let data = [0x7F];
    let mut s = NibbleStream::new(&data);
    assert_eq!(read_rle(&mut s), Some(Rle { length: 1, color: 3 }));
    // 0x1, 0x2 -> 0x12: length 4, color 2.
    let data = [0x12];
    let mut s = NibbleStream::new(&data);
    assert_eq!(read_rle(&mut s), Some(Rle { length: 4, color: 2 }));
    // 0x0, 0x4, 0x1 -> 0x41: length 16, color 1.
    let data = [0x04, 0x10];
    let mut s = NibbleStream::new(&data);
    assert_eq!(read_rle(&mut s), Some(Rle { length: 16, color: 1 }));
    // 0x0, 0x1, 0x2, 0x3 -> 0x123: length 72, color 3.
    let data = [0x01, 0x23];
    let mut s = NibbleStream::new(&data);
    assert_eq!(read_rle(&mut s), Some(Rle { length: 72, color: 3 }));
    assert_eq!(s.take_nibble(), None);
    // 0x0000: length 0 (to the end of the line), color 0.
    let data = [0x00, 0x00];
    let mut s = NibbleStream::new(&data);
    assert_eq!(read_rle(&mut s), Some(Rle { length: 0, color: 0 }));
}

#[test]
fn run_code_cut_short_is_none() {
    let data = [0x01];
    let mut s = NibbleStream::new(&data);
    assert_eq!(read_rle(&mut s), None);
    let data: [u8; 0] = [];
    let mut s = NibbleStream::new(&data);
    assert_eq!(read_rle(&mut s), None);
}
