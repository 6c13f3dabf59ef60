use rkyv::{
    ArchiveBuffer, ArchiveBufferError, ArchiveError, ArchiveWriter, ByteImage, RelPtr, Write,
    WriteExt,
};

fn buffer(len: usize) -> ArchiveBuffer<Vec<u8>> {
    ArchiveBuffer::new(vec![0u8; len])
}

#[test]
fn primitive_self_archival() {
    let mut w = buffer(16);
    let pos = w.archive(&0x11223344u32).unwrap();
    assert_eq!(pos, 0);
    assert_eq!(w.pos(), 4);
    let buf = w.into_inner();
    assert_eq!(&buf[0..4], &0x11223344u32.to_ne_bytes());
    assert_eq!(&buf[4..], &[0u8; 12]);
}

#[test]
fn self_archival_after_padding() {
    let mut w = ArchiveBuffer::with_pos(vec![0xAAu8; 16], 1);
    let pos = w.archive(&0x0102u16).unwrap();
    assert_eq!(pos, 2);
    assert_eq!(w.pos(), 4);
    let buf = w.into_inner();
    assert_eq!(buf[0], 0xAA);
    assert_eq!(buf[1], 0);
    assert_eq!(&buf[2..4], &0x0102u16.to_ne_bytes());
    assert_eq!(buf[4], 0xAA);
}

#[test]
fn boxed_by_reference() {
    let mut w = buffer(32);
    let value = 0xDEADBEEFCAFEBABEu64;
    let ref_pos = w.archive_ref(&value).unwrap();
    assert_eq!(ref_pos, 8);
    assert_eq!(w.pos(), 12);
    let buf = w.into_inner();
    assert_eq!(&buf[0..8], &value.to_ne_bytes());
    assert_eq!(&buf[8..12], &(-8i32).to_ne_bytes());
    let target = RelPtr::<u64>::read(&buf, ref_pos).unwrap();
    assert_eq!(target, 0);
    let mut image = [0u8; 8];
    image.copy_from_slice(&buf[target..target + 8]);
    assert_eq!(u64::from_ne_bytes(image), value);
}

#[test]
fn boxed_by_reference_from_odd_position() {
    let mut w = ArchiveBuffer::with_pos(vec![0u8; 32], 3);
    let value = 0xDEADBEEFCAFEBABEu64;
    let ref_pos = w.archive_ref(&value).unwrap();
    assert_eq!(ref_pos, 16);
    assert_eq!(w.pos(), 20);
    let buf = w.into_inner();
    assert_eq!(&buf[8..16], &value.to_ne_bytes());
    assert_eq!(RelPtr::<u64>::read(&buf, ref_pos), Some(8));
}

#[test]
fn nested_references() {
    let mut w = buffer(32);
    let value = 0x55667788u32;
    let inner_ref = w.archive_ref(&value).unwrap();
    assert_eq!(inner_ref, 4);
    w.align(4).unwrap();
    let outer_ref = w.resolve_aligned::<u32, usize>(&value, inner_ref).unwrap();
    assert_eq!(outer_ref, 8);
    assert_eq!(w.pos(), 12);
    let buf = w.into_inner();
    let first = RelPtr::<u32>::read(&buf, outer_ref).unwrap();
    assert_eq!(first, inner_ref);
    let second = RelPtr::<u32>::read(&buf, first).unwrap();
    assert_eq!(second, 0);
    assert_eq!(&buf[second..second + 4], &value.to_ne_bytes());
}

#[test]
fn buffer_overflow() {
    let mut w = ArchiveBuffer::new(vec![7u8; 4]);
    let r = w.write(&[1, 2, 3, 4, 5]);
    assert_eq!(r, Err(ArchiveBufferError::Overflow));
    assert_eq!(w.pos(), 0);
    assert_eq!(w.into_inner(), vec![7u8; 4]);
}

#[test]
fn buffer_overflow_at_boundary() {
    let mut w = ArchiveBuffer::new(vec![0u8; 4]);
    w.write(&[1, 2, 3]).unwrap();
    assert_eq!(w.write(&[4, 5]), Err(ArchiveBufferError::Overflow));
    assert_eq!(w.pos(), 3);
    w.write(&[4]).unwrap();
    assert_eq!(w.pos(), 4);
    assert_eq!(w.write(&[]), Ok(()));
    assert_eq!(w.write(&[9]), Err(ArchiveBufferError::Overflow));
    assert_eq!(w.into_inner(), vec![1, 2, 3, 4]);
}

#[test]
fn archive_too_large_for_buffer() {
    let mut w = buffer(4);
    let r = w.archive(&0x0102030405060708u64);
    assert!(matches!(r, Err(ArchiveError::Write(ArchiveBufferError::Overflow))));
    assert_eq!(w.pos(), 0);
}

#[test]
fn alignment_padding() {
    let mut w = ArchiveBuffer::with_pos(vec![0xFFu8; 16], 5);
    let pos = w.align_for::<u64>().unwrap();
    assert_eq!(pos, core::mem::align_of::<u64>().max(5).next_multiple_of(core::mem::align_of::<u64>()));
    let mut v = ArchiveBuffer::with_pos(vec![0xFFu8; 16], 5);
    assert_eq!(v.align(8).unwrap(), 8);
    assert_eq!(v.pos(), 8);
    let buf = v.into_inner();
    assert_eq!(&buf[0..5], &[0xFF; 5]);
    assert_eq!(&buf[5..8], &[0, 0, 0]);
    assert_eq!(&buf[8..], &[0xFF; 8]);
}

#[test]
fn align_when_already_aligned() {
    let mut w = ArchiveBuffer::with_pos(vec![0xFFu8; 16], 8);
    assert_eq!(w.align(8).unwrap(), 8);
    assert_eq!(w.align(1).unwrap(), 8);
    assert_eq!(w.into_inner(), vec![0xFFu8; 16]);
}

#[test]
fn align_pads_in_chunks() {
    let mut w = ArchiveBuffer::with_pos(vec![0xFFu8; 80], 1);
    assert_eq!(w.align(64).unwrap(), 64);
    let buf = w.into_inner();
    assert_eq!(buf[0], 0xFF);
    assert!(buf[1..64].iter().all(|b| *b == 0));
    assert!(buf[64..].iter().all(|b| *b == 0xFF));
}

#[test]
fn align_without_room() {
    let mut w = ArchiveBuffer::with_pos(vec![0u8; 6], 5);
    assert_eq!(w.align(8), Err(ArchiveBufferError::Overflow));
    assert_eq!(w.pos(), 5);
}

#[test]
fn position_advances_by_write_length() {
    let mut w = buffer(16);
    w.write(&[1, 2]).unwrap();
    assert_eq!(w.pos(), 2);
    w.write(&[3, 4, 5]).unwrap();
    assert_eq!(w.pos(), 5);
    let buf = w.into_inner();
    assert_eq!(&buf[0..5], &[1, 2, 3, 4, 5]);
}

#[test]
fn rel_ptr_offsets() {
    assert_eq!(RelPtr::<u8>::new(8, 0).offset(), -8);
    assert_eq!(RelPtr::<u8>::new(0, 8).offset(), 8);
    assert_eq!(RelPtr::<u8>::new(5, 5).offset(), 0);
    assert_eq!(RelPtr::<u8>::new(0x8000_0000, 0).offset(), i32::MIN);
    assert_eq!(RelPtr::<u8>::new(0, 0x7FFF_FFFF).offset(), i32::MAX);
}

#[test]
fn rel_ptr_image_and_read() {
    let p = RelPtr::<u32>::new(12, 4);
    assert_eq!(p.image(), (-8i32).to_ne_bytes().to_vec());
    let mut buf = vec![0u8; 16];
    buf[12..16].copy_from_slice(&p.image());
    assert_eq!(RelPtr::<u32>::read(&buf, 12), Some(4));
    assert_eq!(RelPtr::<u32>::read(&buf, 13), None);
    buf[0..4].copy_from_slice(&(-1i32).to_ne_bytes());
    assert_eq!(RelPtr::<u32>::read(&buf, 0), None);
}

#[test]
fn offset_overflow_is_reported() {
    let mut w = buffer(16);
    let r = w.resolve_aligned::<u32, usize>(&1u32, 0x1_0000_0000usize);
    assert!(matches!(r, Err(ArchiveError::OffsetOverflow)));
    assert_eq!(w.pos(), 0);
    assert_eq!(w.into_inner(), vec![0u8; 16]);
}

#[test]
fn byte_images_are_host_order() {
    assert_eq!(0x1122u16.image(), 0x1122u16.to_ne_bytes().to_vec());
    assert_eq!(0x11223344u32.image(), 0x11223344u32.to_ne_bytes().to_vec());
    assert_eq!(0x1122334455667788u64.image(), 0x1122334455667788u64.to_ne_bytes().to_vec());
    assert_eq!((-2i32).image(), (-2i32).to_ne_bytes().to_vec());
    assert_eq!((-2i64).image(), (-2i64).to_ne_bytes().to_vec());
    assert_eq!(0xABu8.image(), vec![0xAB]);
}

#[test]
fn stream_sink_counts_accepted_bytes() {
    let mut w = ArchiveWriter::new(Vec::<u8>::new());
    assert_eq!(w.pos(), 0);
    w.inner_mut().extend_from_slice(&[1, 2, 3]);
    assert_eq!(w.accept::<&str>(Ok(3)), Ok(()));
    assert_eq!(w.pos(), 3);
    assert_eq!(w.accept::<&str>(Err("broken pipe")), Err("broken pipe"));
    assert_eq!(w.pos(), 3);
    assert_eq!(w.accept::<&str>(Ok(1)), Ok(()));
    assert_eq!(w.pos(), 4);
    assert_eq!(w.into_inner(), vec![1, 2, 3]);
    let v = ArchiveWriter::with_pos(0u8, 40);
    assert_eq!(v.pos(), 40);
}

#[test]
fn tagged_alternative_with_payload() {
    let mut w = buffer(64);
    let payload = b"Help me!";
    let payload_pos = w.pos();
    w.write(payload).unwrap();
    assert_eq!(w.pos(), 8);
    let tag_pos = w.archive(&1u8).unwrap();
    assert_eq!(tag_pos, 8);
    w.align(4).unwrap();
    let ptr_pos = w.resolve_aligned::<u64, usize>(&0u64, payload_pos).unwrap();
    assert_eq!(ptr_pos, 12);
    assert_eq!(w.pos(), 16);
    let buf = w.into_inner();
    assert_eq!(buf[tag_pos], 1);
    assert_eq!(&buf[9..12], &[0, 0, 0]);
    let target = RelPtr::<u64>::read(&buf, ptr_pos).unwrap();
    assert_eq!(&buf[target..target + payload.len()], b"Help me!");
}

#[test]
fn self_archival_of_each_primitive() {
    let mut w = buffer(64);
    assert_eq!(w.archive(&0x7Fu8).unwrap(), 0);
    assert_eq!(w.archive(&-5i64).unwrap(), 8);
    assert_eq!(w.archive(&-6i32).unwrap(), 16);
    assert_eq!(w.archive(&0xBEEFu16).unwrap(), 20);
    assert_eq!(w.pos(), 22);
    let buf = w.into_inner();
    assert_eq!(buf[0], 0x7F);
    assert_eq!(&buf[1..8], &[0u8; 7]);
    assert_eq!(&buf[8..16], &(-5i64).to_ne_bytes());
    assert_eq!(&buf[16..20], &(-6i32).to_ne_bytes());
    assert_eq!(&buf[20..22], &0xBEEFu16.to_ne_bytes());
}

#[test]
fn array_buffer_sink() {
    let mut w = ArchiveBuffer::new([0u8; 16]);
    assert_eq!(w.archive(&0x11223344u32).unwrap(), 0);
    assert_eq!(w.pos(), 4);
    assert_eq!(w.write(&[0u8; 13]), Err(ArchiveBufferError::Overflow));
    assert_eq!(w.pos(), 4);
    let buf = w.into_inner();
    assert_eq!(&buf[0..4], &0x11223344u32.to_ne_bytes());
}

#[test]
fn align_from_one_to_thirty_two() {
    let mut w = ArchiveBuffer::with_pos([0xAAu8; 64], 1);
    assert_eq!(w.align(32), Ok(32));
    assert_eq!(w.pos(), 32);
    let buf = w.into_inner();
    assert_eq!(buf[0], 0xAA);
    assert!(buf[1..32].iter().all(|b| *b == 0));
    assert!(buf[32..].iter().all(|b| *b == 0xAA));
}

#[test]
fn align_refused_leaves_buffer() {
    let mut w = ArchiveBuffer::with_pos([0xAAu8; 4], 3);
    assert_eq!(w.align(8), Err(ArchiveBufferError::Overflow));
    assert_eq!(w.pos(), 3);
    assert_eq!(w.into_inner(), [0xAAu8; 4]);
}

#[test]
fn archive_overflow_leaves_buffer() {
    let mut w = ArchiveBuffer::new([0u8; 4]);
    let r = w.archive(&0x0102030405060708u64);
    assert!(matches!(r, Err(ArchiveError::Write(ArchiveBufferError::Overflow))));
    assert_eq!(w.pos(), 0);
    assert_eq!(w.into_inner(), [0u8; 4]);
}

#[test]
fn boxed_by_reference_in_sixteen_bytes() {
    let mut w = ArchiveBuffer::new([0u8; 16]);
    let value = 0xDEADBEEFCAFEBABEu64;
    let ref_pos = w.archive_ref(&value).unwrap();
    assert_eq!(ref_pos, 8);
    assert_eq!(w.pos(), 12);
    let buf = w.into_inner();
    assert_eq!(&buf[0..8], &value.to_ne_bytes());
    assert_eq!(&buf[8..12], &(-8i32).to_ne_bytes());
    assert_eq!(&buf[12..16], &[0u8; 4]);
    assert_eq!(RelPtr::<u64>::read(&buf, ref_pos), Some(0));
}
