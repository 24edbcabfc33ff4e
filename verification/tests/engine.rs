use gmcodec::error::CodecError;
use gmcodec::lists::{ElemHook, PointerList, Serialize};
use gmcodec::reader::Reader;
use gmcodec::records::Script;
use gmcodec::version::VersionContext;
use gmcodec::writer::Writer;

fn v(year: u32, month: u32, build: u32, revision: u32) -> VersionContext {
    VersionContext { year, month, build, revision }
}

#[test]
fn version_lexicographic() {
    let c = v(2022, 6, 0, 0);
    assert!(c.is_version_at_least(2022, 6, 0, 0));
    assert!(c.is_version_at_least(2022, 5, 9, 9));
    assert!(c.is_version_at_least(2021, 12, 5, 5));
    assert!(!c.is_version_at_least(2022, 7, 0, 0));
    assert!(!c.is_version_at_least(2023, 0, 0, 0));
    assert!(!c.is_version_at_least(2022, 6, 0, 1));
}

#[test]
fn version_from_tuple_rejects_zero_year() {
    assert_eq!(VersionContext::from_tuple(0, 1, 2, 3), Err(CodecError::UnsupportedVersion));
    assert_eq!(
        VersionContext::from_tuple(2022, 6, 0, 0),
        Ok(v(2022, 6, 0, 0))
    );
}

#[test]
fn version_raise_never_lowers() {
    let mut c = v(2022, 3, 0, 0);
    c.raise_to(2022, 6, 0, 0);
    assert_eq!(c, v(2022, 6, 0, 0));
    c.raise_to(2021, 1, 0, 0);
    assert_eq!(c, v(2022, 6, 0, 0));
}

#[test]
fn primitive_round_trip() {
    let mut w = Writer::new(v(2022, 5, 0, 0));
    w.write_u32(0x12345678);
    w.write_i32(-5);
    let bytes = w.finish().unwrap();
    assert_eq!(bytes[0..4], [0x78, 0x56, 0x34, 0x12]);
    let mut r = Reader::new(bytes, v(2022, 5, 0, 0));
    assert_eq!(r.read_u32(), Ok(0x12345678));
    assert_eq!(r.read_i32(), Ok(-5));
}

#[test]
fn pointer_string_pool_dedup() {
    let mut w = Writer::new(v(2022, 5, 0, 0));
    let s = vec![0x61u8, 0x62, 0x63];
    w.write_pointer_string(&s);
    w.write_pointer_string(&s);
    let (flushed, _) = w.flush_strings();
    flushed.unwrap();
    let bytes = w.finish().unwrap();
    // Two placeholders backfilled with the same offset, one pool entry.
    assert_eq!(bytes.len(), 12);
    assert_eq!(bytes[0..4], bytes[4..8]);
    assert_eq!(bytes[0..4], [8, 0, 0, 0]);
    assert_eq!(&bytes[8..12], &[0x61, 0x62, 0x63, 0]);
}

#[test]
fn pointer_string_offset_keyed_read() {
    // Two slots referencing offset 8, where "hi\0" is stored.
    let data = vec![8u8, 0, 0, 0, 8, 0, 0, 0, 0x68, 0x69, 0];
    let mut r = Reader::new(data, v(2022, 5, 0, 0));
    let a = r.read_pointer_string().unwrap();
    let b = r.read_pointer_string().unwrap();
    assert_eq!(a, vec![0x68, 0x69]);
    assert_eq!(a, b);
}

#[test]
fn truncated_chunk_error() {
    let mut r = Reader::new(vec![1u8, 2], v(2022, 5, 0, 0));
    assert_eq!(r.read_u32(), Err(CodecError::TruncatedChunk));
}

#[test]
fn dangling_pointer_error() {
    // The pointer's target offset lies beyond the file.
    let mut r = Reader::new(vec![0xffu8, 0, 0, 0], v(2022, 5, 0, 0));
    assert_eq!(r.read_pointer_string(), Err(CodecError::DanglingPointer));
    // A string with no terminator before the end of the file dangles too.
    let mut r2 = Reader::new(vec![4u8, 0, 0, 0, 0x61, 0x62], v(2022, 5, 0, 0));
    assert_eq!(r2.read_pointer_string(), Err(CodecError::DanglingPointer));
}

#[test]
fn unbackfilled_placeholder_error() {
    let mut w = Writer::new(v(2022, 5, 0, 0));
    let _slot = w.reserve_u32();
    assert_eq!(w.finish(), Err(CodecError::UnbackfilledPlaceholder));
}

#[test]
fn backfill_closes_slot() {
    let mut w = Writer::new(v(2022, 5, 0, 0));
    let slot = w.reserve_u32();
    w.write_u32(7);
    w.backfill_u32(slot, 0xaabbccdd);
    let bytes = w.finish().unwrap();
    assert_eq!(&bytes[0..4], &[0xdd, 0xcc, 0xbb, 0xaa]);
    assert_eq!(&bytes[4..8], &[7, 0, 0, 0]);
}

#[test]
fn empty_list_exact_bytes() {
    let list: PointerList<Script> = PointerList::new();
    let mut w = Writer::new(v(2022, 5, 0, 0));
    let (res, _) = list.write_with(&mut w, ElemHook::NoPad);
    res.unwrap();
    let bytes = w.finish().unwrap();
    assert_eq!(bytes, vec![0u8, 0, 0, 0]);
    let mut r = Reader::new(bytes, v(2022, 5, 0, 0));
    let (got, _) = PointerList::<Script>::read_with(&mut r);
    let got = got.unwrap();
    assert_eq!(got.len(), 0);
    assert_eq!(r.tell(), 4);
}

#[test]
fn script_list_round_trip() {
    let mut list: PointerList<Script> = PointerList::new();
    list.push(Script { name: vec![0x61, 0x61], id: 1 });
    list.push(Script { name: vec![0x62], id: -2 });
    let mut w = Writer::new(v(2022, 5, 0, 0));
    let (res, _) = list.write_with(&mut w, ElemHook::NoPad);
    res.unwrap();
    let (flushed, _) = w.flush_strings();
    flushed.unwrap();
    let bytes = w.finish().unwrap();
    let mut r = Reader::new(bytes, v(2022, 5, 0, 0));
    let (got, _) = PointerList::<Script>::read_with(&mut r);
    assert_eq!(got.unwrap(), list);
}

#[test]
fn shared_offset_slots_share_one_record() {
    // count = 2, both table slots reference offset 12, where one script
    // body (name pointer 20, id 7) lies; the name bytes at 20.
    let data = vec![
        2u8, 0, 0, 0, 12, 0, 0, 0, 12, 0, 0, 0, 20, 0, 0, 0, 7, 0, 0, 0, 0x73, 0,
    ];
    let mut r = Reader::new(data, v(2022, 5, 0, 0));
    let (got, _) = PointerList::<Script>::read_with(&mut r);
    let got = got.unwrap();
    assert_eq!(got.len(), 2);
    assert_eq!(got.items[0], got.items[1]);
    assert_eq!(got.items[0], Script { name: vec![0x73], id: 7 });
}

#[test]
fn byte_primitives() {
    let mut w = Writer::new(v(2022, 5, 0, 0));
    w.write_u8(0x41);
    w.write_u8(0);
    let bytes = w.finish().unwrap();
    assert_eq!(bytes, vec![0x41, 0]);
    let mut r = Reader::new(bytes, v(2022, 5, 0, 0));
    assert_eq!(r.read_u8(), Ok(0x41));
    let n = r.read_bytes(1).unwrap();
    assert_eq!(n, vec![0]);
    assert_eq!(r.read_u8(), Err(CodecError::TruncatedChunk));
}

#[test]
fn pad_reaches_alignment() {
    let mut w = Writer::new(v(2022, 5, 0, 0));
    w.write_u8(1);
    w.pad(8);
    assert_eq!(w.tell(), 8);
    let bytes = w.finish().unwrap();
    assert_eq!(bytes, vec![1, 0, 0, 0, 0, 0, 0, 0]);
}

#[test]
fn duplicate_preserves_value() {
    let s = Script { name: vec![1, 2, 3], id: 9 };
    let d = s.duplicate();
    assert_eq!(s, d);
}
