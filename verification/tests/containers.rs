use gmcodec::chunks::{audio_group_file_name, ChunkAGRP, ChunkSCPT, ChunkSPRT, ChunkTMLN};
use gmcodec::container::{
    read_container, write_container, write_raw_container, Chunk, ChunkBody, Container, RawChunk,
    RawContainer, TAG_AGRP, TAG_SCPT, TAG_SPRT, TAG_TMLN,
};
use gmcodec::error::CodecError;
use gmcodec::lists::{PointerList, Serialize};
use gmcodec::reader::Reader;
use gmcodec::records::{
    AudioGroup, Constant, Extension, ExtensionFile, ExtensionFunction, ExtensionOption,
    ExtensionValueType, Script, Sprite, Timeline, EXTENSION_KIND_GML, EXTENSION_VALUE_DOUBLE,
    OPTION_KIND_DOUBLE,
};
use gmcodec::version::VersionContext;
use gmcodec::writer::Writer;

fn v(year: u32, month: u32, build: u32, revision: u32) -> VersionContext {
    VersionContext { year, month, build, revision }
}

fn scripts(entries: &[(&[u8], i32)]) -> PointerList<Script> {
    let mut l = PointerList::new();
    for (name, id) in entries {
        l.push(Script { name: name.to_vec(), id: *id });
    }
    l
}

fn sample_container() -> Container {
    let mut timelines = PointerList::new();
    timelines.push(Timeline { name: vec![0x74, 0x31] });
    Container {
        chunks: vec![
            Chunk {
                tag: TAG_SCPT,
                body: ChunkBody::Scpt(ChunkSCPT {
                    scripts: scripts(&[(b"alpha", 3), (b"beta", -1)]),
                }),
            },
            Chunk { tag: TAG_TMLN, body: ChunkBody::Tmln(ChunkTMLN { timelines }) },
            Chunk { tag: 0x58585858, body: ChunkBody::Raw(vec![9, 8, 7]) },
        ],
    }
}

#[test]
fn container_round_trip_unpadded() {
    let ver = v(2021, 9, 0, 0);
    let c = sample_container();
    let mut w = Writer::new(ver);
    let (res, _) = write_container(&c, &mut w);
    res.unwrap();
    let bytes = w.finish().unwrap();
    let mut r = Reader::new(bytes, ver);
    let (got, _) = read_container(&mut r);
    assert_eq!(got.unwrap(), c);
}

#[test]
fn container_round_trip_padded() {
    let ver = v(2022, 3, 0, 0);
    let c = sample_container();
    let mut w = Writer::new(ver);
    let (res, _) = write_container(&c, &mut w);
    res.unwrap();
    let bytes = w.finish().unwrap();
    assert_eq!(bytes.len() % 16, 0);
    let mut r = Reader::new(bytes, ver);
    let (got, _) = read_container(&mut r);
    assert_eq!(got.unwrap(), c);
}

#[test]
fn container_second_pass_is_byte_identical() {
    let ver = v(2022, 3, 0, 0);
    let c = sample_container();
    let mut w = Writer::new(ver);
    write_container(&c, &mut w).0.unwrap();
    let bytes = w.finish().unwrap();
    let mut r = Reader::new(bytes.clone(), ver);
    let (got, _) = read_container(&mut r);
    let mut w2 = Writer::new(ver);
    write_container(&got.unwrap(), &mut w2).0.unwrap();
    assert_eq!(w2.finish().unwrap(), bytes);
}

#[test]
fn chunk_framing_sum_matches_advance() {
    let ver = v(2022, 3, 0, 0);
    let c = sample_container();
    let mut w = Writer::new(ver);
    write_container(&c, &mut w).0.unwrap();
    let bytes = w.finish().unwrap();
    // Walk the headers: 8 + declared length + inter-chunk padding per
    // chunk must account for every byte of the stream.
    let mut pos = 0usize;
    let mut sum = 0usize;
    let mut seen = 0usize;
    while pos < bytes.len() {
        let len = u32::from_le_bytes([bytes[pos + 4], bytes[pos + 5], bytes[pos + 6], bytes[pos + 7]]) as usize;
        let body_end = pos + 8 + len;
        let pad = (16 - body_end % 16) % 16;
        sum += 8 + len + pad;
        pos = body_end + pad;
        seen += 1;
    }
    assert_eq!(seen, 3);
    assert_eq!(sum, bytes.len());
}

#[test]
fn sprite_table_offsets_are_aligned() {
    let ver = v(2021, 9, 0, 0);
    let mut sprites = PointerList::new();
    sprites.push(Sprite { name: vec![0x61], width: 3, height: 5 });
    sprites.push(Sprite { name: vec![0x62, 0x63], width: 1, height: 1 });
    sprites.push(Sprite { name: vec![0x64], width: 9, height: 2 });
    let chunk = ChunkSPRT { sprites };
    let mut w = Writer::new(ver);
    chunk.serialize(&mut w).unwrap();
    let (flushed, _) = w.flush_strings();
    flushed.unwrap();
    let bytes = w.finish().unwrap();
    let count =
        u32::from_le_bytes([bytes[0], bytes[1], bytes[2], bytes[3]]) as usize;
    assert_eq!(count, 3);
    for k in 0..count {
        let at = 4 + 4 * k;
        let off = u32::from_le_bytes([bytes[at], bytes[at + 1], bytes[at + 2], bytes[at + 3]]);
        assert_eq!(off % 4, 0, "element start must sit on the alignment");
    }
}

fn sample_extension() -> Extension {
    let mut functions = PointerList::new();
    functions.push(ExtensionFunction {
        name: b"fn_a".to_vec(),
        id: 4,
        kind: 11,
        return_type: ExtensionValueType { bits: EXTENSION_VALUE_DOUBLE },
        external_name: b"ext_a".to_vec(),
        argument_types: vec![ExtensionValueType { bits: 1 }, ExtensionValueType { bits: 2 }],
    });
    let mut files = PointerList::new();
    files.push(ExtensionFile {
        filename: b"lib.dll".to_vec(),
        final_function: b"done".to_vec(),
        initial_function: b"init".to_vec(),
        kind: gmcodec::records::ExtensionKind { bits: EXTENSION_KIND_GML },
        functions,
    });
    let mut options = PointerList::new();
    options.push(ExtensionOption {
        name: b"opt".to_vec(),
        value: b"3".to_vec(),
        kind: gmcodec::records::OptionKind { bits: OPTION_KIND_DOUBLE },
    });
    Extension {
        folder_name: b"folder".to_vec(),
        name: b"myext".to_vec(),
        version: b"1.2".to_vec(),
        class_name: b"cls".to_vec(),
        files,
        options,
        guid: None,
    }
}

fn extension_round_trip(ver: VersionContext) -> Extension {
    let ext = sample_extension();
    let mut w = Writer::new(ver);
    ext.write(&mut w).unwrap();
    let (flushed, _) = w.flush_strings();
    flushed.unwrap();
    let bytes = w.finish().unwrap();
    let mut r = Reader::new(bytes, ver);
    Extension::read(&mut r).unwrap()
}

#[test]
fn version_gate_keeps_fields_at_new_revision() {
    let got = extension_round_trip(v(2023, 4, 0, 0));
    let ext = sample_extension();
    assert_eq!(got, ext);
}

#[test]
fn version_gate_drops_fields_at_old_revision() {
    let got = extension_round_trip(v(2022, 5, 0, 0));
    let ext = sample_extension();
    // The version string and the options exist only at newer revisions;
    // everything else survives unchanged.
    assert_eq!(got.version, Vec::<u8>::new());
    assert_eq!(got.options.len(), 0);
    assert_eq!(got.folder_name, ext.folder_name);
    assert_eq!(got.name, ext.name);
    assert_eq!(got.class_name, ext.class_name);
    assert_eq!(got.files, ext.files);
    assert_eq!(got.guid, None);
}

#[test]
fn version_gate_middle_revision_keeps_options_only() {
    let got = extension_round_trip(v(2022, 6, 0, 0));
    let ext = sample_extension();
    assert_eq!(got.version, Vec::<u8>::new());
    assert_eq!(got.options, ext.options);
    assert_eq!(got.files, ext.files);
}

#[test]
fn extension_function_layout_and_round_trip() {
    let ver = v(2022, 5, 0, 0);
    let f = ExtensionFunction {
        name: b"fn_a".to_vec(),
        id: -7,
        kind: 11,
        return_type: ExtensionValueType { bits: 0x7f },
        external_name: b"ext_a".to_vec(),
        argument_types: vec![ExtensionValueType { bits: 1 }, ExtensionValueType { bits: -3 }],
    };
    let mut w = Writer::new(ver);
    f.write_to(&mut w);
    let (flushed, _) = w.flush_strings();
    flushed.unwrap();
    let bytes = w.finish().unwrap();
    // Fixed layout: two string slots, four integers, the count, then one
    // integer per argument type: 24 + 4n inline bytes.
    assert_eq!(i32::from_le_bytes([bytes[4], bytes[5], bytes[6], bytes[7]]), -7);
    assert_eq!(i32::from_le_bytes([bytes[8], bytes[9], bytes[10], bytes[11]]), 11);
    assert_eq!(i32::from_le_bytes([bytes[12], bytes[13], bytes[14], bytes[15]]), 0x7f);
    assert_eq!(u32::from_le_bytes([bytes[20], bytes[21], bytes[22], bytes[23]]), 2);
    assert_eq!(i32::from_le_bytes([bytes[24], bytes[25], bytes[26], bytes[27]]), 1);
    assert_eq!(i32::from_le_bytes([bytes[28], bytes[29], bytes[30], bytes[31]]), -3);
    let mut r = Reader::new(bytes, ver);
    let got = ExtensionFunction::read_from(&mut r).unwrap();
    assert_eq!(got, f);
    assert_eq!(r.tell(), 32);
}

#[test]
fn constant_round_trip_law_holds_on_a_value() {
    let c = Constant { name: b"gravity".to_vec(), value: b"9".to_vec() };
    let got = gmcodec::laws::constant_round_trip(&c, v(2022, 5, 0, 0)).unwrap();
    assert_eq!(got, c);
}

#[test]
fn error_descriptions_are_stable() {
    assert_eq!(CodecError::TruncatedChunk.describe(), "truncated chunk");
    assert_eq!(CodecError::AuxiliaryFileMissing.describe(), "auxiliary file missing");
}

#[test]
fn constant_round_trip() {
    let c = Constant { name: b"speed".to_vec(), value: b"10".to_vec() };
    let ver = v(2022, 5, 0, 0);
    let mut w = Writer::new(ver);
    c.serialize(&mut w).unwrap();
    let (flushed, _) = w.flush_strings();
    flushed.unwrap();
    let bytes = w.finish().unwrap();
    let mut r = Reader::new(bytes, ver);
    assert_eq!(Constant::deserialize(&mut r).unwrap(), c);
}

fn aux_bytes(tag: u32, payload: &[u8], ver: VersionContext) -> Vec<u8> {
    let aux = RawContainer { chunks: vec![RawChunk { tag, body: payload.to_vec() }] };
    let mut w = Writer::new(ver);
    write_raw_container(&aux, &mut w).0.unwrap();
    w.finish().unwrap()
}

#[test]
fn auxiliary_recursion_and_missing_file() {
    let ver = v(2022, 3, 0, 0);
    let mut groups = PointerList::new();
    groups.push(AudioGroup { name: b"g0".to_vec() });
    groups.push(AudioGroup { name: b"g1".to_vec() });
    groups.push(AudioGroup { name: b"g2".to_vec() });
    groups.push(AudioGroup { name: b"g3".to_vec() });
    let mut agrp = ChunkAGRP { audio_groups: groups, audio_data: Vec::new() };
    let one = aux_bytes(0x4f445541, &[1, 1, 1], ver);
    let three = aux_bytes(0x4f445541, &[3, 3], ver);
    agrp.attach_audio_data(1, Some(one.clone()), ver).unwrap();
    assert_eq!(
        agrp.attach_audio_data(2, None, ver),
        Err(CodecError::AuxiliaryFileMissing)
    );
    agrp.attach_audio_data(3, Some(three.clone()), ver).unwrap();
    // The missing middle file corrupts nothing already read or attached.
    assert_eq!(agrp.audio_groups.len(), 4);
    assert_eq!(agrp.audio_data.len(), 2);
    assert_eq!(agrp.audio_data[0].0, 1);
    assert_eq!(agrp.audio_data[1].0, 3);
    assert_eq!(agrp.audio_data[0].1.chunks[0].body, vec![1, 1, 1]);
    // Regeneration reproduces the sibling bytes; an unattached index is
    // a missing auxiliary file.
    assert_eq!(agrp.audio_file_bytes(1, ver).unwrap(), one);
    assert_eq!(agrp.audio_file_bytes(3, ver).unwrap(), three);
    assert_eq!(agrp.audio_file_bytes(2, ver), Err(CodecError::AuxiliaryFileMissing));
}

#[test]
fn attach_rejects_malformed_sibling_bytes() {
    let ver = v(2022, 3, 0, 0);
    let mut groups = PointerList::new();
    groups.push(AudioGroup { name: b"g0".to_vec() });
    let mut agrp = ChunkAGRP { audio_groups: groups, audio_data: Vec::new() };
    // A truncated header cannot parse as a container.
    let res = agrp.attach_audio_data(1, Some(vec![1, 2, 3]), ver);
    assert_eq!(res, Err(CodecError::TruncatedChunk));
    assert_eq!(agrp.audio_data.len(), 0);
}

#[test]
fn agrp_round_trip_in_container() {
    let ver = v(2021, 9, 0, 0);
    let mut groups = PointerList::new();
    groups.push(AudioGroup { name: b"music".to_vec() });
    let c = Container {
        chunks: vec![Chunk {
            tag: TAG_AGRP,
            body: ChunkBody::Agrp(ChunkAGRP { audio_groups: groups, audio_data: Vec::new() }),
        }],
    };
    let mut w = Writer::new(ver);
    write_container(&c, &mut w).0.unwrap();
    let bytes = w.finish().unwrap();
    let mut r = Reader::new(bytes, ver);
    let (got, _) = read_container(&mut r);
    assert_eq!(got.unwrap(), c);
}

#[test]
fn audio_group_file_names() {
    assert_eq!(audio_group_file_name(1), b"audiogroup1.dat".to_vec());
    assert_eq!(audio_group_file_name(12), b"audiogroup12.dat".to_vec());
    assert_eq!(audio_group_file_name(120), b"audiogroup120.dat".to_vec());
}

#[test]
fn record_defaults() {
    let f = ExtensionFile::default();
    assert_eq!(f.kind.bits, EXTENSION_KIND_GML);
    assert_eq!(f.functions.len(), 0);
    let func = ExtensionFunction::default();
    assert_eq!(func.return_type.bits, EXTENSION_VALUE_DOUBLE);
    let o = ExtensionOption::default();
    assert_eq!(o.kind.bits, OPTION_KIND_DOUBLE);
    let e = Extension::default();
    assert_eq!(e.guid, None);
    let l: PointerList<Script> = PointerList::default();
    assert_eq!(l.len(), 0);
    let _ = ChunkSPRT { sprites: PointerList::default() };
    let _ = TAG_SCPT;
    let _ = TAG_SPRT;
}
