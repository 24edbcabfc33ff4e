use vstd::prelude::*;
use crate::error::CodecError;
use crate::reader::Reader;
use crate::writer::Writer;
use crate::version::VersionContext;
use crate::lists::{ElemHook, PointerList, Serialize};
use crate::records::{AudioGroup, Script, Sprite, Timeline};
use crate::container::{RawContainer, read_raw_container, write_raw_container};

verus! {

/// The script chunk: a pointer list of script records.
#[derive(Clone, Debug, PartialEq)]
pub struct ChunkSCPT {
    pub scripts: PointerList<Script>,
}

impl ChunkSCPT {
    /// Reads the chunk body: the script pointer list at the cursor (count,
    /// offset table, then the records at their offsets).
    pub fn read_from(r: &mut Reader) -> (res: Result<ChunkSCPT, CodecError>)
        requires
            old(r).wf(),
        ensures
            final(r).wf(),
            final(r).same_source(old(r)),
            res is Ok ==> res->Ok_0.wf(),
            res is Ok ==> res->Ok_0.scripts.items@.len() as int == crate::le32_at(
                old(r).data@,
                old(r).pos as int,
            ),
            res is Ok ==> final(r).pos == old(r).pos + 4 + 4 * res->Ok_0.scripts.items@.len(),
            old(r).pos + 4 <= old(r).limit && crate::le32_at(old(r).data@, old(r).pos as int)
                == 0 ==> res is Ok && res->Ok_0.scripts.items@.len() == 0,
            res is Err ==> res->Err_0 == CodecError::TruncatedChunk || res->Err_0
                == CodecError::DanglingPointer,
    {
        let (res, _offs) = PointerList::<Script>::read_with(r);
        match res {
            Ok(scripts) => Ok(ChunkSCPT { scripts }),
            Err(e) => Err(e),
        }
    }

    /// Writes the chunk body: the script pointer list, two-pass with the
    /// offset table backfilled once the record bodies are down.
    pub fn write_to(&self, w: &mut Writer) -> (res: Result<(), CodecError>)
        requires
            self.wf(),
            old(w).wf(),
        ensures
            final(w).wf(),
            final(w).version == old(w).version,
            old(w).data@.len() <= final(w).data@.len(),
            final(w).data@.subrange(0, old(w).data@.len() as int) == old(w).data@,
            forall|i: int| 0 <= i < old(w).data@.len() ==> final(w).data@[i] == old(w).data@[i],
            old(w).open_slots@.len() <= final(w).open_slots@.len(),
            forall|j: int| 0 <= j < old(w).open_slots@.len() ==> final(w).open_slots@[j] == old(
                w,
            ).open_slots@[j],
            res is Ok ==> final(w).open_slots@ == old(w).open_slots@,
            old(w).pool@.len() <= final(w).pool@.len(),
            forall|j: int| 0 <= j < old(w).pool@.len() ==> final(w).pool@[j] == old(w).pool@[j],
            old(w).pending@.len() <= final(w).pending@.len(),
            forall|j: int| 0 <= j < old(w).pending@.len() ==> final(w).pending@[j] == old(
                w,
            ).pending@[j],
            forall|j: int| old(w).pending@.len() <= j < final(w).pending@.len()
                ==> (#[trigger] final(w).pending@[j]).0 >= old(w).data@.len(),
            res is Ok ==> crate::le32_at(final(w).data@, old(w).data@.len() as int)
                == self.scripts.items@.len(),
            res is Ok ==> final(w).data@.len() >= old(w).data@.len() + 4 + 4
                * self.scripts.items@.len(),
            res is Ok ==> forall|k: int|
                #![trigger crate::le32_at(final(w).data@, old(w).data@.len() + 4 + 4 * k)]
                0 <= k < self.scripts.items@.len()
                ==> crate::le32_at(final(w).data@, old(w).data@.len() + 4 + 4 * k) >= old(
                w,
            ).data@.len() + 4 + 4 * self.scripts.items@.len(),
            self.scripts.items@.len() == 0 ==> res is Ok && final(w).data@.len() == old(
                w,
            ).data@.len() + 4,
            res is Err ==> res->Err_0 == CodecError::OffsetOverflow,
    {
        let (res, offs) = self.scripts.write_with(w, ElemHook::NoPad);
        proof {
            if res is Ok {
                assert forall|k: int|
                    #![trigger crate::le32_at(w.data@, old(w).data@.len() + 4 + 4 * k)]
                    0 <= k < self.scripts.items@.len() implies crate::le32_at(
                    w.data@,
                    old(w).data@.len() + 4 + 4 * k,
                ) == offs@[k] as int && offs@[k] as int >= old(w).data@.len() + 4 + 4
                    * self.scripts.items@.len() by {
                    assert(0 <= k < offs@.len());
                }
            }
        }
        res
    }
}

impl Serialize for ChunkSCPT {
    type Model = Seq<<Script as Serialize>::Model>;

    open spec fn wf(&self) -> bool {
        self.scripts.wf_spec()
    }

    open spec fn model(&self) -> Seq<<Script as Serialize>::Model> {
        self.scripts.models()
    }

    fn duplicate(&self) -> (r: Self) {
        ChunkSCPT { scripts: self.scripts.duplicate() }
    }

    fn deserialize(r: &mut Reader) -> (res: Result<Self, CodecError>) {
        ChunkSCPT::read_from(r)
    }

    fn serialize(&self, w: &mut Writer) -> (res: Result<(), CodecError>) {
        self.write_to(w)
    }
}

/// The sprite chunk: a pointer list of sprite records whose bodies are
/// aligned to a four-byte boundary by the list's pre-element hook.
#[derive(Clone, Debug, PartialEq)]
pub struct ChunkSPRT {
    pub sprites: PointerList<Sprite>,
}

impl ChunkSPRT {
    /// Reads the chunk body: the sprite pointer list at the cursor (count,
    /// offset table, then the records at their offsets).
    pub fn read_from(r: &mut Reader) -> (res: Result<ChunkSPRT, CodecError>)
        requires
            old(r).wf(),
        ensures
            final(r).wf(),
            final(r).same_source(old(r)),
            res is Ok ==> res->Ok_0.wf(),
            res is Ok ==> res->Ok_0.sprites.items@.len() as int == crate::le32_at(
                old(r).data@,
                old(r).pos as int,
            ),
            res is Ok ==> final(r).pos == old(r).pos + 4 + 4 * res->Ok_0.sprites.items@.len(),
            old(r).pos + 4 <= old(r).limit && crate::le32_at(old(r).data@, old(r).pos as int)
                == 0 ==> res is Ok && res->Ok_0.sprites.items@.len() == 0,
            res is Err ==> res->Err_0 == CodecError::TruncatedChunk || res->Err_0
                == CodecError::DanglingPointer,
    {
        let (res, _offs) = PointerList::<Sprite>::read_with(r);
        match res {
            Ok(sprites) => Ok(ChunkSPRT { sprites }),
            Err(e) => Err(e),
        }
    }

    /// Writes the chunk body: the sprite pointer list, two-pass with the
    /// offset table backfilled once the record bodies are down.
    pub fn write_to(&self, w: &mut Writer) -> (res: Result<(), CodecError>)
        requires
            self.wf(),
            old(w).wf(),
        ensures
            final(w).wf(),
            final(w).version == old(w).version,
            old(w).data@.len() <= final(w).data@.len(),
            final(w).data@.subrange(0, old(w).data@.len() as int) == old(w).data@,
            forall|i: int| 0 <= i < old(w).data@.len() ==> final(w).data@[i] == old(w).data@[i],
            old(w).open_slots@.len() <= final(w).open_slots@.len(),
            forall|j: int| 0 <= j < old(w).open_slots@.len() ==> final(w).open_slots@[j] == old(
                w,
            ).open_slots@[j],
            res is Ok ==> final(w).open_slots@ == old(w).open_slots@,
            old(w).pool@.len() <= final(w).pool@.len(),
            forall|j: int| 0 <= j < old(w).pool@.len() ==> final(w).pool@[j] == old(w).pool@[j],
            old(w).pending@.len() <= final(w).pending@.len(),
            forall|j: int| 0 <= j < old(w).pending@.len() ==> final(w).pending@[j] == old(
                w,
            ).pending@[j],
            forall|j: int| old(w).pending@.len() <= j < final(w).pending@.len()
                ==> (#[trigger] final(w).pending@[j]).0 >= old(w).data@.len(),
            res is Ok ==> crate::le32_at(final(w).data@, old(w).data@.len() as int)
                == self.sprites.items@.len(),
            res is Ok ==> final(w).data@.len() >= old(w).data@.len() + 4 + 4
                * self.sprites.items@.len(),
            res is Ok ==> forall|k: int|
                #![trigger crate::le32_at(final(w).data@, old(w).data@.len() + 4 + 4 * k)]
                0 <= k < self.sprites.items@.len()
                ==> crate::le32_at(final(w).data@, old(w).data@.len() + 4 + 4 * k) >= old(
                w,
            ).data@.len() + 4 + 4 * self.sprites.items@.len(),
            res is Ok ==> forall|k: int|
                #![trigger crate::le32_at(final(w).data@, old(w).data@.len() + 4 + 4 * k)]
                0 <= k < self.sprites.items@.len()
                ==> crate::le32_at(final(w).data@, old(w).data@.len() + 4 + 4 * k) % 4 == 0,
            self.sprites.items@.len() == 0 ==> res is Ok && final(w).data@.len() == old(
                w,
            ).data@.len() + 4,
            res is Err ==> res->Err_0 == CodecError::OffsetOverflow,
    {
        let (res, offs) = self.sprites.write_with(w, ElemHook::PadTo(4));
        proof {
            if res is Ok {
                assert forall|k: int|
                    #![trigger crate::le32_at(w.data@, old(w).data@.len() + 4 + 4 * k)]
                    0 <= k < self.sprites.items@.len() implies crate::le32_at(
                    w.data@,
                    old(w).data@.len() + 4 + 4 * k,
                ) == offs@[k] as int && offs@[k] as int >= old(w).data@.len() + 4 + 4
                    * self.sprites.items@.len() by {
                    assert(0 <= k < offs@.len());
                }
            }
        }
        res
    }
}

impl Serialize for ChunkSPRT {
    type Model = Seq<<Sprite as Serialize>::Model>;

    open spec fn wf(&self) -> bool {
        self.sprites.wf_spec()
    }

    open spec fn model(&self) -> Seq<<Sprite as Serialize>::Model> {
        self.sprites.models()
    }

    fn duplicate(&self) -> (r: Self) {
        ChunkSPRT { sprites: self.sprites.duplicate() }
    }

    fn deserialize(r: &mut Reader) -> (res: Result<Self, CodecError>) {
        ChunkSPRT::read_from(r)
    }

    fn serialize(&self, w: &mut Writer) -> (res: Result<(), CodecError>) {
        self.write_to(w)
    }
}

/// The timeline chunk: a pointer list of timeline records.
#[derive(Clone, Debug, PartialEq)]
pub struct ChunkTMLN {
    pub timelines: PointerList<Timeline>,
}

impl ChunkTMLN {
    /// Reads the chunk body: the timeline pointer list at the cursor (count,
    /// offset table, then the records at their offsets).
    pub fn read_from(r: &mut Reader) -> (res: Result<ChunkTMLN, CodecError>)
        requires
            old(r).wf(),
        ensures
            final(r).wf(),
            final(r).same_source(old(r)),
            res is Ok ==> res->Ok_0.wf(),
            res is Ok ==> res->Ok_0.timelines.items@.len() as int == crate::le32_at(
                old(r).data@,
                old(r).pos as int,
            ),
            res is Ok ==> final(r).pos == old(r).pos + 4 + 4 * res->Ok_0.timelines.items@.len(),
            old(r).pos + 4 <= old(r).limit && crate::le32_at(old(r).data@, old(r).pos as int)
                == 0 ==> res is Ok && res->Ok_0.timelines.items@.len() == 0,
            res is Err ==> res->Err_0 == CodecError::TruncatedChunk || res->Err_0
                == CodecError::DanglingPointer,
    {
        let (res, _offs) = PointerList::<Timeline>::read_with(r);
        match res {
            Ok(timelines) => Ok(ChunkTMLN { timelines }),
            Err(e) => Err(e),
        }
    }

    /// Writes the chunk body: the timeline pointer list, two-pass with the
    /// offset table backfilled once the record bodies are down.
    pub fn write_to(&self, w: &mut Writer) -> (res: Result<(), CodecError>)
        requires
            self.wf(),
            old(w).wf(),
        ensures
            final(w).wf(),
            final(w).version == old(w).version,
            old(w).data@.len() <= final(w).data@.len(),
            final(w).data@.subrange(0, old(w).data@.len() as int) == old(w).data@,
            forall|i: int| 0 <= i < old(w).data@.len() ==> final(w).data@[i] == old(w).data@[i],
            old(w).open_slots@.len() <= final(w).open_slots@.len(),
            forall|j: int| 0 <= j < old(w).open_slots@.len() ==> final(w).open_slots@[j] == old(
                w,
            ).open_slots@[j],
            res is Ok ==> final(w).open_slots@ == old(w).open_slots@,
            old(w).pool@.len() <= final(w).pool@.len(),
            forall|j: int| 0 <= j < old(w).pool@.len() ==> final(w).pool@[j] == old(w).pool@[j],
            old(w).pending@.len() <= final(w).pending@.len(),
            forall|j: int| 0 <= j < old(w).pending@.len() ==> final(w).pending@[j] == old(
                w,
            ).pending@[j],
            forall|j: int| old(w).pending@.len() <= j < final(w).pending@.len()
                ==> (#[trigger] final(w).pending@[j]).0 >= old(w).data@.len(),
            res is Ok ==> crate::le32_at(final(w).data@, old(w).data@.len() as int)
                == self.timelines.items@.len(),
            res is Ok ==> final(w).data@.len() >= old(w).data@.len() + 4 + 4
                * self.timelines.items@.len(),
            res is Ok ==> forall|k: int|
                #![trigger crate::le32_at(final(w).data@, old(w).data@.len() + 4 + 4 * k)]
                0 <= k < self.timelines.items@.len()
                ==> crate::le32_at(final(w).data@, old(w).data@.len() + 4 + 4 * k) >= old(
                w,
            ).data@.len() + 4 + 4 * self.timelines.items@.len(),
            self.timelines.items@.len() == 0 ==> res is Ok && final(w).data@.len() == old(
                w,
            ).data@.len() + 4,
            res is Err ==> res->Err_0 == CodecError::OffsetOverflow,
    {
        let (res, offs) = self.timelines.write_with(w, ElemHook::NoPad);
        proof {
            if res is Ok {
                assert forall|k: int|
                    #![trigger crate::le32_at(w.data@, old(w).data@.len() + 4 + 4 * k)]
                    0 <= k < self.timelines.items@.len() implies crate::le32_at(
                    w.data@,
                    old(w).data@.len() + 4 + 4 * k,
                ) == offs@[k] as int && offs@[k] as int >= old(w).data@.len() + 4 + 4
                    * self.timelines.items@.len() by {
                    assert(0 <= k < offs@.len());
                }
            }
        }
        res
    }
}

impl Serialize for ChunkTMLN {
    type Model = Seq<<Timeline as Serialize>::Model>;

    open spec fn wf(&self) -> bool {
        self.timelines.wf_spec()
    }

    open spec fn model(&self) -> Seq<<Timeline as Serialize>::Model> {
        self.timelines.models()
    }

    fn duplicate(&self) -> (r: Self) {
        ChunkTMLN { timelines: self.timelines.duplicate() }
    }

    fn deserialize(r: &mut Reader) -> (res: Result<Self, CodecError>) {
        ChunkTMLN::read_from(r)
    }

    fn serialize(&self, w: &mut Writer) -> (res: Result<(), CodecError>) {
        self.write_to(w)
    }
}

/// The digits of `n` in decimal, most significant first, as ASCII bytes.
pub open spec fn dec_digits(n: int) -> Seq<u8>
    recommends
        n >= 0,
    decreases n,
{
    if n < 10 {
        seq![(0x30 + if n >= 0 { n } else { 0 }) as u8]
    } else {
        dec_digits(n / 10).push((0x30 + n % 10) as u8)
    }
}

/// The derived name of an auxiliary audio-group file for a 1-based
/// index.
pub open spec fn audio_group_name_spec(index: int) -> Seq<u8> {
    seq![0x61u8, 0x75u8, 0x64u8, 0x69u8, 0x6fu8, 0x67u8, 0x72u8, 0x6fu8, 0x75u8, 0x70u8]
        + dec_digits(index) + seq![0x2eu8, 0x64u8, 0x61u8, 0x74u8]
}

/// Appends the decimal digits of `n`.
fn push_digits(n: u32, out: &mut Vec<u8>)
    ensures
        final(out)@ == old(out)@ + dec_digits(n as int),
    decreases n,
{
    if n < 10 {
        out.push(0x30u8 + (n as u8));
        proof {
            assert(out@ =~= old(out)@ + dec_digits(n as int));
        }
    } else {
        push_digits(n / 10, out);
        out.push(0x30u8 + ((n % 10) as u8));
        proof {
            assert(out@ =~= old(out)@ + dec_digits(n as int));
        }
    }
}

/// The pure derivation of an auxiliary audio-group file name from its
/// index: the bytes of `audiogroup`, the decimal index, then `.dat`.
/// External callers resolve this name next to the main container's own
/// location.
pub fn audio_group_file_name(index: u32) -> (r: Vec<u8>)
    ensures
        r@ == audio_group_name_spec(index as int),
{
    let mut out: Vec<u8> = Vec::new();
    out.push(0x61u8);
    out.push(0x75u8);
    out.push(0x64u8);
    out.push(0x69u8);
    out.push(0x6fu8);
    out.push(0x67u8);
    out.push(0x72u8);
    out.push(0x6fu8);
    out.push(0x75u8);
    out.push(0x70u8);
    push_digits(index, &mut out);
    out.push(0x2eu8);
    out.push(0x64u8);
    out.push(0x61u8);
    out.push(0x74u8);
    proof {
        assert(out@ =~= audio_group_name_spec(index as int));
    }
    out
}

/// The audio group chunk: a pointer list of audio group records, plus
/// the auxiliary sibling containers attached by index.  The metadata
/// list is what the chunk body stores; the auxiliary data is attached
/// from the sibling files' bytes and regenerated to them.
#[derive(Clone, Debug, PartialEq)]
pub struct ChunkAGRP {
    pub audio_groups: PointerList<AudioGroup>,
    pub audio_data: Vec<(u32, RawContainer)>,
}

impl ChunkAGRP {
    /// Reads the chunk body: the audio group pointer list at the cursor (count,
    /// offset table, then the records at their offsets).
    pub fn read_from(r: &mut Reader) -> (res: Result<ChunkAGRP, CodecError>)
        requires
            old(r).wf(),
        ensures
            final(r).wf(),
            final(r).same_source(old(r)),
            res is Ok ==> res->Ok_0.wf(),
            res is Ok ==> res->Ok_0.audio_groups.items@.len() as int == crate::le32_at(
                old(r).data@,
                old(r).pos as int,
            ),
            res is Ok ==> final(r).pos == old(r).pos + 4 + 4 * res->Ok_0.audio_groups.items@.len(),
            old(r).pos + 4 <= old(r).limit && crate::le32_at(old(r).data@, old(r).pos as int)
                == 0 ==> res is Ok && res->Ok_0.audio_groups.items@.len() == 0,
            res is Err ==> res->Err_0 == CodecError::TruncatedChunk || res->Err_0
                == CodecError::DanglingPointer,
            res is Ok ==> res->Ok_0.audio_data@.len() == 0,
    {
        let (res, _offs) = PointerList::<AudioGroup>::read_with(r);
        match res {
            Ok(audio_groups) => Ok(ChunkAGRP { audio_groups, audio_data: Vec::new() }),
            Err(e) => Err(e),
        }
    }

    /// Writes the chunk body: the audio group pointer list, two-pass with the
    /// offset table backfilled once the record bodies are down.
    pub fn write_to(&self, w: &mut Writer) -> (res: Result<(), CodecError>)
        requires
            self.wf(),
            old(w).wf(),
        ensures
            final(w).wf(),
            final(w).version == old(w).version,
            old(w).data@.len() <= final(w).data@.len(),
            final(w).data@.subrange(0, old(w).data@.len() as int) == old(w).data@,
            forall|i: int| 0 <= i < old(w).data@.len() ==> final(w).data@[i] == old(w).data@[i],
            old(w).open_slots@.len() <= final(w).open_slots@.len(),
            forall|j: int| 0 <= j < old(w).open_slots@.len() ==> final(w).open_slots@[j] == old(
                w,
            ).open_slots@[j],
            res is Ok ==> final(w).open_slots@ == old(w).open_slots@,
            old(w).pool@.len() <= final(w).pool@.len(),
            forall|j: int| 0 <= j < old(w).pool@.len() ==> final(w).pool@[j] == old(w).pool@[j],
            old(w).pending@.len() <= final(w).pending@.len(),
            forall|j: int| 0 <= j < old(w).pending@.len() ==> final(w).pending@[j] == old(
                w,
            ).pending@[j],
            forall|j: int| old(w).pending@.len() <= j < final(w).pending@.len()
                ==> (#[trigger] final(w).pending@[j]).0 >= old(w).data@.len(),
            res is Ok ==> crate::le32_at(final(w).data@, old(w).data@.len() as int)
                == self.audio_groups.items@.len(),
            res is Ok ==> final(w).data@.len() >= old(w).data@.len() + 4 + 4
                * self.audio_groups.items@.len(),
            res is Ok ==> forall|k: int|
                #![trigger crate::le32_at(final(w).data@, old(w).data@.len() + 4 + 4 * k)]
                0 <= k < self.audio_groups.items@.len()
                ==> crate::le32_at(final(w).data@, old(w).data@.len() + 4 + 4 * k) >= old(
                w,
            ).data@.len() + 4 + 4 * self.audio_groups.items@.len(),
            self.audio_groups.items@.len() == 0 ==> res is Ok && final(w).data@.len() == old(
                w,
            ).data@.len() + 4,
            res is Err ==> res->Err_0 == CodecError::OffsetOverflow,
    {
        let (res, offs) = self.audio_groups.write_with(w, ElemHook::NoPad);
        proof {
            if res is Ok {
                assert forall|k: int|
                    #![trigger crate::le32_at(w.data@, old(w).data@.len() + 4 + 4 * k)]
                    0 <= k < self.audio_groups.items@.len() implies crate::le32_at(
                    w.data@,
                    old(w).data@.len() + 4 + 4 * k,
                ) == offs@[k] as int && offs@[k] as int >= old(w).data@.len() + 4 + 4
                    * self.audio_groups.items@.len() by {
                    assert(0 <= k < offs@.len());
                }
            }
        }
        res
    }
}

impl ChunkAGRP {
    /// Attaches the decoded auxiliary container for one 1-based group
    /// index, handed the sibling file's bytes.  A missing file surfaces
    /// `AuxiliaryFileMissing` and leaves every attached group and the
    /// metadata already read untouched.
    pub fn attach_audio_data(&mut self, index: u32, bytes: Option<Vec<u8>>, version: VersionContext)
        -> (res: Result<(), CodecError>)
        requires
            old(self).wf(),
            forall|j: int| 0 <= j < old(self).audio_data@.len() ==> (#[trigger] old(
                self,
            ).audio_data@[j]).0 != index,
        ensures
            final(self).wf(),
            final(self).audio_groups == old(self).audio_groups,
            bytes is None ==> res is Err && res->Err_0 == CodecError::AuxiliaryFileMissing,
            bytes is Some ==> (res is Ok <==> crate::container::raw_parse_ok(
                bytes->0@,
                0,
                bytes->0@.len() as int,
                version,
            )),
            bytes is Some && res is Err ==> res->Err_0 == CodecError::TruncatedChunk,
            res is Ok ==> crate::container::is_raw_decode_of(
                final(self).audio_data@[old(self).audio_data@.len() as int].1,
                bytes->0@,
                version,
            ),
            res is Err ==> final(self).audio_data@ == old(self).audio_data@,
            res is Ok ==> final(self).audio_data@.len() == old(self).audio_data@.len() + 1,
            res is Ok ==> final(self).audio_data@[old(self).audio_data@.len() as int].0 == index,
            res is Ok ==> forall|j: int| 0 <= j < old(self).audio_data@.len()
                ==> final(self).audio_data@[j] == old(self).audio_data@[j],
    {
        let data = match bytes {
            Some(v) => v,
            None => {
                return Err(CodecError::AuxiliaryFileMissing);
            },
        };
        let mut rd = Reader::new(data, version);
        let (cres, lay) = read_raw_container(&mut rd);
        let c = match cres {
            Ok(c) => c,
            Err(e) => {
                return Err(e);
            },
        };
        proof {
            assert(crate::container::chained(lay@, version, 0, bytes->0@.len() as int));
            assert(crate::container::is_raw_decode_of(c, bytes->0@, version));
        }
        self.audio_data.push((index, c));
        Ok(())
    }

    /// Regenerates the sibling file bytes for one attached group index
    /// by fully re-encoding the decoded auxiliary container.  An index
    /// with no attached container surfaces `AuxiliaryFileMissing`.
    #[verifier::loop_isolation(false)]
    pub fn audio_file_bytes(&self, index: u32, version: VersionContext) -> (res: Result<
        Vec<u8>,
        CodecError,
    >)
        requires
            self.wf(),
        ensures
            (forall|j: int| 0 <= j < self.audio_data@.len() ==> (#[trigger] self.audio_data@[j]).0
                != index) ==> res is Err && res->Err_0 == CodecError::AuxiliaryFileMissing,
            res is Err ==> res->Err_0 == CodecError::AuxiliaryFileMissing || res->Err_0
                == CodecError::OffsetOverflow,
            forall|j: int|
                0 <= j < self.audio_data@.len() && (#[trigger] self.audio_data@[j]).0 == index && (
                forall|k: int| 0 <= k < self.audio_data@[j].1.chunks@.len()
                    ==> (#[trigger] self.audio_data@[j].1.chunks@[k]).body@.len() <= 0xffffffff)
                    ==> res is Ok,
            res is Ok ==> forall|j: int|
                0 <= j < self.audio_data@.len() && (#[trigger] self.audio_data@[j]).0 == index
                    ==> crate::container::is_raw_decode_of(
                    self.audio_data@[j].1,
                    res->Ok_0@,
                    version,
                ),
    {
        let n = self.audio_data.len();
        let mut i: usize = 0;
        while i < n
            invariant
                i <= n,
                n == self.audio_data@.len(),
                forall|j: int| 0 <= j < i ==> (#[trigger] self.audio_data@[j]).0 != index,
            decreases n - i,
        {
            if self.audio_data[i].0 == index {
                let mut w = Writer::new(version);
                let (res0, lay) = write_raw_container(&self.audio_data[i].1, &mut w);
                match res0 {
                    Ok(()) => (),
                    Err(e) => {
                        return Err(e);
                    },
                }
                let out = match w.finish() {
                    Ok(b) => b,
                    Err(_) => {
                        proof {
                            assert(false);
                        }
                        return Err(CodecError::OffsetOverflow);
                    },
                };
                proof {
                    assert(crate::container::chained(lay@, version, 0, out@.len() as int));
                    assert(crate::container::is_raw_decode_of(
                        self.audio_data@[i as int].1,
                        out@,
                        version,
                    ));
                    assert forall|j: int|
                        0 <= j < self.audio_data@.len() && (#[trigger] self.audio_data@[j]).0
                            == index implies crate::container::is_raw_decode_of(
                        self.audio_data@[j].1,
                        out@,
                        version,
                    ) by {
                        if j != i as int {
                            assert(self.audio_data@[j].0 != self.audio_data@[i as int].0);
                        }
                    }
                }
                return Ok(out);
            }
            i = i + 1;
        }
        Err(CodecError::AuxiliaryFileMissing)
    }
}

impl Serialize for ChunkAGRP {
    type Model = (Seq<<AudioGroup as Serialize>::Model>, Seq<(int, Seq<(int, Seq<u8>)>)>);

    open spec fn wf(&self) -> bool {
        &&& self.audio_groups.wf_spec()
        &&& forall|j: int, k: int| 0 <= j < k < self.audio_data@.len()
            ==> self.audio_data@[j].0 != self.audio_data@[k].0
    }

    open spec fn model(&self) -> <ChunkAGRP as Serialize>::Model {
        (
            self.audio_groups.models(),
            self.audio_data@.map(|i: int, e: (u32, RawContainer)| (e.0 as int, e.1.model())),
        )
    }

    #[verifier::loop_isolation(false)]
    fn duplicate(&self) -> (r: Self) {
        let mut audio_data: Vec<(u32, RawContainer)> = Vec::new();
        let n = self.audio_data.len();
        let mut i: usize = 0;
        while i < n
            invariant
                i <= n,
                n == self.audio_data@.len(),
                audio_data@.len() == i,
                forall|t: int| 0 <= t < i ==> (#[trigger] audio_data@[t]).0
                    == self.audio_data@[t].0 && audio_data@[t].1.model()
                    == self.audio_data@[t].1.model(),
            decreases n - i,
        {
            let entry = (self.audio_data[i].0, self.audio_data[i].1.duplicate());
            audio_data.push(entry);
            i = i + 1;
        }
        let r = ChunkAGRP { audio_groups: self.audio_groups.duplicate(), audio_data };
        proof {
            assert(r.model().0 =~= self.model().0);
            assert(r.model().1 =~= self.model().1);
        }
        r
    }

    fn deserialize(r: &mut Reader) -> (res: Result<Self, CodecError>) {
        ChunkAGRP::read_from(r)
    }

    fn serialize(&self, w: &mut Writer) -> (res: Result<(), CodecError>) {
        self.write_to(w)
    }
}

} // verus!
