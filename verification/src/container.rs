use vstd::prelude::*;
use crate::error::CodecError;
use crate::reader::Reader;
use crate::writer::Writer;
use crate::version::VersionContext;
use crate::chunks::{ChunkAGRP, ChunkSCPT, ChunkSPRT, ChunkTMLN};
use crate::lists::Serialize;
use crate::{le32, pad_needed};

verus! {

// Chunk tags, as the little-endian value of their four ASCII bytes.
pub const TAG_SCPT: u32 = 0x54504353;

pub const TAG_SPRT: u32 = 0x54525053;

pub const TAG_TMLN: u32 = 0x4e4c4d54;

pub const TAG_AGRP: u32 = 0x50524741;

/// Chunks written at or after edition 2022.3.0.0 are padded to a 16-byte
/// boundary; before that they are written back to back.
pub open spec fn chunk_pad(v: VersionContext, pos: int) -> int {
    if v.spec_at_least(2022, 3, 0, 0) {
        pad_needed(pos, 16)
    } else {
        0
    }
}

/// Where the chunk described by `c` (header position, declared body
/// length) ends, inter-chunk padding included.
pub open spec fn chunk_end(c: (int, int), v: VersionContext) -> int {
    c.0 + 8 + c.1 + chunk_pad(v, c.0 + 8 + c.1)
}

/// The layout of a container: each chunk's header starts where the
/// previous chunk ended, the first at `start`, and the last ends at
/// `end`.
pub open spec fn chained(lay: Seq<(int, int)>, v: VersionContext, start: int, end: int) -> bool {
    &&& (lay.len() == 0 ==> end == start)
    &&& (lay.len() > 0 ==> lay[0].0 == start)
    &&& forall|k: int| 0 <= k < lay.len() - 1 ==> (#[trigger] lay[k + 1]).0 == chunk_end(
        lay[k],
        v,
    )
    &&& (lay.len() > 0 ==> end == chunk_end(lay[lay.len() - 1], v))
}

/// The bytes each chunk accounts for: its 8-byte header, its declared
/// body length, and the inter-chunk padding after it.
pub open spec fn spans_sum(lay: Seq<(int, int)>, v: VersionContext) -> int
    decreases lay.len(),
{
    if lay.len() == 0 {
        0
    } else {
        8 + lay[0].1 + chunk_pad(v, lay[0].0 + 8 + lay[0].1) + spans_sum(lay.skip(1), v)
    }
}

/// The chunk framing invariant: over a whole container, summing 8 plus
/// the declared body length plus the inter-chunk padding for each chunk
/// equals the number of bytes the stream advanced.
pub proof fn lemma_chunk_framing(lay: Seq<(int, int)>, v: VersionContext, start: int, end: int)
    requires
        chained(lay, v, start, end),
    ensures
        end - start == spans_sum(lay, v),
    decreases lay.len(),
{
    if lay.len() == 0 {
    } else {
        let mid = chunk_end(lay[0], v);
        if lay.len() == 1 {
            assert(end == mid);
            assert(lay.skip(1).len() == 0);
            assert(spans_sum(lay.skip(1), v) == 0);
        } else {
            assert(chained(lay.skip(1), v, mid, end)) by {
                assert(lay.skip(1)[0] == lay[1]);
                assert(lay[0int + 1].0 == chunk_end(lay[0], v));
                assert forall|k: int| 0 <= k < lay.skip(1).len() - 1 implies (#[trigger] lay.skip(
                    1,
                )[k + 1]).0 == chunk_end(lay.skip(1)[k], v) by {
                    assert(lay.skip(1)[k] == lay[k + 1]);
                    assert(lay.skip(1)[k + 1] == lay[k + 2]);
                    assert(lay[(k + 1) + 1].0 == chunk_end(lay[k + 1], v));
                }
                assert(lay.skip(1)[lay.skip(1).len() - 1] == lay[lay.len() - 1]);
            }
            lemma_chunk_framing(lay.skip(1), v, mid, end);
        }
    }
}

/// The byte sequence from `pos` to `limit` parses as a well-formed run
/// of chunks under `v`: every header fits, every declared body fits, and
/// the inter-chunk padding stays inside the bound.  This is exactly when
/// the framing-level read succeeds.
pub open spec fn raw_parse_ok(d: Seq<u8>, pos: int, limit: int, v: VersionContext) -> bool
    decreases limit - pos,
{
    if pos >= limit {
        true
    } else if pos + 8 > limit {
        false
    } else {
        let body_end = pos + 8 + crate::le32_at(d, pos + 4);
        if body_end > limit {
            false
        } else {
            let next = body_end + chunk_pad(v, body_end);
            if next > limit {
                false
            } else {
                raw_parse_ok(d, next, limit, v)
            }
        }
    }
}

/// A chunk whose body is kept as raw bytes: the framing-only view used
/// for auxiliary containers, whose payload interpretation is delegated.
#[derive(Clone, Debug, PartialEq)]
pub struct RawChunk {
    pub tag: u32,
    pub body: Vec<u8>,
}

/// A container decoded at the framing level only: the form an auxiliary
/// sibling file takes, where the single payload chunk stays opaque.
#[derive(Clone, Debug, PartialEq)]
pub struct RawContainer {
    pub chunks: Vec<RawChunk>,
}

impl RawContainer {
    pub open spec fn wf(&self) -> bool {
        true
    }

    /// The container's mathematical value: each chunk's tag and bytes.
    pub open spec fn model(&self) -> Seq<(int, Seq<u8>)> {
        self.chunks@.map(|i: int, c: RawChunk| (c.tag as int, c.body@))
    }
}

impl RawChunk {
    /// A fresh copy holding the same tag and bytes.
    pub fn duplicate(&self) -> (r: Self)
        ensures
            r.tag == self.tag,
            r.body@ == self.body@,
    {
        RawChunk { tag: self.tag, body: crate::clone_bytes(&self.body) }
    }
}

impl RawContainer {
    /// A fresh copy with the same model.
    #[verifier::loop_isolation(false)]
    pub fn duplicate(&self) -> (r: Self)
        ensures
            r.model() == self.model(),
    {
        let mut chunks: Vec<RawChunk> = Vec::new();
        let n = self.chunks.len();
        let mut i: usize = 0;
        while i < n
            invariant
                i <= n,
                n == self.chunks@.len(),
                chunks@.len() == i,
                forall|t: int| 0 <= t < i ==> (#[trigger] chunks@[t]).tag == self.chunks@[t].tag
                    && chunks@[t].body@ == self.chunks@[t].body@,
            decreases n - i,
        {
            let d = self.chunks[i].duplicate();
            chunks.push(d);
            i = i + 1;
        }
        let r = RawContainer { chunks };
        proof {
            assert(r.model() =~= self.model());
        }
        r
    }
}

/// `c` is the framing-level decode of the whole byte sequence `d` under
/// `v`: some chained layout covers `d` end to end, and each chunk of `c`
/// carries exactly the tag, declared length and body bytes of its span.
pub open spec fn is_raw_decode_of(c: RawContainer, d: Seq<u8>, v: VersionContext) -> bool {
    exists|lay: Seq<(int, int)>|
        {
            &&& #[trigger] chained(lay, v, 0, d.len() as int)
            &&& lay.len() == c.chunks@.len()
            &&& forall|k: int| 0 <= k < lay.len() ==> (#[trigger] lay[k]).1
                == c.chunks@[k].body@.len()
            &&& forall|k: int| 0 <= k < lay.len() ==> (#[trigger] c.chunks@[k]).tag as int
                == crate::le32_at(d, lay[k].0)
            &&& forall|k: int| 0 <= k < lay.len() ==> (#[trigger] c.chunks@[k]).body@
                == d.subrange(lay[k].0 + 8, lay[k].0 + 8 + lay[k].1)
        }
}

/// Reads a whole container at the framing level: a sequence of
/// tag-and-length prefixed chunks, each body kept as raw bytes, until the
/// cursor's bound.  The ghost result is the container's layout, chained
/// from the start position to the end of input.
#[verifier::loop_isolation(false)]
pub fn read_raw_container(r: &mut Reader) -> (res: (
    Result<RawContainer, CodecError>,
    Ghost<Seq<(int, int)>>,
))
    requires
        old(r).wf(),
    ensures
        final(r).wf(),
        final(r).same_source(old(r)),
        res.0 is Ok ==> final(r).pos == final(r).limit,
        res.0 is Ok ==> chained(res.1@, old(r).version, old(r).pos as int, final(r).pos as int),
        res.0 is Ok ==> res.1@.len() == res.0->Ok_0.chunks@.len(),
        res.0 is Ok ==> forall|k: int| 0 <= k < res.1@.len() ==> (#[trigger] res.1@[k]).1
            == res.0->Ok_0.chunks@[k].body@.len(),
        res.0 is Ok ==> forall|k: int| 0 <= k < res.1@.len()
            ==> (#[trigger] res.0->Ok_0.chunks@[k]).tag as int == le32(
            old(r).data@[res.1@[k].0],
            old(r).data@[res.1@[k].0 + 1],
            old(r).data@[res.1@[k].0 + 2],
            old(r).data@[res.1@[k].0 + 3],
        ),
        res.0 is Ok ==> forall|k: int| 0 <= k < res.1@.len()
            ==> (#[trigger] res.0->Ok_0.chunks@[k]).body@ == old(r).data@.subrange(
            res.1@[k].0 + 8,
            res.1@[k].0 + 8 + res.1@[k].1,
        ),
        res.0 is Ok <==> raw_parse_ok(
            old(r).data@,
            old(r).pos as int,
            old(r).limit as int,
            old(r).version,
        ),
        res.0 is Err ==> res.0->Err_0 == CodecError::TruncatedChunk,
{
    let ghost start = old(r).pos as int;
    let mut chunks: Vec<RawChunk> = Vec::new();
    let ghost lay: Seq<(int, int)> = Seq::empty();
    while r.pos < r.limit
        invariant
            r.wf(),
            r.same_source(old(r)),
            raw_parse_ok(r.data@, start, r.limit as int, r.version) == raw_parse_ok(
                r.data@,
                r.pos as int,
                r.limit as int,
                r.version,
            ),
            chained(lay, r.version, start, r.pos as int),
            lay.len() == chunks@.len(),
            forall|k: int| 0 <= k < lay.len() ==> (#[trigger] lay[k]).1
                == chunks@[k].body@.len(),
            forall|k: int| 0 <= k < lay.len() ==> (#[trigger] chunks@[k]).tag as int == le32(
                r.data@[lay[k].0],
                r.data@[lay[k].0 + 1],
                r.data@[lay[k].0 + 2],
                r.data@[lay[k].0 + 3],
            ),
            forall|k: int| 0 <= k < lay.len() ==> (#[trigger] chunks@[k]).body@
                == r.data@.subrange(lay[k].0 + 8, lay[k].0 + 8 + lay[k].1),
        decreases r.limit - r.pos,
    {
        let ghost hdr = r.pos as int;
        let tag = match r.read_u32() {
            Ok(v) => v,
            Err(e) => {
                proof {
                    assert(!raw_parse_ok(r.data@, hdr, r.limit as int, r.version));
                }
                return (Err(e), Ghost(lay));
            },
        };
        let len32 = match r.read_u32() {
            Ok(v) => v,
            Err(e) => {
                proof {
                    assert(!raw_parse_ok(r.data@, hdr, r.limit as int, r.version));
                }
                return (Err(e), Ghost(lay));
            },
        };
        let len = len32 as usize;
        let ghost spec_body_end = hdr + 8 + crate::le32_at(r.data@, hdr + 4);
        proof {
            assert(spec_body_end == r.pos + len);
        }
        let body = match r.read_bytes(len) {
            Ok(v) => v,
            Err(e) => {
                proof {
                    assert(!raw_parse_ok(r.data@, hdr, r.limit as int, r.version));
                }
                return (Err(e), Ghost(lay));
            },
        };
        if r.version.is_version_at_least(2022, 3, 0, 0) {
            match r.skip_padding(16) {
                Ok(()) => (),
                Err(e) => {
                    proof {
                        assert(!raw_parse_ok(r.data@, hdr, r.limit as int, r.version));
                    }
                    return (Err(e), Ghost(lay));
                },
            }
        }
        let ghost prev = lay;
        proof {
            lay = lay.push((hdr, len as int));
            assert(r.pos as int == spec_body_end + chunk_pad(r.version, spec_body_end));
            assert(raw_parse_ok(r.data@, hdr, r.limit as int, r.version) == raw_parse_ok(
                r.data@,
                r.pos as int,
                r.limit as int,
                r.version,
            ));
        }
        chunks.push(RawChunk { tag, body });
        proof {
            assert(chained(lay, r.version, start, r.pos as int)) by {
                assert(lay[lay.len() - 1] == (hdr, len as int));
                assert(r.pos as int == chunk_end((hdr, len as int), r.version));
                if prev.len() > 0 {
                    assert(lay[prev.len() - 1] == prev[prev.len() - 1]);
                    assert(hdr == chunk_end(prev[prev.len() - 1], r.version));
                }
                assert(forall|k: int| 0 <= k < prev.len() ==> lay[k] == prev[k]);
            }
        }
    }
    proof {
        assert(r.pos == r.limit);
        assert(raw_parse_ok(r.data@, r.pos as int, r.limit as int, r.version));
    }
    (Ok(RawContainer { chunks }), Ghost(lay))
}

/// Writes a container at the framing level: each chunk's header is
/// emitted with a reserved length slot, backfilled once the body is
/// down, and the chunk is padded per the declared revision.
#[verifier::loop_isolation(false)]
#[verifier::rlimit(100)]
pub fn write_raw_container(c: &RawContainer, w: &mut Writer) -> (res: (
    Result<(), CodecError>,
    Ghost<Seq<(int, int)>>,
))
    requires
        old(w).wf(),
        old(w).pending@.len() == 0,
        old(w).pool@.len() == 0,
    ensures
        final(w).wf(),
        final(w).version == old(w).version,
        old(w).data@.len() <= final(w).data@.len(),
        final(w).data@.subrange(0, old(w).data@.len() as int) == old(w).data@,
        res.0 is Ok ==> final(w).open_slots@ == old(w).open_slots@,
        res.0 is Ok ==> final(w).pending@.len() == 0 && final(w).pool@.len() == 0,
        res.0 is Ok ==> chained(
            res.1@,
            old(w).version,
            old(w).data@.len() as int,
            final(w).data@.len() as int,
        ),
        res.0 is Ok ==> res.1@.len() == c.chunks@.len(),
        res.0 is Ok ==> forall|k: int| 0 <= k < res.1@.len() ==> (#[trigger] res.1@[k]).1
            == c.chunks@[k].body@.len(),
        res.0 is Ok ==> forall|k: int| 0 <= k < res.1@.len() ==> le32(
            final(w).data@[(#[trigger] res.1@[k]).0],
            final(w).data@[res.1@[k].0 + 1],
            final(w).data@[res.1@[k].0 + 2],
            final(w).data@[res.1@[k].0 + 3],
        ) == c.chunks@[k].tag as int,
        res.0 is Ok ==> forall|k: int| 0 <= k < res.1@.len() ==> le32(
            final(w).data@[(#[trigger] res.1@[k]).0 + 4],
            final(w).data@[res.1@[k].0 + 5],
            final(w).data@[res.1@[k].0 + 6],
            final(w).data@[res.1@[k].0 + 7],
        ) == res.1@[k].1,
        res.0 is Ok ==> forall|k: int| 0 <= k < res.1@.len() ==> final(w).data@.subrange(
            (#[trigger] res.1@[k]).0 + 8,
            res.1@[k].0 + 8 + res.1@[k].1,
        ) == c.chunks@[k].body@,
        (forall|k: int| 0 <= k < c.chunks@.len() ==> (#[trigger] c.chunks@[k]).body@.len()
            <= 0xffffffff) ==> res.0 is Ok,
        res.0 is Err ==> res.0->Err_0 == CodecError::OffsetOverflow,
{
    let ghost start = old(w).data@.len() as int;
    let ghost lay: Seq<(int, int)> = Seq::empty();
    let n = c.chunks.len();
    let mut i: usize = 0;
    while i < n
        invariant
            w.wf(),
            w.version == old(w).version,
            w.pending@.len() == 0,
            w.pool@.len() == 0,
            w.open_slots@ == old(w).open_slots@,
            i <= n,
            n == c.chunks@.len(),
            old(w).data@.len() <= w.data@.len(),
            w.data@.subrange(0, old(w).data@.len() as int) == old(w).data@,
            chained(lay, w.version, start, w.data@.len() as int),
            lay.len() == i,
            forall|k: int| 0 <= k < lay.len() ==> start <= (#[trigger] lay[k]).0 && 0
                <= lay[k].1 && lay[k].0 + 8 + lay[k].1 <= w.data@.len(),
            forall|k: int| 0 <= k < lay.len() ==> (#[trigger] lay[k]).1
                == c.chunks@[k].body@.len(),
            forall|k: int| 0 <= k < lay.len() ==> le32(
                w.data@[(#[trigger] lay[k]).0],
                w.data@[lay[k].0 + 1],
                w.data@[lay[k].0 + 2],
                w.data@[lay[k].0 + 3],
            ) == c.chunks@[k].tag as int,
            forall|k: int| 0 <= k < lay.len() ==> le32(
                w.data@[(#[trigger] lay[k]).0 + 4],
                w.data@[lay[k].0 + 5],
                w.data@[lay[k].0 + 6],
                w.data@[lay[k].0 + 7],
            ) == lay[k].1,
            forall|k: int| 0 <= k < lay.len() ==> w.data@.subrange(
                (#[trigger] lay[k]).0 + 8,
                lay[k].0 + 8 + lay[k].1,
            ) == c.chunks@[k].body@,
        decreases n - i,
    {
        let ghost top = w.data@;
        let ghost hdr = w.data@.len() as int;
        w.write_u32(c.chunks[i].tag);
        let ghost after_tag = w.data@;
        let slot = w.reserve_u32();
        let body_start = w.tell();
        w.write_bytes(&c.chunks[i].body);
        let ghost after_body = w.data@;
        proof {
            assert(after_body.subrange(
                hdr + 8,
                hdr + 8 + c.chunks@[i as int].body@.len() as int,
            ) =~= c.chunks@[i as int].body@);
        }
        match w.flush_strings() {
            (Ok(()), _) => (),
            (Err(e), _) => {
                return (Err(e), Ghost(lay));
            },
        }
        proof {
            assert(w.data@ == after_body);
        }
        let body_end = w.tell();
        let body_len = body_end - body_start;
        if body_len > 0xffffffffusize {
            return (Err(CodecError::OffsetOverflow), Ghost(lay));
        }
        proof {
            assert(w.data@.subrange(0, old(w).data@.len() as int) =~= old(w).data@);
            assert(w.open_slots@ == old(w).open_slots@.push(slot));
            assert(w.open_slots@[old(w).open_slots@.len() as int] == slot);
            assert(w.open_slots@.contains(slot));
        }
        w.backfill_u32(slot, body_len as u32);
        proof {
            let removed = choose|q: int|
                0 <= q < old(w).open_slots@.push(slot).len() && old(w).open_slots@.push(slot)[q]
                    == slot && w.open_slots@ == old(w).open_slots@.push(slot).remove(q);
            assert(removed == old(w).open_slots@.len()) by {
                if removed < old(w).open_slots@.len() {
                    assert(old(w).open_slots@[removed] + 4 <= old(w).data@.len());
                }
            }
            assert(w.open_slots@ =~= old(w).open_slots@);
        }
        if w.version.is_version_at_least(2022, 3, 0, 0) {
            w.pad(16);
        }
        let ghost prev = lay;
        proof {
            lay = lay.push((hdr, body_len as int));
            assert(chained(lay, w.version, start, w.data@.len() as int)) by {
                assert(lay[lay.len() - 1] == (hdr, body_len as int));
                assert(w.data@.len() as int == chunk_end((hdr, body_len as int), w.version));
                if prev.len() > 0 {
                    assert(lay[prev.len() - 1] == prev[prev.len() - 1]);
                    assert(hdr == chunk_end(prev[prev.len() - 1], w.version));
                }
                assert(forall|k: int| 0 <= k < prev.len() ==> lay[k] == prev[k]);
            }
            assert(w.data@.subrange(0, old(w).data@.len() as int) =~= old(w).data@);
            assert forall|q: int| 0 <= q < hdr + 4 implies w.data@[q] == after_tag[q] by {
                assert(after_body[q] == after_tag[q]);
            }
            assert forall|q: int| 0 <= q < hdr implies w.data@[q] == top[q] by {
                assert(after_tag[q] == top[q]);
            }
            assert(w.data@.subrange(hdr + 8, hdr + 8 + body_len as int) =~= c.chunks@[
                i as int
            ].body@);
            assert forall|k: int| 0 <= k < prev.len() implies w.data@.subrange(
                (#[trigger] lay[k]).0 + 8,
                lay[k].0 + 8 + lay[k].1,
            ) == c.chunks@[k].body@ by {
                assert(lay[k] == prev[k]);
                assert(prev[k].0 + 8 + prev[k].1 <= hdr);
                assert(top.subrange(prev[k].0 + 8, prev[k].0 + 8 + prev[k].1) == c.chunks@[
                    k
                ].body@);
                assert(w.data@.subrange(lay[k].0 + 8, lay[k].0 + 8 + lay[k].1) =~= c.chunks@[
                    k
                ].body@);
            }
        }
        i = i + 1;
    }
    (Ok(()), Ghost(lay))
}

/// The decoded body of one chunk of the main container: a known tag's
/// codec output, or the raw bytes of a tag this core only frames.
#[derive(Clone, Debug, PartialEq)]
pub enum ChunkBody {
    Scpt(ChunkSCPT),
    Sprt(ChunkSPRT),
    Tmln(ChunkTMLN),
    Agrp(ChunkAGRP),
    Raw(Vec<u8>),
}

/// One named, length-prefixed section of a container.
#[derive(Clone, Debug, PartialEq)]
pub struct Chunk {
    pub tag: u32,
    pub body: ChunkBody,
}

/// The decoded body variant corresponds to the chunk's tag: each known
/// tag is dispatched to its codec, every other tag stays raw.
pub open spec fn tag_matches_body(c: Chunk) -> bool {
    match c.body {
        ChunkBody::Scpt(_) => c.tag == TAG_SCPT,
        ChunkBody::Sprt(_) => c.tag == TAG_SPRT,
        ChunkBody::Tmln(_) => c.tag == TAG_TMLN,
        ChunkBody::Agrp(_) => c.tag == TAG_AGRP,
        ChunkBody::Raw(_) => c.tag != TAG_SCPT && c.tag != TAG_SPRT && c.tag != TAG_TMLN
            && c.tag != TAG_AGRP,
    }
}

impl Chunk {
    pub open spec fn wf(&self) -> bool {
        match self.body {
            ChunkBody::Scpt(c) => c.wf(),
            ChunkBody::Sprt(c) => c.wf(),
            ChunkBody::Tmln(c) => c.wf(),
            ChunkBody::Agrp(c) => c.wf(),
            ChunkBody::Raw(_) => true,
        }
    }
}

/// The top-level framing: an ordered sequence of chunks.
#[derive(Clone, Debug, PartialEq)]
pub struct Container {
    pub chunks: Vec<Chunk>,
}

impl Container {
    pub open spec fn wf(&self) -> bool {
        forall|i: int| 0 <= i < self.chunks@.len() ==> (#[trigger] self.chunks@[i]).wf()
    }
}

/// Reads the main container: scans chunk headers, hands each known
/// tag's body to its codec under a cursor bounded to the declared body,
/// and keeps unknown bodies as raw bytes.  A codec can never read past
/// its bound; the declared length alone decides where the next header
/// starts.  The ghost result is the container's layout.
#[verifier::loop_isolation(false)]
#[verifier::rlimit(60)]
pub fn read_container(r: &mut Reader) -> (res: (
    Result<Container, CodecError>,
    Ghost<Seq<(int, int)>>,
))
    requires
        old(r).wf(),
    ensures
        final(r).wf(),
        final(r).same_source(old(r)),
        res.0 is Ok ==> final(r).pos == final(r).limit,
        res.0 is Ok ==> chained(res.1@, old(r).version, old(r).pos as int, final(r).pos as int),
        res.0 is Ok ==> res.1@.len() == res.0->Ok_0.chunks@.len(),
        res.0 is Ok ==> res.0->Ok_0.wf(),
        res.0 is Ok ==> forall|k: int| 0 <= k < res.1@.len()
            ==> (#[trigger] res.0->Ok_0.chunks@[k]).tag as int == le32(
            old(r).data@[res.1@[k].0],
            old(r).data@[res.1@[k].0 + 1],
            old(r).data@[res.1@[k].0 + 2],
            old(r).data@[res.1@[k].0 + 3],
        ),
        res.0 is Ok ==> raw_parse_ok(
            old(r).data@,
            old(r).pos as int,
            old(r).limit as int,
            old(r).version,
        ),
        res.0 is Ok ==> forall|k: int| 0 <= k < res.1@.len() ==> tag_matches_body(
            #[trigger] res.0->Ok_0.chunks@[k],
        ),
        res.0 is Ok ==> forall|k: int| 0 <= k < res.1@.len()
            ==> ((#[trigger] res.0->Ok_0.chunks@[k]).body matches ChunkBody::Raw(b)
            ==> b@ == old(r).data@.subrange(res.1@[k].0 + 8, res.1@[k].0 + 8 + res.1@[k].1)),
{
    let ghost start = old(r).pos as int;
    let mut chunks: Vec<Chunk> = Vec::new();
    let ghost lay: Seq<(int, int)> = Seq::empty();
    while r.pos < r.limit
        invariant
            r.wf(),
            r.same_source(old(r)),
            raw_parse_ok(r.data@, start, r.limit as int, r.version) == raw_parse_ok(
                r.data@,
                r.pos as int,
                r.limit as int,
                r.version,
            ),
            chained(lay, r.version, start, r.pos as int),
            lay.len() == chunks@.len(),
            forall|i: int| 0 <= i < chunks@.len() ==> (#[trigger] chunks@[i]).wf(),
            forall|k: int| 0 <= k < lay.len() ==> (#[trigger] chunks@[k]).tag as int == le32(
                r.data@[lay[k].0],
                r.data@[lay[k].0 + 1],
                r.data@[lay[k].0 + 2],
                r.data@[lay[k].0 + 3],
            ),
            forall|k: int| 0 <= k < lay.len() ==> tag_matches_body(#[trigger] chunks@[k]),
            forall|k: int| 0 <= k < lay.len() ==> ((#[trigger] chunks@[k]).body matches
                ChunkBody::Raw(b) ==> b@ == r.data@.subrange(
                lay[k].0 + 8,
                lay[k].0 + 8 + lay[k].1,
            )),
        decreases r.limit - r.pos,
    {
        let ghost hdr = r.pos as int;
        let tag = match r.read_u32() {
            Ok(v) => v,
            Err(e) => {
                return (Err(e), Ghost(lay));
            },
        };
        let len32 = match r.read_u32() {
            Ok(v) => v,
            Err(e) => {
                return (Err(e), Ghost(lay));
            },
        };
        let len = len32 as usize;
        let body_start = r.tell();
        if r.limit - body_start < len {
            return (Err(CodecError::TruncatedChunk), Ghost(lay));
        }
        let body_end = body_start + len;
        let saved_limit = r.limit;
        r.limit = body_end;
        let body_res: Result<ChunkBody, CodecError> = if tag == TAG_SCPT {
            match ChunkSCPT::deserialize(r) {
                Ok(c) => Ok(ChunkBody::Scpt(c)),
                Err(e) => Err(e),
            }
        } else if tag == TAG_SPRT {
            match ChunkSPRT::deserialize(r) {
                Ok(c) => Ok(ChunkBody::Sprt(c)),
                Err(e) => Err(e),
            }
        } else if tag == TAG_TMLN {
            match ChunkTMLN::deserialize(r) {
                Ok(c) => Ok(ChunkBody::Tmln(c)),
                Err(e) => Err(e),
            }
        } else if tag == TAG_AGRP {
            match ChunkAGRP::deserialize(r) {
                Ok(c) => Ok(ChunkBody::Agrp(c)),
                Err(e) => Err(e),
            }
        } else {
            match r.read_bytes(len) {
                Ok(b) => Ok(ChunkBody::Raw(b)),
                Err(e) => Err(e),
            }
        };
        r.limit = saved_limit;
        let body = match body_res {
            Ok(b) => b,
            Err(e) => {
                return (Err(e), Ghost(lay));
            },
        };
        // The declared length governs framing: advance to the body's end.
        r.pos = body_end;
        if r.version.is_version_at_least(2022, 3, 0, 0) {
            match r.skip_padding(16) {
                Ok(()) => (),
                Err(e) => {
                    return (Err(e), Ghost(lay));
                },
            }
        }
        let ghost prev = lay;
        proof {
            lay = lay.push((hdr, len as int));
            assert(raw_parse_ok(r.data@, hdr, r.limit as int, r.version) == raw_parse_ok(
                r.data@,
                r.pos as int,
                r.limit as int,
                r.version,
            )) by {
                assert(hdr + 8 + crate::le32_at(r.data@, hdr + 4) == body_end);
                assert(r.pos as int == body_end + chunk_pad(r.version, body_end as int));
            }
        }
        chunks.push(Chunk { tag, body });
        proof {
            assert(chained(lay, r.version, start, r.pos as int)) by {
                assert(lay[lay.len() - 1] == (hdr, len as int));
                assert(r.pos as int == chunk_end((hdr, len as int), r.version));
                if prev.len() > 0 {
                    assert(lay[prev.len() - 1] == prev[prev.len() - 1]);
                    assert(hdr == chunk_end(prev[prev.len() - 1], r.version));
                }
                assert(forall|k: int| 0 <= k < prev.len() ==> lay[k] == prev[k]);
            }
        }
    }
    proof {
        assert(raw_parse_ok(r.data@, r.pos as int, r.limit as int, r.version));
    }
    (Ok(Container { chunks }), Ghost(lay))
}

/// Writes the main container: each chunk header carries a length slot
/// reserved before the body is serialized and backfilled once the body
/// (strings flushed) is down, then the chunk is padded per the declared
/// revision.  The ghost result is the layout written.
#[verifier::loop_isolation(false)]
#[verifier::rlimit(60)]
pub fn write_container(c: &Container, w: &mut Writer) -> (res: (
    Result<(), CodecError>,
    Ghost<Seq<(int, int)>>,
))
    requires
        c.wf(),
        old(w).wf(),
        old(w).pending@.len() == 0,
        old(w).pool@.len() == 0,
    ensures
        final(w).wf(),
        final(w).version == old(w).version,
        old(w).data@.len() <= final(w).data@.len(),
        final(w).data@.subrange(0, old(w).data@.len() as int) == old(w).data@,
        res.0 is Ok ==> final(w).open_slots@ == old(w).open_slots@,
        res.0 is Ok ==> final(w).pending@.len() == 0 && final(w).pool@.len() == 0,
        res.0 is Ok ==> chained(
            res.1@,
            old(w).version,
            old(w).data@.len() as int,
            final(w).data@.len() as int,
        ),
        res.0 is Ok ==> res.1@.len() == c.chunks@.len(),
        res.0 is Ok ==> forall|k: int| 0 <= k < res.1@.len() ==> crate::le32_at(
            final(w).data@,
            (#[trigger] res.1@[k]).0,
        ) == c.chunks@[k].tag as int,
        res.0 is Ok ==> forall|k: int| 0 <= k < res.1@.len() ==> crate::le32_at(
            final(w).data@,
            (#[trigger] res.1@[k]).0 + 4,
        ) == res.1@[k].1,
{
    let ghost start = old(w).data@.len() as int;
    let ghost lay: Seq<(int, int)> = Seq::empty();
    let n = c.chunks.len();
    let mut i: usize = 0;
    while i < n
        invariant
            w.wf(),
            w.version == old(w).version,
            w.pending@.len() == 0,
            w.pool@.len() == 0,
            w.open_slots@ == old(w).open_slots@,
            i <= n,
            n == c.chunks@.len(),
            old(w).data@.len() <= w.data@.len(),
            w.data@.subrange(0, old(w).data@.len() as int) == old(w).data@,
            chained(lay, w.version, start, w.data@.len() as int),
            lay.len() == i,
            forall|k: int| 0 <= k < lay.len() ==> start <= (#[trigger] lay[k]).0 && 0
                <= lay[k].1 && lay[k].0 + 8 + lay[k].1 <= w.data@.len(),
            forall|k: int| 0 <= k < lay.len() ==> crate::le32_at(
                w.data@,
                (#[trigger] lay[k]).0,
            ) == c.chunks@[k].tag as int,
            forall|k: int| 0 <= k < lay.len() ==> crate::le32_at(
                w.data@,
                (#[trigger] lay[k]).0 + 4,
            ) == lay[k].1,
        decreases n - i,
    {
        let ghost top = w.data@;
        let ghost hdr = w.data@.len() as int;
        w.write_u32(c.chunks[i].tag);
        let ghost after_tag = w.data@;
        let slot = w.reserve_u32();
        let body_start = w.tell();
        let body_res: Result<(), CodecError> = match &c.chunks[i].body {
            ChunkBody::Scpt(ch) => ch.serialize(w),
            ChunkBody::Sprt(ch) => ch.serialize(w),
            ChunkBody::Tmln(ch) => ch.serialize(w),
            ChunkBody::Agrp(ch) => ch.serialize(w),
            ChunkBody::Raw(b) => {
                w.write_bytes(b);
                Ok(())
            },
        };
        match body_res {
            Ok(()) => (),
            Err(e) => {
                return (Err(e), Ghost(lay));
            },
        }
        match w.flush_strings() {
            (Ok(()), _) => (),
            (Err(e), _) => {
                return (Err(e), Ghost(lay));
            },
        }
        let body_end = w.tell();
        let body_len = body_end - body_start;
        if body_len > 0xffffffffusize {
            return (Err(CodecError::OffsetOverflow), Ghost(lay));
        }
        proof {
            assert(w.data@.subrange(0, old(w).data@.len() as int) =~= old(w).data@);
            assert(w.open_slots@ == old(w).open_slots@.push(slot));
            assert(w.open_slots@[old(w).open_slots@.len() as int] == slot);
            assert(w.open_slots@.contains(slot));
        }
        w.backfill_u32(slot, body_len as u32);
        proof {
            let removed = choose|q: int|
                0 <= q < old(w).open_slots@.push(slot).len() && old(w).open_slots@.push(slot)[q]
                    == slot && w.open_slots@ == old(w).open_slots@.push(slot).remove(q);
            assert(removed == old(w).open_slots@.len()) by {
                if removed < old(w).open_slots@.len() {
                    assert(old(w).open_slots@[removed] + 4 <= old(w).data@.len());
                }
            }
            assert(w.open_slots@ =~= old(w).open_slots@);
        }
        if w.version.is_version_at_least(2022, 3, 0, 0) {
            w.pad(16);
        }
        let ghost prev = lay;
        proof {
            lay = lay.push((hdr, body_len as int));
            assert(chained(lay, w.version, start, w.data@.len() as int)) by {
                assert(lay[lay.len() - 1] == (hdr, body_len as int));
                assert(w.data@.len() as int == chunk_end((hdr, body_len as int), w.version));
                if prev.len() > 0 {
                    assert(lay[prev.len() - 1] == prev[prev.len() - 1]);
                    assert(hdr == chunk_end(prev[prev.len() - 1], w.version));
                }
                assert(forall|k: int| 0 <= k < prev.len() ==> lay[k] == prev[k]);
            }
            assert(w.data@.subrange(0, old(w).data@.len() as int) =~= old(w).data@);
            assert forall|q: int| 0 <= q < hdr + 4 implies w.data@[q] == after_tag[q] by {}
            assert forall|q: int| 0 <= q < hdr implies w.data@[q] == top[q] by {
                assert(after_tag[q] == top[q]);
            }
        }
        i = i + 1;
    }
    (Ok(()), Ghost(lay))
}

} // verus!
