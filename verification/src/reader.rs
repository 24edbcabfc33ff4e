use vstd::prelude::*;
use crate::error::CodecError;
use crate::version::VersionContext;
use crate::{has_cstr_at, le32, le32_signed, le_read_i32, le_read_u32, nul_free, zero_from,
    clone_bytes};

verus! {

/// A seekable cursor over one container's bytes.
///
/// `limit` bounds the primitive reads: a chunk codec runs with `limit` set
/// to its body's end, so reading past the declared body is a framing
/// error.  Pointer dereferences (strings) may reach anywhere in the file.
/// `cache` pools pointer strings by their source offset: the same offset
/// always yields the same logical value.
pub struct Reader {
    pub data: Vec<u8>,
    pub pos: usize,
    pub limit: usize,
    pub version: VersionContext,
    pub cache: Vec<(u32, Vec<u8>)>,
}

impl Reader {
    pub open spec fn wf(&self) -> bool {
        &&& self.pos <= self.limit <= self.data@.len()
        &&& forall|k: int| 0 <= k < self.cache@.len() ==> has_cstr_at(
            self.data@,
            (#[trigger] self.cache@[k]).0 as int,
            self.cache@[k].1@,
        )
    }

    /// The reader's state apart from its position and cache is untouched.
    pub open spec fn same_source(&self, other: &Reader) -> bool {
        &&& self.data@ == other.data@
        &&& self.limit == other.limit
        &&& self.version == other.version
    }

    /// A fresh cursor over a whole byte sequence.
    pub fn new(data: Vec<u8>, version: VersionContext) -> (r: Reader)
        ensures
            r.wf(),
            r.data@ == data@,
            r.pos == 0,
            r.limit == data@.len(),
            r.version == version,
            r.cache@.len() == 0,
    {
        let limit = data.len();
        Reader { data, pos: 0, limit, version, cache: Vec::new() }
    }

    pub fn tell(&self) -> (r: usize)
        ensures
            r == self.pos,
    {
        self.pos
    }

    pub fn get_version(&self) -> (r: VersionContext)
        ensures
            r == self.version,
    {
        self.version
    }

    /// Declares the active format revision before version-gated fields are
    /// read.
    pub fn set_version(&mut self, version: VersionContext)
        requires
            old(self).wf(),
        ensures
            final(self).wf(),
            *final(self) == (Reader { version, ..*old(self) }),
    {
        self.version = version;
    }

    /// Moves the cursor; a target outside the current bound is a dangling
    /// pointer.
    pub fn seek(&mut self, to: usize) -> (res: Result<(), CodecError>)
        requires
            old(self).wf(),
        ensures
            final(self).wf(),
            final(self).same_source(old(self)),
            final(self).cache@ == old(self).cache@,
            res is Ok <==> to <= old(self).limit,
            res is Ok ==> final(self).pos == to,
            res is Err ==> *final(self) == *old(self) && res->Err_0
                == CodecError::DanglingPointer,
    {
        if to <= self.limit {
            self.pos = to;
            Ok(())
        } else {
            Err(CodecError::DanglingPointer)
        }
    }

    /// Reads one byte.
    pub fn read_u8(&mut self) -> (res: Result<u8, CodecError>)
        requires
            old(self).wf(),
        ensures
            final(self).wf(),
            final(self).same_source(old(self)),
            final(self).cache@ == old(self).cache@,
            res is Ok <==> old(self).pos + 1 <= old(self).limit,
            res is Ok ==> final(self).pos == old(self).pos + 1 && res->Ok_0 == old(
                self,
            ).data@[old(self).pos as int],
            res is Err ==> *final(self) == *old(self) && res->Err_0
                == CodecError::TruncatedChunk,
    {
        if self.limit - self.pos < 1 {
            return Err(CodecError::TruncatedChunk);
        }
        let b = self.data[self.pos];
        self.pos = self.pos + 1;
        Ok(b)
    }

    /// Reads an unsigned 32-bit little-endian integer.
    pub fn read_u32(&mut self) -> (res: Result<u32, CodecError>)
        requires
            old(self).wf(),
        ensures
            final(self).wf(),
            final(self).same_source(old(self)),
            final(self).cache@ == old(self).cache@,
            res is Ok <==> old(self).pos + 4 <= old(self).limit,
            res is Ok ==> final(self).pos == old(self).pos + 4 && res->Ok_0 as int == le32(
                old(self).data@[old(self).pos as int],
                old(self).data@[old(self).pos + 1],
                old(self).data@[old(self).pos + 2],
                old(self).data@[old(self).pos + 3],
            ),
            res is Err ==> *final(self) == *old(self) && res->Err_0
                == CodecError::TruncatedChunk,
    {
        if self.limit - self.pos < 4 {
            return Err(CodecError::TruncatedChunk);
        }
        let p = self.pos;
        let v = le_read_u32(self.data[p], self.data[p + 1], self.data[p + 2], self.data[p + 3]);
        self.pos = p + 4;
        Ok(v)
    }

    /// Reads a signed 32-bit little-endian integer.
    pub fn read_i32(&mut self) -> (res: Result<i32, CodecError>)
        requires
            old(self).wf(),
        ensures
            final(self).wf(),
            final(self).same_source(old(self)),
            final(self).cache@ == old(self).cache@,
            res is Ok <==> old(self).pos + 4 <= old(self).limit,
            res is Ok ==> final(self).pos == old(self).pos + 4 && res->Ok_0 as int
                == le32_signed(
                old(self).data@[old(self).pos as int],
                old(self).data@[old(self).pos + 1],
                old(self).data@[old(self).pos + 2],
                old(self).data@[old(self).pos + 3],
            ),
            res is Err ==> *final(self) == *old(self) && res->Err_0
                == CodecError::TruncatedChunk,
    {
        if self.limit - self.pos < 4 {
            return Err(CodecError::TruncatedChunk);
        }
        let p = self.pos;
        let v = le_read_i32(self.data[p], self.data[p + 1], self.data[p + 2], self.data[p + 3]);
        self.pos = p + 4;
        Ok(v)
    }

    /// Reads `n` raw bytes.
    #[verifier::loop_isolation(false)]
    pub fn read_bytes(&mut self, n: usize) -> (res: Result<Vec<u8>, CodecError>)
        requires
            old(self).wf(),
        ensures
            final(self).wf(),
            final(self).same_source(old(self)),
            final(self).cache@ == old(self).cache@,
            res is Ok <==> old(self).pos + n <= old(self).limit,
            res is Ok ==> final(self).pos == old(self).pos + n && res->Ok_0@ == old(
                self,
            ).data@.subrange(old(self).pos as int, old(self).pos + n),
            res is Err ==> *final(self) == *old(self) && res->Err_0
                == CodecError::TruncatedChunk,
    {
        if self.limit - self.pos < n {
            return Err(CodecError::TruncatedChunk);
        }
        let start = self.pos;
        let mut out: Vec<u8> = Vec::new();
        let mut i: usize = 0;
        while i < n
            invariant
                i <= n,
                start + n <= self.data@.len(),
                out@ =~= self.data@.subrange(start as int, start + i),
            decreases n - i,
        {
            out.push(self.data[start + i]);
            i = i + 1;
            proof {
                assert(out@ =~= self.data@.subrange(start as int, start + i));
            }
        }
        self.pos = start + n;
        Ok(out)
    }

    /// Advances the cursor to the next multiple of `align`, as the
    /// inter-chunk and pre-element padding rules demand.
    pub fn skip_padding(&mut self, align: usize) -> (res: Result<(), CodecError>)
        requires
            old(self).wf(),
            align >= 1,
        ensures
            final(self).wf(),
            final(self).same_source(old(self)),
            final(self).cache@ == old(self).cache@,
            res is Ok ==> final(self).pos == old(self).pos + crate::pad_needed(
                old(self).pos as int,
                align as int,
            ),
            res is Ok ==> final(self).pos as int % align as int == 0,
            res is Err ==> *final(self) == *old(self) && res->Err_0
                == CodecError::TruncatedChunk,
            res is Ok <==> old(self).pos + crate::pad_needed(old(self).pos as int, align as int)
                <= old(self).limit,
    {
        proof {
            crate::lemma_pad_aligned(self.pos as int, align as int);
        }
        let rem = self.pos % align;
        if rem == 0 {
            return Ok(());
        }
        let need = align - rem;
        if self.limit - self.pos < need {
            return Err(CodecError::TruncatedChunk);
        }
        self.pos = self.pos + need;
        Ok(())
    }

    /// Reads a pointer string: a 32-bit absolute offset referencing a
    /// NUL-terminated byte string elsewhere in the file.  Equal offsets
    /// yield equal values; the cursor only advances over the offset.
    #[verifier::loop_isolation(false)]
    pub fn read_pointer_string(&mut self) -> (res: Result<Vec<u8>, CodecError>)
        requires
            old(self).wf(),
        ensures
            final(self).wf(),
            final(self).same_source(old(self)),
            res is Ok ==> final(self).pos == old(self).pos + 4 && has_cstr_at(
                old(self).data@,
                le32(
                    old(self).data@[old(self).pos as int],
                    old(self).data@[old(self).pos + 1],
                    old(self).data@[old(self).pos + 2],
                    old(self).data@[old(self).pos + 3],
                ),
                res->Ok_0@,
            ),
            res is Ok ==> nul_free(res->Ok_0@),
            res is Err ==> final(self).pos == old(self).pos && final(self).cache@ == old(
                self,
            ).cache@,
            res is Ok <==> old(self).pos + 4 <= old(self).limit && zero_from(
                old(self).data@,
                le32(
                    old(self).data@[old(self).pos as int],
                    old(self).data@[old(self).pos + 1],
                    old(self).data@[old(self).pos + 2],
                    old(self).data@[old(self).pos + 3],
                ),
            ),
            res is Err ==> (res->Err_0 == CodecError::TruncatedChunk <==> old(self).pos + 4 > old(
                self,
            ).limit),
            res is Err ==> (res->Err_0 == CodecError::TruncatedChunk || res->Err_0
                == CodecError::DanglingPointer),
    {
        if self.limit - self.pos < 4 {
            return Err(CodecError::TruncatedChunk);
        }
        let p = self.pos;
        let off = le_read_u32(
            self.data[p],
            self.data[p + 1],
            self.data[p + 2],
            self.data[p + 3],
        );
        // Offset-keyed pooling: a previously seen offset returns the value
        // already materialized for it.
        let mut c: usize = 0;
        while c < self.cache.len()
            invariant
                *self == *old(self),
                c <= self.cache@.len(),
            decreases self.cache@.len() - c,
        {
            if self.cache[c].0 == off {
                let s = clone_bytes(&self.cache[c].1);
                self.pos = p + 4;
                proof {
                    assert(has_cstr_at(self.data@, off as int, s@));
                    assert(self.data@[off + s@.len()] == 0);
                }
                return Ok(s);
            }
            c = c + 1;
        }
        let start = off as usize;
        let n = self.data.len();
        if start >= n {
            return Err(CodecError::DanglingPointer);
        }
        // Find the terminator.
        let mut j: usize = start;
        while j < n && *(&self.data[j]) != 0
            invariant
                *self == *old(self),
                start <= j <= n,
                forall|k: int| start <= k < j ==> self.data@[k] != 0,
            decreases n - j,
        {
            j = j + 1;
        }
        if j >= n {
            proof {
                assert(!zero_from(self.data@, off as int)) by {
                    assert(forall|k: int| off <= k < self.data@.len() ==> self.data@[k] != 0);
                }
            }
            return Err(CodecError::DanglingPointer);
        }
        // Copy the string body.
        let mut s: Vec<u8> = Vec::new();
        let mut k: usize = start;
        while k < j
            invariant
                *self == *old(self),
                start <= k <= j <= n,
                j < self.data@.len(),
                self.data@[j as int] == 0,
                forall|q: int| start <= q < j ==> self.data@[q] != 0,
                s@ =~= self.data@.subrange(start as int, k as int),
            decreases j - k,
        {
            s.push(self.data[k]);
            k = k + 1;
            proof {
                assert(s@ =~= self.data@.subrange(start as int, k as int));
            }
        }
        proof {
            assert(s@ =~= self.data@.subrange(start as int, j as int));
            assert(forall|q: int| 0 <= q < s@.len() ==> s@[q] == self.data@[start + q]);
            assert(has_cstr_at(self.data@, off as int, s@));
        }
        let copy = clone_bytes(&s);
        self.cache.push((off, copy));
        self.pos = p + 4;
        Ok(s)
    }
}

} // verus!
