use vstd::prelude::*;
use vstd::pervasive::VecAdditionalExecFns;
use crate::error::CodecError;
use crate::version::VersionContext;
use crate::{le32, le32_signed, le_split_i32, le_split_u32, nul_free};

verus! {

/// The write half of the byte cursor.
///
/// Output is built append-only in memory; offsets that cannot be known
/// yet (the slots of a pointer-list offset table, a chunk's body length)
/// are reserved as zeroed placeholder slots and backfilled once known.
/// A reserved slot that is never backfilled is an engine bug, reported by
/// `finish` as `UnbackfilledPlaceholder`.
///
/// Pointer strings are pooled: each distinct content is kept once in
/// `pool`, every reference appends a placeholder recorded in `pending`,
/// and `flush_strings` writes the pool and patches every placeholder.
pub struct Writer {
    pub data: Vec<u8>,
    pub version: VersionContext,
    /// Distinct pointer-string contents awaiting flush.
    pub pool: Vec<Vec<u8>>,
    /// (placeholder position, pool index) pairs awaiting flush.
    pub pending: Vec<(usize, usize)>,
    /// Positions of reserved offset slots not yet backfilled.
    pub open_slots: Vec<usize>,
}

/// The bytes the pool occupies once flushed: each content plus its NUL
/// terminator.
pub open spec fn pool_bytes(p: Seq<Vec<u8>>) -> int
    decreases p.len(),
{
    if p.len() == 0 {
        0
    } else {
        pool_bytes(p.drop_last()) + p.last()@.len() + 1
    }
}

/// A prefix of the pool occupies no more bytes than the whole pool.
pub proof fn lemma_pool_bytes_prefix(p: Seq<Vec<u8>>, i: int)
    requires
        0 <= i <= p.len(),
    ensures
        pool_bytes(p.subrange(0, i)) <= pool_bytes(p),
    decreases p.len() - i,
{
    if i == p.len() {
        assert(p.subrange(0, i) =~= p);
    } else {
        lemma_pool_bytes_prefix(p, i + 1);
        assert(p.subrange(0, i + 1).drop_last() =~= p.subrange(0, i));
        assert(p.subrange(0, i + 1).last() == p[i]);
        assert(pool_bytes(p.subrange(0, i)) <= pool_bytes(p.subrange(0, i + 1)));
    }
}

/// `i` lies in the four-byte region of some pending placeholder.
pub open spec fn pending_covers(p: Seq<(usize, usize)>, i: int) -> bool {
    exists|k: int| 0 <= k < p.len() && (#[trigger] p[k]).0 <= i < p[k].0 + 4
}

impl Writer {
    pub open spec fn wf(&self) -> bool {
        &&& forall|k: int| 0 <= k < self.pending@.len() ==> (#[trigger] self.pending@[k]).0 + 4
            <= self.data@.len() && self.pending@[k].1 < self.pool@.len()
        &&& forall|k: int, j: int| 0 <= k < j < self.pending@.len()
            ==> self.pending@[k].0 + 4 <= self.pending@[j].0
        &&& forall|k: int| 0 <= k < self.open_slots@.len() ==> (#[trigger] self.open_slots@[k])
            + 4 <= self.data@.len()
        &&& forall|k: int, j: int| 0 <= k < j < self.open_slots@.len()
            ==> self.open_slots@[k] + 4 <= self.open_slots@[j]
        &&& forall|k: int, j: int|
            0 <= k < self.pending@.len() && 0 <= j < self.open_slots@.len() ==> (
            self.pending@[k].0 + 4 <= self.open_slots@[j] || self.open_slots@[j] + 4
                <= self.pending@[k].0)
        &&& forall|i: int| 0 <= i < self.pool@.len() ==> nul_free((#[trigger] self.pool@[i])@)
        &&& forall|i: int, j: int| 0 <= i < j < self.pool@.len() ==> self.pool@[i]@
            != self.pool@[j]@
    }

    /// A fresh writer with an empty output buffer.
    pub fn new(version: VersionContext) -> (w: Writer)
        ensures
            w.wf(),
            w.data@.len() == 0,
            w.version == version,
            w.pool@.len() == 0,
            w.pending@.len() == 0,
            w.open_slots@.len() == 0,
    {
        Writer {
            data: Vec::new(),
            version,
            pool: Vec::new(),
            pending: Vec::new(),
            open_slots: Vec::new(),
        }
    }

    /// The current output position: writing is append-only.
    pub fn tell(&self) -> (r: usize)
        ensures
            r == self.data@.len(),
    {
        self.data.len()
    }

    pub fn get_version(&self) -> (r: VersionContext)
        ensures
            r == self.version,
    {
        self.version
    }

    /// Declares the active format revision before version-gated fields are
    /// written.
    pub fn set_version(&mut self, version: VersionContext)
        requires
            old(self).wf(),
        ensures
            final(self).wf(),
            *final(self) == (Writer { version, ..*old(self) }),
    {
        self.version = version;
    }

    /// Appends one byte.
    pub fn write_u8(&mut self, b: u8)
        requires
            old(self).wf(),
        ensures
            final(self).wf(),
            final(self).data@ == old(self).data@.push(b),
            final(self).version == old(self).version,
            final(self).pool@ == old(self).pool@,
            final(self).pending@ == old(self).pending@,
            final(self).open_slots@ == old(self).open_slots@,
    {
        self.data.push(b);
    }

    /// Appends an unsigned 32-bit little-endian integer.
    pub fn write_u32(&mut self, x: u32)
        requires
            old(self).wf(),
        ensures
            final(self).wf(),
            final(self).data@.len() == old(self).data@.len() + 4,
            final(self).data@.subrange(0, old(self).data@.len() as int) == old(self).data@,
            forall|i: int| 0 <= i < old(self).data@.len() ==> final(self).data@[i] == old(
                self,
            ).data@[i],
            le32(
                final(self).data@[old(self).data@.len() as int],
                final(self).data@[old(self).data@.len() as int + 1],
                final(self).data@[old(self).data@.len() as int + 2],
                final(self).data@[old(self).data@.len() as int + 3],
            ) == x as int,
            final(self).version == old(self).version,
            final(self).pool@ == old(self).pool@,
            final(self).pending@ == old(self).pending@,
            final(self).open_slots@ == old(self).open_slots@,
    {
        let b = le_split_u32(x);
        self.data.push(b.0);
        self.data.push(b.1);
        self.data.push(b.2);
        self.data.push(b.3);
        proof {
            assert(final(self).data@.subrange(0, old(self).data@.len() as int) =~= old(self).data@);
        }
    }

    /// Appends a signed 32-bit little-endian integer.
    pub fn write_i32(&mut self, x: i32)
        requires
            old(self).wf(),
        ensures
            final(self).wf(),
            final(self).data@.len() == old(self).data@.len() + 4,
            final(self).data@.subrange(0, old(self).data@.len() as int) == old(self).data@,
            forall|i: int| 0 <= i < old(self).data@.len() ==> final(self).data@[i] == old(
                self,
            ).data@[i],
            le32_signed(
                final(self).data@[old(self).data@.len() as int],
                final(self).data@[old(self).data@.len() as int + 1],
                final(self).data@[old(self).data@.len() as int + 2],
                final(self).data@[old(self).data@.len() as int + 3],
            ) == x as int,
            final(self).version == old(self).version,
            final(self).pool@ == old(self).pool@,
            final(self).pending@ == old(self).pending@,
            final(self).open_slots@ == old(self).open_slots@,
    {
        let b = le_split_i32(x);
        self.data.push(b.0);
        self.data.push(b.1);
        self.data.push(b.2);
        self.data.push(b.3);
        proof {
            assert(final(self).data@.subrange(0, old(self).data@.len() as int) =~= old(self).data@);
        }
    }

    /// Appends a run of raw bytes.
    #[verifier::loop_isolation(false)]
    pub fn write_bytes(&mut self, v: &Vec<u8>)
        requires
            old(self).wf(),
        ensures
            final(self).wf(),
            final(self).data@ == old(self).data@ + v@,
            forall|i: int| 0 <= i < old(self).data@.len() ==> final(self).data@[i] == old(
                self,
            ).data@[i],
            final(self).version == old(self).version,
            final(self).pool@ == old(self).pool@,
            final(self).pending@ == old(self).pending@,
            final(self).open_slots@ == old(self).open_slots@,
    {
        let n = v.len();
        let mut i: usize = 0;
        while i < n
            invariant
                i <= n,
                n == v@.len(),
                self.data@ == old(self).data@ + v@.subrange(0, i as int),
                self.version == old(self).version,
                self.pool@ == old(self).pool@,
                self.pending@ == old(self).pending@,
                self.open_slots@ == old(self).open_slots@,
                self.wf(),
            decreases n - i,
        {
            self.data.push(v[i]);
            i = i + 1;
            proof {
                assert(self.data@ =~= old(self).data@ + v@.subrange(0, i as int));
            }
        }
        proof {
            assert(self.data@ =~= old(self).data@ + v@);
        }
    }

    /// Appends zero bytes until the position is a multiple of `align`.
    #[verifier::loop_isolation(false)]
    pub fn pad(&mut self, align: usize)
        requires
            old(self).wf(),
            align >= 1,
        ensures
            final(self).wf(),
            final(self).data@.len() == old(self).data@.len() + crate::pad_needed(
                old(self).data@.len() as int,
                align as int,
            ),
            final(self).data@.len() as int % align as int == 0,
            final(self).data@.subrange(0, old(self).data@.len() as int) == old(self).data@,
            forall|i: int| 0 <= i < old(self).data@.len() ==> final(self).data@[i] == old(
                self,
            ).data@[i],
            forall|i: int| old(self).data@.len() <= i < final(self).data@.len() ==> final(self).data@[i] == 0,
            final(self).version == old(self).version,
            final(self).pool@ == old(self).pool@,
            final(self).pending@ == old(self).pending@,
            final(self).open_slots@ == old(self).open_slots@,
    {
        proof {
            crate::lemma_pad_aligned(self.data@.len() as int, align as int);
        }
        let rem = self.data.len() % align;
        if rem == 0 {
            proof {
                assert(final(self).data@.subrange(0, old(self).data@.len() as int) =~= old(self).data@);
            }
            return ;
        }
        let need = align - rem;
        let mut i: usize = 0;
        while i < need
            invariant
                i <= need,
                self.data@.len() == old(self).data@.len() + i,
                self.data@.subrange(0, old(self).data@.len() as int) =~= old(self).data@,
                forall|q: int| old(self).data@.len() <= q < self.data@.len() ==> self.data@[q]
                    == 0,
                self.version == old(self).version,
                self.pool@ == old(self).pool@,
                self.pending@ == old(self).pending@,
                self.open_slots@ == old(self).open_slots@,
            decreases need - i,
        {
            self.data.push(0u8);
            i = i + 1;
            proof {
                assert(self.data@.subrange(0, old(self).data@.len() as int) =~= old(self).data@);
            }
        }
    }

    /// Overwrites the four bytes at `at` with the little-endian value of
    /// `x`; everything else is untouched.
    fn patch_u32(&mut self, at: usize, x: u32)
        requires
            at + 4 <= old(self).data@.len(),
        ensures
            final(self).data@.len() == old(self).data@.len(),
            forall|i: int| 0 <= i < old(self).data@.len() && !(at <= i < at + 4) ==> final(self).data@[i] == old(self).data@[i],
            le32(
                final(self).data@[at as int],
                final(self).data@[at + 1],
                final(self).data@[at + 2],
                final(self).data@[at + 3],
            ) == x as int,
            final(self).version == old(self).version,
            final(self).pool@ == old(self).pool@,
            final(self).pending@ == old(self).pending@,
            final(self).open_slots@ == old(self).open_slots@,
            old(self).wf() ==> final(self).wf(),
    {
        let n = self.data.len();
        proof {
            assert(at + 4 <= n);
        }
        let b = le_split_u32(x);
        self.data.set(at, b.0);
        self.data.set(at + 1, b.1);
        self.data.set(at + 2, b.2);
        self.data.set(at + 3, b.3);
    }

    /// Reserves a four-byte offset slot at the current position, zeroed
    /// until backfilled.
    pub fn reserve_u32(&mut self) -> (slot: usize)
        requires
            old(self).wf(),
        ensures
            final(self).wf(),
            slot == old(self).data@.len(),
            final(self).data@.len() == old(self).data@.len() + 4,
            final(self).data@.subrange(0, old(self).data@.len() as int) == old(self).data@,
            forall|i: int| 0 <= i < old(self).data@.len() ==> final(self).data@[i] == old(
                self,
            ).data@[i],
            forall|i: int| old(self).data@.len() <= i < final(self).data@.len() ==> final(self).data@[i] == 0,
            final(self).version == old(self).version,
            final(self).pool@ == old(self).pool@,
            final(self).pending@ == old(self).pending@,
            final(self).open_slots@ == old(self).open_slots@.push(slot),
    {
        let slot = self.data.len();
        self.data.push(0u8);
        self.data.push(0u8);
        self.data.push(0u8);
        self.data.push(0u8);
        self.open_slots.push(slot);
        proof {
            assert(final(self).data@.subrange(0, old(self).data@.len() as int) =~= old(self).data@);
        }
        slot
    }

    /// Backfills a reserved slot with its now-known value and closes it.
    #[verifier::loop_isolation(false)]
    pub fn backfill_u32(&mut self, slot: usize, x: u32)
        requires
            old(self).wf(),
            old(self).open_slots@.contains(slot),
        ensures
            final(self).wf(),
            final(self).data@.len() == old(self).data@.len(),
            forall|i: int| 0 <= i < old(self).data@.len() && !(slot <= i < slot + 4) ==> final(self).data@[i] == old(self).data@[i],
            le32(
                final(self).data@[slot as int],
                final(self).data@[slot + 1],
                final(self).data@[slot + 2],
                final(self).data@[slot + 3],
            ) == x as int,
            final(self).version == old(self).version,
            final(self).pool@ == old(self).pool@,
            final(self).pending@ == old(self).pending@,
            exists|i: int|
                0 <= i < old(self).open_slots@.len() && old(self).open_slots@[i] == slot && final(self).open_slots@ == old(self).open_slots@.remove(i),
    {
        let mut i: usize = 0;
        let n = self.open_slots.len();
        while i < n
            invariant
                *self == *old(self),
                i <= n,
                n == self.open_slots@.len(),
                forall|k: int| 0 <= k < i ==> self.open_slots@[k] != slot,
            decreases n - i,
        {
            if self.open_slots[i] == slot {
                self.open_slots.remove(i);
                self.patch_u32(slot, x);
                return ;
            }
            i = i + 1;
        }
        proof {
            assert(false);
        }
    }

    /// Writes a pointer string: registers the content in the pool
    /// (deduplicating identical content into one entry) and appends a
    /// placeholder offset, patched when the pool is flushed.  Returns the
    /// pool entry's index.
    #[verifier::loop_isolation(false)]
    pub fn write_pointer_string(&mut self, s: &Vec<u8>) -> (idx: usize)
        requires
            old(self).wf(),
            nul_free(s@),
        ensures
            final(self).wf(),
            idx < final(self).pool@.len(),
            final(self).pool@[idx as int]@ == s@,
            forall|j: int| 0 <= j < old(self).pool@.len() ==> final(self).pool@[j] == old(self).pool@[j],
            old(self).pool@.len() <= final(self).pool@.len() <= old(self).pool@.len() + 1,
            forall|j: int| 0 <= j < old(self).pool@.len() && old(self).pool@[j]@ == s@ ==> idx
                == j && final(self).pool@.len() == old(self).pool@.len(),
            final(self).data@.len() == old(self).data@.len() + 4,
            final(self).data@.subrange(0, old(self).data@.len() as int) == old(self).data@,
            final(self).pending@.len() == old(self).pending@.len() + 1,
            forall|j: int| 0 <= j < old(self).pending@.len() ==> final(self).pending@[j] == old(
                self,
            ).pending@[j],
            (#[trigger] final(self).pending@[old(self).pending@.len() as int]).0 == old(
                self,
            ).data@.len(),
            final(self).pending@[old(self).pending@.len() as int].1 == idx,
            pool_bytes(final(self).pool@) <= pool_bytes(old(self).pool@) + s@.len() + 1,
            final(self).version == old(self).version,
            final(self).open_slots@ == old(self).open_slots@,
    {
        let mut idx: usize = 0;
        let n = self.pool.len();
        let mut found = false;
        while idx < n && !found
            invariant
                *self == *old(self),
                idx <= n,
                n == self.pool@.len(),
                !found ==> forall|j: int| 0 <= j < idx ==> self.pool@[j]@ != s@,
                found ==> idx < n && self.pool@[idx as int]@ == s@,
            decreases n - idx, if found { 0int } else { 1int },
        {
            if crate::bytes_eq(&self.pool[idx], s) {
                found = true;
            } else {
                idx = idx + 1;
            }
        }
        if !found {
            let ghost prepool = self.pool@;
            self.pool.push(crate::clone_bytes(s));
            proof {
                assert(self.pool@.drop_last() =~= prepool);
                assert(pool_bytes(self.pool@) == pool_bytes(prepool) + s@.len() + 1);
            }
        }
        let at = self.data.len();
        self.pending.push((at, idx));
        self.data.push(0u8);
        self.data.push(0u8);
        self.data.push(0u8);
        self.data.push(0u8);
        proof {
            assert(final(self).data@.subrange(0, old(self).data@.len() as int) =~= old(self).data@);
        }
        idx
    }

    /// Flushes the string pool: writes each distinct content once as a
    /// NUL-terminated string at the end of the output and patches every
    /// pending placeholder with its content's offset.  The returned ghost
    /// sequence holds the offset of each pool entry.  Fails only when an
    /// offset would not fit 32 bits.
    #[verifier::loop_isolation(false)]
    pub fn flush_strings(&mut self) -> (res: (Result<(), CodecError>, Ghost<Seq<int>>))
        requires
            old(self).wf(),
        ensures
            final(self).wf(),
            final(self).version == old(self).version,
            final(self).open_slots@ == old(self).open_slots@,
            old(self).data@.len() <= final(self).data@.len(),
            res.0 is Err ==> res.0->Err_0 == CodecError::OffsetOverflow && final(self).pending@
                == old(self).pending@ && final(self).pool@ == old(self).pool@ && final(self).data@.subrange(0, old(self).data@.len() as int) == old(self).data@,
            res.0 is Ok ==> final(self).pending@.len() == 0 && final(self).pool@.len() == 0,
            res.0 is Ok ==> res.1@.len() == old(self).pool@.len(),
            res.0 is Ok ==> forall|i: int| 0 <= i < old(self).pool@.len() ==> crate::has_cstr_at(
                final(self).data@,
                res.1@[i],
                old(self).pool@[i]@,
            ),
            res.0 is Ok ==> forall|k: int| 0 <= k < old(self).pending@.len() ==> le32(
                final(self).data@[(#[trigger] old(self).pending@[k]).0 as int],
                final(self).data@[old(self).pending@[k].0 as int + 1],
                final(self).data@[old(self).pending@[k].0 as int + 2],
                final(self).data@[old(self).pending@[k].0 as int + 3],
            ) == res.1@[old(self).pending@[k].1 as int],
            res.0 is Ok ==> forall|i: int|
                0 <= i < old(self).data@.len() && !pending_covers(old(self).pending@, i) ==> final(self).data@[i] == old(self).data@[i],
            res.0 is Ok ==> forall|i: int| 0 <= i < old(self).pool@.len() ==> res.1@[i]
                <= 0xffffffff,
            old(self).pool@.len() == 0 && old(self).pending@.len() == 0 ==> res.0 is Ok
                && final(self).data@ == old(self).data@,
            old(self).data@.len() + pool_bytes(old(self).pool@) <= 0xffffffff ==> res.0 is Ok,
    {
        let ghost base = old(self).data@.len() as int;
        let mut offs: Vec<u32> = Vec::new();
        let mut i: usize = 0;
        let np = self.pool.len();
        // First pass: append each distinct content, NUL-terminated.
        while i < np
            invariant
                i <= np,
                np == self.pool@.len(),
                self.pool@ == old(self).pool@,
                self.pending@ == old(self).pending@,
                self.open_slots@ == old(self).open_slots@,
                self.version == old(self).version,
                old(self).data@.len() <= self.data@.len(),
                self.data@.subrange(0, old(self).data@.len() as int) == old(self).data@,
                offs@.len() == i,
                i == 0 ==> self.data@ == old(self).data@,
                self.data@.len() == old(self).data@.len() + pool_bytes(
                    old(self).pool@.subrange(0, i as int),
                ),
                forall|q: int| 0 <= q < offs@.len() ==> (#[trigger] offs@[q]) as int >= old(self).data@.len(),
                forall|q: int| 0 <= q < i ==> crate::has_cstr_at(
                    self.data@,
                    offs@[q] as int,
                    self.pool@[q]@,
                ),
            decreases np - i,
        {
            if self.data.len() > 0xffffffusize * 0x100 + 0xff {
                proof {
                    lemma_pool_bytes_prefix(old(self).pool@, i as int);
                    assert(final(self).data@.subrange(0, old(self).data@.len() as int) =~= old(self).data@);
                }
                return (Err(CodecError::OffsetOverflow), Ghost(Seq::empty()));
            }
            let here = self.data.len() as u32;
            offs.push(here);
            let entry = crate::clone_bytes(&self.pool[i]);
            let m = entry.len();
            let mut q: usize = 0;
            while q < m
                invariant
                    q <= m,
                    m == entry@.len(),
                    entry@ == self.pool@[i as int]@,
                    i < np,
                    np == self.pool@.len(),
                    self.pool@ == old(self).pool@,
                    self.pending@ == old(self).pending@,
                    self.open_slots@ == old(self).open_slots@,
                    self.version == old(self).version,
                    self.data@.len() == here as int + q,
                    old(self).data@.len() <= here as int,
                    self.data@.subrange(0, old(self).data@.len() as int) == old(self).data@,
                    forall|t: int| 0 <= t < q ==> self.data@[here as int + t] == entry@[t],
                    offs@.len() == i + 1,
                    offs@[i as int] == here,
                    forall|q2: int| 0 <= q2 < offs@.len() ==> (#[trigger] offs@[q2]) as int >= old(self).data@.len(),
                    forall|r2: int| 0 <= r2 < i ==> crate::has_cstr_at(
                        self.data@,
                        offs@[r2] as int,
                        self.pool@[r2]@,
                    ),
                decreases m - q,
            {
                self.data.push(entry[q]);
                q = q + 1;
                proof {
                    assert(self.data@.subrange(0, old(self).data@.len() as int) =~= old(self).data@);
                }
            }
            self.data.push(0u8);
            i = i + 1;
            proof {
                assert(self.data@.subrange(0, old(self).data@.len() as int) =~= old(self).data@);
                assert(crate::has_cstr_at(self.data@, here as int, self.pool@[i - 1]@));
                assert(old(self).pool@.subrange(0, i as int).drop_last() =~= old(
                    self,
                ).pool@.subrange(0, i - 1));
                assert(old(self).pool@.subrange(0, i as int).last() == old(self).pool@[i - 1]);
            }
        }
        let ghost mid = self.data@;
        let ghost offsg = offs@.map(|q: int, v: u32| v as int);
        // Second pass: patch every placeholder with its content's offset.
        let mut k: usize = 0;
        let nk = self.pending.len();
        while k < nk
            invariant
                k <= nk,
                nk == self.pending@.len(),
                self.pool@ == old(self).pool@,
                self.pending@ == old(self).pending@,
                self.open_slots@ == old(self).open_slots@,
                self.version == old(self).version,
                self.data@.len() == mid.len(),
                old(self).data@.len() <= mid.len(),
                offs@.len() == self.pool@.len(),
                offsg.len() == self.pool@.len(),
                forall|t: int| 0 <= t < offsg.len() ==> offsg[t] == offs@[t] as int,
                self.wf(),
                mid.subrange(0, old(self).data@.len() as int) == old(self).data@,
                forall|i2: int|
                    0 <= i2 < mid.len() && !(exists|k2: int|
                        0 <= k2 < k && (#[trigger] self.pending@[k2]).0 <= i2
                            < self.pending@[k2].0 + 4) ==> self.data@[i2] == mid[i2],
                forall|k2: int| 0 <= k2 < k ==> le32(
                    self.data@[(#[trigger] self.pending@[k2]).0 as int],
                    self.data@[self.pending@[k2].0 as int + 1],
                    self.data@[self.pending@[k2].0 as int + 2],
                    self.data@[self.pending@[k2].0 as int + 3],
                ) == offsg[self.pending@[k2].1 as int],
            decreases nk - k,
        {
            let (at, pidx) = self.pending[k];
            let v = offs[pidx];
            self.patch_u32(at, v);
            k = k + 1;
        }
        let ghost patched = self.data@;
        proof {
            // Strings appended in the first pass lie at or after the old
            // end of data, placeholders strictly before it: the patches
            // leave every flushed string intact.
            assert forall|q2: int| 0 <= q2 < self.pool@.len() implies crate::has_cstr_at(
                patched,
                offsg[q2],
                self.pool@[q2]@,
            ) by {
                assert(crate::has_cstr_at(mid, offsg[q2], self.pool@[q2]@));
                assert(offsg[q2] >= old(self).data@.len());
                assert(forall|i2: int| old(self).data@.len() <= i2 < mid.len()
                    ==> patched[i2] == mid[i2]);
            }
        }
        proof {
            if old(self).pool@.len() == 0 && old(self).pending@.len() == 0 {
                assert(self.data@ =~= mid);
                assert(self.data@ =~= old(self).data@);
            }
        }
        self.pending = Vec::new();
        self.pool = Vec::new();
        (Ok(()), Ghost(offsg))
    }

    /// Ends the write: hands back the produced bytes, or reports a
    /// reserved slot that was never backfilled.  Call once the string
    /// pool has been flushed.
    pub fn finish(self) -> (res: Result<Vec<u8>, CodecError>)
        requires
            self.wf(),
            self.pending@.len() == 0,
            self.pool@.len() == 0,
        ensures
            res is Ok <==> self.open_slots@.len() == 0,
            res is Ok ==> res->Ok_0@ == self.data@,
            res is Err ==> res->Err_0 == CodecError::UnbackfilledPlaceholder,
    {
        if self.open_slots.len() > 0 {
            Err(CodecError::UnbackfilledPlaceholder)
        } else {
            Ok(self.data)
        }
    }
}

} // verus!
