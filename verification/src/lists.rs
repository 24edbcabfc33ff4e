use vstd::prelude::*;
use crate::error::CodecError;
use crate::reader::Reader;
use crate::writer::Writer;
use crate::le32;

verus! {

/// A record that can cross the byte boundary in both directions.
///
/// `Model` is the record's mathematical value: contracts compare models,
/// since two separately materialized copies of one record are equal as
/// models even when their buffers are distinct allocations.
pub trait Serialize: Sized {
    type Model;

    /// The record's internal invariant.
    spec fn wf(&self) -> bool;

    /// The record's mathematical value.
    spec fn model(&self) -> Self::Model;

    /// A fresh copy with the same model, as the pointer table hands out
    /// for a shared record.
    fn duplicate(&self) -> (r: Self)
        requires
            self.wf(),
        ensures
            r.wf(),
            r.model() == self.model(),
    ;

    /// Reads one record at the cursor.
    fn deserialize(r: &mut Reader) -> (res: Result<Self, CodecError>)
        requires
            old(r).wf(),
        ensures
            final(r).wf(),
            final(r).same_source(old(r)),
            res is Ok ==> res->Ok_0.wf(),
            res is Ok ==> old(r).pos <= final(r).pos,
            res is Err ==> res->Err_0 == CodecError::TruncatedChunk || res->Err_0
                == CodecError::DanglingPointer,
    ;

    /// Writes one record at the end of the output.
    fn serialize(&self, w: &mut Writer) -> (res: Result<(), CodecError>)
        requires
            self.wf(),
            old(w).wf(),
        ensures
            final(w).wf(),
            final(w).version == old(w).version,
            old(w).data@.len() <= final(w).data@.len(),
            final(w).data@.subrange(0, old(w).data@.len() as int) == old(w).data@,
            forall|i: int| 0 <= i < old(w).data@.len() ==> final(w).data@[i] == old(w).data@[i],
            old(w).open_slots@.len() <= final(w).open_slots@.len(),
            forall|j: int| 0 <= j < old(w).open_slots@.len() ==> final(w).open_slots@[j] == old(
                w,
            ).open_slots@[j],
            res is Ok ==> final(w).open_slots@ == old(w).open_slots@,
            old(w).pool@.len() <= final(w).pool@.len(),
            forall|j: int| 0 <= j < old(w).pool@.len() ==> final(w).pool@[j] == old(w).pool@[j],
            old(w).pending@.len() <= final(w).pending@.len(),
            forall|j: int| 0 <= j < old(w).pending@.len() ==> final(w).pending@[j] == old(
                w,
            ).pending@[j],
            forall|j: int| old(w).pending@.len() <= j < final(w).pending@.len() ==> (#[trigger] final(w).pending@[j]).0 >= old(w).data@.len(),
            res is Err ==> res->Err_0 == CodecError::OffsetOverflow,
    ;
}

/// The pre-element side hook of a pointer list: a pure
/// serialization-format concern injected per list instance, not part of
/// the element type.
#[derive(Clone, Copy, Debug, PartialEq, Eq, Structural)]
pub enum ElemHook {
    /// Elements are written back to back.
    NoPad,
    /// Each element's body starts at a multiple of the given alignment.
    PadTo(usize),
}

impl ElemHook {
    pub open spec fn wf(&self) -> bool {
        match *self {
            ElemHook::NoPad => true,
            ElemHook::PadTo(a) => a >= 1,
        }
    }
}

/// Reads a pointer object: one 32-bit absolute offset standing for at
/// most one indirected record; offset zero denotes absence and is never
/// dereferenced.  The cursor advances over the offset only.
pub fn read_pointer_object<T: Serialize>(r: &mut Reader) -> (res: Result<Option<T>, CodecError>)
    requires
        old(r).wf(),
    ensures
        final(r).wf(),
        final(r).same_source(old(r)),
        res is Ok ==> final(r).pos == old(r).pos + 4,
        res is Ok ==> ((res->Ok_0 is Some) <==> le32(
            old(r).data@[old(r).pos as int],
            old(r).data@[old(r).pos + 1],
            old(r).data@[old(r).pos + 2],
            old(r).data@[old(r).pos + 3],
        ) != 0),
        res is Ok && res->Ok_0 is Some ==> res->Ok_0->0.wf(),
        old(r).pos + 4 > old(r).limit ==> res is Err && res->Err_0 == CodecError::TruncatedChunk,
        old(r).pos + 4 <= old(r).limit && le32(
            old(r).data@[old(r).pos as int],
            old(r).data@[old(r).pos + 1],
            old(r).data@[old(r).pos + 2],
            old(r).data@[old(r).pos + 3],
        ) == 0 ==> res is Ok && res->Ok_0 is None,
        res is Err ==> res->Err_0 == CodecError::TruncatedChunk || res->Err_0
            == CodecError::DanglingPointer,
    {
    let off = match r.read_u32() {
        Ok(v) => v,
        Err(e) => {
            return Err(e);
        },
    };
    if off == 0 {
        return Ok(None);
    }
    let save = r.tell();
    match r.seek(off as usize) {
        Ok(()) => (),
        Err(e) => {
            return Err(e);
        },
    }
    let t = match T::deserialize(r) {
        Ok(t) => t,
        Err(e) => {
            return Err(e);
        },
    };
    match r.seek(save) {
        Ok(()) => (),
        Err(e) => {
            return Err(e);
        },
    }
    Ok(Some(t))
}

/// An ordered collection serialized as a count, an offset table, and the
/// element bodies, each element referenced by its absolute offset.
/// Offsets that coincide share one materialized record.
#[derive(Clone, Debug, PartialEq)]
pub struct PointerList<T> {
    pub items: Vec<T>,
}

impl<T: Serialize> PointerList<T> {
    pub open spec fn wf_spec(&self) -> bool {
        &&& self.items@.len() <= 0xffffffff
        &&& forall|i: int| 0 <= i < self.items@.len() ==> (#[trigger] self.items@[i]).wf()
    }

    /// The list's mathematical value: the models of its elements in
    /// order.
    pub open spec fn models(&self) -> Seq<T::Model> {
        self.items@.map(|i: int, t: T| t.model())
    }

    pub fn new() -> (r: PointerList<T>)
        ensures
            r.wf_spec(),
            r.items@.len() == 0,
    {
        PointerList { items: Vec::new() }
    }

    pub fn len(&self) -> (n: usize)
        ensures
            n == self.items@.len(),
    {
        self.items.len()
    }

    pub fn push(&mut self, t: T)
        requires
            old(self).wf_spec(),
            t.wf(),
            old(self).items@.len() < 0xffffffff,
        ensures
            final(self).wf_spec(),
            final(self).items@ == old(self).items@.push(t),
    {
        self.items.push(t);
    }

    /// Reads a list: count, offset table, then one record per slot.  A
    /// slot whose offset was already seen in this list shares the record
    /// materialized for it instead of re-reading: the returned ghost
    /// offsets witness that equal offsets carry equal models.
    #[verifier::loop_isolation(false)]
    pub fn read_with(r: &mut Reader) -> (res: (
        Result<PointerList<T>, CodecError>,
        Ghost<Seq<u32>>,
    ))
        requires
            old(r).wf(),
        ensures
            final(r).wf(),
            final(r).same_source(old(r)),
            old(r).pos + 4 > old(r).limit ==> res.0 is Err,
            res.0 is Ok ==> res.0->Ok_0.wf_spec(),
            res.0 is Ok ==> res.1@.len() == res.0->Ok_0.items@.len(),
            res.0 is Ok ==> res.0->Ok_0.items@.len() as int == le32(
                old(r).data@[old(r).pos as int],
                old(r).data@[old(r).pos + 1],
                old(r).data@[old(r).pos + 2],
                old(r).data@[old(r).pos + 3],
            ),
            res.0 is Ok ==> final(r).pos == old(r).pos + 4 + 4 * res.0->Ok_0.items@.len(),
            res.0 is Ok ==> forall|i: int, j: int|
                0 <= i < res.1@.len() && 0 <= j < res.1@.len() && res.1@[i] == res.1@[j]
                    ==> res.0->Ok_0.items@[i].model() == res.0->Ok_0.items@[j].model(),
            old(r).pos + 4 <= old(r).limit && le32(
                old(r).data@[old(r).pos as int],
                old(r).data@[old(r).pos + 1],
                old(r).data@[old(r).pos + 2],
                old(r).data@[old(r).pos + 3],
            ) == 0 ==> res.0 is Ok && res.0->Ok_0.items@.len() == 0,
            res.0 is Err ==> res.0->Err_0 == CodecError::TruncatedChunk || res.0->Err_0
                == CodecError::DanglingPointer,
    {
        let count32 = match r.read_u32() {
            Ok(v) => v,
            Err(e) => {
                return (Err(e), Ghost(Seq::empty()));
            },
        };
        let count = count32 as usize;
        let mut offs: Vec<u32> = Vec::new();
        let mut k: usize = 0;
        while k < count
            invariant
                r.wf(),
                r.same_source(old(r)),
                k <= count,
                offs@.len() == k,
                r.pos == old(r).pos + 4 + 4 * k,
            decreases count - k,
        {
            let o = match r.read_u32() {
                Ok(v) => v,
                Err(e) => {
                    return (Err(e), Ghost(Seq::empty()));
                },
            };
            offs.push(o);
            k = k + 1;
        }
        let table_end = r.tell();
        let ghost offsg = offs@;
        let mut items: Vec<T> = Vec::new();
        let mut seen: Vec<(u32, usize)> = Vec::new();
        let mut k2: usize = 0;
        while k2 < count
            invariant
                r.wf(),
                r.same_source(old(r)),
                table_end <= r.limit,
                count == offsg.len(),
                offs@ == offsg,
                k2 <= count,
                items@.len() == k2,
                forall|i: int| 0 <= i < items@.len() ==> (#[trigger] items@[i]).wf(),
                forall|s: int| 0 <= s < seen@.len() ==> (#[trigger] seen@[s]).1 < items@.len(),
                forall|s1: int, s2: int| 0 <= s1 < s2 < seen@.len() ==> seen@[s1].0
                    != seen@[s2].0,
                forall|i: int| #![trigger offsg[i]] 0 <= i < k2 ==> exists|s: int|
                    0 <= s < seen@.len() && (#[trigger] seen@[s]).0 == offsg[i] && items@[i].model()
                        == items@[seen@[s].1 as int].model(),
            decreases count - k2,
        {
            let off = offs[k2];
            let ns = seen.len();
            let mut s: usize = 0;
            let mut found: bool = false;
            let mut fidx: usize = 0;
            while s < ns
                invariant
                    s <= ns,
                    ns == seen@.len(),
                    !found ==> forall|t: int| 0 <= t < s ==> seen@[t].0 != off,
                    found ==> fidx < seen@.len() && seen@[fidx as int].0 == off,
                decreases ns - s,
            {
                if !found && seen[s].0 == off {
                    found = true;
                    fidx = s;
                }
                s = s + 1;
            }
            if found {
                let src = seen[fidx].1;
                let d = items[src].duplicate();
                let ghost pre = items@;
                items.push(d);
                proof {
                    assert forall|i: int| #![trigger offsg[i]] 0 <= i < k2 + 1 implies exists|
                        s: int,
                    |
                        0 <= s < seen@.len() && (#[trigger] seen@[s]).0 == offsg[i]
                            && items@[i].model() == items@[seen@[s].1 as int].model() by {
                        if i < k2 {
                            let s0 = choose|s: int|
                                0 <= s < seen@.len() && (#[trigger] seen@[s]).0 == offsg[i]
                                    && pre[i].model() == pre[seen@[s].1 as int].model();
                            assert(seen@[s0].0 == offsg[i] && items@[i].model() == items@[seen@[s0].1 as int].model());
                        } else {
                            assert(seen@[fidx as int].0 == offsg[i] && items@[i].model()
                                == items@[seen@[fidx as int].1 as int].model());
                        }
                    }
                }
            } else {
                match r.seek(off as usize) {
                    Ok(()) => (),
                    Err(e) => {
                        return (Err(e), Ghost(Seq::empty()));
                    },
                }
                let t = match T::deserialize(r) {
                    Ok(t) => t,
                    Err(e) => {
                        return (Err(e), Ghost(Seq::empty()));
                    },
                };
                let ghost pre = items@;
                let ghost preseen = seen@;
                let at = items.len();
                seen.push((off, at));
                items.push(t);
                proof {
                    assert forall|i: int| #![trigger offsg[i]] 0 <= i < k2 + 1 implies exists|
                        s: int,
                    |
                        0 <= s < seen@.len() && (#[trigger] seen@[s]).0 == offsg[i]
                            && items@[i].model() == items@[seen@[s].1 as int].model() by {
                        if i < k2 {
                            let s0 = choose|s: int|
                                0 <= s < preseen.len() && (#[trigger] preseen[s]).0 == offsg[i]
                                    && pre[i].model() == pre[preseen[s].1 as int].model();
                            assert(seen@[s0] == preseen[s0]);
                            assert(seen@[s0].0 == offsg[i] && items@[i].model() == items@[seen@[s0].1 as int].model());
                        } else {
                            let s0 = preseen.len() as int;
                            assert(seen@[s0].0 == offsg[i] && items@[i].model() == items@[seen@[s0].1 as int].model());
                        }
                    }
                }
            }
            k2 = k2 + 1;
        }
        match r.seek(table_end) {
            Ok(()) => (),
            Err(e) => {
                return (Err(e), Ghost(Seq::empty()));
            },
        }
        proof {
            assert forall|i: int, j: int|
                0 <= i < offsg.len() && 0 <= j < offsg.len() && offsg[i] == offsg[j] implies items@[
                i
            ].model() == items@[j].model() by {
                let si = choose|s: int|
                    0 <= s < seen@.len() && (#[trigger] seen@[s]).0 == offsg[i] && items@[i].model()
                        == items@[seen@[s].1 as int].model();
                let sj = choose|s: int|
                    0 <= s < seen@.len() && (#[trigger] seen@[s]).0 == offsg[j] && items@[j].model()
                        == items@[seen@[s].1 as int].model();
                if si != sj {
                    assert(seen@[si].0 != seen@[sj].0);
                }
            }
        }
        (Ok(PointerList { items }), Ghost(offsg))
    }

    /// Writes a list in two passes: the count, a reserved offset table,
    /// then each element body in list order (preceded by the hook's
    /// padding), and finally the table backfilled with the recorded body
    /// offsets.  The returned ghost offsets are the backfilled table
    /// values: with a padding hook every one is a multiple of the
    /// alignment, and an empty list is exactly its four count bytes.
    #[verifier::loop_isolation(false)]
    pub fn write_with(&self, w: &mut Writer, hook: ElemHook) -> (res: (
        Result<(), CodecError>,
        Ghost<Seq<u32>>,
    ))
        requires
            self.wf_spec(),
            old(w).wf(),
            hook.wf(),
        ensures
            final(w).wf(),
            final(w).version == old(w).version,
            old(w).data@.len() <= final(w).data@.len(),
            final(w).data@.subrange(0, old(w).data@.len() as int) == old(w).data@,
            old(w).open_slots@.len() <= final(w).open_slots@.len(),
            forall|j: int| 0 <= j < old(w).open_slots@.len() ==> final(w).open_slots@[j] == old(
                w,
            ).open_slots@[j],
            res.0 is Ok ==> final(w).open_slots@ == old(w).open_slots@,
            old(w).pool@.len() <= final(w).pool@.len(),
            forall|j: int| 0 <= j < old(w).pool@.len() ==> final(w).pool@[j] == old(w).pool@[j],
            old(w).pending@.len() <= final(w).pending@.len(),
            forall|j: int| 0 <= j < old(w).pending@.len() ==> final(w).pending@[j] == old(
                w,
            ).pending@[j],
            forall|j: int| old(w).pending@.len() <= j < final(w).pending@.len() ==> (#[trigger] final(w).pending@[j]).0 >= old(w).data@.len(),
            res.0 is Ok ==> le32(
                final(w).data@[old(w).data@.len() as int],
                final(w).data@[old(w).data@.len() as int + 1],
                final(w).data@[old(w).data@.len() as int + 2],
                final(w).data@[old(w).data@.len() as int + 3],
            ) == self.items@.len(),
            res.0 is Ok ==> res.1@.len() == self.items@.len(),
            res.0 is Ok ==> final(w).data@.len() >= old(w).data@.len() + 4 + 4
                * self.items@.len(),
            res.0 is Ok ==> forall|k: int| #![trigger res.1@[k]] 0 <= k < res.1@.len() ==> le32(
                final(w).data@[old(w).data@.len() + 4 + 4 * k],
                final(w).data@[old(w).data@.len() + 4 + 4 * k + 1],
                final(w).data@[old(w).data@.len() + 4 + 4 * k + 2],
                final(w).data@[old(w).data@.len() + 4 + 4 * k + 3],
            ) == res.1@[k] as int,
            res.0 is Ok ==> forall|k: int| #![trigger res.1@[k]] 0 <= k < res.1@.len()
                ==> res.1@[k] as int >= old(w).data@.len() + 4 + 4 * self.items@.len(),
            res.0 is Ok ==> forall|k: int| #![trigger res.1@[k]]
                0 <= k < res.1@.len() ==> (hook matches ElemHook::PadTo(a) ==> res.1@[k] as int
                    % (a as int) == 0),
            self.items@.len() == 0 ==> res.0 is Ok && final(w).data@.len() == old(w).data@.len()
                + 4 && final(w).pending@ == old(w).pending@ && final(w).pool@ == old(w).pool@,
            res.0 is Err ==> res.0->Err_0 == CodecError::OffsetOverflow,
    {
        let ghost base = old(w).data@.len() as int;
        let count = self.items.len();
        w.write_u32(count as u32);
        if count == 0 {
            return (Ok(()), Ghost(Seq::empty()));
        }
        // Pass one: reserve the offset table.
        let mut slots: Vec<usize> = Vec::new();
        let mut k: usize = 0;
        while k < count
            invariant
                w.wf(),
                w.version == old(w).version,
                w.pool@ == old(w).pool@,
                w.pending@ == old(w).pending@,
                k <= count,
                slots@.len() == k,
                w.data@.len() == base + 4 + 4 * k,
                w.data@.subrange(0, base) == old(w).data@,
                le32(w.data@[base], w.data@[base + 1], w.data@[base + 2], w.data@[base + 3])
                    == count,
                forall|t: int| 0 <= t < k ==> (#[trigger] slots@[t]) == base + 4 + 4 * t,
                w.open_slots@ == old(w).open_slots@ + slots@,
            decreases count - k,
        {
            let s = w.reserve_u32();
            slots.push(s);
            k = k + 1;
            proof {
                assert(w.data@.subrange(0, base) =~= old(w).data@);
                assert(w.open_slots@ =~= old(w).open_slots@ + slots@);
            }
        }
        let ghost table_end = base + 4 + 4 * count;
        // Pass two: the element bodies, recording each start offset.
        let mut offs: Vec<u32> = Vec::new();
        let mut k2: usize = 0;
        while k2 < count
            invariant
                w.wf(),
                w.version == old(w).version,
                count == self.items@.len(),
                k2 <= count,
                offs@.len() == k2,
                slots@.len() == count,
                forall|t: int| 0 <= t < count ==> (#[trigger] slots@[t]) == base + 4 + 4 * t,
                w.open_slots@ == old(w).open_slots@ + slots@,
                table_end == base + 4 + 4 * count,
                table_end <= w.data@.len(),
                w.data@.subrange(0, base) == old(w).data@,
                le32(w.data@[base], w.data@[base + 1], w.data@[base + 2], w.data@[base + 3])
                    == count,
                forall|t: int| 0 <= t < k2 ==> (#[trigger] offs@[t]) as int >= table_end,
                forall|t: int| 0 <= t < k2 ==> (hook matches ElemHook::PadTo(a)
                    ==> (#[trigger] offs@[t]) as int % (a as int) == 0),
                old(w).pool@.len() <= w.pool@.len(),
                forall|j: int| 0 <= j < old(w).pool@.len() ==> w.pool@[j] == old(w).pool@[j],
                old(w).pending@.len() <= w.pending@.len(),
                forall|j: int| 0 <= j < old(w).pending@.len() ==> w.pending@[j] == old(
                    w,
                ).pending@[j],
                forall|j: int| old(w).pending@.len() <= j < w.pending@.len() ==> (#[trigger] w.pending@[j]).0 >= old(w).data@.len(),
            decreases count - k2,
        {
            match hook {
                ElemHook::PadTo(a) => w.pad(a),
                ElemHook::NoPad => (),
            }
            let here = w.tell();
            if here > 0xffffffffusize {
                return (Err(CodecError::OffsetOverflow), Ghost(Seq::empty()));
            }
            offs.push(here as u32);
            match self.items[k2].serialize(w) {
                Ok(()) => (),
                Err(e) => {
                    return (Err(e), Ghost(Seq::empty()));
                },
            }
            k2 = k2 + 1;
            proof {
                assert(w.data@.subrange(0, base) =~= old(w).data@);
            }
        }
        // Backfill the table with the recorded offsets.
        let ghost body_end = w.data@;
        let ghost body_pool = w.pool@;
        let ghost body_pending = w.pending@;
        let mut k3: usize = 0;
        while k3 < count
            invariant
                w.wf(),
                w.version == old(w).version,
                count == self.items@.len(),
                k3 <= count,
                offs@.len() == count,
                slots@.len() == count,
                forall|t: int| 0 <= t < count ==> (#[trigger] slots@[t]) == base + 4 + 4 * t,
                w.open_slots@ == old(w).open_slots@ + slots@.skip(k3 as int),
                table_end == base + 4 + 4 * count,
                table_end <= w.data@.len(),
                w.data@.len() == body_end.len(),
                forall|i: int|
                    0 <= i < body_end.len() && !(base + 4 <= i < base + 4 + 4 * k3)
                        ==> w.data@[i] == body_end[i],
                forall|t: int| #![trigger offs@[t]] 0 <= t < k3 ==> le32(
                    w.data@[base + 4 + 4 * t],
                    w.data@[base + 4 + 4 * t + 1],
                    w.data@[base + 4 + 4 * t + 2],
                    w.data@[base + 4 + 4 * t + 3],
                ) == offs@[t] as int,
                w.pool@ == body_pool,
                w.pending@ == body_pending,
            decreases count - k3,
        {
            let slot = slots[k3];
            let v = offs[k3];
            proof {
                assert(w.open_slots@[old(w).open_slots@.len() as int] == slots@[k3 as int]);
                assert(w.open_slots@.contains(slot));
            }
            w.backfill_u32(slot, v);
            proof {
                let removed = choose|i: int|
                    0 <= i < (old(w).open_slots@ + slots@.skip(k3 as int)).len() && (old(
                        w,
                    ).open_slots@ + slots@.skip(k3 as int))[i] == slot && w.open_slots@ == (old(
                        w,
                    ).open_slots@ + slots@.skip(k3 as int)).remove(i);
                assert(removed == old(w).open_slots@.len()) by {
                    if removed < old(w).open_slots@.len() {
                        assert(old(w).open_slots@[removed] + 4 <= old(w).data@.len());
                    }
                    if removed > old(w).open_slots@.len() {
                        assert((old(w).open_slots@ + slots@.skip(k3 as int))[removed]
                            == slots@[k3 + (removed - old(w).open_slots@.len())]);
                    }
                }
                assert(w.open_slots@ =~= old(w).open_slots@ + slots@.skip(k3 + 1));
            }
            k3 = k3 + 1;
        }
        proof {
            assert(w.data@.subrange(0, base) =~= old(w).data@);
            assert(w.open_slots@ =~= old(w).open_slots@ + slots@.skip(count as int));
            assert(slots@.skip(count as int) =~= Seq::<usize>::empty());
            assert(w.open_slots@ =~= old(w).open_slots@);
        }
        (Ok(()), Ghost(offs@))
    }
}

impl<T: Serialize> Serialize for PointerList<T> {
    type Model = Seq<<T as Serialize>::Model>;

    open spec fn wf(&self) -> bool {
        self.wf_spec()
    }

    open spec fn model(&self) -> Seq<<T as Serialize>::Model> {
        self.models()
    }

    #[verifier::loop_isolation(false)]
    fn duplicate(&self) -> (r: Self) {
        let mut items: Vec<T> = Vec::new();
        let n = self.items.len();
        let mut i: usize = 0;
        while i < n
            invariant
                i <= n,
                n == self.items@.len(),
                items@.len() == i,
                forall|t: int| 0 <= t < i ==> (#[trigger] items@[t]).wf(),
                forall|t: int| 0 <= t < i ==> (#[trigger] items@[t]).model()
                    == self.items@[t].model(),
            decreases n - i,
        {
            let d = self.items[i].duplicate();
            items.push(d);
            i = i + 1;
        }
        let r = PointerList { items };
        proof {
            assert(r.models() =~= self.models());
        }
        r
    }

    fn deserialize(r: &mut Reader) -> (res: Result<Self, CodecError>) {
        let (res, _offs) = PointerList::<T>::read_with(r);
        res
    }

    fn serialize(&self, w: &mut Writer) -> (res: Result<(), CodecError>) {
        let (res, _offs) = self.write_with(w, ElemHook::NoPad);
        res
    }
}

impl<T: Serialize> Default for PointerList<T> {
    /// An empty list.
    fn default() -> (r: Self)
        ensures
            r.wf_spec(),
            r.items@.len() == 0,
    {
        PointerList::new()
    }
}

} // verus!
