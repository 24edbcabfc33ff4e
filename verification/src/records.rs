use vstd::prelude::*;
use crate::error::CodecError;
use crate::reader::Reader;
use crate::writer::Writer;
use crate::version::VersionContext;
use crate::lists::{ElemHook, PointerList, Serialize, read_pointer_object};
use crate::{clone_bytes, nul_free};

verus! {

// The bit values the extension records store, kept verbatim in an i32
// container so that unknown bits round-trip unchanged.
pub const EXTENSION_KIND_UNKNOWN0: i32 = 0;

pub const EXTENSION_KIND_DLL: i32 = 1;

pub const EXTENSION_KIND_GML: i32 = 2;

pub const EXTENSION_KIND_UNKNOWN3: i32 = 3;

pub const EXTENSION_KIND_GENERIC: i32 = 4;

pub const EXTENSION_KIND_JS: i32 = 5;

pub const EXTENSION_VALUE_STRING: i32 = 1;

pub const EXTENSION_VALUE_DOUBLE: i32 = 2;

pub const OPTION_KIND_BOOLEAN: i32 = 0;

pub const OPTION_KIND_STRING: i32 = 1;

pub const OPTION_KIND_DOUBLE: i32 = 2;

/// The kind of an extension file, stored as raw bits.
#[derive(Clone, Copy, Debug, PartialEq, Eq, Structural)]
pub struct ExtensionKind {
    pub bits: i32,
}

impl ExtensionKind {
    pub fn from_bits_retain(bits: i32) -> (r: ExtensionKind)
        ensures
            r.bits == bits,
    {
        ExtensionKind { bits }
    }

    pub fn bits(&self) -> (r: i32)
        ensures
            r == self.bits,
    {
        self.bits
    }
}

/// The declared type of an extension function value, stored as raw bits.
#[derive(Clone, Copy, Debug, PartialEq, Eq, Structural)]
pub struct ExtensionValueType {
    pub bits: i32,
}

impl ExtensionValueType {
    pub fn from_bits_retain(bits: i32) -> (r: ExtensionValueType)
        ensures
            r.bits == bits,
    {
        ExtensionValueType { bits }
    }

    pub fn bits(&self) -> (r: i32)
        ensures
            r == self.bits,
    {
        self.bits
    }
}

impl Default for ExtensionValueType {
    /// The double type, as the format's records default to.
    fn default() -> (r: Self)
        ensures
            r.bits == EXTENSION_VALUE_DOUBLE,
    {
        ExtensionValueType { bits: EXTENSION_VALUE_DOUBLE }
    }
}

/// The kind of an extension option value, stored as raw bits.
#[derive(Clone, Copy, Debug, PartialEq, Eq, Structural)]
pub struct OptionKind {
    pub bits: i32,
}

impl OptionKind {
    pub fn from_bits_retain(bits: i32) -> (r: OptionKind)
        ensures
            r.bits == bits,
    {
        OptionKind { bits }
    }

    pub fn bits(&self) -> (r: i32)
        ensures
            r == self.bits,
    {
        self.bits
    }
}

/// A named constant: two pooled strings.
#[derive(Clone, Debug, PartialEq)]
pub struct Constant {
    pub name: Vec<u8>,
    pub value: Vec<u8>,
}

impl Constant {
    /// Reads a constant: two pointer strings, each the string stored at
    /// the offset its slot holds.
    pub fn read_from(r: &mut Reader) -> (res: Result<Constant, CodecError>)
        requires
            old(r).wf(),
        ensures
            final(r).wf(),
            final(r).same_source(old(r)),
            res is Ok ==> res->Ok_0.wf(),
            res is Ok ==> final(r).pos == old(r).pos + 8,
            res is Ok ==> crate::has_cstr_at(
                old(r).data@,
                crate::le32(
                    old(r).data@[old(r).pos as int],
                    old(r).data@[old(r).pos + 1],
                    old(r).data@[old(r).pos + 2],
                    old(r).data@[old(r).pos + 3],
                ),
                res->Ok_0.name@,
            ),
            res is Ok ==> crate::has_cstr_at(
                old(r).data@,
                crate::le32(
                    old(r).data@[old(r).pos + 4],
                    old(r).data@[old(r).pos + 5],
                    old(r).data@[old(r).pos + 6],
                    old(r).data@[old(r).pos + 7],
                ),
                res->Ok_0.value@,
            ),
            res is Ok <==> old(r).pos + 8 <= old(r).limit && crate::zero_from(
                old(r).data@,
                crate::le32(
                    old(r).data@[old(r).pos as int],
                    old(r).data@[old(r).pos + 1],
                    old(r).data@[old(r).pos + 2],
                    old(r).data@[old(r).pos + 3],
                ),
            ) && crate::zero_from(
                old(r).data@,
                crate::le32(
                    old(r).data@[old(r).pos + 4],
                    old(r).data@[old(r).pos + 5],
                    old(r).data@[old(r).pos + 6],
                    old(r).data@[old(r).pos + 7],
                ),
            ),
            res is Err ==> res->Err_0 == CodecError::TruncatedChunk || res->Err_0
                == CodecError::DanglingPointer,
    {
        let name = match r.read_pointer_string() {
            Ok(v) => v,
            Err(e) => {
                return Err(e);
            },
        };
        let value = match r.read_pointer_string() {
            Ok(v) => v,
            Err(e) => {
                return Err(e);
            },
        };
        Ok(Constant { name, value })
    }

    /// Writes a constant: two pooled string placeholders, recorded for
    /// the flush to resolve.
    pub fn write_to(&self, w: &mut Writer)
        requires
            self.wf(),
            old(w).wf(),
        ensures
            final(w).wf(),
            final(w).version == old(w).version,
            final(w).data@.len() == old(w).data@.len() + 8,
            final(w).data@.subrange(0, old(w).data@.len() as int) == old(w).data@,
            final(w).open_slots@ == old(w).open_slots@,
            old(w).pool@.len() <= final(w).pool@.len(),
            forall|j: int| 0 <= j < old(w).pool@.len() ==> final(w).pool@[j] == old(w).pool@[j],
            final(w).pending@.len() == old(w).pending@.len() + 2,
            forall|j: int| 0 <= j < old(w).pending@.len() ==> final(w).pending@[j] == old(w).pending@[j],
            (#[trigger] final(w).pending@[old(w).pending@.len() as int]).0 == old(w).data@.len(),
            final(w).pending@[old(w).pending@.len() as int].1 < final(w).pool@.len(),
            final(w).pool@[final(w).pending@[old(w).pending@.len() as int].1 as int]@
                == self.name@,
            (#[trigger] final(w).pending@[old(w).pending@.len() as int + 1]).0 == old(w).data@.len() + 4,
            final(w).pending@[old(w).pending@.len() as int + 1].1 < final(w).pool@.len(),
            final(w).pool@[final(w).pending@[old(w).pending@.len() as int + 1].1 as int]@
                == self.value@,
            crate::writer::pool_bytes(final(w).pool@) <= crate::writer::pool_bytes(
                old(w).pool@,
            ) + self.name@.len() + self.value@.len() + 2,
    {
        let _ = w.write_pointer_string(&self.name);
        let _ = w.write_pointer_string(&self.value);
        proof {
            assert(w.data@.subrange(0, old(w).data@.len() as int) =~= old(w).data@);
        }
    }
}

impl Serialize for Constant {
    type Model = (Seq<u8>, Seq<u8>);

    open spec fn wf(&self) -> bool {
        nul_free(self.name@) && nul_free(self.value@)
    }

    open spec fn model(&self) -> (Seq<u8>, Seq<u8>) {
        (self.name@, self.value@)
    }

    fn duplicate(&self) -> (r: Self) {
        Constant { name: clone_bytes(&self.name), value: clone_bytes(&self.value) }
    }

    fn deserialize(r: &mut Reader) -> (res: Result<Self, CodecError>) {
        Constant::read_from(r)
    }

    fn serialize(&self, w: &mut Writer) -> (res: Result<(), CodecError>) {
        self.write_to(w);
        Ok(())
    }
}

/// A configurable option of an extension.
#[derive(Clone, Debug, PartialEq)]
pub struct ExtensionOption {
    pub name: Vec<u8>,
    pub value: Vec<u8>,
    pub kind: OptionKind,
}

impl Default for ExtensionOption {
    fn default() -> (r: Self)
        ensures
            r.name@.len() == 0,
            r.value@.len() == 0,
            r.kind.bits == OPTION_KIND_DOUBLE,
    {
        ExtensionOption { name: Vec::new(), value: Vec::new(), kind: OptionKind { bits: OPTION_KIND_DOUBLE } }
    }
}

impl ExtensionOption {
    /// Reads an option: two pointer strings, then the kind bits kept
    /// verbatim.
    pub fn read_from(r: &mut Reader) -> (res: Result<ExtensionOption, CodecError>)
        requires
            old(r).wf(),
        ensures
            final(r).wf(),
            final(r).same_source(old(r)),
            res is Ok ==> res->Ok_0.wf(),
            res is Ok ==> final(r).pos == old(r).pos + 12,
            res is Ok ==> crate::has_cstr_at(
                old(r).data@,
                crate::le32_at(old(r).data@, old(r).pos as int),
                res->Ok_0.name@,
            ),
            res is Ok ==> crate::has_cstr_at(
                old(r).data@,
                crate::le32_at(old(r).data@, old(r).pos + 4),
                res->Ok_0.value@,
            ),
            res is Ok ==> res->Ok_0.kind.bits as int == crate::le32s_at(
                old(r).data@,
                old(r).pos + 8,
            ),
            res is Ok <==> old(r).pos + 12 <= old(r).limit && crate::zero_from(
                old(r).data@,
                crate::le32_at(old(r).data@, old(r).pos as int),
            ) && crate::zero_from(old(r).data@, crate::le32_at(old(r).data@, old(r).pos + 4)),
            res is Err ==> res->Err_0 == CodecError::TruncatedChunk || res->Err_0
                == CodecError::DanglingPointer,
    {
        let name = match r.read_pointer_string() {
            Ok(v) => v,
            Err(e) => {
                return Err(e);
            },
        };
        let value = match r.read_pointer_string() {
            Ok(v) => v,
            Err(e) => {
                return Err(e);
            },
        };
        let bits = match r.read_i32() {
            Ok(v) => v,
            Err(e) => {
                return Err(e);
            },
        };
        Ok(ExtensionOption { name, value, kind: OptionKind::from_bits_retain(bits) })
    }

    /// Writes an option: two pooled string placeholders, then the kind
    /// bits.
    pub fn write_to(&self, w: &mut Writer)
        requires
            self.wf(),
            old(w).wf(),
        ensures
            final(w).wf(),
            final(w).version == old(w).version,
            final(w).data@.len() == old(w).data@.len() + 12,
            final(w).data@.subrange(0, old(w).data@.len() as int) == old(w).data@,
            forall|i: int| 0 <= i < old(w).data@.len() ==> final(w).data@[i] == old(w).data@[i],
            final(w).open_slots@ == old(w).open_slots@,
            old(w).pool@.len() <= final(w).pool@.len(),
            forall|j: int| 0 <= j < old(w).pool@.len() ==> final(w).pool@[j] == old(w).pool@[j],
            forall|j: int| 0 <= j < old(w).pending@.len() ==> final(w).pending@[j] == old(w).pending@[j],
            final(w).pending@.len() == old(w).pending@.len() + 2,
            final(w).pending@[old(w).pending@.len() as int].0 == old(w).data@.len(),
            final(w).pool@[final(w).pending@[old(w).pending@.len() as int].1 as int]@ == self.name@,
            final(w).pending@[old(w).pending@.len() as int + 1].0 == old(w).data@.len() + 4,
            final(w).pool@[final(w).pending@[old(w).pending@.len() as int + 1].1 as int]@ == self.value@,
            crate::le32s_at(final(w).data@, old(w).data@.len() as int + 8) == self.kind.bits
                as int,
    {
        let _ = w.write_pointer_string(&self.name);
        let _ = w.write_pointer_string(&self.value);
        w.write_i32(self.kind.bits());
        proof {
            assert(w.data@.subrange(0, old(w).data@.len() as int) =~= old(w).data@);
        }
    }
}

impl Serialize for ExtensionOption {
    type Model = (Seq<u8>, Seq<u8>, int);

    open spec fn wf(&self) -> bool {
        nul_free(self.name@) && nul_free(self.value@)
    }

    open spec fn model(&self) -> (Seq<u8>, Seq<u8>, int) {
        (self.name@, self.value@, self.kind.bits as int)
    }

    fn duplicate(&self) -> (r: Self) {
        ExtensionOption {
            name: clone_bytes(&self.name),
            value: clone_bytes(&self.value),
            kind: self.kind,
        }
    }

    fn deserialize(r: &mut Reader) -> (res: Result<Self, CodecError>) {
        ExtensionOption::read_from(r)
    }

    fn serialize(&self, w: &mut Writer) -> (res: Result<(), CodecError>) {
        self.write_to(w);
        Ok(())
    }
}

/// One callable function exported by an extension file.
#[derive(Clone, Debug, PartialEq)]
pub struct ExtensionFunction {
    pub name: Vec<u8>,
    pub id: i32,
    pub kind: i32,
    pub return_type: ExtensionValueType,
    pub external_name: Vec<u8>,
    pub argument_types: Vec<ExtensionValueType>,
}

impl Default for ExtensionFunction {
    fn default() -> (r: Self)
        ensures
            r.name@.len() == 0,
            r.id == 0,
            r.kind == 0,
            r.return_type.bits == EXTENSION_VALUE_DOUBLE,
            r.external_name@.len() == 0,
            r.argument_types@.len() == 0,
    {
        ExtensionFunction {
            name: Vec::new(),
            id: 0,
            kind: 0,
            return_type: ExtensionValueType { bits: EXTENSION_VALUE_DOUBLE },
            external_name: Vec::new(),
            argument_types: Vec::new(),
        }
    }
}

impl ExtensionFunction {
    /// Reads a function: name pointer, identity, kind, return-type bits,
    /// external-name pointer, then a counted run of argument-type bits,
    /// all little-endian and kept verbatim.
    #[verifier::loop_isolation(false)]
    pub fn read_from(r: &mut Reader) -> (res: Result<ExtensionFunction, CodecError>)
        requires
            old(r).wf(),
        ensures
            final(r).wf(),
            final(r).same_source(old(r)),
            res is Ok ==> res->Ok_0.wf(),
            res is Ok ==> final(r).pos == old(r).pos + 24 + 4 * res->Ok_0.argument_types@.len(),
            res is Ok ==> crate::has_cstr_at(
                old(r).data@,
                crate::le32_at(old(r).data@, old(r).pos as int),
                res->Ok_0.name@,
            ),
            res is Ok ==> res->Ok_0.id as int == crate::le32s_at(old(r).data@, old(r).pos + 4),
            res is Ok ==> res->Ok_0.kind as int == crate::le32s_at(old(r).data@, old(r).pos + 8),
            res is Ok ==> res->Ok_0.return_type.bits as int == crate::le32s_at(
                old(r).data@,
                old(r).pos + 12,
            ),
            res is Ok ==> crate::has_cstr_at(
                old(r).data@,
                crate::le32_at(old(r).data@, old(r).pos + 16),
                res->Ok_0.external_name@,
            ),
            res is Ok ==> res->Ok_0.argument_types@.len() as int == crate::le32_at(
                old(r).data@,
                old(r).pos + 20,
            ),
            res is Ok ==> forall|k: int| 0 <= k < res->Ok_0.argument_types@.len()
                ==> (#[trigger] res->Ok_0.argument_types@[k]).bits as int == crate::le32s_at(
                old(r).data@,
                old(r).pos + 24 + 4 * k,
            ),
            res is Ok <==> old(r).pos + 24 <= old(r).limit && crate::zero_from(
                old(r).data@,
                crate::le32_at(old(r).data@, old(r).pos as int),
            ) && crate::zero_from(old(r).data@, crate::le32_at(old(r).data@, old(r).pos + 16))
                && old(r).pos + 24 + 4 * crate::le32_at(old(r).data@, old(r).pos + 20) <= old(
                r,
            ).limit,
            res is Err ==> res->Err_0 == CodecError::TruncatedChunk || res->Err_0
                == CodecError::DanglingPointer,
    {
        let name = match r.read_pointer_string() {
            Ok(v) => v,
            Err(e) => {
                return Err(e);
            },
        };
        let id = match r.read_i32() {
            Ok(v) => v,
            Err(e) => {
                return Err(e);
            },
        };
        let kind = match r.read_i32() {
            Ok(v) => v,
            Err(e) => {
                return Err(e);
            },
        };
        let rt = match r.read_i32() {
            Ok(v) => v,
            Err(e) => {
                return Err(e);
            },
        };
        let external_name = match r.read_pointer_string() {
            Ok(v) => v,
            Err(e) => {
                return Err(e);
            },
        };
        let count32 = match r.read_u32() {
            Ok(v) => v,
            Err(e) => {
                return Err(e);
            },
        };
        let count = count32 as usize;
        let mut argument_types: Vec<ExtensionValueType> = Vec::new();
        let mut i: usize = 0;
        while i < count
            invariant
                r.wf(),
                r.same_source(old(r)),
                i <= count,
                count as int == crate::le32_at(old(r).data@, old(r).pos + 20),
                r.pos == old(r).pos + 24 + 4 * i,
                argument_types@.len() == i,
                forall|k: int| 0 <= k < i ==> (#[trigger] argument_types@[k]).bits as int
                    == crate::le32s_at(old(r).data@, old(r).pos + 24 + 4 * k),
            decreases count - i,
        {
            let bits = match r.read_i32() {
                Ok(v) => v,
                Err(e) => {
                    return Err(e);
                },
            };
            argument_types.push(ExtensionValueType::from_bits_retain(bits));
            i = i + 1;
        }
        Ok(
            ExtensionFunction {
                name,
                id,
                kind,
                return_type: ExtensionValueType::from_bits_retain(rt),
                external_name,
                argument_types,
            },
        )
    }

    /// Writes a function: the layout mirrors `read_from` — two pooled
    /// string placeholders, four little-endian integers, the argument
    /// count, then one integer per argument type, 24 + 4n inline bytes
    /// in all.
    #[verifier::loop_isolation(false)]
    pub fn write_to(&self, w: &mut Writer)
        requires
            self.wf(),
            old(w).wf(),
        ensures
            final(w).wf(),
            final(w).version == old(w).version,
            final(w).data@.len() == old(w).data@.len() + 24 + 4 * self.argument_types@.len(),
            final(w).data@.subrange(0, old(w).data@.len() as int) == old(w).data@,
            forall|i: int| 0 <= i < old(w).data@.len() ==> final(w).data@[i] == old(w).data@[i],
            final(w).open_slots@ == old(w).open_slots@,
            old(w).pool@.len() <= final(w).pool@.len(),
            forall|j: int| 0 <= j < old(w).pool@.len() ==> final(w).pool@[j] == old(w).pool@[j],
            forall|j: int| 0 <= j < old(w).pending@.len() ==> final(w).pending@[j] == old(w).pending@[j],
            final(w).pending@.len() == old(w).pending@.len() + 2,
            final(w).pending@[old(w).pending@.len() as int].0 == old(w).data@.len(),
            final(w).pool@[final(w).pending@[old(w).pending@.len() as int].1 as int]@
                == self.name@,
            final(w).pending@[old(w).pending@.len() as int + 1].0 == old(w).data@.len() + 16,
            final(w).pool@[final(w).pending@[old(w).pending@.len() as int + 1].1 as int]@
                == self.external_name@,
            crate::le32s_at(final(w).data@, old(w).data@.len() as int + 4) == self.id as int,
            crate::le32s_at(final(w).data@, old(w).data@.len() as int + 8) == self.kind as int,
            crate::le32s_at(final(w).data@, old(w).data@.len() as int + 12)
                == self.return_type.bits as int,
            crate::le32_at(final(w).data@, old(w).data@.len() as int + 20)
                == self.argument_types@.len(),
            forall|k: int| 0 <= k < self.argument_types@.len() ==> crate::le32s_at(
                final(w).data@,
                old(w).data@.len() as int + 24 + 4 * k,
            ) == (#[trigger] self.argument_types@[k]).bits as int,
    {
        let ghost base = old(w).data@.len() as int;
        let _ = w.write_pointer_string(&self.name);
        w.write_i32(self.id);
        w.write_i32(self.kind);
        w.write_i32(self.return_type.bits());
        let _ = w.write_pointer_string(&self.external_name);
        let n = self.argument_types.len();
        w.write_u32(n as u32);
        let mut i: usize = 0;
        while i < n
            invariant
                w.wf(),
                w.version == old(w).version,
                i <= n,
                n == self.argument_types@.len(),
                w.data@.len() == base + 24 + 4 * i,
                w.data@.subrange(0, old(w).data@.len() as int) == old(w).data@,
                forall|q: int| 0 <= q < old(w).data@.len() ==> w.data@[q] == old(w).data@[q],
                w.open_slots@ == old(w).open_slots@,
                old(w).pool@.len() <= w.pool@.len(),
                forall|j: int| 0 <= j < old(w).pool@.len() ==> w.pool@[j] == old(w).pool@[j],
                forall|j: int| 0 <= j < old(w).pending@.len() ==> w.pending@[j] == old(
                    w,
                ).pending@[j],
                w.pending@.len() == old(w).pending@.len() + 2,
                w.pending@[old(w).pending@.len() as int].0 == old(w).data@.len(),
                w.pool@[w.pending@[old(w).pending@.len() as int].1 as int]@ == self.name@,
                w.pending@[old(w).pending@.len() as int + 1].0 == old(w).data@.len() + 16,
                w.pool@[w.pending@[old(w).pending@.len() as int + 1].1 as int]@
                    == self.external_name@,
                crate::le32s_at(w.data@, base + 4) == self.id as int,
                crate::le32s_at(w.data@, base + 8) == self.kind as int,
                crate::le32s_at(w.data@, base + 12) == self.return_type.bits as int,
                crate::le32_at(w.data@, base + 20) == self.argument_types@.len(),
                forall|k: int| 0 <= k < i ==> crate::le32s_at(w.data@, base + 24 + 4 * k) == (
                #[trigger] self.argument_types@[k]).bits as int,
            decreases n - i,
        {
            w.write_i32(self.argument_types[i].bits());
            i = i + 1;
            proof {
                assert(w.data@.subrange(0, old(w).data@.len() as int) =~= old(w).data@);
            }
        }
    }
}

impl Serialize for ExtensionFunction {
    type Model = (Seq<u8>, int, int, int, Seq<u8>, Seq<int>);

    open spec fn wf(&self) -> bool {
        &&& nul_free(self.name@)
        &&& nul_free(self.external_name@)
        &&& self.argument_types@.len() <= 0xffffffff
    }

    open spec fn model(&self) -> (Seq<u8>, int, int, int, Seq<u8>, Seq<int>) {
        (
            self.name@,
            self.id as int,
            self.kind as int,
            self.return_type.bits as int,
            self.external_name@,
            self.argument_types@.map(|i: int, v: ExtensionValueType| v.bits as int),
        )
    }

    #[verifier::loop_isolation(false)]
    fn duplicate(&self) -> (r: Self) {
        let mut argument_types: Vec<ExtensionValueType> = Vec::new();
        let n = self.argument_types.len();
        let mut i: usize = 0;
        while i < n
            invariant
                i <= n,
                n == self.argument_types@.len(),
                argument_types@.len() == i,
                forall|t: int| 0 <= t < i ==> argument_types@[t] == self.argument_types@[t],
            decreases n - i,
        {
            argument_types.push(self.argument_types[i]);
            i = i + 1;
        }
        let r = ExtensionFunction {
            name: clone_bytes(&self.name),
            id: self.id,
            kind: self.kind,
            return_type: self.return_type,
            external_name: clone_bytes(&self.external_name),
            argument_types,
        };
        proof {
            assert(r.model().5 =~= self.model().5);
        }
        r
    }

    fn deserialize(r: &mut Reader) -> (res: Result<Self, CodecError>) {
        ExtensionFunction::read_from(r)
    }

    fn serialize(&self, w: &mut Writer) -> (res: Result<(), CodecError>) {
        self.write_to(w);
        Ok(())
    }
}

/// One file shipped by an extension, with its exported functions.
#[derive(Clone, Debug, PartialEq)]
pub struct ExtensionFile {
    pub filename: Vec<u8>,
    pub final_function: Vec<u8>,
    pub initial_function: Vec<u8>,
    pub kind: ExtensionKind,
    pub functions: PointerList<ExtensionFunction>,
}

impl Default for ExtensionFile {
    fn default() -> (r: Self)
        ensures
            r.filename@.len() == 0,
            r.final_function@.len() == 0,
            r.initial_function@.len() == 0,
            r.kind.bits == EXTENSION_KIND_GML,
            r.functions.items@.len() == 0,
    {
        ExtensionFile {
            filename: Vec::new(),
            final_function: Vec::new(),
            initial_function: Vec::new(),
            kind: ExtensionKind { bits: EXTENSION_KIND_GML },
            functions: PointerList::new(),
        }
    }
}

impl ExtensionFile {
    /// Reads a file record: three pointer strings, the kind bits, then
    /// the inline functions pointer list (count and offset table at the
    /// cursor).
    pub fn read_from(r: &mut Reader) -> (res: Result<ExtensionFile, CodecError>)
        requires
            old(r).wf(),
        ensures
            final(r).wf(),
            final(r).same_source(old(r)),
            res is Ok ==> res->Ok_0.wf(),
            res is Ok ==> final(r).pos == old(r).pos + 20 + 4
                * res->Ok_0.functions.items@.len(),
            res is Ok ==> crate::has_cstr_at(
                old(r).data@,
                crate::le32_at(old(r).data@, old(r).pos as int),
                res->Ok_0.filename@,
            ),
            res is Ok ==> crate::has_cstr_at(
                old(r).data@,
                crate::le32_at(old(r).data@, old(r).pos + 4),
                res->Ok_0.final_function@,
            ),
            res is Ok ==> crate::has_cstr_at(
                old(r).data@,
                crate::le32_at(old(r).data@, old(r).pos + 8),
                res->Ok_0.initial_function@,
            ),
            res is Ok ==> res->Ok_0.kind.bits as int == crate::le32s_at(
                old(r).data@,
                old(r).pos + 12,
            ),
            res is Ok ==> res->Ok_0.functions.items@.len() as int == crate::le32_at(
                old(r).data@,
                old(r).pos + 16,
            ),
            res is Err ==> res->Err_0 == CodecError::TruncatedChunk || res->Err_0
                == CodecError::DanglingPointer,
    {
        let filename = match r.read_pointer_string() {
            Ok(v) => v,
            Err(e) => {
                return Err(e);
            },
        };
        let final_function = match r.read_pointer_string() {
            Ok(v) => v,
            Err(e) => {
                return Err(e);
            },
        };
        let initial_function = match r.read_pointer_string() {
            Ok(v) => v,
            Err(e) => {
                return Err(e);
            },
        };
        let bits = match r.read_i32() {
            Ok(v) => v,
            Err(e) => {
                return Err(e);
            },
        };
        let (functions_res, _offs) = PointerList::<ExtensionFunction>::read_with(r);
        let functions = match functions_res {
            Ok(l) => l,
            Err(e) => {
                return Err(e);
            },
        };
        Ok(
            ExtensionFile {
                filename,
                final_function,
                initial_function,
                kind: ExtensionKind::from_bits_retain(bits),
                functions,
            },
        )
    }

    /// Writes a file record: three pooled string placeholders, the kind
    /// bits, then the functions pointer list inline.
    pub fn write_to(&self, w: &mut Writer) -> (res: Result<(), CodecError>)
        requires
            self.wf(),
            old(w).wf(),
        ensures
            final(w).wf(),
            final(w).version == old(w).version,
            old(w).data@.len() <= final(w).data@.len(),
            final(w).data@.subrange(0, old(w).data@.len() as int) == old(w).data@,
            forall|i: int| 0 <= i < old(w).data@.len() ==> final(w).data@[i] == old(w).data@[i],
            old(w).open_slots@.len() <= final(w).open_slots@.len(),
            forall|j: int| 0 <= j < old(w).open_slots@.len() ==> final(w).open_slots@[j] == old(
                w,
            ).open_slots@[j],
            res is Ok ==> final(w).open_slots@ == old(w).open_slots@,
            old(w).pool@.len() <= final(w).pool@.len(),
            forall|j: int| 0 <= j < old(w).pool@.len() ==> final(w).pool@[j] == old(w).pool@[j],
            old(w).pending@.len() <= final(w).pending@.len(),
            forall|j: int| 0 <= j < old(w).pending@.len() ==> final(w).pending@[j] == old(
                w,
            ).pending@[j],
            forall|j: int| old(w).pending@.len() <= j < final(w).pending@.len()
                ==> (#[trigger] final(w).pending@[j]).0 >= old(w).data@.len(),
            final(w).pending@.len() >= old(w).pending@.len() + 3,
            final(w).pending@[old(w).pending@.len() as int].0 == old(w).data@.len(),
            final(w).pool@[final(w).pending@[old(w).pending@.len() as int].1 as int]@
                == self.filename@,
            final(w).pending@[old(w).pending@.len() as int + 1].0 == old(w).data@.len() + 4,
            final(w).pool@[final(w).pending@[old(w).pending@.len() as int + 1].1 as int]@
                == self.final_function@,
            final(w).pending@[old(w).pending@.len() as int + 2].0 == old(w).data@.len() + 8,
            final(w).pool@[final(w).pending@[old(w).pending@.len() as int + 2].1 as int]@
                == self.initial_function@,
            crate::le32s_at(final(w).data@, old(w).data@.len() as int + 12) == self.kind.bits
                as int,
            res is Ok ==> crate::le32_at(final(w).data@, old(w).data@.len() as int + 16)
                == self.functions.items@.len(),
            res is Ok ==> final(w).data@.len() >= old(w).data@.len() + 20 + 4
                * self.functions.items@.len(),
            res is Err ==> res->Err_0 == CodecError::OffsetOverflow,
    {
        let _ = w.write_pointer_string(&self.filename);
        let _ = w.write_pointer_string(&self.final_function);
        let _ = w.write_pointer_string(&self.initial_function);
        w.write_i32(self.kind.bits());
        let (res, _offs) = self.functions.write_with(w, ElemHook::NoPad);
        match res {
            Ok(()) => (),
            Err(e) => {
                proof {
                    assert(w.data@.subrange(0, old(w).data@.len() as int) =~= old(w).data@);
                }
                return Err(e);
            },
        }
        proof {
            assert(w.data@.subrange(0, old(w).data@.len() as int) =~= old(w).data@);
        }
        Ok(())
    }
}

impl Serialize for ExtensionFile {
    type Model = (Seq<u8>, Seq<u8>, Seq<u8>, int, Seq<<ExtensionFunction as Serialize>::Model>);

    open spec fn wf(&self) -> bool {
        &&& nul_free(self.filename@)
        &&& nul_free(self.final_function@)
        &&& nul_free(self.initial_function@)
        &&& self.functions.wf_spec()
    }

    open spec fn model(&self) -> (Seq<u8>, Seq<u8>, Seq<u8>, int, Seq<
        <ExtensionFunction as Serialize>::Model,
    >) {
        (
            self.filename@,
            self.final_function@,
            self.initial_function@,
            self.kind.bits as int,
            self.functions.models(),
        )
    }

    fn duplicate(&self) -> (r: Self) {
        ExtensionFile {
            filename: clone_bytes(&self.filename),
            final_function: clone_bytes(&self.final_function),
            initial_function: clone_bytes(&self.initial_function),
            kind: self.kind,
            functions: self.functions.duplicate(),
        }
    }

    fn deserialize(r: &mut Reader) -> (res: Result<Self, CodecError>) {
        ExtensionFile::read_from(r)
    }

    fn serialize(&self, w: &mut Writer) -> (res: Result<(), CodecError>) {
        self.write_to(w)
    }
}

/// One extension: identity strings, its files and options, and a GUID
/// carried only by some revisions.  The `version` string exists in the
/// serialized form only at or after edition 2023.4.0.0; the files and
/// options are pointer-indirected only at or after edition 2022.6.0.0,
/// before which the files are stored inline and the options not at all.
#[derive(Clone, Debug, PartialEq)]
pub struct Extension {
    pub folder_name: Vec<u8>,
    pub name: Vec<u8>,
    pub version: Vec<u8>,
    pub class_name: Vec<u8>,
    pub files: PointerList<ExtensionFile>,
    pub options: PointerList<ExtensionOption>,
    pub guid: Option<[u8; 16]>,
}

impl Default for Extension {
    fn default() -> (r: Self)
        ensures
            r.folder_name@.len() == 0,
            r.name@.len() == 0,
            r.version@.len() == 0,
            r.class_name@.len() == 0,
            r.files.items@.len() == 0,
            r.options.items@.len() == 0,
            r.guid is None,
    {
        Extension {
            folder_name: Vec::new(),
            name: Vec::new(),
            version: Vec::new(),
            class_name: Vec::new(),
            files: PointerList::new(),
            options: PointerList::new(),
            guid: None,
        }
    }
}

impl Extension {
    /// The bytes the pooled-string placeholders occupy under a revision:
    /// four slots of four bytes when the version string is present,
    /// three otherwise.
    pub open spec fn string_bytes(v: VersionContext) -> int {
        if v.spec_at_least(2023, 4, 0, 0) {
            16
        } else {
            12
        }
    }

    /// Reads one extension under the reader's declared revision.  A field
    /// gated on an unmet revision is left at its deterministic default:
    /// an empty version string, an empty option list.
    pub fn read(r: &mut Reader) -> (res: Result<Extension, CodecError>)
        requires
            old(r).wf(),
        ensures
            final(r).wf(),
            final(r).same_source(old(r)),
            res is Ok ==> res->Ok_0.wf(),
            res is Ok ==> old(r).pos <= final(r).pos,
            res is Ok ==> res->Ok_0.guid is None,
            res is Ok && !old(r).version.spec_at_least(2023, 4, 0, 0) ==> res->Ok_0.version@.len()
                == 0,
            res is Ok && !old(r).version.spec_at_least(2022, 6, 0, 0)
                ==> res->Ok_0.options.items@.len() == 0,
            res is Ok ==> crate::has_cstr_at(
                old(r).data@,
                crate::le32_at(old(r).data@, old(r).pos as int),
                res->Ok_0.folder_name@,
            ),
            res is Ok ==> crate::has_cstr_at(
                old(r).data@,
                crate::le32_at(old(r).data@, old(r).pos + 4),
                res->Ok_0.name@,
            ),
            res is Ok && old(r).version.spec_at_least(2023, 4, 0, 0) ==> crate::has_cstr_at(
                old(r).data@,
                crate::le32_at(old(r).data@, old(r).pos + 8),
                res->Ok_0.version@,
            ),
            res is Ok && old(r).version.spec_at_least(2023, 4, 0, 0) ==> crate::has_cstr_at(
                old(r).data@,
                crate::le32_at(old(r).data@, old(r).pos + 12),
                res->Ok_0.class_name@,
            ),
            res is Ok && !old(r).version.spec_at_least(2023, 4, 0, 0) ==> crate::has_cstr_at(
                old(r).data@,
                crate::le32_at(old(r).data@, old(r).pos + 8),
                res->Ok_0.class_name@,
            ),
            res is Err ==> res->Err_0 == CodecError::TruncatedChunk || res->Err_0
                == CodecError::DanglingPointer,
    {
        let folder_name = match r.read_pointer_string() {
            Ok(v) => v,
            Err(e) => {
                return Err(e);
            },
        };
        let name = match r.read_pointer_string() {
            Ok(v) => v,
            Err(e) => {
                return Err(e);
            },
        };
        let version = if r.version.is_version_at_least(2023, 4, 0, 0) {
            match r.read_pointer_string() {
                Ok(v) => v,
                Err(e) => {
                    return Err(e);
                },
            }
        } else {
            Vec::new()
        };
        let class_name = match r.read_pointer_string() {
            Ok(v) => v,
            Err(e) => {
                return Err(e);
            },
        };
        if r.version.is_version_at_least(2022, 6, 0, 0) {
            let files = match read_pointer_object::<PointerList<ExtensionFile>>(r) {
                Ok(Some(l)) => l,
                Ok(None) => PointerList::new(),
                Err(e) => {
                    return Err(e);
                },
            };
            let options = match read_pointer_object::<PointerList<ExtensionOption>>(r) {
                Ok(Some(l)) => l,
                Ok(None) => PointerList::new(),
                Err(e) => {
                    return Err(e);
                },
            };
            Ok(Extension { folder_name, name, version, class_name, files, options, guid: None })
        } else {
            let (files_res, _offs) = PointerList::<ExtensionFile>::read_with(r);
            let files = match files_res {
                Ok(l) => l,
                Err(e) => {
                    return Err(e);
                },
            };
            Ok(
                Extension {
                    folder_name,
                    name,
                    version,
                    class_name,
                    files,
                    options: PointerList::new(),
                    guid: None,
                },
            )
        }
    }

    /// Writes one extension under the writer's declared revision,
    /// emitting exactly the fields that revision carries: the pooled
    /// identity strings (the version string only at or after 2023.4),
    /// then, at or after 2022.6, two pointer-object slots backfilled with
    /// the offsets of the files and options lists, else the files list
    /// inline and no options at all.
    #[verifier::rlimit(100)]
    pub fn write(&self, w: &mut Writer) -> (res: Result<(), CodecError>)
        requires
            self.wf(),
            old(w).wf(),
        ensures
            final(w).wf(),
            final(w).version == old(w).version,
            old(w).data@.len() <= final(w).data@.len(),
            final(w).data@.subrange(0, old(w).data@.len() as int) == old(w).data@,
            old(w).open_slots@.len() <= final(w).open_slots@.len(),
            forall|j: int| 0 <= j < old(w).open_slots@.len() ==> final(w).open_slots@[j] == old(w).open_slots@[j],
            res is Ok ==> final(w).open_slots@ == old(w).open_slots@,
            old(w).pool@.len() <= final(w).pool@.len(),
            forall|j: int| 0 <= j < old(w).pool@.len() ==> final(w).pool@[j] == old(w).pool@[j],
            old(w).pending@.len() <= final(w).pending@.len(),
            forall|j: int| 0 <= j < old(w).pending@.len() ==> final(w).pending@[j] == old(w).pending@[j],
            forall|j: int| old(w).pending@.len() <= j < final(w).pending@.len() ==> (#[trigger] final(w).pending@[j]).0 >= old(w).data@.len(),
            res is Ok ==> final(w).pending@.len() >= old(w).pending@.len() + 3,
            res is Ok ==> final(w).pending@[old(w).pending@.len() as int].0 == old(w).data@.len()
                && final(w).pool@[final(w).pending@[old(w).pending@.len() as int].1 as int]@
                == self.folder_name@,
            res is Ok ==> final(w).pending@[old(w).pending@.len() as int + 1].0 == old(w).data@.len() + 4 && final(w).pool@[final(w).pending@[old(w).pending@.len() as int
                + 1].1 as int]@ == self.name@,
            res is Ok && old(w).version.spec_at_least(2023, 4, 0, 0) ==> final(w).pending@.len() >= old(w).pending@.len() + 4 && final(w).pending@[old(w).pending@.len() as int + 2].0 == old(w).data@.len() + 8 && final(w).pool@[final(w).pending@[old(w).pending@.len() as int + 2].1 as int]@ == self.version@ && final(w).pending@[old(w).pending@.len() as int + 3].0 == old(w).data@.len() + 12 && final(w).pool@[final(w).pending@[old(w).pending@.len() as int + 3].1 as int]@
                == self.class_name@,
            res is Ok && !old(w).version.spec_at_least(2023, 4, 0, 0) ==> final(w).pending@[old(w).pending@.len() as int + 2].0 == old(w).data@.len() + 8 && final(w).pool@[final(w).pending@[old(w).pending@.len() as int + 2].1 as int]@ == self.class_name@,
            res is Ok && old(w).version.spec_at_least(2022, 6, 0, 0) ==> crate::le32_at(
                final(w).data@,
                old(w).data@.len() as int + Extension::string_bytes(old(w).version),
            ) == old(w).data@.len() as int + Extension::string_bytes(old(w).version) + 8,
            res is Ok && old(w).version.spec_at_least(2022, 6, 0, 0) ==> crate::le32_at(
                final(w).data@,
                old(w).data@.len() as int + Extension::string_bytes(old(w).version) + 8,
            ) == self.files.items@.len(),
            res is Ok && old(w).version.spec_at_least(2022, 6, 0, 0) ==> crate::le32_at(
                final(w).data@,
                crate::le32_at(
                    final(w).data@,
                    old(w).data@.len() as int + Extension::string_bytes(old(w).version) + 4,
                ),
            ) == self.options.items@.len(),
            res is Ok && !old(w).version.spec_at_least(2022, 6, 0, 0) ==> crate::le32_at(
                final(w).data@,
                old(w).data@.len() as int + 12,
            ) == self.files.items@.len(),
            res is Err ==> res->Err_0 == CodecError::OffsetOverflow,
    {
        let _ = w.write_pointer_string(&self.folder_name);
        let _ = w.write_pointer_string(&self.name);
        if w.version.is_version_at_least(2023, 4, 0, 0) {
            let _ = w.write_pointer_string(&self.version);
        }
        let _ = w.write_pointer_string(&self.class_name);
        if w.version.is_version_at_least(2022, 6, 0, 0) {
            // Two pointer-object slots, backfilled once the bodies are
            // laid down after the inline fields.
            let files_slot = w.reserve_u32();
            let options_slot = w.reserve_u32();
            let files_off = w.tell();
            if files_off > 0xffffffffusize {
                return Err(CodecError::OffsetOverflow);
            }
            match self.files.write_with(w, ElemHook::NoPad).0 {
                Ok(()) => (),
                Err(e) => {
                    return Err(e);
                },
            }
            proof {
                assert(w.open_slots@ == old(w).open_slots@.push(files_slot).push(options_slot));
                assert(w.open_slots@[old(w).open_slots@.len() as int] == files_slot);
                assert(w.open_slots@.contains(files_slot));
            }
            w.backfill_u32(files_slot, files_off as u32);
            proof {
                let before = old(w).open_slots@.push(files_slot).push(options_slot);
                let removed = choose|q: int|
                    0 <= q < before.len() && before[q] == files_slot && w.open_slots@
                        == before.remove(q);
                assert(removed == old(w).open_slots@.len()) by {
                    if removed < old(w).open_slots@.len() {
                        assert(old(w).open_slots@[removed] + 4 <= old(w).data@.len());
                    }
                    if removed == before.len() - 1 {
                        assert(before[removed] == options_slot);
                    }
                }
                assert(w.open_slots@ =~= old(w).open_slots@.push(options_slot));
            }
            let options_off = w.tell();
            if options_off > 0xffffffffusize {
                return Err(CodecError::OffsetOverflow);
            }
            match self.options.write_with(w, ElemHook::NoPad).0 {
                Ok(()) => (),
                Err(e) => {
                    return Err(e);
                },
            }
            proof {
                assert(w.open_slots@[old(w).open_slots@.len() as int] == options_slot);
                assert(w.open_slots@.contains(options_slot));
            }
            w.backfill_u32(options_slot, options_off as u32);
            proof {
                let before = old(w).open_slots@.push(options_slot);
                let removed = choose|q: int|
                    0 <= q < before.len() && before[q] == options_slot && w.open_slots@
                        == before.remove(q);
                assert(removed == old(w).open_slots@.len()) by {
                    if removed < old(w).open_slots@.len() {
                        assert(old(w).open_slots@[removed] + 4 <= old(w).data@.len());
                    }
                }
                assert(w.open_slots@ =~= old(w).open_slots@);
            }
        } else {
            let (res, _offs) = self.files.write_with(w, ElemHook::NoPad);
            match res {
                Ok(()) => (),
                Err(e) => {
                    return Err(e);
                },
            }
        }
        proof {
            assert(w.data@.subrange(0, old(w).data@.len() as int) =~= old(w).data@);
        }
        Ok(())
    }
}

impl Serialize for Extension {
    type Model = (
        Seq<u8>,
        Seq<u8>,
        Seq<u8>,
        Seq<u8>,
        Seq<<ExtensionFile as Serialize>::Model>,
        Seq<<ExtensionOption as Serialize>::Model>,
        Option<Seq<u8>>,
    );

    open spec fn wf(&self) -> bool {
        &&& nul_free(self.folder_name@)
        &&& nul_free(self.name@)
        &&& nul_free(self.version@)
        &&& nul_free(self.class_name@)
        &&& self.files.wf_spec()
        &&& self.options.wf_spec()
    }

    open spec fn model(&self) -> <Extension as Serialize>::Model {
        (
            self.folder_name@,
            self.name@,
            self.version@,
            self.class_name@,
            self.files.models(),
            self.options.models(),
            if self.guid is Some {
                Some(self.guid->0@)
            } else {
                None
            },
        )
    }

    fn duplicate(&self) -> (r: Self) {
        let guid = match &self.guid {
            Some(g) => Some(*g),
            None => None,
        };
        Extension {
            folder_name: clone_bytes(&self.folder_name),
            name: clone_bytes(&self.name),
            version: clone_bytes(&self.version),
            class_name: clone_bytes(&self.class_name),
            files: self.files.duplicate(),
            options: self.options.duplicate(),
            guid,
        }
    }

    fn deserialize(r: &mut Reader) -> (res: Result<Self, CodecError>) {
        Extension::read(r)
    }

    fn serialize(&self, w: &mut Writer) -> (res: Result<(), CodecError>) {
        self.write(w)
    }
}

/// A script record: a pooled name and the identity of its code entry.
#[derive(Clone, Debug, PartialEq)]
pub struct Script {
    pub name: Vec<u8>,
    pub id: i32,
}

impl Script {
    /// Reads a script: a pointer string then the code identity.
    pub fn read_from(r: &mut Reader) -> (res: Result<Script, CodecError>)
        requires
            old(r).wf(),
        ensures
            final(r).wf(),
            final(r).same_source(old(r)),
            res is Ok ==> res->Ok_0.wf(),
            res is Ok ==> final(r).pos == old(r).pos + 8,
            res is Ok ==> crate::has_cstr_at(
                old(r).data@,
                crate::le32_at(old(r).data@, old(r).pos as int),
                res->Ok_0.name@,
            ),
            res is Ok ==> res->Ok_0.id as int == crate::le32s_at(old(r).data@, old(r).pos + 4),
            res is Ok <==> old(r).pos + 8 <= old(r).limit && crate::zero_from(
                old(r).data@,
                crate::le32_at(old(r).data@, old(r).pos as int),
            ),
            res is Err ==> res->Err_0 == CodecError::TruncatedChunk || res->Err_0
                == CodecError::DanglingPointer,
    {
        let name = match r.read_pointer_string() {
            Ok(v) => v,
            Err(e) => {
                return Err(e);
            },
        };
        let id = match r.read_i32() {
            Ok(v) => v,
            Err(e) => {
                return Err(e);
            },
        };
        Ok(Script { name, id })
    }

    /// Writes a script: the pooled name placeholder then the identity.
    pub fn write_to(&self, w: &mut Writer)
        requires
            self.wf(),
            old(w).wf(),
        ensures
            final(w).wf(),
            final(w).version == old(w).version,
            final(w).data@.len() == old(w).data@.len() + 8,
            final(w).data@.subrange(0, old(w).data@.len() as int) == old(w).data@,
            forall|i: int| 0 <= i < old(w).data@.len() ==> final(w).data@[i] == old(w).data@[i],
            final(w).open_slots@ == old(w).open_slots@,
            old(w).pool@.len() <= final(w).pool@.len(),
            forall|j: int| 0 <= j < old(w).pool@.len() ==> final(w).pool@[j] == old(w).pool@[j],
            forall|j: int| 0 <= j < old(w).pending@.len() ==> final(w).pending@[j] == old(w).pending@[j],
            final(w).pending@.len() == old(w).pending@.len() + 1,
            final(w).pending@[old(w).pending@.len() as int].0 == old(w).data@.len(),
            final(w).pool@[final(w).pending@[old(w).pending@.len() as int].1 as int]@ == self.name@,
            crate::le32s_at(final(w).data@, old(w).data@.len() as int + 4) == self.id as int,
    {
        let _ = w.write_pointer_string(&self.name);
        w.write_i32(self.id);
        proof {
            assert(w.data@.subrange(0, old(w).data@.len() as int) =~= old(w).data@);
        }
    }
}

impl Serialize for Script {
    type Model = (Seq<u8>, int);

    open spec fn wf(&self) -> bool {
        nul_free(self.name@)
    }

    open spec fn model(&self) -> (Seq<u8>, int) {
        (self.name@, self.id as int)
    }

    fn duplicate(&self) -> (r: Self) {
        Script { name: clone_bytes(&self.name), id: self.id }
    }

    fn deserialize(r: &mut Reader) -> (res: Result<Self, CodecError>) {
        Script::read_from(r)
    }

    fn serialize(&self, w: &mut Writer) -> (res: Result<(), CodecError>) {
        self.write_to(w);
        Ok(())
    }
}

/// A sprite record: a pooled name and its pixel dimensions.
#[derive(Clone, Debug, PartialEq)]
pub struct Sprite {
    pub name: Vec<u8>,
    pub width: u32,
    pub height: u32,
}

impl Sprite {
    /// Reads a sprite: a pointer string then the two dimensions.
    pub fn read_from(r: &mut Reader) -> (res: Result<Sprite, CodecError>)
        requires
            old(r).wf(),
        ensures
            final(r).wf(),
            final(r).same_source(old(r)),
            res is Ok ==> res->Ok_0.wf(),
            res is Ok ==> final(r).pos == old(r).pos + 12,
            res is Ok ==> crate::has_cstr_at(
                old(r).data@,
                crate::le32_at(old(r).data@, old(r).pos as int),
                res->Ok_0.name@,
            ),
            res is Ok ==> res->Ok_0.width as int == crate::le32_at(old(r).data@, old(r).pos + 4),
            res is Ok ==> res->Ok_0.height as int == crate::le32_at(old(r).data@, old(r).pos + 8),
            res is Ok <==> old(r).pos + 12 <= old(r).limit && crate::zero_from(
                old(r).data@,
                crate::le32_at(old(r).data@, old(r).pos as int),
            ),
            res is Err ==> res->Err_0 == CodecError::TruncatedChunk || res->Err_0
                == CodecError::DanglingPointer,
    {
        let name = match r.read_pointer_string() {
            Ok(v) => v,
            Err(e) => {
                return Err(e);
            },
        };
        let width = match r.read_u32() {
            Ok(v) => v,
            Err(e) => {
                return Err(e);
            },
        };
        let height = match r.read_u32() {
            Ok(v) => v,
            Err(e) => {
                return Err(e);
            },
        };
        Ok(Sprite { name, width, height })
    }

    /// Writes a sprite: the pooled name placeholder then the dimensions.
    pub fn write_to(&self, w: &mut Writer)
        requires
            self.wf(),
            old(w).wf(),
        ensures
            final(w).wf(),
            final(w).version == old(w).version,
            final(w).data@.len() == old(w).data@.len() + 12,
            final(w).data@.subrange(0, old(w).data@.len() as int) == old(w).data@,
            forall|i: int| 0 <= i < old(w).data@.len() ==> final(w).data@[i] == old(w).data@[i],
            final(w).open_slots@ == old(w).open_slots@,
            old(w).pool@.len() <= final(w).pool@.len(),
            forall|j: int| 0 <= j < old(w).pool@.len() ==> final(w).pool@[j] == old(w).pool@[j],
            forall|j: int| 0 <= j < old(w).pending@.len() ==> final(w).pending@[j] == old(w).pending@[j],
            final(w).pending@.len() == old(w).pending@.len() + 1,
            final(w).pending@[old(w).pending@.len() as int].0 == old(w).data@.len(),
            final(w).pool@[final(w).pending@[old(w).pending@.len() as int].1 as int]@ == self.name@,
            crate::le32_at(final(w).data@, old(w).data@.len() as int + 4) == self.width as int,
            crate::le32_at(final(w).data@, old(w).data@.len() as int + 8) == self.height as int,
    {
        let _ = w.write_pointer_string(&self.name);
        w.write_u32(self.width);
        w.write_u32(self.height);
        proof {
            assert(w.data@.subrange(0, old(w).data@.len() as int) =~= old(w).data@);
        }
    }
}

impl Serialize for Sprite {
    type Model = (Seq<u8>, int, int);

    open spec fn wf(&self) -> bool {
        nul_free(self.name@)
    }

    open spec fn model(&self) -> (Seq<u8>, int, int) {
        (self.name@, self.width as int, self.height as int)
    }

    fn duplicate(&self) -> (r: Self) {
        Sprite { name: clone_bytes(&self.name), width: self.width, height: self.height }
    }

    fn deserialize(r: &mut Reader) -> (res: Result<Self, CodecError>) {
        Sprite::read_from(r)
    }

    fn serialize(&self, w: &mut Writer) -> (res: Result<(), CodecError>) {
        self.write_to(w);
        Ok(())
    }
}

/// A timeline record: a pooled name.
#[derive(Clone, Debug, PartialEq)]
pub struct Timeline {
    pub name: Vec<u8>,
}

impl Timeline {
    /// Reads a timeline record: its pooled name.
    pub fn read_from(r: &mut Reader) -> (res: Result<Timeline, CodecError>)
        requires
            old(r).wf(),
        ensures
            final(r).wf(),
            final(r).same_source(old(r)),
            res is Ok ==> res->Ok_0.wf(),
            res is Ok ==> final(r).pos == old(r).pos + 4,
            res is Ok ==> crate::has_cstr_at(
                old(r).data@,
                crate::le32_at(old(r).data@, old(r).pos as int),
                res->Ok_0.name@,
            ),
            res is Ok <==> old(r).pos + 4 <= old(r).limit && crate::zero_from(
                old(r).data@,
                crate::le32_at(old(r).data@, old(r).pos as int),
            ),
            res is Err ==> res->Err_0 == CodecError::TruncatedChunk || res->Err_0
                == CodecError::DanglingPointer,
    {
        let name = match r.read_pointer_string() {
            Ok(v) => v,
            Err(e) => {
                return Err(e);
            },
        };
        Ok(Timeline { name })
    }

    /// Writes a timeline record: its pooled name placeholder.
    pub fn write_to(&self, w: &mut Writer)
        requires
            self.wf(),
            old(w).wf(),
        ensures
            final(w).wf(),
            final(w).version == old(w).version,
            final(w).data@.len() == old(w).data@.len() + 4,
            final(w).data@.subrange(0, old(w).data@.len() as int) == old(w).data@,
            forall|i: int| 0 <= i < old(w).data@.len() ==> final(w).data@[i] == old(w).data@[i],
            final(w).open_slots@ == old(w).open_slots@,
            old(w).pool@.len() <= final(w).pool@.len(),
            forall|j: int| 0 <= j < old(w).pool@.len() ==> final(w).pool@[j] == old(w).pool@[j],
            forall|j: int| 0 <= j < old(w).pending@.len() ==> final(w).pending@[j] == old(w).pending@[j],
            final(w).pending@.len() == old(w).pending@.len() + 1,
            final(w).pending@[old(w).pending@.len() as int].0 == old(w).data@.len(),
            final(w).pool@[final(w).pending@[old(w).pending@.len() as int].1 as int]@ == self.name@,
    {
        let _ = w.write_pointer_string(&self.name);
        proof {
            assert(w.data@.subrange(0, old(w).data@.len() as int) =~= old(w).data@);
        }
    }
}

impl Serialize for Timeline {
    type Model = Seq<u8>;

    open spec fn wf(&self) -> bool {
        nul_free(self.name@)
    }

    open spec fn model(&self) -> Seq<u8> {
        self.name@
    }

    fn duplicate(&self) -> (r: Self) {
        Timeline { name: clone_bytes(&self.name) }
    }

    fn deserialize(r: &mut Reader) -> (res: Result<Self, CodecError>) {
        Timeline::read_from(r)
    }

    fn serialize(&self, w: &mut Writer) -> (res: Result<(), CodecError>) {
        self.write_to(w);
        Ok(())
    }
}

/// An audio group record: a pooled name; the group's data lives in a
/// derived sibling container.
#[derive(Clone, Debug, PartialEq)]
pub struct AudioGroup {
    pub name: Vec<u8>,
}

impl AudioGroup {
    /// Reads a audio group record: its pooled name.
    pub fn read_from(r: &mut Reader) -> (res: Result<AudioGroup, CodecError>)
        requires
            old(r).wf(),
        ensures
            final(r).wf(),
            final(r).same_source(old(r)),
            res is Ok ==> res->Ok_0.wf(),
            res is Ok ==> final(r).pos == old(r).pos + 4,
            res is Ok ==> crate::has_cstr_at(
                old(r).data@,
                crate::le32_at(old(r).data@, old(r).pos as int),
                res->Ok_0.name@,
            ),
            res is Ok <==> old(r).pos + 4 <= old(r).limit && crate::zero_from(
                old(r).data@,
                crate::le32_at(old(r).data@, old(r).pos as int),
            ),
            res is Err ==> res->Err_0 == CodecError::TruncatedChunk || res->Err_0
                == CodecError::DanglingPointer,
    {
        let name = match r.read_pointer_string() {
            Ok(v) => v,
            Err(e) => {
                return Err(e);
            },
        };
        Ok(AudioGroup { name })
    }

    /// Writes a audio group record: its pooled name placeholder.
    pub fn write_to(&self, w: &mut Writer)
        requires
            self.wf(),
            old(w).wf(),
        ensures
            final(w).wf(),
            final(w).version == old(w).version,
            final(w).data@.len() == old(w).data@.len() + 4,
            final(w).data@.subrange(0, old(w).data@.len() as int) == old(w).data@,
            forall|i: int| 0 <= i < old(w).data@.len() ==> final(w).data@[i] == old(w).data@[i],
            final(w).open_slots@ == old(w).open_slots@,
            old(w).pool@.len() <= final(w).pool@.len(),
            forall|j: int| 0 <= j < old(w).pool@.len() ==> final(w).pool@[j] == old(w).pool@[j],
            forall|j: int| 0 <= j < old(w).pending@.len() ==> final(w).pending@[j] == old(w).pending@[j],
            final(w).pending@.len() == old(w).pending@.len() + 1,
            final(w).pending@[old(w).pending@.len() as int].0 == old(w).data@.len(),
            final(w).pool@[final(w).pending@[old(w).pending@.len() as int].1 as int]@ == self.name@,
    {
        let _ = w.write_pointer_string(&self.name);
        proof {
            assert(w.data@.subrange(0, old(w).data@.len() as int) =~= old(w).data@);
        }
    }
}

impl Serialize for AudioGroup {
    type Model = Seq<u8>;

    open spec fn wf(&self) -> bool {
        nul_free(self.name@)
    }

    open spec fn model(&self) -> Seq<u8> {
        self.name@
    }

    fn duplicate(&self) -> (r: Self) {
        AudioGroup { name: clone_bytes(&self.name) }
    }

    fn deserialize(r: &mut Reader) -> (res: Result<Self, CodecError>) {
        AudioGroup::read_from(r)
    }

    fn serialize(&self, w: &mut Writer) -> (res: Result<(), CodecError>) {
        self.write_to(w);
        Ok(())
    }
}

} // verus!
