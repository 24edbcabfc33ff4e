use vstd::prelude::*;
use crate::error::CodecError;
use crate::reader::Reader;
use crate::lists::Serialize;
use crate::records::Constant;
use crate::version::VersionContext;
use crate::writer::Writer;

verus! {

/// The round-trip law, shown on the constant record: whenever
/// serializing succeeds (the string pool flushed and the write
/// finished), deserializing the produced bytes yields a record with the
/// same mathematical value, for every constant and every declared
/// revision.
#[verifier::rlimit(60)]
pub fn constant_round_trip(c: &Constant, version: VersionContext) -> (res: Result<
    Constant,
    CodecError,
>)
    requires
        c.wf(),
    ensures
        res is Ok ==> res->Ok_0.model() == c.model(),
        res is Err ==> res->Err_0 == CodecError::OffsetOverflow,
        c.name@.len() + c.value@.len() + 10 <= 0xffffffff ==> res is Ok,
{
    let mut w = Writer::new(version);
    proof {
        assert(crate::writer::pool_bytes(w.pool@) == 0);
    }
    c.write_to(&mut w);
    let ghost pend = w.pending@;
    let ghost pool = w.pool@;
    let flushed = w.flush_strings();
    match flushed.0 {
        Ok(()) => (),
        Err(e) => {
            return Err(e);
        },
    }
    let ghost offs = flushed.1@;
    let ghost wdata = w.data@;
    let bytes = match w.finish() {
        Ok(b) => b,
        Err(e) => {
            return Err(e);
        },
    };
    let mut r = Reader::new(bytes, version);
    let out = match Constant::read_from(&mut r) {
        Ok(v) => v,
        Err(e) => {
            return Err(e);
        },
    };
    proof {
        let i0 = pend[0].1 as int;
        let i1 = pend[1].1 as int;
        assert(crate::has_cstr_at(wdata, offs[i0], pool[i0]@));
        assert(crate::has_cstr_at(wdata, offs[i1], pool[i1]@));
        assert(crate::le32(wdata[0], wdata[1], wdata[2], wdata[3]) == offs[i0]);
        assert(crate::le32(wdata[4], wdata[5], wdata[6], wdata[7]) == offs[i1]);
        assert(crate::has_cstr_at(wdata, offs[i0], out.name@));
        assert(crate::has_cstr_at(wdata, offs[i1], out.value@));
        crate::lemma_cstr_unique(wdata, offs[i0], out.name@, pool[i0]@);
        crate::lemma_cstr_unique(wdata, offs[i1], out.value@, pool[i1]@);
        assert(out.name@ == c.name@);
        assert(out.value@ == c.value@);
    }
    Ok(out)
}

} // verus!
