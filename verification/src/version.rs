use vstd::prelude::*;
use crate::error::CodecError;

verus! {

/// The declared format revision of the container being read or written:
/// an ordered (year, month, build, revision) tuple compared
/// lexicographically.  Every conditional field gates its presence through
/// `is_version_at_least`.  The active version may be raised mid-parse when
/// a chunk header declares a more specific sub-version; it is never
/// lowered within the same container.
#[derive(Clone, Copy, Debug, PartialEq, Eq, Structural)]
pub struct VersionContext {
    pub year: u32,
    pub month: u32,
    pub build: u32,
    pub revision: u32,
}

/// Lexicographic order on version tuples: `a` at or after `b`.
pub open spec fn version_ge(
    ay: u32, am: u32, ab: u32, ar: u32,
    by: u32, bm: u32, bb: u32, br: u32,
) -> bool {
    ||| ay > by
    ||| (ay == by && am > bm)
    ||| (ay == by && am == bm && ab > bb)
    ||| (ay == by && am == bm && ab == bb && ar >= br)
}

impl VersionContext {
    /// The tuple compared at or after the given one, lexicographically.
    pub open spec fn spec_at_least(&self, y: u32, m: u32, b: u32, r: u32) -> bool {
        version_ge(self.year, self.month, self.build, self.revision, y, m, b, r)
    }

    /// Builds a context from a declared tuple; a zero year is unparseable.
    pub fn from_tuple(year: u32, month: u32, build: u32, revision: u32) -> (res: Result<
        VersionContext,
        CodecError,
    >)
        ensures
            year == 0 <==> res is Err,
            res is Err ==> res->Err_0 == CodecError::UnsupportedVersion,
            res is Ok ==> res->Ok_0 == (VersionContext { year, month, build, revision }),
    {
        if year == 0 {
            Err(CodecError::UnsupportedVersion)
        } else {
            Ok(VersionContext { year, month, build, revision })
        }
    }

    /// The sole version-presence predicate: is the active format at least
    /// the given edition.
    pub fn is_version_at_least(&self, y: u32, m: u32, b: u32, r: u32) -> (res: bool)
        ensures
            res == self.spec_at_least(y, m, b, r),
    {
        if self.year != y {
            self.year > y
        } else if self.month != m {
            self.month > m
        } else if self.build != b {
            self.build > b
        } else {
            self.revision >= r
        }
    }

    /// The declared tuple.
    pub fn get_version(&self) -> (res: (u32, u32, u32, u32))
        ensures
            res == (self.year, self.month, self.build, self.revision),
    {
        (self.year, self.month, self.build, self.revision)
    }

    /// Raises the active version to the given edition if that edition is
    /// more specific; a raise never lowers the version.
    pub fn raise_to(&mut self, y: u32, m: u32, b: u32, r: u32)
        ensures
            final(self).spec_at_least(y, m, b, r),
            final(self).spec_at_least(
                old(self).year,
                old(self).month,
                old(self).build,
                old(self).revision,
            ),
            *final(self) == *old(self) || *final(self) == (VersionContext {
                year: y,
                month: m,
                build: b,
                revision: r,
            }),
    {
        if !self.is_version_at_least(y, m, b, r) {
            self.year = y;
            self.month = m;
            self.build = b;
            self.revision = r;
        } else {
            let ghost s = *self;
            proof {
                lemma_version_ge_refl(s.year, s.month, s.build, s.revision);
            }
        }
    }
}

/// Lexicographic comparison is reflexive.
pub proof fn lemma_version_ge_refl(y: u32, m: u32, b: u32, r: u32)
    ensures
        version_ge(y, m, b, r, y, m, b, r),
{
}

} // verus!
