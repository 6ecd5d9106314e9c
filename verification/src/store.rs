//! The object store the extraction engine resolves object bytes through.
//!
//! A store answers a point read for an exact (object id, version)
//! identity with the object's state, with `None` when no such state
//! exists (a deleted object), or with a [`StoreFault`] when the read
//! itself fails — the fatal condition of extraction.

use vstd::prelude::*;
use crate::data::clone_object;
use crate::data::Object;
use crate::data::ObjectV;

verus! {

/// A fault of the store itself: the read failed, as opposed to the
/// object being absent.
#[derive(PartialEq, Eq, Structural, Clone, Copy, Debug)]
pub struct StoreFault;

/// The view of one lookup result.
pub open spec fn lookup_view(r: Result<Option<Object>, StoreFault>) -> Result<
    Option<ObjectV>,
    StoreFault,
> {
    match r {
        Ok(Some(o)) => Ok(Some(o.deep_view())),
        Ok(None) => Ok(None),
        Err(e) => Err(e),
    }
}

/// A read-only object store supporting concurrent point reads.
///
/// `spec_get` fixes what the store answers for every identity, so a
/// given store value answers deterministically.
pub trait ObjectStore {
    /// The store's answer for one exact identity.
    spec fn spec_get(&self, id: u64, version: u64) -> Result<Option<ObjectV>, StoreFault>;

    /// Resolves one exact object identity.
    fn get_object_by_key(&self, id: u64, version: u64) -> (r: Result<Option<Object>, StoreFault>)
        ensures
            lookup_view(r) == self.spec_get(id, version),
    ;
}

/// One stored object state under its identity.
pub struct StoreEntry {
    pub id: u64,
    pub version: u64,
    pub object: Object,
}

/// An in-memory [`ObjectStore`]: a list of stored object states, plus
/// the identities whose reads fail.
pub struct MapStore {
    pub entries: Vec<StoreEntry>,
    pub faults: Vec<(u64, u64)>,
}

/// The first stored state under the given identity, if any.
pub open spec fn spec_find(entries: Seq<StoreEntry>, id: u64, version: u64) -> Option<ObjectV>
    decreases entries.len(),
{
    if entries.len() == 0 {
        None
    } else if entries[0].id == id && entries[0].version == version {
        Some(entries[0].object.deep_view())
    } else {
        spec_find(entries.drop_first(), id, version)
    }
}

/// True when reads of the given identity fail.
pub open spec fn spec_has_fault(faults: Seq<(u64, u64)>, id: u64, version: u64) -> bool {
    exists|i: int| 0 <= i < faults.len() && faults[i] == (id, version)
}

impl ObjectStore for MapStore {
    open spec fn spec_get(&self, id: u64, version: u64) -> Result<Option<ObjectV>, StoreFault> {
        if spec_has_fault(self.faults@, id, version) {
            Err(StoreFault)
        } else {
            Ok(spec_find(self.entries@, id, version))
        }
    }

    fn get_object_by_key(&self, id: u64, version: u64) -> (r: Result<Option<Object>, StoreFault>) {
        let mut i: usize = 0;
        while i < self.faults.len()
            invariant
                i <= self.faults.len(),
                forall|j: int| 0 <= j < i ==> self.faults@[j] != (id, version),
            decreases self.faults.len() - i,
        {
            let f = self.faults[i];
            if f.0 == id && f.1 == version {
                return Err(StoreFault);
            }
            i = i + 1;
        }
        let mut k: usize = 0;
        proof {
            assert(self.entries@.skip(0) =~= self.entries@);
        }
        while k < self.entries.len()
            invariant
                k <= self.entries.len(),
                !spec_has_fault(self.faults@, id, version),
                spec_find(self.entries@, id, version) == spec_find(
                    self.entries@.skip(k as int),
                    id,
                    version,
                ),
            decreases self.entries.len() - k,
        {
            let e = &self.entries[k];
            if e.id == id && e.version == version {
                return Ok(Some(clone_object(&e.object)));
            }
            proof {
                assert(self.entries@.skip(k as int).drop_first() =~= self.entries@.skip(
                    k as int + 1,
                ));
            }
            k = k + 1;
        }
        Ok(None)
    }
}

} // verus!
