//! The in-memory blob store backend.
//!
//! Containers are created lazily on first access and live for the
//! lifetime of the store; every container maps object names to byte
//! contents.  This backend satisfies the uniform container interface
//! that the dispatch layer is written against.

use vstd::prelude::*;

use crate::assoc::{
    assoc_find, assoc_lookup, lemma_assoc_lookup_index, lemma_assoc_lookup_none,
    lemma_assoc_lookup_push, lemma_assoc_lookup_remove, lemma_assoc_lookup_update, unique_keys,
};
use crate::errors::Error;

verus! {

/// Whether `key` is the view of one of `names`.
pub open spec fn name_in_list(names: Seq<String>, key: Seq<char>) -> bool {
    exists|i: int| 0 <= i < names.len() && names[i]@ == key
}

/// Metadata of one stored object.
pub struct ObjectMetadata {
    /// The object's name within its container.
    pub name: String,
    /// The name of the container holding the object.
    pub container: String,
    /// Creation time in seconds since the epoch; this backend does not
    /// record one and reports zero.
    pub created_at: u64,
    /// The object's size in bytes.
    pub size: u64,
}

/// Metadata of one container.
pub struct ContainerMetadata {
    /// The container's name.
    pub name: String,
    /// Creation time in seconds since the epoch; this backend does not
    /// record one and reports zero.
    pub created_at: u64,
}

/// The window of `data` selected by an inclusive `start..=end` range,
/// where any `end` at or past the last byte means "through the end of
/// the object".
pub open spec fn range_view(data: Seq<u8>, start: u64, end: u64) -> Seq<u8> {
    data.subrange(start as int, range_end(data, end))
}

/// The exclusive upper bound that `end` selects in `data`.
pub open spec fn range_end(data: Seq<u8>, end: u64) -> int {
    if end >= data.len() {
        data.len() as int
    } else {
        end + 1
    }
}

/// Whether `start..=end` selects a window of `data` at all.
pub open spec fn range_valid(data: Seq<u8>, start: u64, end: u64) -> bool {
    start <= range_end(data, end)
}

/// One in-memory container: a name and the objects it holds.
pub struct InMemoryContainer {
    name: String,
    blobs: Vec<(String, Vec<u8>)>,
}

impl InMemoryContainer {
    /// Object names are pairwise distinct.
    pub closed spec fn well_formed(self) -> bool {
        unique_keys(self.blobs@)
    }

    /// The container's name.
    pub closed spec fn spec_name(self) -> Seq<char> {
        self.name@
    }

    /// The stored name-to-content pairs, in insertion order.
    pub closed spec fn entries(self) -> Seq<(String, Vec<u8>)> {
        self.blobs@
    }

    /// The content stored under `name`, if any.
    pub open spec fn blob(self, name: Seq<char>) -> Option<Seq<u8>> {
        match assoc_lookup(self.entries(), name) {
            Some(v) => Some(v@),
            None => None,
        }
    }

    /// Creates an empty container.
    pub fn new(name: String) -> (c: InMemoryContainer)
        ensures
            c.well_formed(),
            c.spec_name() == name@,
            c.entries().len() == 0,
            forall|k: Seq<char>| #[trigger] c.blob(k) is None,
    {
        let c = InMemoryContainer { name, blobs: Vec::new() };
        proof {
            assert forall|k: Seq<char>| #[trigger] c.blob(k) is None by {
                lemma_assoc_lookup_none(c.blobs@, k);
            }
        }
        c
    }

    /// The container's name.
    pub fn name(&self) -> (r: String)
        ensures
            r@ == self.spec_name(),
    {
        self.name.clone()
    }

    /// Whether the container exists; in-memory containers always do.
    pub fn is_present(&self) -> (r: bool)
        ensures
            r,
    {
        true
    }

    /// The container's metadata.
    pub fn info(&self) -> (r: ContainerMetadata)
        ensures
            r.name@ == self.spec_name(),
            r.created_at == 0,
    {
        ContainerMetadata { name: self.name.clone(), created_at: 0 }
    }

    /// Whether an object named `name` is stored.
    pub fn has_object(&self, name: &String) -> (r: bool)
        ensures
            r == self.blob(name@) is Some,
    {
        let found = assoc_find(&self.blobs, name);
        proof {
            match found {
                Some(i) => lemma_assoc_lookup_index(self.blobs@, name@, i as int),
                None => lemma_assoc_lookup_none(self.blobs@, name@),
            }
        }
        found.is_some()
    }

    /// The metadata of the object named `name`; fails exactly when no
    /// such object is stored.
    pub fn object_info(&self, name: &String) -> (r: Result<ObjectMetadata, Error>)
        ensures
            self.blob(name@) is Some ==> (r matches Ok(m) && m.name@ == name@ && m.container@
                == self.spec_name() && m.created_at == 0 && m.size == self.blob(name@)->0.len()),
            self.blob(name@) is None ==> (r matches Err(e) && e matches Error::BackendFailure(m)
                && m@ == "blob not found"@),
    {
        let found = assoc_find(&self.blobs, name);
        proof {
            match found {
                Some(i) => lemma_assoc_lookup_index(self.blobs@, name@, i as int),
                None => lemma_assoc_lookup_none(self.blobs@, name@),
            }
        }
        match found {
            Some(i) => Ok(
                ObjectMetadata {
                    name: name.clone(),
                    container: self.name.clone(),
                    created_at: 0,
                    size: self.blobs[i].1.len() as u64,
                },
            ),
            None => Err(Error::BackendFailure("blob not found".to_owned())),
        }
    }

    /// Reads the byte window `start..=end` of the object named `name`,
    /// where any `end` at or past the last byte means "through the end
    /// of the object".
    ///
    /// Fails with `BackendFailure` when the object does not exist, and
    /// with `TransferAborted` when `start` lies past the selected
    /// window's end; no input panics.
    pub fn read_range(&self, name: &String, start: u64, end: u64) -> (r: Result<Vec<u8>, Error>)
        ensures
            self.blob(name@) is None ==> (r matches Err(e) && e matches Error::BackendFailure(m)
                && m@ == "blob not found"@),
            self.blob(name@) is Some && !range_valid(self.blob(name@)->0, start, end) ==> (
            r matches Err(e) && e matches Error::TransferAborted(m) && m@
                == "range start past end of object"@),
            self.blob(name@) is Some && range_valid(self.blob(name@)->0, start, end) ==> (
            r matches Ok(out) && out@ == range_view(self.blob(name@)->0, start, end)),
    {
        let found = assoc_find(&self.blobs, name);
        proof {
            match found {
                Some(i) => lemma_assoc_lookup_index(self.blobs@, name@, i as int),
                None => lemma_assoc_lookup_none(self.blobs@, name@),
            }
        }
        let i = match found {
            Some(i) => i,
            None => {
                return Err(Error::BackendFailure("blob not found".to_owned()));
            },
        };
        let data = &self.blobs[i].1;
        let len = data.len();
        let eff: usize = if end >= len as u64 {
            len
        } else {
            (end as usize) + 1
        };
        if start > eff as u64 {
            return Err(Error::TransferAborted("range start past end of object".to_owned()));
        }
        let mut out: Vec<u8> = Vec::new();
        let mut j = start as usize;
        while j < eff
            invariant
                start <= j <= eff <= data@.len(),
                out@ =~= data@.subrange(start as int, j as int),
            decreases eff - j,
        {
            out.push(data[j]);
            j += 1;
            proof {
                assert(out@ =~= data@.subrange(start as int, j as int));
            }
        }
        proof {
            assert(out@ =~= range_view(self.blob(name@)->0, start, end));
        }
        Ok(out)
    }

    /// Stores `data` under `name`, replacing any previous content.
    pub fn put(&mut self, name: &String, data: Vec<u8>)
        requires
            old(self).well_formed(),
        ensures
            final(self).well_formed(),
            final(self).spec_name() == old(self).spec_name(),
            final(self).blob(name@) == Some(data@),
            forall|k: Seq<char>| k != name@ ==> #[trigger] final(self).blob(k) == old(self).blob(
                k,
            ),
    {
        let found = assoc_find(&self.blobs, name);
        let p = (name.clone(), data);
        match found {
            Some(i) => {
                proof {
                    lemma_assoc_lookup_update(self.blobs@, i as int, p);
                }
                self.blobs.set(i, p);
            },
            None => {
                proof {
                    lemma_assoc_lookup_push(self.blobs@, p);
                }
                self.blobs.push(p);
            },
        }
    }

    /// Deletes the object named `name`; deleting an absent object is
    /// not an error.
    pub fn delete_object(&mut self, name: &String)
        requires
            old(self).well_formed(),
        ensures
            final(self).well_formed(),
            final(self).spec_name() == old(self).spec_name(),
            final(self).blob(name@) is None,
            forall|k: Seq<char>| k != name@ ==> #[trigger] final(self).blob(k) == old(self).blob(
                k,
            ),
    {
        let found = assoc_find(&self.blobs, name);
        match found {
            Some(i) => {
                proof {
                    lemma_assoc_lookup_remove(self.blobs@, i as int);
                }
                self.blobs.remove(i);
            },
            None => {
                proof {
                    lemma_assoc_lookup_none(self.blobs@, name@);
                }
            },
        }
    }

    /// Deletes every object whose name is in `names`; absent names are
    /// ignored.
    pub fn delete_objects(&mut self, names: &Vec<String>)
        requires
            old(self).well_formed(),
        ensures
            final(self).well_formed(),
            final(self).spec_name() == old(self).spec_name(),
            forall|k: Seq<char>| name_in_list(names@, k) ==> #[trigger] final(self).blob(k)
                is None,
            forall|k: Seq<char>| !name_in_list(names@, k) ==> #[trigger] final(self).blob(k)
                == old(self).blob(k),
    {
        let n = names.len();
        let mut i: usize = 0;
        while i < n
            invariant
                old(self).well_formed(),
                self.well_formed(),
                self.spec_name() == old(self).spec_name(),
                n == names@.len(),
                i <= n,
                forall|k: Seq<char>| name_in_list(names@.take(i as int), k)
                    ==> #[trigger] self.blob(k) is None,
                forall|k: Seq<char>| !name_in_list(names@.take(i as int), k)
                    ==> #[trigger] self.blob(k) == old(self).blob(k),
            decreases n - i,
        {
            self.delete_object(&names[i]);
            proof {
                assert(names@.take(i + 1).last() == names@[i as int]);
                assert(forall|k: Seq<char>| name_in_list(names@.take(i as int), k)
                    ==> name_in_list(names@.take(i + 1), k));
                assert(forall|k: Seq<char>| name_in_list(names@.take(i + 1), k) ==> name_in_list(
                    names@.take(i as int),
                    k,
                ) || k == names@[i as int]@);
            }
            i += 1;
        }
        proof {
            assert(names@.take(n as int) =~= names@);
        }
    }

    /// Removes every object from the container.
    pub fn clear(&mut self)
        ensures
            final(self).well_formed(),
            final(self).spec_name() == old(self).spec_name(),
            forall|k: Seq<char>| #[trigger] final(self).blob(k) is None,
    {
        self.blobs.clear();
        proof {
            assert forall|k: Seq<char>| #[trigger] self.blob(k) is None by {
                lemma_assoc_lookup_none(self.blobs@, k);
            }
        }
    }

    /// The names of all stored objects, in insertion order.
    pub fn list_object_names(&self) -> (r: Vec<String>)
        ensures
            r@.len() == self.entries().len(),
            forall|i: int| 0 <= i < r@.len() ==> r@[i] == self.entries()[i].0,
    {
        let n = self.blobs.len();
        let mut out: Vec<String> = Vec::new();
        let mut i: usize = 0;
        while i < n
            invariant
                n == self.blobs@.len(),
                i <= n,
                out@.len() == i,
                forall|j: int| 0 <= j < i ==> out@[j] == self.blobs@[j].0,
            decreases n - i,
        {
            out.push(self.blobs[i].0.clone());
            i += 1;
        }
        out
    }
}

/// The lazily-populated set of in-memory containers of one store.
pub struct BlobStoreInMemory {
    containers: Vec<(String, InMemoryContainer)>,
}

/// Container names are pairwise distinct and each container knows its
/// own name.
pub open spec fn store_entries_wf(s: Seq<(String, InMemoryContainer)>) -> bool {
    unique_keys(s) && (forall|i: int|
        0 <= i < s.len() ==> #[trigger] s[i].1.well_formed() && s[i].1.spec_name() == s[i].0@)
}

/// Replacing one container by a well-formed container of the same name
/// keeps the store's entries well-formed.
pub proof fn lemma_store_wf_update(s: Seq<(String, InMemoryContainer)>, slot: int, c: InMemoryContainer)
    requires
        store_entries_wf(s),
        0 <= slot < s.len(),
        c.well_formed(),
        c.spec_name() == s[slot].0@,
    ensures
        store_entries_wf(s.update(slot, (s[slot].0, c))),
{
    let t = s.update(slot, (s[slot].0, c));
    assert(forall|a: int| 0 <= a < s.len() ==> t[a].0@ == s[a].0@);
    assert forall|i: int| 0 <= i < t.len() implies #[trigger] t[i].1.well_formed()
        && t[i].1.spec_name() == t[i].0@ by {
        if i != slot {
            assert(t[i] == s[i]);
            assert(s[i].1.well_formed());
            assert(s[i].1.spec_name() == s[i].0@);
        }
    }
}

impl BlobStoreInMemory {
    /// The store's containers satisfy [`store_entries_wf`].
    pub open spec fn well_formed(self) -> bool {
        store_entries_wf(self.containers())
    }

    /// The containers created so far, in creation order.
    pub closed spec fn containers(self) -> Seq<(String, InMemoryContainer)> {
        self.containers@
    }

    /// Creates a store with no containers.
    pub fn new() -> (s: BlobStoreInMemory)
        ensures
            s.well_formed(),
            s.containers().len() == 0,
    {
        BlobStoreInMemory { containers: Vec::new() }
    }

    /// Whether a container may exist under `name`; the in-memory store
    /// accepts every name.
    pub fn is_defined(&self, name: &String) -> (r: bool)
        ensures
            r,
    {
        let _ = name;
        true
    }

    /// A configuration summary; this backend offers none.
    pub fn summary(&self, name: &String) -> (r: Option<String>)
        ensures
            r is None,
    {
        let _ = name;
        None
    }

    /// Returns the slot of the container named `name`, creating an
    /// empty container on first access.
    ///
    /// Slots are stable: existing containers keep their slot, and a
    /// fresh container is appended.
    pub fn get_or_create(&mut self, name: &String) -> (idx: usize)
        requires
            old(self).well_formed(),
        ensures
            final(self).well_formed(),
            idx < final(self).containers().len(),
            final(self).containers()[idx as int].0@ == name@,
            assoc_lookup(old(self).containers(), name@) is Some ==> final(self).containers()
                == old(self).containers(),
            assoc_lookup(old(self).containers(), name@) is None ==> idx
                == old(self).containers().len() && final(self).containers().len() == old(
                self,
            ).containers().len() + 1 && final(self).containers().drop_last() =~= old(
                self,
            ).containers() && (forall|k: Seq<char>|
                #[trigger] final(self).containers()[idx as int].1.blob(k) is None),
    {
        let found = assoc_find(&self.containers, name);
        match found {
            Some(i) => {
                proof {
                    lemma_assoc_lookup_index(self.containers@, name@, i as int);
                }
                i
            },
            None => {
                proof {
                    lemma_assoc_lookup_none(self.containers@, name@);
                }
                let idx = self.containers.len();
                let container = InMemoryContainer::new(name.clone());
                let pair = (name.clone(), container);
                proof {
                    lemma_assoc_lookup_push(self.containers@, pair);
                }
                self.containers.push(pair);
                proof {
                    assert(self.containers@.drop_last() =~= old(self).containers@);
                    assert forall|j: int| 0 <= j < self.containers@.len() implies #[trigger] self
                        .containers@[j].1.well_formed() && self.containers@[j].1.spec_name()
                        == self.containers@[j].0@ by {
                        if j < old(self).containers@.len() {
                            assert(self.containers@[j] == old(self).containers@[j]);
                            assert(old(self).containers@[j].1.well_formed());
                            assert(old(self).containers@[j].1.spec_name() == old(
                                self,
                            ).containers@[j].0@);
                        } else {
                            assert(self.containers@[j] == pair);
                        }
                    }
                }
                idx
            },
        }
    }

    /// How many containers exist.
    pub fn container_count(&self) -> (n: usize)
        ensures
            n == self.containers().len(),
    {
        self.containers.len()
    }

    /// Borrows the container in `slot`.
    pub fn container_at(&self, slot: usize) -> (r: &InMemoryContainer)
        requires
            slot < self.containers().len(),
        ensures
            *r == self.containers()[slot as int].1,
    {
        &self.containers[slot].1
    }

    /// Exclusively borrows the container in `slot`.  The caller must
    /// keep the container well-formed and must not rename it.
    pub fn container_at_mut(&mut self, slot: usize) -> (r: &mut InMemoryContainer)
        requires
            old(self).well_formed(),
            slot < old(self).containers().len(),
        ensures
            *r == old(self).containers()[slot as int].1,
            final(self).containers() =~= old(self).containers().update(
                slot as int,
                (old(self).containers()[slot as int].0, *final(r)),
            ),
    {
        let pair = &mut self.containers[slot];
        &mut pair.1
    }
}

/// A stream of object names, consumed from the front by `read` and
/// `skip` calls.
pub struct InMemoryBlobNames {
    names: Vec<String>,
}

impl InMemoryBlobNames {
    /// The names not yet handed out, in order.
    pub closed spec fn remaining(self) -> Seq<String> {
        self.names@
    }

    /// Wraps a listing for streamed consumption.
    pub fn new(names: Vec<String>) -> (s: InMemoryBlobNames)
        ensures
            s.remaining() == names@,
    {
        InMemoryBlobNames { names }
    }

    /// Hands out up to `len` names from the front, and whether the
    /// stream is exhausted afterwards.
    pub fn read_names(&mut self, len: u64) -> (r: (Vec<String>, bool))
        ensures
            r.0@.len() == vstd::math::min(len as int, old(self).remaining().len() as int),
            r.0@ == old(self).remaining().take(r.0@.len() as int),
            final(self).remaining() == old(self).remaining().skip(r.0@.len() as int),
            r.1 <==> final(self).remaining().len() == 0,
    {
        let k: usize = if len >= self.names.len() as u64 {
            self.names.len()
        } else {
            len as usize
        };
        let mut rest = self.names.split_off(k);
        core::mem::swap(&mut self.names, &mut rest);
        let at_end = self.names.is_empty();
        proof {
            assert(rest@ =~= old(self).remaining().take(k as int));
            assert(self.names@ =~= old(self).remaining().skip(k as int));
        }
        (rest, at_end)
    }

    /// Skips up to `num` names, returning how many were skipped and
    /// whether the stream is exhausted afterwards.
    pub fn skip_names(&mut self, num: u64) -> (r: (u64, bool))
        ensures
            r.0 == vstd::math::min(num as int, old(self).remaining().len() as int),
            final(self).remaining() == old(self).remaining().skip(r.0 as int),
            r.1 <==> final(self).remaining().len() == 0,
    {
        let k: usize = if num >= self.names.len() as u64 {
            self.names.len()
        } else {
            num as usize
        };
        let mut rest = self.names.split_off(k);
        core::mem::swap(&mut self.names, &mut rest);
        let at_end = self.names.is_empty();
        proof {
            assert(self.names@ =~= old(self).remaining().skip(k as int));
        }
        (k as u64, at_end)
    }
}

/// The in-memory blob store backend factory.
pub struct MemoryBlobStore {
    _priv: (),
}

/// The runtime configuration of the in-memory blob store; it has no
/// options.
pub struct MemoryBlobStoreRuntimeConfig {}

impl MemoryBlobStore {
    /// Creates the backend factory.
    pub fn new() -> (s: MemoryBlobStore) {
        MemoryBlobStore { _priv: () }
    }

    /// Creates a fresh, empty in-memory store.
    pub fn make_store(&self, runtime_config: MemoryBlobStoreRuntimeConfig) -> (r: Result<
        BlobStoreInMemory,
        Error,
    >)
        ensures
            r matches Ok(s) && s.well_formed() && s.containers().len() == 0,
    {
        let _ = runtime_config;
        Ok(BlobStoreInMemory::new())
    }
}

} // verus!
