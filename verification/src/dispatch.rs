//! The guest-facing dispatch layer for one component instance.
//!
//! Every guest call runs through the same sequence: the capability
//! check on the container label happens before any backend object is
//! resolved, resolved objects are exposed through fresh handles in
//! per-instance resource tables, and stale handles fail with
//! `InvalidHandle` rather than reaching a backend.

use vstd::prelude::*;

use crate::assoc::assoc_lookup;
use crate::errors::Error;
use crate::memory_store::{
    lemma_store_wf_update, name_in_list, range_valid, range_view, BlobStoreInMemory,
    ContainerMetadata, InMemoryBlobNames, ObjectMetadata,
};
use crate::table::Table;
use crate::transfer::{IncomingBlobContent, OutgoingValue};

verus! {

/// Whether `new_m` is `old_m` with only the container in slot `s`
/// replaced, keeping its label.
pub open spec fn manager_updated_at(
    old_m: Seq<(String, crate::memory_store::InMemoryContainer)>,
    new_m: Seq<(String, crate::memory_store::InMemoryContainer)>,
    s: int,
) -> bool {
    0 <= s < old_m.len() && new_m == old_m.update(s, (old_m[s].0, new_m[s].1))
}

/// Finds whether `name` is one of `names`.
pub fn string_list_contains(names: &Vec<String>, name: &String) -> (r: bool)
    ensures
        r == name_in_list(names@, name@),
{
    let n = names.len();
    let mut i: usize = 0;
    while i < n
        invariant
            n == names@.len(),
            i <= n,
            forall|j: int| 0 <= j < i ==> names@[j]@ != name@,
        decreases n - i,
    {
        if names[i] == *name {
            return true;
        }
        i += 1;
    }
    false
}

/// The per-instance dispatch: the component's allow-list, the backend
/// store, and one resource table per resource kind.
///
/// The fields are public so that contracts can speak of them
/// directly; every operation requires and re-establishes
/// [`BlobStoreDispatch::well_formed`], so callers that reach in by
/// hand only forfeit the contracts, never soundness.
pub struct BlobStoreDispatch {
    /// The labels this component instance may open.
    pub allowed_containers: Vec<String>,
    /// The backend store shared by this instance's handles.
    pub manager: BlobStoreInMemory,
    /// Live container handles, each resolving to a backend slot.
    pub containers: Table<usize>,
    /// Live downloads.
    pub incoming_values: Table<IncomingBlobContent>,
    /// Live uploads.
    pub outgoing_values: Table<OutgoingValue>,
    /// Live object-name streams.
    pub object_names: Table<InMemoryBlobNames>,
}

impl BlobStoreDispatch {
    /// The backend is well-formed, every container handle resolves to
    /// a live backend slot, and every upload refers to a live backend
    /// slot.
    pub open spec fn well_formed(self) -> bool {
        &&& self.manager.well_formed()
        &&& self.containers.well_formed()
        &&& self.incoming_values.well_formed()
        &&& self.outgoing_values.well_formed()
        &&& self.object_names.well_formed()
        &&& forall|h: u32| #[trigger] self.containers.contents().contains_key(h)
            ==> self.containers.contents()[h] < self.manager.containers().len()
        &&& forall|h: u32| #[trigger] self.outgoing_values.contents().contains_key(h)
            ==> self.outgoing_values.contents()[h].well_formed() && (match self.outgoing_values.contents()[h].spec_target() {
                Some(t) => t.0 < self.manager.containers().len(),
                None => true,
            })
    }

    /// The labels this component may open.
    pub open spec fn spec_allowed_containers(self) -> Seq<String> {
        self.allowed_containers@
    }

    /// Whether the allow-list admits `name`.
    pub open spec fn spec_allowed(self, name: Seq<char>) -> bool {
        name_in_list(self.allowed_containers@, name)
    }

    /// The backend slot a container handle resolves to, if any.
    pub open spec fn container_slot(self, h: u32) -> Option<usize> {
        if self.containers.contents().contains_key(h) {
            Some(self.containers.contents()[h])
        } else {
            None
        }
    }

    /// The label of the container in backend slot `s`.
    pub open spec fn slot_name(self, s: usize) -> Seq<char> {
        self.manager.containers()[s as int].0@
    }

    /// The content stored under `name` in backend slot `s`, if any.
    pub open spec fn blob_at(self, s: usize, name: Seq<char>) -> Option<Seq<u8>> {
        self.manager.containers()[s as int].1.blob(name)
    }

    /// Creates the dispatch state for one component instance: fresh,
    /// empty resource tables of the given capacity over the given
    /// backend store and allow-list.
    pub fn new(allowed_containers: Vec<String>, manager: BlobStoreInMemory, capacity: u32) -> (d:
        BlobStoreDispatch)
        requires
            manager.well_formed(),
        ensures
            d.well_formed(),
            d.spec_allowed_containers() == allowed_containers@,
            d.manager == manager,
            d.containers.contents() =~= Map::<u32, usize>::empty(),
            d.incoming_values.contents() =~= Map::<u32, IncomingBlobContent>::empty(),
            d.outgoing_values.contents() =~= Map::<u32, OutgoingValue>::empty(),
            d.object_names.contents() =~= Map::<u32, InMemoryBlobNames>::empty(),
            d.containers.spec_capacity() == capacity,
            d.incoming_values.spec_capacity() == capacity,
            d.outgoing_values.spec_capacity() == capacity,
            d.object_names.spec_capacity() == capacity,
    {
        BlobStoreDispatch {
            allowed_containers,
            manager,
            containers: Table::new(capacity),
            incoming_values: Table::new(capacity),
            outgoing_values: Table::new(capacity),
            object_names: Table::new(capacity),
        }
    }

    /// The labels this component may open.
    pub fn allowed_containers(&self) -> (r: &Vec<String>)
        ensures
            r@ == self.spec_allowed_containers(),
    {
        &self.allowed_containers
    }

    /// Resolves a container handle to its backend slot.
    fn slot_of(&self, container: u32) -> (r: Result<usize, Error>)
        requires
            self.well_formed(),
        ensures
            r matches Ok(s) ==> self.container_slot(container) == Some(s) && s
                < self.manager.containers().len(),
            r is Err ==> self.container_slot(container) is None && (r matches Err(e) && e
                == Error::InvalidHandle),
            r is Ok <==> self.container_slot(container) is Some,
    {
        match self.containers.get(container) {
            Some(s) => Ok(*s),
            None => Err(Error::InvalidHandle),
        }
    }

    /// Opens the container named `name`.
    ///
    /// The capability check happens first: for a label outside the
    /// allow-list the call fails with `AccessDenied` and no backend
    /// object is created or resolved.  For an allowed label the
    /// backend container is resolved (created on first access) and
    /// exposed under a fresh handle; the handle table being full is
    /// the only other failure.
    pub fn get_container(&mut self, name: String) -> (r: Result<u32, Error>)
        requires
            old(self).well_formed(),
        ensures
            final(self).well_formed(),
            final(self).spec_allowed_containers() == old(self).spec_allowed_containers(),
            !old(self).spec_allowed(name@) ==> (r matches Err(e) && e == Error::AccessDenied)
                && *final(self) == *old(self),
            old(self).spec_allowed(name@) ==> {
                &&& final(self).incoming_values == old(self).incoming_values
                &&& final(self).outgoing_values == old(self).outgoing_values
                &&& final(self).object_names == old(self).object_names
                &&& (assoc_lookup(old(self).manager.containers(), name@) is Some ==> final(self).manager.containers() == old(self).manager.containers())
                &&& (assoc_lookup(old(self).manager.containers(), name@) is None ==> final(self).manager.containers().len() == old(self).manager.containers().len() + 1 && final(self).manager.containers().drop_last() =~= old(self).manager.containers())
                &&& (r is Ok <==> old(self).containers.used()
                    < old(self).containers.spec_capacity())
                &&& (r matches Err(e) ==> e == Error::ResourceExhausted
                    && final(self).containers.contents() == old(self).containers.contents())
                &&& (r matches Ok(h) ==> !old(self).containers.contents().contains_key(h)
                    && final(self).container_slot(h) is Some
                    && final(self).slot_name(final(self).container_slot(h)->0) == name@
                    && final(self).containers.contents() =~= old(self).containers.contents().insert(h, final(self).containers.contents()[h]))
            },
    {
        let allowed = string_list_contains(&self.allowed_containers, &name);
        if !allowed {
            return Err(Error::AccessDenied);
        }
        let slot = self.manager.get_or_create(&name);
        match self.containers.push(slot) {
            Ok(h) => {
                proof {
                    assert forall|k: u32| #[trigger] self.containers.contents().contains_key(k)
                        implies self.containers.contents()[k]
                        < self.manager.containers().len() by {
                        if k != h {
                            assert(old(self).containers.contents().contains_key(k));
                        }
                    }
                    assert forall|k: u32| #[trigger] self.outgoing_values.contents().contains_key(
                        k,
                    ) implies self.outgoing_values.contents()[k].well_formed() && (
                    match self.outgoing_values.contents()[k].spec_target() {
                        Some(t) => t.0 < self.manager.containers().len(),
                        None => true,
                    }) by {
                        assert(old(self).outgoing_values.contents().contains_key(k));
                    }
                }
                Ok(h)
            },
            Err(e) => Err(e),
        }
    }

    /// Whether the container named `name` exists.
    ///
    /// For a label outside the allow-list this reports `false` rather
    /// than an error; for an allowed label the backend container is
    /// resolved (created on first access) and always exists in this
    /// backend.
    pub fn container_exists(&mut self, name: String) -> (r: Result<bool, Error>)
        requires
            old(self).well_formed(),
        ensures
            final(self).well_formed(),
            !old(self).spec_allowed(name@) ==> r == Result::<bool, Error>::Ok(false) && *final(self) == *old(self),
            old(self).spec_allowed(name@) ==> r == Result::<bool, Error>::Ok(true),
            final(self).containers == old(self).containers,
            final(self).incoming_values == old(self).incoming_values,
            final(self).outgoing_values == old(self).outgoing_values,
            final(self).object_names == old(self).object_names,
            final(self).spec_allowed_containers() == old(self).spec_allowed_containers(),
    {
        let allowed = string_list_contains(&self.allowed_containers, &name);
        if !allowed {
            return Ok(false);
        }
        let slot = self.manager.get_or_create(&name);
        let present = self.manager.container_at(slot).is_present();
        proof {
            assert forall|k: u32| #[trigger] self.containers.contents().contains_key(k)
                implies self.containers.contents()[k] < self.manager.containers().len() by {}
            assert forall|k: u32| #[trigger] self.outgoing_values.contents().contains_key(k)
                implies self.outgoing_values.contents()[k].well_formed() && (
            match self.outgoing_values.contents()[k].spec_target() {
                Some(t) => t.0 < self.manager.containers().len(),
                None => true,
            }) by {}
        }
        Ok(present)
    }

    /// The name of the container a handle resolves to.
    pub fn container_name(&self, container: u32) -> (r: Result<String, Error>)
        requires
            self.well_formed(),
        ensures
            self.container_slot(container) is None ==> r == Result::<String, Error>::Err(
                Error::InvalidHandle,
            ),
            self.container_slot(container) matches Some(s) ==> (r matches Ok(n) && n@
                == self.slot_name(s)),
    {
        let slot = match self.slot_of(container) {
            Ok(s) => s,
            Err(e) => {
                return Err(e);
            },
        };
        proof {
            assert(self.manager.containers()[slot as int].1.well_formed());
        }
        Ok(self.manager.container_at(slot).name())
    }

    /// The metadata of the container a handle resolves to.
    pub fn info(&self, container: u32) -> (r: Result<ContainerMetadata, Error>)
        requires
            self.well_formed(),
        ensures
            self.container_slot(container) is None ==> r == Result::<ContainerMetadata, Error>::Err(
                Error::InvalidHandle,
            ),
            self.container_slot(container) matches Some(s) ==> (r matches Ok(m) && m.name@
                == self.slot_name(s) && m.created_at == 0),
    {
        let slot = match self.slot_of(container) {
            Ok(s) => s,
            Err(e) => {
                return Err(e);
            },
        };
        proof {
            assert(self.manager.containers()[slot as int].1.well_formed());
        }
        Ok(self.manager.container_at(slot).info())
    }

    /// Whether the container a handle resolves to holds an object
    /// named `name`.
    pub fn has_object(&self, container: u32, name: &String) -> (r: Result<bool, Error>)
        requires
            self.well_formed(),
        ensures
            self.container_slot(container) is None ==> r == Result::<bool, Error>::Err(
                Error::InvalidHandle,
            ),
            self.container_slot(container) matches Some(s) ==> r == Result::<bool, Error>::Ok(
                self.blob_at(s, name@) is Some,
            ),
    {
        let slot = match self.slot_of(container) {
            Ok(s) => s,
            Err(e) => {
                return Err(e);
            },
        };
        Ok(self.manager.container_at(slot).has_object(name))
    }

    /// The metadata of the object named `name` in the container a
    /// handle resolves to.
    pub fn object_info(&self, container: u32, name: &String) -> (r: Result<ObjectMetadata, Error>)
        requires
            self.well_formed(),
        ensures
            self.container_slot(container) is None ==> r == Result::<ObjectMetadata, Error>::Err(
                Error::InvalidHandle,
            ),
            self.container_slot(container) is Some && self.blob_at(
                self.container_slot(container)->0,
                name@,
            ) is Some ==> (r matches Ok(m) && m.name@ == name@ && m.container@ == self.slot_name(
                self.container_slot(container)->0,
            ) && m.size == self.blob_at(self.container_slot(container)->0, name@)->0.len()),
            self.container_slot(container) is Some && self.blob_at(
                self.container_slot(container)->0,
                name@,
            ) is None ==> (r matches Err(e) && e matches Error::BackendFailure(msg) && msg@
                == "blob not found"@),
    {
        let slot = match self.slot_of(container) {
            Ok(s) => s,
            Err(e) => {
                return Err(e);
            },
        };
        proof {
            assert(self.manager.containers()[slot as int].1.well_formed());
        }
        self.manager.container_at(slot).object_info(name)
    }

    /// Downloads the byte window `start..=end` of the object named
    /// `name`, exposing it under a fresh download handle.
    ///
    /// Any `end` at or past the last byte means "through the end of
    /// the object".  Fails with `InvalidHandle` for a dead container
    /// handle, `BackendFailure` for a missing object,
    /// `TransferAborted` for a window start past the object, and
    /// `ResourceExhausted` when the download table is full; in every
    /// failure nothing changes.
    pub fn get_data(&mut self, container: u32, name: &String, start: u64, end: u64) -> (r: Result<
        u32,
        Error,
    >)
        requires
            old(self).well_formed(),
        ensures
            final(self).well_formed(),
            final(self).manager == old(self).manager,
            final(self).containers == old(self).containers,
            final(self).outgoing_values == old(self).outgoing_values,
            final(self).object_names == old(self).object_names,
            final(self).allowed_containers == old(self).allowed_containers,
            old(self).container_slot(container) is None ==> r == Result::<u32, Error>::Err(
                Error::InvalidHandle,
            ) && *final(self) == *old(self),
            old(self).container_slot(container) matches Some(s) ==> {
                &&& (old(self).blob_at(s, name@) is None ==> (r matches Err(e) && e
                    matches Error::BackendFailure(m) && m@ == "blob not found"@) && *final(self)
                    == *old(self))
                &&& (old(self).blob_at(s, name@) is Some && !range_valid(
                    old(self).blob_at(s, name@)->0,
                    start,
                    end,
                ) ==> (r matches Err(e) && e matches Error::TransferAborted(m) && m@
                    == "range start past end of object"@) && *final(self) == *old(self))
                &&& (old(self).blob_at(s, name@) is Some && range_valid(
                    old(self).blob_at(s, name@)->0,
                    start,
                    end,
                ) ==> {
                    &&& (r is Ok <==> old(self).incoming_values.used() < old(self).incoming_values.spec_capacity())
                    &&& (r matches Err(e) ==> e == Error::ResourceExhausted && final(self).incoming_values.contents() == old(self).incoming_values.contents())
                    &&& (r matches Ok(h) ==> !old(self).incoming_values.contents().contains_key(h)
                        && final(self).incoming_values.contents() =~= old(self).incoming_values.contents().insert(
                        h,
                        final(self).incoming_values.contents()[h],
                    ) && final(self).incoming_values.contents()[h].content() == range_view(
                        old(self).blob_at(s, name@)->0,
                        start,
                        end,
                    ))
                })
            },
    {
        let slot = match self.slot_of(container) {
            Ok(s) => s,
            Err(e) => {
                return Err(e);
            },
        };
        let data = match self.manager.container_at(slot).read_range(name, start, end) {
            Ok(d) => d,
            Err(e) => {
                return Err(e);
            },
        };
        let content = IncomingBlobContent::new(data);
        match self.incoming_values.push(content) {
            Ok(h) => Ok(h),
            Err(e) => Err(e),
        }
    }

    /// Synchronous full drain of a download: hands back the whole
    /// window in one buffer and releases the handle.
    pub fn incoming_value_consume_sync(&mut self, handle: u32) -> (r: Result<Vec<u8>, Error>)
        requires
            old(self).well_formed(),
        ensures
            final(self).well_formed(),
            final(self).manager == old(self).manager,
            final(self).containers == old(self).containers,
            final(self).outgoing_values == old(self).outgoing_values,
            final(self).object_names == old(self).object_names,
            !old(self).incoming_values.contents().contains_key(handle) ==> r == Result::<
                Vec<u8>,
                Error,
            >::Err(Error::InvalidHandle) && *final(self) == *old(self),
            old(self).incoming_values.contents().contains_key(handle) ==> (r matches Ok(d) && d@
                == old(self).incoming_values.contents()[handle].content()) && final(self).incoming_values.contents() =~= old(self).incoming_values.contents().remove(handle),
    {
        match self.incoming_values.remove(handle) {
            Some(v) => Ok(v.consume_sync()),
            None => Err(Error::InvalidHandle),
        }
    }

    /// Incremental drain of a download: splits the window into chunks
    /// for poll-driven consumption and releases the handle.  Exactly
    /// one of the two consumption modes can ever run for one handle,
    /// since either releases it.
    pub fn incoming_value_consume_async(&mut self, handle: u32, chunk_size: usize) -> (r: Result<
        Vec<Vec<u8>>,
        Error,
    >)
        requires
            old(self).well_formed(),
            chunk_size >= 1,
        ensures
            final(self).well_formed(),
            final(self).manager == old(self).manager,
            final(self).containers == old(self).containers,
            final(self).outgoing_values == old(self).outgoing_values,
            final(self).object_names == old(self).object_names,
            !old(self).incoming_values.contents().contains_key(handle) ==> r == Result::<
                Vec<Vec<u8>>,
                Error,
            >::Err(Error::InvalidHandle) && *final(self) == *old(self),
            old(self).incoming_values.contents().contains_key(handle) ==> (r matches Ok(cs)
                && crate::transfer::chunks_bytes(cs@) == old(self).incoming_values.contents()[handle].content() && (forall|i: int|
                0 <= i < cs@.len() ==> 1 <= (#[trigger] cs@[i]@.len()) <= chunk_size) && (forall|
                i: int,
            |
                0 <= i < cs@.len() - 1 ==> (#[trigger] cs@[i]@.len()) == chunk_size)) && final(self).incoming_values.contents() =~= old(self).incoming_values.contents().remove(handle),
    {
        match self.incoming_values.remove(handle) {
            Some(v) => Ok(v.into_chunks(chunk_size)),
            None => Err(Error::InvalidHandle),
        }
    }

    /// The size of a download's byte window.
    pub fn incoming_value_size(&self, handle: u32) -> (r: Result<u64, Error>)
        requires
            self.well_formed(),
        ensures
            !self.incoming_values.contents().contains_key(handle) ==> r == Result::<
                u64,
                Error,
            >::Err(Error::InvalidHandle),
            self.incoming_values.contents().contains_key(handle) ==> r == Result::<u64, Error>::Ok(
                self.incoming_values.contents()[handle].content().len() as u64,
            ),
    {
        match self.incoming_values.get(handle) {
            Some(v) => Ok(v.size()),
            None => Err(Error::InvalidHandle),
        }
    }

    /// Creates a fresh upload and exposes it under a fresh handle.
    pub fn new_outgoing_value(&mut self) -> (r: Result<u32, Error>)
        requires
            old(self).well_formed(),
        ensures
            final(self).well_formed(),
            final(self).manager == old(self).manager,
            final(self).containers == old(self).containers,
            final(self).incoming_values == old(self).incoming_values,
            final(self).object_names == old(self).object_names,
            r is Ok <==> old(self).outgoing_values.used() < old(self).outgoing_values.spec_capacity(),
            r matches Err(e) ==> e == Error::ResourceExhausted && final(self).outgoing_values.contents() == old(self).outgoing_values.contents(),
            r matches Ok(h) ==> !old(self).outgoing_values.contents().contains_key(h) && final(self).outgoing_values.contents() =~= old(self).outgoing_values.contents().insert(
                h,
                final(self).outgoing_values.contents()[h],
            ) && final(self).outgoing_values.contents()[h].content() =~= Seq::<u8>::empty()
                && final(self).outgoing_values.contents()[h].spec_target() is None && !final(self).outgoing_values.contents()[h].spec_finished() && !final(self).outgoing_values.contents()[h].spec_stream_taken(),
    {
        let v = OutgoingValue::new();
        match self.outgoing_values.push(v) {
            Ok(h) => {
                proof {
                    assert forall|k: u32| #[trigger] self.outgoing_values.contents().contains_key(
                        k,
                    ) implies self.outgoing_values.contents()[k].well_formed() && (
                    match self.outgoing_values.contents()[k].spec_target() {
                        Some(t) => t.0 < self.manager.containers().len(),
                        None => true,
                    }) by {
                        if k != h {
                            assert(old(self).outgoing_values.contents().contains_key(k));
                        }
                    }
                }
                Ok(h)
            },
            Err(e) => Err(e),
        }
    }

    /// Hands the guest the upload's byte sink; there is only one, so
    /// a second request for it fails.
    pub fn outgoing_value_write_body(&mut self, handle: u32) -> (r: Result<(), Error>)
        requires
            old(self).well_formed(),
        ensures
            final(self).well_formed(),
            final(self).manager == old(self).manager,
            final(self).containers == old(self).containers,
            final(self).incoming_values == old(self).incoming_values,
            final(self).object_names == old(self).object_names,
            !old(self).outgoing_values.contents().contains_key(handle) ==> r == Result::<
                (),
                Error,
            >::Err(Error::InvalidHandle) && *final(self) == *old(self),
            old(self).outgoing_values.contents().contains_key(handle) ==> {
                &&& (r is Ok <==> !old(self).outgoing_values.contents()[handle].spec_stream_taken())
                &&& final(self).outgoing_values.contents() =~= old(self).outgoing_values.contents().insert(
                    handle,
                    final(self).outgoing_values.contents()[handle],
                )
                &&& final(self).outgoing_values.contents()[handle].spec_stream_taken()
                &&& final(self).outgoing_values.contents()[handle].content() == old(self).outgoing_values.contents()[handle].content()
                &&& final(self).outgoing_values.contents()[handle].spec_target() == old(self).outgoing_values.contents()[handle].spec_target()
                &&& final(self).outgoing_values.contents()[handle].spec_finished() == old(self).outgoing_values.contents()[handle].spec_finished()
                &&& (r matches Err(e) ==> e matches Error::TransferAborted(m) && m@
                    == "write stream already taken"@)
            },
    {
        if !self.outgoing_values.has(handle) {
            return Err(Error::InvalidHandle);
        }
        proof {
            assert(old(self).outgoing_values.contents()[handle].well_formed());
        }
        let ov = self.outgoing_values.borrow_mut(handle);
        let r = ov.take_write_stream();
        proof {
            assert forall|k: u32| #[trigger] self.outgoing_values.contents().contains_key(k)
                implies self.outgoing_values.contents()[k].well_formed() && (
            match self.outgoing_values.contents()[k].spec_target() {
                Some(t) => t.0 < self.manager.containers().len(),
                None => true,
            }) by {
                if k != handle {
                    assert(old(self).outgoing_values.contents().contains_key(k));
                }
            }
        }
        r
    }

    /// Appends `chunk` to an upload through its byte sink.
    ///
    /// Nothing becomes visible to readers: the backend store is
    /// untouched until the upload is finished.
    pub fn outgoing_value_write(&mut self, handle: u32, chunk: Vec<u8>) -> (r: Result<(), Error>)
        requires
            old(self).well_formed(),
        ensures
            final(self).well_formed(),
            final(self).manager == old(self).manager,
            final(self).containers == old(self).containers,
            final(self).incoming_values == old(self).incoming_values,
            final(self).object_names == old(self).object_names,
            !old(self).outgoing_values.contents().contains_key(handle) ==> r == Result::<
                (),
                Error,
            >::Err(Error::InvalidHandle) && *final(self) == *old(self),
            old(self).outgoing_values.contents().contains_key(handle) ==> {
                &&& (r is Ok <==> !old(self).outgoing_values.contents()[handle].spec_finished()
                    && old(self).outgoing_values.contents()[handle].content().len() + chunk@.len()
                    <= crate::transfer::MAX_OBJECT_BYTES)
                &&& final(self).outgoing_values.contents() =~= old(self).outgoing_values.contents().insert(
                    handle,
                    final(self).outgoing_values.contents()[handle],
                )
                &&& (r is Ok ==> final(self).outgoing_values.contents()[handle].content() == old(self).outgoing_values.contents()[handle].content() + chunk@)
                &&& (r is Err ==> final(self).outgoing_values.contents()[handle].content() == old(self).outgoing_values.contents()[handle].content() && (r matches Err(e) && e
                    matches Error::TransferAborted(_)))
                &&& final(self).outgoing_values.contents()[handle].spec_target() == old(self).outgoing_values.contents()[handle].spec_target()
                &&& final(self).outgoing_values.contents()[handle].spec_finished() == old(self).outgoing_values.contents()[handle].spec_finished()
            },
    {
        if !self.outgoing_values.has(handle) {
            return Err(Error::InvalidHandle);
        }
        proof {
            assert(old(self).outgoing_values.contents()[handle].well_formed());
        }
        let ov = self.outgoing_values.borrow_mut(handle);
        let r = ov.write(chunk);
        proof {
            assert forall|k: u32| #[trigger] self.outgoing_values.contents().contains_key(k)
                implies self.outgoing_values.contents()[k].well_formed() && (
            match self.outgoing_values.contents()[k].spec_target() {
                Some(t) => t.0 < self.manager.containers().len(),
                None => true,
            }) by {
                if k != handle {
                    assert(old(self).outgoing_values.contents().contains_key(k));
                }
            }
        }
        r
    }

    /// Connects an upload to the object named `name` of the container
    /// a handle resolves to.
    ///
    /// Only the connection is recorded; the backend store is
    /// untouched, so nothing of the upload is visible to readers.
    pub fn write_data(&mut self, container: u32, name: String, data: u32) -> (r: Result<(), Error>)
        requires
            old(self).well_formed(),
        ensures
            final(self).well_formed(),
            final(self).manager == old(self).manager,
            final(self).containers == old(self).containers,
            final(self).incoming_values == old(self).incoming_values,
            final(self).object_names == old(self).object_names,
            old(self).container_slot(container) is None ==> r == Result::<(), Error>::Err(
                Error::InvalidHandle,
            ) && *final(self) == *old(self),
            old(self).container_slot(container) is Some && !old(self).outgoing_values.contents().contains_key(data) ==> r == Result::<(), Error>::Err(
                Error::InvalidHandle,
            ) && *final(self) == *old(self),
            old(self).container_slot(container) is Some && old(
                self,
            ).outgoing_values.contents().contains_key(data) ==> {
                &&& (r is Ok <==> old(self).outgoing_values.contents()[data].spec_target() is None)
                &&& final(self).outgoing_values.contents() =~= old(self).outgoing_values.contents().insert(
                    data,
                    final(self).outgoing_values.contents()[data],
                )
                &&& (r is Ok ==> final(self).outgoing_values.contents()[data].spec_target()
                    == Some((old(self).container_slot(container)->0, name@)))
                &&& (r is Err ==> final(self).outgoing_values.contents()[data] == old(self).outgoing_values.contents()[data] && (r matches Err(e) && e
                    matches Error::TransferAborted(m) && m@
                    == "upload already connected to an object"@))
                &&& final(self).outgoing_values.contents()[data].content() == old(self).outgoing_values.contents()[data].content()
                &&& final(self).outgoing_values.contents()[data].spec_finished() == old(self).outgoing_values.contents()[data].spec_finished()
            },
    {
        let slot = match self.slot_of(container) {
            Ok(s) => s,
            Err(e) => {
                return Err(e);
            },
        };
        if !self.outgoing_values.has(data) {
            return Err(Error::InvalidHandle);
        }
        proof {
            assert(old(self).outgoing_values.contents()[data].well_formed());
        }
        let ov = self.outgoing_values.borrow_mut(data);
        let r = ov.connect(slot, name);
        proof {
            assert forall|k: u32| #[trigger] self.outgoing_values.contents().contains_key(k)
                implies self.outgoing_values.contents()[k].well_formed() && (
            match self.outgoing_values.contents()[k].spec_target() {
                Some(t) => t.0 < self.manager.containers().len(),
                None => true,
            }) by {
                if k != data {
                    assert(old(self).outgoing_values.contents().contains_key(k));
                }
            }
        }
        r
    }

    /// Finishes an upload: seals the remainder, publishes the
    /// assembled content as the connected object in one step, and
    /// reports any failure.
    ///
    /// Until this call returns successfully, readers cannot observe
    /// any byte of the upload; afterwards they observe exactly the
    /// bytes written, in order.
    pub fn finish(&mut self, handle: u32) -> (r: Result<(), Error>)
        requires
            old(self).well_formed(),
        ensures
            final(self).well_formed(),
            final(self).containers == old(self).containers,
            final(self).incoming_values == old(self).incoming_values,
            final(self).object_names == old(self).object_names,
            final(self).allowed_containers == old(self).allowed_containers,
            !old(self).outgoing_values.contents().contains_key(handle) ==> r == Result::<
                (),
                Error,
            >::Err(Error::InvalidHandle) && *final(self) == *old(self),
            old(self).outgoing_values.contents().contains_key(handle) ==> {
                &&& (r is Ok <==> old(self).outgoing_values.contents()[handle].spec_target()
                    is Some && !old(self).outgoing_values.contents()[handle].spec_finished())
                &&& (r is Err ==> final(self).manager == old(self).manager && final(self).outgoing_values.contents() =~= old(self).outgoing_values.contents().insert(
                    handle,
                    final(self).outgoing_values.contents()[handle],
                ) && (r matches Err(e) && e matches Error::TransferAborted(_)))
                &&& (r is Ok ==> {
                    let s = (old(self).outgoing_values.contents()[handle].spec_target()->0).0;
                    let nm = (old(self).outgoing_values.contents()[handle].spec_target()->0).1;
                    &&& manager_updated_at(
                        old(self).manager.containers(),
                        final(self).manager.containers(),
                        s as int,
                    )
                    &&& final(self).blob_at(s, nm) == Some(
                        old(self).outgoing_values.contents()[handle].content(),
                    )
                    &&& (forall|k: Seq<char>|
                        k != nm ==> #[trigger] final(self).blob_at(s, k) == old(self).blob_at(
                            s,
                            k,
                        ))
                    &&& final(self).outgoing_values.contents() =~= old(self).outgoing_values.contents().insert(
                        handle,
                        final(self).outgoing_values.contents()[handle],
                    )
                    &&& final(self).outgoing_values.contents()[handle].spec_finished()
                })
            },
    {
        if !self.outgoing_values.has(handle) {
            return Err(Error::InvalidHandle);
        }
        proof {
            assert(old(self).outgoing_values.contents()[handle].well_formed());
        }
        let ov = self.outgoing_values.borrow_mut(handle);
        let fr = ov.finish_content();
        proof {
            assert forall|k: u32| #[trigger] self.outgoing_values.contents().contains_key(k)
                implies self.outgoing_values.contents()[k].well_formed() && (
            match self.outgoing_values.contents()[k].spec_target() {
                Some(t) => t.0 < self.manager.containers().len(),
                None => true,
            }) by {
                if k != handle {
                    assert(old(self).outgoing_values.contents().contains_key(k));
                }
            }
        }
        match fr {
            Err(e) => Err(e),
            Ok((content, slot, name)) => {
                let ghost pre = self.manager.containers();
                proof {
                    assert(self.outgoing_values.contents().contains_key(handle));
                    assert(self.outgoing_values.contents()[handle].spec_target() == Some(
                        (slot, name@),
                    ));
                    assert((slot as int) < self.manager.containers().len());
                    assert(crate::memory_store::store_entries_wf(pre));
                    assert(pre[slot as int].1.well_formed());
                    assert(pre[slot as int].1.spec_name() == pre[slot as int].0@);
                }
                let c = self.manager.container_at_mut(slot);
                c.put(&name, content);
                proof {
                    lemma_store_wf_update(
                        pre,
                        slot as int,
                        self.manager.containers()[slot as int].1,
                    );
                    assert forall|k: u32| #[trigger] self.containers.contents().contains_key(k)
                        implies self.containers.contents()[k]
                        < self.manager.containers().len() by {}
                    assert forall|k: u32| #[trigger] self.outgoing_values.contents().contains_key(
                        k,
                    ) implies self.outgoing_values.contents()[k].well_formed() && (
                    match self.outgoing_values.contents()[k].spec_target() {
                        Some(t) => t.0 < self.manager.containers().len(),
                        None => true,
                    }) by {}
                }
                Ok(())
            },
        }
    }

    /// Deletes the object named `name` from the container a handle
    /// resolves to; deleting an absent object is not an error.
    pub fn delete_object(&mut self, container: u32, name: &String) -> (r: Result<(), Error>)
        requires
            old(self).well_formed(),
        ensures
            final(self).well_formed(),
            final(self).containers == old(self).containers,
            final(self).incoming_values == old(self).incoming_values,
            final(self).outgoing_values == old(self).outgoing_values,
            final(self).object_names == old(self).object_names,
            final(self).allowed_containers == old(self).allowed_containers,
            old(self).container_slot(container) is None ==> r == Result::<(), Error>::Err(
                Error::InvalidHandle,
            ) && *final(self) == *old(self),
            old(self).container_slot(container) matches Some(s) ==> {
                &&& r is Ok
                &&& manager_updated_at(
                    old(self).manager.containers(),
                    final(self).manager.containers(),
                    s as int,
                )
                &&& final(self).blob_at(s, name@) is None
                &&& (forall|k: Seq<char>|
                    k != name@ ==> #[trigger] final(self).blob_at(s, k) == old(self).blob_at(s, k))
            },
    {
        let slot = match self.slot_of(container) {
            Ok(s) => s,
            Err(e) => {
                return Err(e);
            },
        };
        proof {
            assert(self.manager.containers()[slot as int].1.well_formed());
        }
        let ghost pre = self.manager.containers();
        let c = self.manager.container_at_mut(slot);
        c.delete_object(name);
        proof {
            lemma_store_wf_update(pre, slot as int, self.manager.containers()[slot as int].1);
            assert forall|k: u32| #[trigger] self.containers.contents().contains_key(k)
                implies self.containers.contents()[k] < self.manager.containers().len() by {}
            assert forall|k: u32| #[trigger] self.outgoing_values.contents().contains_key(k)
                implies self.outgoing_values.contents()[k].well_formed() && (
            match self.outgoing_values.contents()[k].spec_target() {
                Some(t) => t.0 < self.manager.containers().len(),
                None => true,
            }) by {}
        }
        Ok(())
    }

    /// Deletes every object of the given names from the container a
    /// handle resolves to; absent names are ignored.
    pub fn delete_objects(&mut self, container: u32, names: &Vec<String>) -> (r: Result<(), Error>)
        requires
            old(self).well_formed(),
        ensures
            final(self).well_formed(),
            final(self).containers == old(self).containers,
            final(self).incoming_values == old(self).incoming_values,
            final(self).outgoing_values == old(self).outgoing_values,
            final(self).object_names == old(self).object_names,
            final(self).allowed_containers == old(self).allowed_containers,
            old(self).container_slot(container) is None ==> r == Result::<(), Error>::Err(
                Error::InvalidHandle,
            ) && *final(self) == *old(self),
            old(self).container_slot(container) matches Some(s) ==> {
                &&& r is Ok
                &&& manager_updated_at(
                    old(self).manager.containers(),
                    final(self).manager.containers(),
                    s as int,
                )
                &&& (forall|k: Seq<char>|
                    name_in_list(names@, k) ==> #[trigger] final(self).blob_at(s, k) is None)
                &&& (forall|k: Seq<char>|
                    !name_in_list(names@, k) ==> #[trigger] final(self).blob_at(s, k) == old(self).blob_at(s, k))
            },
    {
        let slot = match self.slot_of(container) {
            Ok(s) => s,
            Err(e) => {
                return Err(e);
            },
        };
        proof {
            assert(self.manager.containers()[slot as int].1.well_formed());
        }
        let ghost pre = self.manager.containers();
        let c = self.manager.container_at_mut(slot);
        c.delete_objects(names);
        proof {
            lemma_store_wf_update(pre, slot as int, self.manager.containers()[slot as int].1);
            assert forall|k: u32| #[trigger] self.containers.contents().contains_key(k)
                implies self.containers.contents()[k] < self.manager.containers().len() by {}
            assert forall|k: u32| #[trigger] self.outgoing_values.contents().contains_key(k)
                implies self.outgoing_values.contents()[k].well_formed() && (
            match self.outgoing_values.contents()[k].spec_target() {
                Some(t) => t.0 < self.manager.containers().len(),
                None => true,
            }) by {}
        }
        Ok(())
    }

    /// Removes every object from the container a handle resolves to.
    pub fn clear(&mut self, container: u32) -> (r: Result<(), Error>)
        requires
            old(self).well_formed(),
        ensures
            final(self).well_formed(),
            final(self).containers == old(self).containers,
            final(self).incoming_values == old(self).incoming_values,
            final(self).outgoing_values == old(self).outgoing_values,
            final(self).object_names == old(self).object_names,
            final(self).allowed_containers == old(self).allowed_containers,
            old(self).container_slot(container) is None ==> r == Result::<(), Error>::Err(
                Error::InvalidHandle,
            ) && *final(self) == *old(self),
            old(self).container_slot(container) matches Some(s) ==> {
                &&& r is Ok
                &&& manager_updated_at(
                    old(self).manager.containers(),
                    final(self).manager.containers(),
                    s as int,
                )
                &&& (forall|k: Seq<char>| #[trigger] final(self).blob_at(s, k) is None)
            },
    {
        let slot = match self.slot_of(container) {
            Ok(s) => s,
            Err(e) => {
                return Err(e);
            },
        };
        proof {
            assert(self.manager.containers()[slot as int].1.well_formed());
        }
        let ghost pre = self.manager.containers();
        let c = self.manager.container_at_mut(slot);
        c.clear();
        proof {
            lemma_store_wf_update(pre, slot as int, self.manager.containers()[slot as int].1);
            assert forall|k: u32| #[trigger] self.containers.contents().contains_key(k)
                implies self.containers.contents()[k] < self.manager.containers().len() by {}
            assert forall|k: u32| #[trigger] self.outgoing_values.contents().contains_key(k)
                implies self.outgoing_values.contents()[k].well_formed() && (
            match self.outgoing_values.contents()[k].spec_target() {
                Some(t) => t.0 < self.manager.containers().len(),
                None => true,
            }) by {}
        }
        Ok(())
    }

    /// Starts streaming the names of the objects in the container a
    /// handle resolves to, under a fresh stream handle.
    pub fn list_objects(&mut self, container: u32) -> (r: Result<u32, Error>)
        requires
            old(self).well_formed(),
        ensures
            final(self).well_formed(),
            final(self).manager == old(self).manager,
            final(self).containers == old(self).containers,
            final(self).incoming_values == old(self).incoming_values,
            final(self).outgoing_values == old(self).outgoing_values,
            final(self).allowed_containers == old(self).allowed_containers,
            old(self).container_slot(container) is None ==> r == Result::<u32, Error>::Err(
                Error::InvalidHandle,
            ) && *final(self) == *old(self),
            old(self).container_slot(container) matches Some(s) ==> {
                &&& (r is Ok <==> old(self).object_names.used() < old(self).object_names.spec_capacity())
                &&& (r matches Err(e) ==> e == Error::ResourceExhausted && final(self).object_names.contents() == old(self).object_names.contents())
                &&& (r matches Ok(h) ==> !old(self).object_names.contents().contains_key(h)
                    && final(self).object_names.contents() =~= old(self).object_names.contents().insert(h, final(self).object_names.contents()[h])
                    && final(self).object_names.contents()[h].remaining().len() == old(self).manager.containers()[s as int].1.entries().len() && (forall|i: int|
                    0 <= i < final(self).object_names.contents()[h].remaining().len()
                        ==> #[trigger] final(self).object_names.contents()[h].remaining()[i]
                        == old(self).manager.containers()[s as int].1.entries()[i].0))
            },
    {
        let slot = match self.slot_of(container) {
            Ok(s) => s,
            Err(e) => {
                return Err(e);
            },
        };
        let names = self.manager.container_at(slot).list_object_names();
        let stream = InMemoryBlobNames::new(names);
        match self.object_names.push(stream) {
            Ok(h) => Ok(h),
            Err(e) => Err(e),
        }
    }

    /// Hands out up to `len` names from a name stream, and whether
    /// the stream is exhausted afterwards.
    pub fn read_stream_object_names(&mut self, stream: u32, len: u64) -> (r: Result<
        (Vec<String>, bool),
        Error,
    >)
        requires
            old(self).well_formed(),
        ensures
            final(self).well_formed(),
            final(self).manager == old(self).manager,
            final(self).containers == old(self).containers,
            final(self).incoming_values == old(self).incoming_values,
            final(self).outgoing_values == old(self).outgoing_values,
            final(self).allowed_containers == old(self).allowed_containers,
            !old(self).object_names.contents().contains_key(stream) ==> r == Result::<
                (Vec<String>, bool),
                Error,
            >::Err(Error::InvalidHandle) && *final(self) == *old(self),
            old(self).object_names.contents().contains_key(stream) ==> (r matches Ok(p) && {
                let before = old(self).object_names.contents()[stream].remaining();
                let after = final(self).object_names.contents()[stream].remaining();
                &&& p.0@.len() == vstd::math::min(len as int, before.len() as int)
                &&& p.0@ == before.take(p.0@.len() as int)
                &&& after == before.skip(p.0@.len() as int)
                &&& (p.1 <==> after.len() == 0)
                &&& final(self).object_names.contents() =~= old(self).object_names.contents().insert(
                    stream,
                    final(self).object_names.contents()[stream],
                )
            }),
    {
        if !self.object_names.has(stream) {
            return Err(Error::InvalidHandle);
        }
        let st = self.object_names.borrow_mut(stream);
        Ok(st.read_names(len))
    }

    /// Skips up to `num` names of a name stream, returning how many
    /// were skipped and whether the stream is exhausted afterwards.
    pub fn skip_stream_object_names(&mut self, stream: u32, num: u64) -> (r: Result<
        (u64, bool),
        Error,
    >)
        requires
            old(self).well_formed(),
        ensures
            final(self).well_formed(),
            final(self).manager == old(self).manager,
            final(self).containers == old(self).containers,
            final(self).incoming_values == old(self).incoming_values,
            final(self).outgoing_values == old(self).outgoing_values,
            final(self).allowed_containers == old(self).allowed_containers,
            !old(self).object_names.contents().contains_key(stream) ==> r == Result::<
                (u64, bool),
                Error,
            >::Err(Error::InvalidHandle) && *final(self) == *old(self),
            old(self).object_names.contents().contains_key(stream) ==> (r matches Ok(p) && {
                let before = old(self).object_names.contents()[stream].remaining();
                let after = final(self).object_names.contents()[stream].remaining();
                &&& p.0 == vstd::math::min(num as int, before.len() as int)
                &&& after == before.skip(p.0 as int)
                &&& (p.1 <==> after.len() == 0)
                &&& final(self).object_names.contents() =~= old(self).object_names.contents().insert(
                    stream,
                    final(self).object_names.contents()[stream],
                )
            }),
    {
        if !self.object_names.has(stream) {
            return Err(Error::InvalidHandle);
        }
        let st = self.object_names.borrow_mut(stream);
        Ok(st.skip_names(num))
    }

    /// Releases a container handle; the backend container itself
    /// lives on.
    pub fn drop_container(&mut self, container: u32)
        requires
            old(self).well_formed(),
        ensures
            final(self).well_formed(),
            final(self).manager == old(self).manager,
            final(self).incoming_values == old(self).incoming_values,
            final(self).outgoing_values == old(self).outgoing_values,
            final(self).object_names == old(self).object_names,
            final(self).allowed_containers == old(self).allowed_containers,
            final(self).containers.contents() =~= old(self).containers.contents().remove(
                container,
            ),
    {
        let taken = self.containers.remove(container);
        proof {
            if taken is None {
                assert(final(self).containers.contents() =~= old(self).containers.contents().remove(container));
            }
        }
    }

    /// Releases a download handle.
    pub fn drop_incoming_value(&mut self, handle: u32)
        requires
            old(self).well_formed(),
        ensures
            final(self).well_formed(),
            final(self).manager == old(self).manager,
            final(self).containers == old(self).containers,
            final(self).outgoing_values == old(self).outgoing_values,
            final(self).object_names == old(self).object_names,
            final(self).allowed_containers == old(self).allowed_containers,
            final(self).incoming_values.contents() =~= old(self).incoming_values.contents().remove(
                handle,
            ),
    {
        let taken = self.incoming_values.remove(handle);
        proof {
            if taken is None {
                assert(final(self).incoming_values.contents() =~= old(self).incoming_values.contents().remove(handle));
            }
        }
    }

    /// Releases an upload handle.  An unfinished upload is abandoned:
    /// nothing of it ever becomes visible.
    pub fn drop_outgoing_value(&mut self, handle: u32)
        requires
            old(self).well_formed(),
        ensures
            final(self).well_formed(),
            final(self).manager == old(self).manager,
            final(self).containers == old(self).containers,
            final(self).incoming_values == old(self).incoming_values,
            final(self).object_names == old(self).object_names,
            final(self).allowed_containers == old(self).allowed_containers,
            final(self).outgoing_values.contents() =~= old(self).outgoing_values.contents().remove(
                handle,
            ),
    {
        let taken = self.outgoing_values.remove(handle);
        proof {
            if taken is None {
                assert(final(self).outgoing_values.contents() =~= old(self).outgoing_values.contents().remove(handle));
            }
        }
    }

    /// Releases a name-stream handle.
    pub fn drop_object_names(&mut self, stream: u32)
        requires
            old(self).well_formed(),
        ensures
            final(self).well_formed(),
            final(self).manager == old(self).manager,
            final(self).containers == old(self).containers,
            final(self).incoming_values == old(self).incoming_values,
            final(self).outgoing_values == old(self).outgoing_values,
            final(self).allowed_containers == old(self).allowed_containers,
            final(self).object_names.contents() =~= old(self).object_names.contents().remove(
                stream,
            ),
    {
        let taken = self.object_names.remove(stream);
        proof {
            if taken is None {
                assert(final(self).object_names.contents() =~= old(self).object_names.contents().remove(stream));
            }
        }
    }

    /// Container creation is not offered through this interface.
    pub fn create_container(&mut self, name: String) -> (r: Result<u32, Error>)
        ensures
            *final(self) == *old(self),
            r matches Err(e) && e matches Error::BackendFailure(m) && m@
                == "creating containers is not supported"@,
    {
        let _ = name;
        Err(Error::BackendFailure("creating containers is not supported".to_owned()))
    }

    /// Container deletion is not offered through this interface.
    pub fn delete_container(&mut self, name: String) -> (r: Result<(), Error>)
        ensures
            *final(self) == *old(self),
            r matches Err(e) && e matches Error::BackendFailure(m) && m@
                == "deleting containers is not supported"@,
    {
        let _ = name;
        Err(Error::BackendFailure("deleting containers is not supported".to_owned()))
    }

    /// Object copying is not offered through this interface.
    pub fn copy_object(&mut self, src: String, dest: String) -> (r: Result<(), Error>)
        ensures
            *final(self) == *old(self),
            r matches Err(e) && e matches Error::BackendFailure(m) && m@
                == "copying objects is not supported"@,
    {
        let _ = src;
        let _ = dest;
        Err(Error::BackendFailure("copying objects is not supported".to_owned()))
    }

    /// Object moving is not offered through this interface.
    pub fn move_object(&mut self, src: String, dest: String) -> (r: Result<(), Error>)
        ensures
            *final(self) == *old(self),
            r matches Err(e) && e matches Error::BackendFailure(m) && m@
                == "moving objects is not supported"@,
    {
        let _ = src;
        let _ = dest;
        Err(Error::BackendFailure("moving objects is not supported".to_owned()))
    }
}

} // verus!
