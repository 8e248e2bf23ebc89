//! The delegating backend manager and the per-resource-kind factors.
//!
//! A delegating manager maps a logical resource label to the backend
//! configured for it; whether a label is defined is a pure lookup
//! against the static map, independent of any construction.

use vstd::prelude::*;

use crate::assoc::{
    assoc_find, assoc_lookup, last_binding, lemma_assoc_lookup_index, lemma_assoc_lookup_none,
    lemma_assoc_lookup_push, lemma_assoc_lookup_update, unique_keys,
};
use crate::errors::Error;

verus! {

/// What every backend of a delegating manager offers besides the
/// resource operations: a human-readable configuration summary.
/// Backend implementations outside this crate implement it.
pub trait StoreBackend {
    /// A human-readable summary of this backend's configuration, if
    /// it offers one.
    fn summary_text(&self) -> Option<String>;
}

/// A manager which delegates to the backend configured for each
/// store label.
pub struct DelegatingStoreManager<B> {
    delegates: Vec<(String, B)>,
}

impl<B> DelegatingStoreManager<B> {
    /// Labels are pairwise distinct.
    pub closed spec fn well_formed(self) -> bool {
        unique_keys(self.delegates@)
    }

    /// The label-to-backend bindings.
    pub closed spec fn delegates(self) -> Seq<(String, B)> {
        self.delegates@
    }

    /// The backend bound to `label`, if any.
    pub open spec fn delegate_for(self, label: Seq<char>) -> Option<B> {
        assoc_lookup(self.delegates(), label)
    }

    /// Creates a manager over the given label-to-backend bindings;
    /// a later binding of a label overwrites an earlier one.
    pub fn new(delegates: Vec<(String, B)>) -> (m: DelegatingStoreManager<B>)
        ensures
            m.well_formed(),
            forall|l: Seq<char>| #[trigger] m.delegate_for(l) == last_binding(delegates@, l),
    {
        let ghost all = delegates@;
        let mut rest = delegates;
        let total = rest.len();
        proof {
            assert(all.len() == total);
        }
        let mut out: Vec<(String, B)> = Vec::new();
        let mut i: usize = 0;
        proof {
            assert(all.take(0) =~= Seq::<(String, B)>::empty());
            assert forall|l: Seq<char>| #[trigger] assoc_lookup(out@, l) == last_binding(
                all.take(0),
                l,
            ) by {
                assert(assoc_lookup(out@, l) is None);
            }
        }
        while rest.len() > 0
            invariant
                all.len() <= usize::MAX,
                i + rest@.len() == all.len(),
                rest@ == all.skip(i as int),
                unique_keys(out@),
                forall|l: Seq<char>| #[trigger] assoc_lookup(out@, l) == last_binding(
                    all.take(i as int),
                    l,
                ),
            decreases rest@.len(),
        {
            let ghost pre_out = out@;
            let p = rest.remove(0);
            proof {
                assert(p == all[i as int]);
                assert(rest@ =~= all.skip(i + 1));
                assert(all.take(i + 1).drop_last() =~= all.take(i as int));
                assert(all.take(i + 1).last() == all[i as int]);
            }
            let found = assoc_find(&out, &p.0);
            match found {
                Some(idx) => {
                    proof {
                        lemma_assoc_lookup_index(out@, p.0@, idx as int);
                        lemma_assoc_lookup_update(out@, idx as int, p);
                    }
                    out.set(idx, p);
                },
                None => {
                    proof {
                        lemma_assoc_lookup_push(out@, p);
                    }
                    out.push(p);
                },
            }
            i += 1;
            proof {
                assert forall|l: Seq<char>| #[trigger] assoc_lookup(out@, l) == last_binding(
                    all.take(i as int),
                    l,
                ) by {
                    if l == all[i - 1].0@ {
                    } else {
                        assert(assoc_lookup(out@, l) == assoc_lookup(pre_out, l));
                    }
                }
            }
        }
        proof {
            assert(all.take(i as int) =~= all);
        }
        DelegatingStoreManager { delegates: out }
    }

    /// The backend for `label`; fails with `NoSuchResource` exactly
    /// when the label is not configured.
    pub fn get(&self, label: &String) -> (r: Result<&B, Error>)
        ensures
            self.delegate_for(label@) matches Some(b) ==> (r matches Ok(d) && *d == b),
            self.delegate_for(label@) is None ==> r == Result::<&B, Error>::Err(
                Error::NoSuchResource,
            ),
    {
        let found = assoc_find(&self.delegates, label);
        proof {
            match found {
                Some(i) => lemma_assoc_lookup_index(self.delegates@, label@, i as int),
                None => lemma_assoc_lookup_none(self.delegates@, label@),
            }
        }
        match found {
            Some(i) => Ok(&self.delegates[i].1),
            None => Err(Error::NoSuchResource),
        }
    }

    /// Whether `label` is configured: a pure lookup against the
    /// static map, independent of backend construction.
    pub fn is_defined(&self, label: &String) -> (r: bool)
        ensures
            r == self.delegate_for(label@) is Some,
    {
        let found = assoc_find(&self.delegates, label);
        proof {
            match found {
                Some(i) => lemma_assoc_lookup_index(self.delegates@, label@, i as int),
                None => lemma_assoc_lookup_none(self.delegates@, label@),
            }
        }
        found.is_some()
    }
}

impl<B: StoreBackend> DelegatingStoreManager<B> {
    /// The configuration summary of the backend for `label`; nothing
    /// for an unconfigured label, and whatever the backend offers
    /// otherwise.
    pub fn summary(&self, label: &String) -> (r: Option<String>)
        ensures
            self.delegate_for(label@) is None ==> r is None,
    {
        match self.get(label) {
            Ok(b) => b.summary_text(),
            Err(_) => None,
        }
    }
}

/// The per-application state of a storage factor: the delegating
/// manager, and the labels each component is allowed to use.
pub struct AppState<B> {
    store_manager: DelegatingStoreManager<B>,
    component_allowed_stores: Vec<(String, Vec<String>)>,
}

/// Whether every label some component is allowed to use is defined
/// in the manager's static map.
pub open spec fn all_labels_defined<B>(
    m: DelegatingStoreManager<B>,
    entries: Seq<(String, Vec<String>)>,
) -> bool {
    forall|i: int, j: int|
        0 <= i < entries.len() && 0 <= j < entries[i].1@.len() ==> (#[trigger] m.delegate_for(
            entries[i].1@[j]@,
        )) is Some
}

impl<B> AppState<B> {
    /// The application's delegating manager.
    pub closed spec fn manager(self) -> DelegatingStoreManager<B> {
        self.store_manager
    }

    /// The component-to-allowed-labels bindings.
    pub closed spec fn allowed_stores(self) -> Seq<(String, Vec<String>)> {
        self.component_allowed_stores@
    }

    /// Whether any component is allowed to use `label`.
    pub open spec fn spec_store_is_used(self, label: Seq<char>) -> bool {
        exists|i: int|
            0 <= i < self.allowed_stores().len() && crate::memory_store::name_in_list(
                (#[trigger] self.allowed_stores()[i]).1@,
                label,
            )
    }

    /// Creates the per-application state from bindings taken as
    /// given; [`AppState::configure`] additionally validates them.
    pub fn new(
        store_manager: DelegatingStoreManager<B>,
        component_allowed_stores: Vec<(String, Vec<String>)>,
    ) -> (s: AppState<B>)
        ensures
            s.manager() == store_manager,
            s.allowed_stores() == component_allowed_stores@,
    {
        AppState { store_manager, component_allowed_stores }
    }

    /// Creates the per-application state at configuration time,
    /// checking that every label a component is allowed to use is
    /// defined in the manager's static map.
    ///
    /// Succeeds exactly when every such label is defined; an unknown
    /// label fails with `NoSuchResource` before any instance exists.
    pub fn configure(
        store_manager: DelegatingStoreManager<B>,
        component_allowed_stores: Vec<(String, Vec<String>)>,
    ) -> (r: Result<AppState<B>, Error>)
        ensures
            r is Ok <==> all_labels_defined(store_manager, component_allowed_stores@),
            r matches Ok(s) ==> s.manager() == store_manager && s.allowed_stores()
                == component_allowed_stores@,
            r matches Err(e) ==> e == Error::NoSuchResource,
    {
        let n = component_allowed_stores.len();
        let mut i: usize = 0;
        while i < n
            invariant
                n == component_allowed_stores@.len(),
                i <= n,
                forall|a: int, b: int|
                    0 <= a < i && 0 <= b < component_allowed_stores@[a].1@.len()
                        ==> (#[trigger] store_manager.delegate_for(
                        component_allowed_stores@[a].1@[b]@,
                    )) is Some,
            decreases n - i,
        {
            let labels = &component_allowed_stores[i].1;
            let m = labels.len();
            let mut j: usize = 0;
            while j < m
                invariant
                    n == component_allowed_stores@.len(),
                    i < n,
                    m == component_allowed_stores@[i as int].1@.len(),
                    labels == &component_allowed_stores[i as int].1,
                    j <= m,
                    forall|b: int|
                        0 <= b < j ==> (#[trigger] store_manager.delegate_for(
                            component_allowed_stores@[i as int].1@[b]@,
                        )) is Some,
                decreases m - j,
            {
                if !store_manager.is_defined(&labels[j]) {
                    proof {
                        assert(store_manager.delegate_for(
                            component_allowed_stores@[i as int].1@[j as int]@,
                        ) is None);
                        assert(!all_labels_defined(store_manager, component_allowed_stores@));
                    }
                    return Err(Error::NoSuchResource);
                }
                j += 1;
            }
            i += 1;
        }
        Ok(AppState { store_manager, component_allowed_stores })
    }

    /// Whether the given store label is used by any component.
    pub fn store_is_used(&self, label: &String) -> (r: bool)
        ensures
            r == self.spec_store_is_used(label@),
    {
        let n = self.component_allowed_stores.len();
        let mut i: usize = 0;
        while i < n
            invariant
                n == self.component_allowed_stores@.len(),
                i <= n,
                forall|j: int|
                    0 <= j < i ==> !crate::memory_store::name_in_list(
                        (#[trigger] self.component_allowed_stores@[j]).1@,
                        label@,
                    ),
            decreases n - i,
        {
            if crate::dispatch::string_list_contains(&self.component_allowed_stores[i].1, label) {
                proof {
                    assert(crate::memory_store::name_in_list(
                        self.allowed_stores()[i as int].1@,
                        label@,
                    ));
                }
                return true;
            }
            i += 1;
        }
        proof {
            assert(!self.spec_store_is_used(label@)) by {
                if self.spec_store_is_used(label@) {
                    let j = choose|j: int|
                        0 <= j < self.allowed_stores().len()
                            && crate::memory_store::name_in_list(
                            (#[trigger] self.allowed_stores()[j]).1@,
                            label@,
                        );
                    assert(false);
                }
            }
        }
        false
    }
}

impl<B: StoreBackend> AppState<B> {
    /// The configuration summary for the given store label; nothing
    /// for an unconfigured label.
    pub fn store_summary(&self, label: &String) -> (r: Option<String>)
        ensures
            self.manager().delegate_for(label@) is None ==> r is None,
    {
        self.store_manager.summary(label)
    }
}

/// A factor that provides key-value storage to guest components.
pub struct KeyValueFactor {
    _priv: (),
}

impl KeyValueFactor {
    /// Creates the key-value factor.
    pub fn new() -> (f: KeyValueFactor) {
        KeyValueFactor { _priv: () }
    }
}

/// A factor that provides blob storage to guest components.
pub struct BlobStoreFactor {
    _priv: (),
}

impl BlobStoreFactor {
    /// Creates the blob-store factor.
    pub fn new() -> (f: BlobStoreFactor) {
        BlobStoreFactor { _priv: () }
    }
}

/// The host-side data the key-value factor hangs on a linked guest
/// instance.
pub struct KvFactorData(pub KeyValueFactor);

/// Errors of compare-and-swap operations.
#[derive(Debug, PartialEq, Eq)]
pub enum SwapError {
    /// The value changed between `current` and `swap`.
    CasFailed(String),
    /// Any other failure, with diagnostic text.
    Other(String),
}

/// The interface a key-value compare-and-swap implementor must
/// fulfill.  `current` reads the present value while arranging that a
/// later `swap` detects interleaved mutation; `swap` replaces the
/// value atomically, inserting when the key is absent.  Backend
/// implementations outside this crate implement it.
pub trait Cas {
    /// The current value of the key under CAS, if any.
    fn current(&mut self) -> Result<Option<Vec<u8>>, Error>;

    /// Replaces the value read by `current`, failing with
    /// `SwapError::CasFailed` when it changed in between.
    fn swap(&mut self, value: Vec<u8>) -> Result<(), SwapError>;

    /// The handle of the store this CAS operates in.
    fn bucket_rep(&self) -> u32;

    /// The key this CAS operates on.
    fn key(&self) -> String;
}

/// A stream of object names that a backend hands out page by page.
/// Backend implementations outside this crate implement it.
pub trait ObjectNames {
    /// Hands out up to `len` names, and whether the stream is
    /// exhausted afterwards.
    fn read(&mut self, len: u64) -> Result<(Vec<String>, bool), Error>;

    /// Skips up to `num` names, returning how many were skipped and
    /// whether the stream is exhausted afterwards.
    fn skip(&mut self, num: u64) -> Result<(u64, bool), Error>;
}

impl ObjectNames for crate::memory_store::InMemoryBlobNames {
    fn read(&mut self, len: u64) -> Result<(Vec<String>, bool), Error> {
        Ok(self.read_names(len))
    }

    fn skip(&mut self, num: u64) -> Result<(u64, bool), Error> {
        Ok(self.skip_names(num))
    }
}

/// Something an upload hands back that must be finished explicitly:
/// finishing waits for the background commit work.
pub trait Finishable {
    /// Signals the background work to stop and waits for completion.
    fn finish(&mut self);
}

} // verus!
