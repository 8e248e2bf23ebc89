//! A capacity-bounded arena that maps opaque integer handles to
//! host-owned objects.
//!
//! One table instance exists per guest component instance and per
//! resource kind; tables are never shared between instances.  A handle
//! is valid from the successful insertion that produced it until it is
//! explicitly removed.  A removed slot may be reused by a later
//! insertion, but within one generation the table guarantees that a
//! live handle always resolves to the object it was issued for.

use vstd::prelude::*;

use crate::errors::Error;

verus! {

/// The number of occupied slots in a slot sequence.
pub open spec fn occupied_slots<T>(s: Seq<Option<T>>) -> nat
    decreases s.len(),
{
    if s.len() == 0 {
        0
    } else {
        occupied_slots(s.drop_last()) + if s.last() is Some {
            1nat
        } else {
            0nat
        }
    }
}

/// There are never more occupied slots than slots.
pub proof fn lemma_occupied_le_len<T>(s: Seq<Option<T>>)
    ensures
        occupied_slots(s) <= s.len(),
    decreases s.len(),
{
    if s.len() > 0 {
        lemma_occupied_le_len(s.drop_last());
    }
}

/// If every slot is occupied, the occupied count equals the length.
pub proof fn lemma_occupied_all_some<T>(s: Seq<Option<T>>)
    requires
        forall|i: int| 0 <= i < s.len() ==> s[i] is Some,
    ensures
        occupied_slots(s) == s.len(),
    decreases s.len(),
{
    if s.len() > 0 {
        lemma_occupied_all_some(s.drop_last());
    }
}

/// Replacing one slot changes the occupied count only by the change in
/// that slot's occupancy.
proof fn lemma_occupied_update<T>(s: Seq<Option<T>>, i: int, v: Option<T>)
    requires
        0 <= i < s.len(),
    ensures
        occupied_slots(s.update(i, v)) == occupied_slots(s) + (if v is Some {
            1int
        } else {
            0int
        }) - (if s[i] is Some {
            1int
        } else {
            0int
        }),
    decreases s.len(),
{
    let t = s.update(i, v);
    if i == s.len() - 1 {
        assert(t.drop_last() =~= s.drop_last());
    } else {
        assert(t.drop_last() =~= s.drop_last().update(i, v));
        lemma_occupied_update(s.drop_last(), i, v);
    }
}

/// Appending a slot adds its occupancy to the occupied count.
proof fn lemma_occupied_push<T>(s: Seq<Option<T>>, v: Option<T>)
    ensures
        occupied_slots(s.push(v)) == occupied_slots(s) + (if v is Some {
            1int
        } else {
            0int
        }),
{
    assert(s.push(v).drop_last() =~= s);
}

/// A capacity-bounded arena mapping opaque `u32` handles to owned
/// objects of type `T`.
pub struct Table<T> {
    entries: Vec<Option<T>>,
    capacity: u32,
}

impl<T> Table<T> {
    /// The table never holds more slots than its capacity.
    pub closed spec fn well_formed(self) -> bool {
        self.entries@.len() <= self.capacity as int
    }

    /// The capacity this table was created with.
    pub closed spec fn spec_capacity(self) -> u32 {
        self.capacity
    }

    /// The live handle-to-object map.
    pub closed spec fn contents(self) -> Map<u32, T> {
        Map::new(
            |h: u32| h < self.entries@.len() && self.entries@[h as int] is Some,
            |h: u32| self.entries@[h as int]->0,
        )
    }

    /// How many handles are currently live.
    pub closed spec fn used(self) -> nat {
        occupied_slots(self.entries@)
    }

    /// Creates an empty table that can hold at most `capacity` objects.
    pub fn new(capacity: u32) -> (t: Table<T>)
        ensures
            t.well_formed(),
            t.spec_capacity() == capacity,
            t.contents() =~= Map::<u32, T>::empty(),
            t.used() == 0,
    {
        Table { entries: Vec::new(), capacity }
    }

    /// The capacity this table was created with.
    pub fn capacity(&self) -> (c: u32)
        ensures
            c == self.spec_capacity(),
    {
        self.capacity
    }

    /// Stores `value` and returns a fresh handle for it.
    ///
    /// Fails with `ResourceExhausted` exactly when the table already
    /// holds `capacity` objects; the table is then unchanged.  On
    /// success the returned handle did not resolve before the call,
    /// and afterwards resolves to `value`.
    pub fn push(&mut self, value: T) -> (r: Result<u32, Error>)
        requires
            old(self).well_formed(),
        ensures
            final(self).well_formed(),
            final(self).spec_capacity() == old(self).spec_capacity(),
            r is Ok <==> old(self).used() < old(self).spec_capacity(),
            r matches Err(e) ==> e == Error::ResourceExhausted && final(self).contents()
                == old(self).contents() && final(self).used() == old(self).used(),
            r matches Ok(h) ==> !old(self).contents().contains_key(h) && final(self).contents()
                =~= old(self).contents().insert(h, value) && final(self).used() == old(self).used()
                + 1,
    {
        let n = self.entries.len();
        let mut i: usize = 0;
        while i < n
            invariant
                self.entries@ == old(self).entries@,
                self.capacity == old(self).capacity,
                n == self.entries@.len(),
                n <= self.capacity as int,
                i <= n,
                forall|j: int| 0 <= j < i ==> self.entries@[j] is Some,
            decreases n - i,
        {
            if self.entries[i].is_none() {
                proof {
                    lemma_occupied_update(self.entries@, i as int, Some(value));
                    lemma_occupied_le_len(self.entries@.update(i as int, Some(value)));
                }
                self.entries.set(i, Some(value));
                return Ok(i as u32);
            }
            i += 1;
        }
        proof {
            lemma_occupied_all_some(self.entries@);
        }
        if n < self.capacity as usize {
            proof {
                lemma_occupied_push(self.entries@, Some(value));
            }
            self.entries.push(Some(value));
            Ok(n as u32)
        } else {
            Err(Error::ResourceExhausted)
        }
    }

    /// Whether `handle` currently resolves in this table.
    pub fn has(&self, handle: u32) -> (r: bool)
        ensures
            r == self.contents().contains_key(handle),
    {
        let i = handle as usize;
        i < self.entries.len() && self.entries[i].is_some()
    }

    /// Borrows the object that `handle` resolves to.
    ///
    /// Returns `None` exactly when the handle is unknown or already
    /// removed.
    pub fn get(&self, handle: u32) -> (r: Option<&T>)
        ensures
            r is Some <==> self.contents().contains_key(handle),
            r matches Some(v) ==> *v == self.contents()[handle],
    {
        let i = handle as usize;
        if i < self.entries.len() {
            self.entries[i].as_ref()
        } else {
            None
        }
    }

    /// Exclusively borrows the object that `handle` resolves to.
    ///
    /// The caller must have checked the handle with [`Table::has`];
    /// afterwards the handle resolves to whatever the caller left in
    /// the borrow, and every other handle is untouched.
    pub fn borrow_mut(&mut self, handle: u32) -> (r: &mut T)
        requires
            old(self).well_formed(),
            old(self).contents().contains_key(handle),
        ensures
            *r == old(self).contents()[handle],
            final(self).well_formed(),
            final(self).spec_capacity() == old(self).spec_capacity(),
            final(self).contents() =~= old(self).contents().insert(handle, *final(r)),
    {
        let i = handle as usize;
        let slot = &mut self.entries[i];
        match slot {
            Some(v) => v,
            None => unreached(),
        }
    }

    /// Removes the object that `handle` resolves to and transfers it to
    /// the caller.
    ///
    /// Returns `None` exactly when the handle is unknown or already
    /// removed; the handle never resolves again until its slot is
    /// reissued by a later insertion.
    pub fn remove(&mut self, handle: u32) -> (r: Option<T>)
        requires
            old(self).well_formed(),
        ensures
            final(self).well_formed(),
            final(self).spec_capacity() == old(self).spec_capacity(),
            r is Some <==> old(self).contents().contains_key(handle),
            r matches Some(v) ==> v == old(self).contents()[handle] && final(self).contents()
                =~= old(self).contents().remove(handle) && final(self).used() == old(self).used()
                - 1,
            r is None ==> *final(self) == *old(self),
    {
        let i = handle as usize;
        if i < self.entries.len() {
            if self.entries[i].is_some() {
                proof {
                    lemma_occupied_update(self.entries@, i as int, None);
                }
                let slot = &mut self.entries[i];
                slot.take()
            } else {
                None
            }
        } else {
            None
        }
    }
}

/// Handles issued by consecutive insertions are distinct: the second
/// insertion's handle was not live when it was issued, while the first
/// one's still was.
pub proof fn lemma_successive_handles_distinct<T>(
    t0: Table<T>,
    h1: u32,
    v1: T,
    t1: Table<T>,
    h2: u32,
    v2: T,
    t2: Table<T>,
)
    requires
        !t0.contents().contains_key(h1),
        t1.contents() == t0.contents().insert(h1, v1),
        !t1.contents().contains_key(h2),
        t2.contents() == t1.contents().insert(h2, v2),
    ensures
        h1 != h2,
        t2.contents().contains_key(h1),
        t2.contents().contains_key(h2),
{
    assert(t1.contents().contains_key(h1));
}

} // verus!
