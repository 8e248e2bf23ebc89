//! String-keyed association sequences.
//!
//! Several components keep small label-to-object maps (blob containers
//! by name, backends by label, variables by name).  They are stored as
//! vectors of pairs with pairwise-distinct keys; this module holds the
//! shared lookup specification, the lemmas about it, and the verified
//! search helper.

use vstd::prelude::*;

verus! {

/// The value bound to `key`, going front to back.
pub open spec fn assoc_lookup<V>(s: Seq<(String, V)>, key: Seq<char>) -> Option<V>
    decreases s.len(),
{
    if s.len() == 0 {
        None
    } else if s[0].0@ == key {
        Some(s[0].1)
    } else {
        assoc_lookup(s.drop_first(), key)
    }
}

/// The value `key` collects to when later pairs overwrite earlier
/// ones: the last pair naming the key wins.
pub open spec fn last_binding<V>(s: Seq<(String, V)>, key: Seq<char>) -> Option<V>
    decreases s.len(),
{
    if s.len() == 0 {
        None
    } else if s.last().0@ == key {
        Some(s.last().1)
    } else {
        last_binding(s.drop_last(), key)
    }
}

/// Whether the keys of `s` are pairwise distinct.
pub open spec fn unique_keys<V>(s: Seq<(String, V)>) -> bool {
    forall|i: int, j: int| 0 <= i < j < s.len() ==> s[i].0@ != s[j].0@
}

/// A key that first matches at index `i` looks up to the value at `i`.
pub proof fn lemma_assoc_lookup_index<V>(s: Seq<(String, V)>, key: Seq<char>, i: int)
    requires
        0 <= i < s.len(),
        s[i].0@ == key,
        forall|j: int| 0 <= j < i ==> s[j].0@ != key,
    ensures
        assoc_lookup(s, key) == Some(s[i].1),
    decreases i,
{
    if i > 0 {
        lemma_assoc_lookup_index(s.drop_first(), key, i - 1);
    }
}

/// A key that matches no entry looks up to nothing.
pub proof fn lemma_assoc_lookup_none<V>(s: Seq<(String, V)>, key: Seq<char>)
    requires
        forall|j: int| 0 <= j < s.len() ==> s[j].0@ != key,
    ensures
        assoc_lookup(s, key) is None,
    decreases s.len(),
{
    if s.len() > 0 {
        lemma_assoc_lookup_none(s.drop_first(), key);
    }
}

/// Replacing the entry at `i` by a pair with the same key leaves the
/// binding of every other key unchanged.
proof fn lemma_lookup_update_other<V>(s: Seq<(String, V)>, i: int, p: (String, V), k: Seq<char>)
    requires
        0 <= i < s.len(),
        p.0@ == s[i].0@,
        k != p.0@,
    ensures
        assoc_lookup(s.update(i, p), k) == assoc_lookup(s, k),
    decreases s.len(),
{
    let t = s.update(i, p);
    if i == 0 {
        assert(t.drop_first() =~= s.drop_first());
    } else {
        assert(t[0] == s[0]);
        assert(t.drop_first() =~= s.drop_first().update(i - 1, p));
        lemma_lookup_update_other(s.drop_first(), i - 1, p, k);
    }
}

/// Replacing the entry at `i` by a pair with the same key rebinds that
/// key and leaves every other key's binding unchanged.
pub proof fn lemma_assoc_lookup_update<V>(s: Seq<(String, V)>, i: int, p: (String, V))
    requires
        unique_keys(s),
        0 <= i < s.len(),
        p.0@ == s[i].0@,
    ensures
        unique_keys(s.update(i, p)),
        assoc_lookup(s.update(i, p), p.0@) == Some(p.1),
        forall|k: Seq<char>| k != p.0@ ==> #[trigger] assoc_lookup(s.update(i, p), k)
            == assoc_lookup(s, k),
{
    let t = s.update(i, p);
    assert(forall|a: int| 0 <= a < s.len() ==> t[a].0@ == s[a].0@);
    lemma_assoc_lookup_index(t, p.0@, i);
    assert forall|k: Seq<char>| k != p.0@ implies #[trigger] assoc_lookup(t, k) == assoc_lookup(
        s,
        k,
    ) by {
        lemma_lookup_update_other(s, i, p, k);
    }
}

/// Appending a pair leaves the binding of every other key unchanged.
proof fn lemma_lookup_push_other<V>(s: Seq<(String, V)>, p: (String, V), k: Seq<char>)
    requires
        k != p.0@,
    ensures
        assoc_lookup(s.push(p), k) == assoc_lookup(s, k),
    decreases s.len(),
{
    let t = s.push(p);
    if s.len() == 0 {
        assert(t[0] == p);
        assert(t.drop_first() =~= Seq::<(String, V)>::empty());
    } else {
        assert(t[0] == s[0]);
        assert(t.drop_first() =~= s.drop_first().push(p));
        lemma_lookup_push_other(s.drop_first(), p, k);
    }
}

/// Appending a pair with a fresh key binds that key and leaves every
/// other key's binding unchanged.
pub proof fn lemma_assoc_lookup_push<V>(s: Seq<(String, V)>, p: (String, V))
    requires
        unique_keys(s),
        forall|j: int| 0 <= j < s.len() ==> s[j].0@ != p.0@,
    ensures
        unique_keys(s.push(p)),
        assoc_lookup(s.push(p), p.0@) == Some(p.1),
        forall|k: Seq<char>| k != p.0@ ==> #[trigger] assoc_lookup(s.push(p), k) == assoc_lookup(
            s,
            k,
        ),
{
    let t = s.push(p);
    assert(forall|a: int| 0 <= a < s.len() ==> t[a] == s[a]);
    assert(t[s.len() as int] == p);
    lemma_assoc_lookup_index(t, p.0@, s.len() as int);
    assert forall|k: Seq<char>| k != p.0@ implies #[trigger] assoc_lookup(t, k) == assoc_lookup(
        s,
        k,
    ) by {
        lemma_lookup_push_other(s, p, k);
    }
}

/// Removing the entry at `i` leaves the binding of every other key
/// unchanged.
proof fn lemma_lookup_remove_other<V>(s: Seq<(String, V)>, i: int, k: Seq<char>)
    requires
        0 <= i < s.len(),
        k != s[i].0@,
    ensures
        assoc_lookup(s.remove(i), k) == assoc_lookup(s, k),
    decreases s.len(),
{
    let t = s.remove(i);
    if i == 0 {
        assert(t =~= s.drop_first());
    } else {
        assert(t[0] == s[0]);
        assert(t.drop_first() =~= s.drop_first().remove(i - 1));
        lemma_lookup_remove_other(s.drop_first(), i - 1, k);
    }
}

/// Removing the entry at `i` unbinds its key and leaves every other
/// key's binding unchanged.
pub proof fn lemma_assoc_lookup_remove<V>(s: Seq<(String, V)>, i: int)
    requires
        unique_keys(s),
        0 <= i < s.len(),
    ensures
        unique_keys(s.remove(i)),
        assoc_lookup(s.remove(i), s[i].0@) is None,
        forall|k: Seq<char>| k != s[i].0@ ==> #[trigger] assoc_lookup(s.remove(i), k)
            == assoc_lookup(s, k),
{
    let t = s.remove(i);
    assert(forall|a: int| 0 <= a < i ==> t[a] == s[a]);
    assert(forall|a: int| i <= a < t.len() ==> t[a] == s[a + 1]);
    assert(forall|j: int| 0 <= j < t.len() ==> t[j].0@ != s[i].0@);
    lemma_assoc_lookup_none(t, s[i].0@);
    assert forall|k: Seq<char>| k != s[i].0@ implies #[trigger] assoc_lookup(t, k) == assoc_lookup(
        s,
        k,
    ) by {
        lemma_lookup_remove_other(s, i, k);
    }
}

/// Finds the first entry whose key equals `key`.
pub fn assoc_find<V>(entries: &Vec<(String, V)>, key: &String) -> (r: Option<usize>)
    ensures
        r matches Some(i) ==> i < entries@.len() && entries@[i as int].0@ == key@ && forall|j: int|
            0 <= j < i ==> entries@[j].0@ != key@,
        r is None ==> forall|j: int| 0 <= j < entries@.len() ==> entries@[j].0@ != key@,
{
    let n = entries.len();
    let mut i: usize = 0;
    while i < n
        invariant
            n == entries@.len(),
            i <= n,
            forall|j: int| 0 <= j < i ==> entries@[j].0@ != key@,
        decreases n - i,
    {
        if entries[i].0 == *key {
            return Some(i);
        }
        i += 1;
    }
    None
}

} // verus!
