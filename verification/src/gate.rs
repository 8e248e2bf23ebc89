//! The asynchronously-resolved, memoized capability gate for outbound
//! addresses.
//!
//! A component's allowed-host list is configured as templates that may
//! contain `{{name}}` variable references.  The first check resolves
//! the templates against the variable set and memoizes the outcome —
//! value or error — so the resolver never runs twice for one instance.
//! Checks match a target address against the resolved list; targets
//! that cannot be parsed are treated as not allowed, and every denial
//! of a parsed target records exactly one observer event.

use vstd::prelude::*;

use crate::errors::Error;

verus! {

// ---------------------------------------------------------------
// Byte-string helpers
// ---------------------------------------------------------------

/// The window of `n` bytes of `t` that starts at `j`.
pub open spec fn window_at(t: Seq<u8>, j: int, n: int) -> Seq<u8> {
    t.subrange(j, j + n)
}

/// The first index at which `pat` occurs in `t`, if any.
pub open spec fn find_sub(t: Seq<u8>, pat: Seq<u8>) -> Option<int>
    decreases t.len(),
{
    if pat.len() == 0 {
        Some(0)
    } else if t.len() < pat.len() {
        None
    } else if window_at(t, 0, pat.len() as int) == pat {
        Some(0)
    } else {
        match find_sub(t.drop_first(), pat) {
            Some(i) => Some(i + 1),
            None => None,
        }
    }
}

/// What `find_sub` returning an index means: a match there, and no
/// match before it.
pub proof fn lemma_find_sub_some(t: Seq<u8>, pat: Seq<u8>, i: int)
    requires
        find_sub(t, pat) == Some(i),
    ensures
        0 <= i,
        i + pat.len() <= t.len(),
        window_at(t, i, pat.len() as int) == pat,
        forall|j: int| 0 <= j < i ==> #[trigger] window_at(t, j, pat.len() as int) != pat,
    decreases t.len(),
{
    if pat.len() == 0 {
        assert(window_at(t, 0, 0) =~= pat);
    } else if t.len() < pat.len() {
    } else if window_at(t, 0, pat.len() as int) == pat {
    } else {
        lemma_find_sub_some(t.drop_first(), pat, i - 1);
        assert(window_at(t.drop_first(), i - 1, pat.len() as int) =~= window_at(
            t,
            i,
            pat.len() as int,
        ));
        assert forall|j: int| 0 <= j < i implies #[trigger] window_at(t, j, pat.len() as int)
            != pat by {
            if j > 0 {
                assert(window_at(t.drop_first(), j - 1, pat.len() as int) =~= window_at(
                    t,
                    j,
                    pat.len() as int,
                ));
            }
        }
    }
}

/// The converse: a first match at `i` pins `find_sub` down.
pub proof fn lemma_find_sub_complete(t: Seq<u8>, pat: Seq<u8>, i: int)
    requires
        0 <= i,
        i + pat.len() <= t.len(),
        window_at(t, i, pat.len() as int) == pat,
        forall|j: int| 0 <= j < i ==> #[trigger] window_at(t, j, pat.len() as int) != pat,
    ensures
        find_sub(t, pat) == Some(i),
    decreases t.len(),
{
    if pat.len() == 0 {
        if i > 0 {
            assert(window_at(t, 0, pat.len() as int) != pat);
            assert(window_at(t, 0, 0) =~= pat);
            assert(false);
        }
    } else if i == 0 {
    } else {
        assert(window_at(t, 0, pat.len() as int) != pat);
        assert(window_at(t.drop_first(), i - 1, pat.len() as int) =~= window_at(
            t,
            i,
            pat.len() as int,
        ));
        assert forall|j: int|
            0 <= j < i - 1 implies #[trigger] window_at(t.drop_first(), j, pat.len() as int)
            != pat by {
            assert(window_at(t.drop_first(), j, pat.len() as int) =~= window_at(
                t,
                j + 1,
                pat.len() as int,
            ));
        }
        lemma_find_sub_complete(t.drop_first(), pat, i - 1);
    }
}

/// Finds the first occurrence of `pat` at or after `from` in `t`.
fn find_sub_from(t: &Vec<u8>, from: usize, pat: &Vec<u8>) -> (r: Option<usize>)
    requires
        from <= t@.len(),
    ensures
        r matches Some(i) ==> from <= i && find_sub(t@.skip(from as int), pat@) == Some(
            i - from as int,
        ) && i + pat@.len() <= t@.len(),
        r is None ==> pat@.len() > 0 && find_sub(t@.skip(from as int), pat@) is None,
{
    let n = t.len();
    let m = pat.len();
    if m == 0 {
        return Some(from);
    }
    if n - from < m {
        return None;
    }
    let mut i: usize = from;
    while i <= n - m
        invariant
            from <= i,
            1 <= m == pat@.len(),
            n == t@.len(),
            m <= n - from,
            i <= n - m + 1,
            forall|j: int|
                from <= j < i ==> #[trigger] window_at(t@, j, pat@.len() as int) != pat@,
        decreases n - i,
    {
        let mut k: usize = 0;
        let mut matched = true;
        while k < m
            invariant
                m == pat@.len(),
                n == t@.len(),
                i + m <= n,
                k <= m,
                matched <==> t@.subrange(i as int, i + k as int) =~= pat@.subrange(0, k as int),
            decreases m - k,
        {
            let ghost pre_k = k as int;
            if t[i + k] != pat[k] {
                matched = false;
                proof {
                    assert(t@.subrange(i as int, i + k + 1int)[pre_k] != pat@.subrange(
                        0,
                        pre_k + 1,
                    )[pre_k]);
                }
                k = m;
            } else {
                proof {
                    if matched {
                        assert(t@.subrange(i as int, i + k + 1int) =~= pat@.subrange(
                            0,
                            k + 1int,
                        ));
                    }
                }
                k += 1;
            }
        }
        if matched {
            proof {
                assert(window_at(t@, i as int, pat@.len() as int) =~= pat@.subrange(0, m as int));
                assert(pat@.subrange(0, m as int) =~= pat@);
                assert forall|j: int|
                    0 <= j < i - from implies #[trigger] window_at(
                    t@.skip(from as int),
                    j,
                    pat@.len() as int,
                ) != pat@ by {
                    assert(window_at(t@.skip(from as int), j, pat@.len() as int) =~= window_at(
                        t@,
                        from + j,
                        pat@.len() as int,
                    ));
                }
                assert(window_at(t@.skip(from as int), i - from as int, pat@.len() as int)
                    =~= window_at(t@, i as int, pat@.len() as int));
                lemma_find_sub_complete(t@.skip(from as int), pat@, i - from as int);
            }
            return Some(i);
        }
        proof {
            assert(window_at(t@, i as int, pat@.len() as int) != pat@);
        }
        i += 1;
    }
    proof {
        assert forall|j: int|
            0 <= j <= t@.skip(from as int).len() - pat@.len() implies #[trigger] window_at(
            t@.skip(from as int),
            j,
            pat@.len() as int,
        ) != pat@ by {
            assert(window_at(t@.skip(from as int), j, pat@.len() as int) =~= window_at(
                t@,
                from + j,
                pat@.len() as int,
            ));
        }
        lemma_find_none_from_all_mismatch(t@.skip(from as int), pat@);
    }
    None
}

/// If no window of `t` equals a nonempty `pat`, `find_sub` finds
/// nothing.
proof fn lemma_find_none_from_all_mismatch(t: Seq<u8>, pat: Seq<u8>)
    requires
        pat.len() > 0,
        forall|j: int|
            0 <= j <= t.len() - pat.len() ==> #[trigger] window_at(t, j, pat.len() as int) != pat,
    ensures
        find_sub(t, pat) is None,
    decreases t.len(),
{
    if t.len() < pat.len() {
    } else {
        assert(window_at(t, 0, pat.len() as int) != pat);
        assert forall|j: int|
            0 <= j <= t.drop_first().len() - pat.len() implies #[trigger] window_at(
            t.drop_first(),
            j,
            pat.len() as int,
        ) != pat by {
            assert(window_at(t.drop_first(), j, pat.len() as int) =~= window_at(
                t,
                j + 1,
                pat.len() as int,
            ));
        }
        lemma_find_none_from_all_mismatch(t.drop_first(), pat);
    }
}

/// Copies the byte window `from..to` out of `v`.
fn bytes_range(v: &Vec<u8>, from: usize, to: usize) -> (r: Vec<u8>)
    requires
        from <= to <= v@.len(),
    ensures
        r@ == v@.subrange(from as int, to as int),
{
    let mut out: Vec<u8> = Vec::new();
    let mut j = from;
    while j < to
        invariant
            from <= j <= to <= v@.len(),
            out@ =~= v@.subrange(from as int, j as int),
        decreases to - j,
    {
        out.push(v[j]);
        j += 1;
        proof {
            assert(out@ =~= v@.subrange(from as int, j as int));
        }
    }
    proof {
        assert(out@ =~= v@.subrange(from as int, to as int));
    }
    out
}

/// Whether two byte strings are equal.
pub fn bytes_eq(a: &Vec<u8>, b: &Vec<u8>) -> (r: bool)
    ensures
        r == (a@ == b@),
{
    if a.len() != b.len() {
        return false;
    }
    let n = a.len();
    let mut i: usize = 0;
    while i < n
        invariant
            n == a@.len() == b@.len(),
            i <= n,
            forall|j: int| 0 <= j < i ==> a@[j] == b@[j],
        decreases n - i,
    {
        if a[i] != b[i] {
            return false;
        }
        i += 1;
    }
    proof {
        assert(a@ =~= b@);
    }
    true
}

/// Whether `a` ends with `suffix`.
fn bytes_ends_with(a: &Vec<u8>, suffix: &Vec<u8>) -> (r: bool)
    ensures
        r == (a@.len() >= suffix@.len() && a@.skip(a@.len() - suffix@.len()) == suffix@),
{
    if a.len() < suffix.len() {
        return false;
    }
    let off = a.len() - suffix.len();
    let n = suffix.len();
    let mut i: usize = 0;
    while i < n
        invariant
            n == suffix@.len(),
            off == a@.len() - n,
            a@.len() <= usize::MAX,
            i <= n,
            forall|j: int| 0 <= j < i ==> a@[off + j] == suffix@[j],
        decreases n - i,
    {
        proof {
            assert(off + i < a@.len());
        }
        if a[off + i] != suffix[i] {
            proof {
                assert(a@.skip(off as int)[i as int] != suffix@[i as int]);
            }
            return false;
        }
        i += 1;
    }
    proof {
        assert(a@.skip(off as int) =~= suffix@);
    }
    true
}


// ---------------------------------------------------------------
// Variables and template expansion
// ---------------------------------------------------------------

/// The value bound to `name`, going front to back.
pub open spec fn var_lookup(vars: Seq<(Vec<u8>, Vec<u8>)>, name: Seq<u8>) -> Option<Seq<u8>>
    decreases vars.len(),
{
    if vars.len() == 0 {
        None
    } else if vars[0].0@ == name {
        Some(vars[0].1@)
    } else {
        var_lookup(vars.drop_first(), name)
    }
}

/// A set of configuration variables for template resolution.
pub struct VariableSet {
    vars: Vec<(Vec<u8>, Vec<u8>)>,
}

impl VariableSet {
    /// The variable bindings, in definition order; the first binding
    /// of a name wins.
    pub closed spec fn bindings(self) -> Seq<(Vec<u8>, Vec<u8>)> {
        self.vars@
    }

    /// The value bound to `name`, if any.
    pub open spec fn value_of(self, name: Seq<u8>) -> Option<Seq<u8>> {
        var_lookup(self.bindings(), name)
    }

    /// Creates an empty variable set.
    pub fn new() -> (s: VariableSet)
        ensures
            s.bindings() == Seq::<(Vec<u8>, Vec<u8>)>::empty(),
    {
        VariableSet { vars: Vec::new() }
    }

    /// Appends a binding; an earlier binding of the same name keeps
    /// precedence.
    pub fn define(&mut self, name: Vec<u8>, value: Vec<u8>)
        ensures
            final(self).bindings() == old(self).bindings().push((name, value)),
    {
        self.vars.push((name, value));
    }

    /// Looks `name` up among the bindings.
    pub fn lookup(&self, name: &Vec<u8>) -> (r: Option<&Vec<u8>>)
        ensures
            r matches Some(v) ==> self.value_of(name@) == Some(v@),
            r is None ==> self.value_of(name@) is None,
    {
        let n = self.vars.len();
        let mut i: usize = 0;
        while i < n
            invariant
                n == self.vars@.len(),
                i <= n,
                forall|j: int| 0 <= j < i ==> self.vars@[j].0@ != name@,
            decreases n - i,
        {
            if bytes_eq(&self.vars[i].0, name) {
                proof {
                    lemma_var_lookup_index(self.vars@, name@, i as int);
                }
                return Some(&self.vars[i].1);
            }
            i += 1;
        }
        proof {
            lemma_var_lookup_none(self.vars@, name@);
        }
        None
    }
}

/// A name that first matches at index `i` looks up to the value at
/// `i`.
proof fn lemma_var_lookup_index(vars: Seq<(Vec<u8>, Vec<u8>)>, name: Seq<u8>, i: int)
    requires
        0 <= i < vars.len(),
        vars[i].0@ == name,
        forall|j: int| 0 <= j < i ==> vars[j].0@ != name,
    ensures
        var_lookup(vars, name) == Some(vars[i].1@),
    decreases i,
{
    if i > 0 {
        lemma_var_lookup_index(vars.drop_first(), name, i - 1);
    }
}

/// A name that matches no binding looks up to nothing.
proof fn lemma_var_lookup_none(vars: Seq<(Vec<u8>, Vec<u8>)>, name: Seq<u8>)
    requires
        forall|j: int| 0 <= j < vars.len() ==> vars[j].0@ != name,
    ensures
        var_lookup(vars, name) is None,
    decreases vars.len(),
{
    if vars.len() > 0 {
        lemma_var_lookup_none(vars.drop_first(), name);
    }
}

/// The expansion of template `t` against `vars`: literal bytes are
/// kept, each `{{name}}` is replaced by the value of `name`, and the
/// expansion fails on an unterminated `{{` or an unbound name.
pub open spec fn expand_template(t: Seq<u8>, vars: Seq<(Vec<u8>, Vec<u8>)>) -> Option<Seq<u8>>
    decreases t.len(),
{
    if t.len() == 0 {
        Some(Seq::empty())
    } else if t.len() >= 2 && t[0] == 0x7bu8 && t[1] == 0x7bu8 {
        match find_sub(t.skip(2), seq![0x7du8, 0x7du8]) {
            None => None,
            Some(ci) => {
                let k = if 0 <= ci && ci + 4 <= t.len() {
                    ci + 4
                } else {
                    t.len() as int
                };
                match var_lookup(vars, t.skip(2).take(ci)) {
                    None => None,
                    Some(v) => match expand_template(t.skip(k), vars) {
                        None => None,
                        Some(rest) => Some(v + rest),
                    },
                }
            },
        }
    } else {
        match expand_template(t.drop_first(), vars) {
            None => None,
            Some(rest) => Some(seq![t[0]] + rest),
        }
    }
}

/// Copies a byte string.
pub fn bytes_copy(v: &Vec<u8>) -> (r: Vec<u8>)
    ensures
        r@ == v@,
{
    let mut out: Vec<u8> = Vec::new();
    let n = v.len();
    let mut i: usize = 0;
    while i < n
        invariant
            n == v@.len(),
            i <= n,
            out@ =~= v@.take(i as int),
        decreases n - i,
    {
        out.push(v[i]);
        i += 1;
        proof {
            assert(out@ =~= v@.take(i as int));
        }
    }
    proof {
        assert(out@ =~= v@);
    }
    out
}

/// Expands the tail of `t` that starts at `from`.
fn expand_from(t: &Vec<u8>, from: usize, vars: &VariableSet) -> (r: Result<Vec<u8>, Error>)
    requires
        from <= t@.len(),
    ensures
        r matches Ok(v) ==> expand_template(t@.skip(from as int), vars.bindings()) == Some(v@),
        r is Err ==> expand_template(t@.skip(from as int), vars.bindings()) is None && (r
            matches Err(e) && e matches Error::BackendFailure(_)),
    decreases t@.len() - from,
{
    let ghost s = t@.skip(from as int);
    if from == t.len() {
        proof {
            assert(s =~= Seq::<u8>::empty());
        }
        return Ok(Vec::new());
    }
    proof {
        assert(s[0] == t@[from as int]);
    }
    if from + 1 < t.len() && t[from] == 0x7bu8 && t[from + 1] == 0x7bu8 {
        proof {
            assert(s.len() >= 2 && s[1] == t@[from + 1]);
        }
        let close: Vec<u8> = vec![0x7du8, 0x7du8];
        proof {
            assert(close@ =~= seq![0x7du8, 0x7du8]);
            assert(t@.skip(from + 2) =~= s.skip(2));
        }
        match find_sub_from(t, from + 2, &close) {
            None => Err(
                Error::BackendFailure("unterminated expression in allowed host".to_owned()),
            ),
            Some(ci_abs) => {
                let ghost ci = ci_abs - (from + 2);
                let name = bytes_range(t, from + 2, ci_abs);
                proof {
                    assert(name@ =~= s.skip(2).take(ci));
                }
                match vars.lookup(&name) {
                    None => Err(
                        Error::BackendFailure("unbound variable in allowed host".to_owned()),
                    ),
                    Some(value) => {
                        let mut out = bytes_copy(value);
                        proof {
                            assert(ci + 4 <= s.len());
                            assert(t@.skip(ci_abs + 2) =~= s.skip(ci + 4));
                        }
                        match expand_from(t, ci_abs + 2, vars) {
                            Err(e) => Err(e),
                            Ok(mut rest) => {
                                out.append(&mut rest);
                                Ok(out)
                            },
                        }
                    },
                }
            },
        }
    } else {
        proof {
            assert(!(s.len() >= 2 && s[0] == 0x7bu8 && s[1] == 0x7bu8)) by {
                if from + 1 < t@.len() {
                    assert(s[1] == t@[from + 1]);
                } else {
                    assert(s.len() < 2);
                }
            }
            assert(t@.skip(from + 1) =~= s.drop_first());
        }
        match expand_from(t, from + 1, vars) {
            Err(e) => Err(e),
            Ok(mut rest) => {
                rest.insert(0, t[from]);
                proof {
                    assert(rest@ =~= seq![s[0]] + expand_template(
                        s.drop_first(),
                        vars.bindings(),
                    )->0);
                }
                Ok(rest)
            },
        }
    }
}



// ---------------------------------------------------------------
// Address parsing
// ---------------------------------------------------------------

/// The last index at which byte `b` occurs in `s`, if any.
pub open spec fn rfind_byte(s: Seq<u8>, b: u8) -> Option<int>
    decreases s.len(),
{
    if s.len() == 0 {
        None
    } else if s.last() == b {
        Some(s.len() - 1)
    } else {
        rfind_byte(s.drop_last(), b)
    }
}

/// What `rfind_byte` returning an index means: `b` there, and never
/// after.
proof fn lemma_rfind_byte_some(s: Seq<u8>, b: u8, i: int)
    requires
        rfind_byte(s, b) == Some(i),
    ensures
        0 <= i < s.len(),
        s[i] == b,
        forall|j: int| i < j < s.len() ==> s[j] != b,
    decreases s.len(),
{
    if s.len() > 0 && s.last() != b {
        lemma_rfind_byte_some(s.drop_last(), b, i);
        assert forall|j: int| i < j < s.len() implies s[j] != b by {
            if j < s.len() - 1 {
                assert(s.drop_last()[j] == s[j]);
            }
        }
    }
}

/// What `rfind_byte` returning nothing means: `b` nowhere.
proof fn lemma_rfind_byte_none(s: Seq<u8>, b: u8)
    requires
        rfind_byte(s, b) is None,
    ensures
        forall|j: int| 0 <= j < s.len() ==> s[j] != b,
    decreases s.len(),
{
    if s.len() > 0 {
        lemma_rfind_byte_none(s.drop_last(), b);
        assert forall|j: int| 0 <= j < s.len() implies s[j] != b by {
            if j < s.len() - 1 {
                assert(s.drop_last()[j] == s[j]);
            }
        }
    }
}

/// The converse of finding nothing: if `b` occurs nowhere,
/// `rfind_byte` finds nothing.
proof fn lemma_rfind_byte_none_complete(s: Seq<u8>, b: u8)
    requires
        forall|j: int| 0 <= j < s.len() ==> s[j] != b,
    ensures
        rfind_byte(s, b) is None,
    decreases s.len(),
{
    if s.len() > 0 {
        assert(forall|j: int| 0 <= j < s.drop_last().len() ==> s.drop_last()[j] == s[j]);
        lemma_rfind_byte_none_complete(s.drop_last(), b);
    }
}

/// The converse: a last occurrence at `i` pins `rfind_byte` down.
proof fn lemma_rfind_byte_complete(s: Seq<u8>, b: u8, i: int)
    requires
        0 <= i < s.len(),
        s[i] == b,
        forall|j: int| i < j < s.len() ==> s[j] != b,
    ensures
        rfind_byte(s, b) == Some(i),
    decreases s.len(),
{
    if i < s.len() - 1 {
        lemma_rfind_byte_complete(s.drop_last(), b, i);
    }
}

/// Finds the last occurrence of `b` in `v`.
fn rfind_byte_exec(v: &Vec<u8>, b: u8) -> (r: Option<usize>)
    ensures
        r matches Some(i) ==> rfind_byte(v@, b) == Some(i as int),
        r is None ==> rfind_byte(v@, b) is None,
{
    let mut i = v.len();
    while i > 0
        invariant
            i <= v@.len(),
            forall|j: int| i <= j < v@.len() ==> v@[j] != b,
        decreases i,
    {
        i -= 1;
        if v[i] == b {
            proof {
                lemma_rfind_byte_complete(v@, b, i as int);
            }
            return Some(i);
        }
    }
    proof {
        lemma_rfind_byte_none_complete(v@, b);
    }
    None
}

/// Whether every byte of `s` is a decimal digit.
pub open spec fn all_digits(s: Seq<u8>) -> bool {
    forall|j: int| 0 <= j < s.len() ==> 0x30 <= #[trigger] s[j] <= 0x39
}

/// The value of a decimal digit string.
pub open spec fn dec_value(s: Seq<u8>) -> int
    decreases s.len(),
{
    if s.len() == 0 {
        0
    } else {
        dec_value(s.drop_last()) * 10 + (s.last() - 0x30)
    }
}

/// A digit string's value is nonnegative.
proof fn lemma_dec_value_nonneg(s: Seq<u8>)
    requires
        all_digits(s),
    ensures
        dec_value(s) >= 0,
    decreases s.len(),
{
    if s.len() > 0 {
        lemma_dec_value_nonneg(s.drop_last());
    }
}

/// A digit string is worth at least any of its prefixes.
proof fn lemma_dec_value_prefix(s: Seq<u8>, i: int)
    requires
        all_digits(s),
        0 <= i <= s.len(),
    ensures
        dec_value(s) >= dec_value(s.take(i)),
    decreases s.len(),
{
    if i < s.len() {
        assert(all_digits(s.drop_last()));
        assert(s.drop_last().take(i) =~= s.take(i));
        lemma_dec_value_prefix(s.drop_last(), i);
        lemma_dec_value_nonneg(s.drop_last());
    } else {
        assert(s.take(i) =~= s);
    }
}

/// Whether `s` is a well-formed port: a nonempty digit string worth
/// at most 65535.
pub open spec fn valid_port(s: Seq<u8>) -> bool {
    s.len() >= 1 && all_digits(s) && dec_value(s) <= 65535
}

/// Parses a port number; fails exactly when `s` is not a well-formed
/// port.
fn parse_port(v: &Vec<u8>) -> (r: Option<u16>)
    ensures
        valid_port(v@) ==> r == Some((dec_value(v@) as u16)),
        !valid_port(v@) ==> r is None,
{
    if v.len() == 0 {
        return None;
    }
    let n = v.len();
    let mut acc: u32 = 0;
    let mut i: usize = 0;
    while i < n
        invariant
            n == v@.len(),
            i <= n,
            acc <= 65535,
            all_digits(v@.take(i as int)),
            acc == dec_value(v@.take(i as int)),
        decreases n - i,
    {
        let c = v[i];
        if c < 0x30 || c > 0x39 {
            proof {
                assert(!all_digits(v@));
            }
            return None;
        }
        proof {
            assert(v@.take(i + 1).drop_last() =~= v@.take(i as int));
            assert(v@.take(i + 1).last() == v@[i as int]);
        }
        acc = acc * 10 + ((c - 0x30) as u32);
        i += 1;
        if acc > 65535 {
            proof {
                if all_digits(v@) {
                    lemma_dec_value_prefix(v@, i as int);
                    assert(v@.take(n as int) =~= v@);
                }
            }
            return None;
        }
    }
    proof {
        assert(v@.take(n as int) =~= v@);
    }
    Some(acc as u16)
}

/// A parsed outbound target: scheme, host and an optional explicit
/// port.
pub struct Target {
    /// The scheme, either explicit in the address or supplied by the
    /// caller.
    pub scheme: Vec<u8>,
    /// The host.
    pub host: Vec<u8>,
    /// The port, when the address names one.
    pub port: Option<u16>,
}

/// A parsed target at the specification level.
pub struct TargetView {
    /// The scheme bytes.
    pub scheme: Seq<u8>,
    /// The host bytes.
    pub host: Seq<u8>,
    /// The explicit port, if any.
    pub port: Option<u16>,
}

impl Target {
    /// The specification-level value of this target.
    pub open spec fn view_target(self) -> TargetView {
        TargetView { scheme: self.scheme@, host: self.host@, port: self.port }
    }
}

/// The parse of target address `u`, with `default_scheme` supplying
/// the scheme when `u` carries none.  `None` means the address is
/// unparseable and must be treated as not allowed.
pub open spec fn spec_parse_target(u: Seq<u8>, default_scheme: Seq<u8>) -> Option<TargetView> {
    let sep = seq![0x3au8, 0x2fu8, 0x2fu8];
    let scheme = match find_sub(u, sep) {
        Some(i) => u.take(i),
        None => default_scheme,
    };
    let rest = match find_sub(u, sep) {
        Some(i) => u.skip(i + 3),
        None => u,
    };
    let auth = match find_sub(rest, seq![0x2fu8]) {
        Some(j) => rest.take(j),
        None => rest,
    };
    if scheme.len() == 0 {
        None
    } else {
        match rfind_byte(auth, 0x3au8) {
            None => if auth.len() > 0 {
                Some(TargetView { scheme: scheme, host: auth, port: None })
            } else {
                None
            },
            Some(ci) => {
                let host = auth.take(ci);
                let ps = auth.skip(ci + 1);
                if host.len() > 0 && valid_port(ps) {
                    Some(
                        TargetView {
                            scheme: scheme,
                            host: host,
                            port: Some((dec_value(ps) as u16)),
                        },
                    )
                } else {
                    None
                }
            },
        }
    }
}

/// Parses a target address; returns nothing exactly when the address
/// is unparseable.
pub fn parse_target(u: &Vec<u8>, default_scheme: &Vec<u8>) -> (r: Option<Target>)
    ensures
        r matches Some(t) ==> spec_parse_target(u@, default_scheme@) == Some(t.view_target()),
        r is None ==> spec_parse_target(u@, default_scheme@) is None,
{
    let sep: Vec<u8> = vec![0x3au8, 0x2fu8, 0x2fu8];
    proof {
        assert(sep@ =~= seq![0x3au8, 0x2fu8, 0x2fu8]);
        assert(u@.skip(0) =~= u@);
    }
    let ulen = u.len();
    let found = find_sub_from(u, 0, &sep);
    let (scheme, rest) = match found {
        Some(i) => {
            proof {
                lemma_find_sub_some(u@, sep@, i as int);
            }
            (bytes_range(u, 0, i), bytes_range(u, i + 3, ulen))
        },
        None => (bytes_copy(default_scheme), bytes_copy(u)),
    };
    proof {
        match found {
            Some(i) => {
                assert(scheme@ =~= u@.take(i as int));
                assert(rest@ =~= u@.skip(i + 3));
            },
            None => {},
        }
    }
    let slash: Vec<u8> = vec![0x2fu8];
    proof {
        assert(slash@ =~= seq![0x2fu8]);
        assert(rest@.skip(0) =~= rest@);
    }
    let sfound = find_sub_from(&rest, 0, &slash);
    let auth = match sfound {
        Some(j) => {
            proof {
                lemma_find_sub_some(rest@, slash@, j as int);
            }
            bytes_range(&rest, 0, j)
        },
        None => rest,
    };
    if scheme.len() == 0 {
        return None;
    }
    match rfind_byte_exec(&auth, 0x3au8) {
        None => {
            if auth.len() > 0 {
                Some(Target { scheme, host: auth, port: None })
            } else {
                None
            }
        },
        Some(ci) => {
            proof {
                lemma_rfind_byte_some(auth@, 0x3au8, ci as int);
            }
            let alen = auth.len();
            let host = bytes_range(&auth, 0, ci);
            let ps = bytes_range(&auth, ci + 1, alen);
            if host.len() == 0 {
                return None;
            }
            match parse_port(&ps) {
                Some(p) => Some(Target { scheme, host, port: Some(p) }),
                None => None,
            }
        },
    }
}

// ---------------------------------------------------------------
// Allow-list entries and matching
// ---------------------------------------------------------------

/// What an entry says about the scheme.
pub enum SchemePattern {
    /// Any scheme (`*`).
    AnyScheme,
    /// Exactly this scheme.
    SchemeIs(Vec<u8>),
}

/// What an entry says about the host.
pub enum HostPattern {
    /// Any host (`*`).
    AnyHost,
    /// Exactly this host.
    HostIs(Vec<u8>),
    /// Any proper subdomain of this dot-prefixed suffix (`*.x.y`).
    Subdomains(Vec<u8>),
    /// The component itself (`self`), for relative requests only.
    ToSelf,
}

/// What an entry says about the port.
pub enum PortPattern {
    /// Any port (`*`).
    AnyPort,
    /// Exactly this port.
    PortIs(u16),
    /// The default port of the scheme in use.
    DefaultPort,
}

/// One resolved allow-list entry.
pub struct AllowedHostEntry {
    /// The scheme part.
    pub scheme: SchemePattern,
    /// The host part.
    pub host: HostPattern,
    /// The port part.
    pub port: PortPattern,
}

/// The scheme part at the specification level.
pub enum SchemeSpec {
    /// Any scheme.
    AnyS,
    /// Exactly these bytes.
    SchemeEq(Seq<u8>),
}

/// The host part at the specification level.
pub enum HostSpec {
    /// Any host.
    AnyH,
    /// Exactly these bytes.
    HostEq(Seq<u8>),
    /// Any proper subdomain of this dot-prefixed suffix.
    SuffixOf(Seq<u8>),
    /// The component itself.
    SelfHost,
}

/// One allow-list entry at the specification level.
pub struct EntryView {
    /// The scheme part.
    pub scheme: SchemeSpec,
    /// The host part.
    pub host: HostSpec,
    /// The port part.
    pub port: PortPattern,
}

impl AllowedHostEntry {
    /// The specification-level value of this entry.
    pub open spec fn view_entry(self) -> EntryView {
        EntryView {
            scheme: match self.scheme {
                SchemePattern::AnyScheme => SchemeSpec::AnyS,
                SchemePattern::SchemeIs(s) => SchemeSpec::SchemeEq(s@),
            },
            host: match self.host {
                HostPattern::AnyHost => HostSpec::AnyH,
                HostPattern::HostIs(h) => HostSpec::HostEq(h@),
                HostPattern::Subdomains(x) => HostSpec::SuffixOf(x@),
                HostPattern::ToSelf => HostSpec::SelfHost,
            },
            port: self.port,
        }
    }
}

/// The parse of one resolved allow-list entry; `None` is a
/// configuration error that fails the whole resolution.
pub open spec fn spec_parse_entry(e: Seq<u8>) -> Option<EntryView> {
    let sep = seq![0x3au8, 0x2fu8, 0x2fu8];
    match find_sub(e, sep) {
        None => None,
        Some(i) => {
            let sch = e.take(i);
            let rest = e.skip(i + 3);
            if sch.len() == 0 {
                None
            } else {
                let scheme = if sch == seq![0x2au8] {
                    SchemeSpec::AnyS
                } else {
                    SchemeSpec::SchemeEq(sch)
                };
                match rfind_byte(rest, 0x3au8) {
                    None => match spec_parse_host(rest) {
                        None => None,
                        Some(h) => Some(
                            EntryView { scheme: scheme, host: h, port: PortPattern::DefaultPort },
                        ),
                    },
                    Some(ci) => {
                        let hp = rest.take(ci);
                        let pp = rest.skip(ci + 1);
                        let port = if pp == seq![0x2au8] {
                            Some(PortPattern::AnyPort)
                        } else if valid_port(pp) {
                            Some(PortPattern::PortIs((dec_value(pp) as u16)))
                        } else {
                            None
                        };
                        match port {
                            None => None,
                            Some(port) => match spec_parse_host(hp) {
                                None => None,
                                Some(h) => Some(
                                    EntryView { scheme: scheme, host: h, port: port },
                                ),
                            },
                        }
                    },
                }
            }
        },
    }
}

/// The parse of the host part of an entry.
pub open spec fn spec_parse_host(h: Seq<u8>) -> Option<HostSpec> {
    if h == seq![0x2au8] {
        Some(HostSpec::AnyH)
    } else if h == seq![0x73u8, 0x65u8, 0x6cu8, 0x66u8] {
        Some(HostSpec::SelfHost)
    } else if h.len() > 2 && h[0] == 0x2au8 && h[1] == 0x2eu8 {
        Some(HostSpec::SuffixOf(h.skip(1)))
    } else if h.len() > 0 {
        Some(HostSpec::HostEq(h))
    } else {
        None
    }
}

/// Parses the host part of an entry.
fn parse_host(h: Vec<u8>) -> (r: Option<HostPattern>)
    ensures
        r matches Some(p) ==> spec_parse_host(h@) == Some(
            AllowedHostEntry { scheme: SchemePattern::AnyScheme, host: p, port: PortPattern::AnyPort }.view_entry().host,
        ),
        r is None ==> spec_parse_host(h@) is None,
{
    let star: Vec<u8> = vec![0x2au8];
    let this_component: Vec<u8> = vec![0x73u8, 0x65u8, 0x6cu8, 0x66u8];
    proof {
        assert(star@ =~= seq![0x2au8]);
        assert(this_component@ =~= seq![0x73u8, 0x65u8, 0x6cu8, 0x66u8]);
    }
    if bytes_eq(&h, &star) {
        Some(HostPattern::AnyHost)
    } else if bytes_eq(&h, &this_component) {
        Some(HostPattern::ToSelf)
    } else if h.len() > 2 && h[0] == 0x2au8 && h[1] == 0x2eu8 {
        let suffix = bytes_range(&h, 1, h.len());
        proof {
            assert(suffix@ =~= h@.skip(1));
        }
        Some(HostPattern::Subdomains(suffix))
    } else if h.len() > 0 {
        Some(HostPattern::HostIs(h))
    } else {
        None
    }
}

/// Parses one resolved allow-list entry; fails exactly when the entry
/// is malformed, which fails the whole resolution.
pub fn parse_entry(e: &Vec<u8>) -> (r: Result<AllowedHostEntry, Error>)
    ensures
        r matches Ok(en) ==> spec_parse_entry(e@) == Some(en.view_entry()),
        r is Err ==> spec_parse_entry(e@) is None && (r matches Err(en) && en
            matches Error::BackendFailure(_)),
    {
    let sep: Vec<u8> = vec![0x3au8, 0x2fu8, 0x2fu8];
    proof {
        assert(sep@ =~= seq![0x3au8, 0x2fu8, 0x2fu8]);
        assert(e@.skip(0) =~= e@);
    }
    let found = find_sub_from(e, 0, &sep);
    let i = match found {
        None => {
            return Err(Error::BackendFailure("allowed host must carry a scheme".to_owned()));
        },
        Some(i) => i,
    };
    proof {
        lemma_find_sub_some(e@, sep@, i as int);
    }
    let elen = e.len();
    let sch = bytes_range(e, 0, i);
    let rest = bytes_range(e, i + 3, elen);
    proof {
        assert(sch@ =~= e@.take(i as int));
        assert(rest@ =~= e@.skip(i + 3));
    }
    if sch.len() == 0 {
        return Err(Error::BackendFailure("allowed host must carry a scheme".to_owned()));
    }
    let star: Vec<u8> = vec![0x2au8];
    proof {
        assert(star@ =~= seq![0x2au8]);
    }
    let scheme = if bytes_eq(&sch, &star) {
        SchemePattern::AnyScheme
    } else {
        SchemePattern::SchemeIs(sch)
    };
    match rfind_byte_exec(&rest, 0x3au8) {
        None => {
            match parse_host(rest) {
                None => Err(Error::BackendFailure("allowed host has an empty host".to_owned())),
                Some(h) => Ok(
                    AllowedHostEntry { scheme, host: h, port: PortPattern::DefaultPort },
                ),
            }
        },
        Some(ci) => {
            proof {
                lemma_rfind_byte_some(rest@, 0x3au8, ci as int);
            }
            let rlen = rest.len();
            let hp = bytes_range(&rest, 0, ci);
            let pp = bytes_range(&rest, ci + 1, rlen);
            let port = if bytes_eq(&pp, &star) {
                PortPattern::AnyPort
            } else {
                match parse_port(&pp) {
                    Some(p) => PortPattern::PortIs(p),
                    None => {
                        return Err(
                            Error::BackendFailure("allowed host has a malformed port".to_owned()),
                        );
                    },
                }
            };
            match parse_host(hp) {
                None => Err(Error::BackendFailure("allowed host has an empty host".to_owned())),
                Some(h) => Ok(AllowedHostEntry { scheme, host: h, port }),
            }
        },
    }
}

/// The default port of a scheme, for targets that name none.
pub open spec fn spec_default_port(scheme: Seq<u8>) -> Option<u16> {
    if scheme == seq![0x68u8, 0x74u8, 0x74u8, 0x70u8] {
        Some(80u16)
    } else if scheme == seq![0x68u8, 0x74u8, 0x74u8, 0x70u8, 0x73u8] {
        Some(443u16)
    } else if scheme == seq![0x72u8, 0x65u8, 0x64u8, 0x69u8, 0x73u8] {
        Some(6379u16)
    } else if scheme == seq![0x6du8, 0x79u8, 0x73u8, 0x71u8, 0x6cu8] {
        Some(3306u16)
    } else if scheme == seq![0x70u8, 0x6fu8, 0x73u8, 0x74u8, 0x67u8, 0x72u8, 0x65u8, 0x73u8] {
        Some(5432u16)
    } else {
        None
    }
}

/// The default port of a scheme, for targets that name none.
fn default_port(scheme: &Vec<u8>) -> (r: Option<u16>)
    ensures
        r == spec_default_port(scheme@),
{
    let http: Vec<u8> = vec![0x68u8, 0x74u8, 0x74u8, 0x70u8];
    let https: Vec<u8> = vec![0x68u8, 0x74u8, 0x74u8, 0x70u8, 0x73u8];
    let redis: Vec<u8> = vec![0x72u8, 0x65u8, 0x64u8, 0x69u8, 0x73u8];
    let mysql: Vec<u8> = vec![0x6du8, 0x79u8, 0x73u8, 0x71u8, 0x6cu8];
    let postgres: Vec<u8> = vec![0x70u8, 0x6fu8, 0x73u8, 0x74u8, 0x67u8, 0x72u8, 0x65u8, 0x73u8];
    proof {
        assert(http@ =~= seq![0x68u8, 0x74u8, 0x74u8, 0x70u8]);
        assert(https@ =~= seq![0x68u8, 0x74u8, 0x74u8, 0x70u8, 0x73u8]);
        assert(redis@ =~= seq![0x72u8, 0x65u8, 0x64u8, 0x69u8, 0x73u8]);
        assert(mysql@ =~= seq![0x6du8, 0x79u8, 0x73u8, 0x71u8, 0x6cu8]);
        assert(postgres@ =~= seq![0x70u8, 0x6fu8, 0x73u8, 0x74u8, 0x67u8, 0x72u8, 0x65u8, 0x73u8]);
    }
    if bytes_eq(scheme, &http) {
        Some(80)
    } else if bytes_eq(scheme, &https) {
        Some(443)
    } else if bytes_eq(scheme, &redis) {
        Some(6379)
    } else if bytes_eq(scheme, &mysql) {
        Some(3306)
    } else if bytes_eq(scheme, &postgres) {
        Some(5432)
    } else {
        None
    }
}

/// The port a target is effectively addressing: the explicit one, or
/// the scheme's default.
pub open spec fn effective_port(scheme: Seq<u8>, port: Option<u16>) -> Option<u16> {
    match port {
        Some(p) => Some(p),
        None => spec_default_port(scheme),
    }
}

/// Whether one entry allows a target.
pub open spec fn entry_allows(v: EntryView, t: TargetView) -> bool {
    &&& match v.scheme {
        SchemeSpec::AnyS => true,
        SchemeSpec::SchemeEq(s) => s == t.scheme,
    }
    &&& match v.host {
        HostSpec::AnyH => true,
        HostSpec::HostEq(h) => h == t.host,
        HostSpec::SuffixOf(suf) => t.host.len() > suf.len() && t.host.skip(
            t.host.len() - suf.len(),
        ) == suf,
        HostSpec::SelfHost => false,
    }
    &&& match v.port {
        PortPattern::AnyPort => true,
        PortPattern::PortIs(p) => effective_port(t.scheme, t.port) == Some(p),
        PortPattern::DefaultPort => effective_port(t.scheme, t.port) == spec_default_port(
            t.scheme,
        ),
    }
}

/// Whether one entry allows a target.
fn entry_allows_exec(v: &AllowedHostEntry, t: &Target) -> (r: bool)
    ensures
        r == entry_allows(v.view_entry(), t.view_target()),
{
    let scheme_ok = match &v.scheme {
        SchemePattern::AnyScheme => true,
        SchemePattern::SchemeIs(s) => bytes_eq(s, &t.scheme),
    };
    if !scheme_ok {
        return false;
    }
    let host_ok = match &v.host {
        HostPattern::AnyHost => true,
        HostPattern::HostIs(h) => bytes_eq(h, &t.host),
        HostPattern::Subdomains(suf) => t.host.len() > suf.len() && bytes_ends_with(
            &t.host,
            suf,
        ),
        HostPattern::ToSelf => false,
    };
    if !host_ok {
        return false;
    }
    let effective = match t.port {
        Some(p) => Some(p),
        None => default_port(&t.scheme),
    };
    match &v.port {
        PortPattern::AnyPort => true,
        PortPattern::PortIs(p) => effective == Some(*p),
        PortPattern::DefaultPort => {
            let d = default_port(&t.scheme);
            match (effective, d) {
                (Some(a), Some(b)) => a == b,
                (None, None) => true,
                _ => false,
            }
        },
    }
}

/// The resolved allow-list: everything, or a set of rules.
pub enum AllowedHostsConfig {
    /// Every outbound target is allowed.
    All,
    /// Only targets matched by one of these entries are allowed.
    SpecificRules(Vec<AllowedHostEntry>),
}

/// The resolved allow-list at the specification level.
pub enum ConfigView {
    /// Every outbound target is allowed.
    AllV,
    /// Only targets matched by one of these entries are allowed.
    RulesV(Seq<EntryView>),
}

impl AllowedHostsConfig {
    /// The specification-level value of this configuration.
    pub open spec fn view_config(self) -> ConfigView {
        match self {
            AllowedHostsConfig::All => ConfigView::AllV,
            AllowedHostsConfig::SpecificRules(rules) => ConfigView::RulesV(
                rules@.map_values(|e: AllowedHostEntry| e.view_entry()),
            ),
        }
    }
}

/// Whether some entry of `rules` allows the target.
pub open spec fn some_entry_allows(rules: Seq<EntryView>, t: TargetView) -> bool {
    exists|i: int| 0 <= i < rules.len() && entry_allows(#[trigger] rules[i], t)
}

/// Whether the configuration allows a target.
pub open spec fn config_allows(c: ConfigView, t: TargetView) -> bool {
    match c {
        ConfigView::AllV => true,
        ConfigView::RulesV(rules) => some_entry_allows(rules, t),
    }
}

/// Whether a scheme pattern accepts the given scheme bytes.
pub open spec fn scheme_matches(sp: SchemeSpec, s: Vec<u8>) -> bool {
    match sp {
        SchemeSpec::AnyS => true,
        SchemeSpec::SchemeEq(x) => x == s@,
    }
}

/// Whether an entry names the component itself under one of the
/// given schemes.
pub open spec fn entry_allows_relative(v: EntryView, schemes: Seq<Vec<u8>>) -> bool {
    v.host is SelfHost && exists|j: int|
        0 <= j < schemes.len() && #[trigger] scheme_matches(v.scheme, schemes[j])
}

/// Whether some entry of `rules` names the component itself under
/// one of the given schemes.
pub open spec fn some_entry_allows_relative(rules: Seq<EntryView>, schemes: Seq<Vec<u8>>) -> bool {
    exists|i: int| 0 <= i < rules.len() && entry_allows_relative(#[trigger] rules[i], schemes)
}

/// Whether the configuration allows relative requests under one of
/// the given schemes: some rule must name the component itself and
/// one of the schemes.
pub open spec fn config_allows_relative(c: ConfigView, schemes: Seq<Vec<u8>>) -> bool {
    match c {
        ConfigView::AllV => true,
        ConfigView::RulesV(rules) => some_entry_allows_relative(rules, schemes),
    }
}

/// Whether the configuration allows a target.
pub fn allows(c: &AllowedHostsConfig, t: &Target) -> (r: bool)
    ensures
        r == config_allows(c.view_config(), t.view_target()),
{
    match c {
        AllowedHostsConfig::All => true,
        AllowedHostsConfig::SpecificRules(rules) => {
            let n = rules.len();
            let ghost views = match c.view_config() {
                ConfigView::RulesV(v) => v,
                ConfigView::AllV => Seq::empty(),
            };
            proof {
                assert(c.view_config() == ConfigView::RulesV(views));
                assert(views.len() == rules@.len());
                assert(forall|j: int|
                    0 <= j < rules@.len() ==> #[trigger] views[j] == rules@[j].view_entry());
            }
            let mut i: usize = 0;
            while i < n
                invariant
                    n == rules@.len(),
                    c.view_config() == ConfigView::RulesV(views),
                    views.len() == rules@.len(),
                    forall|j: int|
                        0 <= j < rules@.len() ==> #[trigger] views[j] == rules@[j].view_entry(),
                    i <= n,
                    forall|j: int|
                        0 <= j < i ==> !entry_allows(#[trigger] views[j], t.view_target()),
                decreases n - i,
            {
                if entry_allows_exec(&rules[i], t) {
                    proof {
                        assert(views[i as int] == rules@[i as int].view_entry());
                        assert(entry_allows(views[i as int], t.view_target()));
                        assert(some_entry_allows(views, t.view_target()));
                    }
                    return true;
                }
                i += 1;
            }
            proof {
                assert(!some_entry_allows(views, t.view_target())) by {
                    if some_entry_allows(views, t.view_target()) {
                        let j = choose|j: int|
                            0 <= j < views.len() && entry_allows(
                                #[trigger] views[j],
                                t.view_target(),
                            );
                        assert(false);
                    }
                }
            }
            false
        },
    }
}


// ---------------------------------------------------------------
// Resolution and the memoized checks
// ---------------------------------------------------------------

/// The expansion of every template, or nothing if any expansion
/// fails.
pub open spec fn spec_expand_all(ts: Seq<Vec<u8>>, vars: Seq<(Vec<u8>, Vec<u8>)>) -> Option<
    Seq<Seq<u8>>,
>
    decreases ts.len(),
{
    if ts.len() == 0 {
        Some(Seq::empty())
    } else {
        match spec_expand_all(ts.drop_last(), vars) {
            None => None,
            Some(rest) => match expand_template(ts.last()@, vars) {
                None => None,
                Some(e) => Some(rest.push(e)),
            },
        }
    }
}

/// The parse of every expanded entry, or nothing if any parse fails.
pub open spec fn spec_parse_all(es: Seq<Seq<u8>>) -> Option<Seq<EntryView>>
    decreases es.len(),
{
    if es.len() == 0 {
        Some(Seq::empty())
    } else {
        match spec_parse_all(es.drop_last()) {
            None => None,
            Some(rest) => match spec_parse_entry(es.last()) {
                None => None,
                Some(v) => Some(rest.push(v)),
            },
        }
    }
}

/// Whether some expanded entry is the lone `*`, which allows
/// everything.
pub open spec fn some_entry_is_star(es: Seq<Seq<u8>>) -> bool {
    exists|i: int| 0 <= i < es.len() && #[trigger] es[i] == seq![0x2au8]
}

/// The resolution of the templates against the variables: the
/// resolved configuration, or nothing if expansion or parsing fails.
pub open spec fn spec_resolution(ts: Seq<Vec<u8>>, vars: Seq<(Vec<u8>, Vec<u8>)>) -> Option<
    ConfigView,
> {
    match spec_expand_all(ts, vars) {
        None => None,
        Some(es) => if some_entry_is_star(es) {
            Some(ConfigView::AllV)
        } else {
            match spec_parse_all(es) {
                None => None,
                Some(vs) => Some(ConfigView::RulesV(vs)),
            }
        },
    }
}

/// One recorded denial: the scheme and authority that the observer
/// callback is owed.
pub struct DeniedRequest {
    /// The denied scheme.
    pub scheme: Vec<u8>,
    /// The denied authority: the host, with `:port` appended when the
    /// target named a port.
    pub authority: Vec<u8>,
}

/// The decimal digits of `n`.
pub open spec fn dec_repr(n: nat) -> Seq<u8>
    decreases n,
{
    if n < 10 {
        seq![(0x30 + n) as u8]
    } else {
        dec_repr(n / 10).push((0x30 + n % 10) as u8)
    }
}

/// The decimal digits of a port number.
fn u16_digits(n: u16) -> (r: Vec<u8>)
    ensures
        r@ == dec_repr(n as nat),
    decreases n,
{
    if n < 10 {
        let out: Vec<u8> = vec![0x30u8 + (n as u8)];
        proof {
            assert(out@ =~= dec_repr(n as nat));
        }
        out
    } else {
        let mut out = u16_digits(n / 10);
        out.push(0x30u8 + ((n % 10) as u8));
        out
    }
}

/// The authority of a target: the host, with `:port` appended when
/// the target named a port.
pub open spec fn authority_view(t: TargetView) -> Seq<u8> {
    match t.port {
        None => t.host,
        Some(p) => t.host + seq![0x3au8] + dec_repr(p as nat),
    }
}

/// The authority of a target.
fn authority_of(host: &Vec<u8>, port: Option<u16>) -> (r: Vec<u8>)
    ensures
        r@ == authority_view(
            TargetView { scheme: Seq::empty(), host: host@, port: port },
        ),
{
    let mut out = bytes_copy(host);
    match port {
        None => out,
        Some(p) => {
            out.push(0x3au8);
            let mut ds = u16_digits(p);
            out.append(&mut ds);
            proof {
                assert(out@ =~= host@ + seq![0x3au8] + dec_repr(p as nat));
            }
            out
        },
    }
}

/// Whether `post` records exactly one more denial than `pre`: the
/// given target's scheme and authority, appended at the end.
pub open spec fn denied_event_recorded(
    pre: Seq<DeniedRequest>,
    post: Seq<DeniedRequest>,
    tv: TargetView,
) -> bool {
    &&& post.len() == pre.len() + 1
    &&& post.drop_last() =~= pre
    &&& post.last().scheme@ =~= tv.scheme
    &&& post.last().authority@ =~= authority_view(tv)
}

/// Whether the memo holds a successful resolution.
pub open spec fn memo_is_ok(g: OutboundAllowedHosts) -> bool {
    match g.memo_state() {
        Some(o) => o is Ok,
        None => false,
    }
}

/// Whether the memo holds a cached resolution failure.
pub open spec fn memo_is_err(g: OutboundAllowedHosts) -> bool {
    match g.memo_state() {
        Some(o) => o is Err,
        None => false,
    }
}

/// The successfully resolved configuration in the memo.
pub open spec fn memo_config(g: OutboundAllowedHosts) -> ConfigView
    recommends
        memo_is_ok(g),
{
    match g.memo_state() {
        Some(Ok(cv)) => cv,
        _ => ConfigView::AllV,
    }
}

/// The cached resolution failure in the memo.
pub open spec fn memo_error(g: OutboundAllowedHosts) -> Error
    recommends
        memo_is_err(g),
{
    match g.memo_state() {
        Some(Err(e)) => e,
        _ => Error::AccessDenied,
    }
}

/// The memoized capability gate for one component instance.
///
/// `templates` is the static configuration; `memo` is the
/// once-computed resolution shared by all checks; `events` is the
/// queue of denial notifications owed to the observer.
pub struct OutboundAllowedHosts {
    templates: Vec<Vec<u8>>,
    memo: Option<Result<AllowedHostsConfig, Error>>,
    events: Vec<DeniedRequest>,
}

impl OutboundAllowedHosts {
    /// The configured templates.
    pub closed spec fn spec_templates(self) -> Seq<Vec<u8>> {
        self.templates@
    }

    /// The memoized resolution outcome, if resolution has run.
    pub closed spec fn memo_state(self) -> Option<Result<ConfigView, Error>> {
        match self.memo {
            None => None,
            Some(Ok(c)) => Some(Ok(c.view_config())),
            Some(Err(e)) => Some(Err(e)),
        }
    }

    /// The denial notifications recorded so far, oldest first.
    pub closed spec fn spec_events(self) -> Seq<DeniedRequest> {
        self.events@
    }

    /// Creates a gate over the given templates; nothing is resolved
    /// yet and no denial has been recorded.
    pub fn new(templates: Vec<Vec<u8>>) -> (g: OutboundAllowedHosts)
        ensures
            g.spec_templates() == templates@,
            g.memo_state() is None,
            g.spec_events() == Seq::<DeniedRequest>::empty(),
    {
        OutboundAllowedHosts { templates, memo: None, events: Vec::new() }
    }

    /// Hands out the recorded denial notifications and clears the
    /// queue, so an embedder can deliver them to its observer.
    pub fn take_events(&mut self) -> (r: Vec<DeniedRequest>)
        ensures
            r@ == old(self).spec_events(),
            final(self).spec_events() == Seq::<DeniedRequest>::empty(),
            final(self).spec_templates() == old(self).spec_templates(),
            final(self).memo_state() == old(self).memo_state(),
    {
        let mut out: Vec<DeniedRequest> = Vec::new();
        core::mem::swap(&mut self.events, &mut out);
        out
    }

    /// Resolves the templates against `vars`, memoizing the outcome.
    ///
    /// The first call computes the resolution; every later call
    /// replays the memoized value or error without resolving again,
    /// whatever `vars` then holds.
    pub fn resolve(&mut self, vars: &VariableSet) -> (r: Result<(), Error>)
        ensures
            resolution_settled(*old(self), *final(self), *vars),
            final(self).spec_events() == old(self).spec_events(),
            r is Ok <==> (final(self).memo_state() matches Some(o) && o is Ok),
            r matches Err(e) ==> final(self).memo_state() == Some(
                Result::<ConfigView, Error>::Err(e),
            ),
    {
        match &self.memo {
            Some(Ok(_)) => Ok(()),
            Some(Err(e)) => Err(e.duplicate()),
            None => {
                let outcome = resolve_templates(&self.templates, vars);
                match outcome {
                    Ok(c) => {
                        self.memo = Some(Ok(c));
                        Ok(())
                    },
                    Err(e) => {
                        let replay = e.duplicate();
                        self.memo = Some(Err(e));
                        Err(replay)
                    },
                }
            },
        }
    }

    /// Checks a parsed target against the resolved list, recording
    /// exactly one denial notification if it is not allowed.
    pub fn check_target(&mut self, vars: &VariableSet, target: Target) -> (r: Result<bool, Error>)
        ensures
            resolution_settled(*old(self), *final(self), *vars),
            memo_is_err(*final(self)) ==> r == Result::<bool, Error>::Err(memo_error(*final(self)))
                && final(self).spec_events() == old(self).spec_events(),
            memo_is_ok(*final(self)) && config_allows(
                memo_config(*final(self)),
                target.view_target(),
            ) ==> r == Result::<bool, Error>::Ok(true) && final(self).spec_events() == old(self).spec_events(),
            memo_is_ok(*final(self)) && !config_allows(
                memo_config(*final(self)),
                target.view_target(),
            ) ==> r == Result::<bool, Error>::Ok(false) && denied_event_recorded(
                old(self).spec_events(),
                final(self).spec_events(),
                target.view_target(),
            ),
    {
        match self.resolve(vars) {
            Err(e) => Err(e),
            Ok(()) => {
                let allowed = match &self.memo {
                    Some(Ok(c)) => allows(c, &target),
                    _ => unreached(),
                };
                if allowed {
                    Ok(true)
                } else {
                    let authority = authority_of(&target.host, target.port);
                    self.events.push(DeniedRequest { scheme: target.scheme, authority });
                    Ok(false)
                }
            },
        }
    }

    /// Checks an address against the allowed hosts.
    ///
    /// Resolution happens (once) first; its failure is the only
    /// error.  An address that cannot be parsed is reported as not
    /// allowed without a denial notification; a parsed address that
    /// the list rejects records exactly one denial notification with
    /// the target's scheme and authority.
    pub fn check_url(&mut self, vars: &VariableSet, url: &Vec<u8>, scheme: &Vec<u8>) -> (r: Result<
        bool,
        Error,
    >)
        ensures
            resolution_settled(*old(self), *final(self), *vars),
            memo_is_err(*final(self)) ==> r == Result::<bool, Error>::Err(memo_error(*final(self)))
                && final(self).spec_events() == old(self).spec_events(),
            memo_is_ok(*final(self)) && spec_parse_target(url@, scheme@) is None ==> r == Result::<
                bool,
                Error,
            >::Ok(false) && final(self).spec_events() == old(self).spec_events(),
            memo_is_ok(*final(self)) && spec_parse_target(url@, scheme@) is Some && config_allows(
                memo_config(*final(self)),
                spec_parse_target(url@, scheme@)->0,
            ) ==> r == Result::<bool, Error>::Ok(true) && final(self).spec_events() == old(self).spec_events(),
            memo_is_ok(*final(self)) && spec_parse_target(url@, scheme@) is Some && !config_allows(
                memo_config(*final(self)),
                spec_parse_target(url@, scheme@)->0,
            ) ==> r == Result::<bool, Error>::Ok(false) && denied_event_recorded(
                old(self).spec_events(),
                final(self).spec_events(),
                spec_parse_target(url@, scheme@)->0,
            ),
    {
        match self.resolve(vars) {
            Err(e) => Err(e),
            Ok(()) => match parse_target(url, scheme) {
                None => Ok(false),
                Some(t) => self.check_target(vars, t),
            },
        }
    }

    /// Checks whether relative requests are allowed under one of the
    /// given schemes, recording exactly one denial notification with
    /// the first scheme and the authority `self` when they are not.
    pub fn check_relative_url(&mut self, vars: &VariableSet, schemes: &Vec<Vec<u8>>) -> (r: Result<
        bool,
        Error,
    >)
        ensures
            resolution_settled(*old(self), *final(self), *vars),
            memo_is_err(*final(self)) ==> r == Result::<bool, Error>::Err(memo_error(*final(self)))
                && final(self).spec_events() == old(self).spec_events(),
            memo_is_ok(*final(self)) && config_allows_relative(memo_config(*final(self)), schemes@)
                ==> r == Result::<bool, Error>::Ok(true) && final(self).spec_events() == old(self).spec_events(),
            memo_is_ok(*final(self)) && !config_allows_relative(
                memo_config(*final(self)),
                schemes@,
            ) ==> r == Result::<bool, Error>::Ok(false) && final(self).spec_events().len() == old(self).spec_events().len() + 1 && final(self).spec_events().drop_last() =~= old(self).spec_events() && final(self).spec_events().last().scheme@ =~= (if schemes@.len()
                > 0 {
                schemes@[0]@
            } else {
                Seq::<u8>::empty()
            }) && final(self).spec_events().last().authority@ =~= seq![
                0x73u8,
                0x65u8,
                0x6cu8,
                0x66u8,
            ],
    {
        match self.resolve(vars) {
            Err(e) => Err(e),
            Ok(()) => {
                let allowed = match &self.memo {
                    Some(Ok(c)) => allows_relative(c, schemes),
                    _ => unreached(),
                };
                if allowed {
                    Ok(true)
                } else {
                    let scheme = if schemes.len() > 0 {
                        bytes_copy(&schemes[0])
                    } else {
                        Vec::new()
                    };
                    let authority: Vec<u8> = vec![0x73u8, 0x65u8, 0x6cu8, 0x66u8];
                    proof {
                        assert(authority@ =~= seq![0x73u8, 0x65u8, 0x6cu8, 0x66u8]);
                    }
                    self.events.push(DeniedRequest { scheme, authority });
                    Ok(false)
                }
            },
        }
    }
}

/// How one call settles the memo: an existing outcome is kept
/// untouched, a missing one becomes the resolution of the templates
/// against the variables.
pub open spec fn resolution_settled(
    pre: OutboundAllowedHosts,
    post: OutboundAllowedHosts,
    vars: VariableSet,
) -> bool {
    &&& post.spec_templates() == pre.spec_templates()
    &&& post.memo_state() is Some
    &&& (pre.memo_state() is Some ==> post.memo_state() == pre.memo_state())
    &&& (pre.memo_state() is None ==> (match post.memo_state()->0 {
        Ok(cv) => spec_resolution(pre.spec_templates(), vars.bindings()) == Some(cv),
        Err(e) => spec_resolution(pre.spec_templates(), vars.bindings()) is None && e
            matches Error::BackendFailure(_),
    }))
}

/// Resolves the templates: expands each, recognizes the lone `*`,
/// and parses every entry.
fn resolve_templates(templates: &Vec<Vec<u8>>, vars: &VariableSet) -> (r: Result<
    AllowedHostsConfig,
    Error,
>)
    ensures
        r matches Ok(c) ==> spec_resolution(templates@, vars.bindings()) == Some(c.view_config()),
        r is Err ==> spec_resolution(templates@, vars.bindings()) is None && (r matches Err(e) && e
            matches Error::BackendFailure(_)),
{
    let n = templates.len();
    let mut expanded: Vec<Vec<u8>> = Vec::new();
    let mut i: usize = 0;
    while i < n
        invariant
            n == templates@.len(),
            i <= n,
            spec_expand_all(templates@.take(i as int), vars.bindings()) == Some(
                expanded@.map_values(|v: Vec<u8>| v@),
            ),
        decreases n - i,
    {
        let ghost pre = expanded@.map_values(|v: Vec<u8>| v@);
        match expand_from(&templates[i], 0, vars) {
            Err(e) => {
                proof {
                    assert(templates@[i as int]@.skip(0) =~= templates@[i as int]@);
                    assert(templates@.take(i + 1).drop_last() =~= templates@.take(i as int));
                    assert(templates@.take(i + 1).last() == templates@[i as int]);
                    lemma_expand_all_extends_to_none(templates@, vars.bindings(), i as int);
                }
                return Err(e);
            },
            Ok(v) => {
                proof {
                    assert(templates@[i as int]@.skip(0) =~= templates@[i as int]@);
                    assert(templates@.take(i + 1).drop_last() =~= templates@.take(i as int));
                    assert(templates@.take(i + 1).last() == templates@[i as int]);
                }
                expanded.push(v);
                proof {
                    assert(expanded@.map_values(|v: Vec<u8>| v@) =~= pre.push(
                        expanded@.last()@,
                    ));
                }
            },
        }
        i += 1;
    }
    proof {
        assert(templates@.take(n as int) =~= templates@);
    }
    let en = expanded.len();
    let star: Vec<u8> = vec![0x2au8];
    proof {
        assert(star@ =~= seq![0x2au8]);
    }
    let ghost es0 = expanded@.map_values(|v: Vec<u8>| v@);
    let ghost expanded0 = expanded@;
    let mut j: usize = 0;
    while j < en
        invariant
            en == expanded@.len(),
            expanded@ == expanded0,
            es0 == expanded@.map_values(|v: Vec<u8>| v@),
            es0.len() == en,
            star@ == seq![0x2au8],
            spec_expand_all(templates@, vars.bindings()) == Some(es0),
            j <= en,
            forall|k: int| 0 <= k < j ==> #[trigger] es0[k] != seq![0x2au8],
        decreases en - j,
    {
        proof {
            assert(es0[j as int] == expanded@[j as int]@);
        }
        if bytes_eq(&expanded[j], &star) {
            proof {
                assert(some_entry_is_star(es0));
            }
            return Ok(AllowedHostsConfig::All);
        }
        j += 1;
    }
    proof {
        assert(!some_entry_is_star(es0)) by {
            if some_entry_is_star(es0) {
                let k = choose|k: int| 0 <= k < es0.len() && #[trigger] es0[k] == seq![0x2au8];
                assert(false);
            }
        }
    }
    let mut rules: Vec<AllowedHostEntry> = Vec::new();
    let mut k: usize = 0;
    while k < en
        invariant
            en == expanded@.len(),
            expanded@ == expanded0,
            es0 == expanded@.map_values(|v: Vec<u8>| v@),
            spec_expand_all(templates@, vars.bindings()) == Some(es0),
            !some_entry_is_star(es0),
            k <= en,
            spec_parse_all(es0.take(k as int)) == Some(
                rules@.map_values(|e: AllowedHostEntry| e.view_entry()),
            ),
        decreases en - k,
    {
        let ghost pre = rules@.map_values(|e: AllowedHostEntry| e.view_entry());
        proof {
            assert(es0[k as int] == expanded@[k as int]@);
        }
        match parse_entry(&expanded[k]) {
            Err(e) => {
                proof {
                    lemma_parse_all_extends_to_none(es0, k as int);
                }
                return Err(e);
            },
            Ok(en_parsed) => {
                proof {
                    assert(es0.take(k + 1).drop_last() =~= es0.take(k as int));
                    assert(es0.take(k + 1).last() == es0[k as int]);
                }
                rules.push(en_parsed);
                proof {
                    assert(rules@.map_values(|e: AllowedHostEntry| e.view_entry()) =~= pre.push(
                        rules@.last().view_entry(),
                    ));
                }
            },
        }
        k += 1;
    }
    proof {
        assert(es0.take(en as int) =~= es0);
        let result = AllowedHostsConfig::SpecificRules(rules);
        assert(result.view_config() == ConfigView::RulesV(
            rules@.map_values(|e: AllowedHostEntry| e.view_entry()),
        ));
    }
    Ok(AllowedHostsConfig::SpecificRules(rules))
}

/// If expansion fails for the entry at `i`, the whole expansion of
/// any longer prefix, and of the full list, fails.
proof fn lemma_expand_all_extends_to_none(
    ts: Seq<Vec<u8>>,
    vars: Seq<(Vec<u8>, Vec<u8>)>,
    i: int,
)
    requires
        0 <= i < ts.len(),
        expand_template(ts[i]@, vars) is None,
    ensures
        spec_expand_all(ts, vars) is None,
    decreases ts.len(),
{
    if ts.len() > 0 {
        if i == ts.len() - 1 {
            assert(ts.last() == ts[i]);
        } else {
            assert(ts.drop_last()[i] == ts[i]);
            lemma_expand_all_extends_to_none(ts.drop_last(), vars, i);
        }
    }
}

/// If parsing fails for the entry at `i`, parsing the whole list
/// fails.
proof fn lemma_parse_all_extends_to_none(es: Seq<Seq<u8>>, i: int)
    requires
        0 <= i < es.len(),
        spec_parse_entry(es[i]) is None,
    ensures
        spec_parse_all(es) is None,
    decreases es.len(),
{
    if es.len() > 0 {
        if i == es.len() - 1 {
            assert(es.last() == es[i]);
        } else {
            assert(es.drop_last()[i] == es[i]);
            lemma_parse_all_extends_to_none(es.drop_last(), i);
        }
    }
}

/// Whether the configuration allows relative requests under one of
/// the given schemes.
fn allows_relative(c: &AllowedHostsConfig, schemes: &Vec<Vec<u8>>) -> (r: bool)
    ensures
        r == config_allows_relative(c.view_config(), schemes@),
{
    match c {
        AllowedHostsConfig::All => true,
        AllowedHostsConfig::SpecificRules(rules) => {
            let n = rules.len();
            let ghost views = match c.view_config() {
                ConfigView::RulesV(v) => v,
                ConfigView::AllV => Seq::empty(),
            };
            proof {
                assert(c.view_config() == ConfigView::RulesV(views));
                assert(views.len() == rules@.len());
                assert(forall|x: int|
                    0 <= x < rules@.len() ==> #[trigger] views[x] == rules@[x].view_entry());
            }
            let mut i: usize = 0;
            while i < n
                invariant
                    n == rules@.len(),
                    c.view_config() == ConfigView::RulesV(views),
                    views.len() == rules@.len(),
                    forall|x: int|
                        0 <= x < rules@.len() ==> #[trigger] views[x] == rules@[x].view_entry(),
                    i <= n,
                    forall|x: int|
                        0 <= x < i ==> !entry_allows_relative(#[trigger] views[x], schemes@),
                decreases n - i,
            {
                let is_self = match &rules[i].host {
                    HostPattern::ToSelf => true,
                    _ => false,
                };
                if is_self {
                    let m = schemes.len();
                    let mut j: usize = 0;
                    while j < m
                        invariant
                            m == schemes@.len(),
                            j <= m,
                            i < rules@.len(),
                            views.len() == rules@.len(),
                            c.view_config() == ConfigView::RulesV(views),
                            views[i as int] == rules@[i as int].view_entry(),
                            rules@[i as int].view_entry().host is SelfHost,
                            forall|y: int|
                                0 <= y < j ==> !scheme_matches(
                                    rules@[i as int].view_entry().scheme,
                                    #[trigger] schemes@[y],
                                ),
                        decreases m - j,
                    {
                        let scheme_ok = match &rules[i].scheme {
                            SchemePattern::AnyScheme => true,
                            SchemePattern::SchemeIs(s) => bytes_eq(s, &schemes[j]),
                        };
                        if scheme_ok {
                            proof {
                                assert(scheme_matches(views[i as int].scheme, schemes@[j as int]));
                                assert(entry_allows_relative(views[i as int], schemes@));
                                assert(some_entry_allows_relative(views, schemes@));
                            }
                            return true;
                        }
                        proof {
                            assert(!scheme_matches(views[i as int].scheme, schemes@[j as int]));
                        }
                        j += 1;
                    }
                    proof {
                        assert(!entry_allows_relative(views[i as int], schemes@)) by {
                            if entry_allows_relative(views[i as int], schemes@) {
                                let y = choose|y: int|
                                    0 <= y < schemes@.len() && #[trigger] scheme_matches(
                                        views[i as int].scheme,
                                        schemes@[y],
                                    );
                                assert(false);
                            }
                        }
                    }
                } else {
                    proof {
                        assert(views[i as int] == rules@[i as int].view_entry());
                        assert(!(views[i as int].host is SelfHost));
                    }
                }
                i += 1;
            }
            proof {
                assert(!some_entry_allows_relative(views, schemes@)) by {
                    if some_entry_allows_relative(views, schemes@) {
                        let x = choose|x: int|
                            0 <= x < views.len() && entry_allows_relative(
                                #[trigger] views[x],
                                schemes@,
                            );
                        assert(false);
                    }
                }
            }
            false
        },
    }
}


// ---------------------------------------------------------------
// The outbound networking factor
// ---------------------------------------------------------------

/// The observer called when a request is disallowed by a component's
/// configured allowed hosts.  Embedders implement it; the library
/// hands them the recorded denial notifications.
pub trait DisallowedHostHandler {
    /// Called once per denied request with its scheme and authority.
    fn handle_disallowed_host(&mut self, scheme: &str, authority: &str);
}

/// The factor that gates outbound networking for every component.
pub struct OutboundNetworkingFactor<H> {
    disallowed_host_handler: Option<H>,
}

impl<H: DisallowedHostHandler> OutboundNetworkingFactor<H> {
    /// The installed observer, if any.
    pub closed spec fn spec_handler(self) -> Option<H> {
        self.disallowed_host_handler
    }

    /// Whether an observer has been installed.
    pub open spec fn handler_installed(self) -> bool {
        self.spec_handler() is Some
    }

    /// Creates the factor with no observer installed.
    pub fn new() -> (f: OutboundNetworkingFactor<H>)
        ensures
            f.spec_handler() is None,
    {
        OutboundNetworkingFactor { disallowed_host_handler: None }
    }

    /// Installs the observer called when a request is disallowed by
    /// an instance's configured allowed hosts; the embedder delivers
    /// the recorded denial notifications to it.
    pub fn set_disallowed_host_handler(&mut self, handler: H)
        ensures
            final(self).spec_handler() == Some(handler),
    {
        self.disallowed_host_handler = Some(handler);
    }

    /// Exclusively borrows the installed observer, if any.
    pub fn handler_mut(&mut self) -> (r: Option<&mut H>)
        ensures
            old(self).spec_handler() is None ==> r is None && *final(self) == *old(self),
            old(self).spec_handler() matches Some(h) ==> (r matches Some(p) && *p == h && final(self).spec_handler() == Some(*final(p))),
    {
        match &mut self.disallowed_host_handler {
            Some(h) => Some(h),
            None => None,
        }
    }

    /// Extracts each component's configured allowed-host templates
    /// from the application configuration.
    pub fn configure_app(&self, component_allowed_hosts: Vec<(String, Vec<Vec<u8>>)>) -> (s:
        AppState)
        requires
            crate::assoc::unique_keys(component_allowed_hosts@),
        ensures
            s.well_formed(),
            s.entries() == component_allowed_hosts@,
    {
        AppState { component_allowed_hosts }
    }

    /// Prepares the capability state of one component instance: the
    /// templates, nothing resolved yet.  Fails exactly when the
    /// component is unknown.
    pub fn prepare(&self, app_state: &AppState, component_id: &String) -> (r: Result<
        InstanceBuilder,
        Error,
    >)
        ensures
            assoc_lookup_hosts(app_state.entries(), component_id@) is None ==> (r matches Err(e)
                && e matches Error::BackendFailure(m) && m@ == "missing component allowed hosts"@),
            assoc_lookup_hosts(app_state.entries(), component_id@) matches Some(ts) ==> (r
                matches Ok(b) && b.gate_state().spec_templates().len() == ts@.len() && (forall|
                i: int,
            |
                0 <= i < ts@.len() ==> (#[trigger] b.gate_state().spec_templates()[i])@
                    == ts@[i]@) && b.gate_state().memo_state() is None
                && b.gate_state().spec_events() == Seq::<DeniedRequest>::empty()),
    {
        let found = crate::assoc::assoc_find(&app_state.component_allowed_hosts, component_id);
        proof {
            match found {
                Some(i) => crate::assoc::lemma_assoc_lookup_index(
                    app_state.component_allowed_hosts@,
                    component_id@,
                    i as int,
                ),
                None => crate::assoc::lemma_assoc_lookup_none(
                    app_state.component_allowed_hosts@,
                    component_id@,
                ),
            }
        }
        match found {
            None => Err(Error::BackendFailure("missing component allowed hosts".to_owned())),
            Some(i) => {
                let templates = copy_byte_lists(&app_state.component_allowed_hosts[i].1);
                Ok(InstanceBuilder { gate: OutboundAllowedHosts::new(templates) })
            },
        }
    }
}

/// The allowed-host templates bound to each component label.
pub open spec fn assoc_lookup_hosts(s: Seq<(String, Vec<Vec<u8>>)>, key: Seq<char>) -> Option<
    Vec<Vec<u8>>,
> {
    crate::assoc::assoc_lookup(s, key)
}

/// The per-application state of the networking factor: each
/// component's configured allowed-host templates.
pub struct AppState {
    component_allowed_hosts: Vec<(String, Vec<Vec<u8>>)>,
}

impl AppState {
    /// Component labels are pairwise distinct.
    pub closed spec fn well_formed(self) -> bool {
        crate::assoc::unique_keys(self.component_allowed_hosts@)
    }

    /// The component-to-templates bindings.
    pub closed spec fn entries(self) -> Seq<(String, Vec<Vec<u8>>)> {
        self.component_allowed_hosts@
    }
}

/// The per-instance state of the networking factor: the instance's
/// capability gate.
pub struct InstanceBuilder {
    gate: OutboundAllowedHosts,
}

impl InstanceBuilder {
    /// The instance's gate.
    pub closed spec fn gate_state(self) -> OutboundAllowedHosts {
        self.gate
    }

    /// Exclusively borrows the instance's gate; every borrower shares
    /// the same memoized resolution.
    pub fn allowed_hosts(&mut self) -> (r: &mut OutboundAllowedHosts)
        ensures
            *r == old(self).gate_state(),
            final(self).gate_state() == *final(r),
    {
        &mut self.gate
    }
}

/// Copies a list of byte strings.
fn copy_byte_lists(v: &Vec<Vec<u8>>) -> (r: Vec<Vec<u8>>)
    ensures
        r@.len() == v@.len(),
        forall|i: int| 0 <= i < v@.len() ==> (#[trigger] r@[i])@ == v@[i]@,
{
    let n = v.len();
    let mut out: Vec<Vec<u8>> = Vec::new();
    let mut i: usize = 0;
    while i < n
        invariant
            n == v@.len(),
            i <= n,
            out@.len() == i,
            forall|j: int| 0 <= j < i ==> (#[trigger] out@[j])@ == v@[j]@,
        decreases n - i,
    {
        out.push(bytes_copy(&v[i]));
        i += 1;
    }
    out
}


/// Resolution is memoized and idempotent: once one call has settled
/// the memo, every later call settles to exactly the same
/// outcome — the same resolved list or the same cached error — even
/// against a different variable set, because the resolver never runs
/// again.
pub proof fn lemma_resolution_memoized(
    g0: OutboundAllowedHosts,
    g1: OutboundAllowedHosts,
    g2: OutboundAllowedHosts,
    v1: VariableSet,
    v2: VariableSet,
)
    requires
        resolution_settled(g0, g1, v1),
        resolution_settled(g1, g2, v2),
    ensures
        g2.memo_state() == g1.memo_state(),
        g2.memo_state() is Some,
{
}

} // verus!
