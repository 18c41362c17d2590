//! The `Export` is the path-indexed record of one round: every aggregate
//! operator that fires writes exactly one entry at its alignment path, and
//! the root path carries the program's top-level result. Neighbours read a
//! device's last export at the paths where they align with it.

use crate::path::Path;
use crate::slot::Slot;
use crate::text::parse_bool_spec;
use crate::text::parse_i32_spec;
use crate::text::parse_bool;
use crate::text::parse_i32;
use crate::value::kind_of;
use crate::value::val_eq;
use crate::value::Val;
use crate::value::ValKind;
use vstd::prelude::*;

verus! {

/// Why a read of an export or a context yielded no value.
#[derive(Debug, Clone, Copy, PartialEq, Eq, Structural)]
pub enum QueryError {
    /// No entry at the path, or an entry of another domain.
    NoValue,
    /// A string entry that does not parse into the requested domain.
    CannotParse,
    /// The context holds no export for the device.
    ExportNotFound,
    /// A neighbour read outside folding.
    NotFolding,
}

/// The map of a sequence of entries: later entries overwrite earlier ones.
pub open spec fn entries_map(s: Seq<(Path, Val)>) -> Map<Seq<Slot>, Val>
    decreases s.len(),
{
    if s.len() == 0 {
        Map::empty()
    } else {
        entries_map(s.drop_last()).insert(s.last().0@, s.last().1)
    }
}

/// Reading a stored value in a requested domain: a value of that domain is
/// returned as it is; a string is parsed into the requested domain; anything
/// else is no value.
pub open spec fn coerce_spec(v: Val, k: ValKind) -> Result<Val, QueryError> {
    if kind_of(v) == k {
        Ok(v)
    } else {
        match v {
            Val::Str(s) => match k {
                ValKind::Int => match parse_i32_spec(s@) {
                    Some(i) => Ok(Val::Int(i)),
                    None => Err(QueryError::CannotParse),
                },
                ValKind::Bool => match parse_bool_spec(s@) {
                    Some(b) => Ok(Val::Bool(b)),
                    None => Err(QueryError::CannotParse),
                },
                _ => Err(QueryError::CannotParse),
            },
            _ => Err(QueryError::NoValue),
        }
    }
}

/// What a read of `path` in domain `kind` yields on an export with map `m`.
pub open spec fn get_spec(m: Map<Seq<Slot>, Val>, path: Seq<Slot>, kind: ValKind) -> Result<
    Val,
    QueryError,
> {
    if m.contains_key(path) {
        coerce_spec(m[path], kind)
    } else {
        Err(QueryError::NoValue)
    }
}

/// How one entry of export `a` compares against export `b`: in the first of
/// the primitive domains in which `a`'s entry reads back, `b`'s entry must
/// read back equal; an entry readable in no primitive domain compares
/// unequal.
pub open spec fn entry_eq_spec(
    a: Map<Seq<Slot>, Val>,
    b: Map<Seq<Slot>, Val>,
    k: Seq<Slot>,
) -> bool {
    if get_spec(a, k, ValKind::Int) is Ok {
        get_spec(b, k, ValKind::Int) is Ok && val_eq(
            get_spec(a, k, ValKind::Int)->Ok_0,
            get_spec(b, k, ValKind::Int)->Ok_0,
        )
    } else if get_spec(a, k, ValKind::Bool) is Ok {
        get_spec(b, k, ValKind::Bool) is Ok && val_eq(
            get_spec(a, k, ValKind::Bool)->Ok_0,
            get_spec(b, k, ValKind::Bool)->Ok_0,
        )
    } else if get_spec(a, k, ValKind::Str) is Ok {
        get_spec(b, k, ValKind::Str) is Ok && val_eq(
            get_spec(a, k, ValKind::Str)->Ok_0,
            get_spec(b, k, ValKind::Str)->Ok_0,
        )
    } else if get_spec(a, k, ValKind::Real) is Ok {
        get_spec(b, k, ValKind::Real) is Ok && val_eq(
            get_spec(a, k, ValKind::Real)->Ok_0,
            get_spec(b, k, ValKind::Real)->Ok_0,
        )
    } else {
        false
    }
}

/// Equality of two exports: equally many paths, and at every path of the
/// first, entries that read back equal in a primitive domain.
pub open spec fn export_eq_spec(a: Map<Seq<Slot>, Val>, b: Map<Seq<Slot>, Val>) -> bool {
    a.dom().len() == b.dom().len() && (forall|k: Seq<Slot>|
        a.contains_key(k) ==> entry_eq_spec(a, b, k))
}

/// The result of one round's local computation: a mapping from alignment
/// paths to values. The view is that mapping.
#[derive(Debug)]
pub struct Export {
    entries: Vec<(Path, Val)>,
}

impl View for Export {
    type V = Map<Seq<Slot>, Val>;

    closed spec fn view(&self) -> Map<Seq<Slot>, Val> {
        entries_map(self.entries@)
    }
}

/// Entry sequences without two entries at one path.
pub open spec fn distinct_paths(s: Seq<(Path, Val)>) -> bool {
    forall|i: int, j: int| 0 <= i < j < s.len() ==> s[i].0@ != s[j].0@
}

proof fn lemma_entries_map(s: Seq<(Path, Val)>)
    ensures
        forall|k: Seq<Slot>|
            #[trigger] entries_map(s).contains_key(k) <==> exists|i: int|
                0 <= i < s.len() && s[i].0@ == k,
    decreases s.len(),
{
    if s.len() > 0 {
        lemma_entries_map(s.drop_last());
        assert forall|k: Seq<Slot>| #[trigger]
            entries_map(s).contains_key(k) implies exists|i: int|
            0 <= i < s.len() && s[i].0@ == k by {
            if s.last().0@ == k {
                assert(s[s.len() - 1].0@ == k);
            } else {
                assert(entries_map(s.drop_last()).contains_key(k));
                let i = choose|i: int| 0 <= i < s.drop_last().len() && s.drop_last()[i].0@ == k;
                assert(s.drop_last()[i] == s[i]);
                assert(s[i].0@ == k);
            }
        }
        assert forall|k: Seq<Slot>|
            (exists|i: int| 0 <= i < s.len() && s[i].0@ == k) implies #[trigger] entries_map(
            s,
        ).contains_key(k) by {
            let i = choose|i: int| 0 <= i < s.len() && s[i].0@ == k;
            if i < s.len() - 1 {
                assert(s.drop_last()[i] == s[i]);
                assert(exists|j: int|
                    0 <= j < s.drop_last().len() && s.drop_last()[j].0@ == k) by {
                    assert(s.drop_last()[i].0@ == k);
                }
                assert(entries_map(s.drop_last()).contains_key(k));
            } else {
                assert(s.last().0@ == k);
            }
        }
    }
}

proof fn lemma_entries_map_at(s: Seq<(Path, Val)>, i: int)
    requires
        distinct_paths(s),
        0 <= i < s.len(),
    ensures
        entries_map(s).contains_key(s[i].0@),
        entries_map(s)[s[i].0@] == s[i].1,
    decreases s.len(),
{
    lemma_entries_map(s);
    if i == s.len() - 1 {
    } else {
        assert(distinct_paths(s.drop_last())) by {
            assert(forall|x: int, y: int|
                0 <= x < y < s.len() - 1 ==> s.drop_last()[x] == s[x] && s.drop_last()[y] == s[y]);
        }
        lemma_entries_map_at(s.drop_last(), i);
        assert(s.drop_last()[i] == s[i]);
        assert(s[i].0@ != s.last().0@);
    }
}

proof fn lemma_entries_map_len(s: Seq<(Path, Val)>)
    requires
        distinct_paths(s),
    ensures
        entries_map(s).dom().finite(),
        entries_map(s).dom().len() == s.len(),
    decreases s.len(),
{
    if s.len() == 0 {
    } else {
        assert(distinct_paths(s.drop_last())) by {
            assert(forall|x: int, y: int|
                0 <= x < y < s.len() - 1 ==> s.drop_last()[x] == s[x] && s.drop_last()[y] == s[y]);
        }
        lemma_entries_map_len(s.drop_last());
        lemma_entries_map(s.drop_last());
        assert(!entries_map(s.drop_last()).contains_key(s.last().0@)) by {
            if entries_map(s.drop_last()).contains_key(s.last().0@) {
                let i = choose|i: int|
                    0 <= i < s.len() - 1 && s.drop_last()[i].0@ == s.last().0@;
                assert(s[i].0@ == s[s.len() - 1].0@);
            }
        }
    }
}

/// Reading a value in a requested domain, as `get_spec` coerces.
fn coerce(v: &Val, kind: ValKind) -> (r: Result<Val, QueryError>)
    ensures
        r == coerce_spec(*v, kind),
{
    if v.kind() == kind {
        Ok(v.clone())
    } else {
        match v {
            Val::Str(s) => match kind {
                ValKind::Int => match parse_i32(s.as_str()) {
                    Some(i) => Ok(Val::Int(i)),
                    None => Err(QueryError::CannotParse),
                },
                ValKind::Bool => match parse_bool(s.as_str()) {
                    Some(b) => Ok(Val::Bool(b)),
                    None => Err(QueryError::CannotParse),
                },
                _ => Err(QueryError::CannotParse),
            },
            _ => Err(QueryError::NoValue),
        }
    }
}

impl Export {
    #[verifier::type_invariant]
    closed spec fn wf(self) -> bool {
        distinct_paths(self.entries@)
    }

    /// A new, empty export.
    pub fn new() -> (r: Self)
        ensures
            r@ == Map::<Seq<Slot>, Val>::empty(),
    {
        Export { entries: Vec::new() }
    }

    /// The position of `path` among the entries, if present.
    fn position(&self, path: &Path) -> (r: Option<usize>)
        ensures
            match r {
                Some(i) => i < self.entries@.len() && self.entries@[i as int].0@ == path@,
                None => forall|i: int| 0 <= i < self.entries@.len() ==> self.entries@[i].0@ != path@,
            },
    {
        let n = self.entries.len();
        let mut i: usize = 0;
        while i < n
            invariant
                0 <= i <= n,
                n == self.entries@.len(),
                forall|j: int| 0 <= j < i ==> self.entries@[j].0@ != path@,
            decreases n - i,
        {
            if self.entries[i].0.matches(path) {
                return Some(i);
            }
            i += 1;
        }
        None
    }

    /// Record `value` at `path`, overwriting any previous entry there.
    pub fn put(&mut self, path: Path, value: Val)
        ensures
            final(self)@ == old(self)@.insert(path@, value),
    {
        proof {
            use_type_invariant(&*self);
        }
        let ghost pv = path@;
        let ghost before = self.entries@;
        let pos = self.position(&path);
        let mut es: Vec<(Path, Val)> = Vec::new();
        core::mem::swap(&mut es, &mut self.entries);
        match pos {
            Some(i) => {
                let _ = es.remove(i);
                proof {
                    lemma_remove_others(before, i as int);
                }
                es.push((path, value));
                core::mem::swap(&mut es, &mut self.entries);
                proof {
                    let mid = before.remove(i as int);
                    let after = self.entries@;
                    assert(after.drop_last() =~= mid);
                    assert(distinct_paths(after)) by {
                        assert forall|x: int| 0 <= x < mid.len() implies mid[x].0@ != pv by {
                            if x < i {
                                assert(mid[x] == before[x]);
                            } else {
                                assert(mid[x] == before[x + 1]);
                            }
                            assert(before[i as int].0@ == pv);
                        }
                        assert(forall|x: int, y: int|
                            0 <= x < y < after.len() - 1 ==> after[x] == mid[x] && after[y]
                                == mid[y]);
                    }
                    assert(entries_map(after) =~= entries_map(before).insert(pv, value)) by {
                        lemma_entries_map(mid);
                        lemma_entries_map(before);
                        assert(entries_map(after) == entries_map(mid).insert(pv, value));
                        assert forall|k: Seq<Slot>|
                            entries_map(mid).insert(pv, value).contains_key(k)
                                <==> entries_map(before).insert(pv, value).contains_key(k) by {
                            if k != pv {
                                lemma_remove_others(before, i as int);
                            }
                        }
                        assert forall|k: Seq<Slot>|
                            k != pv && entries_map(before).insert(pv, value).contains_key(
                                k,
                            ) implies entries_map(mid).insert(pv, value)[k] == entries_map(
                            before,
                        ).insert(pv, value)[k] by {
                            lemma_remove_others(before, i as int);
                        }
                    }
                }
            },
            None => {
                es.push((path, value));
                core::mem::swap(&mut es, &mut self.entries);
                proof {
                    let after = self.entries@;
                    assert(after.drop_last() =~= before);
                    assert(distinct_paths(after)) by {
                        assert(forall|x: int, y: int|
                            0 <= x < y < after.len() - 1 ==> after[x] == before[x] && after[y]
                                == before[y]);
                        assert(forall|x: int| 0 <= x < before.len() ==> after[x] == before[x]);
                    }
                    assert(entries_map(after) =~= entries_map(before).insert(pv, value));
                }
            },
        }
    }

    /// Record at `path` the value the function computes.
    pub fn put_lazy<F: FnOnce() -> Val>(&mut self, path: Path, fun: F)
        requires
            call_requires(fun, ()),
        ensures
            exists|v: Val|
                #[trigger] call_ensures(fun, (), v) && final(self)@ == old(self)@.insert(path@, v),
    {
        let value = fun();
        self.put(path, value);
    }

    /// Record at `path` the value the function computes, and return it.
    pub fn put_lazy_and_return<F: FnOnce() -> Val>(&mut self, path: Path, fun: F) -> (r: Val)
        requires
            call_requires(fun, ()),
        ensures
            call_ensures(fun, (), r),
            final(self)@ == old(self)@.insert(path@, r),
    {
        let value = fun();
        let copy = value.clone();
        self.put(path, value);
        copy
    }

    /// The value at `path`, read in the domain `kind`.
    pub fn get(&self, path: &Path, kind: ValKind) -> (r: Result<Val, QueryError>)
        ensures
            r == get_spec(self@, path@, kind),
    {
        proof {
            use_type_invariant(&*self);
            lemma_entries_map(self.entries@);
        }
        match self.position(path) {
            Some(i) => {
                proof {
                    lemma_entries_map_at(self.entries@, i as int);
                }
                coerce(&self.entries[i].1, kind)
            },
            None => Err(QueryError::NoValue),
        }
    }

    /// The root value, read in the domain `kind`. The read must succeed; the
    /// non-panicking form is `root_as_result`.
    pub fn root(&self, kind: ValKind) -> (r: Val)
        requires
            get_spec(self@, Seq::empty(), kind) is Ok,
        ensures
            Ok::<Val, QueryError>(r) == get_spec(self@, Seq::empty(), kind),
    {
        self.get(&Path::new(), kind).unwrap()
    }

    /// The root value, read in the domain `kind`, or why there is none.
    pub fn root_as_result(&self, kind: ValKind) -> (r: Result<Val, QueryError>)
        ensures
            r == get_spec(self@, Seq::empty(), kind),
    {
        self.get(&Path::new(), kind)
    }

    /// The paths at which the export holds an entry.
    pub fn paths(&self) -> (r: Vec<Path>)
        ensures
            r@.len() == self@.dom().len(),
            forall|i: int| 0 <= i < r@.len() ==> self@.contains_key(#[trigger] r@[i]@),
            forall|k: Seq<Slot>| self@.contains_key(k) ==> exists|i: int|
                0 <= i < r@.len() && #[trigger] r@[i]@ == k,
    {
        proof {
            use_type_invariant(&*self);
            lemma_entries_map(self.entries@);
            lemma_entries_map_len(self.entries@);
        }
        let n = self.entries.len();
        let mut r: Vec<Path> = Vec::new();
        let mut i: usize = 0;
        while i < n
            invariant
                0 <= i <= n,
                n == self.entries@.len(),
                r@.len() == i,
                forall|j: int| 0 <= j < i ==> #[trigger] r@[j]@ == self.entries@[j].0@,
            decreases n - i,
        {
            r.push(self.entries[i].0.clone());
            i += 1;
        }
        proof {
            assert forall|k: Seq<Slot>| self@.contains_key(k) implies exists|j: int|
                0 <= j < r@.len() && #[trigger] r@[j]@ == k by {
                let j = choose|j: int| 0 <= j < self.entries@.len() && self.entries@[j].0@ == k;
                assert(r@[j]@ == k);
            }
            assert forall|j: int| 0 <= j < r@.len() implies self@.contains_key(
                #[trigger] r@[j]@,
            ) by {
                assert(self.entries@[j].0@ == r@[j]@);
            }
        }
        r
    }
}

/// Removing one entry keeps the entries distinct and leaves the map
/// unchanged at every other path.
proof fn lemma_remove_others(s: Seq<(Path, Val)>, i: int)
    requires
        distinct_paths(s),
        0 <= i < s.len(),
    ensures
        distinct_paths(s.remove(i)),
        forall|k: Seq<Slot>|
            k != s[i].0@ ==> (#[trigger] entries_map(s.remove(i)).contains_key(k) <==> entries_map(
                s,
            ).contains_key(k)),
        forall|k: Seq<Slot>|
            k != s[i].0@ && #[trigger] entries_map(s).contains_key(k) ==> entries_map(s.remove(i))[k]
                == entries_map(s)[k],
{
    let m = s.remove(i);
    assert forall|x: int, y: int| 0 <= x < y < m.len() implies m[x].0@ != m[y].0@ by {
        assert(m[x] == if x < i { s[x] } else { s[x + 1] });
        assert(m[y] == if y < i { s[y] } else { s[y + 1] });
    }
    lemma_entries_map(s);
    lemma_entries_map(m);
    assert forall|k: Seq<Slot>|
        k != s[i].0@ implies (#[trigger] entries_map(m).contains_key(k) <==> entries_map(
        s,
    ).contains_key(k)) by {
        if entries_map(m).contains_key(k) {
            let j = choose|j: int| 0 <= j < m.len() && m[j].0@ == k;
            assert(m[j] == if j < i { s[j] } else { s[j + 1] });
        }
        if entries_map(s).contains_key(k) {
            let j = choose|j: int| 0 <= j < s.len() && s[j].0@ == k;
            assert(j != i);
            if j < i {
                assert(m[j] == s[j]);
            } else {
                assert(m[j - 1] == s[j]);
            }
        }
    }
    assert forall|k: Seq<Slot>|
        k != s[i].0@ && #[trigger] entries_map(s).contains_key(k) implies entries_map(m)[k]
        == entries_map(s)[k] by {
        let j = choose|j: int| 0 <= j < s.len() && s[j].0@ == k;
        lemma_entries_map_at(s, j);
        if j < i {
            assert(m[j] == s[j]);
            lemma_entries_map_at(m, j);
        } else {
            assert(m[j - 1] == s[j]);
            lemma_entries_map_at(m, j - 1);
        }
    }
}

impl Clone for Export {
    /// A clone reads the same at every path.
    fn clone(&self) -> (res: Self)
        ensures
            res@ == self@,
    {
        proof {
            use_type_invariant(&*self);
        }
        let n = self.entries.len();
        let mut entries: Vec<(Path, Val)> = Vec::new();
        let mut i: usize = 0;
        while i < n
            invariant
                0 <= i <= n,
                n == self.entries@.len(),
                entries@.len() == i,
                forall|j: int|
                    0 <= j < i ==> #[trigger] entries@[j].0@ == self.entries@[j].0@
                        && entries@[j].1 == self.entries@[j].1,
            decreases n - i,
        {
            entries.push((self.entries[i].0.clone(), self.entries[i].1.clone()));
            i += 1;
        }
        proof {
            assert(distinct_paths(entries@));
            lemma_same_entries_seq(entries@, self.entries@);
        }
        Export { entries }
    }
}

/// Entry sequences pairwise equal as (path view, value) have equal maps.
proof fn lemma_same_entries_seq(a: Seq<(Path, Val)>, b: Seq<(Path, Val)>)
    requires
        a.len() == b.len(),
        forall|j: int| 0 <= j < a.len() ==> #[trigger] a[j].0@ == b[j].0@ && a[j].1 == b[j].1,
    ensures
        entries_map(a) =~= entries_map(b),
    decreases a.len(),
{
    if a.len() > 0 {
        let sa = a.drop_last();
        let sb = b.drop_last();
        assert(forall|j: int| 0 <= j < sa.len() ==> #[trigger] sa[j] == a[j] && sb[j] == b[j]);
        lemma_same_entries_seq(sa, sb);
    }
}

impl Default for Export {
    /// The default export is empty.
    fn default() -> (r: Self)
        ensures
            r@ == Map::<Seq<Slot>, Val>::empty(),
    {
        Export::new()
    }
}

impl PartialEq for Export {
    fn eq(&self, other: &Self) -> (r: bool) {
        proof {
            use_type_invariant(&*self);
            use_type_invariant(&*other);
            lemma_entries_map(self.entries@);
            lemma_entries_map(other.entries@);
            lemma_entries_map_len(self.entries@);
            lemma_entries_map_len(other.entries@);
        }
        if self.entries.len() != other.entries.len() {
            return false;
        }
        let n = self.entries.len();
        let mut i: usize = 0;
        while i < n
            invariant
                0 <= i <= n,
                n == self.entries@.len(),
                distinct_paths(self.entries@),
                self@ == entries_map(self.entries@),
                other@ == entries_map(other.entries@),
                forall|j: int| 0 <= j < i ==> entry_eq_spec(self@, other@, #[trigger] self.entries@[j].0@),
            decreases n - i,
        {
            proof {
                lemma_entries_map_at(self.entries@, i as int);
            }
            let p = &self.entries[i].0;
            let v = &self.entries[i].1;
            let ok = if let Ok(a) = coerce(v, ValKind::Int) {
                if let Ok(b) = other.get(p, ValKind::Int) {
                    a == b
                } else {
                    false
                }
            } else if let Ok(a) = coerce(v, ValKind::Bool) {
                if let Ok(b) = other.get(p, ValKind::Bool) {
                    a == b
                } else {
                    false
                }
            } else if let Ok(a) = coerce(v, ValKind::Str) {
                if let Ok(b) = other.get(p, ValKind::Str) {
                    a == b
                } else {
                    false
                }
            } else if let Ok(a) = coerce(v, ValKind::Real) {
                if let Ok(b) = other.get(p, ValKind::Real) {
                    a == b
                } else {
                    false
                }
            } else {
                false
            };
            if !ok {
                return false;
            }
            i += 1;
        }
        proof {
            assert forall|k: Seq<Slot>| self@.contains_key(k) implies entry_eq_spec(
                self@,
                other@,
                k,
            ) by {
                let j = choose|j: int| 0 <= j < self.entries@.len() && self.entries@[j].0@ == k;
            }
        }
        true
    }
}

impl vstd::std_specs::cmp::PartialEqSpecImpl for Export {
    open spec fn obeys_eq_spec() -> bool {
        true
    }

    open spec fn eq_spec(&self, other: &Self) -> bool {
        export_eq_spec(self@, other@)
    }
}

} // verus!
