//! The `Context` is the immutable input of one round: the device's own id,
//! its local sensor values, the per-neighbour sensor values, and the latest
//! export received from each neighbour (the device's own last export
//! included, which is what `rep` reads).

use crate::export::get_spec;
use crate::export::Export;
use crate::export::QueryError;
use crate::idmap::IdMap;
use crate::sensor_id::SensorId;
use crate::slot::Slot;
use crate::path::Path;
use crate::value::Val;
use crate::value::ValKind;
use vstd::prelude::*;

verus! {

/// The map of a sequence of sensor entries: later entries overwrite earlier
/// ones.
pub open spec fn sensor_entries_map<V>(s: Seq<(SensorId, V)>) -> Map<Seq<char>, V>
    decreases s.len(),
{
    if s.len() == 0 {
        Map::empty()
    } else {
        sensor_entries_map(s.drop_last()).insert(s.last().0@, s.last().1)
    }
}

proof fn lemma_sensor_entries_map<V>(s: Seq<(SensorId, V)>)
    ensures
        forall|k: Seq<char>|
            #[trigger] sensor_entries_map(s).contains_key(k) <==> exists|i: int|
                0 <= i < s.len() && s[i].0@ == k,
    decreases s.len(),
{
    if s.len() > 0 {
        lemma_sensor_entries_map(s.drop_last());
        assert forall|k: Seq<char>| #[trigger]
            sensor_entries_map(s).contains_key(k) implies exists|i: int|
            0 <= i < s.len() && s[i].0@ == k by {
            if s.last().0@ == k {
                assert(s[s.len() - 1].0@ == k);
            } else {
                assert(sensor_entries_map(s.drop_last()).contains_key(k));
                let i = choose|i: int| 0 <= i < s.drop_last().len() && s.drop_last()[i].0@ == k;
                assert(s.drop_last()[i] == s[i]);
                assert(s[i].0@ == k);
            }
        }
        assert forall|k: Seq<char>|
            (exists|i: int| 0 <= i < s.len() && s[i].0@ == k) implies #[trigger] sensor_entries_map(
            s,
        ).contains_key(k) by {
            let i = choose|i: int| 0 <= i < s.len() && s[i].0@ == k;
            if i < s.len() - 1 {
                assert(s.drop_last()[i] == s[i]);
                assert(exists|j: int|
                    0 <= j < s.drop_last().len() && s.drop_last()[j].0@ == k) by {
                    assert(s.drop_last()[i].0@ == k);
                }
                assert(sensor_entries_map(s.drop_last()).contains_key(k));
            } else {
                assert(s.last().0@ == k);
            }
        }
    }
}

/// The latest entry under a key is the one the map holds.
proof fn lemma_sensor_entries_last<V>(s: Seq<(SensorId, V)>, i: int)
    requires
        0 <= i < s.len(),
        forall|j: int| i < j < s.len() ==> s[j].0@ != s[i].0@,
    ensures
        sensor_entries_map(s).contains_key(s[i].0@),
        sensor_entries_map(s)[s[i].0@] == s[i].1,
    decreases s.len(),
{
    if i == s.len() - 1 {
    } else {
        assert(s.drop_last()[i] == s[i]);
        assert(forall|j: int|
            i < j < s.drop_last().len() ==> s.drop_last()[j] == s[j]);
        lemma_sensor_entries_last(s.drop_last(), i);
        assert(s.last().0@ != s[i].0@);
    }
}

/// A map from sensor ids to values. The view is the mapping, a later
/// entry for a sensor superseding an earlier one.
#[derive(Debug)]
pub struct SensorMap<V> {
    entries: Vec<(SensorId, V)>,
}

impl<V> View for SensorMap<V> {
    type V = Map<Seq<char>, V>;

    closed spec fn view(&self) -> Map<Seq<char>, V> {
        sensor_entries_map(self.entries@)
    }
}

impl<V> SensorMap<V> {
    /// A new, empty map.
    pub fn new() -> (r: Self)
        ensures
            r@ == Map::<Seq<char>, V>::empty(),
    {
        SensorMap { entries: Vec::new() }
    }

    /// Bind `id` to `v`, superseding any previous binding.
    pub fn insert(&mut self, id: SensorId, v: V)
        ensures
            final(self)@ == old(self)@.insert(id@, v),
    {
        let ghost gid = id@;
        self.entries.push((id, v));
        proof {
            assert(self.entries@.drop_last() =~= old(self).entries@);
        }
    }

    /// The value bound to `id`, if any.
    pub fn get(&self, id: &SensorId) -> (r: Option<&V>)
        ensures
            match r {
                Some(v) => self@.contains_key(id@) && *v == self@[id@],
                None => !self@.contains_key(id@),
            },
    {
        proof {
            lemma_sensor_entries_map(self.entries@);
        }
        let n = self.entries.len();
        let mut i: usize = n;
        while i > 0
            invariant
                0 <= i <= n,
                n == self.entries@.len(),
                forall|j: int| i <= j < n ==> self.entries@[j].0@ != id@,
            decreases i,
        {
            if self.entries[i - 1].0.matches(id) {
                proof {
                    lemma_sensor_entries_last(self.entries@, i - 1);
                }
                return Some(&self.entries[i - 1].1);
            }
            i -= 1;
        }
        None
    }

    /// How many entries the map holds.
    pub fn len(&self) -> (r: usize)
        ensures
            r >= self@.dom().len(),
            self@ == Map::<Seq<char>, V>::empty() <==> r == 0,
    {
        proof {
            lemma_sensor_len(self.entries@);
        }
        self.entries.len()
    }
}

proof fn lemma_sensor_len<V>(s: Seq<(SensorId, V)>)
    ensures
        sensor_entries_map(s).dom().finite(),
        sensor_entries_map(s).dom().len() <= s.len(),
        s.len() == 0 <==> sensor_entries_map(s) == Map::<Seq<char>, V>::empty(),
    decreases s.len(),
{
    if s.len() > 0 {
        lemma_sensor_len(s.drop_last());
        assert(sensor_entries_map(s).contains_key(s.last().0@));
        assert(sensor_entries_map(s) != Map::<Seq<char>, V>::empty()) by {
            assert(!Map::<Seq<char>, V>::empty().contains_key(s.last().0@));
        }
        vstd::set_lib::lemma_len_subset(
            sensor_entries_map(s.drop_last()).dom(),
            sensor_entries_map(s).dom(),
        );
    } else {
        assert(sensor_entries_map(s) =~= Map::<Seq<char>, V>::empty());
    }
}

impl<V: Clone> Clone for SensorMap<V> {
    /// A clone binds the same sensors, each to a clone of its value.
    fn clone(&self) -> (res: Self)
        ensures
            res@.dom() == self@.dom(),
            forall|k: Seq<char>|
                self@.contains_key(k) ==> vstd::pervasive::cloned::<V>(
                    self@[k],
                    #[trigger] res@[k],
                ),
    {
        let n = self.entries.len();
        let mut entries: Vec<(SensorId, V)> = Vec::new();
        let mut i: usize = 0;
        while i < n
            invariant
                0 <= i <= n,
                n == self.entries@.len(),
                entries@.len() == i,
                forall|j: int|
                    0 <= j < i ==> #[trigger] entries@[j].0@ == self.entries@[j].0@
                        && vstd::pervasive::cloned::<V>(self.entries@[j].1, entries@[j].1),
            decreases n - i,
        {
            let id = self.entries[i].0.clone();
            let v = self.entries[i].1.clone();
            entries.push((id, v));
            i += 1;
        }
        let res = SensorMap { entries };
        proof {
            lemma_sensor_entries_map(res.entries@);
            lemma_sensor_entries_map(self.entries@);
            assert forall|k: Seq<char>| res@.contains_key(k) implies self@.contains_key(k) by {
                let j = choose|j: int| 0 <= j < res.entries@.len() && res.entries@[j].0@ == k;
                assert(self.entries@[j].0@ == k);
            }
            assert forall|k: Seq<char>| self@.contains_key(k) implies res@.contains_key(k) by {
                let j = choose|j: int| 0 <= j < self.entries@.len() && self.entries@[j].0@ == k;
                assert(res.entries@[j].0@ == k);
            }
            assert(res@.dom() =~= self@.dom());
            assert forall|k: Seq<char>| self@.contains_key(k) implies vstd::pervasive::cloned::<
                V,
            >(self@[k], #[trigger] res@[k]) by {
                lemma_sensor_cloned(self.entries@, res.entries@, k);
            }
        }
        res
    }
}

proof fn lemma_sensor_cloned<V: Clone>(a: Seq<(SensorId, V)>, b: Seq<(SensorId, V)>, k: Seq<char>)
    requires
        a.len() == b.len(),
        forall|j: int|
            0 <= j < a.len() ==> #[trigger] a[j].0@ == b[j].0@ && vstd::pervasive::cloned::<V>(
                a[j].1,
                b[j].1,
            ),
        sensor_entries_map(a).contains_key(k),
    ensures
        sensor_entries_map(b).contains_key(k),
        vstd::pervasive::cloned::<V>(sensor_entries_map(a)[k], sensor_entries_map(b)[k]),
    decreases a.len(),
{
    if a.len() > 0 {
        if a.last().0@ == k {
        } else {
            assert(forall|j: int|
                0 <= j < a.len() - 1 ==> a.drop_last()[j] == a[j] && b.drop_last()[j] == b[j]);
            lemma_sensor_cloned(a.drop_last(), b.drop_last(), k);
            assert(b.last().0@ != k);
        }
    }
}

/// The per-neighbour sensor values: for each sensor, a value per neighbour.
pub type NbrSensors = SensorMap<IdMap<Val>>;

/// The immutable input of one round.
#[derive(Debug)]
pub struct Context {
    self_id: i32,
    local_sensor: SensorMap<Val>,
    nbr_sensor: SensorMap<IdMap<Val>>,
    exports: IdMap<Export>,
}

/// What reading device `id`'s export at `path` in domain `kind` yields:
/// the coerced entry, or why there is none.
pub open spec fn read_export_spec(
    exports: Map<int, Export>,
    id: int,
    path: Seq<Slot>,
    kind: ValKind,
) -> Result<Val, QueryError> {
    if exports.contains_key(id) {
        get_spec(exports[id]@, path, kind)
    } else {
        Err(QueryError::ExportNotFound)
    }
}

impl Context {
    /// The device's own id.
    pub closed spec fn spec_self_id(&self) -> i32 {
        self.self_id
    }

    /// The neighbour exports the context holds.
    pub closed spec fn spec_exports(&self) -> IdMap<Export> {
        self.exports
    }

    /// The local sensor values.
    pub closed spec fn spec_local(&self) -> SensorMap<Val> {
        self.local_sensor
    }

    /// The per-neighbour sensor values.
    pub closed spec fn spec_nbr(&self) -> SensorMap<IdMap<Val>> {
        self.nbr_sensor
    }

    /// A context for device `self_id` with the given sensor values and
    /// neighbour exports.
    pub fn new(
        self_id: i32,
        local_sensor: SensorMap<Val>,
        nbr_sensor: SensorMap<IdMap<Val>>,
        exports: IdMap<Export>,
    ) -> (r: Self)
        ensures
            r.spec_self_id() == self_id,
            r.spec_local() == local_sensor,
            r.spec_nbr() == nbr_sensor,
            r.spec_exports() == exports,
    {
        Context { self_id, local_sensor, nbr_sensor, exports }
    }

    /// The device's own id.
    pub fn self_id(&self) -> (r: i32)
        ensures
            r == self.spec_self_id(),
    {
        self.self_id
    }

    /// The neighbour exports the context holds.
    pub fn exports(&self) -> (r: &IdMap<Export>)
        ensures
            *r == self.spec_exports(),
    {
        &self.exports
    }

    /// Add (or replace) the export of device `id`.
    pub fn put_export(&mut self, id: i32, data: Export)
        ensures
            final(self).spec_exports()@ == old(self).spec_exports()@.insert(id as int, data),
            final(self).spec_self_id() == old(self).spec_self_id(),
            final(self).spec_local() == old(self).spec_local(),
            final(self).spec_nbr() == old(self).spec_nbr(),
    {
        self.exports.insert(id, data);
    }

    /// Read the entry at `path` of device `id`'s export, in domain `kind`.
    pub fn read_export_value(&self, id: i32, path: &Path, kind: ValKind) -> (r: Result<
        Val,
        QueryError,
    >)
        ensures
            r == read_export_spec(self.spec_exports()@, id as int, path@, kind),
    {
        match self.exports.get(id) {
            Some(export) => export.get(path, kind),
            None => Err(QueryError::ExportNotFound),
        }
    }

    /// The local sensor values.
    pub fn local_sensors(&self) -> (r: &SensorMap<Val>)
        ensures
            *r == self.spec_local(),
    {
        &self.local_sensor
    }

    /// The value of the local sensor `local_sensor_id`, if any.
    pub fn local_sense(&self, local_sensor_id: &SensorId) -> (r: Option<&Val>)
        ensures
            match r {
                Some(v) => self.spec_local()@.contains_key(local_sensor_id@) && *v
                    == self.spec_local()@[local_sensor_id@],
                None => !self.spec_local()@.contains_key(local_sensor_id@),
            },
    {
        self.local_sensor.get(local_sensor_id)
    }

    /// The per-neighbour sensor values.
    pub fn nbr_sensors(&self) -> (r: &SensorMap<IdMap<Val>>)
        ensures
            *r == self.spec_nbr(),
    {
        &self.nbr_sensor
    }

    /// The value of sensor `sensor_id` for neighbour `nbr_id`, if any.
    pub fn nbr_sense(&self, sensor_id: &SensorId, nbr_id: i32) -> (r: Option<&Val>)
        ensures
            match r {
                Some(v) => self.spec_nbr()@.contains_key(sensor_id@)
                    && self.spec_nbr()@[sensor_id@]@.contains_key(nbr_id as int) && *v
                    == self.spec_nbr()@[sensor_id@]@[nbr_id as int],
                None => !self.spec_nbr()@.contains_key(sensor_id@) || !self.spec_nbr()@[sensor_id@]@.contains_key(
                    nbr_id as int,
                ),
            },
    {
        match self.nbr_sensor.get(sensor_id) {
            Some(m) => m.get(nbr_id),
            None => None,
        }
    }
}

impl Clone for Context {
    /// A clone is for the same device and binds the same sensors and
    /// exports, each value a clone.
    fn clone(&self) -> (res: Self)
        ensures
            res.spec_self_id() == self.spec_self_id(),
            res.spec_local()@.dom() == self.spec_local()@.dom(),
            res.spec_nbr()@.dom() == self.spec_nbr()@.dom(),
            res.spec_exports()@.dom() == self.spec_exports()@.dom(),
            forall|k: int|
                self.spec_exports()@.contains_key(k) ==> vstd::pervasive::cloned::<Export>(
                    self.spec_exports()@[k],
                    #[trigger] res.spec_exports()@[k],
                ),
    {
        Context {
            self_id: self.self_id,
            local_sensor: self.local_sensor.clone(),
            nbr_sensor: self.nbr_sensor.clone(),
            exports: self.exports.clone(),
        }
    }
}

} // verus!
