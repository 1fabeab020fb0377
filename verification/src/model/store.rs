//! `ObjectStore`: an id-indexed collection for resolving references.

use vstd::prelude::*;

use crate::model::bundle::Bundle;
use crate::model::object::{object_id, SpecObject, StixObject};
use crate::model::view::ObjectView;
use crate::text::str_eq;

verus! {

/// The mathematical form of a list of objects.
pub open spec fn objects_view(objects: Seq<StixObject>) -> Seq<SpecObject> {
    objects.map_values(|o: StixObject| o@)
}

/// The object a store built from `objects` holds under `id`: the last object
/// of the list with that id.
pub open spec fn last_with_id(objects: Seq<SpecObject>, id: Seq<char>) -> Option<SpecObject>
    decreases objects.len(),
{
    if objects.len() == 0 {
        None
    } else if object_id(objects.last()) == Some(id) {
        Some(objects.last())
    } else {
        last_with_id(objects.drop_last(), id)
    }
}

/// The first position at or after `i` of an entry with key `k`.
pub open spec fn entry_slot(entries: Seq<(Seq<char>, SpecObject)>, k: Seq<char>, i: int) -> Option<int>
    decreases entries.len() - i,
{
    if i < 0 || i >= entries.len() {
        None
    } else if entries[i].0 == k {
        Some(i)
    } else {
        entry_slot(entries, k, i + 1)
    }
}

/// The entries of a store built from `objects`: in order of first occurrence
/// of each id, each with the last object that has that id.
pub open spec fn store_entries(objects: Seq<SpecObject>) -> Seq<(Seq<char>, SpecObject)>
    decreases objects.len(),
{
    if objects.len() == 0 {
        Seq::empty()
    } else {
        let prev = store_entries(objects.drop_last());
        match object_id(objects.last()) {
            None => prev,
            Some(k) => match entry_slot(prev, k, 0) {
                Some(j) => prev.update(j, (k, objects.last())),
                None => prev.push((k, objects.last())),
            },
        }
    }
}

/// The object stored under `id` in a list of `(id, object)` entries.
pub open spec fn store_lookup(entries: Seq<(Seq<char>, SpecObject)>, id: Seq<char>) -> Option<SpecObject>
    decreases entries.len(),
{
    if entries.len() == 0 {
        None
    } else if entries[0].0 == id {
        Some(entries[0].1)
    } else {
        store_lookup(entries.drop_first(), id)
    }
}

/// Whether no id occurs twice among the entries.
pub open spec fn ids_distinct(entries: Seq<(Seq<char>, SpecObject)>) -> bool {
    forall|a: int, b: int| 0 <= a < b < entries.len() ==> (#[trigger] entries[a]).0 != (#[trigger] entries[b]).0
}

/// Whether some object of the list has the id.
pub open spec fn has_id(objects: Seq<SpecObject>, id: Seq<char>) -> bool {
    exists|i: int| 0 <= i < objects.len() && object_id(#[trigger] objects[i]) == Some(id)
}

/// Whether some entry has the id.
pub open spec fn stores_id(entries: Seq<(Seq<char>, SpecObject)>, id: Seq<char>) -> bool {
    exists|i: int| 0 <= i < entries.len() && (#[trigger] entries[i]).0 == id
}

/// The ids of a list of objects, as a set.
pub open spec fn id_set(objects: Seq<SpecObject>) -> Set<Seq<char>> {
    Set::new(|id: Seq<char>| has_id(objects, id))
}

/// Entries with distinct ids, whose ids are those of a list of objects, are
/// as many as the distinct ids of the objects.
proof fn lemma_entries_count_ids(entries: Seq<(Seq<char>, SpecObject)>, objects: Seq<SpecObject>)
    requires
        ids_distinct(entries),
        forall|id: Seq<char>| #[trigger] stores_id(entries, id) == has_id(objects, id),
    ensures
        entries.len() == id_set(objects).len(),
        id_set(objects).finite(),
{
    let keys = entries.map_values(|e: (Seq<char>, SpecObject)| e.0);
    assert forall|i: int, j: int| 0 <= i < keys.len() && 0 <= j < keys.len() && i != j implies keys[i] != keys[j] by {
        if i < j {
            assert(entries[i].0 != entries[j].0);
        } else {
            assert(entries[j].0 != entries[i].0);
        }
    }
    assert(keys.no_duplicates());
    keys.unique_seq_to_set();
    assert forall|id: Seq<char>| keys.to_set().contains(id) == id_set(objects).contains(id) by {
        if keys.to_set().contains(id) {
            let i = choose|i: int| 0 <= i < keys.len() && keys[i] == id;
            assert(entries[i].0 == id);
            assert(stores_id(entries, id));
        }
        if id_set(objects).contains(id) {
            assert(stores_id(entries, id));
            let i = choose|i: int| 0 <= i < entries.len() && (#[trigger] entries[i]).0 == id;
            assert(keys[i] == id);
            assert(keys.contains(id));
        }
    }
    assert(keys.to_set() =~= id_set(objects));
    vstd::seq_lib::seq_to_set_is_finite(keys);
}

/// An id -> object index built from a bundle or a list of objects, used to
/// resolve `object_refs` and reference properties (such as `src_ref`).
#[derive(Debug)]
pub struct ObjectStore {
    entries: Vec<(String, StixObject)>,
}

impl View for ObjectStore {
    type V = Seq<(Seq<char>, SpecObject)>;

    closed spec fn view(&self) -> Seq<(Seq<char>, SpecObject)> {
        self.entries@.map_values(|e: (String, StixObject)| (e.0@, e.1@))
    }
}

proof fn lemma_lookup_index(entries: Seq<(Seq<char>, SpecObject)>, j: int)
    requires
        ids_distinct(entries),
        0 <= j < entries.len(),
    ensures
        store_lookup(entries, entries[j].0) == Some(entries[j].1),
    decreases entries.len(),
{
    if j > 0 {
        assert(entries[0].0 != entries[j].0);
        assert(ids_distinct(entries.drop_first()));
        lemma_lookup_index(entries.drop_first(), j - 1);
    }
}

proof fn lemma_lookup_absent(entries: Seq<(Seq<char>, SpecObject)>, id: Seq<char>)
    requires
        !stores_id(entries, id),
    ensures
        store_lookup(entries, id) is None,
    decreases entries.len(),
{
    if entries.len() > 0 {
        assert(entries[0].0 != id);
        if stores_id(entries.drop_first(), id) {
            let i = choose|i: int| 0 <= i < entries.drop_first().len() && (#[trigger] entries.drop_first()[i]).0 == id;
            assert(entries[i + 1].0 == id);
        }
        lemma_lookup_absent(entries.drop_first(), id);
    }
}

impl ObjectStore {
    /// The ids are distinct.
    pub closed spec fn wf(&self) -> bool {
        ids_distinct(self@)
    }

    /// A store of the objects that have an id; of several objects with one id,
    /// the last is kept.
    pub fn from_objects(objects: &[StixObject]) -> (s: ObjectStore)
        ensures
            s.wf(),
            s@ == store_entries(objects_view(objects@)),
            forall|id: Seq<char>| #[trigger] store_lookup(s@, id) == last_with_id(objects_view(objects@), id),
            forall|id: Seq<char>| #[trigger] stores_id(s@, id) == has_id(objects_view(objects@), id),
            s@.len() == id_set(objects_view(objects@)).len(),
    {
        let mut store = ObjectStore { entries: Vec::new() };
        let mut i: usize = 0;
        while i < objects.len()
            invariant
                0 <= i <= objects@.len(),
                store.wf(),
                store@ == store_entries(objects_view(objects@).subrange(0, i as int)),
                forall|id: Seq<char>| #[trigger] store_lookup(store@, id) == last_with_id(objects_view(objects@).subrange(0, i as int), id),
                forall|id: Seq<char>| #[trigger] stores_id(store@, id) == has_id(objects_view(objects@).subrange(0, i as int), id),
            decreases objects@.len() - i,
        {
            let ghost before = objects_view(objects@).subrange(0, i as int);
            let ghost after = objects_view(objects@).subrange(0, i + 1);
            assert(after.drop_last() =~= before);
            assert(after.last() == objects@[i as int]@);
            let ghost old_view = store@;
            match objects[i].id() {
                Some(id) => {
                    let mut j: usize = 0;
                    let mut found = false;
                    while j < store.entries.len() && !found
                        invariant
                            0 <= j <= store.entries@.len(),
                            store@ == old_view,
                            !found ==> forall|k: int| 0 <= k < j ==> (#[trigger] old_view[k]).0 != id@,
                            found ==> j < old_view.len() && old_view[j as int].0 == id@,
                        decreases store.entries@.len() - j + (if found { 0int } else { 1int }),
                    {
                        if str_eq(store.entries[j].0.as_str(), id) {
                            found = true;
                        } else {
                            j = j + 1;
                        }
                    }
                    let copy = objects[i].deep_copy();
                    let key = id.to_owned();
                    proof {
                        if found {
                            lemma_entry_slot_found(old_view, id@, 0, j as int);
                        } else {
                            lemma_entry_slot_absent(old_view, id@, 0);
                        }
                    }
                    if found {
                        store.entries.set(j, (key, copy));
                        proof {
                            let nv = store@;
                            assert(nv =~= old_view.update(j as int, (id@, objects@[i as int]@)));
                            assert(ids_distinct(nv));
                            assert forall|x: Seq<char>| #[trigger] store_lookup(nv, x) == last_with_id(after, x) by {
                                if x == id@ {
                                    lemma_lookup_index(nv, j as int);
                                } else {
                                    lemma_lookup_update(old_view, j as int, (id@, objects@[i as int]@), x);
                                }
                            }
                            assert forall|x: Seq<char>| #[trigger] stores_id(nv, x) == has_id(after, x) by {
                                lemma_has_id_push(before, after.last(), x);
                                if stores_id(nv, x) {
                                    let k = choose|k: int| 0 <= k < nv.len() && (#[trigger] nv[k]).0 == x;
                                    assert(old_view[k].0 == x);
                                }
                                if stores_id(old_view, x) {
                                    let k = choose|k: int| 0 <= k < old_view.len() && (#[trigger] old_view[k]).0 == x;
                                    assert(nv[k].0 == x);
                                }
                            }
                        }
                    } else {
                        store.entries.push((key, copy));
                        proof {
                            let nv = store@;
                            assert(nv =~= old_view.push((id@, objects@[i as int]@)));
                            assert(!stores_id(old_view, id@));
                            assert(ids_distinct(nv));
                            assert forall|x: Seq<char>| #[trigger] store_lookup(nv, x) == last_with_id(after, x) by {
                                if x == id@ {
                                    lemma_lookup_index(nv, old_view.len() as int);
                                } else {
                                    lemma_lookup_push(old_view, (id@, objects@[i as int]@), x);
                                }
                            }
                            assert forall|x: Seq<char>| #[trigger] stores_id(nv, x) == has_id(after, x) by {
                                lemma_has_id_push(before, after.last(), x);
                                if stores_id(nv, x) && x != id@ {
                                    let k = choose|k: int| 0 <= k < nv.len() && (#[trigger] nv[k]).0 == x;
                                    assert(old_view[k].0 == x);
                                }
                                if stores_id(old_view, x) {
                                    let k = choose|k: int| 0 <= k < old_view.len() && (#[trigger] old_view[k]).0 == x;
                                    assert(nv[k].0 == x);
                                }
                                if x == id@ {
                                    assert(nv[old_view.len() as int].0 == x);
                                }
                            }
                        }
                    }
                },
                None => {
                    proof {
                        assert forall|x: Seq<char>| #[trigger] stores_id(store@, x) == has_id(after, x) by {
                            lemma_has_id_push(before, after.last(), x);
                        }
                    }
                },
            }
            i = i + 1;
        }
        proof {
            assert(objects_view(objects@).subrange(0, objects@.len() as int) =~= objects_view(objects@));
            lemma_entries_count_ids(store@, objects_view(objects@));
        }
        store
    }

    /// A store of a bundle's objects.
    pub fn from_bundle(bundle: &Bundle) -> (s: ObjectStore)
        ensures
            s.wf(),
            s@ == store_entries(objects_view(bundle.objects@)),
            forall|id: Seq<char>| #[trigger] store_lookup(s@, id) == last_with_id(objects_view(bundle.objects@), id),
            forall|id: Seq<char>| #[trigger] stores_id(s@, id) == has_id(objects_view(bundle.objects@), id),
            s@.len() == id_set(objects_view(bundle.objects@)).len(),
    {
        ObjectStore::from_objects(bundle.objects.as_slice())
    }

    /// The object stored under `id`.
    pub fn get(&self, id: &str) -> (r: Option<&StixObject>)
        ensures
            (match r {
                Some(o) => store_lookup(self@, id@) == Some(o@),
                None => store_lookup(self@, id@) is None,
            }),
    {
        let mut i: usize = 0;
        assert(self@.subrange(0, self@.len() as int) =~= self@);
        while i < self.entries.len()
            invariant
                0 <= i <= self.entries@.len(),
                store_lookup(self@, id@) == store_lookup(self@.subrange(i as int, self@.len() as int), id@),
            decreases self.entries@.len() - i,
        {
            let ghost rest = self@.subrange(i as int, self@.len() as int);
            assert(rest.drop_first() =~= self@.subrange(i + 1, self@.len() as int));
            if str_eq(self.entries[i].0.as_str(), id) {
                return Some(&self.entries[i].1);
            }
            i = i + 1;
        }
        None
    }

    /// The number of stored objects.
    pub fn len(&self) -> (n: usize)
        ensures
            n == self@.len(),
    {
        self.entries.len()
    }

    /// Whether the store holds no object.
    pub fn is_empty(&self) -> (b: bool)
        ensures
            b == (self@.len() == 0),
    {
        self.entries.len() == 0
    }
}

impl Default for ObjectStore {
    /// An empty store.
    fn default() -> (s: ObjectStore)
        ensures
            s@.len() == 0,
            s.wf(),
    {
        ObjectStore { entries: Vec::new() }
    }
}

proof fn lemma_has_id_push(objects: Seq<SpecObject>, o: SpecObject, id: Seq<char>)
    ensures
        has_id(objects.push(o), id) == (has_id(objects, id) || object_id(o) == Some(id)),
{
    let p = objects.push(o);
    if has_id(objects, id) {
        let i = choose|i: int| 0 <= i < objects.len() && object_id(#[trigger] objects[i]) == Some(id);
        assert(p[i] == objects[i]);
    }
    if object_id(o) == Some(id) {
        assert(p[objects.len() as int] == o);
    }
    if has_id(p, id) {
        let i = choose|i: int| 0 <= i < p.len() && object_id(#[trigger] p[i]) == Some(id);
        if i < objects.len() {
            assert(p[i] == objects[i]);
        }
    }
}

proof fn lemma_lookup_update(entries: Seq<(Seq<char>, SpecObject)>, j: int, e: (Seq<char>, SpecObject), id: Seq<char>)
    requires
        0 <= j < entries.len(),
        entries[j].0 == e.0,
        id != e.0,
    ensures
        store_lookup(entries.update(j, e), id) == store_lookup(entries, id),
    decreases entries.len(),
{
    if j > 0 {
        assert(entries.update(j, e).drop_first() =~= entries.drop_first().update(j - 1, e));
        lemma_lookup_update(entries.drop_first(), j - 1, e, id);
    } else {
        assert(entries.update(j, e).drop_first() =~= entries.drop_first());
    }
}

proof fn lemma_lookup_push(entries: Seq<(Seq<char>, SpecObject)>, e: (Seq<char>, SpecObject), id: Seq<char>)
    requires
        id != e.0,
    ensures
        store_lookup(entries.push(e), id) == store_lookup(entries, id),
    decreases entries.len(),
{
    if entries.len() > 0 {
        assert(entries.push(e)[0] == entries[0]);
        assert(entries.push(e).drop_first() =~= entries.drop_first().push(e));
        lemma_lookup_push(entries.drop_first(), e, id);
    } else {
        assert(entries.push(e)[0] == e);
        assert(entries.push(e).drop_first() =~= Seq::<(Seq<char>, SpecObject)>::empty());
        assert(store_lookup(Seq::<(Seq<char>, SpecObject)>::empty(), id) is None);
    }
}

proof fn lemma_entry_slot_found(entries: Seq<(Seq<char>, SpecObject)>, k: Seq<char>, i: int, j: int)
    requires
        0 <= i <= j < entries.len(),
        entries[j].0 == k,
        forall|m: int| 0 <= m < j ==> (#[trigger] entries[m]).0 != k,
    ensures
        entry_slot(entries, k, i) == Some(j),
    decreases j - i,
{
    if i < j {
        lemma_entry_slot_found(entries, k, i + 1, j);
    }
}

proof fn lemma_entry_slot_absent(entries: Seq<(Seq<char>, SpecObject)>, k: Seq<char>, i: int)
    requires
        0 <= i,
        forall|m: int| 0 <= m < entries.len() ==> (#[trigger] entries[m]).0 != k,
    ensures
        entry_slot(entries, k, i) is None,
    decreases entries.len() - i,
{
    if i < entries.len() {
        lemma_entry_slot_absent(entries, k, i + 1);
    }
}

} // verus!
