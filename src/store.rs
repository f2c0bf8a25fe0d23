//! The client's raw store: the single map from `(entity, component type)`
//! to the bytes last received, which every typed view is derived from.
use vstd::prelude::*;

use crate::messages::{items_model, ItemModel, SyncItem};
use crate::registry::str_eq;

verus! {

broadcast use vstd::seq_lib::group_seq_properties;

/// The key of a raw store entry.
pub type RawKey = (u64, Seq<char>);

/// The bytes of one component of one entity.
#[derive(Debug)]
pub struct RawEntry {
    pub entity: u64,
    pub component_type: String,
    pub value: Vec<u8>,
}

/// The key of `e`.
pub open spec fn key_of(e: RawEntry) -> RawKey {
    (e.entity, e.component_type@)
}

/// No two entries share a key.
pub open spec fn keys_unique(s: Seq<RawEntry>) -> bool {
    forall|i: int, j: int| 0 <= i < s.len() && 0 <= j < s.len() && i != j ==> key_of(#[trigger] s[i]) != key_of(#[trigger] s[j])
}

/// The map that the entries `s` hold.
pub open spec fn entries_map(s: Seq<RawEntry>) -> Map<RawKey, Seq<u8>> {
    Map::new(
        |k: RawKey| exists|i: int| 0 <= i < s.len() && key_of(#[trigger] s[i]) == k,
        |k: RawKey| s[choose|i: int| 0 <= i < s.len() && key_of(#[trigger] s[i]) == k].value@,
    )
}

proof fn lemma_entries_map_at(s: Seq<RawEntry>, i: int)
    requires
        keys_unique(s),
        0 <= i < s.len(),
    ensures
        entries_map(s).contains_key(key_of(s[i])),
        entries_map(s)[key_of(s[i])] == s[i].value@,
{
    let k = key_of(s[i]);
    assert(exists|j: int| 0 <= j < s.len() && key_of(#[trigger] s[j]) == k);
    let j = choose|j: int| 0 <= j < s.len() && key_of(#[trigger] s[j]) == k;
    assert(j == i);
}

/// `m` without the entries of `entity`.
pub open spec fn without_entity(m: Map<RawKey, Seq<u8>>, entity: u64) -> Map<RawKey, Seq<u8>> {
    m.restrict(m.dom().filter(|k: RawKey| k.0 != entity))
}

/// What one received item does to the raw store: a snapshot or an update
/// sets its entry, a component removal deletes its entry, and an entity
/// removal deletes every entry of the entity.
pub open spec fn apply_item_model(m: Map<RawKey, Seq<u8>>, item: ItemModel) -> Map<RawKey, Seq<u8>> {
    match item {
        ItemModel::Snapshot { entity, ty, bytes, .. } => m.insert((entity, ty), bytes),
        ItemModel::Update { entity, ty, bytes, .. } => m.insert((entity, ty), bytes),
        ItemModel::ComponentRemoved { entity, ty, .. } => m.remove((entity, ty)),
        ItemModel::EntityRemoved { entity, .. } => without_entity(m, entity),
    }
}

/// What a sequence of items does to the raw store, left to right.
pub open spec fn apply_items_model(m: Map<RawKey, Seq<u8>>, items: Seq<ItemModel>) -> Map<RawKey, Seq<u8>>
    decreases items.len(),
{
    if items.len() == 0 {
        m
    } else {
        apply_item_model(apply_items_model(m, items.drop_last()), items.last())
    }
}

proof fn lemma_remove_at(s: Seq<RawEntry>, i: int)
    requires
        keys_unique(s),
        0 <= i < s.len(),
    ensures
        keys_unique(s.remove(i)),
        entries_map(s.remove(i)) == entries_map(s).remove(key_of(s[i])),
{
    let t = s.remove(i);
    let k = key_of(s[i]);
    assert forall|a: int| 0 <= a < t.len() implies #[trigger] t[a] == s[if a < i { a } else { a + 1 }] by {}
    assert(keys_unique(t)) by {
        assert forall|a: int, b: int| 0 <= a < t.len() && 0 <= b < t.len() && a != b implies key_of(#[trigger] t[a]) != key_of(#[trigger] t[b]) by {
            let a2 = if a < i { a } else { a + 1 };
            let b2 = if b < i { b } else { b + 1 };
            assert(t[a] == s[a2] && t[b] == s[b2]);
        }
    }
    assert forall|q: RawKey| #[trigger] entries_map(t).contains_key(q) <==> entries_map(s).remove(k).contains_key(q) by {
        if entries_map(t).contains_key(q) {
            let j = choose|j: int| 0 <= j < t.len() && key_of(#[trigger] t[j]) == q;
            let j2 = if j < i { j } else { j + 1 };
            assert(t[j] == s[j2]);
            assert(j2 != i);
        }
        if q != k && entries_map(s).contains_key(q) {
            let j = choose|j: int| 0 <= j < s.len() && key_of(#[trigger] s[j]) == q;
            assert(j != i);
            let j1 = if j < i { j } else { j - 1 };
            assert(t[j1] == s[j]);
        }
    }
    assert forall|q: RawKey| #[trigger] entries_map(t).contains_key(q) implies entries_map(t)[q] == entries_map(s).remove(k)[q] by {
        let j = choose|j: int| 0 <= j < t.len() && key_of(#[trigger] t[j]) == q;
        let j2 = if j < i { j } else { j + 1 };
        lemma_entries_map_at(t, j);
        lemma_entries_map_at(s, j2);
    }
    assert(entries_map(t) =~= entries_map(s).remove(k));
}

/// Whether `item` changes or deletes the entry `(entity, ty)`.
pub open spec fn touches(item: ItemModel, entity: u64, ty: Seq<char>) -> bool {
    match item {
        ItemModel::Snapshot { entity: e, ty: t, .. } => e == entity && t == ty,
        ItemModel::Update { entity: e, ty: t, .. } => e == entity && t == ty,
        ItemModel::ComponentRemoved { entity: e, ty: t, .. } => e == entity && t == ty,
        ItemModel::EntityRemoved { entity: e, .. } => e == entity,
    }
}

/// Last writer wins: when item `j` writes `bytes` to `(entity, ty)` and no
/// later item touches that entry, the store ends up holding `bytes` there,
/// whatever it held before and whatever was written earlier.
pub proof fn lemma_last_writer_wins(
    m: Map<RawKey, Seq<u8>>,
    items: Seq<ItemModel>,
    j: int,
    entity: u64,
    ty: Seq<char>,
    bytes: Seq<u8>,
)
    requires
        0 <= j < items.len(),
        items[j] == (ItemModel::Update { sub: items[j].sub(), entity, ty, bytes })
            || items[j] == (ItemModel::Snapshot { sub: items[j].sub(), entity, ty, bytes }),
        forall|k: int| j < k < items.len() ==> !touches(#[trigger] items[k], entity, ty),
    ensures
        apply_items_model(m, items).contains_key((entity, ty)),
        apply_items_model(m, items)[(entity, ty)] == bytes,
    decreases items.len(),
{
    let last = items.len() - 1;
    if j < last {
        assert forall|k: int| j < k < items.drop_last().len() implies !touches(#[trigger] items.drop_last()[k], entity, ty) by {
            assert(items.drop_last()[k] == items[k]);
        }
        lemma_last_writer_wins(m, items.drop_last(), j, entity, ty, bytes);
        assert(!touches(items[last], entity, ty));
        let before = apply_items_model(m, items.drop_last());
        match items[last] {
            ItemModel::EntityRemoved { entity: e, .. } => {
                assert(without_entity(before, e).dom().contains((entity, ty)));
            },
            _ => {},
        }
    }
}

/// The raw store.
pub struct RawStore {
    pub entries: Vec<RawEntry>,
}

impl View for RawStore {
    type V = Map<RawKey, Seq<u8>>;

    open spec fn view(&self) -> Map<RawKey, Seq<u8>> {
        entries_map(self.entries@)
    }
}

impl RawStore {
    pub open spec fn wf(&self) -> bool {
        keys_unique(self.entries@)
    }

    pub fn new() -> (r: RawStore)
        ensures
            r.wf(),
            r@ == Map::<RawKey, Seq<u8>>::empty(),
    {
        let r = RawStore { entries: Vec::new() };
        assert(r@ =~= Map::<RawKey, Seq<u8>>::empty());
        r
    }

    /// The index of the entry with key `(entity, ty)`.
    fn find(&self, entity: u64, ty: &str) -> (r: Option<usize>)
        ensures
            r matches Some(i) ==> i < self.entries@.len() && key_of(self.entries@[i as int]) == (entity, ty@),
            r is None ==> forall|i: int| 0 <= i < self.entries@.len() ==> key_of(#[trigger] self.entries@[i]) != (entity, ty@),
    {
        let mut i: usize = 0;
        while i < self.entries.len()
            invariant
                0 <= i <= self.entries@.len(),
                forall|k: int| 0 <= k < i ==> key_of(#[trigger] self.entries@[k]) != (entity, ty@),
            decreases self.entries@.len() - i,
        {
            if self.entries[i].entity == entity && str_eq(self.entries[i].component_type.as_str(), ty) {
                return Some(i);
            }
            i = i + 1;
        }
        None
    }

    /// The bytes stored for `(entity, ty)`.
    pub fn get(&self, entity: u64, ty: &str) -> (r: Option<&Vec<u8>>)
        requires
            self.wf(),
        ensures
            self@.contains_key((entity, ty@)) ==> (r matches Some(b) && b@ == self@[(entity, ty@)]),
            !self@.contains_key((entity, ty@)) ==> r is None,
    {
        match self.find(entity, ty) {
            Some(i) => {
                proof {
                    lemma_entries_map_at(self.entries@, i as int);
                }
                Some(&self.entries[i].value)
            },
            None => None,
        }
    }

    /// Sets the bytes of `(entity, component_type)`.
    pub fn set(&mut self, entity: u64, component_type: String, value: Vec<u8>)
        requires
            old(self).wf(),
        ensures
            final(self).wf(),
            final(self)@ == old(self)@.insert((entity, component_type@), value@),
    {
        let ghost s = self.entries@;
        let ghost k = (entity, component_type@);
        let ghost v = value@;
        let entry = RawEntry { entity, component_type, value };
        match self.find(entity, entry.component_type.as_str()) {
            Some(i) => {
                self.entries.set(i, entry);
                proof {
                    let t = self.entries@;
                    assert(keys_unique(t)) by {
                        assert forall|a: int, b: int| 0 <= a < t.len() && 0 <= b < t.len() && a != b implies key_of(#[trigger] t[a]) != key_of(#[trigger] t[b]) by {
                            if a != i && b != i {
                                assert(t[a] == s[a] && t[b] == s[b]);
                            } else if a == i {
                                assert(t[b] == s[b]);
                                assert(key_of(s[b]) != key_of(s[i as int]));
                            } else {
                                assert(t[a] == s[a]);
                                assert(key_of(s[a]) != key_of(s[i as int]));
                            }
                        }
                    }
                    assert forall|q: RawKey| #[trigger] entries_map(t).contains_key(q) <==> entries_map(s).insert(k, v).contains_key(q) by {
                        if q != k && entries_map(s).contains_key(q) {
                            let j = choose|j: int| 0 <= j < s.len() && key_of(#[trigger] s[j]) == q;
                            assert(t[j] == s[j]);
                        }
                        if q != k && entries_map(t).contains_key(q) {
                            let j = choose|j: int| 0 <= j < t.len() && key_of(#[trigger] t[j]) == q;
                            assert(t[j] == s[j]);
                        }
                        if q == k {
                            assert(key_of(t[i as int]) == k);
                        }
                    }
                    assert forall|q: RawKey| #[trigger] entries_map(t).contains_key(q) implies entries_map(t)[q] == entries_map(s).insert(k, v)[q] by {
                        let j = choose|j: int| 0 <= j < t.len() && key_of(#[trigger] t[j]) == q;
                        lemma_entries_map_at(t, j);
                        if j != i {
                            assert(t[j] == s[j]);
                            lemma_entries_map_at(s, j);
                        }
                    }
                    assert(entries_map(t) =~= entries_map(s).insert(k, v));
                }
            },
            None => {
                self.entries.push(entry);
                proof {
                    let t = self.entries@;
                    let n = s.len() as int;
                    assert(keys_unique(t)) by {
                        assert forall|a: int, b: int| 0 <= a < t.len() && 0 <= b < t.len() && a != b implies key_of(#[trigger] t[a]) != key_of(#[trigger] t[b]) by {
                            if a != n && b != n {
                                assert(t[a] == s[a] && t[b] == s[b]);
                            } else if a == n {
                                assert(t[b] == s[b]);
                            } else {
                                assert(t[a] == s[a]);
                            }
                        }
                    }
                    assert forall|q: RawKey| #[trigger] entries_map(t).contains_key(q) <==> entries_map(s).insert(k, v).contains_key(q) by {
                        if q != k && entries_map(s).contains_key(q) {
                            let j = choose|j: int| 0 <= j < s.len() && key_of(#[trigger] s[j]) == q;
                            assert(t[j] == s[j]);
                        }
                        if q != k && entries_map(t).contains_key(q) {
                            let j = choose|j: int| 0 <= j < t.len() && key_of(#[trigger] t[j]) == q;
                            assert(j != n);
                            assert(t[j] == s[j]);
                        }
                        if q == k {
                            assert(key_of(t[n]) == k);
                        }
                    }
                    assert forall|q: RawKey| #[trigger] entries_map(t).contains_key(q) implies entries_map(t)[q] == entries_map(s).insert(k, v)[q] by {
                        let j = choose|j: int| 0 <= j < t.len() && key_of(#[trigger] t[j]) == q;
                        lemma_entries_map_at(t, j);
                        if j != n {
                            assert(t[j] == s[j]);
                            lemma_entries_map_at(s, j);
                        }
                    }
                    assert(entries_map(t) =~= entries_map(s).insert(k, v));
                }
            },
        }
    }

    /// Deletes the bytes of `(entity, ty)`, if there are any.
    pub fn remove_component(&mut self, entity: u64, ty: &str)
        requires
            old(self).wf(),
        ensures
            final(self).wf(),
            final(self)@ == old(self)@.remove((entity, ty@)),
    {
        match self.find(entity, ty) {
            Some(i) => {
                proof {
                    lemma_remove_at(self.entries@, i as int);
                }
                self.entries.remove(i);
            },
            None => {
                proof {
                    assert(self@ =~= self@.remove((entity, ty@)));
                }
            },
        }
    }

    /// Deletes the bytes of every component of `entity`.
    pub fn remove_entity(&mut self, entity: u64)
        requires
            old(self).wf(),
        ensures
            final(self).wf(),
            final(self)@ == without_entity(old(self)@, entity),
    {
        loop
            invariant
                self.wf(),
                without_entity(self@, entity) == without_entity(old(self)@, entity),
                self@.dom().subset_of(old(self)@.dom()),
            decreases self.entries@.len(),
        {
            let mut found: Option<usize> = None;
            let mut i: usize = 0;
            while i < self.entries.len()
                invariant
                    0 <= i <= self.entries@.len(),
                    found is None ==> forall|k: int| 0 <= k < i ==> (#[trigger] self.entries@[k]).entity != entity,
                    found matches Some(j) ==> j < self.entries@.len() && self.entries@[j as int].entity == entity,
                decreases self.entries@.len() - i,
            {
                if found.is_none() && self.entries[i].entity == entity {
                    found = Some(i);
                }
                i = i + 1;
            }
            match found {
                Some(j) => {
                    let ghost before = self@;
                    let ghost k = key_of(self.entries@[j as int]);
                    proof {
                        lemma_remove_at(self.entries@, j as int);
                    }
                    self.entries.remove(j);
                    proof {
                        assert(without_entity(before.remove(k), entity) =~= without_entity(before, entity));
                    }
                },
                None => {
                    proof {
                        assert(self@ =~= without_entity(self@, entity)) by {
                            assert forall|q: RawKey| #[trigger] self@.contains_key(q) implies q.0 != entity by {
                                let j = choose|j: int| 0 <= j < self.entries@.len() && key_of(#[trigger] self.entries@[j]) == q;
                            }
                        }
                    }
                    return;
                },
            }
        }
    }

    /// Applies one received item.
    pub fn apply_item(&mut self, item: SyncItem)
        requires
            old(self).wf(),
        ensures
            final(self).wf(),
            final(self)@ == apply_item_model(old(self)@, item@),
    {
        match item {
            SyncItem::Snapshot { entity, component_type, value, .. } => {
                self.set(entity.bits, component_type, value);
            },
            SyncItem::Update { entity, component_type, value, .. } => {
                self.set(entity.bits, component_type, value);
            },
            SyncItem::ComponentRemoved { entity, component_type, .. } => {
                self.remove_component(entity.bits, component_type.as_str());
            },
            SyncItem::EntityRemoved { entity, .. } => {
                self.remove_entity(entity.bits);
            },
        }
    }

    /// Applies the items of a batch, left to right.
    pub fn apply_items(&mut self, items: Vec<SyncItem>)
        requires
            old(self).wf(),
        ensures
            final(self).wf(),
            final(self)@ == apply_items_model(old(self)@, items_model(items@)),
    {
        let ghost all = items@;
        let n = items.len();
        let mut rest = items;
        let mut i: usize = 0;
        while i < n
            invariant
                n == all.len(),
                0 <= i <= n,
                rest@ == all.subrange(i as int, n as int),
                self.wf(),
                self@ == apply_items_model(old(self)@, items_model(all.subrange(0, i as int))),
            decreases n - i,
        {
            let item = rest.remove(0);
            proof {
                assert(items_model(all.subrange(0, i + 1)).drop_last() == items_model(all.subrange(0, i as int)));
            }
            self.apply_item(item);
            i = i + 1;
        }
        assert(all.subrange(0, n as int) == all);
    }

    /// The projection stage for one component type: every stored entity of
    /// type `ty` with its bytes, each entity once.
    pub fn entries_of_type(&self, ty: &str) -> (r: Vec<(u64, Vec<u8>)>)
        requires
            self.wf(),
        ensures
            forall|i: int| 0 <= i < r@.len() ==> self@.contains_key(((#[trigger] r@[i]).0, ty@)) && r@[i].1@ == self@[(r@[i].0, ty@)],
            forall|e: u64| #[trigger] self@.contains_key((e, ty@)) ==> exists|i: int| 0 <= i < r@.len() && (#[trigger] r@[i]).0 == e,
            forall|i: int, j: int| 0 <= i < j < r@.len() ==> (#[trigger] r@[i]).0 != (#[trigger] r@[j]).0,
    {
        let mut out: Vec<(u64, Vec<u8>)> = Vec::new();
        let ghost mut idx: Seq<int> = Seq::empty();
        let mut i: usize = 0;
        while i < self.entries.len()
            invariant
                self.wf(),
                0 <= i <= self.entries@.len(),
                idx.len() == out@.len(),
                forall|a: int| 0 <= a < out@.len() ==> {
                    &&& 0 <= #[trigger] idx[a] < i
                    &&& key_of(self.entries@[idx[a]]) == (out@[a].0, ty@)
                    &&& out@[a].1@ == self.entries@[idx[a]].value@
                },
                forall|a: int, c: int| 0 <= a < c < out@.len() ==> #[trigger] idx[a] < #[trigger] idx[c],
                forall|b: int| 0 <= b < i && (#[trigger] self.entries@[b]).component_type@ == ty@
                    ==> exists|a: int| 0 <= a < idx.len() && #[trigger] idx[a] == b,
            decreases self.entries@.len() - i,
        {
            let e = &self.entries[i];
            if str_eq(e.component_type.as_str(), ty) {
                let bytes = crate::dispatch::copy_bytes(&e.value);
                out.push((e.entity, bytes));
                proof {
                    let old_idx = idx;
                    idx = idx.push(i as int);
                    assert forall|b: int| 0 <= b < i + 1 && (#[trigger] self.entries@[b]).component_type@ == ty@
                        implies exists|a: int| 0 <= a < idx.len() && #[trigger] idx[a] == b by {
                        if b == i {
                            assert(idx[old_idx.len() as int] == b);
                        } else {
                            let a = choose|a: int| 0 <= a < old_idx.len() && #[trigger] old_idx[a] == b;
                            assert(idx[a] == b);
                        }
                    }
                }
            }
            i = i + 1;
        }
        proof {
            assert forall|a: int| 0 <= a < out@.len() implies self@.contains_key(((#[trigger] out@[a]).0, ty@)) && out@[a].1@ == self@[(out@[a].0, ty@)] by {
                lemma_entries_map_at(self.entries@, idx[a]);
            }
            assert forall|e: u64| #[trigger] self@.contains_key((e, ty@)) implies exists|a: int| 0 <= a < out@.len() && (#[trigger] out@[a]).0 == e by {
                let b = choose|b: int| 0 <= b < self.entries@.len() && key_of(#[trigger] self.entries@[b]) == (e, ty@);
                assert(self.entries@[b].component_type@ == ty@);
                let a = choose|a: int| 0 <= a < idx.len() && #[trigger] idx[a] == b;
                assert(out@[a].0 == e);
            }
            assert forall|a: int, c: int| 0 <= a < c < out@.len() implies (#[trigger] out@[a]).0 != (#[trigger] out@[c]).0 by {
                assert(idx[a] < idx[c]);
                assert(key_of(self.entries@[idx[a]]) != key_of(self.entries@[idx[c]]));
            }
        }
        out
    }
}

} // verus!
