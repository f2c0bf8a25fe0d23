//! The order of items within one class of a batch: by entity id, then by
//! component type name, keeping the order of arrival among equal keys.
use vstd::prelude::*;
use vstd::string::StrSliceExecFns;

use crate::messages::{items_model, ItemModel, SyncItem};

verus! {

broadcast use vstd::seq_lib::group_seq_properties;

/// Whether `a` comes strictly before `b` in lexicographic order of code
/// points.
pub open spec fn chars_lt(a: Seq<char>, b: Seq<char>) -> bool
    decreases a.len(),
{
    if a.len() == 0 {
        b.len() > 0
    } else if b.len() == 0 {
        false
    } else if a[0] != b[0] {
        (a[0] as u32) < (b[0] as u32)
    } else {
        chars_lt(a.drop_first(), b.drop_first())
    }
}

/// The component type an item names (empty for an entity removal).
pub open spec fn item_type(i: ItemModel) -> Seq<char> {
    match i {
        ItemModel::Snapshot { ty, .. } => ty,
        ItemModel::Update { ty, .. } => ty,
        ItemModel::ComponentRemoved { ty, .. } => ty,
        ItemModel::EntityRemoved { .. } => Seq::empty(),
    }
}

/// Whether `a` sorts strictly after `b`: a larger entity id, or the same
/// entity and a later type name.
pub open spec fn sorts_after(a: ItemModel, b: ItemModel) -> bool {
    a.entity() > b.entity() || (a.entity() == b.entity() && chars_lt(item_type(b), item_type(a)))
}

/// The first position of `s` whose item sorts after `x` (the length of
/// `s` when there is none).
pub open spec fn insert_position(s: Seq<ItemModel>, x: ItemModel) -> int
    decreases s.len(),
{
    if s.len() == 0 {
        0
    } else if sorts_after(s[0], x) {
        0
    } else {
        1 + insert_position(s.drop_first(), x)
    }
}

/// `s` in key order, equal keys in their order in `s`: each item is placed
/// after every earlier item that does not sort after it.
pub open spec fn stable_sort(s: Seq<ItemModel>) -> Seq<ItemModel>
    decreases s.len(),
{
    if s.len() == 0 {
        s
    } else {
        let sorted = stable_sort(s.drop_last());
        sorted.insert(insert_position(sorted, s.last()), s.last())
    }
}

proof fn lemma_insert_position_bounds(s: Seq<ItemModel>, x: ItemModel)
    ensures
        0 <= insert_position(s, x) <= s.len(),
    decreases s.len(),
{
    if s.len() > 0 && !sorts_after(s[0], x) {
        lemma_insert_position_bounds(s.drop_first(), x);
    }
}

/// Every item of the sorted sequence is an item of the input, and the
/// lengths agree.
pub proof fn lemma_stable_sort_items(s: Seq<ItemModel>)
    ensures
        stable_sort(s).len() == s.len(),
        forall|i: int| 0 <= i < stable_sort(s).len() ==> exists|j: int| 0 <= j < s.len() && #[trigger] stable_sort(s)[i] == s[j],
    decreases s.len(),
{
    if s.len() > 0 {
        let rest = s.drop_last();
        lemma_stable_sort_items(rest);
        let sorted = stable_sort(rest);
        let p = insert_position(sorted, s.last());
        lemma_insert_position_bounds(sorted, s.last());
        let out = sorted.insert(p, s.last());
        assert forall|i: int| 0 <= i < out.len() implies exists|j: int| 0 <= j < s.len() && #[trigger] out[i] == s[j] by {
            if i < p {
                let j = choose|j: int| 0 <= j < rest.len() && #[trigger] sorted[i] == rest[j];
                assert(out[i] == s[j]);
            } else if i == p {
                assert(out[i] == s[s.len() - 1]);
            } else {
                let j = choose|j: int| 0 <= j < rest.len() && #[trigger] sorted[i - 1] == rest[j];
                assert(out[i] == s[j]);
            }
        }
    }
}

/// Whether `a` comes strictly before `b` in lexicographic order.
fn str_lt(a: &str, b: &str) -> (r: bool)
    ensures
        r == chars_lt(a@, b@),
{
    let n = a.unicode_len();
    let m = b.unicode_len();
    let mut i: usize = 0;
    assert(a@.subrange(0, n as int) == a@ && b@.subrange(0, m as int) == b@);
    while i < n && i < m
        invariant
            n == a@.len(),
            m == b@.len(),
            0 <= i <= n,
            i <= m,
            chars_lt(a@, b@) == chars_lt(a@.subrange(i as int, n as int), b@.subrange(i as int, m as int)),
        decreases n - i,
    {
        let c = a.get_char(i);
        let d = b.get_char(i);
        if c != d {
            return (c as u32) < (d as u32);
        }
        proof {
            assert(a@.subrange(i as int, n as int).drop_first() == a@.subrange(i + 1, n as int));
            assert(b@.subrange(i as int, m as int).drop_first() == b@.subrange(i + 1, m as int));
        }
        i = i + 1;
    }
    i == n && i < m
}

/// The entity id of an item.
fn entity_of(item: &SyncItem) -> (r: u64)
    ensures
        r == item@.entity(),
{
    match item {
        SyncItem::Snapshot { entity, .. } => entity.bits,
        SyncItem::Update { entity, .. } => entity.bits,
        SyncItem::ComponentRemoved { entity, .. } => entity.bits,
        SyncItem::EntityRemoved { entity, .. } => entity.bits,
    }
}

/// The component type an item names.
fn type_of(item: &SyncItem) -> (r: &str)
    ensures
        r@ == item_type(item@),
{
    match item {
        SyncItem::Snapshot { component_type, .. } => component_type.as_str(),
        SyncItem::Update { component_type, .. } => component_type.as_str(),
        SyncItem::ComponentRemoved { component_type, .. } => component_type.as_str(),
        SyncItem::EntityRemoved { .. } => {
            proof {
                reveal_strlit("");
            }
            ""
        },
    }
}

/// Whether `a` sorts strictly after `b`.
fn item_sorts_after(a: &SyncItem, b: &SyncItem) -> (r: bool)
    ensures
        r == sorts_after(a@, b@),
{
    let ea = entity_of(a);
    let eb = entity_of(b);
    ea > eb || (ea == eb && str_lt(type_of(b), type_of(a)))
}

/// Sorts the items of one class of a batch by entity id, then type name,
/// keeping the order of arrival among equal keys.
pub fn sort_items(items: Vec<SyncItem>) -> (r: Vec<SyncItem>)
    ensures
        items_model(r@) == stable_sort(items_model(items@)),
{
    let ghost all = items@;
    let n = items.len();
    let mut rest = items;
    let mut out: Vec<SyncItem> = Vec::new();
    let mut k: usize = 0;
    while k < n
        invariant
            n == all.len(),
            0 <= k <= n,
            rest@ == all.subrange(k as int, n as int),
            items_model(out@) == stable_sort(items_model(all.subrange(0, k as int))),
        decreases n - k,
    {
        let x = rest.remove(0);
        let ghost sorted = items_model(out@);
        let mut i: usize = 0;
        assert(sorted.subrange(0, sorted.len() as int) == sorted);
        while i < out.len() && !item_sorts_after(&out[i], &x)
            invariant
                0 <= i <= out@.len(),
                sorted == items_model(out@),
                insert_position(sorted, x@) == i + insert_position(sorted.subrange(i as int, sorted.len() as int), x@),
            decreases out@.len() - i,
        {
            proof {
                assert(sorted.subrange(i as int, sorted.len() as int).drop_first() == sorted.subrange(i + 1, sorted.len() as int));
            }
            i = i + 1;
        }
        proof {
            assert(insert_position(sorted, x@) == i);
            assert(items_model(all.subrange(0, k + 1)).drop_last() == items_model(all.subrange(0, k as int)));
            assert(items_model(all.subrange(0, k + 1)).last() == x@);
        }
        out.insert(i, x);
        proof {
            assert(items_model(out@) =~= sorted.insert(i as int, x@));
        }
        k = k + 1;
    }
    assert(all.subrange(0, n as int) == all);
    out
}

} // verus!
