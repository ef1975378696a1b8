//! The menu tree store: category-to-children ordering, item properties,
//! and the revision counter.
//!
//! Node ids: `0` is the root, whose children are the category ids
//! `1..=NUM_CATEGORIES`, fixed at startup; ids from `FIRST_ITEM_ID` on
//! are launcher items, whose property slots are created when their name
//! is first interned and filled on first promotion.  After every
//! mutation the category lists are re-sorted by current label and each
//! category's visibility is recomputed from whether it has children.

use vstd::prelude::*;
use vstd::seq_lib::group_to_multiset_ensures;
use vstd::multiset::group_multiset_axioms;
use vstd::assert_multisets_equal;
use crate::desktop::MenuProps;
use crate::desktop::clone_props;
use crate::desktop::category_props;
use crate::desktop::root_props;
use crate::strings::seq_char_le;
use crate::strings::str_le;
use crate::strings::lemma_seq_char_le_total;
use crate::strings::lemma_seq_char_le_trans;
use crate::taxonomy::NUM_CATEGORIES;
use crate::taxonomy::FIRST_ITEM_ID;
use crate::taxonomy::all_categories;
use crate::taxonomy::spec_category_label;
use crate::taxonomy::spec_category_of_idx;

verus! {

/// Child lists: one for the root (position 0) and one per category.
pub const CHILD_LISTS: usize = 12;

/// Whether `id` is an allocated launcher item with stored properties.
pub open spec fn spec_valid_item(props: Seq<Option<MenuProps>>, id: u64) -> bool {
    &&& FIRST_ITEM_ID <= id
    &&& id - FIRST_ITEM_ID < props.len()
    &&& props[id - FIRST_ITEM_ID] is Some
}

/// The current display label of launcher item `id`.
pub open spec fn spec_label_of(props: Seq<Option<MenuProps>>, id: u64) -> Seq<char> {
    props[id - FIRST_ITEM_ID]->Some_0.label@
}

/// Whether a child list is ordered by current label.
pub open spec fn spec_sorted_by_label(props: Seq<Option<MenuProps>>, ids: Seq<u64>) -> bool {
    forall|i: int, j: int|
        0 <= i < j < ids.len() ==> seq_char_le(
            spec_label_of(props, ids[i]),
            spec_label_of(props, ids[j]),
        )
}

/// Whether an item carries the given label.
pub open spec fn spec_label_pred(props: Seq<Option<MenuProps>>, l: Seq<char>) -> spec_fn(u64) -> bool {
    |y: u64| spec_label_of(props, y) == l
}

/// The items of a child list carrying a given label, in order.  A stable
/// re-sort keeps every such subsequence exactly as it was: equal labels
/// keep their prior relative order.
pub open spec fn spec_label_filter(
    props: Seq<Option<MenuProps>>,
    ids: Seq<u64>,
    l: Seq<char>,
) -> Seq<u64> {
    ids.filter(spec_label_pred(props, l))
}

/// A child list with every occurrence of one item removed.
pub open spec fn spec_without(list: Seq<u64>, id: u64) -> Seq<u64> {
    list.filter(|x: u64| x != id)
}

/// Purging an item from a list that does not hold it changes nothing.
pub proof fn lemma_without_fixed(t: Seq<u64>, id: u64)
    requires
        forall|k: int| 0 <= k < t.len() ==> t[k] != id,
    ensures
        spec_without(t, id) == t,
    decreases t.len(),
{
    reveal_with_fuel(Seq::filter, 2);
    if t.len() > 0 {
        lemma_without_fixed(t.drop_last(), id);
        assert(spec_without(t, id) =~= t);
    } else {
        assert(spec_without(t, id) =~= t);
    }
}

/// A child list after refiling one item: every occurrence of `id`
/// removed and, for the item's own category (`target`), `id` appended.
pub open spec fn spec_refiled(list: Seq<u64>, id: u64, target: bool) -> Seq<u64> {
    if target {
        spec_without(list, id).push(id)
    } else {
        spec_without(list, id)
    }
}

/// Two property records equal in everything but visibility.
pub open spec fn spec_props_like_except_visible(a: MenuProps, b: MenuProps) -> bool {
    &&& a.label == b.label
    &&& a.enabled == b.enabled
    &&& a.icon_name == b.icon_name
    &&& a.icon_data@ == b.icon_data@
    &&& a.entry_type == b.entry_type
    &&& a.children_display == b.children_display
}

pub struct MenuTree {
    pub revision: u64,
    pub children: Vec<Vec<u64>>,
    pub base_props: Vec<MenuProps>,
    pub item_props: Vec<Option<MenuProps>>,
}

impl MenuTree {
    /// Structure: one child list and one property record per reserved
    /// node, the root's children exactly the category ids, and every
    /// category child an item with stored properties.
    pub open spec fn wf(self) -> bool {
        &&& self.children@.len() == CHILD_LISTS
        &&& self.base_props@.len() == CHILD_LISTS
        &&& self.children@[0]@.len() == NUM_CATEGORIES
        &&& forall|k: int|
            0 <= k < NUM_CATEGORIES ==> #[trigger] self.children@[0]@[k] == k + 1
        &&& forall|c: int, k: int|
            1 <= c < CHILD_LISTS && 0 <= k < self.children@[c]@.len() ==> spec_valid_item(
                self.item_props@,
                #[trigger] self.children@[c]@[k],
            )
    }

    /// Whether the store holds properties for node `id`.
    pub open spec fn spec_known(self, id: u64) -> bool {
        if id < FIRST_ITEM_ID {
            true
        } else {
            spec_valid_item(self.item_props@, id)
        }
    }

    /// The properties stored for node `id`.
    pub open spec fn spec_props_of(self, id: u64) -> MenuProps {
        if id < FIRST_ITEM_ID {
            self.base_props@[id as int]
        } else {
            self.item_props@[id - FIRST_ITEM_ID]->Some_0
        }
    }

    /// The empty menu: root and category nodes pre-populated, every
    /// category childless, revision zero.
    pub fn new() -> (r: MenuTree)
        ensures
            r.wf(),
            r.revision == 0,
            r.item_props@.len() == 0,
            forall|c: int| 1 <= c < CHILD_LISTS ==> #[trigger] r.children@[c]@.len() == 0,
            r.base_props@[0].label@ == Seq::<char>::empty(),
            r.base_props@[0].visible == true,
            forall|c: int|
                1 <= c < CHILD_LISTS ==> (#[trigger] r.base_props@[c]).label@
                    == spec_category_label(spec_category_of_idx(c)) && r.base_props@[c].visible
                    == true && r.base_props@[c].enabled == true && r.base_props@[c].entry_type@
                    == "standard"@ && r.base_props@[c].children_display@ == "submenu"@,
    {
        let mut root_kids: Vec<u64> = Vec::new();
        let mut k: u64 = 1;
        while k <= NUM_CATEGORIES
            invariant
                1 <= k <= NUM_CATEGORIES + 1,
                root_kids@.len() == k - 1,
                forall|i: int| 0 <= i < k - 1 ==> #[trigger] root_kids@[i] == i + 1,
            decreases NUM_CATEGORIES + 1 - k,
        {
            root_kids.push(k);
            k = k + 1;
        }
        let mut children: Vec<Vec<u64>> = Vec::new();
        children.push(root_kids);
        let mut c: usize = 1;
        while c < CHILD_LISTS
            invariant
                1 <= c <= CHILD_LISTS,
                children@.len() == c,
                children@[0]@.len() == NUM_CATEGORIES,
                forall|i: int| 0 <= i < NUM_CATEGORIES ==> #[trigger] children@[0]@[i] == i + 1,
                forall|d: int| 1 <= d < c ==> #[trigger] children@[d]@.len() == 0,
            decreases CHILD_LISTS - c,
        {
            children.push(Vec::new());
            c = c + 1;
        }
        let mut base_props: Vec<MenuProps> = Vec::new();
        base_props.push(root_props());
        let cats = all_categories();
        let mut i: usize = 0;
        while i < cats.len()
            invariant
                i <= cats@.len(),
                cats@.len() == NUM_CATEGORIES,
                forall|p: int| 0 <= p < cats@.len() ==> #[trigger] cats@[p] == spec_category_of_idx(
                    p + 1,
                ),
                base_props@.len() == i + 1,
                base_props@[0].label@ == Seq::<char>::empty(),
                base_props@[0].visible == true,
                forall|d: int|
                    1 <= d < i + 1 ==> (#[trigger] base_props@[d]).label@ == spec_category_label(
                        spec_category_of_idx(d),
                    ) && base_props@[d].visible == true && base_props@[d].enabled == true
                        && base_props@[d].entry_type@ == "standard"@
                        && base_props@[d].children_display@ == "submenu"@,
            decreases cats@.len() - i,
        {
            base_props.push(category_props(cats[i]));
            i = i + 1;
        }
        MenuTree { revision: 0, children, base_props, item_props: Vec::new() }
    }

    /// The properties of node `id`, when the store knows it.
    pub fn get_props(&self, id: u64) -> (r: Option<&MenuProps>)
        requires
            self.wf(),
        ensures
            match r {
                Some(p) => self.spec_known(id) && *p == self.spec_props_of(id),
                None => !self.spec_known(id),
            },
    {
        if id < FIRST_ITEM_ID {
            Some(&self.base_props[id as usize])
        } else {
            let offset = id - FIRST_ITEM_ID;
            if offset >= self.item_props.len() as u64 {
                None
            } else {
                match &self.item_props[offset as usize] {
                    Some(p) => Some(p),
                    None => None,
                }
            }
        }
    }

    /// Opens a property slot for a newly interned launcher name.
    pub fn push_item_slot(&mut self)
        requires
            old(self).wf(),
        ensures
            final(self).wf(),
            final(self).item_props@ == old(self).item_props@.push(None::<MenuProps>),
            final(self).children == old(self).children,
            final(self).base_props == old(self).base_props,
            final(self).revision == old(self).revision,
    {
        self.item_props.push(None);
    }

    /// Stores the properties of launcher item `id`.
    pub fn set_item_props(&mut self, id: u64, props: MenuProps)
        requires
            old(self).wf(),
            FIRST_ITEM_ID <= id,
            id - FIRST_ITEM_ID < old(self).item_props@.len(),
        ensures
            final(self).wf(),
            final(self).item_props@ == old(self).item_props@.update(
                id - FIRST_ITEM_ID,
                Some(props),
            ),
            final(self).children == old(self).children,
            final(self).base_props == old(self).base_props,
            final(self).revision == old(self).revision,
    {
        let n = self.item_props.len();
        let offset = (id - FIRST_ITEM_ID) as usize;
        self.item_props[offset] = Some(props);
    }

    /// Appends item `id` to the children of category `cat`.
    pub fn append_child(&mut self, cat: usize, id: u64)
        requires
            old(self).wf(),
            1 <= cat < CHILD_LISTS,
            spec_valid_item(old(self).item_props@, id),
        ensures
            final(self).wf(),
            final(self).children@ == old(self).children@.update(
                cat as int,
                final(self).children@[cat as int],
            ),
            final(self).children@[cat as int]@ == old(self).children@[cat as int]@.push(id),
            final(self).base_props == old(self).base_props,
            final(self).item_props == old(self).item_props,
            final(self).revision == old(self).revision,
    {
        self.children[cat].push(id);
        proof {
            assert(final(self).children@ =~= old(self).children@.update(
                cat as int,
                final(self).children@[cat as int],
            ));
        }
    }

    /// Removes every occurrence of item `id` from the children of
    /// category `cat`; a no-op when it is absent.
    pub fn remove_child(&mut self, cat: usize, id: u64)
        requires
            old(self).wf(),
            1 <= cat < CHILD_LISTS,
        ensures
            final(self).wf(),
            final(self).children@ == old(self).children@.update(
                cat as int,
                final(self).children@[cat as int],
            ),
            final(self).children@[cat as int]@ == spec_without(
                old(self).children@[cat as int]@,
                id,
            ),
            forall|k: int|
                0 <= k < final(self).children@[cat as int]@.len() ==> final(self).children@[cat as int]@[k] != id,
            final(self).base_props == old(self).base_props,
            final(self).item_props == old(self).item_props,
            final(self).revision == old(self).revision,
    {
        let list = &self.children[cat];
        let mut kept: Vec<u64> = Vec::new();
        let mut i: usize = 0;
        let ghost lv = list@;
        proof {
            assert(lv.take(0int) =~= Seq::<u64>::empty());
            reveal_with_fuel(Seq::filter, 1);
        }
        while i < list.len()
            invariant
                i <= lv.len(),
                list@ == lv,
                list == &old(self).children@[cat as int],
                kept@ == spec_without(lv.take(i as int), id),
                forall|k: int| 0 <= k < kept@.len() ==> #[trigger] kept@[k] != id,
                forall|k: int| 0 <= k < kept@.len() ==> lv.contains(#[trigger] kept@[k]),
            decreases lv.len() - i,
        {
            proof {
                assert(lv.take(i + 1).drop_last() =~= lv.take(i as int));
                assert(lv.take(i + 1).last() == lv[i as int]);
                reveal_with_fuel(Seq::filter, 2);
            }
            let x = list[i];
            if x != id {
                kept.push(x);
                proof {
                    assert(lv.contains(lv[i as int]));
                }
            }
            i = i + 1;
        }
        proof {
            assert(lv.take(lv.len() as int) =~= lv);
        }
        self.children[cat] = kept;
        proof {
            assert(final(self).children@ =~= old(self).children@.update(
                cat as int,
                final(self).children@[cat as int],
            ));
            assert forall|k: int|
                0 <= k < final(self).children@[cat as int]@.len() implies spec_valid_item(
                final(self).item_props@,
                final(self).children@[cat as int]@[k],
            ) by {
                let x = final(self).children@[cat as int]@[k];
                let j = choose|j: int| 0 <= j < lv.len() && lv[j] == x;
            }
        }
    }

    /// Removes item `id` from whatever category lists it: promotion
    /// files an item under exactly one category, wherever it stood
    /// before.
    pub fn remove_from_all(&mut self, id: u64)
        requires
            old(self).wf(),
        ensures
            final(self).wf(),
            final(self).children@.len() == old(self).children@.len(),
            final(self).children@[0] == old(self).children@[0],
            forall|c: int|
                1 <= c < CHILD_LISTS ==> #[trigger] final(self).children@[c]@ == spec_without(
                    old(self).children@[c]@,
                    id,
                ),
            forall|c: int, k: int|
                1 <= c < CHILD_LISTS && 0 <= k < final(self).children@[c]@.len() ==> #[trigger]
                final(self).children@[c]@[k] != id,
            final(self).base_props == old(self).base_props,
            final(self).item_props == old(self).item_props,
            final(self).revision == old(self).revision,
    {
        let mut c: usize = 1;
        while c < CHILD_LISTS
            invariant
                1 <= c <= CHILD_LISTS,
                self.wf(),
                self.children@.len() == old(self).children@.len(),
                self.children@[0] == old(self).children@[0],
                forall|d: int|
                    1 <= d < c ==> #[trigger] self.children@[d]@ == spec_without(
                        old(self).children@[d]@,
                        id,
                    ),
                forall|d: int, k: int|
                    1 <= d < c && 0 <= k < self.children@[d]@.len() ==> #[trigger]
                    self.children@[d]@[k] != id,
                forall|d: int|
                    c <= d < CHILD_LISTS ==> #[trigger] self.children@[d] == old(self).children@[d],
                self.base_props == old(self).base_props,
                self.item_props == old(self).item_props,
                self.revision == old(self).revision,
            decreases CHILD_LISTS - c,
        {
            self.remove_child(c, id);
            c = c + 1;
        }
    }

    /// Counts one externally visible change.
    pub fn bump_revision(&mut self)
        requires
            old(self).wf(),
            old(self).revision < u64::MAX,
        ensures
            final(self).wf(),
            final(self).revision == old(self).revision + 1,
            final(self).children == old(self).children,
            final(self).base_props == old(self).base_props,
            final(self).item_props == old(self).item_props,
    {
        self.revision = self.revision + 1;
    }
}

/// The position where `ids[i]` belongs among the first `i` (sorted)
/// entries: after every entry whose label precedes or equals its own.
fn find_insert_pos(ids: &Vec<u64>, props: &Vec<Option<MenuProps>>, i: usize) -> (j: usize)
    requires
        i < ids@.len(),
        forall|k: int| 0 <= k < ids@.len() ==> spec_valid_item(props@, #[trigger] ids@[k]),
    ensures
        j <= i,
        forall|k: int|
            0 <= k < j ==> seq_char_le(
                spec_label_of(props@, #[trigger] ids@[k]),
                spec_label_of(props@, ids@[i as int]),
            ),
        j < i ==> !seq_char_le(
            spec_label_of(props@, ids@[j as int]),
            spec_label_of(props@, ids@[i as int]),
        ),
{
    let mut j: usize = 0;
    while j < i
        invariant
            j <= i,
            i < ids@.len(),
            forall|k: int| 0 <= k < ids@.len() ==> spec_valid_item(props@, #[trigger] ids@[k]),
            forall|k: int|
                0 <= k < j ==> seq_char_le(
                    spec_label_of(props@, #[trigger] ids@[k]),
                    spec_label_of(props@, ids@[i as int]),
                ),
        decreases i - j,
    {
        if !label_le(props, ids[j], ids[i]) {
            return j;
        }
        j = j + 1;
    }
    j
}

/// Whether the label of item `a` precedes or equals that of item `b`.
fn label_le(props: &Vec<Option<MenuProps>>, a: u64, b: u64) -> (r: bool)
    requires
        spec_valid_item(props@, a),
        spec_valid_item(props@, b),
    ensures
        r == seq_char_le(spec_label_of(props@, a), spec_label_of(props@, b)),
{
    let n = props.len();
    let pa = match &props[(a - FIRST_ITEM_ID) as usize] {
        Some(p) => p,
        None => unreached(),
    };
    let pb = match &props[(b - FIRST_ITEM_ID) as usize] {
        Some(p) => p,
        None => unreached(),
    };
    str_le(pa.label.as_str(), pb.label.as_str())
}

/// Moving the entry at `i` to position `j <= i` rearranges a sequence
/// without changing what it holds.
proof fn lemma_remove_insert_multiset(s: Seq<u64>, i: int, j: int)
    requires
        0 <= i < s.len(),
        0 <= j <= i,
    ensures
        s.remove(i).insert(j, s[i]).to_multiset() == s.to_multiset(),
{
    broadcast use group_multiset_axioms;

    let x = s[i];
    let u = s.remove(i);
    let t = u.insert(j, x);
    assert(t.remove(j) =~= u);
    s.to_multiset_ensures();
    t.to_multiset_ensures();
    assert(u.to_multiset() =~= s.to_multiset().remove(x));
    assert(t[j] == x);
    assert(t.remove(j).to_multiset() =~= t.to_multiset().remove(x));
    assert(t.contains(x));
    assert(s.contains(x));
    assert(t.to_multiset().count(x) > 0);
    assert(s.to_multiset().count(x) > 0);
    assert_multisets_equal!(t.to_multiset(), s.to_multiset(), y => {
        if y == x {
            assert(t.to_multiset().remove(x).count(x) == t.to_multiset().count(x) - 1);
            assert(s.to_multiset().remove(x).count(x) == s.to_multiset().count(x) - 1);
        } else {
            assert(t.to_multiset().remove(x).count(y) == t.to_multiset().count(y));
            assert(s.to_multiset().remove(x).count(y) == s.to_multiset().count(y));
        }
    });
}


/// Moving the entry at `i` forward to `j` — past entries whose labels all
/// strictly exceed its own — keeps, for every label, the subsequence of
/// entries carrying that label unchanged: the step of a stable insertion
/// sort.
proof fn lemma_refile_step_stable(
    props: Seq<Option<MenuProps>>,
    pre: Seq<u64>,
    cur: Seq<u64>,
    i: int,
    j: int,
    l: Seq<char>,
)
    requires
        0 <= j < i < pre.len(),
        cur == pre.remove(i).insert(j, pre[i]),
        spec_sorted_by_label(props, pre.take(i)),
        !seq_char_le(spec_label_of(props, pre[j]), spec_label_of(props, pre[i])),
    ensures
        spec_label_filter(props, cur, l) == spec_label_filter(props, pre, l),
{
    let pred = spec_label_pred(props, l);
    let x = pre[i];
    let lx = spec_label_of(props, x);
    let fa = pre.take(j);
    let fb = pre.subrange(j, i);
    let fc = pre.skip(i + 1);
    assert(((fa + fb) + seq![x]) + fc =~= pre);
    assert(((fa + seq![x]) + fb) + fc =~= cur);
    Seq::filter_distributes_over_add(fa, fb, pred);
    Seq::filter_distributes_over_add(fa + fb, seq![x], pred);
    Seq::filter_distributes_over_add((fa + fb) + seq![x], fc, pred);
    Seq::filter_distributes_over_add(fa, seq![x], pred);
    Seq::filter_distributes_over_add(fa + seq![x], fb, pred);
    Seq::filter_distributes_over_add((fa + seq![x]) + fb, fc, pred);
    reveal_with_fuel(Seq::filter, 2);
    assert(seq![x].drop_last() =~= Seq::<u64>::empty());
    if pred(x) {
        assert forall|k: int| 0 <= k < fb.len() implies !pred(fb[k]) by {
            assert(fb[k] == pre[j + k]);
            let lk = spec_label_of(props, pre[j + k]);
            let lj = spec_label_of(props, pre[j]);
            if pred(fb[k]) {
                if k == 0 {
                    lemma_seq_char_le_total(lj, lj);
                } else {
                    assert(pre.take(i)[j] == pre[j]);
                    assert(pre.take(i)[j + k] == pre[j + k]);
                    assert(seq_char_le(lj, lk));
                }
                assert(false);
            }
        }
        if fb.filter(pred).len() > 0 {
            let e = fb.filter(pred)[0];
            assert(fb.filter(pred).contains(e));
            fb.lemma_filter_contains_rev(pred, e);
            fb.lemma_filter_pred(pred, 0);
            let k = choose|k: int| 0 <= k < fb.len() && fb[k] == e;
            assert(false);
        }
        assert(fb.filter(pred) =~= Seq::<u64>::empty());
        assert(seq![x].filter(pred) =~= seq![x]);
        assert(spec_label_filter(props, cur, l) =~= spec_label_filter(props, pre, l));
    } else {
        assert(seq![x].filter(pred) =~= Seq::<u64>::empty());
        assert(spec_label_filter(props, cur, l) =~= spec_label_filter(props, pre, l));
    }
}

/// Sorts a child list by current label, stably and in place.
pub fn sort_ids(ids: &mut Vec<u64>, props: &Vec<Option<MenuProps>>)
    requires
        forall|k: int| 0 <= k < old(ids)@.len() ==> spec_valid_item(props@, #[trigger] old(ids)@[k]),
    ensures
        final(ids)@.len() == old(ids)@.len(),
        final(ids)@.to_multiset() == old(ids)@.to_multiset(),
        spec_sorted_by_label(props@, final(ids)@),
        forall|l: Seq<char>|
            #[trigger] spec_label_filter(props@, final(ids)@, l) == spec_label_filter(
                props@,
                old(ids)@,
                l,
            ),
        forall|k: int| 0 <= k < final(ids)@.len() ==> spec_valid_item(
            props@,
            #[trigger] final(ids)@[k],
        ),
{
    let ghost orig = ids@;
    if ids.len() <= 1 {
        return;
    }
    let mut i: usize = 1;
    while i < ids.len()
        invariant
            1 <= i <= ids@.len(),
            ids@.len() == orig.len(),
            ids@.to_multiset() == orig.to_multiset(),
            forall|l: Seq<char>|
                #[trigger] spec_label_filter(props@, ids@, l) == spec_label_filter(props@, orig, l),
            forall|k: int| 0 <= k < ids@.len() ==> spec_valid_item(props@, #[trigger] ids@[k]),
            spec_sorted_by_label(props@, ids@.take(i as int)),
        decreases ids@.len() - i,
    {
        let ghost pre = ids@;
        let j = find_insert_pos(ids, props, i);
        if j < i {
            let x = ids.remove(i);
            ids.insert(j, x);
            proof {
                lemma_remove_insert_multiset(pre, i as int, j as int);
                let cur = ids@;
                assert(cur =~= pre.remove(i as int).insert(j as int, pre[i as int]));
                assert(forall|k: int| 0 <= k < j ==> cur[k] == pre[k]);
                assert(cur[j as int] == pre[i as int]);
                assert(forall|k: int| j < k <= i ==> cur[k] == pre[k - 1]);
                assert(forall|k: int| i < k < cur.len() ==> cur[k] == pre[k]);
                let lx = spec_label_of(props@, pre[i as int]);
                lemma_seq_char_le_total(lx, spec_label_of(props@, pre[j as int]));
                assert(seq_char_le(lx, spec_label_of(props@, pre[j as int])));
                assert forall|p: int, q: int|
                    #![trigger cur.take(i + 1)[p], cur.take(i + 1)[q]]
                    0 <= p < q < i + 1 implies seq_char_le(
                    spec_label_of(props@, cur.take(i + 1)[p]),
                    spec_label_of(props@, cur.take(i + 1)[q]),
                ) by {
                    assert(cur.take(i + 1)[p] == cur[p]);
                    assert(cur.take(i + 1)[q] == cur[q]);
                    if q < j {
                        assert(pre.take(i as int)[p] == pre[p]);
                        assert(pre.take(i as int)[q] == pre[q]);
                    } else if p < j && q == j {
                        assert(seq_char_le(spec_label_of(props@, pre[p]), lx));
                    } else if p < j && q > j {
                        assert(pre.take(i as int)[p] == pre[p]);
                        assert(pre.take(i as int)[q - 1] == pre[q - 1]);
                        assert(p <= q - 1);
                        if p == q - 1 {
                            assert(false);
                        }
                    } else if p == j {
                        if q - 1 == j {
                            assert(seq_char_le(lx, spec_label_of(props@, pre[j as int])));
                        } else {
                            assert(pre.take(i as int)[j as int] == pre[j as int]);
                            assert(pre.take(i as int)[q - 1] == pre[q - 1]);
                            assert(seq_char_le(
                                spec_label_of(props@, pre[j as int]),
                                spec_label_of(props@, pre[q - 1]),
                            ));
                            lemma_seq_char_le_trans(
                                lx,
                                spec_label_of(props@, pre[j as int]),
                                spec_label_of(props@, pre[q - 1]),
                            );
                        }
                    } else {
                        assert(pre.take(i as int)[p - 1] == pre[p - 1]);
                        assert(pre.take(i as int)[q - 1] == pre[q - 1]);
                    }
                }
                assert forall|l: Seq<char>|
                    #[trigger] spec_label_filter(props@, cur, l) == spec_label_filter(
                    props@,
                    pre,
                    l,
                ) by {
                    lemma_refile_step_stable(props@, pre, cur, i as int, j as int, l);
                }
            }
        } else {
            proof {
                let cur = ids@;
                assert forall|p: int, q: int|
                    #![trigger cur.take(i + 1)[p], cur.take(i + 1)[q]]
                    0 <= p < q < i + 1 implies seq_char_le(
                    spec_label_of(props@, cur.take(i + 1)[p]),
                    spec_label_of(props@, cur.take(i + 1)[q]),
                ) by {
                    assert(cur.take(i + 1)[p] == cur[p]);
                    assert(cur.take(i + 1)[q] == cur[q]);
                    if q < i {
                        assert(cur.take(i as int)[p] == cur[p]);
                        assert(cur.take(i as int)[q] == cur[q]);
                    } else {
                        assert(seq_char_le(
                            spec_label_of(props@, cur[p]),
                            spec_label_of(props@, cur[i as int]),
                        ));
                    }
                }
            }
        }
        i = i + 1;
    }
    proof {
        assert(ids@.take(ids@.len() as int) =~= ids@);
    }
}

impl MenuTree {
    /// Recomputes every category's visibility (it has children) and
    /// re-sorts every category's children by current label — stably, so
    /// children with equal labels keep their prior relative order;
    /// invoked after any mutation that can change membership or a label.
    pub fn refresh(&mut self)
        requires
            old(self).wf(),
        ensures
            final(self).wf(),
            final(self).revision == old(self).revision,
            final(self).item_props == old(self).item_props,
            final(self).children@.len() == old(self).children@.len(),
            final(self).children@[0] == old(self).children@[0],
            final(self).base_props@.len() == old(self).base_props@.len(),
            final(self).base_props@[0] == old(self).base_props@[0],
            forall|c: int|
                1 <= c < CHILD_LISTS ==> {
                    &&& (#[trigger] final(self).children@[c])@.to_multiset() == old(self).children@[c]@.to_multiset()
                    &&& final(self).children@[c]@.len() == old(self).children@[c]@.len()
                    &&& spec_sorted_by_label(final(self).item_props@, final(self).children@[c]@)
                    &&& forall|l: Seq<char>|
                        #[trigger] spec_label_filter(
                            final(self).item_props@,
                            final(self).children@[c]@,
                            l,
                        ) == spec_label_filter(
                            final(self).item_props@,
                            old(self).children@[c]@,
                            l,
                        )
                },
            forall|c: int|
                1 <= c < CHILD_LISTS ==> {
                    &&& (#[trigger] final(self).base_props@[c]).visible == (old(self).children@[c]@.len() > 0)
                    &&& spec_props_like_except_visible(
                        final(self).base_props@[c],
                        old(self).base_props@[c],
                    )
                },
    {
        let mut c: usize = 1;
        while c < CHILD_LISTS
            invariant
                1 <= c <= CHILD_LISTS,
                self.wf(),
                self.revision == old(self).revision,
                self.item_props == old(self).item_props,
                self.children@.len() == old(self).children@.len(),
                self.children@[0] == old(self).children@[0],
                self.base_props@.len() == old(self).base_props@.len(),
                self.base_props@[0] == old(self).base_props@[0],
                forall|d: int|
                    1 <= d < c ==> {
                        &&& (#[trigger] self.children@[d])@.to_multiset() == old(self).children@[d]@.to_multiset()
                        &&& self.children@[d]@.len() == old(self).children@[d]@.len()
                        &&& spec_sorted_by_label(self.item_props@, self.children@[d]@)
                        &&& forall|l: Seq<char>|
                            #[trigger] spec_label_filter(self.item_props@, self.children@[d]@, l)
                                == spec_label_filter(
                                self.item_props@,
                                old(self).children@[d]@,
                                l,
                            )
                    },
                forall|d: int|
                    1 <= d < c ==> {
                        &&& (#[trigger] self.base_props@[d]).visible == (old(self).children@[d]@.len() > 0)
                        &&& spec_props_like_except_visible(
                            self.base_props@[d],
                            old(self).base_props@[d],
                        )
                    },
                forall|d: int|
                    c <= d < CHILD_LISTS ==> #[trigger] self.children@[d] == old(self).children@[d],
                forall|d: int|
                    c <= d < CHILD_LISTS ==> #[trigger] self.base_props@[d] == old(self).base_props@[d],
            decreases CHILD_LISTS - c,
        {
            let has_children = !self.children[c].is_empty();
            let mut p = clone_props(&self.base_props[c]);
            p.visible = has_children;
            self.base_props[c] = p;
            let mut list: Vec<u64> = Vec::new();
            core::mem::swap(&mut list, &mut self.children[c]);
            sort_ids(&mut list, &self.item_props);
            self.children[c] = list;
            c = c + 1;
        }
    }
}

} // verus!
