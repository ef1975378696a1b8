//! The read surface of the menu: typed property values, property
//! filtering by name, and the recursive layout tree.
//!
//! Properties travel as a list of (name, value) pairs built from a typed
//! record through a fixed name table — no runtime reflection.  A layout
//! query returns a tree of nodes rooted at any known node: `depth == 0`
//! keeps children out, a positive depth limits recursion, a negative
//! depth does not.

use vstd::prelude::*;
use crate::desktop::MenuProps;
use crate::strings::str_eq;
use crate::taxonomy::FIRST_ITEM_ID;
use crate::tree::CHILD_LISTS;
use crate::tree::MenuTree;
use crate::tree::spec_valid_item;

verus! {

/// A property value as the protocol carries it.
pub enum PropValue {
    Str(String),
    Bool(bool),
    Bytes(Vec<u8>),
    Int(i32),
    StrList(Vec<String>),
}

/// The mathematical shape of a property value.
pub enum SpecProp {
    Str(Seq<char>),
    Bool(bool),
    Bytes(Seq<u8>),
    Int(int),
    StrList(Seq<Seq<char>>),
}

impl View for PropValue {
    type V = SpecProp;

    open spec fn view(&self) -> SpecProp {
        match self {
            PropValue::Str(s) => SpecProp::Str(s@),
            PropValue::Bool(b) => SpecProp::Bool(*b),
            PropValue::Bytes(v) => SpecProp::Bytes(v@),
            PropValue::Int(i) => SpecProp::Int(*i as int),
            PropValue::StrList(l) => SpecProp::StrList(l@.map_values(|s: String| s@)),
        }
    }
}

/// The view of one built property pair.
pub open spec fn spec_pair_view(pr: (String, PropValue)) -> (Seq<char>, SpecProp) {
    (pr.0@, pr.1@)
}

/// The full property list of a record, in fixed name order.
pub open spec fn spec_prop_pairs(p: MenuProps) -> Seq<(Seq<char>, SpecProp)> {
    seq![
        ("label"@, SpecProp::Str(p.label@)),
        ("visible"@, SpecProp::Bool(p.visible)),
        ("enabled"@, SpecProp::Bool(p.enabled)),
        ("icon-name"@, SpecProp::Str(p.icon_name@)),
        ("icon-data"@, SpecProp::Bytes(p.icon_data@)),
        ("type"@, SpecProp::Str(p.entry_type@)),
        ("children-display"@, SpecProp::Str(p.children_display@)),
    ]
}

/// An empty filter admits every property; otherwise only the named ones.
pub open spec fn spec_filter_names(
    pairs: Seq<(Seq<char>, SpecProp)>,
    filter: Seq<Seq<char>>,
) -> Seq<(Seq<char>, SpecProp)> {
    if filter.len() == 0 {
        pairs
    } else {
        pairs.filter(|pr: (Seq<char>, SpecProp)| filter.contains(pr.0))
    }
}

/// Whether the filter names `key`.
pub fn filter_names(filter: &Vec<String>, key: &str) -> (r: bool)
    ensures
        r == filter@.map_values(|s: String| s@).contains(key@),
{
    let ghost fv = filter@.map_values(|s: String| s@);
    let mut i: usize = 0;
    while i < filter.len()
        invariant
            i <= filter@.len(),
            fv == filter@.map_values(|s: String| s@),
            forall|j: int| 0 <= j < i ==> fv[j] != key@,
        decreases filter@.len() - i,
    {
        if str_eq(filter[i].as_str(), key) {
            proof {
                assert(fv[i as int] == key@);
            }
            return true;
        }
        i = i + 1;
    }
    proof {
        if fv.contains(key@) {
            let j = choose|j: int| 0 <= j < fv.len() && fv[j] == key@;
        }
    }
    false
}

/// The property pairs of one record, in fixed order.
pub fn all_pairs(p: &MenuProps) -> (r: Vec<(String, PropValue)>)
    ensures
        r@.map_values(|pr: (String, PropValue)| spec_pair_view(pr)) == spec_prop_pairs(*p),
{
    let mut out: Vec<(String, PropValue)> = Vec::new();
    out.push(("label".to_owned(), PropValue::Str(p.label.clone())));
    out.push(("visible".to_owned(), PropValue::Bool(p.visible)));
    out.push(("enabled".to_owned(), PropValue::Bool(p.enabled)));
    out.push(("icon-name".to_owned(), PropValue::Str(p.icon_name.clone())));
    out.push(("icon-data".to_owned(), PropValue::Bytes(
        vstd::slice::slice_to_vec(p.icon_data.as_slice()),
    )));
    out.push(("type".to_owned(), PropValue::Str(p.entry_type.clone())));
    out.push(("children-display".to_owned(), PropValue::Str(p.children_display.clone())));
    proof {
        assert(out@.map_values(|pr: (String, PropValue)| spec_pair_view(pr)) =~= spec_prop_pairs(
            *p,
        ));
    }
    out
}

/// Keeps the pairs the filter admits, in order.
pub fn filter_pairs(pairs: Vec<(String, PropValue)>, filter: &Vec<String>) -> (r: Vec<
    (String, PropValue),
>)
    ensures
        r@.map_values(|pr: (String, PropValue)| spec_pair_view(pr)) == spec_filter_names(
            pairs@.map_values(|pr: (String, PropValue)| spec_pair_view(pr)),
            filter@.map_values(|s: String| s@),
        ),
{
    if filter.len() == 0 {
        return pairs;
    }
    let n = pairs.len();
    let rest = pairs;
    let ghost pv = rest@.map_values(|pr: (String, PropValue)| spec_pair_view(pr));
    let ghost fv = filter@.map_values(|s: String| s@);
    let mut out: Vec<(String, PropValue)> = Vec::new();
    proof {
        assert(pv.take(0int) =~= Seq::<(Seq<char>, SpecProp)>::empty());
        reveal_with_fuel(Seq::filter, 1);
    }
    let mut idx: usize = 0;
    while idx < n
        invariant
            idx <= n,
            n == pv.len(),
            rest@.len() == n,
            pv == rest@.map_values(|pr: (String, PropValue)| spec_pair_view(pr)),
            fv == filter@.map_values(|s: String| s@),
            fv.len() > 0,
            out@.map_values(|pr: (String, PropValue)| spec_pair_view(pr)) == pv.take(
                idx as int,
            ).filter(|pr: (Seq<char>, SpecProp)| fv.contains(pr.0)),
        decreases n - idx,
    {
        proof {
            assert(pv.take(idx + 1).drop_last() =~= pv.take(idx as int));
            assert(pv.take(idx + 1).last() == pv[idx as int]);
            reveal_with_fuel(Seq::filter, 2);
        }
        let ghost before = out@.map_values(|pr: (String, PropValue)| spec_pair_view(pr));
        let keep = filter_names(filter, rest[idx].0.as_str());
        if keep {
            let item = clone_pair(&rest[idx]);
            out.push(item);
            proof {
                assert(spec_pair_view(out@.last()) == pv[idx as int]);
                assert(out@.map_values(|pr: (String, PropValue)| spec_pair_view(pr)) =~= before
                    .push(pv[idx as int]));
            }
        }
        idx = idx + 1;
    }
    proof {
        assert(pv.take(n as int) =~= pv);
    }
    out
}

/// An exact copy of one property pair.
fn clone_pair(pr: &(String, PropValue)) -> (r: (String, PropValue))
    ensures
        spec_pair_view(r) == spec_pair_view(*pr),
{
    let v = match &pr.1 {
        PropValue::Str(s) => PropValue::Str(s.clone()),
        PropValue::Bool(b) => PropValue::Bool(*b),
        PropValue::Bytes(d) => PropValue::Bytes(vstd::slice::slice_to_vec(d.as_slice())),
        PropValue::Int(i) => PropValue::Int(*i),
        PropValue::StrList(l) => PropValue::StrList(clone_string_vec(l)),
    };
    (pr.0.clone(), v)
}

fn clone_string_vec(l: &Vec<String>) -> (r: Vec<String>)
    ensures
        r@.map_values(|s: String| s@) == l@.map_values(|s: String| s@),
{
    let mut out: Vec<String> = Vec::new();
    let mut i: usize = 0;
    while i < l.len()
        invariant
            i <= l@.len(),
            out@.len() == i,
            forall|j: int| 0 <= j < i ==> #[trigger] out@[j]@ == l@[j]@,
        decreases l@.len() - i,
    {
        out.push(l[i].clone());
        i = i + 1;
    }
    proof {
        assert(out@.map_values(|s: String| s@) =~= l@.map_values(|s: String| s@));
    }
    out
}

/// One node of a layout tree: its id, its filtered properties, and its
/// children.
pub struct LayoutNode {
    pub id: u64,
    pub props: Vec<(String, PropValue)>,
    pub children: Vec<LayoutNode>,
}

/// The node ids listed as children of `id`: the stored child list for the
/// root and the categories, nothing for launcher items.
pub open spec fn spec_children_of(t: MenuTree, id: u64) -> Seq<u64> {
    if id < CHILD_LISTS {
        t.children@[id as int]@
    } else {
        Seq::<u64>::empty()
    }
}

/// The depth left for children: a positive bound counts down, an
/// unlimited (negative) one stays.
pub open spec fn spec_next_depth(depth: int) -> int {
    if depth > 0 {
        depth - 1
    } else {
        depth
    }
}

/// How far a node can be from a leaf: the root is two steps away (via a
/// category), a category one, a launcher item none.  Bounds the layout
/// recursion.
pub open spec fn spec_rank(id: u64) -> nat {
    if id == 0 {
        2
    } else if id < CHILD_LISTS {
        1
    } else {
        0
    }
}

/// Whether `node` is the layout tree of `id`: its filtered properties,
/// and — while the depth allows — one child node per stored child,
/// recursively.
pub open spec fn spec_layout_ok(
    t: MenuTree,
    node: LayoutNode,
    id: u64,
    filter: Seq<Seq<char>>,
    depth: int,
    fuel: nat,
) -> bool
    decreases fuel,
{
    &&& node.id == id
    &&& node.props@.map_values(|pr: (String, PropValue)| spec_pair_view(pr)) == spec_filter_names(
        spec_prop_pairs(t.spec_props_of(id)),
        filter,
    )
    &&& if depth == 0 || fuel == 0 {
        node.children@.len() == 0
    } else {
        let kids = spec_children_of(t, id);
        &&& node.children@.len() == kids.len()
        &&& forall|k: int|
            0 <= k < kids.len() ==> spec_layout_ok(
                t,
                #[trigger] node.children@[k],
                kids[k],
                filter,
                spec_next_depth(depth),
                (fuel - 1) as nat,
            )
    }
}

/// Builds the layout tree rooted at `root`: the node's properties
/// restricted to the filter and, while `depth` allows, the recursively
/// built children — category nodes under the root, launcher items under
/// a category, nothing below an item.
pub fn build_layout(t: &MenuTree, root: u64, depth: i32, filter: &Vec<String>) -> (r: LayoutNode)
    requires
        t.wf(),
        t.spec_known(root),
    ensures
        spec_layout_ok(
            *t,
            r,
            root,
            filter@.map_values(|s: String| s@),
            depth as int,
            spec_rank(root) + 1,
        ),
    decreases spec_rank(root),
{
    let ghost fv = filter@.map_values(|s: String| s@);
    let props = match t.get_props(root) {
        Some(p) => filter_pairs(all_pairs(p), filter),
        None => unreached(),
    };
    let mut children: Vec<LayoutNode> = Vec::new();
    let next_depth: i32 = if depth > 0 {
        depth - 1
    } else {
        depth
    };
    if depth != 0 && root < CHILD_LISTS as u64 {
        let ghost kids = spec_children_of(*t, root);
        let list_len = t.children[root as usize].len();
        let mut k: usize = 0;
        while k < list_len
            invariant
                t.wf(),
                root < CHILD_LISTS,
                t.spec_known(root),
                kids == spec_children_of(*t, root),
                list_len == kids.len(),
                k <= list_len,
                fv == filter@.map_values(|s: String| s@),
                next_depth as int == spec_next_depth(depth as int),
                children@.len() == k,
                forall|j: int|
                    0 <= j < k ==> spec_layout_ok(
                        *t,
                        #[trigger] children@[j],
                        kids[j],
                        fv,
                        spec_next_depth(depth as int),
                        spec_rank(root),
                    ),
            decreases list_len - k,
        {
            let kid = t.children[root as usize][k];
            proof {
                assert(kids[k as int] == kid);
                if root == 0 {
                    assert(t.children@[0]@[k as int] == k + 1);
                    assert(1 <= kid < CHILD_LISTS);
                } else {
                    assert(spec_valid_item(t.item_props@, kid));
                    assert(kid >= FIRST_ITEM_ID);
                }
                assert(spec_rank(kid) + 1 == spec_rank(root));
            }
            let node = build_layout(t, kid, next_depth, filter);
            children.push(node);
            k = k + 1;
        }
    }
    LayoutNode { id: root, props, children }
}

/// Law: layout recursion respects its depth bound.  A depth-one query
/// at the root lists exactly the category nodes, each without
/// grandchildren; an unlimited (negative) depth reaches every leaf: the
/// full child list under each category, and nothing below a launcher
/// item.
pub proof fn lemma_layout_depth(t: MenuTree, one: LayoutNode, full: LayoutNode, filter: Seq<
    Seq<char>,
>)
    requires
        t.wf(),
        spec_layout_ok(t, one, 0, filter, 1, spec_rank(0) + 1),
        spec_layout_ok(t, full, 0, filter, -1, spec_rank(0) + 1),
    ensures
        one.children@.len() == t.children@[0]@.len(),
        forall|k: int|
            0 <= k < one.children@.len() ==> (#[trigger] one.children@[k]).children@.len() == 0,
        full.children@.len() == t.children@[0]@.len(),
        forall|k: int|
            0 <= k < full.children@.len() ==> (#[trigger] full.children@[k]).id == k + 1
                && full.children@[k].children@.len() == t.children@[k + 1]@.len(),
        forall|k: int, m: int|
            0 <= k < full.children@.len() && 0 <= m < full.children@[k].children@.len() ==> {
                &&& (#[trigger] full.children@[k].children@[m]).id == t.children@[k + 1]@[m]
                &&& full.children@[k].children@[m].children@.len() == 0
            },
{
    assert forall|k: int|
        0 <= k < one.children@.len() implies (#[trigger] one.children@[k]).children@.len()
        == 0 by {
        assert(spec_layout_ok(t, one.children@[k], t.children@[0]@[k], filter, 0, 2));
    }
    assert forall|k: int|
        0 <= k < full.children@.len() implies (#[trigger] full.children@[k]).id == k + 1
            && full.children@[k].children@.len() == t.children@[k + 1]@.len() by {
        assert(spec_layout_ok(t, full.children@[k], t.children@[0]@[k], filter, -1, 2));
        assert(t.children@[0]@[k] == k + 1);
    }
    assert forall|k: int, m: int|
        0 <= k < full.children@.len() && 0 <= m
            < full.children@[k].children@.len() implies ((#[trigger] full.children@[k].children@[m]).id
            == t.children@[k + 1]@[m] && full.children@[k].children@[m].children@.len() == 0) by {
        assert(spec_layout_ok(t, full.children@[k], t.children@[0]@[k], filter, -1, 2));
        assert(t.children@[0]@[k] == k + 1);
        let cat = full.children@[k];
        assert(spec_layout_ok(t, cat.children@[m], t.children@[k + 1]@[m], filter, -1, 1));
        let item = t.children@[k + 1]@[m];
        assert(spec_valid_item(t.item_props@, item));
        assert(item >= FIRST_ITEM_ID);
        assert(spec_children_of(t, item) =~= Seq::<u64>::empty());
    }
}

} // verus!
