//! The menu engine: the shared state behind the protocol, the
//! reconciliation of filesystem add/remove events into it, and the
//! protocol's read and activation surface.
//!
//! Every mutating call is one transaction: it either changes nothing
//! observable or commits a single update ending in one revision bump,
//! and reports in its outcome which signals the transport should emit.

use vstd::prelude::*;
use crate::cache::Bucket;
use crate::cache::CacheSlot;
use crate::desktop::Launcher;
use crate::desktop::MenuProps;
use crate::desktop::clone_props;
use crate::desktop::launcher_props;
use crate::desktop::launcher_updated;
use crate::desktop::spec_launcher_props;
use crate::desktop::spec_launcher_updated;
use crate::desktop::tombstone_launcher;
use crate::ids::IdAllocator;
use crate::layout::LayoutNode;
use crate::layout::PropValue;
use crate::layout::SpecProp;
use crate::layout::all_pairs;
use crate::layout::build_layout;
use crate::layout::filter_pairs;
use crate::layout::spec_filter_names;
use crate::layout::spec_layout_ok;
use crate::layout::spec_pair_view;
use crate::layout::spec_prop_pairs;
use crate::layout::spec_rank;
use crate::strings::spec_split_char;
use crate::strings::split_char;
use crate::strings::str_eq;
use crate::ids::spec_id_for_name;
use crate::ids::spec_name_index;
use crate::ids::lemma_name_index;
use crate::paths::path_file_stem;
use crate::paths::path_parent;
use crate::paths::find_dir;
use crate::paths::spec_dir_index;
use crate::paths::spec_file_stem;
use crate::paths::spec_parent;
use crate::taxonomy::Category;
use crate::taxonomy::effective_category;
use crate::taxonomy::FIRST_ITEM_ID;
use crate::taxonomy::category_idx;
use crate::taxonomy::spec_category_idx;
use crate::taxonomy::spec_effective_category;
use crate::tree::CHILD_LISTS;
use crate::tree::MenuTree;
use crate::tree::spec_sorted_by_label;
use crate::tree::spec_label_filter;
use crate::tree::spec_refiled;
use crate::tree::spec_without;
use crate::tree::lemma_without_fixed;
use crate::tree::spec_props_like_except_visible;

verus! {

/// What an add transaction did: promoted the record into the displayed
/// tree (emit a properties-changed and a layout-changed signal), only
/// recorded it in the cache (emit nothing), or refused the path.
pub enum AddOutcome {
    Updated { id: u64, props: MenuProps, revision: u64 },
    Cached { id: u64 },
    UnknownDirectory,
}

/// What a remove transaction did: promoted the revealed record (emit
/// both signals), removed the item with nothing to announce, found no
/// record at the slot, or refused the path.
pub enum RemoveOutcome {
    Promoted { id: u64, props: MenuProps, revision: u64 },
    Removed { id: u64 },
    NotFound,
    UnknownDirectory,
}

/// A typed protocol error: the queried item is unknown, or the queried
/// property name is not one of the supported keys.
#[derive(Debug, PartialEq, Eq, Structural)]
pub enum MenuError {
    ItemNotFound,
    PropertyNotFound,
}

/// The process an activation resolves to: the command's first
/// space-separated token and the remaining tokens.
pub struct SpawnCommand {
    pub program: String,
    pub args: Vec<String>,
}

/// What an event asks of the engine: a click (emit the
/// activation-requested signal; spawn when resolvable), a known event
/// kind to ignore, or an unknown one.
pub enum EventOutcome {
    Clicked { spawn: Option<SpawnCommand> },
    Ignored,
    Unknown,
}

/// The menu engine state: the ordered source directories, the name/id
/// table, one optional bucket per allocated name, and the menu tree.
pub struct Menu {
    pub dirs: Vec<String>,
    pub alloc: IdAllocator,
    pub buckets: Vec<Option<Bucket>>,
    pub tree: MenuTree,
}

/// Sequences with equal multisets list the same values.
pub proof fn lemma_same_multiset_same_contains(a: Seq<u64>, b: Seq<u64>)
    requires
        a.to_multiset() == b.to_multiset(),
    ensures
        forall|x: u64| a.contains(x) == b.contains(x),
{
    a.to_multiset_ensures();
    b.to_multiset_ensures();
    assert forall|x: u64| a.contains(x) == b.contains(x) by {
        assert(a.contains(x) <==> a.to_multiset().count(x) > 0);
        assert(b.contains(x) <==> b.to_multiset().count(x) > 0);
    }
}


/// After a promotion refiles an item — every list purged of it, one
/// list given it back once, the lists then re-sorted — the item stands
/// exactly once in its list and nowhere else.
proof fn lemma_list_count_after_refile(
    sorted: Seq<u64>,
    mid: Seq<u64>,
    pre: Seq<u64>,
    id: u64,
    target: bool,
)
    requires
        sorted.to_multiset() == mid.to_multiset(),
        forall|k: int| 0 <= k < pre.len() ==> pre[k] != id,
        target ==> mid == pre.push(id),
        !target ==> mid == pre,
    ensures
        sorted.to_multiset().count(id) == if target {
            1nat
        } else {
            0nat
        },
{
    broadcast use vstd::multiset::group_multiset_axioms;

    pre.to_multiset_ensures();
    mid.to_multiset_ensures();
    if pre.contains(id) {
        let k = choose|k: int| 0 <= k < pre.len() && pre[k] == id;
    }
    assert(pre.to_multiset().count(id) == 0);
    if target {
        assert(mid.to_multiset() =~= pre.to_multiset().insert(id));
    }
}

impl Menu {
    /// The name table, bucket list and property store advance in
    /// lockstep: one slot per allocated name; every bucket spans the
    /// source directories and is never empty.
    pub open spec fn wf(self) -> bool {
        &&& self.alloc.wf()
        &&& self.buckets@.len() == self.alloc.names@.len()
        &&& self.tree.item_props@.len() == self.alloc.names@.len()
        &&& self.tree.wf()
        &&& forall|i: int|
            0 <= i < self.buckets@.len() ==> match #[trigger] self.buckets@[i] {
                Some(b) => b.wf(self.dirs@.len()),
                None => true,
            }
    }

    /// The source directories as character sequences.
    pub open spec fn spec_dirs_view(self) -> Seq<Seq<char>> {
        self.dirs@.map_values(|s: String| s@)
    }

    /// The priority index a path falls under: the position of its parent
    /// directory in the source list, if it is one of them.
    pub open spec fn spec_target_dir(self, path: Seq<char>) -> Option<int> {
        match spec_parent(path) {
            Some(par) => spec_dir_index(self.spec_dirs_view(), par),
            None => None,
        }
    }

    /// The item id a path resolves to (allocating its stem if new).
    pub open spec fn spec_path_id(self, path: Seq<char>) -> int {
        spec_id_for_name(self.alloc.names@, spec_file_stem(path))
    }

    /// Whether an add under priority `di` displaces the shown record:
    /// yes when the name has no bucket yet, or when the record arrives
    /// at at least the active record's priority and differs from it in a
    /// displayed field.
    pub open spec fn spec_add_promotes(self, slot: int, di: int, rec: Launcher) -> bool {
        if slot >= self.buckets@.len() {
            true
        } else {
            match self.buckets@[slot] {
                None => true,
                Some(b) => di <= b.spec_active_index() && spec_launcher_updated(
                    rec,
                    b.spec_active().record,
                ),
            }
        }
    }

    /// An engine serving the given source directories: the root and the
    /// categories pre-populated, no launchers yet, revision zero.
    pub fn new(dirs: Vec<String>) -> (r: Menu)
        ensures
            r.wf(),
            r.dirs == dirs,
            r.alloc.names@.len() == 0,
            r.tree.revision == 0,
            forall|c: int| 1 <= c < CHILD_LISTS ==> #[trigger] r.tree.children@[c]@.len() == 0,
            forall|c: int|
                1 <= c < CHILD_LISTS ==> (#[trigger] r.tree.base_props@[c]).label@
                    == crate::taxonomy::spec_category_label(
                    crate::taxonomy::spec_category_of_idx(c),
                ) && r.tree.base_props@[c].visible == true,
            r.tree.base_props@[0].label@ == Seq::<char>::empty(),
    {
        Menu { dirs, alloc: IdAllocator::new(), buckets: Vec::new(), tree: MenuTree::new() }
    }

    /// The id of a logical name, allocated on first sight together with
    /// its (empty) bucket and property slots.
    pub fn intern(&mut self, name: String) -> (id: u64)
        requires
            old(self).wf(),
            old(self).alloc.spec_can_allocate(),
        ensures
            final(self).wf(),
            final(self).dirs == old(self).dirs,
            id == spec_id_for_name(old(self).alloc.names@, name@),
            FIRST_ITEM_ID <= id,
            id - FIRST_ITEM_ID < final(self).alloc.names@.len(),
            final(self).alloc.names@[id - FIRST_ITEM_ID]@ == name@,
            old(self).alloc.spec_has_name(name@) <==> spec_name_index(
                old(self).alloc.names@,
                name@,
            ) is Some,
            old(self).alloc.spec_has_name(name@) ==> *final(self) == *old(self),
            !old(self).alloc.spec_has_name(name@) ==> {
                &&& final(self).alloc.names@ == old(self).alloc.names@.push(name)
                &&& final(self).buckets@ == old(self).buckets@.push(None::<Bucket>)
                &&& final(self).tree.item_props@ == old(self).tree.item_props@.push(
                    None::<MenuProps>,
                )
                &&& final(self).tree.children == old(self).tree.children
                &&& final(self).tree.base_props == old(self).tree.base_props
                &&& final(self).tree.revision == old(self).tree.revision
            },
    {
        proof {
            lemma_name_index(old(self).alloc.names@, name@);
        }
        let pre_len = self.alloc.names.len();
        let id = self.alloc.id_for(name);
        if self.alloc.names.len() > pre_len {
            self.buckets.push(None);
            self.tree.push_item_slot();
        }
        proof {
            if old(self).alloc.spec_has_name(name@) {
                let i = choose|i: int|
                    0 <= i < old(self).alloc.names@.len() && old(self).alloc.names@[i]@ == name@
                        && id == FIRST_ITEM_ID + i;
                assert(final(self).alloc.names@[id - FIRST_ITEM_ID]@ == name@);
            }
        }
        id
    }

    /// Applies one observed launcher file to the state: interns the
    /// path's stem, records the decoded launcher (with its prepared icon
    /// bitmap) in the name's bucket at the path's priority index, and —
    /// when the record displaces the shown one — rebuilds the item's
    /// displayed properties, refiles it under its effective category,
    /// bumps the revision, and recomputes category order and visibility.
    /// A path outside the source directories changes no menu state.
    /// Adding a record that matches the active one in every displayed
    /// field changes no menu state either: only the bucket learns it.
    pub fn add_launcher_path(&mut self, path: &str, launcher: Launcher, icon_data: Vec<u8>) -> (r:
        AddOutcome)
        requires
            old(self).wf(),
            old(self).alloc.spec_can_allocate(),
            old(self).tree.revision < u64::MAX,
        ensures
            final(self).wf(),
            final(self).dirs == old(self).dirs,
            ({
                let stem = spec_file_stem(path@);
                if spec_name_index(old(self).alloc.names@, stem) is Some {
                    final(self).alloc == old(self).alloc
                } else {
                    &&& final(self).alloc.names@.len() == old(self).alloc.names@.len() + 1
                    &&& final(self).alloc.names@.drop_last() == old(self).alloc.names@
                    &&& final(self).alloc.names@.last()@ == stem
                }
            }),
            ({
                let stem = spec_file_stem(path@);
                let id = spec_id_for_name(old(self).alloc.names@, stem);
                let slot = id - FIRST_ITEM_ID;
                match old(self).spec_target_dir(path@) {
                    None => {
                        &&& r is UnknownDirectory
                        &&& final(self).tree.children == old(self).tree.children
                        &&& final(self).tree.base_props == old(self).tree.base_props
                        &&& final(self).tree.revision == old(self).tree.revision
                        &&& final(self).buckets@.len() >= old(self).buckets@.len()
                        &&& forall|s: int|
                            0 <= s < old(self).buckets@.len() ==> final(self).buckets@[s] == old(self).buckets@[s]
                        &&& (spec_name_index(old(self).alloc.names@, stem) is Some ==> *final(self)
                            == *old(self))
                        &&& (spec_name_index(old(self).alloc.names@, stem) is None ==> final(self).tree.item_props@
                            == old(self).tree.item_props@.push(None::<MenuProps>) && final(self).buckets@
                            == old(self).buckets@.push(None::<Bucket>))
                    },
                    Some(di) => {
                        &&& (final(self).buckets@[slot] matches Some(b) && {
                            &&& b.slots@.len() == old(self).dirs@.len()
                            &&& b.slots@[di] matches Some(cs) && cs.record == launcher
                                && cs.icon_data == icon_data
                            &&& slot < old(self).buckets@.len() ==> (old(self).buckets@[slot] matches Some(ob) ==> b.slots@ == ob.slots@.update(
                                di,
                                Some(CacheSlot { record: launcher, icon_data }),
                            ))
                            &&& ((slot >= old(self).buckets@.len() || old(self).buckets@[slot] is None)
                                ==> forall|j: int|
                                0 <= j < b.slots@.len() && j != di ==> b.slots@[j] is None)
                        })
                        &&& forall|s: int|
                            0 <= s < old(self).buckets@.len() && s != slot ==> final(self).buckets@[s] == old(self).buckets@[s]
                        &&& if old(self).spec_add_promotes(slot, di, launcher) {
                            &&& (r matches AddOutcome::Updated { id: rid, props: rp, revision: rv }
                                && rid == id && rv == final(self).tree.revision
                                && spec_launcher_props(launcher, icon_data@, rp))
                            &&& final(self).tree.revision == old(self).tree.revision + 1
                            &&& final(self).tree.item_props@[slot] matches Some(sp)
                                && spec_launcher_props(launcher, icon_data@, sp)
                            &&& forall|c: int|
                                1 <= c < CHILD_LISTS ==> ((#[trigger] final(self).tree.children@[c]@).contains(id as u64) <==> c
                                    == spec_category_idx(
                                    spec_effective_category(launcher.categories@),
                                ))
                            &&& forall|c: int|
                                1 <= c < CHILD_LISTS ==> (#[trigger] final(self).tree.children@[c]@).to_multiset().count(id as u64) == (
                                if c == spec_category_idx(
                                    spec_effective_category(launcher.categories@),
                                ) {
                                    1nat
                                } else {
                                    0nat
                                })
                            &&& forall|c: int|
                                1 <= c < CHILD_LISTS ==> spec_sorted_by_label(
                                    final(self).tree.item_props@,
                                    (#[trigger] final(self).tree.children@[c])@,
                                )
                            &&& forall|c: int|
                                1 <= c < CHILD_LISTS ==> (#[trigger] final(self).tree.base_props@[c]).visible == (final(self).tree.children@[c]@.len() > 0)
                            &&& forall|s: int|
                                0 <= s < old(self).tree.item_props@.len() && s != slot ==> final(self).tree.item_props@[s] == old(self).tree.item_props@[s]
                            &&& final(self).tree.base_props@.len() == old(self).tree.base_props@.len()
                            &&& final(self).tree.base_props@[0] == old(self).tree.base_props@[0]
                            &&& forall|c: int|
                                1 <= c < CHILD_LISTS ==> spec_props_like_except_visible(
                                    (#[trigger] final(self).tree.base_props@[c]),
                                    old(self).tree.base_props@[c],
                                )
                            &&& final(self).tree.children@.len() == old(self).tree.children@.len()
                            &&& final(self).tree.children@[0] == old(self).tree.children@[0]
                            &&& forall|c: int, l: Seq<char>|
                                1 <= c < CHILD_LISTS ==> #[trigger] spec_label_filter(
                                    final(self).tree.item_props@,
                                    final(self).tree.children@[c]@,
                                    l,
                                ) == spec_label_filter(
                                    final(self).tree.item_props@,
                                    spec_refiled(
                                        old(self).tree.children@[c]@,
                                        id as u64,
                                        c == spec_category_idx(
                                            spec_effective_category(launcher.categories@),
                                        ),
                                    ),
                                    l,
                                )
                        } else {
                            &&& (r matches AddOutcome::Cached { id: rid } && rid == id)
                            &&& final(self).tree == old(self).tree
                        }
                    },
                }
            }),
    {
        let stem = path_file_stem(path);
        let ghost stem_view = stem@;
        let id = self.intern(stem);
        let n = self.alloc.names.len();
        proof {
            assert(id - FIRST_ITEM_ID < n);
            if !old(self).alloc.spec_has_name(stem_view) {
                assert(self.alloc.names@.drop_last() =~= old(self).alloc.names@);
            }
        }
        let slot = (id - FIRST_ITEM_ID) as usize;
        let parent = match path_parent(path) {
            Some(p) => p,
            None => {
                return AddOutcome::UnknownDirectory;
            },
        };
        let di = match find_dir(&self.dirs, parent.as_str()) {
            Some(d) => d,
            None => {
                return AddOutcome::UnknownDirectory;
            },
        };
        let mut promote = false;
        match &self.buckets[slot] {
            None => {
                promote = true;
            },
            Some(b) => {
                let (ai, act) = b.active();
                if di <= ai && launcher_updated(&launcher, &act.record) {
                    promote = true;
                }
            },
        }
        proof {
            assert(promote == old(self).spec_add_promotes(id - FIRST_ITEM_ID, di as int, launcher));
        }
        let mut outcome_props: Option<MenuProps> = None;
        if promote {
            self.tree.remove_from_all(id);
            let props = launcher_props(&launcher, &icon_data);
            let ret_props = clone_props(&props);
            self.tree.set_item_props(id, props);
            let cat = effective_category(&launcher.categories);
            let cidx = category_idx(cat) as usize;
            let ghost pre_children = self.tree.children@;
            self.tree.append_child(cidx, id);
            self.tree.bump_revision();
            let ghost mid_children = self.tree.children@;
            self.tree.refresh();
            proof {
                assert forall|c: int|
                    1 <= c < CHILD_LISTS implies ((#[trigger] self.tree.children@[c]@).contains(id)
                    <==> c == spec_category_idx(
                    spec_effective_category(launcher.categories@),
                )) by {
                    lemma_same_multiset_same_contains(
                        self.tree.children@[c]@,
                        mid_children[c]@,
                    );
                    if c == cidx {
                        assert(mid_children[c]@.last() == id);
                        assert(mid_children[c]@.contains(id));
                    } else {
                        if mid_children[c]@.contains(id) {
                            let k = choose|k: int|
                                0 <= k < mid_children[c]@.len() && mid_children[c]@[k] == id;
                        }
                    }
                }
                assert forall|c: int|
                    1 <= c < CHILD_LISTS implies (#[trigger] self.tree.children@[c]@).to_multiset().count(id) == (
                    if c == cidx {
                        1nat
                    } else {
                        0nat
                    }) by {
                    lemma_list_count_after_refile(
                        self.tree.children@[c]@,
                        mid_children[c]@,
                        pre_children[c]@,
                        id,
                        c == cidx,
                    );
                }
                assert forall|c: int, l: Seq<char>|
                    1 <= c < CHILD_LISTS implies #[trigger] spec_label_filter(
                    self.tree.item_props@,
                    self.tree.children@[c]@,
                    l,
                ) == spec_label_filter(
                    self.tree.item_props@,
                    spec_refiled(old(self).tree.children@[c]@, id, c == cidx),
                    l,
                ) by {
                    assert(pre_children[c]@ == spec_without(old(self).tree.children@[c]@, id));
                    if c == cidx {
                        assert(mid_children[c]@ == pre_children[c]@.push(id));
                    } else {
                        assert(mid_children[c]@ == pre_children[c]@);
                    }
                    assert(mid_children[c]@ == spec_refiled(
                        old(self).tree.children@[c]@,
                        id,
                        c == cidx,
                    ));
                }
            }
            outcome_props = Some(ret_props);
        }
        let width = self.dirs.len();
        let mut bopt: Option<Bucket> = None;
        core::mem::swap(&mut bopt, &mut self.buckets[slot]);
        let newslot = CacheSlot { record: launcher, icon_data };
        match bopt {
            Some(mut b) => {
                b.upsert(di, newslot);
                self.buckets[slot] = Some(b);
            },
            None => {
                self.buckets[slot] = Some(Bucket::new(width, di, newslot));
            },
        }
        match outcome_props {
            Some(props) => AddOutcome::Updated { id, props, revision: self.tree.revision },
            None => AddOutcome::Cached { id },
        }
    }

    /// The command an activation of `id` runs: the first
    /// space-separated token of the active record's command line as the
    /// program and the remaining tokens as its arguments — or nothing,
    /// when the id maps to no cached name or the command is empty.
    pub open spec fn spec_spawn_of(self, id: u64) -> Option<(Seq<char>, Seq<Seq<char>>)> {
        if id < FIRST_ITEM_ID || id - FIRST_ITEM_ID >= self.buckets@.len() {
            None
        } else {
            match self.buckets@[id - FIRST_ITEM_ID] {
                None => None,
                Some(b) => {
                    let cmd = b.spec_active().record.command@;
                    if cmd.len() == 0 {
                        None
                    } else {
                        let toks = spec_split_char(cmd, ' ');
                        Some((toks[0], toks.drop_first()))
                    }
                },
            }
        }
    }

    /// Resolves an activation of `id` to the process to spawn, when the
    /// id maps to a name whose active record carries a command.
    pub fn resolve_spawn(&self, id: u64) -> (r: Option<SpawnCommand>)
        requires
            self.wf(),
        ensures
            match r {
                Some(sc) => self.spec_spawn_of(id) == Some(
                    (sc.program@, sc.args@.map_values(|s: String| s@)),
                ),
                None => self.spec_spawn_of(id) is None,
            },
    {
        if id < FIRST_ITEM_ID {
            return None;
        }
        let off = id - FIRST_ITEM_ID;
        if off >= self.buckets.len() as u64 {
            return None;
        }
        match &self.buckets[off as usize] {
            None => None,
            Some(b) => {
                let (ai, act) = b.active();
                if act.record.command.as_str().is_empty() {
                    None
                } else {
                    let mut toks = split_char(act.record.command.as_str(), ' ');
                    let ghost tv = toks@.map_values(|t: String| t@);
                    let program = toks.remove(0);
                    proof {
                        assert(toks@.map_values(|t: String| t@) =~= tv.drop_first());
                        assert(program@ == tv[0]);
                    }
                    Some(SpawnCommand { program, args: toks })
                }
            },
        }
    }

    /// Answers a remote event: a click yields the activation to perform
    /// (the signal to emit, and the process to spawn when the id
    /// resolves); hovers, opens and closes are known and ignored; any
    /// other event kind is unknown and ignored.
    pub fn event(&self, item_id: u64, event_id: &str) -> (r: EventOutcome)
        requires
            self.wf(),
        ensures
            (r is Clicked) == (event_id@ == "clicked"@),
            (r is Ignored) == (event_id@ == "hovered"@ || event_id@ == "opened"@ || event_id@
                == "closed"@),
            r matches EventOutcome::Clicked { spawn } ==> match spawn {
                Some(sc) => self.spec_spawn_of(item_id) == Some(
                    (sc.program@, sc.args@.map_values(|s: String| s@)),
                ),
                None => self.spec_spawn_of(item_id) is None,
            },
    {
        proof {
            reveal_strlit("clicked");
            reveal_strlit("hovered");
            reveal_strlit("opened");
            reveal_strlit("closed");
            assert("clicked"@[0] == 'c' && "hovered"@[0] == 'h' && "opened"@[0] == 'o'
                && "closed"@[0] == 'c');
            assert("clicked"@[1] == 'l' && "closed"@[1] == 'l');
            assert("clicked"@[2] == 'i' && "closed"@[2] == 'o');
            assert("clicked"@ != "hovered"@ && "clicked"@ != "opened"@ && "clicked"@
                != "closed"@);
        }
        if str_eq(event_id, "clicked") {
            let spawn = self.resolve_spawn(item_id);
            EventOutcome::Clicked { spawn }
        } else if str_eq(event_id, "hovered") || str_eq(event_id, "opened") || str_eq(
            event_id,
            "closed",
        ) {
            EventOutcome::Ignored
        } else {
            EventOutcome::Unknown
        }
    }

    /// The value of one named property of a node, through the fixed
    /// accessor table.
    pub open spec fn spec_property_of(p: MenuProps, name: Seq<char>) -> Option<SpecProp> {
        if name == "type"@ {
            Some(SpecProp::Str("standard"@))
        } else if name == "label"@ {
            Some(SpecProp::Str(p.label@))
        } else if name == "enabled"@ {
            Some(SpecProp::Bool(p.enabled))
        } else if name == "visible"@ {
            Some(SpecProp::Bool(p.visible))
        } else if name == "icon-name"@ {
            Some(SpecProp::Str(p.icon_name@))
        } else if name == "icon-data"@ {
            Some(SpecProp::Bytes(p.icon_data@))
        } else if name == "shortcut"@ {
            Some(SpecProp::StrList(Seq::<Seq<char>>::empty()))
        } else if name == "toggle-type"@ {
            Some(SpecProp::Str(Seq::<char>::empty()))
        } else if name == "toggle-state"@ {
            Some(SpecProp::Int(-1int))
        } else if name == "children-display"@ {
            Some(SpecProp::Str(p.children_display@))
        } else {
            None
        }
    }

    /// One property of one node: the item must be known and the name one
    /// of the supported property keys.
    pub fn get_property(&self, item_id: u64, name: &str) -> (r: Result<PropValue, MenuError>)
        requires
            self.wf(),
        ensures
            match r {
                Ok(v) => self.tree.spec_known(item_id) && Self::spec_property_of(
                    self.tree.spec_props_of(item_id),
                    name@,
                ) == Some(v@),
                Err(e) => (e == MenuError::ItemNotFound && !self.tree.spec_known(item_id)) || (e
                    == MenuError::PropertyNotFound && self.tree.spec_known(item_id)
                    && Self::spec_property_of(self.tree.spec_props_of(item_id), name@) is None),
            },
    {
        proof {
            reveal_strlit("type");
            reveal_strlit("label");
            reveal_strlit("enabled");
            reveal_strlit("visible");
            reveal_strlit("icon-name");
            reveal_strlit("icon-data");
            reveal_strlit("shortcut");
            reveal_strlit("toggle-type");
            reveal_strlit("toggle-state");
            reveal_strlit("children-display");
        }
        let props = match self.tree.get_props(item_id) {
            Some(p) => p,
            None => {
                return Err(MenuError::ItemNotFound);
            },
        };
        if str_eq(name, "type") {
            Ok(PropValue::Str("standard".to_owned()))
        } else if str_eq(name, "label") {
            Ok(PropValue::Str(props.label.clone()))
        } else if str_eq(name, "enabled") {
            Ok(PropValue::Bool(props.enabled))
        } else if str_eq(name, "visible") {
            Ok(PropValue::Bool(props.visible))
        } else if str_eq(name, "icon-name") {
            Ok(PropValue::Str(props.icon_name.clone()))
        } else if str_eq(name, "icon-data") {
            Ok(PropValue::Bytes(vstd::slice::slice_to_vec(props.icon_data.as_slice())))
        } else if str_eq(name, "shortcut") {
            let none: Vec<String> = Vec::new();
            proof {
                assert(none@.map_values(|s: String| s@) =~= Seq::<Seq<char>>::empty());
            }
            Ok(PropValue::StrList(none))
        } else if str_eq(name, "toggle-type") {
            Ok(PropValue::Str(String::new()))
        } else if str_eq(name, "toggle-state") {
            Ok(PropValue::Int(-1))
        } else if str_eq(name, "children-display") {
            Ok(PropValue::Str(props.children_display.clone()))
        } else {
            Err(MenuError::PropertyNotFound)
        }
    }

    /// The filtered properties of each known id, in request order;
    /// unknown ids are skipped, never an error.
    pub fn get_group_properties(&self, item_ids: &Vec<u64>, property_names: &Vec<String>) -> (r:
        Vec<(u64, Vec<(String, PropValue)>)>)
        requires
            self.wf(),
        ensures
            r@.map_values(|e: (u64, Vec<(String, PropValue)>)| e.0) == item_ids@.filter(
                |x: u64| self.tree.spec_known(x),
            ),
            forall|k: int|
                0 <= k < r@.len() ==> (#[trigger] r@[k]).1@.map_values(
                    |pr: (String, PropValue)| spec_pair_view(pr),
                ) == spec_filter_names(
                    spec_prop_pairs(self.tree.spec_props_of(r@[k].0)),
                    property_names@.map_values(|s: String| s@),
                ),
    {
        let ghost iv = item_ids@;
        let ghost known = |x: u64| self.tree.spec_known(x);
        let mut out: Vec<(u64, Vec<(String, PropValue)>)> = Vec::new();
        let mut i: usize = 0;
        proof {
            assert(iv.take(0int) =~= Seq::<u64>::empty());
            reveal_with_fuel(Seq::filter, 1);
        }
        while i < item_ids.len()
            invariant
                self.wf(),
                i <= iv.len(),
                iv == item_ids@,
                known == |x: u64| self.tree.spec_known(x),
                out@.map_values(|e: (u64, Vec<(String, PropValue)>)| e.0) == iv.take(
                    i as int,
                ).filter(known),
                forall|k: int|
                    0 <= k < out@.len() ==> (#[trigger] out@[k]).1@.map_values(
                        |pr: (String, PropValue)| spec_pair_view(pr),
                    ) == spec_filter_names(
                        spec_prop_pairs(self.tree.spec_props_of(out@[k].0)),
                        property_names@.map_values(|s: String| s@),
                    ),
            decreases iv.len() - i,
        {
            proof {
                assert(iv.take(i + 1).drop_last() =~= iv.take(i as int));
                assert(iv.take(i + 1).last() == iv[i as int]);
                reveal_with_fuel(Seq::filter, 2);
            }
            let ghost before = out@.map_values(|e: (u64, Vec<(String, PropValue)>)| e.0);
            let id = item_ids[i];
            match self.tree.get_props(id) {
                Some(p) => {
                    let pairs = filter_pairs(all_pairs(p), property_names);
                    out.push((id, pairs));
                    proof {
                        assert(out@.map_values(|e: (u64, Vec<(String, PropValue)>)| e.0)
                            =~= before.push(id));
                    }
                },
                None => {},
            }
            i = i + 1;
        }
        proof {
            assert(iv.take(iv.len() as int) =~= iv);
        }
        out
    }

    /// The layout tree rooted at `parent_id` with the menu's current
    /// revision, or `ItemNotFound` for an unknown id.
    pub fn get_layout(&self, parent_id: u64, recursion_depth: i32, property_names: &Vec<String>)
        -> (r: Result<(u64, LayoutNode), MenuError>)
        requires
            self.wf(),
        ensures
            match r {
                Ok(pair) => self.tree.spec_known(parent_id) && pair.0 == self.tree.revision
                    && spec_layout_ok(
                    self.tree,
                    pair.1,
                    parent_id,
                    property_names@.map_values(|s: String| s@),
                    recursion_depth as int,
                    spec_rank(parent_id) + 1,
                ),
                Err(e) => e == MenuError::ItemNotFound && !self.tree.spec_known(parent_id),
            },
    {
        match self.tree.get_props(parent_id) {
            Some(_) => {
                let node = build_layout(&self.tree, parent_id, recursion_depth, property_names);
                Ok((self.tree.revision, node))
            },
            None => Err(MenuError::ItemNotFound),
        }
    }

    /// Whether a remove of `path` finds a record: its name has a bucket
    /// and the bucket holds a record at the path's priority index.
    pub open spec fn spec_remove_applies(self, slot: int, di: int) -> bool {
        &&& 0 <= slot < self.buckets@.len()
        &&& self.buckets@[slot] matches Some(b) && b.slots@[di] is Some
    }

    /// Applies the disappearance of a launcher file: deletes the record
    /// at the path's priority index (installing a tombstone when it was
    /// the bucket's last), removes the item from the outgoing record's
    /// category, and — when the revealed active record differs from the
    /// outgoing one in a displayed field — promotes it: fresh
    /// properties, refiling, one revision bump, category order and
    /// visibility recomputed.  When the revealed record does not differ,
    /// nothing is announced and the revision stays.  An unknown
    /// directory or an unoccupied slot changes no menu state.
    pub fn remove_launcher_path(&mut self, path: &str) -> (r: RemoveOutcome)
        requires
            old(self).wf(),
            old(self).alloc.spec_can_allocate(),
            old(self).tree.revision < u64::MAX,
        ensures
            final(self).wf(),
            final(self).dirs == old(self).dirs,
            ({
                let stem = spec_file_stem(path@);
                if spec_name_index(old(self).alloc.names@, stem) is Some {
                    final(self).alloc == old(self).alloc
                } else {
                    &&& final(self).alloc.names@.len() == old(self).alloc.names@.len() + 1
                    &&& final(self).alloc.names@.drop_last() == old(self).alloc.names@
                    &&& final(self).alloc.names@.last()@ == stem
                }
            }),
            ({
                let stem = spec_file_stem(path@);
                let id = spec_id_for_name(old(self).alloc.names@, stem);
                let slot = id - FIRST_ITEM_ID;
                match old(self).spec_target_dir(path@) {
                    None => {
                        &&& r is UnknownDirectory
                        &&& final(self).tree.children == old(self).tree.children
                        &&& final(self).tree.base_props == old(self).tree.base_props
                        &&& final(self).tree.revision == old(self).tree.revision
                        &&& forall|s: int|
                            0 <= s < old(self).buckets@.len() ==> final(self).buckets@[s] == old(self).buckets@[s]
                        &&& (spec_name_index(old(self).alloc.names@, stem) is Some ==> *final(self)
                            == *old(self))
                        &&& (spec_name_index(old(self).alloc.names@, stem) is None ==> final(self).tree.item_props@
                            == old(self).tree.item_props@.push(None::<MenuProps>) && final(self).buckets@
                            == old(self).buckets@.push(None::<Bucket>))
                    },
                    Some(di) => {
                        if !old(self).spec_remove_applies(slot, di) {
                            &&& r is NotFound
                            &&& final(self).tree.children == old(self).tree.children
                            &&& final(self).tree.base_props == old(self).tree.base_props
                            &&& final(self).tree.revision == old(self).tree.revision
                            &&& forall|s: int|
                                0 <= s < old(self).buckets@.len() ==> final(self).buckets@[s]
                                    == old(self).buckets@[s]
                            &&& (spec_name_index(old(self).alloc.names@, stem) is Some ==> *final(self)
                                == *old(self))
                            &&& (spec_name_index(old(self).alloc.names@, stem) is None ==> final(self).tree.item_props@
                                == old(self).tree.item_props@.push(None::<MenuProps>) && final(self).buckets@
                                == old(self).buckets@.push(None::<Bucket>))
                        } else {
                            let ob = old(self).buckets@[slot]->Some_0;
                            let outgoing = ob.slots@[di]->Some_0;
                            let outcat = spec_category_idx(
                                spec_effective_category(outgoing.record.categories@),
                            );
                            &&& forall|s: int|
                                0 <= s < old(self).buckets@.len() && s != slot ==> final(self).buckets@[s] == old(self).buckets@[s]
                            &&& (final(self).buckets@[slot] matches Some(nb) && {
                                let revealed = nb.spec_active();
                                let differ = spec_launcher_updated(
                                    revealed.record,
                                    outgoing.record,
                                );
                                &&& nb.wf(old(self).dirs@.len())
                                &&& forall|j: int|
                                    0 <= j < ob.slots@.len() && j != di ==> nb.slots@[j]
                                        == ob.slots@[j]
                                &&& (exists|j: int|
                                    0 <= j < ob.slots@.len() && j != di && ob.slots@[j] is Some)
                                    ==> nb.slots@[di] is None
                                &&& !(exists|j: int|
                                    0 <= j < ob.slots@.len() && j != di && ob.slots@[j] is Some)
                                    ==> (nb.slots@[di] matches Some(ts) && {
                                    &&& ts.record.display == false
                                    &&& ts.record.name@ == stem
                                    &&& ts.record.path@ == path@
                                    &&& ts.record.categories@ == Seq::<Category>::empty()
                                    &&& ts.record.command@ == Seq::<char>::empty()
                                    &&& ts.record.icon is None
                                    &&& ts.icon_data@ == Seq::<u8>::empty()
                                })
                                &&& if differ {
                                    &&& (r matches RemoveOutcome::Promoted {
                                        id: rid,
                                        props: rp,
                                        revision: rv,
                                    } && rid == id && rv == final(self).tree.revision
                                        && spec_launcher_props(
                                        revealed.record,
                                        revealed.icon_data@,
                                        rp,
                                    ))
                                    &&& final(self).tree.revision == old(self).tree.revision + 1
                                    &&& final(self).tree.item_props@[slot] matches Some(sp)
                                        && spec_launcher_props(
                                        revealed.record,
                                        revealed.icon_data@,
                                        sp,
                                    )
                                    &&& forall|c: int|
                                        1 <= c < CHILD_LISTS ==> ((#[trigger] final(self).tree.children@[c]@).contains(id as u64) <==> c
                                            == spec_category_idx(
                                            spec_effective_category(revealed.record.categories@),
                                        ))
                                    &&& forall|c: int|
                                        1 <= c < CHILD_LISTS ==> (#[trigger] final(self).tree.children@[c]@).to_multiset().count(
                                            id as u64,
                                        ) == (if c == spec_category_idx(
                                            spec_effective_category(revealed.record.categories@),
                                        ) {
                                            1nat
                                        } else {
                                            0nat
                                        })
                                    &&& forall|c: int|
                                        1 <= c < CHILD_LISTS ==> spec_sorted_by_label(
                                            final(self).tree.item_props@,
                                            (#[trigger] final(self).tree.children@[c])@,
                                        )
                                    &&& forall|c: int|
                                        1 <= c < CHILD_LISTS ==> (#[trigger] final(self).tree.base_props@[c]).visible == (final(self).tree.children@[c]@.len() > 0)
                                    &&& forall|s: int|
                                        0 <= s < old(self).tree.item_props@.len() && s != slot
                                            ==> final(self).tree.item_props@[s] == old(self).tree.item_props@[s]
                                    &&& final(self).tree.base_props@.len() == old(self).tree.base_props@.len()
                                    &&& final(self).tree.base_props@[0] == old(self).tree.base_props@[0]
                                    &&& forall|c: int|
                                        1 <= c < CHILD_LISTS ==> spec_props_like_except_visible(
                                            (#[trigger] final(self).tree.base_props@[c]),
                                            old(self).tree.base_props@[c],
                                        )
                                    &&& final(self).tree.children@.len() == old(self).tree.children@.len()
                                    &&& final(self).tree.children@[0] == old(self).tree.children@[0]
                                    &&& forall|c: int, l: Seq<char>|
                                        1 <= c < CHILD_LISTS ==> #[trigger] spec_label_filter(
                                            final(self).tree.item_props@,
                                            final(self).tree.children@[c]@,
                                            l,
                                        ) == spec_label_filter(
                                            final(self).tree.item_props@,
                                            spec_refiled(
                                                old(self).tree.children@[c]@,
                                                id as u64,
                                                c == spec_category_idx(
                                                    spec_effective_category(
                                                        revealed.record.categories@,
                                                    ),
                                                ),
                                            ),
                                            l,
                                        )
                                } else {
                                    &&& (r matches RemoveOutcome::Removed { id: rid } && rid == id)
                                    &&& final(self).tree.revision == old(self).tree.revision
                                    &&& final(self).tree.base_props == old(self).tree.base_props
                                    &&& final(self).tree.item_props == old(self).tree.item_props
                                    &&& forall|c: int|
                                        1 <= c < CHILD_LISTS ==> #[trigger] final(self).tree.children@[c]@ == (if c == outcat {
                                            spec_without(old(self).tree.children@[c]@, id as u64)
                                        } else {
                                            old(self).tree.children@[c]@
                                        })
                                }
                            })
                        }
                    },
                }
            }),
    {
        let stem = path_file_stem(path);
        let ghost stem_view = stem@;
        let stem_name = stem.clone();
        let id = self.intern(stem);
        let n = self.alloc.names.len();
        proof {
            assert(id - FIRST_ITEM_ID < n);
            if !old(self).alloc.spec_has_name(stem_view) {
                assert(self.alloc.names@.drop_last() =~= old(self).alloc.names@);
            }
        }
        let slot = (id - FIRST_ITEM_ID) as usize;
        let parent = match path_parent(path) {
            Some(p) => p,
            None => {
                return RemoveOutcome::UnknownDirectory;
            },
        };
        let di = match find_dir(&self.dirs, parent.as_str()) {
            Some(d) => d,
            None => {
                return RemoveOutcome::UnknownDirectory;
            },
        };
        let occupied = match &self.buckets[slot] {
            None => false,
            Some(b) => b.slots[di].is_some(),
        };
        if !occupied {
            return RemoveOutcome::NotFound;
        }
        let tomb = CacheSlot {
            record: tombstone_launcher(path.to_owned(), stem_name),
            icon_data: Vec::new(),
        };
        let mut bopt: Option<Bucket> = None;
        core::mem::swap(&mut bopt, &mut self.buckets[slot]);
        let mut b = match bopt {
            Some(b) => b,
            None => unreached(),
        };
        let outgoing = match b.remove(di, tomb) {
            Some(s) => s,
            None => unreached(),
        };
        self.buckets[slot] = Some(b);
        let outcat = category_idx(effective_category(&outgoing.record.categories)) as usize;
        self.tree.remove_child(outcat, id);
        let ghost step_children = self.tree.children@;
        let mut differ = false;
        let mut rprops: Option<MenuProps> = None;
        let mut rcat: usize = 1;
        match &self.buckets[slot] {
            Some(b2) => {
                let (ri, rslot) = b2.active();
                if launcher_updated(&rslot.record, &outgoing.record) {
                    differ = true;
                    rprops = Some(launcher_props(&rslot.record, &rslot.icon_data));
                    rcat = category_idx(effective_category(&rslot.record.categories)) as usize;
                }
            },
            None => {
                proof {
                    assert(false);
                }
            },
        }
        if differ {
            let props = match rprops {
                Some(p) => p,
                None => unreached(),
            };
            let ret = clone_props(&props);
            self.tree.remove_from_all(id);
            self.tree.set_item_props(id, props);
            let ghost pre_children = self.tree.children@;
            self.tree.append_child(rcat, id);
            self.tree.bump_revision();
            let ghost mid_children = self.tree.children@;
            self.tree.refresh();
            proof {
                assert forall|c: int|
                    1 <= c < CHILD_LISTS implies ((#[trigger] self.tree.children@[c]@).contains(id)
                    <==> c == rcat) by {
                    lemma_same_multiset_same_contains(self.tree.children@[c]@, mid_children[c]@);
                    if c == rcat {
                        assert(mid_children[c]@.last() == id);
                        assert(mid_children[c]@.contains(id));
                    } else {
                        if mid_children[c]@.contains(id) {
                            let k = choose|k: int|
                                0 <= k < mid_children[c]@.len() && mid_children[c]@[k] == id;
                        }
                    }
                }
                assert forall|c: int|
                    1 <= c < CHILD_LISTS implies (#[trigger] self.tree.children@[c]@).to_multiset().count(id) == (
                    if c == rcat {
                        1nat
                    } else {
                        0nat
                    }) by {
                    lemma_list_count_after_refile(
                        self.tree.children@[c]@,
                        mid_children[c]@,
                        pre_children[c]@,
                        id,
                        c == rcat,
                    );
                }
                assert forall|c: int, l: Seq<char>|
                    1 <= c < CHILD_LISTS implies #[trigger] spec_label_filter(
                    self.tree.item_props@,
                    self.tree.children@[c]@,
                    l,
                ) == spec_label_filter(
                    self.tree.item_props@,
                    spec_refiled(old(self).tree.children@[c]@, id, c == rcat),
                    l,
                ) by {
                    assert(pre_children[c]@ == spec_without(step_children[c]@, id));
                    if c == outcat {
                        assert(step_children[c]@ == spec_without(old(self).tree.children@[c]@, id));
                        lemma_without_fixed(step_children[c]@, id);
                    } else {
                        assert(step_children[c]@ == old(self).tree.children@[c]@);
                    }
                    assert(pre_children[c]@ == spec_without(old(self).tree.children@[c]@, id));
                    if c == rcat {
                        assert(mid_children[c]@ == pre_children[c]@.push(id));
                    } else {
                        assert(mid_children[c]@ == pre_children[c]@);
                    }
                    assert(mid_children[c]@ == spec_refiled(
                        old(self).tree.children@[c]@,
                        id,
                        c == rcat,
                    ));
                }
            }
            RemoveOutcome::Promoted { id, props: ret, revision: self.tree.revision }
        } else {
            RemoveOutcome::Removed { id }
        }
    }
}

} // verus!
