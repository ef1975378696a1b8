//! The identifier allocator: a stable bidirectional mapping from logical
//! launcher name to numeric item id.
//!
//! Ids are allocated monotonically, starting after the reserved root and
//! category range, on first sight of a name; a name keeps its id for the
//! process lifetime and ids are never reused.  The mapping is a bijection:
//! the names are pairwise distinct and the id of a name is determined by
//! its position.

use vstd::prelude::*;
use crate::strings::str_eq;
use crate::taxonomy::FIRST_ITEM_ID;

verus! {

/// The position of the first name reading `n`, if any.
pub open spec fn spec_name_index(names: Seq<String>, n: Seq<char>) -> Option<int>
    decreases names.len(),
{
    if names.len() == 0 {
        None
    } else if names[0]@ == n {
        Some(0int)
    } else {
        match spec_name_index(names.drop_first(), n) {
            Some(i) => Some(i + 1),
            None => None,
        }
    }
}

/// The id `id_for` yields for `n` against the given table: the id of its
/// first occurrence, or the next unused id.
pub open spec fn spec_id_for_name(names: Seq<String>, n: Seq<char>) -> int {
    match spec_name_index(names, n) {
        Some(i) => FIRST_ITEM_ID + i,
        None => FIRST_ITEM_ID + names.len(),
    }
}

pub proof fn lemma_name_index(names: Seq<String>, n: Seq<char>)
    ensures
        match spec_name_index(names, n) {
            Some(i) => 0 <= i < names.len() && names[i]@ == n && (forall|j: int|
                0 <= j < i ==> names[j]@ != n),
            None => forall|j: int| 0 <= j < names.len() ==> names[j]@ != n,
        },
    decreases names.len(),
{
    if names.len() > 0 && names[0]@ != n {
        lemma_name_index(names.drop_first(), n);
        assert(forall|j: int| 1 <= j < names.len() ==> names[j] == names.drop_first()[j - 1]);
    }
}

/// The two-way name/id table: the name at position `i` owns id
/// `FIRST_ITEM_ID + i`.
pub struct IdAllocator {
    pub names: Vec<String>,
}

impl IdAllocator {
    /// Names are pairwise distinct, so the name/id mapping is a bijection.
    pub open spec fn wf(self) -> bool {
        forall|i: int, j: int|
            0 <= i < j < self.names@.len() ==> self.names@[i]@ != self.names@[j]@
    }

    pub open spec fn spec_has_name(self, n: Seq<char>) -> bool {
        exists|i: int| 0 <= i < self.names@.len() && self.names@[i]@ == n
    }

    /// Room for one more id below the id-space ceiling; forced by the
    /// machine's integer width, not by the design.
    pub open spec fn spec_can_allocate(self) -> bool {
        self.names@.len() + FIRST_ITEM_ID < u64::MAX
    }

    pub fn new() -> (r: IdAllocator)
        ensures
            r.wf(),
            r.names@.len() == 0,
    {
        IdAllocator { names: Vec::new() }
    }

    /// The id of `name`: the one it already has, or the next unused id,
    /// recorded from now on.  Never fails; the same name always yields
    /// the same id, and a new name never yields an id in use.
    pub fn id_for(&mut self, name: String) -> (id: u64)
        requires
            old(self).wf(),
            old(self).spec_can_allocate(),
        ensures
            final(self).wf(),
            final(self).spec_has_name(name@),
            id == spec_id_for_name(old(self).names@, name@),
            old(self).spec_has_name(name@) ==> *final(self) == *old(self) && exists|i: int|
                0 <= i < old(self).names@.len() && old(self).names@[i]@ == name@ && id
                    == FIRST_ITEM_ID + i,
            !old(self).spec_has_name(name@) ==> final(self).names@ == old(self).names@.push(name)
                && id == FIRST_ITEM_ID + old(self).names@.len(),
    {
        proof {
            lemma_name_index(old(self).names@, name@);
        }
        let mut i: usize = 0;
        while i < self.names.len()
            invariant
                *self == *old(self),
                old(self).wf(),
                old(self).spec_can_allocate(),
                forall|j: int| 0 <= j < i ==> self.names@[j]@ != name@,
                i <= self.names@.len(),
            decreases self.names@.len() - i,
        {
            if str_eq(self.names[i].as_str(), name.as_str()) {
                proof {
                    assert(self.names@[i as int]@ == name@);
                    lemma_name_index(old(self).names@, name@);
                    match spec_name_index(old(self).names@, name@) {
                        Some(k) => {
                            if k < i as int {
                                assert(old(self).names@[k]@ != name@);
                            }
                            if k > i as int {
                                assert(old(self).names@[i as int]@ != name@);
                            }
                        },
                        None => {
                            assert(old(self).names@[i as int]@ != name@);
                        },
                    }
                }
                return FIRST_ITEM_ID + (i as u64);
            }
            i = i + 1;
        }
        let id = FIRST_ITEM_ID + (self.names.len() as u64);
        let ghost pre = self.names@;
        self.names.push(name);
        proof {
            assert(self.names@ == pre.push(name));
            assert(self.names@[pre.len() as int]@ == name@);
            assert forall|p: int, q: int|
                0 <= p < q < self.names@.len() implies self.names@[p]@ != self.names@[q]@ by {
                if q < pre.len() {
                    assert(pre[p]@ != pre[q]@);
                } else {
                    assert(self.names@[q] == name);
                    assert(pre[p]@ != name@);
                }
            }
        }
        id
    }

    /// The name owning `id`, when `id` is an allocated launcher id;
    /// nothing for reserved or unknown ids.
    pub fn name_for(&self, id: u64) -> (r: Option<&String>)
        ensures
            match r {
                Some(n) => FIRST_ITEM_ID <= id && id - FIRST_ITEM_ID < self.names@.len() && *n
                    == self.names@[id - FIRST_ITEM_ID],
                None => id < FIRST_ITEM_ID || id - FIRST_ITEM_ID >= self.names@.len(),
            },
    {
        if id < FIRST_ITEM_ID {
            return None;
        }
        let offset = id - FIRST_ITEM_ID;
        if offset >= self.names.len() as u64 {
            return None;
        }
        Some(&self.names[offset as usize])
    }
}

/// Law: the allocator is a bijection.  Two positions hold the same name
/// only when they are the same position, so no two distinct names ever
/// share an id, and — ids being `FIRST_ITEM_ID` plus the position — no
/// name is ever reachable under two ids.
pub proof fn lemma_allocator_bijective(a: IdAllocator, i: int, j: int)
    requires
        a.wf(),
        0 <= i < a.names@.len(),
        0 <= j < a.names@.len(),
    ensures
        (a.names@[i]@ == a.names@[j]@) <==> i == j,
        (FIRST_ITEM_ID + i == FIRST_ITEM_ID + j) <==> i == j,
{
    if i != j && a.names@[i]@ == a.names@[j]@ {
        if i < j {
            assert(a.names@[i]@ != a.names@[j]@);
        } else {
            assert(a.names@[j]@ != a.names@[i]@);
        }
    }
}

/// Law: allocation never reassigns an id.  A name already in the table
/// keeps its id when any further name is allocated, so repeated calls of
/// `id_for` return the same id however the table has grown in between.
pub proof fn lemma_ids_stable_under_allocation(names: Seq<String>, added: String, n: Seq<char>)
    requires
        spec_name_index(names, n) is Some,
    ensures
        spec_id_for_name(names.push(added), n) == spec_id_for_name(names, n),
    decreases names.len(),
{
    if names.len() > 0 && names[0]@ != n {
        assert(names.push(added).drop_first() =~= names.drop_first().push(added));
        lemma_ids_stable_under_allocation(names.drop_first(), added, n);
    }
}

/// Law: no two distinct names ever share an id.  Whatever the table
/// holds, the ids `id_for` yields for two different names present in it
/// differ, with no side condition on the table's remaining headroom.
pub proof fn lemma_distinct_names_distinct_ids(names: Seq<String>, n1: Seq<char>, n2: Seq<char>)
    requires
        n1 != n2,
        spec_name_index(names, n1) is Some,
        spec_name_index(names, n2) is Some,
    ensures
        spec_id_for_name(names, n1) != spec_id_for_name(names, n2),
{
    lemma_name_index(names, n1);
    lemma_name_index(names, n2);
}

} // verus!
