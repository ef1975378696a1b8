//! The priority cache: for one logical name, the launcher record seen in
//! each source directory, by priority index.
//!
//! The *active* record of a bucket is the one at the smallest occupied
//! index — the highest-priority copy.  Once created, a bucket is never
//! empty: removing its last record installs a tombstone in its place, so
//! `active` is defined for every bucket that ever existed.

use vstd::prelude::*;
use crate::desktop::Launcher;

verus! {

/// One cached record: the decoded launcher and the prepared bitmap for
/// its file icon (empty when none or when rasterization failed).
pub struct CacheSlot {
    pub record: Launcher,
    pub icon_data: Vec<u8>,
}

/// One name's per-directory records; position = source-directory index.
pub struct Bucket {
    pub slots: Vec<Option<CacheSlot>>,
}

/// The smallest occupied index of a run of slots (its length when none
/// is occupied).
pub open spec fn spec_first_some(s: Seq<Option<CacheSlot>>) -> int
    decreases s.len(),
{
    if s.len() == 0 {
        0
    } else if s[0] is Some {
        0
    } else {
        1 + spec_first_some(s.drop_first())
    }
}

pub proof fn lemma_first_some(s: Seq<Option<CacheSlot>>)
    ensures
        0 <= spec_first_some(s) <= s.len(),
        spec_first_some(s) < s.len() ==> s[spec_first_some(s)] is Some,
        forall|j: int| 0 <= j < spec_first_some(s) ==> s[j] is None,
        (exists|j: int| 0 <= j < s.len() && s[j] is Some) ==> spec_first_some(s) < s.len(),
    decreases s.len(),
{
    if s.len() > 0 && s[0] is None {
        lemma_first_some(s.drop_first());
        let f = spec_first_some(s.drop_first());
        assert(forall|j: int| 1 <= j < 1 + f ==> s[j] == s.drop_first()[j - 1]);
        if exists|j: int| 0 <= j < s.len() && s[j] is Some {
            let j = choose|j: int| 0 <= j < s.len() && s[j] is Some;
            assert(s.drop_first()[j - 1] is Some);
        }
    }
}

impl Bucket {
    /// A bucket spans every source directory and is never empty.
    pub open spec fn wf(self, width: nat) -> bool {
        &&& self.slots@.len() == width
        &&& exists|i: int| 0 <= i < self.slots@.len() && self.slots@[i] is Some
    }

    /// The priority index of the active record.
    pub open spec fn spec_active_index(self) -> int {
        spec_first_some(self.slots@)
    }

    /// The active record: the one at the smallest occupied index.
    pub open spec fn spec_active(self) -> CacheSlot {
        self.slots@[self.spec_active_index()]->Some_0
    }

    /// A bucket holding `slot` at `index`, all other slots empty.
    pub fn new(width: usize, index: usize, slot: CacheSlot) -> (r: Bucket)
        requires
            index < width,
        ensures
            r.wf(width as nat),
            r.slots@[index as int] == Some(slot),
            forall|j: int| 0 <= j < width && j != index ==> r.slots@[j] is None,
    {
        let mut slots: Vec<Option<CacheSlot>> = Vec::new();
        let mut i: usize = 0;
        while i < width
            invariant
                i <= width,
                slots@.len() == i,
                forall|j: int| 0 <= j < i ==> slots@[j] is None,
            decreases width - i,
        {
            slots.push(None);
            i = i + 1;
        }
        slots[index] = Some(slot);
        Bucket { slots }
    }

    /// Inserts or overwrites the record at `index`.
    pub fn upsert(&mut self, index: usize, slot: CacheSlot)
        requires
            index < old(self).slots@.len(),
        ensures
            final(self).slots@ == old(self).slots@.update(index as int, Some(slot)),
            final(self).wf(old(self).slots@.len()),
    {
        self.slots[index] = Some(slot);
    }

    /// The active entry of the bucket: its priority index and record.
    pub fn active(&self) -> (r: (usize, &CacheSlot))
        requires
            self.wf(self.slots@.len()),
        ensures
            r.0 == self.spec_active_index(),
            self.slots@[r.0 as int] == Some(*r.1),
            *r.1 == self.spec_active(),
            forall|j: int| 0 <= j < r.0 ==> self.slots@[j] is None,
    {
        proof {
            lemma_first_some(self.slots@);
        }
        let mut i: usize = 0;
        while i < self.slots.len()
            invariant
                self.wf(self.slots@.len()),
                i <= self.slots@.len(),
                forall|j: int| 0 <= j < i ==> self.slots@[j] is None,
                i <= self.spec_active_index(),
            decreases self.slots@.len() - i,
        {
            proof {
                lemma_first_some(self.slots@);
            }
            match &self.slots[i] {
                Some(slot) => {
                    return (i, slot);
                },
                None => {},
            }
            i = i + 1;
        }
        proof {
            lemma_first_some(self.slots@);
            assert(false);
        }
        unreached()
    }

    /// Deletes the record at `index` and returns it; when that empties
    /// the bucket, `tomb` takes the record's place so the bucket stays
    /// non-empty.  Returns nothing (and changes nothing) when the slot
    /// holds no record.
    pub fn remove(&mut self, index: usize, tomb: CacheSlot) -> (r: Option<CacheSlot>)
        requires
            old(self).wf(old(self).slots@.len()),
            index < old(self).slots@.len(),
        ensures
            final(self).wf(old(self).slots@.len()),
            old(self).slots@[index as int] is None ==> r is None && *final(self) == *old(self),
            old(self).slots@[index as int] is Some ==> {
                &&& r == old(self).slots@[index as int]
                &&& if exists|j: int|
                    0 <= j < old(self).slots@.len() && j != index && old(self).slots@[j] is Some {
                    final(self).slots@ == old(self).slots@.update(index as int, None::<CacheSlot>)
                } else {
                    final(self).slots@ == old(self).slots@.update(index as int, Some(tomb))
                }
            },
    {
        if self.slots[index].is_none() {
            return None;
        }
        let removed = self.slots[index].take();
        let mut occupied = false;
        let mut i: usize = 0;
        while i < self.slots.len()
            invariant
                self.slots@ == old(self).slots@.update(index as int, None::<CacheSlot>),
                index < self.slots@.len(),
                i <= self.slots@.len(),
                occupied == exists|j: int| 0 <= j < i && self.slots@[j] is Some,
            decreases self.slots@.len() - i,
        {
            if self.slots[i].is_some() {
                proof {
                    assert(self.slots@[i as int] is Some);
                }
                occupied = true;
            }
            i = i + 1;
        }
        if !occupied {
            self.slots[index] = Some(tomb);
            proof {
                assert(self.slots@ =~= old(self).slots@.update(index as int, Some(tomb)));
                assert(forall|j: int|
                    0 <= j < old(self).slots@.len() && j != index ==> old(self).slots@.update(
                        index as int,
                        None::<CacheSlot>,
                    )[j] == old(self).slots@[j]);
            }
        }
        removed
    }
}

/// Law: a bucket never empties.  Whatever `remove` does — deleting a
/// record, installing a tombstone, or refusing an unoccupied slot — some
/// slot stays occupied, so the bucket's active entry stays defined.  This
/// is the `wf` clause of `remove`'s contract; stated here over the
/// resulting state on its own.
pub proof fn lemma_bucket_never_empty(b: Bucket, width: nat)
    requires
        b.wf(width),
    ensures
        0 <= b.spec_active_index() < b.slots@.len(),
        b.slots@[b.spec_active_index()] is Some,
        forall|j: int| 0 <= j < b.spec_active_index() ==> b.slots@[j] is None,
{
    lemma_first_some(b.slots@);
}

/// Law: the active record is the highest-priority one.  When the
/// user-directory slot (index 0) is occupied, it is the active one, no
/// matter what the lower-priority slots hold or in what order the bucket
/// was filled: `active` is a function of the slots alone.
pub proof fn lemma_active_prefers_lowest(b: Bucket, width: nat)
    requires
        b.wf(width),
        b.slots@[0] is Some,
    ensures
        b.spec_active_index() == 0,
        b.spec_active() == b.slots@[0]->Some_0,
{
}

} // verus!
