//! Per-tick classification of change events into Inserted / Modified /
//! Removed id sets, collapsing repeated events for one id to the most
//! recent one.

use crate::entity::{ChangeEvent, ChangeKind, EntityStore};
use vstd::prelude::*;

verus! {

/// A strictly ascending sequence: sorted, no duplicates.
pub open spec fn sorted_unique(s: Seq<u32>) -> bool {
    forall|i: int, j: int| 0 <= i < j < s.len() ==> s[i] < s[j]
}

/// The kind of the most recent event for `id` in `events`, if any.
pub open spec fn last_kind(events: Seq<ChangeEvent>, id: u32) -> Option<ChangeKind>
    decreases events.len(),
{
    if events.len() == 0 {
        None
    } else if events.last().id == id {
        Some(events.last().kind)
    } else {
        last_kind(events.drop_last(), id)
    }
}

/// Appending one event only affects the id it names.
pub proof fn lemma_last_kind_push(s: Seq<ChangeEvent>, e: ChangeEvent, id: u32)
    ensures
        last_kind(s.push(e), id) == if e.id == id {
            Some(e.kind)
        } else {
            last_kind(s, id)
        },
{
    let t = s.push(e);
    assert(t.drop_last() =~= s);
    assert(t.last() == e);
}

/// Removes `x` from a strictly ascending vector if present.
fn sorted_remove(v: &mut Vec<u32>, x: u32)
    requires
        sorted_unique(old(v)@),
    ensures
        sorted_unique(final(v)@),
        forall|y: u32|
            #![trigger old(v)@.contains(y)]
            #![trigger final(v)@.contains(y)]
            final(v)@.contains(y) <==> (old(v)@.contains(y) && y != x),
{
    let ghost orig = v@;
    let n = v.len();
    let mut i: usize = 0;
    while i < n
        invariant
            0 <= i <= n,
            n == v@.len(),
            v@ == orig,
            orig == old(v)@,
            sorted_unique(orig),
            forall|k: int| 0 <= k < i ==> v@[k] != x,
        decreases n - i,
    {
        if v[i] == x {
            v.remove(i);
            proof {
                assert(forall|k: int| 0 <= k < i ==> v@[k] == orig[k]);
                assert(forall|k: int| i <= k < v@.len() ==> v@[k] == orig[k + 1]);
                assert(sorted_unique(v@));
                assert forall|y: u32| v@.contains(y) implies orig.contains(y) && y != x by {
                    let k = choose|k: int| 0 <= k < v@.len() && v@[k] == y;
                    if k < i {
                        assert(orig[k] == y);
                    } else {
                        assert(orig[k + 1] == y);
                    }
                }
                assert forall|y: u32| orig.contains(y) && y != x implies v@.contains(y) by {
                    let k = choose|k: int| 0 <= k < orig.len() && orig[k] == y;
                    if k < i {
                        assert(v@[k] == y);
                    } else {
                        assert(k != i);
                        assert(v@[k - 1] == y);
                    }
                }
            }
            return ;
        }
        i = i + 1;
    }
    proof {
        assert(forall|k: int| 0 <= k < v@.len() ==> v@[k] != x);
    }
}

/// Inserts `x` into a strictly ascending vector, keeping it ascending;
/// inserting a present value is a no-op.
fn sorted_insert(v: &mut Vec<u32>, x: u32)
    requires
        sorted_unique(old(v)@),
    ensures
        sorted_unique(final(v)@),
        forall|y: u32|
            #![trigger old(v)@.contains(y)]
            #![trigger final(v)@.contains(y)]
            final(v)@.contains(y) <==> (old(v)@.contains(y) || y == x),
{
    let ghost orig = v@;
    let n = v.len();
    let mut i: usize = 0;
    while i < n && v[i] < x
        invariant
            0 <= i <= n,
            n == v@.len(),
            v@ == orig,
            sorted_unique(orig),
            forall|k: int| 0 <= k < i ==> v@[k] < x,
        decreases n - i,
    {
        i = i + 1;
    }
    if i < n && v[i] == x {
        proof {
            assert(v@.contains(x));
        }
        return ;
    }
    v.insert(i, x);
    proof {
        assert forall|a: int, b: int| 0 <= a < b < v@.len() implies v@[a] < v@[b] by {
            if a < i && b == i {
                assert(orig[a] < x);
            } else if a == i && b > i {
                assert(v@[b] == orig[b - 1]);
                assert(orig[b - 1] >= x);
                assert(orig[b - 1] != x) by {
                    if b - 1 == i as int {
                    } else {
                        assert(orig[i as int] < orig[b - 1] || i as int >= orig.len());
                    }
                }
            } else if a < i && b > i {
                assert(v@[a] == orig[a] && v@[b] == orig[b - 1]);
            } else if a > i && b > i {
                assert(v@[a] == orig[a - 1] && v@[b] == orig[b - 1]);
            }
        }
        assert forall|y: u32| v@.contains(y) implies orig.contains(y) || y == x by {
            let k = choose|k: int| 0 <= k < v@.len() && v@[k] == y;
            if k < i {
                assert(orig[k] == y);
            } else if k > i {
                assert(orig[k - 1] == y);
            }
        }
        assert forall|y: u32| orig.contains(y) || y == x implies v@.contains(y) by {
            if y == x {
                assert(v@[i as int] == x);
            } else {
                let k = choose|k: int| 0 <= k < orig.len() && orig[k] == y;
                if k < i {
                    assert(v@[k] == y);
                } else {
                    assert(v@[k + 1] == y);
                }
            }
        }
    }
}

/// Per-tick change sets: which slot ids were inserted, modified, removed,
/// each kept as a strictly ascending id vector so iteration order is the
/// documented ascending-id order.
pub struct ChangeSet {
    inserted: Vec<u32>,
    modified: Vec<u32>,
    removed: Vec<u32>,
}

impl ChangeSet {
    /// Ids whose most recent event was `Inserted`, ascending.
    pub closed spec fn inserted_ids(&self) -> Seq<u32> {
        self.inserted@
    }

    /// Ids whose most recent event was `Modified`, ascending.
    pub closed spec fn modified_ids(&self) -> Seq<u32> {
        self.modified@
    }

    /// Ids whose most recent event was `Removed`, ascending.
    pub closed spec fn removed_ids(&self) -> Seq<u32> {
        self.removed@
    }

    /// All three id vectors are strictly ascending.
    pub open spec fn wf(&self) -> bool {
        sorted_unique(self.inserted_ids()) && sorted_unique(self.modified_ids()) && sorted_unique(
            self.removed_ids(),
        )
    }

    /// No pending changes at all.
    pub open spec fn spec_is_empty(&self) -> bool {
        self.inserted_ids().len() == 0 && self.modified_ids().len() == 0 && self.removed_ids().len()
            == 0
    }

    /// Three empty sets.
    pub fn new() -> (r: ChangeSet)
        ensures
            r.wf(),
            r.spec_is_empty(),
    {
        ChangeSet { inserted: Vec::new(), modified: Vec::new(), removed: Vec::new() }
    }

    /// The inserted-id vector, ascending.
    pub fn inserted(&self) -> (r: &Vec<u32>)
        ensures
            r@ == self.inserted_ids(),
    {
        &self.inserted
    }

    /// The modified-id vector, ascending.
    pub fn modified(&self) -> (r: &Vec<u32>)
        ensures
            r@ == self.modified_ids(),
    {
        &self.modified
    }

    /// The removed-id vector, ascending.
    pub fn removed(&self) -> (r: &Vec<u32>)
        ensures
            r@ == self.removed_ids(),
    {
        &self.removed
    }

    /// Whether all three sets are empty.
    pub fn is_empty(&self) -> (r: bool)
        ensures
            r == self.spec_is_empty(),
    {
        self.inserted.len() == 0 && self.modified.len() == 0 && self.removed.len() == 0
    }
}

/// Consumes the change-event stream once per tick through a caller-owned
/// cursor into the store's append-only log.
pub struct ChangeTracker {
    cursor: usize,
}

impl ChangeTracker {
    /// Position of this reader in the change log.
    pub closed spec fn spec_cursor(&self) -> int {
        self.cursor as int
    }

    /// A reader starting at the head of the log.
    pub fn new() -> (r: ChangeTracker)
        ensures
            r.spec_cursor() == 0,
    {
        ChangeTracker { cursor: 0 }
    }

    /// Drains the events logged since the previous drain and buckets each id
    /// by the kind of its most recent event: an id that received several
    /// events within one tick lands in exactly the set of the last one.
    pub fn drain(&mut self, store: &EntityStore) -> (cs: ChangeSet)
        requires
            old(self).spec_cursor() <= store.events().len(),
        ensures
            final(self).spec_cursor() == store.events().len(),
            cs.wf(),
            forall|id: u32|
                #![trigger cs.inserted_ids().contains(id)]
                #![trigger cs.modified_ids().contains(id)]
                #![trigger cs.removed_ids().contains(id)]
                {
                    let drained = store.events().subrange(
                        old(self).spec_cursor(),
                        store.events().len() as int,
                    );
                    &&& cs.inserted_ids().contains(id) <==> last_kind(drained, id) == Some(
                        ChangeKind::Inserted,
                    )
                    &&& cs.modified_ids().contains(id) <==> last_kind(drained, id) == Some(
                        ChangeKind::Modified,
                    )
                    &&& cs.removed_ids().contains(id) <==> last_kind(drained, id) == Some(
                        ChangeKind::Removed,
                    )
                },
    {
        let ghost c0 = self.cursor as int;
        let mut cs = ChangeSet::new();
        let n = store.events_len();
        let mut i: usize = self.cursor;
        while i < n
            invariant
                0 <= c0 <= i <= n,
                n == store.events().len(),
                cs.wf(),
                forall|id: u32|
                    #![trigger cs.inserted_ids().contains(id)]
                    #![trigger cs.modified_ids().contains(id)]
                    #![trigger cs.removed_ids().contains(id)]
                    {
                        let sofar = store.events().subrange(c0, i as int);
                        &&& cs.inserted_ids().contains(id) <==> last_kind(sofar, id) == Some(
                            ChangeKind::Inserted,
                        )
                        &&& cs.modified_ids().contains(id) <==> last_kind(sofar, id) == Some(
                            ChangeKind::Modified,
                        )
                        &&& cs.removed_ids().contains(id) <==> last_kind(sofar, id) == Some(
                            ChangeKind::Removed,
                        )
                    },
            decreases n - i,
        {
            let ev = store.event_at(i);
            let ghost ins0 = cs.inserted@;
            let ghost mod0 = cs.modified@;
            let ghost rem0 = cs.removed@;
            sorted_remove(&mut cs.inserted, ev.id);
            sorted_remove(&mut cs.modified, ev.id);
            sorted_remove(&mut cs.removed, ev.id);
            let ghost ins1 = cs.inserted@;
            let ghost mod1 = cs.modified@;
            let ghost rem1 = cs.removed@;
            match ev.kind {
                ChangeKind::Inserted => sorted_insert(&mut cs.inserted, ev.id),
                ChangeKind::Modified => sorted_insert(&mut cs.modified, ev.id),
                ChangeKind::Removed => sorted_insert(&mut cs.removed, ev.id),
            }
            proof {
                let sofar = store.events().subrange(c0, i as int);
                let next = store.events().subrange(c0, i + 1 as int);
                assert(next =~= sofar.push(store.events()[i as int]));
                assert forall|id: u32| true implies {
                    &&& cs.inserted_ids().contains(id) <==> last_kind(next, id) == Some(
                        ChangeKind::Inserted,
                    )
                    &&& cs.modified_ids().contains(id) <==> last_kind(next, id) == Some(
                        ChangeKind::Modified,
                    )
                    &&& cs.removed_ids().contains(id) <==> last_kind(next, id) == Some(
                        ChangeKind::Removed,
                    )
                } by {
                    lemma_last_kind_push(sofar, store.events()[i as int], id);
                    assert(ins0.contains(id) <==> last_kind(sofar, id) == Some(
                        ChangeKind::Inserted,
                    ));
                    assert(mod0.contains(id) <==> last_kind(sofar, id) == Some(
                        ChangeKind::Modified,
                    ));
                    assert(rem0.contains(id) <==> last_kind(sofar, id) == Some(
                        ChangeKind::Removed,
                    ));
                    assert(ins1.contains(id) <==> (ins0.contains(id) && id != ev.id));
                    assert(mod1.contains(id) <==> (mod0.contains(id) && id != ev.id));
                    assert(rem1.contains(id) <==> (rem0.contains(id) && id != ev.id));
                }
            }
            i = i + 1;
        }
        self.cursor = n;
        cs
    }
}

} // verus!
