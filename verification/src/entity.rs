//! Sparse entity store: a slot arena with generation counters, a coordinate
//! component per entity, and an append-only log of coordinate changes.

use crate::components::Coordinate;
use vstd::prelude::*;

verus! {

/// Opaque handle into the [`EntityStore`]: a slot index plus the generation
/// counter the slot had when the handle was issued. The generation guards
/// against touching a slot that has been recycled since.
#[derive(Clone, Copy, Debug, PartialEq, Eq, Hash, Structural)]
pub struct EntityRef {
    pub index: u32,
    pub generation: u32,
}

/// Kind of a coordinate-component change, as recorded in the change log.
#[derive(Clone, Copy, Debug, PartialEq, Eq, Structural)]
pub enum ChangeKind {
    Inserted,
    Modified,
    Removed,
}

/// One entry of the change log: which slot changed, and how.
#[derive(Clone, Copy, Debug, PartialEq, Eq, Structural)]
pub struct ChangeEvent {
    pub id: u32,
    pub kind: ChangeKind,
}

/// Error for an operation through a handle whose slot has died or been
/// recycled since the handle was issued.
#[derive(Clone, Copy, Debug, PartialEq, Eq, Structural)]
pub struct StaleRef;

struct Slot {
    generation: u32,
    alive: bool,
    coordinate: Option<Coordinate>,
}

/// The entity/component store.
///
/// Entities are slots in an arena; destroyed slots go on a free list and are
/// recycled with a higher generation. The only component the verified core
/// reads is the grid coordinate; every coordinate mutation appends an event
/// to the change log, which readers drain through their own cursors.
pub struct EntityStore {
    slots: Vec<Slot>,
    free: Vec<u32>,
    events: Vec<ChangeEvent>,
}

impl EntityStore {
    /// Number of slots ever allocated (live or dead).
    pub closed spec fn num_slots(&self) -> int {
        self.slots@.len() as int
    }

    /// Whether slot `id` currently holds a live entity.
    pub closed spec fn live(&self, id: int) -> bool {
        0 <= id < self.num_slots() && self.slots@[id].alive
    }

    /// Current generation counter of slot `id`.
    pub closed spec fn gen_of(&self, id: int) -> u32 {
        self.slots@[id].generation
    }

    /// Coordinate component of slot `id`, `None` when unset.
    pub closed spec fn coord_of(&self, id: int) -> Option<Coordinate> {
        self.slots@[id].coordinate
    }

    /// Whether a handle still refers to the entity it was issued for.
    pub open spec fn current(&self, e: EntityRef) -> bool {
        self.live(e.index as int) && self.gen_of(e.index as int) == e.generation
    }

    /// The handle that currently names slot `id`.
    pub open spec fn handle_of(&self, id: int) -> EntityRef {
        EntityRef { index: id as u32, generation: self.gen_of(id) }
    }

    /// The change log so far.
    pub closed spec fn events(&self) -> Seq<ChangeEvent> {
        self.events@
    }

    /// Structural invariant: free-list entries name distinct dead slots.
    pub closed spec fn wf(&self) -> bool {
        &&& forall|k: int|
            0 <= k < self.free@.len() ==> #[trigger] self.free@[k] < self.slots@.len()
                && !self.slots@[self.free@[k] as int].alive
        &&& forall|j: int, k: int|
            0 <= j < k < self.free@.len() ==> self.free@[j] != self.free@[k]
    }

    /// An empty store: no slots, no pending events.
    pub fn new() -> (r: EntityStore)
        ensures
            r.wf(),
            r.num_slots() == 0,
            r.events() == Seq::<ChangeEvent>::empty(),
    {
        EntityStore { slots: Vec::new(), free: Vec::new(), events: Vec::new() }
    }

    /// Creates a fresh entity with no coordinate, recycling a dead slot when
    /// one is available (its generation is bumped so old handles go stale).
    pub fn create(&mut self) -> (r: EntityRef)
        requires
            old(self).wf(),
            old(self).num_slots() < 0x8000_0000,
        ensures
            final(self).wf(),
            final(self).current(r),
            (r.index as int) < final(self).num_slots(),
            final(self).coord_of(r.index as int) == Option::<Coordinate>::None,
            !old(self).live(r.index as int),
            final(self).events() == old(self).events(),
            old(self).num_slots() <= final(self).num_slots() <= old(self).num_slots() + 1,
            forall|id: int|
                0 <= id < old(self).num_slots() && id != r.index as int ==> {
                    &&& #[trigger] final(self).live(id) == old(self).live(id)
                    &&& final(self).gen_of(id) == old(self).gen_of(id)
                    &&& final(self).coord_of(id) == old(self).coord_of(id)
                },
    {
        let mut recycled: Option<u32> = None;
        match self.free.pop() {
            Some(id) => {
                let g = self.slots[id as usize].generation;
                if g < u32::MAX {
                    recycled = Some(id);
                } else {
                    // The counter would wrap; retire this slot for good.
                }
            },
            None => {},
        }
        match recycled {
            Some(id) => {
                let g = self.slots[id as usize].generation;
                self.slots[id as usize] = Slot { generation: g + 1, alive: true, coordinate: None };
                EntityRef { index: id, generation: g + 1 }
            },
            None => {
                let id = self.slots.len() as u32;
                self.slots.push(Slot { generation: 0, alive: true, coordinate: None });
                EntityRef { index: id, generation: 0 }
            },
        }
    }

    /// Places the entity's coordinate component, recording `Inserted` when the
    /// component was absent and `Modified` when it is overwritten. Fails on a
    /// stale handle without touching anything.
    pub fn set_coordinate(&mut self, e: EntityRef, c: Coordinate) -> (r: Result<(), StaleRef>)
        requires
            old(self).wf(),
        ensures
            final(self).wf(),
            old(self).current(e) ==> {
                &&& r is Ok
                &&& final(self).current(e)
                &&& final(self).coord_of(e.index as int) == Some(c)
                &&& final(self).events() == old(self).events().push(
                    ChangeEvent {
                        id: e.index,
                        kind: if old(self).coord_of(e.index as int) is Some {
                            ChangeKind::Modified
                        } else {
                            ChangeKind::Inserted
                        },
                    },
                )
            },
            !old(self).current(e) ==> r == Result::<(), StaleRef>::Err(StaleRef) && *final(self)
                == *old(self),
            final(self).num_slots() == old(self).num_slots(),
            forall|id: int|
                0 <= id < old(self).num_slots() ==> {
                    &&& #[trigger] final(self).live(id) == old(self).live(id)
                    &&& final(self).gen_of(id) == old(self).gen_of(id)
                    &&& (id != e.index as int ==> final(self).coord_of(id) == old(self).coord_of(
                        id,
                    ))
                },
    {
        let i = e.index as usize;
        if i < self.slots.len() && self.slots[i].alive && self.slots[i].generation == e.generation {
            let kind = if self.slots[i].coordinate.is_some() {
                ChangeKind::Modified
            } else {
                ChangeKind::Inserted
            };
            let g = self.slots[i].generation;
            self.slots[i] = Slot { generation: g, alive: true, coordinate: Some(c) };
            self.events.push(ChangeEvent { id: e.index, kind });
            Ok(())
        } else {
            Err(StaleRef)
        }
    }

    /// Removes the entity's coordinate component, recording `Removed` when one
    /// was present. Fails on a stale handle without touching anything.
    pub fn remove_coordinate(&mut self, e: EntityRef) -> (r: Result<(), StaleRef>)
        requires
            old(self).wf(),
        ensures
            final(self).wf(),
            old(self).current(e) ==> {
                &&& r is Ok
                &&& final(self).current(e)
                &&& final(self).coord_of(e.index as int) == Option::<Coordinate>::None
                &&& final(self).events() == if old(self).coord_of(e.index as int) is Some {
                    old(self).events().push(ChangeEvent { id: e.index, kind: ChangeKind::Removed })
                } else {
                    old(self).events()
                }
            },
            !old(self).current(e) ==> r == Result::<(), StaleRef>::Err(StaleRef) && *final(self)
                == *old(self),
            final(self).num_slots() == old(self).num_slots(),
            forall|id: int|
                0 <= id < old(self).num_slots() ==> {
                    &&& #[trigger] final(self).live(id) == old(self).live(id)
                    &&& final(self).gen_of(id) == old(self).gen_of(id)
                    &&& (id != e.index as int ==> final(self).coord_of(id) == old(self).coord_of(
                        id,
                    ))
                },
    {
        let i = e.index as usize;
        if i < self.slots.len() && self.slots[i].alive && self.slots[i].generation == e.generation {
            let had = self.slots[i].coordinate.is_some();
            let g = self.slots[i].generation;
            self.slots[i] = Slot { generation: g, alive: true, coordinate: None };
            if had {
                self.events.push(ChangeEvent { id: e.index, kind: ChangeKind::Removed });
            }
            Ok(())
        } else {
            Err(StaleRef)
        }
    }

    /// Destroys the entity: its coordinate (if any) is logged as `Removed`,
    /// the slot dies and goes on the free list for recycling.
    pub fn destroy(&mut self, e: EntityRef) -> (r: Result<(), StaleRef>)
        requires
            old(self).wf(),
        ensures
            final(self).wf(),
            old(self).current(e) ==> {
                &&& r is Ok
                &&& !final(self).live(e.index as int)
                &&& final(self).coord_of(e.index as int) == Option::<Coordinate>::None
                &&& final(self).events() == if old(self).coord_of(e.index as int) is Some {
                    old(self).events().push(ChangeEvent { id: e.index, kind: ChangeKind::Removed })
                } else {
                    old(self).events()
                }
            },
            !old(self).current(e) ==> r == Result::<(), StaleRef>::Err(StaleRef) && *final(self)
                == *old(self),
            final(self).num_slots() == old(self).num_slots(),
            forall|id: int|
                0 <= id < old(self).num_slots() && id != e.index as int ==> {
                    &&& #[trigger] final(self).live(id) == old(self).live(id)
                    &&& final(self).gen_of(id) == old(self).gen_of(id)
                    &&& final(self).coord_of(id) == old(self).coord_of(id)
                },
    {
        let i = e.index as usize;
        if i < self.slots.len() && self.slots[i].alive && self.slots[i].generation == e.generation {
            let had = self.slots[i].coordinate.is_some();
            let g = self.slots[i].generation;
            self.slots[i] = Slot { generation: g, alive: false, coordinate: None };
            if had {
                self.events.push(ChangeEvent { id: e.index, kind: ChangeKind::Removed });
            }
            self.free.push(e.index);
            Ok(())
        } else {
            Err(StaleRef)
        }
    }

    /// Reads the coordinate component through a handle; `None` when the
    /// handle is stale or the component is unset.
    pub fn get_coordinate(&self, e: EntityRef) -> (r: Option<Coordinate>)
        ensures
            r == if self.current(e) {
                self.coord_of(e.index as int)
            } else {
                Option::<Coordinate>::None
            },
    {
        let i = e.index as usize;
        if i < self.slots.len() && self.slots[i].alive && self.slots[i].generation == e.generation {
            self.slots[i].coordinate
        } else {
            None
        }
    }

    /// Resolves a raw slot id to its current handle and coordinate, as the
    /// grid synchronization needs; `None` when the slot is dead, out of range
    /// or has no coordinate.
    pub fn resolve(&self, id: u32) -> (r: Option<(EntityRef, Coordinate)>)
        ensures
            r == self.spec_resolve(id),
    {
        let i = id as usize;
        if i < self.slots.len() && self.slots[i].alive {
            match self.slots[i].coordinate {
                Some(c) => Some((EntityRef { index: id, generation: self.slots[i].generation }, c)),
                None => None,
            }
        } else {
            None
        }
    }

    /// Specification of [`Self::resolve`].
    pub open spec fn spec_resolve(&self, id: u32) -> Option<(EntityRef, Coordinate)> {
        if self.live(id as int) && self.coord_of(id as int) is Some {
            Some((self.handle_of(id as int), self.coord_of(id as int)->Some_0))
        } else {
            None
        }
    }

    /// Number of slots ever allocated, as a runtime value.
    pub fn len(&self) -> (r: usize)
        ensures
            r as int == self.num_slots(),
    {
        self.slots.len()
    }

    /// Number of events logged so far.
    pub fn events_len(&self) -> (r: usize)
        ensures
            r == self.events().len(),
    {
        self.events.len()
    }

    /// One entry of the change log.
    pub fn event_at(&self, i: usize) -> (r: ChangeEvent)
        requires
            i < self.events().len(),
        ensures
            r == self.events()[i as int],
    {
        self.events[i]
    }
}

} // verus!
