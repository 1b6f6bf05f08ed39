//! The assembled runtime state and its tick: change tracking, grid
//! synchronization and picking, composed in dependency order. The render
//! step runs after all of this, outside the library.

use crate::components::Coordinate;
use crate::entity::{ChangeEvent, ChangeKind, EntityRef, EntityStore};
use crate::grid::{cell_after, orphan_list, rejected_list, Cell, Grid, MappingSystem, SyncReport};
use crate::picker::{pick, spec_pick, PickResult};
use crate::tracker::ChangeSet;
use crate::view::Scene;
use vstd::prelude::*;

verus! {

/// Counts the scheduler passes completed since startup.
#[derive(Clone, Copy, Debug, PartialEq, Eq, Structural)]
pub struct Frame(pub u64);

/// The whole game state: the entity store, the spatial index kept in sync
/// with it, the scene (view transform and pointer), and the frame counter.
pub struct GameState {
    /// The entity/component store, exclusively owned between ticks.
    pub store: EntityStore,
    /// The dense spatial index, maintained incrementally by [`Self::tick`].
    pub map: Grid<Cell>,
    /// View configuration and latest pointer position.
    pub scene: Scene,
    /// Completed ticks.
    pub frame: Frame,
    /// The grid-synchronization step, with its cursor into the change log.
    pub mapping: MappingSystem,
}

impl GameState {
    /// The mapping system's position in the store's change log.
    pub open spec fn spec_cursor(&self) -> int {
        self.mapping.spec_cursor()
    }

    /// The state is consistent: the grid is well formed, the scene's view
    /// is within machine bounds, and the mapping system has not outrun the
    /// change log.
    pub open spec fn wf(&self) -> bool {
        &&& self.store.wf()
        &&& self.map.wf()
        &&& self.scene.spec_view().wf()
        &&& 0 <= self.spec_cursor() <= self.store.events().len()
    }

    /// A fresh game: empty store, the default 32 by 32 empty grid, and a
    /// scene over the given screen size with the camera at the origin and
    /// tile size one.
    pub fn new(screen_size: (i32, i32)) -> (r: GameState)
        requires
            0 <= screen_size.0 <= 0x10_0000,
            0 <= screen_size.1 <= 0x10_0000,
        ensures
            r.wf(),
            r.store.num_slots() == 0,
            r.store.events() == Seq::<ChangeEvent>::empty(),
            r.map.spec_width() == 32,
            r.map.spec_height() == 32,
            forall|c: Coordinate| #[trigger] r.map.in_bounds(c) ==> r.map.cell(c).tile is None,
            r.scene.spec_view().width == screen_size.0,
            r.scene.spec_view().height == screen_size.1,
            r.frame == Frame(0),
            r.spec_cursor() == 0,
    {
        GameState {
            store: EntityStore::new(),
            map: Grid::new(32, 32),
            scene: Scene::new(screen_size, (0, 0)),
            frame: Frame(0),
            mapping: MappingSystem::new(),
        }
    }

    /// Creates a block entity at a tile coordinate: a fresh entity whose
    /// coordinate component is set, which logs one `Inserted` change.
    pub fn create_block(&mut self, x: i32, y: i32) -> (r: EntityRef)
        requires
            old(self).wf(),
            old(self).store.num_slots() < 0x8000_0000,
        ensures
            final(self).wf(),
            final(self).store.current(r),
            (r.index as int) < final(self).store.num_slots(),
            !old(self).store.live(r.index as int),
            final(self).store.coord_of(r.index as int) == Some(Coordinate { x, y }),
            final(self).store.events() == old(self).store.events().push(
                ChangeEvent { id: r.index, kind: ChangeKind::Inserted },
            ),
            old(self).store.num_slots() <= final(self).store.num_slots() <= old(
                self,
            ).store.num_slots() + 1,
            forall|id: int|
                0 <= id < old(self).store.num_slots() && id != r.index as int ==> {
                    &&& #[trigger] final(self).store.live(id) == old(self).store.live(id)
                    &&& final(self).store.gen_of(id) == old(self).store.gen_of(id)
                    &&& final(self).store.coord_of(id) == old(self).store.coord_of(id)
                },
            final(self).map == old(self).map,
            final(self).scene == old(self).scene,
            final(self).frame == old(self).frame,
            final(self).spec_cursor() == old(self).spec_cursor(),
    {
        let e = self.store.create();
        let outcome = self.store.set_coordinate(e, Coordinate { x, y });
        proof {
            assert(outcome is Ok);
        }
        e
    }

    /// One tick's logic steps, in dependency order: drain the change log
    /// into fresh change sets, synchronize the grid from them, then resolve
    /// the pointer against the synchronized grid. The render step follows
    /// outside, against [`Grid::iter_occupied_cells`] and the scene's
    /// transform.
    pub fn tick(&mut self) -> (r: (ChangeSet, SyncReport, PickResult))
        requires
            old(self).wf(),
            old(self).frame.0 < u64::MAX,
        ensures
            final(self).wf(),
            final(self).store == old(self).store,
            final(self).scene == old(self).scene,
            final(self).frame.0 == old(self).frame.0 + 1,
            final(self).spec_cursor() == old(self).store.events().len(),
            r.0.wf(),
            ({
                let drained = old(self).store.events().subrange(
                    old(self).spec_cursor(),
                    old(self).store.events().len() as int,
                );
                forall|id: u32|
                    #![trigger r.0.inserted_ids().contains(id)]
                    #![trigger r.0.modified_ids().contains(id)]
                    #![trigger r.0.removed_ids().contains(id)]
                    {
                        &&& r.0.inserted_ids().contains(id) <==> crate::tracker::last_kind(
                            drained,
                            id,
                        ) == Some(ChangeKind::Inserted)
                        &&& r.0.modified_ids().contains(id) <==> crate::tracker::last_kind(
                            drained,
                            id,
                        ) == Some(ChangeKind::Modified)
                        &&& r.0.removed_ids().contains(id) <==> crate::tracker::last_kind(
                            drained,
                            id,
                        ) == Some(ChangeKind::Removed)
                    }
            }),
            final(self).map.wf(),
            final(self).map.spec_width() == old(self).map.spec_width(),
            final(self).map.spec_height() == old(self).map.spec_height(),
            forall|c: Coordinate| #[trigger]
                final(self).map.in_bounds(c) ==> final(self).map.cell(c).tile == cell_after(
                    old(self).map.cell(c).tile,
                    r.0.inserted_ids() + r.0.modified_ids(),
                    old(self).store,
                    c,
                ),
            r.1.orphans@ == orphan_list(
                r.0.inserted_ids() + r.0.modified_ids(),
                old(self).store,
            ),
            r.1.out_of_bounds@ == rejected_list(
                r.0.inserted_ids() + r.0.modified_ids(),
                old(self).store,
                old(self).map.spec_width(),
                old(self).map.spec_height(),
            ),
            r.2 == spec_pick(
                old(self).scene.spec_cursor(),
                old(self).scene.spec_view(),
                final(self).map,
            ),
    {
        let (cs, report) = self.mapping.run(&self.store, &mut self.map);
        let picked = pick(self.scene.screen_cursor(), self.scene.view(), &self.map);
        self.frame = Frame(self.frame.0 + 1);
        (cs, report, picked)
    }
}

} // verus!
