//! Dense tile storage: a bounds-checked 2D array indexed by [`Coordinate`].

use crate::components::Coordinate;
use crate::entity::{EntityRef, EntityStore};
use crate::tracker::{ChangeSet, ChangeTracker};
use vstd::prelude::*;

verus! {

/// Error for a grid access outside `[0, width) x [0, height)`.
///
/// Out-of-bounds coordinates are always rejected, never wrapped into the
/// backing array.
#[derive(Clone, Copy, Debug, PartialEq, Eq, Structural)]
pub struct OutOfBounds;

/// Tile storage: a dense `width x height` array of cells of type `C`.
///
/// The backing vector always holds exactly `width * height` entries; it is
/// allocated once and never resized.
pub struct Grid<C> {
    /// Stores the kind of tile at a coordinate, row-major.
    tiles: Vec<C>,

    width: i32,
    height: i32,
}

impl<C> Grid<C> {
    /// Grid width, as stated in contracts.
    pub closed spec fn spec_width(&self) -> int {
        self.width as int
    }

    /// Grid height, as stated in contracts.
    pub closed spec fn spec_height(&self) -> int {
        self.height as int
    }

    /// Whether a coordinate lies inside the grid.
    pub open spec fn in_bounds(&self, c: Coordinate) -> bool {
        0 <= c.x < self.spec_width() && 0 <= c.y < self.spec_height()
    }

    /// Row-major index of an in-bounds coordinate.
    pub closed spec fn spec_index(&self, c: Coordinate) -> int {
        c.y * self.spec_width() + c.x
    }

    /// The cell stored at a coordinate (meaningful only in bounds).
    pub closed spec fn cell(&self, c: Coordinate) -> C {
        self.tiles@[self.spec_index(c)]
    }

    /// Structural invariant: the backing vector matches the dimensions.
    pub closed spec fn wf(&self) -> bool {
        &&& 0 <= self.spec_width()
        &&& 0 <= self.spec_height()
        &&& self.tiles@.len() == self.spec_width() * self.spec_height()
    }

    /// A row-major index of an in-bounds coordinate stays inside the backing
    /// vector, and two distinct in-bounds coordinates never share an index.
    proof fn lemma_index_in_range(&self, c: Coordinate)
        requires
            self.wf(),
            self.in_bounds(c),
        ensures
            0 <= self.spec_index(c) < self.tiles@.len(),
    {
        assert(0 <= c.y * self.spec_width() + c.x < self.spec_height()
            * self.spec_width()) by (nonlinear_arith)
            requires
                0 <= c.x < self.spec_width(),
                0 <= c.y < self.spec_height(),
        ;
        assert(self.spec_height() * self.spec_width() == self.spec_width()
            * self.spec_height()) by (nonlinear_arith);
    }

    proof fn lemma_index_injective(&self, a: Coordinate, b: Coordinate)
        requires
            self.in_bounds(a),
            self.in_bounds(b),
            self.spec_index(a) == self.spec_index(b),
        ensures
            a == b,
    {
        assert(a.x == b.x && a.y == b.y) by (nonlinear_arith)
            requires
                0 <= a.x < self.spec_width(),
                0 <= b.x < self.spec_width(),
                a.y * self.spec_width() + a.x == b.y * self.spec_width() + b.x,
        ;
    }

    /// Grid width in cells.
    pub fn width(&self) -> (r: i32)
        ensures
            r as int == self.spec_width(),
    {
        self.width
    }

    /// Grid height in cells.
    pub fn height(&self) -> (r: i32)
        ensures
            r as int == self.spec_height(),
    {
        self.height
    }

    /// Bounds-checked read access to one cell.
    pub fn get(&self, coordinate: Coordinate) -> (r: Result<&C, OutOfBounds>)
        requires
            self.wf(),
        ensures
            self.in_bounds(coordinate) ==> (r matches Ok(v) && *v == self.cell(coordinate)),
            !self.in_bounds(coordinate) ==> (r matches Err(e) && e == OutOfBounds),
    {
        if coordinate.x >= 0 && coordinate.y >= 0 && coordinate.x < self.width
            && coordinate.y < self.height {
            let _n: usize = self.tiles.len();
            proof {
                self.lemma_index_in_range(coordinate);
                assert(coordinate.y as int * self.spec_width() <= self.spec_index(coordinate));
            }
            let i: usize = (coordinate.y as usize) * (self.width as usize) + (coordinate.x as usize);
            Ok(&self.tiles[i])
        } else {
            Err(OutOfBounds)
        }
    }

    /// Bounds-checked write access to one cell; out-of-bounds writes are
    /// rejected and leave the grid unchanged.
    pub fn set(&mut self, coordinate: Coordinate, value: C) -> (r: Result<(), OutOfBounds>)
        requires
            old(self).wf(),
        ensures
            final(self).wf(),
            final(self).spec_width() == old(self).spec_width(),
            final(self).spec_height() == old(self).spec_height(),
            old(self).in_bounds(coordinate) ==> {
                &&& r matches Ok(u) && u == ()
                &&& final(self).cell(coordinate) == value
                &&& forall|c: Coordinate|
                    #[trigger] final(self).in_bounds(c) && c != coordinate ==> final(self).cell(c)
                        == old(self).cell(c)
            },
            !old(self).in_bounds(coordinate) ==> {
                &&& r matches Err(e) && e == OutOfBounds
                &&& *final(self) == *old(self)
            },
    {
        if coordinate.x >= 0 && coordinate.y >= 0 && coordinate.x < self.width
            && coordinate.y < self.height {
            let _n: usize = self.tiles.len();
            proof {
                self.lemma_index_in_range(coordinate);
                assert(coordinate.y as int * self.spec_width() <= self.spec_index(coordinate));
            }
            let i: usize = (coordinate.y as usize) * (self.width as usize) + (coordinate.x as usize);
            self.tiles[i] = value;
            proof {
                assert forall|c: Coordinate|
                    #[trigger] self.in_bounds(c) && c != coordinate implies self.cell(c) == old(
                    self,
                ).cell(c) by {
                    self.lemma_index_in_range(c);
                    if self.spec_index(c) == self.spec_index(coordinate) {
                        self.lemma_index_injective(c, coordinate);
                    }
                }
            }
            Ok(())
        } else {
            Err(OutOfBounds)
        }
    }
}

impl<C: Default> Grid<C> {
    /// Allocates a `width x height` grid, every cell holding `C::default()`.
    pub fn with_dimentions(width: i32, height: i32) -> (r: Grid<C>)
        requires
            0 <= width <= 0x8000,
            0 <= height <= 0x8000,
        ensures
            r.wf(),
            r.spec_width() == width,
            r.spec_height() == height,
            forall|c: Coordinate| #[trigger]
                r.in_bounds(c) ==> call_ensures(C::default, (), r.cell(c)),
    {
        proof {
            assert(width * height <= 0x8000 * 0x8000) by (nonlinear_arith)
                requires
                    0 <= width <= 0x8000,
                    0 <= height <= 0x8000,
            ;
        }
        let total: i32 = width * height;
        let mut tiles: Vec<C> = Vec::new();
        let mut i: i32 = 0;
        while i < total
            invariant
                0 <= i <= total,
                total == width * height,
                tiles@.len() == i,
                forall|k: int| 0 <= k < i ==> call_ensures(C::default, (), #[trigger] tiles@[k]),
            decreases total - i,
        {
            tiles.push(C::default());
            i = i + 1;
        }
        let r = Grid { tiles, width, height };
        proof {
            assert forall|c: Coordinate| #[trigger] r.in_bounds(c) implies call_ensures(
                C::default,
                (),
                r.cell(c),
            ) by {
                r.lemma_index_in_range(c);
            }
        }
        r
    }
}

/// Occupant of one grid coordinate: `None` when the cell is empty.
#[derive(Clone, Copy, Debug)]
pub struct Cell {
    pub tile: Option<EntityRef>,
}

impl Default for Cell {
    /// An empty cell.
    fn default() -> (r: Self)
        ensures
            r.tile is None,
    {
        Cell { tile: None }
    }
}

/// Whether the id currently resolves to a live entity placed at exactly `c`.
pub open spec fn places_at(store: EntityStore, id: u32, c: Coordinate) -> bool {
    match store.spec_resolve(id) {
        Some(rc) => rc.1 == c,
        None => false,
    }
}

/// The occupant of coordinate `c` after the ids in `order` have been applied
/// to a cell that held `prev`: the last id resolving to `c` wins, and a cell
/// no processed id resolves to keeps its occupant.
pub open spec fn cell_after(
    prev: Option<EntityRef>,
    order: Seq<u32>,
    store: EntityStore,
    c: Coordinate,
) -> Option<EntityRef>
    decreases order.len(),
{
    if order.len() == 0 {
        prev
    } else if places_at(store, order.last(), c) {
        Some(store.handle_of(order.last() as int))
    } else {
        cell_after(prev, order.drop_last(), store, c)
    }
}

/// Ids of `order`, in processing order, that resolve to no coordinate at all
/// (entity dead or component absent): the recoverable orphan diagnostics.
pub open spec fn orphan_list(order: Seq<u32>, store: EntityStore) -> Seq<u32>
    decreases order.len(),
{
    if order.len() == 0 {
        Seq::empty()
    } else if store.spec_resolve(order.last()) is None {
        orphan_list(order.drop_last(), store).push(order.last())
    } else {
        orphan_list(order.drop_last(), store)
    }
}

/// Whether a coordinate lies inside a `w x h` grid.
pub open spec fn coord_in(c: Coordinate, w: int, h: int) -> bool {
    0 <= c.x < w && 0 <= c.y < h
}

/// Ids of `order`, in processing order, whose entity resolves to a coordinate
/// outside the grid: rejected rather than wrapped.
pub open spec fn rejected_list(order: Seq<u32>, store: EntityStore, w: int, h: int) -> Seq<u32>
    decreases order.len(),
{
    if order.len() == 0 {
        Seq::empty()
    } else {
        let rest = rejected_list(order.drop_last(), store, w, h);
        match store.spec_resolve(order.last()) {
            Some(rc) => if !coord_in(rc.1, w, h) {
                rest.push(order.last())
            } else {
                rest
            },
            None => rest,
        }
    }
}

/// Appending one id to the processing order only affects the cell it
/// resolves to.
pub proof fn lemma_cell_after_push(
    prev: Option<EntityRef>,
    order: Seq<u32>,
    store: EntityStore,
    c: Coordinate,
    id: u32,
)
    ensures
        cell_after(prev, order.push(id), store, c) == if places_at(store, id, c) {
            Some(store.handle_of(id as int))
        } else {
            cell_after(prev, order, store, c)
        },
{
    let t = order.push(id);
    assert(t.drop_last() =~= order);
    assert(t.last() == id);
}

proof fn lemma_orphan_rejected_push(order: Seq<u32>, store: EntityStore, w: int, h: int, id: u32)
    ensures
        orphan_list(order.push(id), store) == if store.spec_resolve(id) is None {
            orphan_list(order, store).push(id)
        } else {
            orphan_list(order, store)
        },
        rejected_list(order.push(id), store, w, h) == match store.spec_resolve(id) {
            Some(rc) => if !coord_in(rc.1, w, h) {
                rejected_list(order, store, w, h).push(id)
            } else {
                rejected_list(order, store, w, h)
            },
            None => rejected_list(order, store, w, h),
        },
{
    let t = order.push(id);
    assert(t.drop_last() =~= order);
    assert(t.last() == id);
}

/// A cell that no processed id resolves to keeps its occupant. In
/// particular ids in the Removed set are never consulted, so a removed
/// entity's cell keeps its stale occupant until a later insert or modify
/// overwrites it.
pub proof fn lemma_sync_preserves_untouched(
    prev: Option<EntityRef>,
    order: Seq<u32>,
    store: EntityStore,
    c: Coordinate,
)
    requires
        forall|j: int| 0 <= j < order.len() ==> !places_at(store, order[j], c),
    ensures
        cell_after(prev, order, store, c) == prev,
    decreases order.len(),
{
    if order.len() > 0 {
        assert(order.last() == order[order.len() - 1]);
        lemma_sync_preserves_untouched(prev, order.drop_last(), store, c);
    }
}

/// Store/grid agreement: if the latest change for an entity placed it at the
/// in-bounds coordinate `c`, and no id processed after it resolves to the
/// same cell, then after synchronization the cell holds that entity's current
/// handle, and the store's coordinate component for that handle is exactly
/// `c` -- the grid and the store agree.
pub proof fn lemma_sync_tracks_store(
    prev: Option<EntityRef>,
    order: Seq<u32>,
    store: EntityStore,
    c: Coordinate,
    k: int,
)
    requires
        0 <= k < order.len(),
        places_at(store, order[k], c),
        forall|j: int| k < j < order.len() ==> !places_at(store, order[j], c),
    ensures
        cell_after(prev, order, store, c) == Some(store.handle_of(order[k] as int)),
        store.live(order[k] as int),
        store.coord_of(order[k] as int) == Some(c),
    decreases order.len(),
{
    if k == order.len() - 1 {
        assert(order.last() == order[k]);
    } else {
        assert(order.drop_last()[k] == order[k]);
        lemma_sync_tracks_store(prev, order.drop_last(), store, c, k);
    }
}

/// Incremental maintenance of the spatial index from one tick's change sets.
impl Grid<Cell> {
    /// Allocates a `width x height` spatial index with every cell empty.
    pub fn new(width: i32, height: i32) -> (r: Grid<Cell>)
        requires
            0 <= width <= 0x8000,
            0 <= height <= 0x8000,
        ensures
            r.wf(),
            r.spec_width() == width,
            r.spec_height() == height,
            forall|c: Coordinate| #[trigger] r.in_bounds(c) ==> r.cell(c).tile is None,
    {
        let r: Grid<Cell> = Grid::with_dimentions(width, height);
        proof {
            assert forall|c: Coordinate| #[trigger] r.in_bounds(c) implies r.cell(c).tile is None
            by {
                assert(call_ensures(Cell::default, (), r.cell(c)));
            }
        }
        r
    }

    /// Applies one tick's change sets: every id in Inserted, then every id in
    /// Modified, each in ascending id order, is resolved through the store
    /// and its entity written to the cell of its current coordinate; the last
    /// id resolving to a cell wins. Ids without a coordinate are skipped and
    /// reported as orphans; coordinates outside the grid are rejected and
    /// reported, never wrapped. Removed ids clear nothing. An empty change
    /// set leaves the grid untouched.
    pub fn sync(&mut self, changes: &ChangeSet, store: &EntityStore) -> (r: SyncReport)
        requires
            old(self).wf(),
        ensures
            final(self).wf(),
            final(self).spec_width() == old(self).spec_width(),
            final(self).spec_height() == old(self).spec_height(),
            ({
                let order = changes.inserted_ids() + changes.modified_ids();
                &&& forall|c: Coordinate| #[trigger]
                    final(self).in_bounds(c) ==> final(self).cell(c).tile == cell_after(
                        old(self).cell(c).tile,
                        order,
                        *store,
                        c,
                    )
                &&& r.orphans@ == orphan_list(order, *store)
                &&& r.out_of_bounds@ == rejected_list(
                    order,
                    *store,
                    old(self).spec_width(),
                    old(self).spec_height(),
                )
            }),
            changes.spec_is_empty() ==> *final(self) == *old(self),
    {
        let ghost g0 = *self;
        let ghost ins = changes.inserted_ids();
        let ghost mds = changes.modified_ids();
        let mut report = SyncReport { orphans: Vec::new(), out_of_bounds: Vec::new() };

        let inserted = changes.inserted();
        let n = inserted.len();
        let mut i: usize = 0;
        while i < n
            invariant
                0 <= i <= n,
                n == ins.len(),
                inserted@ == ins,
                i == 0 ==> *self == g0,
                self.wf(),
                self.spec_width() == g0.spec_width(),
                self.spec_height() == g0.spec_height(),
                forall|c: Coordinate| #[trigger]
                    self.in_bounds(c) ==> self.cell(c).tile == cell_after(
                        g0.cell(c).tile,
                        ins.take(i as int),
                        *store,
                        c,
                    ),
                report.orphans@ == orphan_list(ins.take(i as int), *store),
                report.out_of_bounds@ == rejected_list(
                    ins.take(i as int),
                    *store,
                    g0.spec_width(),
                    g0.spec_height(),
                ),
            decreases n - i,
        {
            let id = inserted[i];
            self.apply_one(id, store, &mut report, Ghost(g0), Ghost(ins.take(i as int)));
            proof {
                assert(ins.take(i + 1) =~= ins.take(i as int).push(ins[i as int]));
            }
            i = i + 1;
        }
        proof {
            assert(ins.take(n as int) =~= ins);
        }

        let modified = changes.modified();
        let m = modified.len();
        let mut j: usize = 0;
        while j < m
            invariant
                0 <= j <= m,
                m == mds.len(),
                modified@ == mds,
                ins.len() == 0 && j == 0 ==> *self == g0,
                self.wf(),
                self.spec_width() == g0.spec_width(),
                self.spec_height() == g0.spec_height(),
                forall|c: Coordinate| #[trigger]
                    self.in_bounds(c) ==> self.cell(c).tile == cell_after(
                        g0.cell(c).tile,
                        ins + mds.take(j as int),
                        *store,
                        c,
                    ),
                report.orphans@ == orphan_list(ins + mds.take(j as int), *store),
                report.out_of_bounds@ == rejected_list(
                    ins + mds.take(j as int),
                    *store,
                    g0.spec_width(),
                    g0.spec_height(),
                ),
            decreases m - j,
        {
            let id = modified[j];
            self.apply_one(id, store, &mut report, Ghost(g0), Ghost(ins + mds.take(j as int)));
            proof {
                assert((ins + mds.take(j + 1)) =~= (ins + mds.take(j as int)).push(
                    mds[j as int],
                ));
            }
            j = j + 1;
        }
        proof {
            assert((ins + mds.take(m as int)) =~= (ins + mds));
        }
        report
    }

    /// Resolves one id and writes its entity to the cell of its coordinate,
    /// extending the diagnostics lists as the specification functions say.
    fn apply_one(
        &mut self,
        id: u32,
        store: &EntityStore,
        report: &mut SyncReport,
        Ghost(g0): Ghost<Grid<Cell>>,
        Ghost(done): Ghost<Seq<u32>>,
    )
        requires
            old(self).wf(),
            old(self).spec_width() == g0.spec_width(),
            old(self).spec_height() == g0.spec_height(),
            forall|c: Coordinate| #[trigger]
                old(self).in_bounds(c) ==> old(self).cell(c).tile == cell_after(
                    g0.cell(c).tile,
                    done,
                    *store,
                    c,
                ),
            old(report).orphans@ == orphan_list(done, *store),
            old(report).out_of_bounds@ == rejected_list(
                done,
                *store,
                g0.spec_width(),
                g0.spec_height(),
            ),
        ensures
            final(self).wf(),
            final(self).spec_width() == g0.spec_width(),
            final(self).spec_height() == g0.spec_height(),
            forall|c: Coordinate| #[trigger]
                final(self).in_bounds(c) ==> final(self).cell(c).tile == cell_after(
                    g0.cell(c).tile,
                    done.push(id),
                    *store,
                    c,
                ),
            final(report).orphans@ == orphan_list(done.push(id), *store),
            final(report).out_of_bounds@ == rejected_list(
                done.push(id),
                *store,
                g0.spec_width(),
                g0.spec_height(),
            ),
    {
        proof {
            lemma_orphan_rejected_push(done, *store, g0.spec_width(), g0.spec_height(), id);
        }
        match store.resolve(id) {
            Some((entity, c)) => {
                let outcome = self.set(c, Cell { tile: Some(entity) });
                proof {
                    assert forall|c2: Coordinate| #[trigger] self.in_bounds(c2) implies self.cell(
                        c2,
                    ).tile == cell_after(g0.cell(c2).tile, done.push(id), *store, c2) by {
                        assert(old(self).in_bounds(c2));
                        assert(old(self).cell(c2).tile == cell_after(
                            g0.cell(c2).tile,
                            done,
                            *store,
                            c2,
                        ));
                        lemma_cell_after_push(g0.cell(c2).tile, done, *store, c2, id);
                    }
                }
                if outcome.is_err() {
                    report.out_of_bounds.push(id);
                }
            },
            None => {
                proof {
                    assert forall|c2: Coordinate| #[trigger] self.in_bounds(c2) implies self.cell(
                        c2,
                    ).tile == cell_after(g0.cell(c2).tile, done.push(id), *store, c2) by {
                        assert(old(self).cell(c2).tile == cell_after(
                            g0.cell(c2).tile,
                            done,
                            *store,
                            c2,
                        ));
                        lemma_cell_after_push(g0.cell(c2).tile, done, *store, c2, id);
                    }
                }
                report.orphans.push(id);
            },
        }
    }
}

impl Grid<Cell> {
    /// The occupied cells, row-major: exactly the in-bounds coordinates
    /// whose cell holds an entity, with that entity, in ascending row-major
    /// order. Finite and restartable; the renderer walks it each tick.
    pub fn iter_occupied_cells(&self) -> (r: Vec<(Coordinate, EntityRef)>)
        requires
            self.wf(),
        ensures
            forall|k: int|
                0 <= k < r@.len() ==> {
                    &&& self.in_bounds((#[trigger] r@[k]).0)
                    &&& self.cell(r@[k].0).tile == Some(r@[k].1)
                },
            forall|c: Coordinate|
                (#[trigger] self.in_bounds(c)) && self.cell(c).tile is Some ==> exists|k: int|
                    0 <= k < r@.len() && r@[k].0 == c,
            forall|k1: int, k2: int|
                0 <= k1 < k2 < r@.len() ==> self.spec_index(#[trigger] r@[k1].0) < self.spec_index(
                    #[trigger] r@[k2].0,
                ),
    {
        let mut out: Vec<(Coordinate, EntityRef)> = Vec::new();
        let h: i32 = self.height;
        let w: i32 = self.width;
        let mut y: i32 = 0;
        while y < h
            invariant
                0 <= y <= h,
                w as int == self.spec_width(),
                h as int == self.spec_height(),
                self.wf(),
                forall|k: int|
                    0 <= k < out@.len() ==> {
                        &&& self.in_bounds((#[trigger] out@[k]).0)
                        &&& self.cell(out@[k].0).tile == Some(out@[k].1)
                        &&& self.spec_index(out@[k].0) < y * w
                    },
                forall|c: Coordinate|
                    (#[trigger] self.in_bounds(c)) && self.cell(c).tile is Some && c.y < y
                        ==> exists|k: int| 0 <= k < out@.len() && out@[k].0 == c,
                forall|k1: int, k2: int|
                    0 <= k1 < k2 < out@.len() ==> self.spec_index(#[trigger] out@[k1].0)
                        < self.spec_index(#[trigger] out@[k2].0),
            decreases h - y,
        {
            let mut x: i32 = 0;
            while x < w
                invariant
                    0 <= y < h,
                    0 <= x <= w,
                    w as int == self.spec_width(),
                    h as int == self.spec_height(),
                    self.wf(),
                    forall|k: int|
                        0 <= k < out@.len() ==> {
                            &&& self.in_bounds((#[trigger] out@[k]).0)
                            &&& self.cell(out@[k].0).tile == Some(out@[k].1)
                            &&& self.spec_index(out@[k].0) < y * w + x
                        },
                    forall|c: Coordinate|
                        (#[trigger] self.in_bounds(c)) && self.cell(c).tile is Some && (c.y < y
                            || (c.y == y && c.x < x)) ==> exists|k: int|
                            0 <= k < out@.len() && out@[k].0 == c,
                    forall|k1: int, k2: int|
                        0 <= k1 < k2 < out@.len() ==> self.spec_index(#[trigger] out@[k1].0)
                            < self.spec_index(#[trigger] out@[k2].0),
                decreases w - x,
            {
                let c = Coordinate { x, y };
                let ghost ob = out@;
                match self.get(c) {
                    Ok(cell) => {
                        match cell.tile {
                            Some(e) => {
                                out.push((c, e));
                            },
                            None => {},
                        }
                    },
                    Err(_) => {},
                }
                proof {
                    assert forall|c2: Coordinate|
                        (#[trigger] self.in_bounds(c2)) && self.cell(c2).tile is Some && (c2.y < y
                            || (c2.y == y && c2.x < x + 1)) implies exists|k: int|
                        0 <= k < out@.len() && out@[k].0 == c2 by {
                        if c2.y == y && c2.x == x {
                            assert(c2 == c);
                            assert(out@[out@.len() - 1].0 == c2);
                        } else {
                            let k = choose|k: int| 0 <= k < ob.len() && ob[k].0 == c2;
                            assert(out@[k].0 == c2);
                        }
                    }
                }
                x = x + 1;
            }
            proof {
                assert(y * w + w == (y + 1) * w) by (nonlinear_arith);
                assert forall|c: Coordinate|
                    (#[trigger] self.in_bounds(c)) && self.cell(c).tile is Some && c.y < y + 1
                        implies exists|k: int| 0 <= k < out@.len() && out@[k].0 == c by {
                    if c.y == y {
                        assert(c.x < w);
                    }
                }
            }
            y = y + 1;
        }
        proof {
            assert forall|c: Coordinate|
                (#[trigger] self.in_bounds(c)) && self.cell(c).tile is Some implies exists|k: int|
                0 <= k < out@.len() && out@[k].0 == c by {
                assert(c.y < y);
            }
        }
        out
    }
}

/// Per-tick diagnostics of one synchronization pass: ids skipped because
/// their entity had no coordinate by sync time, and ids whose coordinate lay
/// outside the grid, each in processing order.
pub struct SyncReport {
    pub orphans: Vec<u32>,
    pub out_of_bounds: Vec<u32>,
}

/// The per-tick step keeping the spatial index in sync with the store: it
/// drains the change log through its own cursor and applies the resulting
/// change sets to the grid.
pub struct MappingSystem {
    tracker: ChangeTracker,
}

impl MappingSystem {
    /// Position of this system's reader in the store's change log.
    pub closed spec fn spec_cursor(&self) -> int {
        self.tracker.spec_cursor()
    }

    /// A mapping system that has seen no events yet.
    pub fn new() -> (r: MappingSystem)
        ensures
            r.spec_cursor() == 0,
    {
        MappingSystem { tracker: ChangeTracker::new() }
    }

    /// One tick: drain pending change events into fresh change sets, then
    /// synchronize the grid from them. Returns the change sets and the sync
    /// diagnostics.
    pub fn run(&mut self, store: &EntityStore, map: &mut Grid<Cell>) -> (r: (ChangeSet, SyncReport))
        requires
            old(self).spec_cursor() <= store.events().len(),
            old(map).wf(),
        ensures
            final(self).spec_cursor() == store.events().len(),
            final(map).wf(),
            final(map).spec_width() == old(map).spec_width(),
            final(map).spec_height() == old(map).spec_height(),
            r.0.wf(),
            forall|id: u32|
                #![trigger r.0.inserted_ids().contains(id)]
                #![trigger r.0.modified_ids().contains(id)]
                #![trigger r.0.removed_ids().contains(id)]
                {
                    let drained = store.events().subrange(
                        old(self).spec_cursor(),
                        store.events().len() as int,
                    );
                    &&& r.0.inserted_ids().contains(id) <==> crate::tracker::last_kind(drained, id)
                        == Some(crate::entity::ChangeKind::Inserted)
                    &&& r.0.modified_ids().contains(id) <==> crate::tracker::last_kind(drained, id)
                        == Some(crate::entity::ChangeKind::Modified)
                    &&& r.0.removed_ids().contains(id) <==> crate::tracker::last_kind(drained, id)
                        == Some(crate::entity::ChangeKind::Removed)
                },
            forall|c: Coordinate| #[trigger]
                final(map).in_bounds(c) ==> final(map).cell(c).tile == cell_after(
                    old(map).cell(c).tile,
                    r.0.inserted_ids() + r.0.modified_ids(),
                    *store,
                    c,
                ),
            r.1.orphans@ == orphan_list(r.0.inserted_ids() + r.0.modified_ids(), *store),
            r.1.out_of_bounds@ == rejected_list(
                r.0.inserted_ids() + r.0.modified_ids(),
                *store,
                old(map).spec_width(),
                old(map).spec_height(),
            ),
    {
        let cs = self.tracker.drain(store);
        let report = map.sync(&cs, store);
        (cs, report)
    }
}

impl<C: Default> Default for Grid<C> {
    /// A 32 by 32 grid of default cells, the configured startup dimensions.
    fn default() -> (r: Self)
        ensures
            r.wf(),
            r.spec_width() == 32,
            r.spec_height() == 32,
            forall|c: Coordinate| #[trigger]
                r.in_bounds(c) ==> call_ensures(C::default, (), r.cell(c)),
    {
        Self::with_dimentions(32, 32)
    }
}

} // verus!
