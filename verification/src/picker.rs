//! Pointer picking: the pointer position is taken through the inverse view
//! transform to a world point, rounded to a grid coordinate, and looked up
//! in the spatial index. A pure read; it must run after the tick's grid
//! synchronization so it never resolves against a stale grid.

use crate::components::Coordinate;
use crate::entity::EntityRef;
use crate::grid::{Cell, Grid};
use crate::view::{
    round_half_away,
    round_rat,
    spec_to_world_x,
    spec_to_world_y,
    to_world,
    Rat,
    ViewState,
};
use vstd::prelude::*;

verus! {

/// Outcome of resolving the pointer against the grid.
#[derive(Clone, Copy, Debug, PartialEq, Eq)]
pub enum PickResult {
    /// The view transform is singular: no world position exists at all.
    NoResolution,
    /// The pointer resolves to a world position: the occupant of the grid
    /// cell it rounds to, or `None` when that cell is empty or lies outside
    /// the grid.
    Resolved(Option<EntityRef>),
}

/// What picking returns for a pointer position, view and grid.
pub open spec fn spec_pick(cursor: (i32, i32), view: ViewState, map: Grid<Cell>) -> PickResult {
    if view.spec_singular() {
        PickResult::NoResolution
    } else {
        let wx = spec_to_world_x(view, (cursor.0 as int, 1int));
        let wy = spec_to_world_y(view, (cursor.1 as int, 1int));
        let rx = round_half_away(wx.0, wx.1);
        let ry = round_half_away(wy.0, wy.1);
        if 0 <= rx < map.spec_width() && 0 <= ry < map.spec_height() {
            PickResult::Resolved(map.cell(Coordinate { x: rx as i32, y: ry as i32 }).tile)
        } else {
            PickResult::Resolved(None)
        }
    }
}

/// Resolves the current pointer position to the occupant of the grid cell
/// under it, with [`PickResult::NoResolution`] exactly when the view
/// transform cannot be inverted.
pub fn pick(cursor: (i32, i32), view: &ViewState, map: &Grid<Cell>) -> (r: PickResult)
    requires
        view.wf(),
        map.wf(),
    ensures
        r == spec_pick(cursor, *view, *map),
{
    match to_world(Rat::of_int(cursor.0 as i128), Rat::of_int(cursor.1 as i128), view) {
        Err(_) => PickResult::NoResolution,
        Ok((wx, wy)) => {
            let rx: i128 = round_rat(wx.num, wx.den);
            let ry: i128 = round_rat(wy.num, wy.den);
            if 0 <= rx && rx < map.width() as i128 && 0 <= ry && ry < map.height() as i128 {
                let c = Coordinate { x: rx as i32, y: ry as i32 };
                match map.get(c) {
                    Ok(cell) => PickResult::Resolved(cell.tile),
                    Err(_) => PickResult::Resolved(None),
                }
            } else {
                PickResult::Resolved(None)
            }
        },
    }
}

} // verus!
