use tilegrid::components::Coordinate;
use tilegrid::game::GameState;
use tilegrid::grid::Grid;
use tilegrid::picker::PickResult;

#[test]
fn map_test() {
    let mut map: Grid<bool> = Grid::with_dimentions(10, 10);
    let index = Coordinate::new(2, 3);
    let _ = map.set(index, true);
    assert!(map.get(index).unwrap());
    assert!(!map.get(Coordinate::new(2, 4)).unwrap());
}

#[test]
fn grid_rejects_out_of_bounds() {
    let map: Grid<bool> = Grid::with_dimentions(4, 4);
    assert!(map.get(Coordinate::new(4, 0)).is_err());
    assert!(map.get(Coordinate::new(0, 4)).is_err());
    assert!(map.get(Coordinate::new(-1, 0)).is_err());
    // A coordinate whose row-major index would land inside the backing array
    // is still rejected: never silently wrapped.
    assert!(map.get(Coordinate::new(5, 0)).is_err());
}

#[test]
fn scenario_insert_and_sync() {
    let mut game = GameState::new((800, 600));
    let e = game.create_block(2, 3);
    let (_, report, _) = game.tick();
    assert_eq!(game.map.get(Coordinate::new(2, 3)).unwrap().tile, Some(e));
    assert_eq!(game.map.get(Coordinate::new(2, 4)).unwrap().tile, None);
    assert!(report.orphans.is_empty());
    assert!(report.out_of_bounds.is_empty());
}

#[test]
fn scenario_same_cell_last_id_wins() {
    let mut game = GameState::new((800, 600));
    let e1 = game.create_block(5, 5);
    let e2 = game.create_block(5, 5);
    assert!(e1.index < e2.index);
    let _ = game.tick();
    // Ascending-id processing order: the later slot id wins the cell.
    assert_eq!(game.map.get(Coordinate::new(5, 5)).unwrap().tile, Some(e2));

    // And that is reproducible across runs.
    let mut again = GameState::new((800, 600));
    let _f1 = again.create_block(5, 5);
    let f2 = again.create_block(5, 5);
    let _ = again.tick();
    assert_eq!(again.map.get(Coordinate::new(5, 5)).unwrap().tile, Some(f2));
    assert_eq!(f2.index, e2.index);
}

#[test]
fn scenario_removed_entity_keeps_stale_cell() {
    let mut game = GameState::new((800, 600));
    let e = game.create_block(7, 7);
    let _ = game.tick();
    assert_eq!(game.map.get(Coordinate::new(7, 7)).unwrap().tile, Some(e));

    // Removing the entity's coordinate does not clear its cell: the stale
    // occupant stays until a future insert or modify overwrites it.
    game.store.remove_coordinate(e).unwrap();
    let (cs, _, _) = game.tick();
    assert!(cs.removed().contains(&e.index));
    assert_eq!(game.map.get(Coordinate::new(7, 7)).unwrap().tile, Some(e));

    // A later insert at the same cell overwrites the stale occupant.
    let f = game.create_block(7, 7);
    let _ = game.tick();
    assert_eq!(game.map.get(Coordinate::new(7, 7)).unwrap().tile, Some(f));
}

#[test]
fn sync_with_empty_changeset_is_identity() {
    let mut game = GameState::new((800, 600));
    let _a = game.create_block(1, 1);
    let _b = game.create_block(30, 31);
    let _ = game.tick();
    let before = game.map.iter_occupied_cells();

    // No changes logged since the last tick: the grid stays untouched.
    let (cs, report, _) = game.tick();
    assert!(cs.is_empty());
    assert!(report.orphans.is_empty());
    assert!(report.out_of_bounds.is_empty());
    let after = game.map.iter_occupied_cells();
    assert_eq!(before, after);
}

#[test]
fn sync_reports_out_of_grid_coordinates() {
    let mut game = GameState::new((800, 600));
    let e = game.create_block(100, 100);
    let (_, report, _) = game.tick();
    // The coordinate lies outside the 32 by 32 grid: rejected and reported,
    // never wrapped into some other cell.
    assert_eq!(report.out_of_bounds, vec![e.index]);
    for (_, occupant) in game.map.iter_occupied_cells() {
        assert_ne!(occupant, e);
    }
}

#[test]
fn occupied_cells_row_major() {
    let mut game = GameState::new((800, 600));
    let e2 = game.create_block(5, 5);
    let e1 = game.create_block(2, 3);
    let _ = game.tick();
    let cells = game.map.iter_occupied_cells();
    assert_eq!(
        cells,
        vec![(Coordinate::new(2, 3), e1), (Coordinate::new(5, 5), e2)]
    );
}

#[test]
fn modify_moves_entity_without_clearing_old_cell() {
    let mut game = GameState::new((800, 600));
    let e = game.create_block(4, 4);
    let _ = game.tick();
    game.store.set_coordinate(e, Coordinate::new(9, 9)).unwrap();
    let (cs, _, _) = game.tick();
    assert!(cs.modified().contains(&e.index));
    assert!(!cs.inserted().contains(&e.index));
    assert_eq!(game.map.get(Coordinate::new(9, 9)).unwrap().tile, Some(e));
    // The old cell is not cleared; it still holds the stale occupant.
    assert_eq!(game.map.get(Coordinate::new(4, 4)).unwrap().tile, Some(e));
}

#[test]
fn pick_resolves_occupant_after_sync() {
    let mut game = GameState::new((800, 600));
    let e = game.create_block(3, 4);
    game.scene = tilegrid::view::Scene::new((800, 600), (403, 296));
    let (_, _, picked) = game.tick();
    // With tile size one and the camera at the origin, world (0, 0) is the
    // screen center and world y counts up: pixel (403, 296) is world (3, 4).
    assert_eq!(picked, PickResult::Resolved(Some(e)));
}
