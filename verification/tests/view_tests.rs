use tilegrid::components::Coordinate;
use tilegrid::grid::Grid;
use tilegrid::picker::{pick, PickResult};
use tilegrid::view::{
    round_rat, to_grid, to_world, world_to_screen, ProjectionError, Rat, Scene, Singular,
    ViewState,
};

fn standard_view() -> ViewState {
    ViewState::with_viewport(800, 600)
}

#[test]
fn rounding_half_away_from_zero() {
    assert_eq!(round_rat(3, 2), 2);
    assert_eq!(round_rat(-3, 2), -2);
    assert_eq!(round_rat(1, 3), 0);
    assert_eq!(round_rat(-1, 3), 0);
    assert_eq!(round_rat(5, 1), 5);
    assert_eq!(round_rat(7, 2), 4);
    assert_eq!(round_rat(-7, 2), -4);
}

#[test]
fn round_trip_pixel_exact() {
    let v = standard_view();
    for &(x, y) in &[(0, 0), (2, 3), (31, 31), (7, 0)] {
        let c = Coordinate::new(x, y);
        let (px, py) = world_to_screen(c, &v);
        let (wx, wy) = to_world(px, py, &v).unwrap();
        let back = to_grid(wx, wy);
        assert_eq!(back, c);
    }
}

#[test]
fn round_trip_with_camera_and_tile_size() {
    let v = ViewState::new(
        1024,
        768,
        Rat::new(1, 3),
        Rat::new(-2, 5),
        Rat::new(7, 2),
    );
    let c = Coordinate::new(12, 9);
    let (px, py) = world_to_screen(c, &v);
    let (wx, wy) = to_world(px, py, &v).unwrap();
    assert_eq!(to_grid(wx, wy), c);
}

#[test]
fn pointer_corners_map_to_extreme_world_corners() {
    let v = standard_view();
    // Top-left pixel: clip (-1, +1). The projection is centered on the
    // viewport, so with identity scale that is world (-width/2, height/2).
    let (wx, wy) = to_world(Rat::of_int(0), Rat::of_int(0), &v).unwrap();
    assert_eq!(round_rat(wx.num, wx.den), -400);
    assert_eq!(round_rat(wy.num, wy.den), 300);
    // Bottom-right pixel (width, height): clip (+1, -1).
    let (wx, wy) = to_world(Rat::of_int(800), Rat::of_int(600), &v).unwrap();
    assert_eq!(round_rat(wx.num, wx.den), 400);
    assert_eq!(round_rat(wy.num, wy.den), -300);
}

#[test]
fn scenario_center_pixel_resolves_to_origin() {
    // Viewport 800 by 600, camera at the origin, tile size one: the pointer
    // at the center pixel (400, 300) resolves to grid (0, 0), within one
    // cell of rounding tolerance (here exactly).
    let scene = Scene::new((800, 600), (400, 300));
    let c = scene.coordinate_cursor().unwrap();
    assert!(-1 <= c.x && c.x <= 1 && -1 <= c.y && c.y <= 1);
    assert_eq!(c, Coordinate::new(0, 0));
}

#[test]
fn singular_view_has_no_inverse() {
    let zero_width = ViewState::new(0, 600, Rat::new(0, 1), Rat::new(0, 1), Rat::new(1, 1));
    assert_eq!(
        to_world(Rat::of_int(1), Rat::of_int(1), &zero_width),
        Err(Singular)
    );
    let zero_tile = ViewState::new(800, 600, Rat::new(0, 1), Rat::new(0, 1), Rat::new(0, 1));
    assert_eq!(
        to_world(Rat::of_int(1), Rat::of_int(1), &zero_tile),
        Err(Singular)
    );
}

#[test]
fn build_exposes_affine_coefficients() {
    let v = standard_view();
    let t = v.build();
    // clip.x = (2 / 800) * x, clip.y = (2 / 600) * y: the camera at the
    // origin leaves the translation column zero.
    assert_eq!((t.sx.num, t.sx.den), (2, 800));
    assert_eq!((t.sy.num, t.sy.den), (2, 600));
    assert_eq!((t.tx.num, t.tx.den), (0, 1));
    assert_eq!((t.ty.num, t.ty.den), (0, 1));
}

#[test]
fn scene_accessors_and_cursor() {
    let scene = Scene::new((800, 600), (500, 200));
    assert_eq!(scene.screen_dimentions(), (800, 600));
    assert_eq!(scene.screen_cursor(), (500, 200));
    // 100 pixels right of and 100 above the center: world (100, 100).
    let c = scene.coordinate_cursor().unwrap();
    assert_eq!(c, Coordinate::new(100, 100));
    let t = scene.transform();
    assert_eq!((t.sx.num, t.sx.den), (2, 800));
    assert_eq!((t.ty.num, t.ty.den), (0, 1));
}

#[test]
fn scene_with_zero_viewport_is_singular() {
    let scene = Scene::new((0, 0), (10, 10));
    assert!(scene.world_cursor().is_err());
    assert_eq!(scene.coordinate_cursor(), Err(ProjectionError::Singular));
}

#[test]
fn pick_outside_grid_resolves_to_none() {
    let v = standard_view();
    let map: Grid<tilegrid::grid::Cell> = Grid::new(32, 32);
    // Pixel (700, 100) is world (300, 200): far outside the 32 by 32 grid.
    assert_eq!(pick((700, 100), &v, &map), PickResult::Resolved(None));
    let singular = ViewState::new(800, 0, Rat::new(0, 1), Rat::new(0, 1), Rat::new(1, 1));
    assert_eq!(pick((700, 100), &singular, &map), PickResult::NoResolution);
}
