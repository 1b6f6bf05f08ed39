use tilegrid::clock::Clock;
use tilegrid::components::Coordinate;
use tilegrid::entity::{EntityStore, StaleRef};
use tilegrid::error::{Error, RenderError};
use tilegrid::game::GameState;
use tilegrid::input::{Event, InputState, InputSystem};
use tilegrid::render;
use tilegrid::scheduler::{Schedule, ScheduleError, Step};
use tilegrid::units::Seconds;

#[test]
fn clock_paces_to_target() {
    let mut clock = Clock::new(1_000);
    // 500 ns into a 1000 ns tick: sleep the remaining 500 ns.
    assert_eq!(clock.tick(1_500, 1_000), Some(500));
    assert_eq!(clock.ticks, 0);
    // Past the target: the tick commits.
    assert_eq!(clock.tick(2_100, 1_000), None);
    assert_eq!(clock.ticks, 1);
    assert_eq!(clock.tick(3_100, 1_000), None);
    assert_eq!(clock.ticks, 2);
}

#[test]
fn seconds_from_nanos() {
    assert_eq!(Seconds::from_nanos(2_500_000_000), Seconds(2));
    assert_eq!(Seconds::from_nanos(999_999_999), Seconds(0));
}

#[test]
fn schedule_orders_steps_render_last() {
    let steps = vec![
        Step { deps: vec![1], render: false },
        Step { deps: vec![], render: false },
        Step { deps: vec![0, 1], render: true },
    ];
    let schedule = Schedule::new(steps).unwrap();
    assert_eq!(schedule.len(), 3);
    assert_eq!(schedule.order(), &vec![1, 0, 2]);
    assert!(schedule.is_render(2));
    assert!(!schedule.is_render(0));
}

#[test]
fn schedule_rejects_bad_input() {
    let oob = vec![Step { deps: vec![7], render: true }];
    assert_eq!(Schedule::new(oob).unwrap_err(), ScheduleError::DepOutOfRange);

    let none = vec![Step { deps: vec![], render: false }];
    assert_eq!(Schedule::new(none).unwrap_err(), ScheduleError::RenderCount);

    let two = vec![
        Step { deps: vec![], render: true },
        Step { deps: vec![], render: true },
    ];
    assert_eq!(Schedule::new(two).unwrap_err(), ScheduleError::RenderCount);

    let on_render = vec![
        Step { deps: vec![1], render: false },
        Step { deps: vec![], render: true },
    ];
    assert_eq!(
        Schedule::new(on_render).unwrap_err(),
        ScheduleError::DependsOnRender
    );
}

#[test]
fn schedule_detects_cycles() {
    let steps = vec![
        Step { deps: vec![1], render: false },
        Step { deps: vec![0], render: false },
        Step { deps: vec![], render: true },
    ];
    match Schedule::new(steps).unwrap_err() {
        ScheduleError::Cycle(mut stuck) => {
            stuck.sort();
            assert_eq!(stuck, vec![0, 1]);
        },
        other => panic!("expected a cycle, got {:?}", other),
    }
}

#[test]
fn input_events_fold_in_order() {
    let mut state = InputState::new();
    let events = vec![
        Event::Up(true),
        Event::Cursor(10, 20),
        Event::Left(true),
        Event::Up(false),
        Event::Unknown,
        Event::Cursor(30, 40),
    ];
    InputSystem.run(&mut state, &events);
    assert!(!state.up);
    assert!(state.left);
    assert!(!state.down && !state.right);
    assert_eq!((state.cursor_x, state.cursor_y), (30, 40));
}

#[test]
fn drain_collapses_to_most_recent_event() {
    let mut game = GameState::new((800, 600));
    // Insert then remove within one tick nets to Removed.
    let e = game.create_block(3, 3);
    game.store.remove_coordinate(e).unwrap();
    let (cs, _, _) = game.tick();
    assert!(cs.removed().contains(&e.index));
    assert!(!cs.inserted().contains(&e.index));
    assert!(!cs.modified().contains(&e.index));
    // And nothing was placed.
    assert_eq!(game.map.get(Coordinate::new(3, 3)).unwrap().tile, None);
}

#[test]
fn drain_set_vectors_are_ascending() {
    let mut game = GameState::new((800, 600));
    let a = game.create_block(1, 0);
    let b = game.create_block(2, 0);
    let c = game.create_block(3, 0);
    let (cs, _, _) = game.tick();
    assert_eq!(cs.inserted(), &vec![a.index, b.index, c.index]);
    assert!(cs.modified().is_empty());
    assert!(cs.removed().is_empty());
}

#[test]
fn stale_handles_are_rejected() {
    let mut store = EntityStore::new();
    let e = store.create();
    store.set_coordinate(e, Coordinate::new(1, 1)).unwrap();
    store.destroy(e).unwrap();
    // The slot is recycled with a fresh generation; the old handle is dead.
    let f = store.create();
    assert_eq!(f.index, e.index);
    assert!(f.generation > e.generation);
    assert_eq!(store.get_coordinate(e), None);
    assert_eq!(store.set_coordinate(e, Coordinate::new(2, 2)), Err(StaleRef));
    assert_eq!(store.destroy(e), Err(StaleRef));
    // The new handle works.
    store.set_coordinate(f, Coordinate::new(2, 2)).unwrap();
    assert_eq!(store.get_coordinate(f), Some(Coordinate::new(2, 2)));
}

#[test]
fn tick_counts_frames() {
    let mut game = GameState::new((640, 480));
    assert_eq!(game.frame.0, 0);
    let _ = game.tick();
    let _ = game.tick();
    assert_eq!(game.frame.0, 2);
}

#[test]
fn error_wrapping() {
    assert_eq!(Error::from(RenderError), Error::RenderError(RenderError));
    let gl = render::RenderError::from(String::from("shader failed"));
    assert_eq!(gl, render::RenderError::Message(String::from("shader failed")));
    assert_ne!(gl, render::RenderError::BufferFull);
}
