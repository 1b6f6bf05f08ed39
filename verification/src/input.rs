//! Pointer and keyboard input state, folded from plain per-tick events.
//! Parsing raw OS events into [`Event`] values is the host's business.

use vstd::prelude::*;

verus! {

/// Represents the direction the player wants to go, and the latest pointer
/// position in pixels.
#[derive(Clone, Copy, Debug, PartialEq, Eq, Structural)]
pub struct InputState {
    pub up: bool,
    pub down: bool,
    pub left: bool,
    pub right: bool,
    pub cursor_x: u32,
    pub cursor_y: u32,
}

impl InputState {
    /// Everything released, pointer at the origin.
    pub fn new() -> (r: InputState)
        ensures
            r == (InputState {
                up: false,
                down: false,
                left: false,
                right: false,
                cursor_x: 0u32,
                cursor_y: 0u32,
            }),
    {
        InputState { up: false, down: false, left: false, right: false, cursor_x: 0, cursor_y: 0 }
    }

    /// Applies one event.
    pub fn apply(&mut self, event: Event)
        ensures
            *final(self) == spec_apply(*old(self), event),
    {
        match event {
            Event::Up(p) => self.up = p,
            Event::Down(p) => self.down = p,
            Event::Left(p) => self.left = p,
            Event::Right(p) => self.right = p,
            Event::Cursor(x, y) => {
                self.cursor_x = x;
                self.cursor_y = y;
            },
            Event::Unknown => {},
        }
    }
}

/// One plain input event, already freed of any OS event type.
#[derive(Clone, Copy, Debug, PartialEq, Eq, Structural)]
pub enum Event {
    Up(bool),
    Down(bool),
    Left(bool),
    Right(bool),
    Cursor(u32, u32),
    Unknown,
}

/// The state after one event.
pub open spec fn spec_apply(s: InputState, e: Event) -> InputState {
    match e {
        Event::Up(p) => InputState { up: p, ..s },
        Event::Down(p) => InputState { down: p, ..s },
        Event::Left(p) => InputState { left: p, ..s },
        Event::Right(p) => InputState { right: p, ..s },
        Event::Cursor(x, y) => InputState { cursor_x: x, cursor_y: y, ..s },
        Event::Unknown => s,
    }
}

/// The state after a whole sequence of events, first to last.
pub open spec fn spec_apply_all(s: InputState, events: Seq<Event>) -> InputState
    decreases events.len(),
{
    if events.len() == 0 {
        s
    } else {
        spec_apply(spec_apply_all(s, events.drop_last()), events.last())
    }
}

/// The per-tick step folding the tick's input events into the input state.
pub struct InputSystem;

impl InputSystem {
    /// Applies every event of this tick in order.
    pub fn run(&self, state: &mut InputState, events: &Vec<Event>)
        ensures
            *final(state) == spec_apply_all(*old(state), events@),
    {
        let n = events.len();
        let mut i: usize = 0;
        while i < n
            invariant
                0 <= i <= n,
                n == events@.len(),
                *state == spec_apply_all(*old(state), events@.take(i as int)),
            decreases n - i,
        {
            state.apply(events[i]);
            proof {
                assert(events@.take(i + 1).drop_last() =~= events@.take(i as int));
                assert(events@.take(i + 1).last() == events@[i as int]);
            }
            i = i + 1;
        }
        proof {
            assert(events@.take(n as int) =~= events@);
        }
    }
}

} // verus!
