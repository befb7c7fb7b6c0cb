//! Radial menus: what the open menu does with the pointer and the keys.
use vstd::prelude::*;

verus! {

/// How long the button must be held, in milliseconds, for a release to
/// choose.
pub const HOLD: u64 = 220;

/// What a release does.
#[derive(Debug, Clone, Copy, PartialEq, Eq, Structural)]
pub enum Release {
    /// Held and pulled toward an item: the highlighted item runs.
    Choose(usize),
    /// Held without a direction: the menu closes.
    Close,
    /// A short press: the menu waits for a click.
    Stay,
}

/// What a release does after the button was held `held` milliseconds,
/// with the item `highlighted` under the pointer's direction.
pub open spec fn release_of(held: u64, highlighted: Option<usize>) -> Release {
    if held < HOLD {
        Release::Stay
    } else {
        match highlighted {
            Some(index) => Release::Choose(index),
            None => Release::Close,
        }
    }
}

/// A release after the button was held `held` milliseconds, with the item
/// `highlighted` under the pointer's direction: a short press keeps the menu
/// open, a hold chooses the highlighted item or, without one, closes.
pub fn released(held: u64, highlighted: Option<usize>) -> (r: Release)
    ensures
        r == release_of(held, highlighted),
{
    if held < HOLD {
        Release::Stay
    } else {
        match highlighted {
            Some(index) => Release::Choose(index),
            None => Release::Close,
        }
    }
}

/// What happened while the menu was open. `target` is the item the pointer
/// shows, if it can be chosen; `held` is how long, in milliseconds, since
/// the menu opened.
#[derive(Debug, Clone, Copy, PartialEq, Eq, Structural)]
pub enum MenuInput {
    /// The pointer moved; `far` if it left the dead zone around the centre.
    Moved { far: bool, target: Option<usize> },
    /// The left button was pressed.
    LeftPress { target: Option<usize> },
    /// Another button was pressed.
    OtherPress,
    /// The left button was released.
    LeftRelease { target: Option<usize>, held: u64 },
    /// The wheel turned.
    Wheel,
    /// Escape was pressed.
    Escape,
    /// The key that opens the menu was pressed again, or repeats.
    HoldKeyPress { repeat: bool },
    /// The key that opened the menu was released.
    HoldKeyRelease { target: Option<usize>, held: u64 },
    /// Anything else.
    Other,
}

/// The open menu's state: open, whether the pointer left the dead zone, and
/// the highlighted item.
#[derive(Debug, Clone, Copy, PartialEq, Eq, Structural)]
pub struct MenuState {
    pub open: bool,
    pub moved: bool,
    pub highlighted: Option<usize>,
}

/// What the menu does: the item to run (its message is published, then the
/// menu closes), whether it closes (the closing message is published),
/// whether the input goes no further, whether to redraw, and whether the
/// content under the menu sees the input.
#[derive(Debug, Clone, Copy, PartialEq, Eq, Structural)]
pub struct MenuOutcome {
    pub run: Option<usize>,
    pub close: bool,
    pub capture: bool,
    pub redraw: bool,
    pub forward: bool,
}

pub open spec fn closed_menu(state: MenuState) -> MenuState {
    MenuState { open: false, highlighted: None, ..state }
}

pub open spec fn outcome(run: Option<usize>, close: bool, capture: bool, redraw: bool, forward: bool) -> MenuOutcome {
    MenuOutcome { run, close, capture, redraw, forward }
}

/// The state after a release decision and what it does: choosing runs the
/// item and closes, closing closes, staying does nothing.
pub open spec fn after_release(state: MenuState, release: Release) -> (MenuState, Option<usize>, bool) {
    match release {
        Release::Choose(index) => (closed_menu(state), Some(index), true),
        Release::Close => (closed_menu(state), None, true),
        Release::Stay => (state, None, false),
    }
}

/// What the open menu does with an input: leaving the dead zone marks the
/// pointer as moved and the highlight follows the pointer; a left press
/// chooses the item under the pointer or closes, any other press closes;
/// releasing the left button after moving chooses as `release_of` says;
/// the wheel is taken; Escape closes; pressing the menu's key again closes
/// (a repeat does not); releasing it decides as `release_of` says.
pub open spec fn menu_step(state: MenuState, input: MenuInput) -> (MenuState, MenuOutcome) {
    match input {
        MenuInput::Moved { far, target } => {
            let moved = MenuState { moved: state.moved || far, ..state };
            if target != state.highlighted {
                (MenuState { highlighted: target, ..moved }, outcome(None, false, false, true, true))
            } else {
                (moved, outcome(None, false, false, false, true))
            }
        },
        MenuInput::LeftPress { target } => (closed_menu(state), outcome(target, true, true, false, false)),
        MenuInput::OtherPress => (closed_menu(state), outcome(None, true, true, false, false)),
        MenuInput::LeftRelease { target, held } => if state.moved && release_of(held, target) is Choose {
            (closed_menu(state), outcome(target, true, false, false, true))
        } else {
            (state, outcome(None, false, false, false, true))
        },
        MenuInput::Wheel => (state, outcome(None, false, true, false, false)),
        MenuInput::Escape => (closed_menu(state), outcome(None, true, true, false, false)),
        MenuInput::HoldKeyPress { repeat } => if repeat {
            (state, outcome(None, false, true, false, false))
        } else {
            (closed_menu(state), outcome(None, true, true, false, false))
        },
        MenuInput::HoldKeyRelease { target, held } => {
            let (next, run, close) = after_release(state, release_of(held, target));
            (next, outcome(run, close, true, false, false))
        },
        MenuInput::Other => (state, outcome(None, false, false, false, true)),
    }
}

/// Applies an input to the open menu.
pub fn menu_input(state: &mut MenuState, input: MenuInput) -> (r: MenuOutcome)
    ensures
        (*final(state), r) == menu_step(*old(state), input),
{
    let closed = MenuState { open: false, highlighted: None, ..*state };
    match input {
        MenuInput::Moved { far, target } => {
            state.moved = state.moved || far;
            if target != state.highlighted {
                state.highlighted = target;
                MenuOutcome { run: None, close: false, capture: false, redraw: true, forward: true }
            } else {
                MenuOutcome { run: None, close: false, capture: false, redraw: false, forward: true }
            }
        },
        MenuInput::LeftPress { target } => {
            *state = closed;
            MenuOutcome { run: target, close: true, capture: true, redraw: false, forward: false }
        },
        MenuInput::OtherPress | MenuInput::Escape => {
            *state = closed;
            MenuOutcome { run: None, close: true, capture: true, redraw: false, forward: false }
        },
        MenuInput::LeftRelease { target, held } => {
            if state.moved {
                if let Release::Choose(index) = released(held, target) {
                    *state = closed;
                    return MenuOutcome {
                        run: Some(index),
                        close: true,
                        capture: false,
                        redraw: false,
                        forward: true,
                    };
                }
            }
            MenuOutcome { run: None, close: false, capture: false, redraw: false, forward: true }
        },
        MenuInput::Wheel => MenuOutcome {
            run: None,
            close: false,
            capture: true,
            redraw: false,
            forward: false,
        },
        MenuInput::HoldKeyPress { repeat } => {
            if !repeat {
                *state = closed;
            }
            MenuOutcome { run: None, close: !repeat, capture: true, redraw: false, forward: false }
        },
        MenuInput::HoldKeyRelease { target, held } => match released(held, target) {
            Release::Choose(index) => {
                *state = closed;
                MenuOutcome { run: Some(index), close: true, capture: true, redraw: false, forward: false }
            },
            Release::Close => {
                *state = closed;
                MenuOutcome { run: None, close: true, capture: true, redraw: false, forward: false }
            },
            Release::Stay => MenuOutcome {
                run: None,
                close: false,
                capture: true,
                redraw: false,
                forward: false,
            },
        },
        MenuInput::Other => MenuOutcome {
            run: None,
            close: false,
            capture: false,
            redraw: false,
            forward: true,
        },
    }
}

/// Releasing the menu's key after the hold time runs the item the pointer
/// shows and closes the menu, or closes it when the pointer shows none; a
/// quick release keeps the menu as it is and runs nothing. The same holds
/// for the left button released after the pointer left the dead zone,
/// except that a quick or empty release keeps the menu open there.
pub proof fn law_releases_run_what_the_pointer_shows(state: MenuState, target: Option<usize>, held: u64)
    ensures
        ({
            let (next, out) = menu_step(state, MenuInput::HoldKeyRelease { target, held });
            &&& held >= HOLD && target is Some ==> out.run == target && out.close && !next.open
                && next.highlighted is None
            &&& held >= HOLD && target is None ==> out.run is None && out.close && !next.open
            &&& held < HOLD ==> out.run is None && !out.close && next == state
            &&& out.capture && !out.forward
        }),
        ({
            let (next, out) = menu_step(state, MenuInput::LeftRelease { target, held });
            &&& state.moved && held >= HOLD && target is Some ==> out.run == target && out.close && !next.open
            &&& !(state.moved && held >= HOLD && target is Some) ==> out.run is None && !out.close && next
                == state
        }),
        ({
            let (next, out) = menu_step(state, MenuInput::LeftPress { target });
            &&& out.run == target && out.close && !next.open
        }),
{
}

} // verus!
