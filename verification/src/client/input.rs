//! The client's controls: what each key and mouse button does. Pressing escape
//! twice within half a second closes the game, `M` grabs or frees the mouse, `C`
//! changes the camera's movement mode, `F5` reloads the settings, the digit keys
//! pick the block to place, and with the mouse grabbed the left button destroys
//! the targeted block and the right one places a block before it.

use vstd::prelude::*;
use crate::blocks::{BlockCoord, BlockState};
use super::blocks::{ChunkContents, ChunkStorage, first_hit, put_at, stored_at};

verus! {

/// How close together, in nanoseconds, two presses of escape must come to close
/// the game.
pub const DOUBLE_ESCAPE_NANOS: u128 = 500_000_000;

/// The mouse button that destroys blocks.
pub const BUTTON_DESTROY: u8 = 1;

/// The mouse button that places blocks.
pub const BUTTON_PLACE: u8 = 2;

/// What the controls remember between events.
#[derive(PartialEq, Eq, Structural, Copy, Clone, Debug)]
pub struct InputState {
    /// When escape was last pressed without closing the game.
    pub last_esc: u128,
    /// Whether the mouse is grabbed (the cursor hidden and captured).
    pub grabbed: bool,
    /// Whether the camera moves in crane mode.
    pub crane: bool,
}

/// An event of the keyboard or the mouse that the controls answer.
#[derive(PartialEq, Eq, Structural, Copy, Clone, Debug)]
pub enum InputEvent {
    /// Escape was pressed.
    EscapePressed,
    /// `M` was released.
    GrabReleased,
    /// `C` was released.
    CraneReleased,
    /// `F5` was released.
    ReloadReleased,
    /// A digit key was pressed.
    DigitPressed(u8),
    /// A mouse button was pressed.
    MousePressed(u8),
}

/// What the client is to do in answer to an event.
#[derive(PartialEq, Eq, Structural, Copy, Clone, Debug)]
pub enum InputAction {
    /// Nothing.
    Nothing,
    /// Close the game.
    Close,
    /// Grab the mouse (`true`) or free it (`false`).
    Grab(bool),
    /// Turn crane mode on (`true`) or off (`false`).
    Crane(bool),
    /// Reload the settings.
    ReloadSettings,
    /// Pick the block of the given digit to place.
    SelectBlock(u8),
    /// Act on the targeted block with the given mouse button.
    Click(u8),
}

/// Whether escape pressed at `now` follows the press at `last` closely enough to
/// close the game.
pub open spec fn double_escape(last: u128, now: u128) -> bool {
    last <= now && now - last < DOUBLE_ESCAPE_NANOS
}

impl InputState {
    /// The controls at the start, at the moment `now`: the mouse free, crane mode
    /// off, and `now` taken as the last press of escape.
    pub fn new(now: u128) -> (r: InputState)
        ensures
            r == (InputState { last_esc: now, grabbed: false, crane: false }),
    {
        InputState { last_esc: now, grabbed: false, crane: false }
    }
}

/// Answers one event at the moment `now`. Escape closes the game when it comes
/// within half a second of the escape before; otherwise it is remembered. `M`
/// grabs or frees the mouse and `C` turns crane mode on or off, each the other way
/// from before. `F5` reloads the settings. The digits 1 to 3 pick a block. A mouse
/// button acts on the targeted block only while the mouse is grabbed.
pub fn input_step(state: &mut InputState, event: InputEvent, now: u128) -> (r: InputAction)
    ensures
        match event {
            InputEvent::EscapePressed => if double_escape(old(state).last_esc, now) {
                r == InputAction::Close && *final(state) == *old(state)
            } else {
                r == InputAction::Nothing && *final(state) == (InputState { last_esc: now, ..*old(state) })
            },
            InputEvent::GrabReleased => r == InputAction::Grab(!old(state).grabbed)
                && *final(state) == (InputState { grabbed: !old(state).grabbed, ..*old(state) }),
            InputEvent::CraneReleased => r == InputAction::Crane(!old(state).crane)
                && *final(state) == (InputState { crane: !old(state).crane, ..*old(state) }),
            InputEvent::ReloadReleased => r == InputAction::ReloadSettings && *final(state) == *old(state),
            InputEvent::DigitPressed(d) => *final(state) == *old(state) && r == if 1 <= d <= 3 {
                InputAction::SelectBlock(d)
            } else {
                InputAction::Nothing
            },
            InputEvent::MousePressed(b) => *final(state) == *old(state) && r == if old(state).grabbed {
                InputAction::Click(b)
            } else {
                InputAction::Nothing
            },
        },
{
    match event {
        InputEvent::EscapePressed => {
            if state.last_esc <= now && now - state.last_esc < DOUBLE_ESCAPE_NANOS {
                InputAction::Close
            } else {
                state.last_esc = now;
                InputAction::Nothing
            }
        },
        InputEvent::GrabReleased => {
            state.grabbed = !state.grabbed;
            InputAction::Grab(state.grabbed)
        },
        InputEvent::CraneReleased => {
            state.crane = !state.crane;
            InputAction::Crane(state.crane)
        },
        InputEvent::ReloadReleased => InputAction::ReloadSettings,
        InputEvent::DigitPressed(d) => {
            if 1 <= d && d <= 3 {
                InputAction::SelectBlock(d)
            } else {
                InputAction::Nothing
            }
        },
        InputEvent::MousePressed(b) => {
            if state.grabbed {
                InputAction::Click(b)
            } else {
                InputAction::Nothing
            }
        },
    }
}

/// The name of the block that digit `d` picks: "bedrock", "bedrock2" or
/// "bedrock3" for 1, 2 and 3.
pub fn digit_block_name(d: u8) -> (r: Option<&'static str>)
    ensures
        d == 1 ==> (r matches Some(s) && s@ == "bedrock"@),
        d == 2 ==> (r matches Some(s) && s@ == "bedrock2"@),
        d == 3 ==> (r matches Some(s) && s@ == "bedrock3"@),
        !(1 <= d <= 3) ==> r is None,
{
    if d == 1 {
        Some("bedrock")
    } else if d == 2 {
        Some("bedrock2")
    } else if d == 3 {
        Some("bedrock3")
    } else {
        None
    }
}

/// What a click with `button` does to the chunks `c` along the ray `steps`: at
/// the first block that is not `air`, the destroying button puts `air` in its
/// place and the placing button puts `used` at the position before it; otherwise
/// nothing changes.
pub open spec fn clicked(
    c: ChunkContents,
    steps: Seq<(BlockCoord, BlockCoord)>,
    button: u8,
    air: BlockState,
    used: BlockState,
) -> Option<(BlockCoord, BlockState)> {
    match first_hit(c, steps, air, 0) {
        Some((last, curr, _)) => if button == BUTTON_DESTROY {
            Some((curr, air))
        } else if button == BUTTON_PLACE {
            Some((last, used))
        } else {
            None
        },
        None => None,
    }
}

/// Acts on the block a ray targets with a mouse button, as `clicked` says, and
/// returns whether a chunk changed.
pub fn click_block(
    chunks: &mut ChunkStorage,
    steps: &[(BlockCoord, BlockCoord)],
    button: u8,
    air: BlockState,
    used: BlockState,
) -> (r: bool)
    requires
        old(chunks).wf(),
    ensures
        final(chunks).wf(),
        final(chunks).spec_blockdef() == old(chunks).spec_blockdef(),
        match clicked(old(chunks).contents(), steps@, button, air, used) {
            Some((pos, state)) => final(chunks).contents() == put_at(old(chunks).contents(), pos, state)
                && r == (stored_at(old(chunks).contents(), pos) matches Some(s) && s.id != state.id),
            None => *final(chunks) == *old(chunks) && !r,
        },
{
    match chunks.raycast_against(steps, air) {
        Some((last_pos, curr_pos, _block)) => {
            if button == BUTTON_DESTROY {
                chunks.set_block(&curr_pos, air)
            } else if button == BUTTON_PLACE {
                chunks.set_block(&last_pos, used)
            } else {
                false
            }
        },
        None => false,
    }
}

} // verus!
