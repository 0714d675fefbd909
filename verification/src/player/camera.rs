use vstd::prelude::*;

verus! {

/// Where the camera sits relative to the player.
#[derive(Debug, Clone, Copy, PartialEq, Eq, Structural)]
pub enum CameraMode {
    ThirdPersonBack,
    ThirdPersonFront,
    FirstPerson,
}

/// The view that follows `m` when the view key is pressed: behind → front
/// → first person → behind.
pub open spec fn next_mode(m: CameraMode) -> CameraMode {
    match m {
        CameraMode::ThirdPersonBack => CameraMode::ThirdPersonFront,
        CameraMode::ThirdPersonFront => CameraMode::FirstPerson,
        CameraMode::FirstPerson => CameraMode::ThirdPersonBack,
    }
}

impl CameraMode {
    /// The view after this one in the cycle.
    pub fn next(self) -> (r: CameraMode)
        ensures
            r == next_mode(self),
    {
        match self {
            CameraMode::ThirdPersonBack => CameraMode::ThirdPersonFront,
            CameraMode::ThirdPersonFront => CameraMode::FirstPerson,
            CameraMode::FirstPerson => CameraMode::ThirdPersonBack,
        }
    }

    /// Whether the player's own body is drawn in this view: hidden in first
    /// person, visible otherwise.
    pub fn shows_body(self) -> (r: bool)
        ensures
            r == !(self is FirstPerson),
    {
        !matches!(self, CameraMode::FirstPerson)
    }
}

/// The camera mode after a frame: the next mode when the view key was just
/// pressed, the same mode otherwise.
pub fn cycle_camera_view(view_key_pressed: bool, mode: CameraMode) -> (r: CameraMode)
    ensures
        r == if view_key_pressed {
            next_mode(mode)
        } else {
            mode
        },
{
    if !view_key_pressed {
        return mode;
    }
    mode.next()
}

/// Three presses of the view key bring every view back, and no fewer do.
pub proof fn lemma_view_cycle(m: CameraMode)
    ensures
        next_mode(next_mode(next_mode(m))) == m,
        next_mode(m) != m,
        next_mode(next_mode(m)) != m,
{
}

/// Whether the pointer is captured by the window, and whether it is shown.
#[derive(Debug, Clone, Copy, PartialEq, Eq, Structural)]
pub struct CursorState {
    pub locked: bool,
    pub visible: bool,
}

/// The captured cursor: locked and hidden.
pub open spec fn captured() -> CursorState {
    CursorState { locked: true, visible: false }
}

/// The cursor on startup: locked and hidden.
pub fn grab_cursor() -> (r: CursorState)
    ensures
        r == captured(),
{
    CursorState { locked: true, visible: false }
}

/// Clicking into the window captures a free cursor; otherwise nothing
/// changes.
pub fn handle_cursor_auto_grab(clicked: bool, cursor: CursorState) -> (r: CursorState)
    ensures
        r == if clicked && !cursor.locked {
            captured()
        } else {
            cursor
        },
{
    if clicked && !cursor.locked {
        CursorState { locked: true, visible: false }
    } else {
        cursor
    }
}

/// Escape frees a captured cursor (unlocked and shown) and captures a free
/// one; without the key nothing changes.
pub fn toggle_cursor_grab(escape_pressed: bool, cursor: CursorState) -> (r: CursorState)
    ensures
        r == if !escape_pressed {
            cursor
        } else if cursor.locked {
            CursorState { locked: false, visible: true }
        } else {
            captured()
        },
{
    if !escape_pressed {
        return cursor;
    }
    if cursor.locked {
        CursorState { locked: false, visible: true }
    } else {
        CursorState { locked: true, visible: false }
    }
}

/// Pressing Escape twice gives back a captured cursor, and a free one: the
/// toggle is its own inverse on the two states it produces.
pub proof fn lemma_escape_twice(locked: bool)
    ensures
        ({
            let s = if locked {
                captured()
            } else {
                CursorState { locked: false, visible: true }
            };
            let once = if s.locked {
                CursorState { locked: false, visible: true }
            } else {
                captured()
            };
            let twice = if once.locked {
                CursorState { locked: false, visible: true }
            } else {
                captured()
            };
            twice == s
        }),
{
}

} // verus!
