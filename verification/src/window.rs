use vstd::prelude::*;

verus! {

/// Where the main window stands on the screen and how large it is.
#[derive(Clone, Copy, Debug, PartialEq, Eq, Structural)]
pub struct WindowState {
    pub x: i32,
    pub y: i32,
    pub width: u32,
    pub height: u32,
}

/// Where a highlight popup window stands and how large it is.
#[derive(Clone, Copy, Debug, PartialEq, Eq, Structural)]
pub struct PopupState {
    pub x: i32,
    pub y: i32,
    pub width: u32,
    pub height: u32,
}

/// The main window's place and size are worth keeping: it is not pushed
/// more than 10000 pixels off the screen to the left or the top, and it is
/// at least 200 wide and 300 high.
pub open spec fn worth_saving(x: i32, y: i32, width: u32, height: u32) -> bool {
    x >= -10000 && y >= -10000 && width >= 200 && height >= 300
}

/// A kept state of the main window is put back at start-up: it lies
/// strictly right of and below -10000, and is at least 200 wide and 300 high.
pub open spec fn worth_restoring(s: WindowState) -> bool {
    s.x > -10000 && s.y > -10000 && s.width >= 200 && s.height >= 300
}

/// The state of the main window to keep when it has moved to `x`, `y` with
/// the size `width` by `height`, or `None` where that state is not kept
/// (far off the screen, or smaller than 200 by 300).
pub fn window_state_to_save(x: i32, y: i32, width: u32, height: u32) -> (r: Option<WindowState>)
    ensures
        r == (if worth_saving(x, y, width, height) {
            Some(WindowState { x, y, width, height })
        } else {
            None
        }),
{
    if x < -10000 || y < -10000 || width < 200 || height < 300 {
        None
    } else {
        Some(WindowState { x, y, width, height })
    }
}

/// Whether the kept state `state` is applied to the main window at start-up.
pub fn should_restore_window_state(state: &WindowState) -> (r: bool)
    ensures
        r == worth_restoring(*state),
{
    state.x > -10000 && state.y > -10000 && state.width >= 200 && state.height >= 300
}

/// The kept place and size of popup windows, read from the four fields of
/// what was stored: all four must be there; each is cut to the width of its
/// type (`as i32`, `as u32`).
pub open spec fn popup_state_from(
    x: Option<i64>,
    y: Option<i64>,
    width: Option<u64>,
    height: Option<u64>,
) -> Option<PopupState> {
    match (x, y, width, height) {
        (Some(x), Some(y), Some(w), Some(h)) => Some(
            PopupState { x: x as i32, y: y as i32, width: w as u32, height: h as u32 },
        ),
        _ => None,
    }
}

/// Reads the kept place and size of popup windows from the stored fields
/// `x`, `y`, `width` and `height` (each `None` where it is missing or not a
/// number of the right kind).
pub fn saved_popup_state(
    x: Option<i64>,
    y: Option<i64>,
    width: Option<u64>,
    height: Option<u64>,
) -> (r: Option<PopupState>)
    ensures
        r == popup_state_from(x, y, width, height),
{
    match (x, y, width, height) {
        (Some(x), Some(y), Some(w), Some(h)) => Some(
            PopupState { x: x as i32, y: y as i32, width: w as u32, height: h as u32 },
        ),
        _ => None,
    }
}

/// Reads a kept popup position from the stored fields `x` and `y`: both must
/// be there; each is cut to an `i32`.
pub fn saved_popup_position(x: Option<i64>, y: Option<i64>) -> (r: Option<(i32, i32)>)
    ensures
        r == (match (x, y) {
            (Some(x), Some(y)) => Some((x as i32, y as i32)),
            _ => None,
        }),
{
    match (x, y) {
        (Some(x), Some(y)) => Some((x as i32, y as i32)),
        _ => None,
    }
}

/// Every kept state that start-up puts back is one that saving keeps.
pub proof fn law_restored_states_were_saveable(s: WindowState)
    requires
        worth_restoring(s),
    ensures
        worth_saving(s.x, s.y, s.width, s.height),
{
}

/// A popup place and size that is stored (as its four numbers) is read back
/// as it was.
pub proof fn law_popup_state_round_trip(s: PopupState)
    ensures
        popup_state_from(
            Some(s.x as i64),
            Some(s.y as i64),
            Some(s.width as u64),
            Some(s.height as u64),
        ) == Some(s),
{
}

} // verus!
