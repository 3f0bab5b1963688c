use vstd::prelude::*;

verus! {

/// What the window does with the mouse when the scene's focus changes.
#[derive(Debug, Clone, Copy, PartialEq, Eq, Structural)]
pub enum MouseAction {
    /// Leave the mouse as it is.
    Keep,
    /// Hide the pointer and report relative motion: the scene took focus.
    Capture,
    /// Show the pointer again, centred in the window: the scene let go.
    Release,
}

/// Whether input goes to the scene: the scene has focus or the pointer is
/// over the scene's part of the window, and the user interface is neither
/// dragging with the pointer nor taking keys.
pub open spec fn interacts(
    is_scene_focused: bool,
    mouse_x: u32,
    canvas_width: u32,
    ui_uses_pointer: bool,
    ui_wants_keyboard: bool,
) -> bool {
    (is_scene_focused || mouse_x <= canvas_width) && !(ui_uses_pointer || ui_wants_keyboard)
}

/// Whether input goes to the scene (see `interacts`).
pub fn can_interact_with_scene(
    is_scene_focused: bool,
    mouse_x: u32,
    canvas_width: u32,
    ui_uses_pointer: bool,
    ui_wants_keyboard: bool,
) -> (b: bool)
    ensures
        b == interacts(is_scene_focused, mouse_x, canvas_width, ui_uses_pointer, ui_wants_keyboard),
{
    (is_scene_focused || mouse_x <= canvas_width) && !(ui_uses_pointer || ui_wants_keyboard)
}

/// The scene's focus after a key is released, and what to do with the
/// mouse: Escape lets go of a focused scene; any other key changes nothing.
pub fn focus_after_key_up(is_scene_focused: bool, is_escape: bool) -> (res: (bool, MouseAction))
    ensures
        is_escape && is_scene_focused ==> res == (false, MouseAction::Release),
        !(is_escape && is_scene_focused) ==> res == (is_scene_focused, MouseAction::Keep),
{
    if is_escape && is_scene_focused {
        (false, MouseAction::Release)
    } else {
        (is_scene_focused, MouseAction::Keep)
    }
}

/// The scene's focus after a mouse button is released, and what to do with
/// the mouse: a left click on the scene, while input goes to it, gives it
/// focus and captures the mouse; anything else changes nothing.
pub fn focus_after_button_up(is_scene_focused: bool, can_interact: bool, is_left: bool) -> (res: (bool, MouseAction))
    ensures
        can_interact && is_left ==> res == (true, MouseAction::Capture),
        !(can_interact && is_left) ==> res == (is_scene_focused, MouseAction::Keep),
{
    if can_interact && is_left {
        (true, MouseAction::Capture)
    } else {
        (is_scene_focused, MouseAction::Keep)
    }
}

/// Whether mouse motion turns the camera: input goes to the scene, and the
/// scene has focus or the middle button is held.
pub fn turns_camera(can_interact: bool, is_scene_focused: bool, middle_held: bool) -> (b: bool)
    ensures
        b == (can_interact && (is_scene_focused || middle_held)),
{
    can_interact && (is_scene_focused || middle_held)
}

/// The direction along one axis of camera movement from the two keys that
/// drive it: 1 for the first alone, -1 for the second alone, 0 for both or
/// neither.
pub fn movement_axis(positive_held: bool, negative_held: bool) -> (d: i8)
    ensures
        d == (if positive_held { 1int } else { 0int }) - (if negative_held { 1int } else { 0int }),
{
    let mut d: i8 = 0;
    if positive_held {
        d = d + 1;
    }
    if negative_held {
        d = d - 1;
    }
    d
}

} // verus!
