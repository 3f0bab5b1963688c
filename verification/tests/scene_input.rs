use geomodel::scene_input::{
    can_interact_with_scene, focus_after_button_up, focus_after_key_up, movement_axis, turns_camera, MouseAction,
};

#[test]
fn input_reaches_the_scene() {
    assert!(can_interact_with_scene(false, 100, 800, false, false));
    assert!(can_interact_with_scene(false, 800, 800, false, false));
    assert!(!can_interact_with_scene(false, 801, 800, false, false));
    assert!(can_interact_with_scene(true, 1000, 800, false, false));
    assert!(!can_interact_with_scene(true, 10, 800, true, false));
    assert!(!can_interact_with_scene(true, 10, 800, false, true));
}

#[test]
fn focus_follows_clicks_and_escape() {
    assert_eq!(focus_after_button_up(false, true, true), (true, MouseAction::Capture));
    assert_eq!(focus_after_button_up(false, false, true), (false, MouseAction::Keep));
    assert_eq!(focus_after_button_up(false, true, false), (false, MouseAction::Keep));
    assert_eq!(focus_after_key_up(true, true), (false, MouseAction::Release));
    assert_eq!(focus_after_key_up(true, false), (true, MouseAction::Keep));
    assert_eq!(focus_after_key_up(false, true), (false, MouseAction::Keep));
}

#[test]
fn camera_turning_and_movement() {
    assert!(turns_camera(true, true, false));
    assert!(turns_camera(true, false, true));
    assert!(!turns_camera(true, false, false));
    assert!(!turns_camera(false, true, true));
    assert_eq!(movement_axis(true, false), 1);
    assert_eq!(movement_axis(false, true), -1);
    assert_eq!(movement_axis(true, true), 0);
    assert_eq!(movement_axis(false, false), 0);
}
