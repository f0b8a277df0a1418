//! Tests for the session model and the overlay painter.

use screengrab::draw::{draw_shape, generate_circle_coordinates, generate_rectangle_coordinates, Shape};
use screengrab::session::{
    next_capture_action, normalized_screen_index, CaptureAction, EditState, Options,
    ScreenshotMode, ViewState,
};
use screengrab::shortcuts::{Action, KeyInput};

#[test]
fn fresh_options() {
    let o = Options::new();
    assert_eq!(o.extension, "jpg");
    assert_eq!(o.save_path.get_save_path(), "");
    assert_eq!(o.shortcuts.extract_value_for_gui(&Action::Save).unwrap().get_value(), (1, 's'));
}

#[test]
fn options_update_shortcuts_delegates_to_the_table() {
    let mut o = Options::new();
    let r = o.update_shortcuts(Action::SaveAs, vec![KeyInput::Control, KeyInput::Character('w')]);
    assert!(r.is_ok());
    assert_eq!(o.shortcuts.extract_value_for_gui(&Action::SaveAs).unwrap().get_value(), (1, 'w'));
}

#[test]
fn stale_timers_are_ignored() {
    assert_eq!(next_capture_action(3, 4, ScreenshotMode::Fullscreen), CaptureAction::Ignore);
    assert_eq!(next_capture_action(u64::MAX, 4, ScreenshotMode::Cropped(true)), CaptureAction::Ignore);
}

#[test]
fn live_timers_follow_the_mode() {
    assert_eq!(next_capture_action(7, 7, ScreenshotMode::Fullscreen), CaptureAction::TakeFullscreen);
    assert_eq!(next_capture_action(7, 7, ScreenshotMode::Cropped(true)), CaptureAction::TakeCroppedShot);
    assert_eq!(next_capture_action(7, 7, ScreenshotMode::Cropped(false)), CaptureAction::OpenHighlighter);
}

#[test]
fn screen_index_wraps_to_the_first_screen() {
    assert_eq!(normalized_screen_index(0, 2), 0);
    assert_eq!(normalized_screen_index(1, 2), 1);
    assert_eq!(normalized_screen_index(2, 2), 0);
}

#[test]
fn session_states_compare() {
    assert_ne!(EditState::Drawing, EditState::Idle);
    assert_eq!(EditState::ShortcutEditing(Action::Save), EditState::ShortcutEditing(Action::Save));
    assert_ne!(ViewState::MainView, ViewState::MenuView);
}

#[test]
fn overlay_rectangle_is_the_shared_outline() {
    let a = generate_rectangle_coordinates((2, 2), (5, 5), 1);
    assert_eq!(a.len(), 12);
    let b = generate_circle_coordinates((0, 0), (8, 8), 1);
    assert!(b.contains(&(8, 4)));
}

#[test]
fn overlay_draw_paints_the_selection_colour() {
    let (w, h) = (8usize, 8usize);
    let mut buf = vec![0u8; 4 * w * h];
    for i in 0..w * h {
        buf[4 * i + 3] = 0xff;
    }
    let painted = draw_shape(buf, w, h, (2, 2), (5, 5), 1, 0xff0000ff, Shape::Rectangle);
    let corner = 4 * (2 * w + 2);
    assert_eq!(&painted[corner..corner + 4], &[0xff, 0, 0, 0xff]);
    let interior = 4 * (3 * w + 3);
    assert_eq!(&painted[interior..interior + 4], &[0, 0, 0, 0xff]);
}
