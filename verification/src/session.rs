//! Session model: what the editor is doing, which view is shown, how the
//! next screenshot is taken, and the user options. The window and event
//! plumbing around these states stays in the application; this module holds
//! the states themselves and the decisions the event delegate takes.

use vstd::prelude::*;
use vstd::string::StringExecFns;

use crate::shortcuts::{
    combination_supported, default_shortcuts, validated, Action, KeyInput, SavePath, Shortcut,
    Shortcuts,
};

verus! {

/// What the editor is currently doing.
#[derive(Debug, Clone, Copy, PartialEq, Eq, Structural)]
pub enum EditState {
    ShortcutEditing(Action),
    PathEditing,
    MouseDetecting,
    ImageResize,
    Drawing,
    Idle,
}

/// Which page of the tool is shown.
#[derive(Debug, Clone, Copy, PartialEq, Eq, Structural)]
pub enum ViewState {
    MainView,
    MenuView,
}

/// How the next screenshot is taken: the whole screen, or a cropped region;
/// the flag says whether the crop corners have been chosen yet.
#[derive(Debug, Clone, Copy, PartialEq, Eq, Structural)]
pub enum ScreenshotMode {
    Fullscreen,
    Cropped(bool),
}

/// The user options: preferred save directory, image extension, and the
/// shortcut table.
#[derive(Debug, Clone, PartialEq, Eq)]
pub struct Options {
    pub save_path: SavePath,
    pub extension: String,
    pub shortcuts: Shortcuts,
}

impl Options {
    /// Fresh options: no save directory yet — the application loads the
    /// stored preference — the `jpg` extension, and the default shortcut
    /// table.
    pub fn new() -> (o: Options)
        ensures
            o.save_path.save_path@ == Seq::<char>::empty(),
            o.extension@ == "jpg"@,
            o.shortcuts == default_shortcuts(),
    {
        Options {
            save_path: SavePath::new(),
            extension: String::from_str("jpg"),
            shortcuts: Shortcuts::default(),
        }
    }

    /// Updates the shortcut for an action with a new key combination; the
    /// table rejects combinations that do not validate or are already used.
    pub fn update_shortcuts(&mut self, action: Action, new_key_combination: Vec<KeyInput>) -> (r:
        Result<(), String>)
        requires
            combination_supported(new_key_combination@),
        ensures
            final(self).save_path == old(self).save_path,
            final(self).extension == old(self).extension,
            ({
                match validated(new_key_combination@) {
                    Option::None => r is Err && final(self).shortcuts == old(self).shortcuts,
                    Some(v) => if old(self).shortcuts.value_used(v) {
                        r is Err && final(self).shortcuts == old(self).shortcuts
                    } else {
                        r is Ok && final(self).shortcuts.spec_get(action) == (Shortcut {
                            code: v.0,
                            character: v.1,
                        }) && (forall|a: Action|
                            a != action ==> #[trigger] final(self).shortcuts.spec_get(a) == old(
                                self,
                            ).shortcuts.spec_get(a))
                    },
                }
            }),
    {
        self.shortcuts.update_value(action, new_key_combination)
    }
}

/// What the event delegate does when a capture timer fires.
#[derive(Debug, Clone, Copy, PartialEq, Eq, Structural)]
pub enum CaptureAction {
    TakeFullscreen,
    TakeCroppedShot,
    OpenHighlighter,
    Ignore,
}

/// The response to a fired capture timer, as a function of the stored token,
/// the event's token, and the screenshot mode.
pub open spec fn spec_capture_action(
    token: u64,
    event_token: u64,
    mode: ScreenshotMode,
) -> CaptureAction {
    if token != event_token {
        CaptureAction::Ignore
    } else {
        match mode {
            ScreenshotMode::Fullscreen => CaptureAction::TakeFullscreen,
            ScreenshotMode::Cropped(true) => CaptureAction::TakeCroppedShot,
            ScreenshotMode::Cropped(false) => CaptureAction::OpenHighlighter,
        }
    }
}

/// Decides the response to a capture timer. Stale timers — whose token does
/// not match the monotonically assigned token the session stored — are
/// discarded; a live timer takes the shot in fullscreen mode, takes the
/// cropped shot once the corners are chosen, and opens the highlighter
/// window first otherwise.
pub fn next_capture_action(token: u64, event_token: u64, mode: ScreenshotMode) -> (a:
    CaptureAction)
    ensures
        a == spec_capture_action(token, event_token, mode),
{
    if token != event_token {
        CaptureAction::Ignore
    } else {
        match mode {
            ScreenshotMode::Fullscreen => CaptureAction::TakeFullscreen,
            ScreenshotMode::Cropped(ready) => if ready {
                CaptureAction::TakeCroppedShot
            } else {
                CaptureAction::OpenHighlighter
            },
        }
    }
}

/// The screen a capture uses: a stored index past the last screen falls back
/// to the first.
pub fn normalized_screen_index(screen_index: usize, number_of_screens: usize) -> (i: usize)
    requires
        number_of_screens >= 1,
    ensures
        i == if screen_index > number_of_screens - 1 {
            0usize
        } else {
            screen_index
        },
        i < number_of_screens,
{
    if screen_index > number_of_screens - 1 {
        0
    } else {
        screen_index
    }
}

} // verus!
