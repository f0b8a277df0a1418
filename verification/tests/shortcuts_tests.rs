//! Tests for the shortcut model.

use screengrab::shortcuts::{
    Action, KeyInput, SavePath, Shortcut, Shortcuts, SysModifier,
};

#[test]
fn action_labels_round_trip() {
    for a in [Action::NewScreenshot, Action::Save, Action::SaveAs] {
        assert_eq!(Action::from_string(a.to_string()), a);
    }
    assert_eq!(Action::NewScreenshot.to_string(), "New screenshot");
    assert_eq!(Action::Save.to_string(), "Save");
    assert_eq!(Action::SaveAs.to_string(), "Save as");
}

#[test]
fn modifier_codes_round_trip() {
    for m in [
        SysModifier::Shift,
        SysModifier::Cmd,
        SysModifier::AltCmd,
        SysModifier::CmdShift,
    ] {
        assert_eq!(SysModifier::from_code(m.to_code()), Some(m));
    }
    assert_eq!(SysModifier::from_code(4), None);
}

#[test]
fn modifier_labels_round_trip() {
    for m in [
        SysModifier::Shift,
        SysModifier::Cmd,
        SysModifier::AltCmd,
        SysModifier::CmdShift,
    ] {
        assert_eq!(SysModifier::from_string(&m.to_string()), Some(m));
    }
    assert_eq!(SysModifier::from_string(&String::from("Meta")), None);
}

#[test]
fn single_modifier_combinations_validate() {
    let ctrl_s = vec![KeyInput::Control, KeyInput::Character('s')];
    assert_eq!(Shortcut::validation_value(ctrl_s), Some((1, 's')));
    let shift_q = vec![KeyInput::Shift, KeyInput::Character('q')];
    assert_eq!(Shortcut::validation_value(shift_q), Some((0, 'q')));
}

#[test]
fn double_modifier_combinations_validate() {
    let ctrl_alt_x = vec![KeyInput::Control, KeyInput::Alt, KeyInput::Character('x')];
    assert_eq!(Shortcut::validation_value(ctrl_alt_x), Some((2, 'x')));
    let ctrl_shift_s = vec![KeyInput::Control, KeyInput::Shift, KeyInput::Character('s')];
    assert_eq!(Shortcut::validation_value(ctrl_shift_s), Some((3, 's')));
}

#[test]
fn bad_combinations_do_not_validate() {
    assert_eq!(Shortcut::validation_value(vec![]), None);
    // the first key must be a modifier the table knows
    assert_eq!(
        Shortcut::validation_value(vec![KeyInput::Character('a'), KeyInput::Character('b')]),
        None
    );
    assert_eq!(Shortcut::validation_value(vec![KeyInput::Alt, KeyInput::Character('a')]), None);
    // a lone modifier closes nothing
    assert_eq!(Shortcut::validation_value(vec![KeyInput::Control]), None);
    assert_eq!(Shortcut::validation_value(vec![KeyInput::Control, KeyInput::Shift]), None);
    // three modifiers in a row close nothing either
    assert_eq!(
        Shortcut::validation_value(vec![KeyInput::Control, KeyInput::Shift, KeyInput::Alt]),
        None
    );
}

#[test]
fn shortcut_renders_with_its_chord() {
    let s = Shortcut::new(SysModifier::Cmd, 's');
    assert_eq!(s.get_value(), (1, 's'));
    assert_eq!(s.to_string(), "Ctrl + s");
    let s = Shortcut::new(SysModifier::CmdShift, 'p');
    assert_eq!(s.to_string(), "Ctrl + Shift + p");
}

#[test]
fn default_table_and_reset() {
    let t = Shortcuts::default();
    assert_eq!(t.extract_value_for_gui(&Action::NewScreenshot).unwrap().get_value(), (1, 'n'));
    assert_eq!(t.extract_value_for_gui(&Action::Save).unwrap().get_value(), (1, 's'));
    assert_eq!(t.extract_value_for_gui(&Action::SaveAs).unwrap().get_value(), (3, 's'));

    let mut changed = t.clone();
    changed
        .update_value(Action::Save, vec![KeyInput::Control, KeyInput::Character('k')])
        .unwrap();
    assert_eq!(changed.reset(), Shortcuts::default());
}

#[test]
fn update_value_replaces_one_entry() {
    let mut t = Shortcuts::default();
    let r = t.update_value(Action::Save, vec![KeyInput::Control, KeyInput::Character('k')]);
    assert_eq!(r, Ok(()));
    assert_eq!(t.extract_value_for_gui(&Action::Save).unwrap().get_value(), (1, 'k'));
    // the other entries are untouched
    assert_eq!(t.extract_value_for_gui(&Action::NewScreenshot).unwrap().get_value(), (1, 'n'));
    assert_eq!(t.extract_value_for_gui(&Action::SaveAs).unwrap().get_value(), (3, 's'));
}

#[test]
fn update_value_rejects_invalid_combinations() {
    let mut t = Shortcuts::default();
    let r = t.update_value(Action::Save, vec![KeyInput::Alt, KeyInput::Character('k')]);
    assert_eq!(r, Err(String::from("Combination of keys is not valid!")));
    assert_eq!(t, Shortcuts::default());
}

#[test]
fn update_value_rejects_used_combinations() {
    let mut t = Shortcuts::default();
    // Ctrl + n is already the new-screenshot shortcut
    let r = t.update_value(Action::Save, vec![KeyInput::Control, KeyInput::Character('n')]);
    assert_eq!(r, Err(String::from("Combination of keys is already used!")));
    assert_eq!(t, Shortcuts::default());
}

#[test]
fn duplicate_values_are_detected() {
    let t = Shortcuts::default();
    assert!(t.values_unique());
    let mut broken = t.clone();
    broken.save = broken.new_screenshot;
    assert!(!broken.values_unique());
}

#[test]
fn save_path_updates() {
    let mut p = SavePath::new();
    assert_eq!(p.get_save_path(), "");
    p.update_save_path(String::from("/home/someone/Pictures"));
    assert_eq!(p.get_save_path(), "/home/someone/Pictures");
    assert_eq!(p.to_string(), "/home/someone/Pictures");
}
