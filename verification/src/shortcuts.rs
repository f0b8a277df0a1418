//! Shortcut model: the actions a key combination can trigger, the stored
//! shortcut values, the validation of new key combinations, and the user's
//! preferred save directory. Reading and writing the configuration files
//! that persist these values is the surrounding application's job.

use vstd::prelude::*;
use vstd::string::StringExecFns;

verus! {

/// Relies on `String::push`: appends the given character to the end of the
/// string.
pub assume_specification[ String::push ](s: &mut String, ch: char)
    ensures
        final(s)@ == old(s)@.push(ch),
;

/// A system modifier chord, stored in the shortcut table by numeric code.
#[derive(Debug, Clone, Copy, PartialEq, Eq, Structural)]
pub enum SysModifier {
    Shift,
    Cmd,
    AltCmd,
    CmdShift,
}

impl SysModifier {
    /// The stored numeric code of the chord.
    pub open spec fn spec_code(self) -> usize {
        match self {
            SysModifier::Shift => 0,
            SysModifier::Cmd => 1,
            SysModifier::AltCmd => 2,
            SysModifier::CmdShift => 3,
        }
    }

    /// Translates the chord to its stored numeric code.
    pub fn to_code(self) -> (c: usize)
        ensures
            c == self.spec_code(),
    {
        match self {
            SysModifier::Shift => 0,
            SysModifier::Cmd => 1,
            SysModifier::AltCmd => 2,
            SysModifier::CmdShift => 3,
        }
    }

    /// Translates a stored numeric code back to the chord; codes above 3
    /// denote no chord.
    pub fn from_code(code: usize) -> (r: Option<SysModifier>)
        ensures
            code <= 3 ==> (r matches Some(m) && m.spec_code() == code),
            code > 3 ==> r is None,
    {
        match code {
            0 => Some(SysModifier::Shift),
            1 => Some(SysModifier::Cmd),
            2 => Some(SysModifier::AltCmd),
            3 => Some(SysModifier::CmdShift),
            _ => None,
        }
    }

    /// The chord's display label.
    pub open spec fn spec_label(self) -> Seq<char> {
        match self {
            SysModifier::Shift => "Shift"@,
            SysModifier::Cmd => "Ctrl"@,
            SysModifier::AltCmd => "Ctrl + Alt"@,
            SysModifier::CmdShift => "Ctrl + Shift"@,
        }
    }

    /// Renders the chord for display: `Shift`, `Ctrl`, `Ctrl + Alt` or
    /// `Ctrl + Shift`.
    pub fn to_string(self) -> (s: String)
        ensures
            s@ == self.spec_label(),
    {
        match self {
            SysModifier::Shift => String::from_str("Shift"),
            SysModifier::Cmd => String::from_str("Ctrl"),
            SysModifier::AltCmd => String::from_str("Ctrl + Alt"),
            SysModifier::CmdShift => String::from_str("Ctrl + Shift"),
        }
    }

    /// Parses a display label back to the chord.
    pub fn from_string(key: &String) -> (r: Option<SysModifier>)
        ensures
            r matches Some(m) ==> key@ == m.spec_label(),
            key@ == SysModifier::Shift.spec_label() ==> r == Some(SysModifier::Shift),
            key@ == SysModifier::Cmd.spec_label() ==> r == Some(SysModifier::Cmd),
            key@ == SysModifier::AltCmd.spec_label() ==> r == Some(SysModifier::AltCmd),
            key@ == SysModifier::CmdShift.spec_label() ==> r == Some(SysModifier::CmdShift),
    {
        proof {
            reveal_strlit("Shift");
            reveal_strlit("Ctrl");
            reveal_strlit("Ctrl + Alt");
            reveal_strlit("Ctrl + Shift");
        }
        proof {
            assert("Shift"@.len() == 5);
            assert("Ctrl"@.len() == 4);
            assert("Ctrl + Alt"@.len() == 10);
            assert("Ctrl + Shift"@.len() == 12);
        }
        if key.eq(&String::from_str("Shift")) {
            Some(SysModifier::Shift)
        } else if key.eq(&String::from_str("Ctrl")) {
            Some(SysModifier::Cmd)
        } else if key.eq(&String::from_str("Ctrl + Alt")) {
            Some(SysModifier::AltCmd)
        } else if key.eq(&String::from_str("Ctrl + Shift")) {
            Some(SysModifier::CmdShift)
        } else {
            None
        }
    }
}

/// A keyboard key as the shortcut validator sees it: the modifiers it knows,
/// a printable character, or anything else.
#[derive(Debug, Clone, Copy, PartialEq, Eq, Structural)]
pub enum KeyInput {
    Control,
    Shift,
    Alt,
    Meta,
    Character(char),
    Other,
}

impl KeyInput {
    /// The chord a single modifier key stands for, if any.
    pub open spec fn spec_sysmods(self) -> Option<SysModifier> {
        match self {
            KeyInput::Shift => Some(SysModifier::Shift),
            KeyInput::Control => Some(SysModifier::Cmd),
            _ => None,
        }
    }

    /// Translates one modifier key to a chord: `Shift` alone or `Ctrl`
    /// alone.
    pub fn to_sysmods(self) -> (r: Option<SysModifier>)
        ensures
            r == self.spec_sysmods(),
    {
        match self {
            KeyInput::Shift => Some(SysModifier::Shift),
            KeyInput::Control => Some(SysModifier::Cmd),
            _ => None,
        }
    }

    /// The chord a pair of modifier keys stands for, if any.
    pub open spec fn spec_sysmods_combination(keys: (KeyInput, KeyInput)) -> Option<SysModifier> {
        match keys {
            (KeyInput::Control, KeyInput::Alt) => Some(SysModifier::AltCmd),
            (KeyInput::Control, KeyInput::Shift) => Some(SysModifier::CmdShift),
            _ => None,
        }
    }

    /// Translates a pair of modifier keys to a chord: `Ctrl + Alt` or
    /// `Ctrl + Shift`.
    pub fn to_sysmods_combination(keys: (KeyInput, KeyInput)) -> (r: Option<SysModifier>)
        ensures
            r == KeyInput::spec_sysmods_combination(keys),
    {
        match keys {
            (KeyInput::Control, KeyInput::Alt) => Some(SysModifier::AltCmd),
            (KeyInput::Control, KeyInput::Shift) => Some(SysModifier::CmdShift),
            _ => None,
        }
    }
}

/// The actions available shortcuts are linked to.
#[derive(Debug, Clone, Copy, Hash, PartialEq, Eq, Structural)]
pub enum Action {
    NewScreenshot,
    Save,
    SaveAs,
}

impl Action {
    /// The action's display label.
    pub open spec fn spec_label(self) -> Seq<char> {
        match self {
            Action::NewScreenshot => "New screenshot"@,
            Action::Save => "Save"@,
            Action::SaveAs => "Save as"@,
        }
    }

    /// Renders the action for display: `New screenshot`, `Save` or
    /// `Save as`.
    pub fn to_string(&self) -> (s: String)
        ensures
            s@ == self.spec_label(),
    {
        match self {
            Action::NewScreenshot => String::from_str("New screenshot"),
            Action::Save => String::from_str("Save"),
            Action::SaveAs => String::from_str("Save as"),
        }
    }

    /// Parses a display label back to the action. Any other string denotes a
    /// caller bug, so it is ruled out rather than handled.
    pub fn from_string(action: String) -> (r: Action)
        requires
            action@ == Action::NewScreenshot.spec_label() || action@ == Action::Save.spec_label()
                || action@ == Action::SaveAs.spec_label(),
        ensures
            action@ == r.spec_label(),
    {
        if action.eq(&String::from_str("New screenshot")) {
            Action::NewScreenshot
        } else if action.eq(&String::from_str("Save")) {
            Action::Save
        } else {
            Action::SaveAs
        }
    }
}

/// One stored shortcut: a modifier-chord code and a character.
#[derive(Debug, Clone, Copy, PartialEq, Eq, Structural)]
pub struct Shortcut {
    pub code: usize,
    pub character: char,
}

/// The value a key combination validates to, following the combination rules:
/// the first key must be `Ctrl` or `Shift`; a character in second position
/// closes a one-modifier chord; `Shift` or `Alt` in second position extends
/// the chord, closed by a character in third position.
pub open spec fn validated(keys: Seq<KeyInput>) -> Option<(usize, char)> {
    if keys.len() == 0 {
        None
    } else if !(keys[0] == KeyInput::Control || keys[0] == KeyInput::Shift) {
        None
    } else if keys.len() == 1 {
        None
    } else {
        match keys[1] {
            KeyInput::Character(c) => Some(
                (
                    if keys[0] == KeyInput::Control {
                        1usize
                    } else {
                        0usize
                    },
                    c,
                ),
            ),
            KeyInput::Shift | KeyInput::Alt => if keys.len() == 2 {
                None
            } else {
                match keys[2] {
                    KeyInput::Character(c) => Some(
                        (
                            if keys[1] == KeyInput::Alt {
                                2usize
                            } else {
                                3usize
                            },
                            c,
                        ),
                    ),
                    _ => None,
                }
            },
            _ => None,
        }
    }
}

/// A three-key combination whose first key is `Shift` names no chord the
/// table can store; validating it is a caller bug, so it is ruled out.
pub open spec fn combination_supported(keys: Seq<KeyInput>) -> bool {
    !(keys.len() >= 3 && keys[0] == KeyInput::Shift && (keys[1] == KeyInput::Shift || keys[1]
        == KeyInput::Alt) && keys[2] is Character)
}

impl Shortcut {
    /// A shortcut from a modifier chord and a character.
    pub fn new(key: SysModifier, character: char) -> (s: Shortcut)
        ensures
            s.code == key.spec_code(),
            s.character == character,
    {
        Shortcut { code: key.to_code(), character }
    }

    /// The stored pair of chord code and character.
    pub fn get_value(&self) -> (v: (usize, char))
        ensures
            v == (self.code, self.character),
    {
        (self.code, self.character)
    }

    /// Verifies whether a new combination of keys is valid to replace an
    /// existing shortcut, and translates it to the stored value.
    pub fn validation_value(new_key_combination: Vec<KeyInput>) -> (r: Option<(usize, char)>)
        requires
            combination_supported(new_key_combination@),
        ensures
            r == validated(new_key_combination@),
    {
        if new_key_combination.len() == 0 {
            return None;
        }
        let k0 = new_key_combination[0];
        if !(k0 == KeyInput::Control || k0 == KeyInput::Shift) {
            return None;
        }
        if new_key_combination.len() == 1 {
            return None;
        }
        match new_key_combination[1] {
            KeyInput::Character(c) => {
                let chord = k0.to_sysmods();
                match chord {
                    Some(m) => Some((m.to_code(), c)),
                    None => None,
                }
            },
            KeyInput::Shift | KeyInput::Alt => {
                if new_key_combination.len() == 2 {
                    return None;
                }
                match new_key_combination[2] {
                    KeyInput::Character(c) => {
                        let chord = KeyInput::to_sysmods_combination(
                            (new_key_combination[0], new_key_combination[1]),
                        );
                        match chord {
                            Some(m) => Some((m.to_code(), c)),
                            None => None,
                        }
                    },
                    _ => None,
                }
            },
            _ => None,
        }
    }

    /// The shortcut's display label.
    pub open spec fn spec_string(self) -> Seq<char> {
        let m = if self.code == 0 {
            SysModifier::Shift
        } else if self.code == 1 {
            SysModifier::Cmd
        } else if self.code == 2 {
            SysModifier::AltCmd
        } else {
            SysModifier::CmdShift
        };
        (m.spec_label() + " + "@).push(self.character)
    }

    /// Renders the shortcut for display: the chord label, ` + `, and the
    /// character. A code above 3 denotes no chord and is a caller bug, so it
    /// is ruled out.
    pub fn to_string(&self) -> (s: String)
        requires
            self.code <= 3,
        ensures
            s@ == self.spec_string(),
    {
        let m = match SysModifier::from_code(self.code) {
            Some(m) => m,
            None => SysModifier::CmdShift,
        };
        let mut s = m.to_string();
        s.append(" + ");
        s.push(self.character);
        s
    }
}

/// The shortcut table: one stored shortcut for each action.
#[derive(Debug, Clone, Copy, PartialEq, Eq, Structural)]
pub struct Shortcuts {
    pub new_screenshot: Shortcut,
    pub save: Shortcut,
    pub save_as: Shortcut,
}

/// The default table: `Ctrl + n` for a new screenshot, `Ctrl + s` to save,
/// `Ctrl + Shift + s` to save as.
pub open spec fn default_shortcuts() -> Shortcuts {
    Shortcuts {
        new_screenshot: Shortcut { code: 1, character: 'n' },
        save: Shortcut { code: 1, character: 's' },
        save_as: Shortcut { code: 3, character: 's' },
    }
}

impl Default for Shortcuts {
    /// The default key-combination table.
    fn default() -> (s: Shortcuts)
        ensures
            s == default_shortcuts(),
    {
        Shortcuts {
            new_screenshot: Shortcut::new(SysModifier::Cmd, 'n'),
            save: Shortcut::new(SysModifier::Cmd, 's'),
            save_as: Shortcut::new(SysModifier::CmdShift, 's'),
        }
    }
}

impl Shortcuts {
    /// The shortcut stored for an action.
    pub open spec fn spec_get(self, key: Action) -> Shortcut {
        match key {
            Action::NewScreenshot => self.new_screenshot,
            Action::Save => self.save,
            Action::SaveAs => self.save_as,
        }
    }

    /// Whether some action already stores the value.
    pub open spec fn value_used(self, v: (usize, char)) -> bool {
        exists|a: Action| (#[trigger] self.spec_get(a)).code == v.0 && self.spec_get(a).character
            == v.1
    }

    /// Whether no two actions store the same shortcut value. A table loaded
    /// from a stored preference is only kept when this holds; otherwise the
    /// caller falls back to the default table.
    pub fn values_unique(&self) -> (r: bool)
        ensures
            r == (self.new_screenshot != self.save && self.new_screenshot != self.save_as
                && self.save != self.save_as),
    {
        self.new_screenshot != self.save && self.new_screenshot != self.save_as && self.save
            != self.save_as
    }

    /// Resets the user preferences to the default table.
    pub fn reset(self) -> (s: Shortcuts)
        ensures
            s == default_shortcuts(),
    {
        Shortcuts::default()
    }

    /// Extracts the shortcut stored for an action, for labels and other
    /// display; every action has one.
    pub fn extract_value_for_gui(&self, key: &Action) -> (r: Option<Shortcut>)
        ensures
            r == Some(self.spec_get(*key)),
    {
        match key {
            Action::NewScreenshot => Some(self.new_screenshot),
            Action::Save => Some(self.save),
            Action::SaveAs => Some(self.save_as),
        }
    }

    /// Updates the shortcut for an action with a new key combination.
    ///
    /// The combination must validate, and its value must not already be in
    /// use by any action — including the one being updated — otherwise the
    /// table is unchanged and the error says which rule failed.
    pub fn update_value(&mut self, key: Action, new_key_combination: Vec<KeyInput>) -> (r: Result<
        (),
        String,
    >)
        requires
            combination_supported(new_key_combination@),
        ensures
            ({
                match validated(new_key_combination@) {
                    Option::None => r matches Err(e) && e@ == "Combination of keys is not valid!"@
                        && *final(self) == *old(self),
                    Some(v) => if old(self).value_used(v) {
                        r matches Err(e) && e@ == "Combination of keys is already used!"@
                            && *final(self) == *old(self)
                    } else {
                        r is Ok && final(self).spec_get(key) == (Shortcut {
                            code: v.0,
                            character: v.1,
                        }) && (forall|a: Action|
                            a != key ==> #[trigger] final(self).spec_get(a) == old(
                                self,
                            ).spec_get(a))
                    },
                }
            }),
    {
        let new_value: (usize, char) = match Shortcut::validation_value(new_key_combination) {
            Some(v) => v,
            Option::None => {
                return Err(String::from_str("Combination of keys is not valid!"));
            },
        };

        let mut used = false;
        if self.new_screenshot.code == new_value.0 && self.new_screenshot.character == new_value.1 {
            used = true;
            proof {
                assert(self.spec_get(Action::NewScreenshot).code == new_value.0);
            }
        }
        if self.save.code == new_value.0 && self.save.character == new_value.1 {
            used = true;
            proof {
                assert(self.spec_get(Action::Save).code == new_value.0);
            }
        }
        if self.save_as.code == new_value.0 && self.save_as.character == new_value.1 {
            used = true;
            proof {
                assert(self.spec_get(Action::SaveAs).code == new_value.0);
            }
        }
        if used {
            return Err(String::from_str("Combination of keys is already used!"));
        }
        proof {
            assert(!self.value_used(new_value)) by {
                if self.value_used(new_value) {
                    let a = choose|a: Action| (#[trigger] self.spec_get(a)).code == new_value.0
                        && self.spec_get(a).character == new_value.1;
                    match a {
                        Action::NewScreenshot => {},
                        Action::Save => {},
                        Action::SaveAs => {},
                    }
                }
            }
        }

        let fresh = Shortcut { code: new_value.0, character: new_value.1 };
        match key {
            Action::NewScreenshot => {
                self.new_screenshot = fresh;
            },
            Action::Save => {
                self.save = fresh;
            },
            Action::SaveAs => {
                self.save_as = fresh;
            },
        }
        proof {
            assert forall|a: Action| a != key implies #[trigger] self.spec_get(a)
                == old(self).spec_get(a) by {
                match a {
                    Action::NewScreenshot => {},
                    Action::Save => {},
                    Action::SaveAs => {},
                }
            }
        }
        Ok(())
    }
}

/// The user's preferred directory for saved screenshots, as a plain path
/// string; reading and writing the config file that persists it is the
/// application's job.
#[derive(Debug, Clone, PartialEq, Eq)]
pub struct SavePath {
    pub save_path: String,
}

impl SavePath {
    /// A save path not yet pointing anywhere; the application replaces it
    /// with the user's picture directory or the stored preference.
    pub fn new() -> (p: SavePath)
        ensures
            p.save_path@ == Seq::<char>::empty(),
    {
        SavePath { save_path: String::new() }
    }

    /// The favourite save directory.
    pub fn get_save_path(&self) -> (r: String)
        ensures
            r@ == self.save_path@,
    {
        self.save_path.clone()
    }

    /// Replaces the favourite save directory; the caller has checked the
    /// directory exists and persists the change.
    pub fn update_save_path(&mut self, new_save_path: String)
        ensures
            final(self).save_path@ == new_save_path@,
    {
        self.save_path = new_save_path;
    }

    /// The save directory as a string.
    pub fn to_string(&self) -> (r: String)
        ensures
            r@ == self.save_path@,
    {
        self.save_path.clone()
    }
}

} // verus!
