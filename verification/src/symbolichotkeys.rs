//! Parser for `~/Library/Preferences/com.apple.symbolichotkeys.plist`.
//!
//! macOS stores user customizations of system shortcuts (Spotlight, Mission
//! Control, screenshots, ...) as numeric IDs in this plist. Each entry is
//! `{ enabled, value: { parameters: [char_code, virtual_keycode, mask], type } }`.
//!
//! macOS defaults are not stored in this file: they are built into the
//! system. This module therefore keeps a table of defaults and merges it with
//! the plist contents to produce a complete picture: defaults overlaid by
//! whatever the user has customized or disabled.

use vstd::prelude::*;

use crate::binding::{is_schema_error, schema_error, Binding, BindingSource, ScanError};
use crate::keys::{
    spec_is_control, spec_vk_to_named, vk_to_named, is_control, Key, KeyCombo, Modifiers,
    NamedKey,
};
use crate::numbers::{parse_u32, spec_parse_u32};
use crate::plist_file::{
    field, parse_value, read_root, spec_as_array, spec_as_boolean, spec_as_dictionary,
    spec_as_signed_integer, PlistValue, MAX_PLIST_BYTES,
};
use crate::text::{decimal, push_decimal};

verus! {

broadcast use vstd::string::group_string_axioms;

/// `parameters` index of the printable character code.
pub const PARAM_CHAR: usize = 0;
/// `parameters` index of the macOS virtual keycode.
pub const PARAM_VK: usize = 1;
/// `parameters` index of the NSEvent modifier mask.
pub const PARAM_MASK: usize = 2;

/// Value Apple writes when a parameter slot is unset.
pub const UNSET: i64 = 65535;
/// The real macOS table is only a few hundred entries. Bound corrupted or
/// hostile preference data before building the override list.
pub const MAX_SYMBOLIC_HOTKEY_ENTRIES: usize = 4096;

/// `NSEventModifierFlagShift` (`1 << 17`).
pub const NS_SHIFT: u64 = 0x0002_0000;
/// `NSEventModifierFlagControl` (`1 << 18`).
pub const NS_CTRL: u64 = 0x0004_0000;
/// `NSEventModifierFlagOption` (`1 << 19`).
pub const NS_OPT: u64 = 0x0008_0000;
/// `NSEventModifierFlagCommand` (`1 << 20`).
pub const NS_CMD: u64 = 0x0010_0000;
/// `NSEventModifierFlagFunction` (`1 << 23`).
pub const NS_FN: u64 = 0x0080_0000;

/// Reads `com.apple.symbolichotkeys.plist` and merges its contents with the
/// table of macOS defaults.
#[derive(Clone, Debug)]
pub struct SymbolicHotkeys {
    plist_path: String,
}

impl SymbolicHotkeys {
    /// A source reading the plist at `plist_path`.
    pub fn new(plist_path: String) -> (s: SymbolicHotkeys)
        ensures
            s.spec_plist_path() == plist_path@,
    {
        SymbolicHotkeys { plist_path }
    }

    pub closed spec fn spec_plist_path(&self) -> Seq<char> {
        self.plist_path@
    }

    /// The plist this source reads.
    pub fn plist_path(&self) -> (r: &str)
        ensures
            r@ == self.spec_plist_path(),
    {
        self.plist_path.as_str()
    }

    /// The source's name.
    pub fn name(&self) -> (r: &'static str)
        ensures
            r@ == "symbolichotkeys"@,
    {
        "symbolichotkeys"
    }
}

/// What the user's plist says about one hotkey ID.
#[derive(Clone, Copy, Debug, PartialEq, Eq, Structural)]
pub enum Override {
    /// The user disabled this shortcut.
    Disabled,
    /// The shortcut is enabled with its built-in default combo.
    EnabledWithDefault,
    /// The user bound this shortcut to a specific combo.
    Custom(KeyCombo),
}

/// `char::from_u32` gives the character with code point `i` exactly when `i`
/// is a Unicode scalar value (at most U+10FFFF and not a surrogate).
pub assume_specification[ core::char::from_u32 ](i: u32) -> (r: Option<char>)
    ensures
        r is Some <==> (i <= 0x10FFFF && !(0xD800 <= i && i <= 0xDFFF)),
        r matches Some(c) ==> c as u32 == i && c == i as char,
;

/// The modifier set an NSEvent modifier mask denotes.
pub open spec fn spec_decode_modifiers(mask: u64) -> Modifiers {
    Modifiers {
        cmd: mask & NS_CMD != 0,
        opt: mask & NS_OPT != 0,
        ctrl: mask & NS_CTRL != 0,
        shift: mask & NS_SHIFT != 0,
        function: mask & NS_FN != 0,
    }
}

/// Decode an NSEvent modifier mask.
pub fn decode_modifiers(mask: u64) -> (m: Modifiers)
    ensures
        m == spec_decode_modifiers(mask),
{
    let mut m = Modifiers::empty();
    if mask & NS_CMD != 0 {
        m = m.union(Modifiers::cmd());
    }
    if mask & NS_OPT != 0 {
        m = m.union(Modifiers::opt());
    }
    if mask & NS_CTRL != 0 {
        m = m.union(Modifiers::ctrl());
    }
    if mask & NS_SHIFT != 0 {
        m = m.union(Modifiers::shift());
    }
    if mask & NS_FN != 0 {
        m = m.union(Modifiers::function());
    }
    m
}

/// Whether a virtual keycode slot holds a usable keycode.
pub open spec fn vk_in_range(vk: i64) -> bool {
    vk != UNSET && 0 <= vk && vk <= 0xffff
}

/// Whether a character-code slot holds a printable character.
pub open spec fn char_usable(char_code: i64) -> bool {
    char_code != UNSET && 0 <= char_code && char_code <= 0xffff_ffff && (char_code <= 0x10FFFF
        && !(0xD800 <= char_code && char_code <= 0xDFFF)) && !spec_is_control(
        char_code as u32 as char,
    )
}

/// The key a `(char_code, virtual_keycode)` pair denotes: the named key of
/// the keycode when it has one (keycodes do not depend on the keyboard
/// layout), else the printable character, else the raw keycode, else keycode
/// zero.
pub open spec fn spec_decode_key(char_code: i64, vk: i64) -> Key {
    if vk_in_range(vk) && spec_vk_to_named(vk as u16) is Some {
        Key::Named(spec_vk_to_named(vk as u16)->0)
    } else if char_usable(char_code) {
        Key::Char(char_code as u32 as char)
    } else if vk_in_range(vk) {
        Key::Virtual(vk as u16)
    } else {
        Key::Virtual(0)
    }
}

/// Decode the key of a symbolic hotkey's parameters.
pub fn decode_key(char_code: i64, vk: i64) -> (k: Key)
    ensures
        k == spec_decode_key(char_code, vk),
{
    if vk != UNSET && 0 <= vk && vk <= 0xffff {
        if let Some(named) = vk_to_named(vk as u16) {
            return Key::Named(named);
        }
    }
    if char_code != UNSET && 0 <= char_code && char_code <= 0xffff_ffff {
        if let Some(c) = core::char::from_u32(char_code as u32) {
            if !is_control(c) {
                return Key::Char(c);
            }
        }
    }
    if vk != UNSET && 0 <= vk && vk <= 0xffff {
        return Key::Virtual(vk as u16);
    }
    Key::Virtual(0)
}

/// The label System Settings shows for a known symbolic hotkey ID.
pub open spec fn spec_label_for(id: u32) -> Option<&'static str> {
    match id {
        7 => Some("Move focus to the menu bar"),
        8 => Some("Move focus to the Dock"),
        9 => Some("Move focus to the active or next window"),
        10 => Some("Move focus to the window toolbar"),
        11 => Some("Move focus to the floating window"),
        12 => Some("Toggle keyboard access"),
        13 => Some("Change the way Tab moves focus"),
        27 => Some("Move focus to next window in application"),
        51 => Some("Move focus to the window drawer"),
        57 => Some("Move focus to the status menus"),
        28 => Some("Save picture of screen as a file"),
        29 => Some("Copy picture of screen to the clipboard"),
        30 => Some("Save picture of selected area as a file"),
        31 => Some("Copy picture of selected area to the clipboard"),
        184 => Some("Screenshot and recording options"),
        32 => Some("Mission Control"),
        33 => Some("Application windows"),
        36 => Some("Show Desktop"),
        64 => Some("Show Spotlight search"),
        65 => Some("Show Finder search window"),
        60 => Some("Select the previous input source"),
        61 => Some("Select the next source in the Input menu"),
        79 | 80 => Some("Move left a space"),
        81 | 82 => Some("Move right a space"),
        118 => Some("Switch to Desktop 1"),
        119 => Some("Switch to Desktop 2"),
        120 => Some("Switch to Desktop 3"),
        121 => Some("Switch to Desktop 4"),
        52 => Some("Toggle Dock hiding"),
        59 => Some("Toggle VoiceOver"),
        160 => Some("Show Launchpad"),
        163 => Some("Show Notification Center"),
        175 => Some("Toggle Do Not Disturb"),
        181 => Some("Save picture of the Touch Bar as a file"),
        182 => Some("Copy picture of the Touch Bar to the clipboard"),
        _ => None,
    }
}

/// Human-readable label for a known symbolic hotkey ID, or `None` if there
/// is no mapping for it. Labels follow Apple's wording in System Settings →
/// Keyboard → Keyboard Shortcuts; coverage is partial.
pub fn label_for(id: u32) -> (r: Option<&'static str>)
    ensures
        r == spec_label_for(id),
{
    match id {
        7 => Some("Move focus to the menu bar"),
        8 => Some("Move focus to the Dock"),
        9 => Some("Move focus to the active or next window"),
        10 => Some("Move focus to the window toolbar"),
        11 => Some("Move focus to the floating window"),
        12 => Some("Toggle keyboard access"),
        13 => Some("Change the way Tab moves focus"),
        27 => Some("Move focus to next window in application"),
        51 => Some("Move focus to the window drawer"),
        57 => Some("Move focus to the status menus"),
        28 => Some("Save picture of screen as a file"),
        29 => Some("Copy picture of screen to the clipboard"),
        30 => Some("Save picture of selected area as a file"),
        31 => Some("Copy picture of selected area to the clipboard"),
        184 => Some("Screenshot and recording options"),
        32 => Some("Mission Control"),
        33 => Some("Application windows"),
        36 => Some("Show Desktop"),
        64 => Some("Show Spotlight search"),
        65 => Some("Show Finder search window"),
        60 => Some("Select the previous input source"),
        61 => Some("Select the next source in the Input menu"),
        79 | 80 => Some("Move left a space"),
        81 | 82 => Some("Move right a space"),
        118 => Some("Switch to Desktop 1"),
        119 => Some("Switch to Desktop 2"),
        120 => Some("Switch to Desktop 3"),
        121 => Some("Switch to Desktop 4"),
        52 => Some("Toggle Dock hiding"),
        59 => Some("Toggle VoiceOver"),
        160 => Some("Show Launchpad"),
        163 => Some("Show Notification Center"),
        175 => Some("Toggle Do Not Disturb"),
        181 => Some("Save picture of the Touch Bar as a file"),
        182 => Some("Copy picture of the Touch Bar to the clipboard"),
        _ => None,
    }
}

/// The label a binding for hotkey `id` carries: the known label, else
/// `Symbolic hotkey #<id>`.
pub open spec fn label_text(id: u32) -> Seq<char> {
    match spec_label_for(id) {
        Some(l) => l@,
        None => "Symbolic hotkey #"@ + decimal(id as nat),
    }
}

/// A modifier set without the function key.
pub open spec fn mods(cmd: bool, opt: bool, ctrl: bool, shift: bool) -> Modifiers {
    Modifiers { cmd, opt, ctrl, shift, function: false }
}

/// macOS default bindings for symbolic hotkey IDs, hand-curated against
/// macOS Tahoe (26.x). Coverage is intentionally partial: only IDs whose
/// default is certain are listed. Unknown IDs that the user customizes are
/// still surfaced by [`merge_with_defaults`].
pub open spec fn default_table() -> Seq<(u32, KeyCombo)> {
    seq![
        (32u32, KeyCombo { modifiers: mods(false, false, true, false), key: Key::Named(NamedKey::Up) }),
        (33u32, KeyCombo { modifiers: mods(false, false, true, false), key: Key::Named(NamedKey::Down) }),
        (79u32, KeyCombo { modifiers: mods(false, false, true, false), key: Key::Named(NamedKey::Left) }),
        (81u32, KeyCombo { modifiers: mods(false, false, true, false), key: Key::Named(NamedKey::Right) }),
        (118u32, KeyCombo { modifiers: mods(false, false, true, false), key: Key::Char('1') }),
        (119u32, KeyCombo { modifiers: mods(false, false, true, false), key: Key::Char('2') }),
        (120u32, KeyCombo { modifiers: mods(false, false, true, false), key: Key::Char('3') }),
        (121u32, KeyCombo { modifiers: mods(false, false, true, false), key: Key::Char('4') }),
        (28u32, KeyCombo { modifiers: mods(true, false, false, true), key: Key::Char('3') }),
        (29u32, KeyCombo { modifiers: mods(true, false, true, true), key: Key::Char('3') }),
        (30u32, KeyCombo { modifiers: mods(true, false, false, true), key: Key::Char('4') }),
        (31u32, KeyCombo { modifiers: mods(true, false, true, true), key: Key::Char('4') }),
        (184u32, KeyCombo { modifiers: mods(true, false, false, true), key: Key::Char('5') }),
        (64u32, KeyCombo { modifiers: mods(true, false, false, false), key: Key::Named(NamedKey::Space) }),
        (65u32, KeyCombo { modifiers: mods(true, true, false, false), key: Key::Named(NamedKey::Space) }),
        (60u32, KeyCombo { modifiers: mods(false, false, true, false), key: Key::Named(NamedKey::Space) }),
        (61u32, KeyCombo { modifiers: mods(false, true, true, false), key: Key::Named(NamedKey::Space) })
    ]
}

/// The default combo of hotkey `id` in a table (its first entry for `id`).
pub open spec fn table_combo(table: Seq<(u32, KeyCombo)>, id: u32) -> Option<KeyCombo>
    decreases table.len(),
{
    if table.len() == 0 {
        None
    } else if table[0].0 == id {
        Some(table[0].1)
    } else {
        table_combo(table.drop_first(), id)
    }
}

/// The macOS default combo of hotkey `id`, if the table has one.
pub open spec fn default_combo(id: u32) -> Option<KeyCombo> {
    table_combo(default_table(), id)
}

/// The table of macOS defaults.
pub fn macos_defaults() -> (r: Vec<(u32, KeyCombo)>)
    ensures
        r@ == default_table(),
{
    let cmd = Modifiers::cmd();
    let shift = Modifiers::shift();
    let ctrl = Modifiers::ctrl();
    let opt = Modifiers::opt();
    let shift_cmd = shift.union(cmd);
    let ctrl_shift_cmd = ctrl.union(shift).union(cmd);
    let cmd_opt = cmd.union(opt);
    let ctrl_opt = ctrl.union(opt);
    let r = vec![
        (32, KeyCombo { modifiers: ctrl, key: Key::Named(NamedKey::Up) }),
        (33, KeyCombo { modifiers: ctrl, key: Key::Named(NamedKey::Down) }),
        (79, KeyCombo { modifiers: ctrl, key: Key::Named(NamedKey::Left) }),
        (81, KeyCombo { modifiers: ctrl, key: Key::Named(NamedKey::Right) }),
        (118, KeyCombo { modifiers: ctrl, key: Key::Char('1') }),
        (119, KeyCombo { modifiers: ctrl, key: Key::Char('2') }),
        (120, KeyCombo { modifiers: ctrl, key: Key::Char('3') }),
        (121, KeyCombo { modifiers: ctrl, key: Key::Char('4') }),
        (28, KeyCombo { modifiers: shift_cmd, key: Key::Char('3') }),
        (29, KeyCombo { modifiers: ctrl_shift_cmd, key: Key::Char('3') }),
        (30, KeyCombo { modifiers: shift_cmd, key: Key::Char('4') }),
        (31, KeyCombo { modifiers: ctrl_shift_cmd, key: Key::Char('4') }),
        (184, KeyCombo { modifiers: shift_cmd, key: Key::Char('5') }),
        (64, KeyCombo { modifiers: cmd, key: Key::Named(NamedKey::Space) }),
        (65, KeyCombo { modifiers: cmd_opt, key: Key::Named(NamedKey::Space) }),
        (60, KeyCombo { modifiers: ctrl, key: Key::Named(NamedKey::Space) }),
        (61, KeyCombo { modifiers: ctrl_opt, key: Key::Named(NamedKey::Space) }),
    ];
    assert(r@ =~= default_table());
    r
}

/// The binding for hotkey `id` bound to `combo`.
pub fn emit(id: u32, combo: KeyCombo) -> (b: Binding)
    ensures
        b.combo == combo,
        b.source == (BindingSource::SystemSymbolicHotkey { id }),
        b.label@ == label_text(id),
{
    let label = match label_for(id) {
        Some(l) => l.to_owned(),
        None => {
            let mut s = "Symbolic hotkey #".to_owned();
            push_decimal(&mut s, id as u64);
            s
        },
    };
    Binding { combo, source: BindingSource::SystemSymbolicHotkey { id }, label }
}

/// The dictionary stored under `value` in a hotkey entry.
pub open spec fn value_dict(entry: PlistValue) -> Option<PlistValue> {
    match field(entry, "value"@) {
        Some(v) => if spec_as_dictionary(v) is Some { Some(v) } else { None },
        None => None,
    }
}

/// The `parameters` array of a hotkey entry's value dictionary.
pub open spec fn parameters_of(value: PlistValue) -> Option<Seq<PlistValue>> {
    match field(value, "parameters"@) {
        Some(p) => spec_as_array(p),
        None => None,
    }
}

/// The integer a parameter holds, or `default` when it holds none.
pub open spec fn int_or(v: PlistValue, default: i64) -> i64 {
    match spec_as_signed_integer(v) {
        Some(i) => i,
        None => default,
    }
}

/// Whether a hotkey entry is enabled: its `enabled` flag when it has a
/// boolean one, else `true`.
pub open spec fn entry_enabled(entry: PlistValue) -> bool {
    match field(entry, "enabled"@) {
        Some(v) => match spec_as_boolean(v) {
            Some(b) => b,
            None => true,
        },
        None => true,
    }
}

/// What one entry of `AppleSymbolicHotKeys` says, or `None` when the entry
/// says nothing usable (not a dictionary, or a value without a `parameters`
/// array of at least three items). `(65535, 65535, _)` is Apple's "no
/// override" placeholder and means the default.
pub open spec fn entry_override(entry: PlistValue) -> Option<Override> {
    if spec_as_dictionary(entry) is None {
        None
    } else if !entry_enabled(entry) {
        Some(Override::Disabled)
    } else {
        match value_dict(entry) {
            None => Some(Override::EnabledWithDefault),
            Some(vd) => match parameters_of(vd) {
                None => None,
                Some(params) => if params.len() < 3 {
                    None
                } else {
                    let char_code = int_or(params[PARAM_CHAR as int], UNSET);
                    let vk = int_or(params[PARAM_VK as int], UNSET);
                    let mask = int_or(params[PARAM_MASK as int], 0);
                    if char_code == UNSET && vk == UNSET {
                        Some(Override::EnabledWithDefault)
                    } else {
                        Some(
                            Override::Custom(
                                KeyCombo {
                                    modifiers: spec_decode_modifiers(mask as u64),
                                    key: spec_decode_key(char_code, vk),
                                },
                            ),
                        )
                    }
                },
            },
        }
    }
}

/// The override records of `AppleSymbolicHotKeys` entries, in document
/// order: one per entry whose key is a `u32` and which says something.
pub open spec fn override_records(entries: Seq<(String, PlistValue)>) -> Seq<(u32, Override)>
    decreases entries.len(),
{
    if entries.len() == 0 {
        seq![]
    } else {
        let prev = override_records(entries.drop_last());
        let last = entries.last();
        match (spec_parse_u32(last.0@), entry_override(last.1)) {
            (Some(id), Some(o)) => prev.push((id, o)),
            _ => prev,
        }
    }
}

/// The entries of the `AppleSymbolicHotKeys` dictionary of a plist root.
pub open spec fn hotkey_entries(root: PlistValue) -> Option<Seq<(String, PlistValue)>> {
    match field(root, "AppleSymbolicHotKeys"@) {
        Some(v) => spec_as_dictionary(v),
        None => None,
    }
}

/// The entries that are read: at most `MAX_SYMBOLIC_HOTKEY_ENTRIES`.
pub open spec fn bounded_entries(entries: Seq<(String, PlistValue)>) -> Seq<(String, PlistValue)> {
    if entries.len() <= MAX_SYMBOLIC_HOTKEY_ENTRIES {
        entries
    } else {
        entries.take(MAX_SYMBOLIC_HOTKEY_ENTRIES as int)
    }
}

fn int_param(v: &PlistValue, default: i64) -> (r: i64)
    ensures
        r == int_or(*v, default),
{
    match v.as_signed_integer() {
        Some(i) => i,
        None => default,
    }
}

/// Read what one `AppleSymbolicHotKeys` entry says.
pub fn read_entry(entry: &PlistValue) -> (r: Option<Override>)
    ensures
        r == entry_override(*entry),
{
    if entry.as_dictionary().is_none() {
        return None;
    }
    let enabled = match entry.get("enabled") {
        Some(v) => match v.as_boolean() {
            Some(b) => b,
            None => true,
        },
        None => true,
    };
    if !enabled {
        return Some(Override::Disabled);
    }
    let value = match entry.get("value") {
        Some(v) => if v.as_dictionary().is_some() {
            v
        } else {
            return Some(Override::EnabledWithDefault);
        },
        None => return Some(Override::EnabledWithDefault),
    };
    let params = match value.get("parameters") {
        Some(p) => match p.as_array() {
            Some(a) => a,
            None => return None,
        },
        None => return None,
    };
    if params.len() < 3 {
        return None;
    }
    let char_code = int_param(&params[PARAM_CHAR], UNSET);
    let vk = int_param(&params[PARAM_VK], UNSET);
    let mask = int_param(&params[PARAM_MASK], 0);
    if char_code == UNSET && vk == UNSET {
        return Some(Override::EnabledWithDefault);
    }
    Some(
        Override::Custom(
            KeyCombo { modifiers: decode_modifiers(mask as u64), key: decode_key(char_code, vk) },
        ),
    )
}

/// The override records a symbolic-hotkeys plist root holds, or the message
/// of the schema error it is refused with.
pub open spec fn root_records(root: PlistValue) -> Result<Seq<(u32, Override)>, Seq<char>> {
    if spec_as_dictionary(root) is None {
        Err("root is not a dictionary"@)
    } else {
        match hotkey_entries(root) {
            None => Err("missing AppleSymbolicHotKeys dict"@),
            Some(es) => Ok(override_records(bounded_entries(es))),
        }
    }
}

/// Whether `map` holds, once for each hotkey ID that has a record in
/// `records`, that ID's last record (a map from ID to override, in no
/// particular order).
pub open spec fn is_override_map(map: Seq<(u32, Override)>, records: Seq<(u32, Override)>) -> bool {
    &&& forall|i: int, j: int| 0 <= i < j < map.len() ==> (#[trigger] map[i]).0 != (#[trigger] map[j]).0
    &&& forall|k: int| 0 <= k < map.len() ==> last_override(records, (#[trigger] map[k]).0) == Some(map[k].1)
    &&& forall|id: u32|
        #[trigger] last_override(records, id) is Some ==> exists|k: int| 0 <= k < map.len() && map[k].0 == id
}

/// Read the overrides of a symbolic-hotkeys plist root: for each hotkey ID,
/// the last record for it (later records for the same ID supersede earlier
/// ones).
pub fn parse_overrides(path: &str, root: &PlistValue) -> (r: Result<Vec<(u32, Override)>, ScanError>)
    ensures
        match root_records(*root) {
            Ok(records) => r matches Ok(v) && is_override_map(v@, records),
            Err(m) => r matches Err(e) && is_schema_error(e, path@, m),
        },
{
    if root.as_dictionary().is_none() {
        return Err(schema_error(path, "root is not a dictionary".to_owned()));
    }
    let entries = match root.get("AppleSymbolicHotKeys") {
        Some(v) => match v.as_dictionary() {
            Some(d) => d,
            None => return Err(schema_error(path, "missing AppleSymbolicHotKeys dict".to_owned())),
        },
        None => return Err(schema_error(path, "missing AppleSymbolicHotKeys dict".to_owned())),
    };
    let n: usize = if entries.len() <= MAX_SYMBOLIC_HOTKEY_ENTRIES {
        entries.len()
    } else {
        MAX_SYMBOLIC_HOTKEY_ENTRIES
    };
    let ghost es = entries@;
    let mut map: Vec<(u32, Override)> = Vec::new();
    let mut i: usize = 0;
    assert(es.take(0) =~= Seq::<(String, PlistValue)>::empty());
    while i < n
        invariant
            es == entries@,
            n <= entries.len(),
            i <= n,
            is_override_map(map@, override_records(es.take(i as int))),
        decreases n - i,
    {
        let ghost prev = override_records(es.take(i as int));
        assert(es.take(i + 1).drop_last() =~= es.take(i as int));
        assert(es.take(i + 1).last() == es[i as int]);
        let id = parse_u32(entries[i].0.as_str());
        let o = read_entry(&entries[i].1);
        match (id, o) {
            (Some(id), Some(o)) => {
                let ghost next = prev.push((id, o));
                assert(override_records(es.take(i + 1)) == next);
                assert(next.drop_last() =~= prev);
                let ghost before = map@;
                let mut j: usize = 0;
                while j < map.len() && map[j].0 != id
                    invariant
                        j <= map@.len(),
                        forall|k: int| 0 <= k < j ==> map@[k].0 != id,
                    decreases map.len() - j,
                {
                    j = j + 1;
                }
                if j < map.len() {
                    map.set(j, (id, o));
                    assert(map@ == before.update(j as int, (id, o)));
                    assert forall|a: int, b: int| 0 <= a < b < map@.len() implies (#[trigger] map@[a]).0
                        != (#[trigger] map@[b]).0 by {
                        assert(map@[a].0 == before[a].0 && map@[b].0 == before[b].0);
                    }
                    assert forall|k: int| 0 <= k < map@.len() implies last_override(next, (#[trigger] map@[k]).0)
                        == Some(map@[k].1) by {
                        if k != j {
                            assert(map@[k] == before[k]);
                        }
                    }
                    assert forall|x: u32| #[trigger] last_override(next, x) is Some implies exists|k: int|
                        0 <= k < map@.len() && map@[k].0 == x by {
                        if x != id {
                            assert(last_override(next, x) == last_override(prev, x));
                            let k = choose|k: int| 0 <= k < before.len() && before[k].0 == x;
                            assert(map@[k] == before[k]);
                        } else {
                            assert(map@[j as int].0 == x);
                        }
                    }
                } else {
                    map.push((id, o));
                    assert forall|a: int, b: int| 0 <= a < b < map@.len() implies (#[trigger] map@[a]).0
                        != (#[trigger] map@[b]).0 by {
                        if b < before.len() {
                            assert(map@[a] == before[a] && map@[b] == before[b]);
                        } else {
                            assert(map@[a] == before[a]);
                        }
                    }
                    assert forall|k: int| 0 <= k < map@.len() implies last_override(next, (#[trigger] map@[k]).0)
                        == Some(map@[k].1) by {
                        if k < before.len() {
                            assert(map@[k] == before[k]);
                        }
                    }
                    assert forall|x: u32| #[trigger] last_override(next, x) is Some implies exists|k: int|
                        0 <= k < map@.len() && map@[k].0 == x by {
                        if x != id {
                            assert(last_override(next, x) == last_override(prev, x));
                            let k = choose|k: int| 0 <= k < before.len() && before[k].0 == x;
                            assert(map@[k] == before[k]);
                        } else {
                            assert(map@[before.len() as int].0 == x);
                        }
                    }
                }
            },
            _ => {},
        }
        i = i + 1;
    }
    assert(es.take(n as int) =~= bounded_entries(es));
    Ok(map)
}

/// The override in force for `id`: the last record for it.
pub open spec fn last_override(records: Seq<(u32, Override)>, id: u32) -> Option<Override>
    decreases records.len(),
{
    if records.len() == 0 {
        None
    } else if records.last().0 == id {
        Some(records.last().1)
    } else {
        last_override(records.drop_last(), id)
    }
}

/// The combo hotkey `id` ends up bound to: a known default unless the user
/// disabled or customized it; an unknown ID only when customized.
pub open spec fn final_combo(records: Seq<(u32, Override)>, id: u32) -> Option<KeyCombo> {
    match default_combo(id) {
        Some(d) => match last_override(records, id) {
            Some(Override::Disabled) => None,
            Some(Override::Custom(c)) => Some(c),
            _ => Some(d),
        },
        None => match last_override(records, id) {
            Some(Override::Custom(c)) => Some(c),
            _ => None,
        },
    }
}

/// The hotkey ID of a binding that comes from the symbolic hotkeys.
pub open spec fn hotkey_id(b: Binding) -> Option<u32> {
    match b.source {
        BindingSource::SystemSymbolicHotkey { id } => Some(id),
        _ => None,
    }
}

fn find_last_override(records: &Vec<(u32, Override)>, id: u32) -> (r: Option<Override>)
    ensures
        r == last_override(records@, id),
{
    let mut i: usize = records.len();
    assert(records@.take(i as int) =~= records@);
    while i > 0
        invariant
            i <= records.len(),
            last_override(records@, id) == last_override(records@.take(i as int), id),
        decreases i,
    {
        let ghost prefix = records@.take(i as int);
        assert(prefix.drop_last() =~= records@.take(i - 1));
        if records[i - 1].0 == id {
            return Some(records[i - 1].1);
        }
        i = i - 1;
    }
    None
}

proof fn lemma_last_override_has_record(records: Seq<(u32, Override)>, id: u32)
    requires
        last_override(records, id) is Some,
    ensures
        exists|j: int| 0 <= j < records.len() && records[j].0 == id,
    decreases records.len(),
{
    if records.last().0 != id {
        lemma_last_override_has_record(records.drop_last(), id);
        let j = choose|j: int| 0 <= j < records.drop_last().len() && records.drop_last()[j].0 == id;
        assert(records[j].0 == id);
    }
}

proof fn lemma_table_combo_has_entry(table: Seq<(u32, KeyCombo)>, id: u32)
    requires
        table_combo(table, id) is Some,
    ensures
        exists|j: int| 0 <= j < table.len() && table[j].0 == id,
    decreases table.len(),
{
    if table[0].0 != id {
        lemma_table_combo_has_entry(table.drop_first(), id);
        let j = choose|j: int| 0 <= j < table.drop_first().len() && table.drop_first()[j].0 == id;
        assert(table[j + 1].0 == id);
    }
}

fn combo_for(records: &Vec<(u32, Override)>, defaults: &Vec<(u32, KeyCombo)>, id: u32) -> (r: Option<KeyCombo>)
    requires
        defaults@ == default_table(),
    ensures
        r == final_combo(records@, id),
{
    let mut i: usize = 0;
    assert(defaults@.skip(0) =~= defaults@);
    while i < defaults.len() && defaults[i].0 != id
        invariant
            defaults@ == default_table(),
            i <= defaults.len(),
            default_combo(id) == table_combo(defaults@.skip(i as int), id),
        decreases defaults.len() - i,
    {
        assert(defaults@.skip(i as int).drop_first() =~= defaults@.skip(i + 1));
        i = i + 1;
    }
    let d: Option<KeyCombo> = if i < defaults.len() {
        assert(defaults@.skip(i as int)[0] == defaults@[i as int]);
        Some(defaults[i].1)
    } else {
        assert(defaults@.skip(i as int).len() == 0);
        None
    };
    assert(d == default_combo(id));
    let o = find_last_override(records, id);
    match d {
        Some(dc) => match o {
            Some(Override::Disabled) => None,
            Some(Override::Custom(c)) => Some(c),
            _ => Some(dc),
        },
        None => match o {
            Some(Override::Custom(c)) => Some(c),
            _ => None,
        },
    }
}

/// Whether the pairs are sorted by strictly increasing ID.
pub open spec fn strictly_sorted(pairs: Seq<(u32, KeyCombo)>) -> bool {
    forall|i: int, j: int| 0 <= i < j < pairs.len() ==> pairs[i].0 < pairs[j].0
}

/// Insert `(id, combo)` into pairs sorted by strictly increasing ID, unless
/// the ID is already present.
fn insert_sorted(pairs: &mut Vec<(u32, KeyCombo)>, id: u32, combo: KeyCombo)
    requires
        strictly_sorted(old(pairs)@),
    ensures
        strictly_sorted(final(pairs)@),
        forall|k: int|
            0 <= k < old(pairs)@.len() ==> final(pairs)@.contains(#[trigger] old(pairs)@[k]),
        exists|k: int| 0 <= k < final(pairs)@.len() && #[trigger] final(pairs)@[k].0 == id,
        forall|k: int|
            0 <= k < final(pairs)@.len() ==> old(pairs)@.contains(#[trigger] final(pairs)@[k])
                || final(pairs)@[k] == (id, combo),
{
    let mut pos: usize = 0;
    while pos < pairs.len() && pairs[pos].0 < id
        invariant
            pos <= pairs.len(),
            forall|k: int| 0 <= k < pos ==> pairs@[k].0 < id,
        decreases pairs.len() - pos,
    {
        pos = pos + 1;
    }
    if pos < pairs.len() && pairs[pos].0 == id {
        assert(pairs@.contains(pairs@[pos as int]));
        return;
    }
    let ghost before = pairs@;
    pairs.insert(pos, (id, combo));
    assert(pairs@ == before.insert(pos as int, (id, combo)));
    assert forall|k: int| 0 <= k < before.len() implies pairs@.contains(#[trigger] before[k]) by {
        if k < pos {
            assert(pairs@[k] == before[k]);
        } else {
            assert(pairs@[k + 1] == before[k]);
        }
    }
    assert(pairs@[pos as int].0 == id);
    assert forall|k: int| 0 <= k < pairs@.len() implies before.contains(#[trigger] pairs@[k])
        || pairs@[k] == (id, combo) by {
        if k < pos {
            assert(pairs@[k] == before[k]);
        } else if k > pos {
            assert(pairs@[k] == before[k - 1]);
        }
    }
}

/// `bindings` is the merge of `records` with the macOS defaults: in
/// strictly increasing hotkey-ID order, one binding for every ID that ends up
/// bound (see [`final_combo`]), with its combo and label, and nothing else.
pub open spec fn merged(records: Seq<(u32, Override)>, bindings: Seq<Binding>) -> bool {
    &&& forall|i: int, j: int|
        0 <= i < j < bindings.len() ==> (#[trigger] hotkey_id(bindings[i]))->0 < (
        #[trigger] hotkey_id(bindings[j]))->0
    &&& forall|i: int|
        0 <= i < bindings.len() ==> {
            let b = #[trigger] bindings[i];
            &&& hotkey_id(b) is Some
            &&& final_combo(records, hotkey_id(b)->0) == Some(b.combo)
            &&& b.label@ == label_text(hotkey_id(b)->0)
        }
    &&& forall|id: u32|
        #[trigger] final_combo(records, id) is Some ==> exists|i: int|
            0 <= i < bindings.len() && hotkey_id(#[trigger] bindings[i]) == Some(id)
}

/// Merge the user's override records with the macOS defaults: one binding
/// per hotkey ID that ends up bound, in increasing ID order. Disabled
/// shortcuts are left out; customized IDs without a known default are kept
/// with a generic label.
pub fn merge_with_defaults(records: &Vec<(u32, Override)>) -> (r: Vec<Binding>)
    ensures
        merged(records@, r@),
{
    let defaults = macos_defaults();
    let mut pairs: Vec<(u32, KeyCombo)> = Vec::new();
    let mut i: usize = 0;
    while i < defaults.len()
        invariant
            defaults@ == default_table(),
            i <= defaults.len(),
            strictly_sorted(pairs@),
            forall|k: int|
                0 <= k < pairs@.len() ==> final_combo(records@, (#[trigger] pairs@[k]).0) == Some(
                    pairs@[k].1,
                ),
            forall|j: int|
                0 <= j < i && (#[trigger] final_combo(records@, defaults@[j].0)) is Some
                    ==> exists|k: int| 0 <= k < pairs@.len() && pairs@[k].0 == defaults@[j].0,
        decreases defaults.len() - i,
    {
        let id = defaults[i].0;
        if let Some(c) = combo_for(records, &defaults, id) {
            let ghost before = pairs@;
            insert_sorted(&mut pairs, id, c);
            assert forall|j: int|
                0 <= j < i && (#[trigger] final_combo(records@, defaults@[j].0)) is Some
                    implies exists|k: int| 0 <= k < pairs@.len() && pairs@[k].0
                    == defaults@[j].0 by {
                let k0 = choose|k: int| 0 <= k < before.len() && before[k].0 == defaults@[j].0;
                assert(pairs@.contains(before[k0]));
            }
        }
        i = i + 1;
    }
    let mut i: usize = 0;
    while i < records.len()
        invariant
            defaults@ == default_table(),
            i <= records.len(),
            strictly_sorted(pairs@),
            forall|k: int|
                0 <= k < pairs@.len() ==> final_combo(records@, (#[trigger] pairs@[k]).0) == Some(
                    pairs@[k].1,
                ),
            forall|j: int|
                0 <= j < defaults@.len() && (#[trigger] final_combo(records@, defaults@[j].0)) is Some
                    ==> exists|k: int| 0 <= k < pairs@.len() && pairs@[k].0 == defaults@[j].0,
            forall|j: int|
                0 <= j < i && (#[trigger] final_combo(records@, records@[j].0)) is Some
                    ==> exists|k: int| 0 <= k < pairs@.len() && pairs@[k].0 == records@[j].0,
        decreases records.len() - i,
    {
        let id = records[i].0;
        if let Some(c) = combo_for(records, &defaults, id) {
            let ghost before = pairs@;
            insert_sorted(&mut pairs, id, c);
            assert forall|j: int|
                0 <= j < defaults@.len() && (#[trigger] final_combo(records@, defaults@[j].0)) is Some
                    implies exists|k: int| 0 <= k < pairs@.len() && pairs@[k].0
                    == defaults@[j].0 by {
                let k0 = choose|k: int| 0 <= k < before.len() && before[k].0 == defaults@[j].0;
                assert(pairs@.contains(before[k0]));
            }
            assert forall|j: int|
                0 <= j < i && (#[trigger] final_combo(records@, records@[j].0)) is Some
                    implies exists|k: int| 0 <= k < pairs@.len() && pairs@[k].0
                    == records@[j].0 by {
                let k0 = choose|k: int| 0 <= k < before.len() && before[k].0 == records@[j].0;
                assert(pairs@.contains(before[k0]));
            }
        }
        i = i + 1;
    }
    assert forall|id: u32| #[trigger] final_combo(records@, id) is Some implies exists|k: int|
        0 <= k < pairs@.len() && pairs@[k].0 == id by {
        if default_combo(id) is Some {
            lemma_table_combo_has_entry(default_table(), id);
            let j = choose|j: int| 0 <= j < default_table().len() && default_table()[j].0 == id;
            assert(final_combo(records@, defaults@[j].0) is Some);
        } else {
            lemma_last_override_has_record(records@, id);
            let j = choose|j: int| 0 <= j < records@.len() && records@[j].0 == id;
            assert(final_combo(records@, records@[j].0) is Some);
        }
    }
    let mut out: Vec<Binding> = Vec::new();
    let mut k: usize = 0;
    while k < pairs.len()
        invariant
            k <= pairs.len(),
            out@.len() == k,
            forall|m: int|
                0 <= m < k ==> hotkey_id(#[trigger] out@[m]) == Some(pairs@[m].0) && out@[m].combo
                    == pairs@[m].1 && out@[m].label@ == label_text(pairs@[m].0),
        decreases pairs.len() - k,
    {
        out.push(emit(pairs[k].0, pairs[k].1));
        k = k + 1;
    }
    assert forall|id: u32| #[trigger] final_combo(records@, id) is Some implies exists|i: int|
        0 <= i < out@.len() && hotkey_id(#[trigger] out@[i]) == Some(id) by {
        let m = choose|m: int| 0 <= m < pairs@.len() && pairs@[m].0 == id;
        assert(hotkey_id(out@[m]) == Some(id));
    }
    out
}

/// Scan the bytes of a bounded read of the symbolic hotkeys plist at `path`:
/// parse it, read its overrides and merge them with the macOS defaults.
pub fn scan_contents(path: &str, bytes: &[u8]) -> (r: Result<Vec<Binding>, ScanError>)
    ensures
        match read_root(bytes@) {
            Err(m) => r matches Err(e) && is_schema_error(e, path@, m),
            Ok(root) => match root_records(root) {
                Err(m) => r matches Err(e) && is_schema_error(e, path@, m),
                Ok(records) => r matches Ok(bs) && merged(records, bs@),
            },
        },
{
    let value = parse_value(bytes, path)?;
    let map = parse_overrides(path, &value)?;
    let r = merge_with_defaults(&map);
    proof {
        let records = root_records(value)->Ok_0;
        assert forall|id: u32|
            #![trigger final_combo(map@, id)]
            #![trigger final_combo(records, id)]
            final_combo(map@, id) == final_combo(records, id) by {
            lemma_override_map_lookup(map@, records, id);
        }
        assert(merged(records, r@));
    }
    Ok(r)
}

proof fn lemma_last_override_of_entry(map: Seq<(u32, Override)>, k: int)
    requires
        0 <= k < map.len(),
        forall|i: int, j: int| 0 <= i < j < map.len() ==> (#[trigger] map[i]).0 != (#[trigger] map[j]).0,
    ensures
        last_override(map, map[k].0) == Some(map[k].1),
    decreases map.len(),
{
    if k < map.len() - 1 {
        assert(map.last().0 != map[k].0);
        lemma_last_override_of_entry(map.drop_last(), k);
    }
}

proof fn lemma_last_override_absent(map: Seq<(u32, Override)>, id: u32)
    requires
        forall|k: int| 0 <= k < map.len() ==> (#[trigger] map[k]).0 != id,
    ensures
        last_override(map, id) is None,
    decreases map.len(),
{
    if map.len() > 0 {
        lemma_last_override_absent(map.drop_last(), id);
    }
}

/// A map of the last records gives, for every ID, the same override in
/// force as the records themselves.
proof fn lemma_override_map_lookup(map: Seq<(u32, Override)>, records: Seq<(u32, Override)>, id: u32)
    requires
        is_override_map(map, records),
    ensures
        last_override(map, id) == last_override(records, id),
{
    if exists|k: int| 0 <= k < map.len() && map[k].0 == id {
        let k = choose|k: int| 0 <= k < map.len() && map[k].0 == id;
        lemma_last_override_of_entry(map, k);
    } else {
        lemma_last_override_absent(map, id);
    }
}

/// The merge overlays the user's records on the defaults: a shortcut whose
/// last record disables it is never listed; one with no record, or whose
/// last record re-enables it without a combo, keeps its default combo when
/// it has one; one whose last record sets a combo is listed with that combo.
pub proof fn overrides_overlay_defaults(records: Seq<(u32, Override)>, bindings: Seq<Binding>, id: u32)
    requires
        merged(records, bindings),
    ensures
        last_override(records, id) == Some(Override::Disabled) ==> forall|i: int|
            0 <= i < bindings.len() ==> hotkey_id(#[trigger] bindings[i]) != Some(id),
        (last_override(records, id) is None || last_override(records, id) == Some(
            Override::EnabledWithDefault,
        )) && default_combo(id) is Some ==> exists|i: int|
            0 <= i < bindings.len() && hotkey_id(#[trigger] bindings[i]) == Some(id)
                && bindings[i].combo == default_combo(id)->0,
        last_override(records, id) matches Some(Override::Custom(c)) ==> exists|i: int|
            0 <= i < bindings.len() && hotkey_id(#[trigger] bindings[i]) == Some(id)
                && bindings[i].combo == c,
{
    if final_combo(records, id) is Some {
        let i = choose|i: int| 0 <= i < bindings.len() && hotkey_id(#[trigger] bindings[i]) == Some(id);
        assert(final_combo(records, hotkey_id(bindings[i])->0) == Some(bindings[i].combo));
    }
}

/// What an NSEvent modifier mask means, bit by bit (`AppKit/NSEvent.h`):
/// `1 << 17` (`NSEventModifierFlagShift`) holds Shift, `1 << 18`
/// (`NSEventModifierFlagControl`) Control, `1 << 19`
/// (`NSEventModifierFlagOption`) Option, `1 << 20`
/// (`NSEventModifierFlagCommand`) Command and `1 << 23`
/// (`NSEventModifierFlagFunction`) Fn. Each flag decides its own modifier:
/// setting it in any mask adds that modifier and changes nothing else.
pub proof fn nsevent_flags_decide_their_own_modifier(mask: u64)
    ensures
        spec_decode_modifiers(mask).shift <==> mask & 0x2_0000 != 0,
        spec_decode_modifiers(mask).ctrl <==> mask & 0x4_0000 != 0,
        spec_decode_modifiers(mask).opt <==> mask & 0x8_0000 != 0,
        spec_decode_modifiers(mask).cmd <==> mask & 0x10_0000 != 0,
        spec_decode_modifiers(mask).function <==> mask & 0x80_0000 != 0,
        spec_decode_modifiers(mask | 0x4_0000) == (Modifiers { ctrl: true, ..spec_decode_modifiers(mask) }),
        spec_decode_modifiers(mask | 0x8_0000) == (Modifiers { opt: true, ..spec_decode_modifiers(mask) }),
        spec_decode_modifiers(mask | 0x2_0000) == (Modifiers { shift: true, ..spec_decode_modifiers(mask) }),
        spec_decode_modifiers(mask | 0x10_0000) == (Modifiers { cmd: true, ..spec_decode_modifiers(mask) }),
        spec_decode_modifiers(mask | 0x80_0000) == (Modifiers { function: true, ..spec_decode_modifiers(mask) }),
        spec_decode_modifiers(0x4_0000) == (Modifiers { ctrl: true, ..Modifiers::spec_empty() }),
        spec_decode_modifiers(0x8_0000) == (Modifiers { opt: true, ..Modifiers::spec_empty() }),
{
    let a = 0x2_0000u64;
    let b = 0x4_0000u64;
    let c = 0x8_0000u64;
    let d = 0x10_0000u64;
    let e = 0x80_0000u64;
    assert((mask | b) & b != 0 && (mask | b) & a == mask & a && (mask | b) & c == mask & c && (mask | b) & d
        == mask & d && (mask | b) & e == mask & e) by (bit_vector)
        requires a == 0x2_0000u64, b == 0x4_0000u64, c == 0x8_0000u64, d == 0x10_0000u64, e == 0x80_0000u64;
    assert((mask | c) & c != 0 && (mask | c) & a == mask & a && (mask | c) & b == mask & b && (mask | c) & d
        == mask & d && (mask | c) & e == mask & e) by (bit_vector)
        requires a == 0x2_0000u64, b == 0x4_0000u64, c == 0x8_0000u64, d == 0x10_0000u64, e == 0x80_0000u64;
    assert((mask | a) & a != 0 && (mask | a) & b == mask & b && (mask | a) & c == mask & c && (mask | a) & d
        == mask & d && (mask | a) & e == mask & e) by (bit_vector)
        requires a == 0x2_0000u64, b == 0x4_0000u64, c == 0x8_0000u64, d == 0x10_0000u64, e == 0x80_0000u64;
    assert((mask | d) & d != 0 && (mask | d) & a == mask & a && (mask | d) & b == mask & b && (mask | d) & c
        == mask & c && (mask | d) & e == mask & e) by (bit_vector)
        requires a == 0x2_0000u64, b == 0x4_0000u64, c == 0x8_0000u64, d == 0x10_0000u64, e == 0x80_0000u64;
    assert((mask | e) & e != 0 && (mask | e) & a == mask & a && (mask | e) & b == mask & b && (mask | e) & c
        == mask & c && (mask | e) & d == mask & d) by (bit_vector)
        requires a == 0x2_0000u64, b == 0x4_0000u64, c == 0x8_0000u64, d == 0x10_0000u64, e == 0x80_0000u64;
    assert(b & b != 0 && b & a == 0 && b & c == 0 && b & d == 0 && b & e == 0) by (bit_vector)
        requires a == 0x2_0000u64, b == 0x4_0000u64, c == 0x8_0000u64, d == 0x10_0000u64, e == 0x80_0000u64;
    assert(c & c != 0 && c & a == 0 && c & b == 0 && c & d == 0 && c & e == 0) by (bit_vector)
        requires a == 0x2_0000u64, b == 0x4_0000u64, c == 0x8_0000u64, d == 0x10_0000u64, e == 0x80_0000u64;
}

/// How a symbolic hotkey's `(character code, virtual keycode)` pair decodes:
/// a keycode that names a layout-independent key wins whatever the
/// character code says (so Space is Space on every layout); otherwise a
/// printable ASCII character is the key, as for Desktop 1's `[49, 18, ..]`
/// (`'1'` with `kVK_ANSI_1`, a layout-dependent keycode); with the
/// character slot unset (65535) the raw keycode is reported.
pub proof fn keycodes_win_then_characters(char_code: i64, other_code: i64, vk: i64)
    requires
        0 <= vk <= 0xffff,
        vk != UNSET,
    ensures
        spec_vk_to_named(vk as u16) is Some ==> spec_decode_key(char_code, vk) == spec_decode_key(other_code, vk)
            && spec_decode_key(char_code, vk) == Key::Named(spec_vk_to_named(vk as u16)->0),
        spec_vk_to_named(vk as u16) is None && 0x20 <= char_code <= 0x7e ==> spec_decode_key(char_code, vk)
            == Key::Char(char_code as u32 as char),
        spec_vk_to_named(vk as u16) is None ==> spec_decode_key(UNSET, vk) == Key::Virtual(vk as u16),
        spec_decode_key(0x31, 0x31) == Key::Named(NamedKey::Space),
        spec_decode_key(49, 18) == Key::Char('1'),
{
}

} // verus!
