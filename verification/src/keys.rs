//! The key model: modifier sets, keys and key combinations.

use vstd::prelude::*;

verus! {

/// A set of held modifier keys.
#[derive(Clone, Copy, Debug, PartialEq, Eq, Hash, Structural)]
pub struct Modifiers {
    pub cmd: bool,
    pub opt: bool,
    pub ctrl: bool,
    pub shift: bool,
    pub function: bool,
}

impl Modifiers {
    /// The empty modifier set.
    pub fn empty() -> (m: Modifiers)
        ensures
            m == Modifiers::spec_empty(),
    {
        Modifiers { cmd: false, opt: false, ctrl: false, shift: false, function: false }
    }

    pub open spec fn spec_empty() -> Modifiers {
        Modifiers { cmd: false, opt: false, ctrl: false, shift: false, function: false }
    }

    /// Command alone.
    pub fn cmd() -> (m: Modifiers)
        ensures
            m == (Modifiers { cmd: true, ..Modifiers::spec_empty() }),
    {
        Modifiers { cmd: true, opt: false, ctrl: false, shift: false, function: false }
    }

    /// Option alone.
    pub fn opt() -> (m: Modifiers)
        ensures
            m == (Modifiers { opt: true, ..Modifiers::spec_empty() }),
    {
        Modifiers { cmd: false, opt: true, ctrl: false, shift: false, function: false }
    }

    /// Control alone.
    pub fn ctrl() -> (m: Modifiers)
        ensures
            m == (Modifiers { ctrl: true, ..Modifiers::spec_empty() }),
    {
        Modifiers { cmd: false, opt: false, ctrl: true, shift: false, function: false }
    }

    /// Shift alone.
    pub fn shift() -> (m: Modifiers)
        ensures
            m == (Modifiers { shift: true, ..Modifiers::spec_empty() }),
    {
        Modifiers { cmd: false, opt: false, ctrl: false, shift: true, function: false }
    }

    /// Function (globe) alone.
    pub fn function() -> (m: Modifiers)
        ensures
            m == (Modifiers { function: true, ..Modifiers::spec_empty() }),
    {
        Modifiers { cmd: false, opt: false, ctrl: false, shift: false, function: true }
    }

    pub open spec fn spec_union(self, other: Modifiers) -> Modifiers {
        Modifiers {
            cmd: self.cmd || other.cmd,
            opt: self.opt || other.opt,
            ctrl: self.ctrl || other.ctrl,
            shift: self.shift || other.shift,
            function: self.function || other.function,
        }
    }

    /// Every modifier held in either set.
    pub fn union(self, other: Modifiers) -> (m: Modifiers)
        ensures
            m == self.spec_union(other),
    {
        Modifiers {
            cmd: self.cmd || other.cmd,
            opt: self.opt || other.opt,
            ctrl: self.ctrl || other.ctrl,
            shift: self.shift || other.shift,
            function: self.function || other.function,
        }
    }

    /// Whether no modifier is held.
    pub fn is_empty(&self) -> (b: bool)
        ensures
            b == (*self == Modifiers::spec_empty()),
    {
        !self.cmd && !self.opt && !self.ctrl && !self.shift && !self.function
    }
}

/// Keys that have a layout-independent name.
#[derive(Clone, Copy, Debug, PartialEq, Eq, Hash, Structural)]
pub enum NamedKey {
    Up,
    Down,
    Left,
    Right,
    Space,
    Return,
    Tab,
    Escape,
    Delete,
    ForwardDelete,
    Home,
    End,
    PageUp,
    PageDown,
    /// Function key `F<n>`.
    F(u8),
}

/// A single key: a printable character, a named key, or a raw macOS virtual
/// keycode for which no name is known.
#[derive(Clone, Copy, Debug, PartialEq, Eq, Hash, Structural)]
pub enum Key {
    Char(char),
    Named(NamedKey),
    Virtual(u16),
}

/// A modifier set together with the key pressed while holding it.
#[derive(Clone, Copy, Debug, PartialEq, Eq, Hash, Structural)]
pub struct KeyCombo {
    pub modifiers: Modifiers,
    pub key: Key,
}

/// The key that a macOS virtual keycode (`kVK_*` in `HIToolbox/Events.h`)
/// denotes, for the keycodes that have a layout-independent name.
pub open spec fn spec_vk_to_named(vk: u16) -> Option<NamedKey> {
    if vk == 0x7E { Some(NamedKey::Up) }
    else if vk == 0x7D { Some(NamedKey::Down) }
    else if vk == 0x7B { Some(NamedKey::Left) }
    else if vk == 0x7C { Some(NamedKey::Right) }
    else if vk == 0x31 { Some(NamedKey::Space) }
    else if vk == 0x24 { Some(NamedKey::Return) }
    else if vk == 0x30 { Some(NamedKey::Tab) }
    else if vk == 0x35 { Some(NamedKey::Escape) }
    else if vk == 0x33 { Some(NamedKey::Delete) }
    else if vk == 0x75 { Some(NamedKey::ForwardDelete) }
    else if vk == 0x73 { Some(NamedKey::Home) }
    else if vk == 0x77 { Some(NamedKey::End) }
    else if vk == 0x74 { Some(NamedKey::PageUp) }
    else if vk == 0x79 { Some(NamedKey::PageDown) }
    else if vk == 0x7A { Some(NamedKey::F(1)) }
    else if vk == 0x78 { Some(NamedKey::F(2)) }
    else if vk == 0x63 { Some(NamedKey::F(3)) }
    else if vk == 0x76 { Some(NamedKey::F(4)) }
    else if vk == 0x60 { Some(NamedKey::F(5)) }
    else if vk == 0x61 { Some(NamedKey::F(6)) }
    else if vk == 0x62 { Some(NamedKey::F(7)) }
    else if vk == 0x64 { Some(NamedKey::F(8)) }
    else if vk == 0x65 { Some(NamedKey::F(9)) }
    else if vk == 0x6D { Some(NamedKey::F(10)) }
    else if vk == 0x67 { Some(NamedKey::F(11)) }
    else if vk == 0x6F { Some(NamedKey::F(12)) }
    else { None }
}

/// Look up the named key of a macOS virtual keycode.
pub fn vk_to_named(vk: u16) -> (r: Option<NamedKey>)
    ensures
        r == spec_vk_to_named(vk),
{
    match vk {
        0x7E => Some(NamedKey::Up),
        0x7D => Some(NamedKey::Down),
        0x7B => Some(NamedKey::Left),
        0x7C => Some(NamedKey::Right),
        0x31 => Some(NamedKey::Space),
        0x24 => Some(NamedKey::Return),
        0x30 => Some(NamedKey::Tab),
        0x35 => Some(NamedKey::Escape),
        0x33 => Some(NamedKey::Delete),
        0x75 => Some(NamedKey::ForwardDelete),
        0x73 => Some(NamedKey::Home),
        0x77 => Some(NamedKey::End),
        0x74 => Some(NamedKey::PageUp),
        0x79 => Some(NamedKey::PageDown),
        0x7A => Some(NamedKey::F(1)),
        0x78 => Some(NamedKey::F(2)),
        0x63 => Some(NamedKey::F(3)),
        0x76 => Some(NamedKey::F(4)),
        0x60 => Some(NamedKey::F(5)),
        0x61 => Some(NamedKey::F(6)),
        0x62 => Some(NamedKey::F(7)),
        0x64 => Some(NamedKey::F(8)),
        0x65 => Some(NamedKey::F(9)),
        0x6D => Some(NamedKey::F(10)),
        0x67 => Some(NamedKey::F(11)),
        0x6F => Some(NamedKey::F(12)),
        _ => None,
    }
}

/// A Unicode control character: general category `Cc`, which is exactly
/// U+0000..=U+001F and U+007F..=U+009F.
pub open spec fn spec_is_control(c: char) -> bool {
    (c as u32) <= 0x1f || (0x7f <= (c as u32) && (c as u32) <= 0x9f)
}

/// Whether `c` is a Unicode control character (category `Cc`).
pub fn is_control(c: char) -> (b: bool)
    ensures
        b == spec_is_control(c),
{
    let v: u32 = c as u32;
    v <= 0x1f || (0x7f <= v && v <= 0x9f)
}

/// The key that a menu key-equivalent character stands for. The characters
/// AppKit uses for keys without a printable glyph (carriage return, tab,
/// escape, backspace/delete, the space bar and the private-use function-key
/// characters `NSUpArrowFunctionKey` .. `NSF12FunctionKey`) map to named
/// keys; ASCII capital letters stand for their lowercase letter (menus
/// report key equivalents in either case); every other character is itself.
pub open spec fn spec_key_from_char(c: char) -> Key {
    let v = c as u32;
    if v == 0x0d || v == 0x03 { Key::Named(NamedKey::Return) }
    else if v == 0x09 { Key::Named(NamedKey::Tab) }
    else if v == 0x1b { Key::Named(NamedKey::Escape) }
    else if v == 0x08 || v == 0x7f { Key::Named(NamedKey::Delete) }
    else if v == 0x20 { Key::Named(NamedKey::Space) }
    else if v == 0xF700 { Key::Named(NamedKey::Up) }
    else if v == 0xF701 { Key::Named(NamedKey::Down) }
    else if v == 0xF702 { Key::Named(NamedKey::Left) }
    else if v == 0xF703 { Key::Named(NamedKey::Right) }
    else if 0xF704 <= v && v <= 0xF70F { Key::Named(NamedKey::F((v - 0xF703) as u8)) }
    else if v == 0xF728 { Key::Named(NamedKey::ForwardDelete) }
    else if v == 0xF729 { Key::Named(NamedKey::Home) }
    else if v == 0xF72B { Key::Named(NamedKey::End) }
    else if v == 0xF72C { Key::Named(NamedKey::PageUp) }
    else if v == 0xF72D { Key::Named(NamedKey::PageDown) }
    else if 0x41 <= v && v <= 0x5A { Key::Char((v + 0x20) as char) }
    else { Key::Char(c) }
}

/// The lowercase form of an ASCII capital letter.
fn ascii_lower(c: char) -> (r: char)
    requires
        0x41 <= (c as u32) <= 0x5A,
    ensures
        r == ((c as u32) + 0x20) as char,
{
    let v: u32 = c as u32;
    if v == 0x41 { 'a' } else if v == 0x42 { 'b' } else if v == 0x43 { 'c' }
    else if v == 0x44 { 'd' } else if v == 0x45 { 'e' } else if v == 0x46 { 'f' }
    else if v == 0x47 { 'g' } else if v == 0x48 { 'h' } else if v == 0x49 { 'i' }
    else if v == 0x4A { 'j' } else if v == 0x4B { 'k' } else if v == 0x4C { 'l' }
    else if v == 0x4D { 'm' } else if v == 0x4E { 'n' } else if v == 0x4F { 'o' }
    else if v == 0x50 { 'p' } else if v == 0x51 { 'q' } else if v == 0x52 { 'r' }
    else if v == 0x53 { 's' } else if v == 0x54 { 't' } else if v == 0x55 { 'u' }
    else if v == 0x56 { 'v' } else if v == 0x57 { 'w' } else if v == 0x58 { 'x' }
    else if v == 0x59 { 'y' } else { 'z' }
}

impl Key {
    /// The key a menu key-equivalent character stands for.
    pub fn from_char(c: char) -> (k: Key)
        ensures
            k == spec_key_from_char(c),
    {
        let v: u32 = c as u32;
        if v == 0x0d || v == 0x03 {
            Key::Named(NamedKey::Return)
        } else if v == 0x09 {
            Key::Named(NamedKey::Tab)
        } else if v == 0x1b {
            Key::Named(NamedKey::Escape)
        } else if v == 0x08 || v == 0x7f {
            Key::Named(NamedKey::Delete)
        } else if v == 0x20 {
            Key::Named(NamedKey::Space)
        } else if v == 0xF700 {
            Key::Named(NamedKey::Up)
        } else if v == 0xF701 {
            Key::Named(NamedKey::Down)
        } else if v == 0xF702 {
            Key::Named(NamedKey::Left)
        } else if v == 0xF703 {
            Key::Named(NamedKey::Right)
        } else if 0xF704 <= v && v <= 0xF70F {
            Key::Named(NamedKey::F((v - 0xF703) as u8))
        } else if v == 0xF728 {
            Key::Named(NamedKey::ForwardDelete)
        } else if v == 0xF729 {
            Key::Named(NamedKey::Home)
        } else if v == 0xF72B {
            Key::Named(NamedKey::End)
        } else if v == 0xF72C {
            Key::Named(NamedKey::PageUp)
        } else if v == 0xF72D {
            Key::Named(NamedKey::PageDown)
        } else if 0x41 <= v && v <= 0x5A {
            Key::Char(ascii_lower(c))
        } else {
            Key::Char(c)
        }
    }
}

/// The key a pressed virtual keycode denotes: its named key, or the raw
/// keycode.
pub open spec fn spec_key_from_keycode(vk: u16) -> Key {
    match spec_vk_to_named(vk) {
        Some(n) => Key::Named(n),
        None => Key::Virtual(vk),
    }
}

/// The key a pressed virtual keycode denotes.
pub fn key_from_keycode(vk: u16) -> (k: Key)
    ensures
        k == spec_key_from_keycode(vk),
{
    match vk_to_named(vk) {
        Some(n) => Key::Named(n),
        None => Key::Virtual(vk),
    }
}

/// AppKit's function-key characters (`NSUpArrowFunctionKey` = U+F700,
/// `NSDownArrowFunctionKey` = U+F701, `NSLeftArrowFunctionKey` = U+F702,
/// `NSRightArrowFunctionKey` = U+F703, `NSF1FunctionKey` = U+F704 up to
/// `NSF12FunctionKey` = U+F70F, `NSDeleteFunctionKey` = U+F728,
/// `NSHomeFunctionKey` = U+F729, `NSEndFunctionKey` = U+F72B,
/// `NSPageUpFunctionKey` = U+F72C, `NSPageDownFunctionKey` = U+F72D) stand for
/// the keys they are named after: the same keys as the virtual keycodes of
/// those keys (`kVK_UpArrow` = 0x7E, `kVK_DownArrow` = 0x7D, `kVK_LeftArrow` =
/// 0x7B, `kVK_RightArrow` = 0x7C, `kVK_F1` = 0x7A, `kVK_F12` = 0x6F,
/// `kVK_ForwardDelete` = 0x75, `kVK_Home` = 0x73, `kVK_End` = 0x77,
/// `kVK_PageUp` = 0x74, `kVK_PageDown` = 0x79), and function key F`n` for
/// U+F703 + `n`.
pub proof fn appkit_function_characters_name_their_keys(n: u32)
    requires
        1 <= n <= 12,
    ensures
        spec_key_from_char('\u{F700}') == Key::Named(NamedKey::Up),
        spec_key_from_char('\u{F701}') == Key::Named(NamedKey::Down),
        spec_key_from_char('\u{F702}') == Key::Named(NamedKey::Left),
        spec_key_from_char('\u{F703}') == Key::Named(NamedKey::Right),
        spec_key_from_char('\u{F700}') == Key::Named(spec_vk_to_named(0x7E)->0),
        spec_key_from_char('\u{F701}') == Key::Named(spec_vk_to_named(0x7D)->0),
        spec_key_from_char('\u{F702}') == Key::Named(spec_vk_to_named(0x7B)->0),
        spec_key_from_char('\u{F703}') == Key::Named(spec_vk_to_named(0x7C)->0),
        spec_key_from_char('\u{F704}') == Key::Named(spec_vk_to_named(0x7A)->0),
        spec_key_from_char('\u{F70F}') == Key::Named(spec_vk_to_named(0x6F)->0),
        spec_key_from_char('\u{F728}') == Key::Named(spec_vk_to_named(0x75)->0),
        spec_key_from_char('\u{F729}') == Key::Named(spec_vk_to_named(0x73)->0),
        spec_key_from_char('\u{F72B}') == Key::Named(spec_vk_to_named(0x77)->0),
        spec_key_from_char('\u{F72C}') == Key::Named(spec_vk_to_named(0x74)->0),
        spec_key_from_char('\u{F72D}') == Key::Named(spec_vk_to_named(0x79)->0),
        spec_key_from_char((0xF703 + n) as char) == Key::Named(NamedKey::F(n as u8)),
{
}

/// The layout-independent virtual keycodes of `HIToolbox/Events.h` name
/// their keys: `kVK_Return` = 0x24, `kVK_Tab` = 0x30, `kVK_Space` = 0x31,
/// `kVK_Delete` = 0x33, `kVK_Escape` = 0x35, `kVK_F1` .. `kVK_F12` = 0x7A,
/// 0x78, 0x63, 0x76, 0x60, 0x61, 0x62, 0x64, 0x65, 0x6D, 0x67, 0x6F,
/// `kVK_Home` = 0x73, `kVK_PageUp` = 0x74, `kVK_ForwardDelete` = 0x75,
/// `kVK_End` = 0x77, `kVK_PageDown` = 0x79, `kVK_LeftArrow` = 0x7B,
/// `kVK_RightArrow` = 0x7C, `kVK_DownArrow` = 0x7D, `kVK_UpArrow` = 0x7E;
/// a layout-dependent keycode such as `kVK_ANSI_A` = 0x00 names none.
pub proof fn virtual_keycodes_name_their_keys()
    ensures
        spec_vk_to_named(0x24) == Some(NamedKey::Return),
        spec_vk_to_named(0x30) == Some(NamedKey::Tab),
        spec_vk_to_named(0x31) == Some(NamedKey::Space),
        spec_vk_to_named(0x33) == Some(NamedKey::Delete),
        spec_vk_to_named(0x35) == Some(NamedKey::Escape),
        spec_vk_to_named(0x7A) == Some(NamedKey::F(1)),
        spec_vk_to_named(0x78) == Some(NamedKey::F(2)),
        spec_vk_to_named(0x63) == Some(NamedKey::F(3)),
        spec_vk_to_named(0x76) == Some(NamedKey::F(4)),
        spec_vk_to_named(0x60) == Some(NamedKey::F(5)),
        spec_vk_to_named(0x61) == Some(NamedKey::F(6)),
        spec_vk_to_named(0x62) == Some(NamedKey::F(7)),
        spec_vk_to_named(0x64) == Some(NamedKey::F(8)),
        spec_vk_to_named(0x65) == Some(NamedKey::F(9)),
        spec_vk_to_named(0x6D) == Some(NamedKey::F(10)),
        spec_vk_to_named(0x67) == Some(NamedKey::F(11)),
        spec_vk_to_named(0x6F) == Some(NamedKey::F(12)),
        spec_vk_to_named(0x73) == Some(NamedKey::Home),
        spec_vk_to_named(0x74) == Some(NamedKey::PageUp),
        spec_vk_to_named(0x75) == Some(NamedKey::ForwardDelete),
        spec_vk_to_named(0x77) == Some(NamedKey::End),
        spec_vk_to_named(0x79) == Some(NamedKey::PageDown),
        spec_vk_to_named(0x7B) == Some(NamedKey::Left),
        spec_vk_to_named(0x7C) == Some(NamedKey::Right),
        spec_vk_to_named(0x7D) == Some(NamedKey::Down),
        spec_vk_to_named(0x7E) == Some(NamedKey::Up),
        spec_vk_to_named(0x00) is None,
{
}

/// A key-equivalent character for a key without a glyph stands for the same
/// key as that key's virtual keycode: carriage return (and Enter, U+0003)
/// for Return, tab for Tab, escape for Escape, backspace and delete
/// (U+0008, U+007F) for Delete, space for Space. An ASCII capital letter
/// stands for the same key as its lowercase letter, which stands for
/// itself.
pub proof fn control_characters_and_letters_name_their_keys(c: char)
    requires
        'a' <= c <= 'z',
    ensures
        spec_key_from_char('\r') == Key::Named(spec_vk_to_named(0x24)->0),
        spec_key_from_char('\u{3}') == Key::Named(spec_vk_to_named(0x24)->0),
        spec_key_from_char('\t') == Key::Named(spec_vk_to_named(0x30)->0),
        spec_key_from_char('\u{1b}') == Key::Named(spec_vk_to_named(0x35)->0),
        spec_key_from_char('\u{8}') == Key::Named(spec_vk_to_named(0x33)->0),
        spec_key_from_char('\u{7f}') == Key::Named(spec_vk_to_named(0x33)->0),
        spec_key_from_char(' ') == Key::Named(spec_vk_to_named(0x31)->0),
        spec_key_from_char(c) == Key::Char(c),
        spec_key_from_char(((c as u32) - 32) as char) == Key::Char(c),
{
}

} // verus!
