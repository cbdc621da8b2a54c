//! Making untrusted text safe to print to a terminal.
//!
//! Strings obtained from apps or preference files may carry terminal control
//! sequences or bidirectional-override characters. Human-readable output
//! escapes them; JSON output re-encodes the ones JSON permits raw.

use vstd::prelude::*;

use crate::keys::{spec_is_control, is_control};
use crate::text::chars_of;

verus! {

broadcast use vstd::string::group_string_axioms;

/// Whether `c` is a bidirectional formatting control: U+061C, U+200E,
/// U+200F, U+202A..=U+202E or U+2066..=U+2069.
pub open spec fn spec_is_bidi_control(c: char) -> bool {
    let v = c as u32;
    v == 0x061c || v == 0x200e || v == 0x200f || (0x202a <= v && v <= 0x202e) || (0x2066 <= v
        && v <= 0x2069)
}

/// Whether `c` is a bidirectional formatting control.
pub fn is_bidi_control(c: char) -> (b: bool)
    ensures
        b == spec_is_bidi_control(c),
{
    let v: u32 = c as u32;
    v == 0x061c || v == 0x200e || v == 0x200f || (0x202a <= v && v <= 0x202e) || (0x2066 <= v
        && v <= 0x2069)
}

/// The lowercase hexadecimal digit for a value below sixteen.
pub open spec fn hex_digit_char(d: nat) -> char {
    if d < 10 {
        (('0' as u32) + d) as char
    } else {
        (('a' as u32) + (d - 10)) as char
    }
}

/// The lowercase hexadecimal rendering of `n`, without leading zeros.
pub open spec fn hex(n: nat) -> Seq<char>
    decreases n,
{
    if n < 16 {
        seq![hex_digit_char(n)]
    } else {
        hex(n / 16).push(hex_digit_char(n % 16))
    }
}

/// `digits` padded on the left with zeros to at least `width` characters.
pub open spec fn zero_pad(digits: Seq<char>, width: nat) -> Seq<char> {
    if digits.len() >= width {
        digits
    } else {
        Seq::new((width - digits.len()) as nat, |i: int| '0') + digits
    }
}

/// Whether `c` is an ASCII control character (U+0000..=U+001F or U+007F).
pub open spec fn spec_is_ascii_control(c: char) -> bool {
    (c as u32) <= 0x1f || (c as u32) == 0x7f
}

/// How one character is rendered for a terminal: newline, carriage return
/// and tab as `\n`, `\r`, `\t`; other ASCII controls as `\xHH`; other
/// control and bidirectional formatting characters as `\u{H..}`; everything
/// else as itself.
pub open spec fn terminal_escape(c: char) -> Seq<char> {
    if c == '\n' {
        seq!['\\', 'n']
    } else if c == '\r' {
        seq!['\\', 'r']
    } else if c == '\t' {
        seq!['\\', 't']
    } else if spec_is_ascii_control(c) {
        seq!['\\', 'x'] + zero_pad(hex(c as u32 as nat), 2)
    } else if spec_is_control(c) || spec_is_bidi_control(c) {
        seq!['\\', 'u', '{'] + hex(c as u32 as nat) + seq!['}']
    } else {
        seq![c]
    }
}

/// How a character sequence is rendered for a terminal.
pub open spec fn terminal_text(s: Seq<char>) -> Seq<char>
    decreases s.len(),
{
    if s.len() == 0 {
        seq![]
    } else {
        terminal_text(s.drop_last()) + terminal_escape(s.last())
    }
}

/// How one character of JSON text is rendered for a terminal: non-ASCII
/// control characters and bidirectional formatting characters as the JSON
/// escape `\uHHHH`, everything else as itself.
pub open spec fn json_escape(c: char) -> Seq<char> {
    if (!((c as u32) < 0x80) && spec_is_control(c)) || spec_is_bidi_control(c) {
        seq!['\\', 'u'] + zero_pad(hex(c as u32 as nat), 4)
    } else {
        seq![c]
    }
}

/// How JSON text is rendered for a terminal.
pub open spec fn json_text(s: Seq<char>) -> Seq<char>
    decreases s.len(),
{
    if s.len() == 0 {
        seq![]
    } else {
        json_text(s.drop_last()) + json_escape(s.last())
    }
}

proof fn lemma_hex_digit_char(d: nat)
    requires
        d < 16,
    ensures
        !spec_is_control(hex_digit_char(d)),
        !spec_is_bidi_control(hex_digit_char(d)),
        (hex_digit_char(d) as u32) < 0x80,
{
}

proof fn lemma_hex_is_safe(n: nat)
    ensures
        forall|i: int|
            0 <= i < hex(n).len() ==> !spec_is_control(#[trigger] hex(n)[i])
                && !spec_is_bidi_control(hex(n)[i]) && (hex(n)[i] as u32) < 0x80,
        hex(n).len() >= 1,
    decreases n,
{
    if n >= 16 {
        lemma_hex_is_safe(n / 16);
        lemma_hex_digit_char(n % 16);
        assert forall|i: int| 0 <= i < hex(n).len() implies !spec_is_control(#[trigger] hex(n)[i])
            && !spec_is_bidi_control(hex(n)[i]) && (hex(n)[i] as u32) < 0x80 by {
            if i < hex(n / 16).len() {
                assert(hex(n)[i] == hex(n / 16)[i]);
            }
        }
    } else {
        lemma_hex_digit_char(n);
    }
}

proof fn lemma_pad_is_safe(digits: Seq<char>, width: nat)
    requires
        forall|i: int|
            0 <= i < digits.len() ==> !spec_is_control(#[trigger] digits[i])
                && !spec_is_bidi_control(digits[i]) && (digits[i] as u32) < 0x80,
    ensures
        forall|i: int|
            0 <= i < zero_pad(digits, width).len() ==> !spec_is_control(
                #[trigger] zero_pad(digits, width)[i],
            ) && !spec_is_bidi_control(zero_pad(digits, width)[i]) && (zero_pad(digits, width)[i] as u32)
                < 0x80,
{
    if digits.len() < width {
        let pad = Seq::new((width - digits.len()) as nat, |i: int| '0');
        assert forall|i: int| 0 <= i < zero_pad(digits, width).len() implies !spec_is_control(
            #[trigger] zero_pad(digits, width)[i],
        ) && !spec_is_bidi_control(zero_pad(digits, width)[i]) && (zero_pad(digits, width)[i] as u32)
            < 0x80 by {
            if i >= pad.len() {
                assert(zero_pad(digits, width)[i] == digits[i - pad.len()]);
            }
        }
    }
}

/// Append the lowercase hexadecimal rendering of `n`, padded with zeros to
/// at least `width` characters.
fn push_hex(out: &mut String, n: u32, width: usize)
    requires
        width <= 8,
    ensures
        final(out)@ == old(out)@ + zero_pad(hex(n as nat), width as nat),
{
    let mut q: u32 = n;
    let mut digits: Vec<char> = Vec::new();
    while q >= 16
        invariant
            hex(n as nat) == hex(q as nat) + digits@,
        decreases q,
    {
        let d: u32 = q % 16;
        let c: char = if d < 10 {
            char_of_digit(d)
        } else {
            char_of_letter(d)
        };
        assert(hex(q as nat) == hex((q / 16) as nat).push(c));
        assert(hex((q / 16) as nat).push(c) + digits@ =~= hex((q / 16) as nat) + (seq![c]
            + digits@));
        let ghost before = digits@;
        digits.insert(0, c);
        assert(digits@ =~= seq![c] + before);
        q = q / 16;
    }
    let first: char = if q < 10 {
        char_of_digit(q)
    } else {
        char_of_letter(q)
    };
    let ghost all = seq![first] + digits@;
    assert(all =~= hex(n as nat));
    let ghost start = out@;
    if digits.len() < width {
        let len: usize = digits.len() + 1;
        let mut z: usize = len;
        assert(Seq::new(0nat, |i: int| '0') =~= Seq::<char>::empty());
        while z < width
            invariant
                len <= z,
                len <= width ==> z <= width,
                len > width ==> z == len,
                out@ == start + Seq::new((z - len) as nat, |i: int| '0'),
            decreases width - z,
        {
            out.push('0');
            assert(Seq::new((z - len) as nat, |i: int| '0').push('0') =~= Seq::new(
                (z + 1 - len) as nat,
                |i: int| '0',
            ));
            z = z + 1;
        }
    }
    let ghost padded = out@;
    out.push(first);
    let mut i: usize = 0;
    while i < digits.len()
        invariant
            i <= digits.len(),
            out@ == padded + seq![first] + digits@.take(i as int),
        decreases digits.len() - i,
    {
        out.push(digits[i]);
        assert(digits@.take(i as int).push(digits@[i as int]) =~= digits@.take(i + 1));
        i = i + 1;
    }
    assert(digits@.take(digits.len() as int) =~= digits@);
    assert(out@ =~= old(out)@ + zero_pad(hex(n as nat), width as nat));
}

fn char_of_digit(d: u32) -> (c: char)
    requires
        d < 10,
    ensures
        c == hex_digit_char(d as nat),
{
    if d == 0 { '0' }
    else if d == 1 { '1' }
    else if d == 2 { '2' }
    else if d == 3 { '3' }
    else if d == 4 { '4' }
    else if d == 5 { '5' }
    else if d == 6 { '6' }
    else if d == 7 { '7' }
    else if d == 8 { '8' }
    else { '9' }
}

fn char_of_letter(d: u32) -> (c: char)
    requires
        10 <= d < 16,
    ensures
        c == hex_digit_char(d as nat),
{
    if d == 10 { 'a' }
    else if d == 11 { 'b' }
    else if d == 12 { 'c' }
    else if d == 13 { 'd' }
    else if d == 14 { 'e' }
    else { 'f' }
}

/// Render text for a terminal: control sequences and bidirectional
/// formatting characters are escaped so that they cannot reach the terminal.
pub fn escape_terminal_text(value: &str) -> (r: String)
    ensures
        r@ == terminal_text(value@),
{
    let chars = chars_of(value);
    let mut out = String::new();
    let mut i: usize = 0;
    assert(value@.take(0) =~= Seq::<char>::empty());
    while i < chars.len()
        invariant
            chars@ == value@,
            i <= chars.len(),
            out@ == terminal_text(value@.take(i as int)),
        decreases chars.len() - i,
    {
        let c = chars[i];
        assert(value@.take(i + 1).drop_last() =~= value@.take(i as int));
        assert(value@.take(i + 1).last() == c);
        let ghost before = out@;
        let v: u32 = c as u32;
        if c == '\n' {
            out.push('\\');
            out.push('n');
        } else if c == '\r' {
            out.push('\\');
            out.push('r');
        } else if c == '\t' {
            out.push('\\');
            out.push('t');
        } else if v <= 0x1f || v == 0x7f {
            out.push('\\');
            out.push('x');
            push_hex(&mut out, v, 2);
        } else if is_control(c) || is_bidi_control(c) {
            out.push('\\');
            out.push('u');
            out.push('{');
            push_hex(&mut out, v, 0);
            out.push('}');
            assert(zero_pad(hex(v as nat), 0) == hex(v as nat));
        } else {
            out.push(c);
        }
        assert(out@ =~= before + terminal_escape(c));
        i = i + 1;
    }
    assert(value@.take(chars.len() as int) =~= value@);
    out
}

/// Re-encode the non-ASCII control characters and bidirectional formatting
/// characters of JSON text as JSON `\uXXXX` escapes. JSON permits them raw,
/// but they would reach a terminal; the escaped text denotes the same JSON
/// value.
pub fn escape_json_terminal_controls(json: &str) -> (r: String)
    ensures
        r@ == json_text(json@),
{
    let chars = chars_of(json);
    let mut out = String::new();
    let mut i: usize = 0;
    assert(json@.take(0) =~= Seq::<char>::empty());
    while i < chars.len()
        invariant
            chars@ == json@,
            i <= chars.len(),
            out@ == json_text(json@.take(i as int)),
        decreases chars.len() - i,
    {
        let c = chars[i];
        assert(json@.take(i + 1).drop_last() =~= json@.take(i as int));
        assert(json@.take(i + 1).last() == c);
        let ghost before = out@;
        let v: u32 = c as u32;
        if (!(v < 0x80) && is_control(c)) || is_bidi_control(c) {
            out.push('\\');
            out.push('u');
            push_hex(&mut out, v, 4);
        } else {
            out.push(c);
        }
        assert(out@ =~= before + json_escape(c));
        i = i + 1;
    }
    assert(json@.take(chars.len() as int) =~= json@);
    out
}

/// No character of rendered terminal text is a control character or a
/// bidirectional formatting character.
pub proof fn terminal_text_is_inert(s: Seq<char>)
    ensures
        forall|i: int|
            0 <= i < terminal_text(s).len() ==> !spec_is_control(#[trigger] terminal_text(s)[i])
                && !spec_is_bidi_control(terminal_text(s)[i]),
    decreases s.len(),
{
    if s.len() > 0 {
        terminal_text_is_inert(s.drop_last());
        let c = s.last();
        let prev = terminal_text(s.drop_last());
        let e = terminal_escape(c);
        lemma_hex_is_safe(c as u32 as nat);
        lemma_pad_is_safe(hex(c as u32 as nat), 2);
        assert forall|i: int| 0 <= i < e.len() implies !spec_is_control(#[trigger] e[i])
            && !spec_is_bidi_control(e[i]) by {
            if spec_is_ascii_control(c) && c != '\n' && c != '\r' && c != '\t' {
                if i >= 2 {
                    assert(e[i] == zero_pad(hex(c as u32 as nat), 2)[i - 2]);
                }
            } else if !(c == '\n' || c == '\r' || c == '\t') && (spec_is_control(c)
                || spec_is_bidi_control(c)) {
                if 3 <= i < 3 + hex(c as u32 as nat).len() {
                    assert(e[i] == hex(c as u32 as nat)[i - 3]);
                }
            }
        }
        assert forall|i: int| 0 <= i < terminal_text(s).len() implies !spec_is_control(
            #[trigger] terminal_text(s)[i],
        ) && !spec_is_bidi_control(terminal_text(s)[i]) by {
            if i < prev.len() {
                assert(terminal_text(s)[i] == prev[i]);
            } else {
                assert(terminal_text(s)[i] == e[i - prev.len()]);
            }
        }
    }
}

/// Text without control characters or bidirectional formatting characters
/// is rendered unchanged.
pub proof fn terminal_text_keeps_plain_text(s: Seq<char>)
    requires
        forall|i: int|
            0 <= i < s.len() ==> !spec_is_control(#[trigger] s[i]) && !spec_is_bidi_control(s[i]),
    ensures
        terminal_text(s) == s,
    decreases s.len(),
{
    if s.len() > 0 {
        terminal_text_keeps_plain_text(s.drop_last());
        assert(s.drop_last().push(s.last()) =~= s);
        assert(!spec_is_control(s[s.len() - 1]));
    }
}

/// No character of rendered JSON text is a non-ASCII control character or a
/// bidirectional formatting character.
pub proof fn json_text_is_inert(s: Seq<char>)
    ensures
        forall|i: int|
            0 <= i < json_text(s).len() ==> !(!((#[trigger] json_text(s)[i] as u32) < 0x80)
                && spec_is_control(json_text(s)[i])) && !spec_is_bidi_control(json_text(s)[i]),
    decreases s.len(),
{
    if s.len() > 0 {
        json_text_is_inert(s.drop_last());
        let c = s.last();
        let prev = json_text(s.drop_last());
        let e = json_escape(c);
        lemma_hex_is_safe(c as u32 as nat);
        lemma_pad_is_safe(hex(c as u32 as nat), 4);
        assert forall|i: int| 0 <= i < e.len() implies !(!((#[trigger] e[i] as u32) < 0x80)
            && spec_is_control(e[i])) && !spec_is_bidi_control(e[i]) by {
            if e.len() > 1 && i >= 2 {
                assert(e[i] == zero_pad(hex(c as u32 as nat), 4)[i - 2]);
            }
        }
        assert forall|i: int| 0 <= i < json_text(s).len() implies !(!((
        #[trigger] json_text(s)[i] as u32) < 0x80) && spec_is_control(json_text(s)[i]))
            && !spec_is_bidi_control(json_text(s)[i]) by {
            if i < prev.len() {
                assert(json_text(s)[i] == prev[i]);
            } else {
                assert(json_text(s)[i] == e[i - prev.len()]);
            }
        }
    }
}

/// JSON text without non-ASCII control characters or bidirectional
/// formatting characters is rendered unchanged.
pub proof fn json_text_keeps_plain_text(s: Seq<char>)
    requires
        forall|i: int|
            0 <= i < s.len() ==> !(!((#[trigger] s[i] as u32) < 0x80) && spec_is_control(s[i]))
                && !spec_is_bidi_control(s[i]),
    ensures
        json_text(s) == s,
    decreases s.len(),
{
    if s.len() > 0 {
        json_text_keeps_plain_text(s.drop_last());
        assert(s.drop_last().push(s.last()) =~= s);
        let c = s[s.len() - 1];
        assert(!(!((c as u32) < 0x80) && spec_is_control(c)));
    }
}

} // verus!
