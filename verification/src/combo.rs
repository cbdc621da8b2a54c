//! The text form of key combinations: rendering (`shift+cmd+5`), parsing,
//! and the single-token filters of `scan --key`.

use vstd::prelude::*;

use crate::accessibility::{lowercase, to_lowercase};
use crate::keys::{spec_key_from_char, Key, KeyCombo, Modifiers, NamedKey};
use crate::numbers::{lemma_decimal_digits, lemma_decimal_parses_back, parse_u32, spec_parse_u32};
use crate::text::{chars_eq, chars_of, decimal, push_decimal, string_of_chars};

verus! {

broadcast use vstd::string::group_string_axioms;

/// The name a named key is written with.
pub open spec fn named_key_text(k: NamedKey) -> Seq<char> {
    match k {
        NamedKey::Up => "up"@,
        NamedKey::Down => "down"@,
        NamedKey::Left => "left"@,
        NamedKey::Right => "right"@,
        NamedKey::Space => "space"@,
        NamedKey::Return => "return"@,
        NamedKey::Tab => "tab"@,
        NamedKey::Escape => "esc"@,
        NamedKey::Delete => "delete"@,
        NamedKey::ForwardDelete => "fwddelete"@,
        NamedKey::Home => "home"@,
        NamedKey::End => "end"@,
        NamedKey::PageUp => "pageup"@,
        NamedKey::PageDown => "pagedown"@,
        NamedKey::F(n) => "f"@ + decimal(n as nat),
    }
}

/// How a key is written: a character as itself, a named key by its name, a
/// raw keycode as `vk` and its decimal number.
pub open spec fn key_text(k: Key) -> Seq<char> {
    match k {
        Key::Char(c) => seq![c],
        Key::Named(n) => named_key_text(n),
        Key::Virtual(v) => "vk"@ + decimal(v as nat),
    }
}

/// How a modifier set is written: each held modifier followed by `+`, in
/// the order macOS shows them (fn, ctrl, opt, shift, cmd).
pub open spec fn modifiers_text(m: Modifiers) -> Seq<char> {
    (if m.function { "fn+"@ } else { seq![] }) + (if m.ctrl { "ctrl+"@ } else { seq![] }) + (if m.opt {
        "opt+"@
    } else {
        seq![]
    }) + (if m.shift { "shift+"@ } else { seq![] }) + (if m.cmd { "cmd+"@ } else { seq![] })
}

/// How a combo is written, e.g. `shift+cmd+5`.
pub open spec fn combo_text(c: KeyCombo) -> Seq<char> {
    modifiers_text(c.modifiers) + key_text(c.key)
}

fn push_if(out: &mut String, cond: bool, text: &str)
    ensures
        final(out)@ == old(out)@ + (if cond { text@ } else { seq![] }),
{
    if cond {
        out.append(text);
    } else {
        assert(old(out)@ + Seq::<char>::empty() =~= old(out)@);
    }
}

/// Append the written form of a named key.
fn push_named(out: &mut String, k: NamedKey)
    ensures
        final(out)@ == old(out)@ + named_key_text(k),
{
    match k {
        NamedKey::Up => out.append("up"),
        NamedKey::Down => out.append("down"),
        NamedKey::Left => out.append("left"),
        NamedKey::Right => out.append("right"),
        NamedKey::Space => out.append("space"),
        NamedKey::Return => out.append("return"),
        NamedKey::Tab => out.append("tab"),
        NamedKey::Escape => out.append("esc"),
        NamedKey::Delete => out.append("delete"),
        NamedKey::ForwardDelete => out.append("fwddelete"),
        NamedKey::Home => out.append("home"),
        NamedKey::End => out.append("end"),
        NamedKey::PageUp => out.append("pageup"),
        NamedKey::PageDown => out.append("pagedown"),
        NamedKey::F(n) => {
            out.append("f");
            push_decimal(out, n as u64);
            assert(final(out)@ =~= old(out)@ + named_key_text(k));
        },
    }
}

/// The written form of a modifier set (each modifier followed by `+`).
pub fn modifiers_string(m: Modifiers) -> (s: String)
    ensures
        s@ == modifiers_text(m),
{
    let mut s = String::new();
    push_if(&mut s, m.function, "fn+");
    push_if(&mut s, m.ctrl, "ctrl+");
    push_if(&mut s, m.opt, "opt+");
    push_if(&mut s, m.shift, "shift+");
    push_if(&mut s, m.cmd, "cmd+");
    assert(s@ =~= modifiers_text(m));
    s
}

/// The written form of a key.
pub fn key_string(k: Key) -> (s: String)
    ensures
        s@ == key_text(k),
{
    let mut s = String::new();
    match k {
        Key::Char(c) => {
            s.push(c);
            assert(s@ =~= seq![c]);
        },
        Key::Named(n) => {
            push_named(&mut s, n);
            assert(s@ =~= named_key_text(n));
        },
        Key::Virtual(v) => {
            s.append("vk");
            push_decimal(&mut s, v as u64);
        },
    }
    s
}

impl KeyCombo {
    /// The written form of the combo, e.g. `shift+cmd+5`.
    pub fn to_text(&self) -> (s: String)
        ensures
            s@ == combo_text(*self),
    {
        let mut s = modifiers_string(self.modifiers);
        let k = key_string(self.key);
        s.append(k.as_str());
        s
    }
}

/// The modifier a (lowercase) name denotes: `cmd`/`command`,
/// `opt`/`option`/`alt`, `ctrl`/`control`, `shift`, `fn`/`globe`.
pub open spec fn modifier_named(name: Seq<char>) -> Option<Modifiers> {
    if name == "cmd"@ || name == "command"@ {
        Some(Modifiers { cmd: true, ..Modifiers::spec_empty() })
    } else if name == "opt"@ || name == "option"@ || name == "alt"@ {
        Some(Modifiers { opt: true, ..Modifiers::spec_empty() })
    } else if name == "ctrl"@ || name == "control"@ {
        Some(Modifiers { ctrl: true, ..Modifiers::spec_empty() })
    } else if name == "shift"@ {
        Some(Modifiers { shift: true, ..Modifiers::spec_empty() })
    } else if name == "fn"@ || name == "globe"@ {
        Some(Modifiers { function: true, ..Modifiers::spec_empty() })
    } else {
        None
    }
}

/// The key a (lowercase) name denotes: a key name (with the aliases
/// `enter`, `escape`, `backspace`), `f<n>` for a function key up to F20,
/// `vk<n>` for a raw keycode, `plus` for `+`, or a single character.
pub open spec fn key_named(name: Seq<char>) -> Option<Key> {
    if name == "up"@ { Some(Key::Named(NamedKey::Up)) }
    else if name == "down"@ { Some(Key::Named(NamedKey::Down)) }
    else if name == "left"@ { Some(Key::Named(NamedKey::Left)) }
    else if name == "right"@ { Some(Key::Named(NamedKey::Right)) }
    else if name == "space"@ { Some(Key::Named(NamedKey::Space)) }
    else if name == "return"@ || name == "enter"@ { Some(Key::Named(NamedKey::Return)) }
    else if name == "tab"@ { Some(Key::Named(NamedKey::Tab)) }
    else if name == "esc"@ || name == "escape"@ { Some(Key::Named(NamedKey::Escape)) }
    else if name == "delete"@ || name == "backspace"@ { Some(Key::Named(NamedKey::Delete)) }
    else if name == "fwddelete"@ { Some(Key::Named(NamedKey::ForwardDelete)) }
    else if name == "home"@ { Some(Key::Named(NamedKey::Home)) }
    else if name == "end"@ { Some(Key::Named(NamedKey::End)) }
    else if name == "pageup"@ { Some(Key::Named(NamedKey::PageUp)) }
    else if name == "pagedown"@ { Some(Key::Named(NamedKey::PageDown)) }
    else if name == "plus"@ { Some(Key::Char('+')) }
    else if name.len() == 1 { Some(spec_key_from_char(name[0])) }
    else if name.len() >= 2 && name[0] == 'f' && name[1] != '+' { function_key_named(name.skip(1)) }
    else if name.len() >= 3 && name[0] == 'v' && name[1] == 'k' && name[2] != '+' { keycode_named(name.skip(2)) }
    else { None }
}

/// The function key `F<digits>`, for F1 to F20.
pub open spec fn function_key_named(digits: Seq<char>) -> Option<Key> {
    match spec_parse_u32(digits) {
        Some(n) => if 1 <= n && n <= 20 { Some(Key::Named(NamedKey::F(n as u8))) } else { None },
        None => None,
    }
}

/// The raw keycode `vk<digits>`.
pub open spec fn keycode_named(digits: Seq<char>) -> Option<Key> {
    match spec_parse_u32(digits) {
        Some(n) => if n <= 0xffff { Some(Key::Virtual(n as u16)) } else { None },
        None => None,
    }
}

/// Whether the characters of `v` spell `lit`.
fn spells(v: &Vec<char>, lit: &str) -> (r: bool)
    ensures
        r == (v@ == lit@),
{
    let l = chars_of(lit);
    chars_eq(v, &l)
}

/// The modifier a lowercase name denotes.
pub fn modifier_from_name(name: &Vec<char>) -> (r: Option<Modifiers>)
    ensures
        r == modifier_named(name@),
{
    if spells(name, "cmd") || spells(name, "command") {
        Some(Modifiers::cmd())
    } else if spells(name, "opt") || spells(name, "option") || spells(name, "alt") {
        Some(Modifiers::opt())
    } else if spells(name, "ctrl") || spells(name, "control") {
        Some(Modifiers::ctrl())
    } else if spells(name, "shift") {
        Some(Modifiers::shift())
    } else if spells(name, "fn") || spells(name, "globe") {
        Some(Modifiers::function())
    } else {
        None
    }
}

/// The characters of `v` from position `from` on.
fn tail_of(v: &Vec<char>, from: usize) -> (r: String)
    requires
        from <= v@.len(),
    ensures
        r@ == v@.skip(from as int),
{
    let mut t: Vec<char> = Vec::new();
    let mut i: usize = from;
    while i < v.len()
        invariant
            from <= i <= v.len(),
            t@ == v@.subrange(from as int, i as int),
        decreases v.len() - i,
    {
        t.push(v[i]);
        assert(v@.subrange(from as int, i as int).push(v@[i as int]) =~= v@.subrange(
            from as int,
            i + 1,
        ));
        i = i + 1;
    }
    assert(t@ =~= v@.skip(from as int));
    string_of_chars(&t)
}

/// The key a lowercase name denotes.
pub fn key_from_name(name: &Vec<char>) -> (r: Option<Key>)
    ensures
        r == key_named(name@),
{
    if spells(name, "up") { Some(Key::Named(NamedKey::Up)) }
    else if spells(name, "down") { Some(Key::Named(NamedKey::Down)) }
    else if spells(name, "left") { Some(Key::Named(NamedKey::Left)) }
    else if spells(name, "right") { Some(Key::Named(NamedKey::Right)) }
    else if spells(name, "space") { Some(Key::Named(NamedKey::Space)) }
    else if spells(name, "return") || spells(name, "enter") { Some(Key::Named(NamedKey::Return)) }
    else if spells(name, "tab") { Some(Key::Named(NamedKey::Tab)) }
    else if spells(name, "esc") || spells(name, "escape") { Some(Key::Named(NamedKey::Escape)) }
    else if spells(name, "delete") || spells(name, "backspace") { Some(Key::Named(NamedKey::Delete)) }
    else if spells(name, "fwddelete") { Some(Key::Named(NamedKey::ForwardDelete)) }
    else if spells(name, "home") { Some(Key::Named(NamedKey::Home)) }
    else if spells(name, "end") { Some(Key::Named(NamedKey::End)) }
    else if spells(name, "pageup") { Some(Key::Named(NamedKey::PageUp)) }
    else if spells(name, "pagedown") { Some(Key::Named(NamedKey::PageDown)) }
    else if spells(name, "plus") { Some(Key::Char('+')) }
    else if name.len() == 1 { Some(Key::from_char(name[0])) }
    else if name.len() >= 2 && name[0] == 'f' && name[1] != '+' {
        let digits = tail_of(name, 1);
        match parse_u32(digits.as_str()) {
            Some(n) => if 1 <= n && n <= 20 {
                Some(Key::Named(NamedKey::F(n as u8)))
            } else {
                None
            },
            None => None,
        }
    } else if name.len() >= 3 && name[0] == 'v' && name[1] == 'k' && name[2] != '+' {
        let digits = tail_of(name, 2);
        match parse_u32(digits.as_str()) {
            Some(n) => if n <= 0xffff {
                Some(Key::Virtual(n as u16))
            } else {
                None
            },
            None => None,
        }
    } else {
        None
    }
}

/// `s` cut at every `+` (the empty text gives one empty part).
pub open spec fn split_plus(s: Seq<char>) -> Seq<Seq<char>>
    decreases s.len(),
{
    if s.len() == 0 {
        seq![seq![]]
    } else {
        let prev = split_plus(s.drop_last());
        if s.last() == '+' {
            prev.push(seq![])
        } else {
            prev.update(prev.len() - 1, prev.last().push(s.last()))
        }
    }
}

proof fn lemma_split_plus_nonempty(s: Seq<char>)
    ensures
        split_plus(s).len() >= 1,
    decreases s.len(),
{
    if s.len() > 0 {
        lemma_split_plus_nonempty(s.drop_last());
    }
}

/// Whether `s` holds no `+`.
pub open spec fn plus_free(s: Seq<char>) -> bool {
    forall|i: int| 0 <= i < s.len() ==> s[i] != '+'
}

proof fn lemma_split_plus_free(w: Seq<char>)
    requires
        plus_free(w),
    ensures
        split_plus(w) == seq![w],
    decreases w.len(),
{
    if w.len() == 0 {
        assert(w =~= Seq::<char>::empty());
    } else {
        lemma_split_plus_free(w.drop_last());
        assert(w.drop_last().push(w.last()) =~= w);
        assert(seq![w.drop_last()].update(0, w.drop_last().push(w.last())) =~= seq![w]);
    }
}

proof fn lemma_split_after_name(name: Seq<char>, rest: Seq<char>)
    requires
        plus_free(name),
    ensures
        split_plus(name + seq!['+'] + rest) == seq![name] + split_plus(rest),
    decreases rest.len(),
{
    let s = name + seq!['+'] + rest;
    if rest.len() == 0 {
        assert(s =~= name.push('+'));
        assert(s.drop_last() =~= name);
        lemma_split_plus_free(name);
        assert(seq![name] + split_plus(rest) =~= seq![name, Seq::<char>::empty()]);
        assert(split_plus(s) =~= seq![name].push(Seq::<char>::empty()));
    } else {
        lemma_split_after_name(name, rest.drop_last());
        lemma_split_plus_nonempty(rest.drop_last());
        assert(s.drop_last() =~= name + seq!['+'] + rest.drop_last());
        assert(s.last() == rest.last());
        let x = split_plus(rest.drop_last());
        if rest.last() == '+' {
            assert((seq![name] + x).push(Seq::<char>::empty()) =~= seq![name] + x.push(Seq::<char>::empty()));
        } else {
            let y = seq![name] + x;
            assert(y.update(y.len() - 1, y.last().push(rest.last())) =~= seq![name] + x.update(
                x.len() - 1,
                x.last().push(rest.last()),
            ));
        }
    }
}

/// The names of the held modifiers, in written order.
pub open spec fn modifier_parts(m: Modifiers) -> Seq<Seq<char>> {
    (if m.function { seq!["fn"@] } else { seq![] }) + (if m.ctrl { seq!["ctrl"@] } else { seq![] }) + (
    if m.opt {
        seq!["opt"@]
    } else {
        seq![]
    }) + (if m.shift { seq!["shift"@] } else { seq![] }) + (if m.cmd { seq!["cmd"@] } else { seq![] })
}

/// The written form of an optional modifier: its name and `+`, or nothing.
spec fn optional_text(held: bool, name: Seq<char>) -> Seq<char> {
    if held { name + seq!['+'] } else { seq![] }
}

/// The name of an optional modifier, as a list of at most one part.
spec fn optional_part(held: bool, name: Seq<char>) -> Seq<Seq<char>> {
    if held { seq![name] } else { seq![] }
}

proof fn lemma_modifiers_text_shape(m: Modifiers)
    ensures
        modifiers_text(m) == optional_text(m.function, "fn"@) + optional_text(m.ctrl, "ctrl"@)
            + optional_text(m.opt, "opt"@) + optional_text(m.shift, "shift"@) + optional_text(
            m.cmd,
            "cmd"@,
        ),
        plus_free("fn"@),
        plus_free("ctrl"@),
        plus_free("opt"@),
        plus_free("shift"@),
        plus_free("cmd"@),
{
    reveal_strlit("fn+");
    reveal_strlit("ctrl+");
    reveal_strlit("opt+");
    reveal_strlit("shift+");
    reveal_strlit("cmd+");
    reveal_strlit("fn");
    reveal_strlit("ctrl");
    reveal_strlit("opt");
    reveal_strlit("shift");
    reveal_strlit("cmd");
    assert("fn+"@ =~= "fn"@ + seq!['+']);
    assert("ctrl+"@ =~= "ctrl"@ + seq!['+']);
    assert("opt+"@ =~= "opt"@ + seq!['+']);
    assert("shift+"@ =~= "shift"@ + seq!['+']);
    assert("cmd+"@ =~= "cmd"@ + seq!['+']);
}

proof fn lemma_split_optional(held: bool, name: Seq<char>, rest: Seq<char>)
    requires
        plus_free(name),
    ensures
        split_plus(optional_text(held, name) + rest) == optional_part(held, name) + split_plus(rest),
{
    if held {
        lemma_split_after_name(name, rest);
        assert((name + seq!['+']) + rest =~= name + seq!['+'] + rest);
    } else {
        assert(Seq::<char>::empty() + rest =~= rest);
        assert(Seq::<Seq<char>>::empty() + split_plus(rest) =~= split_plus(rest));
    }
}

proof fn lemma_nest_right<A>(a: Seq<A>, b: Seq<A>, c: Seq<A>, d: Seq<A>, e: Seq<A>, w: Seq<A>)
    ensures
        a + b + c + d + e + w == a + (b + (c + (d + (e + w)))),
{
    assert(a + b + c + d + e + w =~= a + (b + (c + (d + (e + w)))));
}

proof fn lemma_split_written_combo(m: Modifiers, w: Seq<char>)
    requires
        plus_free(w),
    ensures
        split_plus(modifiers_text(m) + w) == modifier_parts(m).push(w),
{
    lemma_modifiers_text_shape(m);
    let t_fn = optional_text(m.function, "fn"@);
    let t_ctrl = optional_text(m.ctrl, "ctrl"@);
    let t_opt = optional_text(m.opt, "opt"@);
    let t_shift = optional_text(m.shift, "shift"@);
    let t_cmd = optional_text(m.cmd, "cmd"@);
    let r4 = t_cmd + w;
    let r3 = t_shift + r4;
    let r2 = t_opt + r3;
    let r1 = t_ctrl + r2;
    let r0 = t_fn + r1;
    lemma_nest_right(t_fn, t_ctrl, t_opt, t_shift, t_cmd, w);
    lemma_split_plus_free(w);
    lemma_split_optional(m.cmd, "cmd"@, w);
    lemma_split_optional(m.shift, "shift"@, r4);
    lemma_split_optional(m.opt, "opt"@, r3);
    lemma_split_optional(m.ctrl, "ctrl"@, r2);
    lemma_split_optional(m.function, "fn"@, r1);
    let p_fn = optional_part(m.function, "fn"@);
    let p_ctrl = optional_part(m.ctrl, "ctrl"@);
    let p_opt = optional_part(m.opt, "opt"@);
    let p_shift = optional_part(m.shift, "shift"@);
    let p_cmd = optional_part(m.cmd, "cmd"@);
    assert(modifier_parts(m) == p_fn + p_ctrl + p_opt + p_shift + p_cmd);
    lemma_nest_right(p_fn, p_ctrl, p_opt, p_shift, p_cmd, seq![w]);
    assert((p_fn + p_ctrl + p_opt + p_shift + p_cmd).push(w) =~= p_fn + p_ctrl + p_opt + p_shift + p_cmd
        + seq![w]);
}

proof fn lemma_reveal_modifier_names()
    ensures
        modifier_named("cmd"@) == Some(Modifiers { cmd: true, ..Modifiers::spec_empty() }),
        modifier_named("opt"@) == Some(Modifiers { opt: true, ..Modifiers::spec_empty() }),
        modifier_named("ctrl"@) == Some(Modifiers { ctrl: true, ..Modifiers::spec_empty() }),
        modifier_named("shift"@) == Some(Modifiers { shift: true, ..Modifiers::spec_empty() }),
        modifier_named("fn"@) == Some(Modifiers { function: true, ..Modifiers::spec_empty() }),
{
    reveal_strlit("cmd");
    reveal_strlit("command");
    reveal_strlit("opt");
    reveal_strlit("option");
    reveal_strlit("alt");
    reveal_strlit("ctrl");
    reveal_strlit("control");
    reveal_strlit("shift");
    reveal_strlit("fn");
    reveal_strlit("globe");
    assert("cmd"@.len() == 3 && "command"@.len() == 7 && "opt"@.len() == 3 && "option"@.len() == 6);
    assert("alt"@.len() == 3 && "ctrl"@.len() == 4 && "control"@.len() == 7 && "shift"@.len() == 5);
    assert("fn"@.len() == 2 && "globe"@.len() == 5);
    assert("opt"@[0] != "cmd"@[0]);
}

proof fn lemma_push_optional_name(parts: Seq<Seq<char>>, held: bool, name: Seq<char>, m: Modifiers, single: Modifiers)
    requires
        parts_modifiers(parts) == Ok::<Modifiers, Seq<char>>(m),
        modifier_named(name) == Some(single),
    ensures
        parts_modifiers(parts + (if held { seq![name] } else { seq![] })) == Ok::<Modifiers, Seq<char>>(
            if held { m.spec_union(single) } else { m },
        ),
{
    if held {
        assert((parts + seq![name]).drop_last() =~= parts);
    } else {
        assert(parts + Seq::<Seq<char>>::empty() =~= parts);
    }
}

proof fn lemma_modifier_parts_read_back(m: Modifiers)
    ensures
        parts_modifiers(modifier_parts(m)) == Ok::<Modifiers, Seq<char>>(m),
{
    lemma_reveal_modifier_names();
    let e = Modifiers::spec_empty();
    let s0 = Seq::<Seq<char>>::empty();
    let s1 = s0 + (if m.function { seq!["fn"@] } else { seq![] });
    lemma_push_optional_name(s0, m.function, "fn"@, e, Modifiers { function: true, ..e });
    let m1 = if m.function { e.spec_union(Modifiers { function: true, ..e }) } else { e };
    let s2 = s1 + (if m.ctrl { seq!["ctrl"@] } else { seq![] });
    lemma_push_optional_name(s1, m.ctrl, "ctrl"@, m1, Modifiers { ctrl: true, ..e });
    let m2 = if m.ctrl { m1.spec_union(Modifiers { ctrl: true, ..e }) } else { m1 };
    let s3 = s2 + (if m.opt { seq!["opt"@] } else { seq![] });
    lemma_push_optional_name(s2, m.opt, "opt"@, m2, Modifiers { opt: true, ..e });
    let m3 = if m.opt { m2.spec_union(Modifiers { opt: true, ..e }) } else { m2 };
    let s4 = s3 + (if m.shift { seq!["shift"@] } else { seq![] });
    lemma_push_optional_name(s3, m.shift, "shift"@, m3, Modifiers { shift: true, ..e });
    let m4 = if m.shift { m3.spec_union(Modifiers { shift: true, ..e }) } else { m3 };
    let s5 = s4 + (if m.cmd { seq!["cmd"@] } else { seq![] });
    lemma_push_optional_name(s4, m.cmd, "cmd"@, m4, Modifiers { cmd: true, ..e });
    let m5 = if m.cmd { m4.spec_union(Modifiers { cmd: true, ..e }) } else { m4 };
    assert(s1 =~= (if m.function { seq!["fn"@] } else { seq![] }));
    assert(s5 =~= modifier_parts(m));
    assert(m5 == m);
}

/// Whether a key's written form reads back as the key: a character that
/// stands for itself and is not `+`, a function key up to F20, or any other
/// named key or raw keycode.
pub open spec fn reads_back(k: Key) -> bool {
    match k {
        Key::Char(c) => c != '+' && spec_key_from_char(c) == Key::Char(c),
        Key::Named(NamedKey::F(n)) => 1 <= n <= 20,
        _ => true,
    }
}

proof fn lemma_reveal_key_names()
    ensures
        "up"@ == seq!['u', 'p'],
        "down"@ == seq!['d', 'o', 'w', 'n'],
        "left"@ == seq!['l', 'e', 'f', 't'],
        "right"@ == seq!['r', 'i', 'g', 'h', 't'],
        "space"@ == seq!['s', 'p', 'a', 'c', 'e'],
        "return"@ == seq!['r', 'e', 't', 'u', 'r', 'n'],
        "enter"@ == seq!['e', 'n', 't', 'e', 'r'],
        "tab"@ == seq!['t', 'a', 'b'],
        "esc"@ == seq!['e', 's', 'c'],
        "escape"@ == seq!['e', 's', 'c', 'a', 'p', 'e'],
        "delete"@ == seq!['d', 'e', 'l', 'e', 't', 'e'],
        "backspace"@ == seq!['b', 'a', 'c', 'k', 's', 'p', 'a', 'c', 'e'],
        "fwddelete"@ == seq!['f', 'w', 'd', 'd', 'e', 'l', 'e', 't', 'e'],
        "home"@ == seq!['h', 'o', 'm', 'e'],
        "end"@ == seq!['e', 'n', 'd'],
        "pageup"@ == seq!['p', 'a', 'g', 'e', 'u', 'p'],
        "pagedown"@ == seq!['p', 'a', 'g', 'e', 'd', 'o', 'w', 'n'],
        "plus"@ == seq!['p', 'l', 'u', 's'],
        "f"@ == seq!['f'],
        "vk"@ == seq!['v', 'k'],
{
    reveal_strlit("up");
    reveal_strlit("down");
    reveal_strlit("left");
    reveal_strlit("right");
    reveal_strlit("space");
    reveal_strlit("return");
    reveal_strlit("enter");
    reveal_strlit("tab");
    reveal_strlit("esc");
    reveal_strlit("escape");
    reveal_strlit("delete");
    reveal_strlit("backspace");
    reveal_strlit("fwddelete");
    reveal_strlit("home");
    reveal_strlit("end");
    reveal_strlit("pageup");
    reveal_strlit("pagedown");
    reveal_strlit("plus");
    reveal_strlit("f");
    reveal_strlit("vk");
}

proof fn lemma_key_reads_back(k: Key)
    requires
        reads_back(k),
    ensures
        plus_free(key_text(k)),
        key_named(key_text(k)) == Some(k),
{
    lemma_reveal_key_names();
    match k {
        Key::Char(c) => {},
        Key::Named(NamedKey::F(n)) => {
            lemma_decimal_digits(n as nat);
            lemma_decimal_parses_back(n as u32);
            let t = key_text(k);
            let d = decimal(n as nat);
            assert(t =~= seq!['f'] + d);
            assert(t[1] == d[0]);
            assert(t.skip(1) =~= d);
            assert(d.len() <= 2) by {
                if n >= 10 {
                    assert(decimal(n as nat / 10).len() == 1);
                }
            }
        },
        Key::Named(_) => {},
        Key::Virtual(v) => {
            lemma_decimal_digits(v as nat);
            lemma_decimal_parses_back(v as u32);
            let t = key_text(k);
            let d = decimal(v as nat);
            assert(t =~= seq!['v', 'k'] + d);
            assert(t[2] == d[0]);
            assert(t.skip(2) =~= d);
        },
    }
}

/// A combo's written form reads back as the combo: parsing the text that
/// `to_text` writes (already lowercase, as the modifier and key names are)
/// gives the combo again, for every key whose written form names it (see
/// [`reads_back`]).
pub proof fn written_combos_read_back(c: KeyCombo)
    requires
        reads_back(c.key),
    ensures
        parse_lowercase_combo(combo_text(c)) == Ok::<KeyCombo, ComboFault>(c),
{
    let w = key_text(c.key);
    lemma_key_reads_back(c.key);
    lemma_split_written_combo(c.modifiers, w);
    lemma_modifier_parts_read_back(c.modifiers);
    let parts = split_plus(combo_text(c));
    assert(parts.drop_last() =~= modifier_parts(c.modifiers));
}

/// Why a combo or token text was refused.
#[derive(Clone, Debug)]
pub enum ComboError {
    /// A part before the key is not a modifier name.
    UnknownModifier(String),
    /// The last part is not a key name.
    UnknownKey(String),
    /// A filter token is neither a modifier nor a key name.
    UnknownToken(String),
}

/// The refusal of a combo text, by kind and offending (lowercased) part.
pub enum ComboFault {
    Modifier(Seq<char>),
    Key(Seq<char>),
    Token(Seq<char>),
}

/// The refusal an error stands for.
pub open spec fn fault_of(e: ComboError) -> ComboFault {
    match e {
        ComboError::UnknownModifier(p) => ComboFault::Modifier(p@),
        ComboError::UnknownKey(p) => ComboFault::Key(p@),
        ComboError::UnknownToken(p) => ComboFault::Token(p@),
    }
}

/// The modifiers named by `parts`, or the first part that names none.
pub open spec fn parts_modifiers(parts: Seq<Seq<char>>) -> Result<Modifiers, Seq<char>>
    decreases parts.len(),
{
    if parts.len() == 0 {
        Ok(Modifiers::spec_empty())
    } else {
        match parts_modifiers(parts.drop_last()) {
            Err(p) => Err(p),
            Ok(m) => match modifier_named(parts.last()) {
                Some(x) => Ok(m.spec_union(x)),
                None => Err(parts.last()),
            },
        }
    }
}

/// What a combo text such as `cmd+opt+b` denotes: `+`-separated parts,
/// compared without regard to case, all but the last naming modifiers and
/// the last naming the key.
pub open spec fn spec_parse_combo(text: Seq<char>) -> Result<KeyCombo, ComboFault> {
    parse_lowercase_combo(lowercase(text))
}

/// What an already lowercased combo text denotes: `+`-separated parts, all
/// but the last naming modifiers and the last naming the key.
pub open spec fn parse_lowercase_combo(lower: Seq<char>) -> Result<KeyCombo, ComboFault> {
    let parts = split_plus(lower);
    match parts_modifiers(parts.drop_last()) {
        Err(p) => Err(ComboFault::Modifier(p)),
        Ok(m) => match key_named(parts.last()) {
            Some(k) => Ok(KeyCombo { modifiers: m, key: k }),
            None => Err(ComboFault::Key(parts.last())),
        },
    }
}

/// The views of a list of character lists.
pub open spec fn part_views(v: Seq<Vec<char>>) -> Seq<Seq<char>> {
    v.map_values(|p: Vec<char>| p@)
}

/// Cut `s` at every `+`.
fn split_on_plus(s: &Vec<char>) -> (r: Vec<Vec<char>>)
    ensures
        part_views(r@) == split_plus(s@),
        r@.len() >= 1,
{
    let mut parts: Vec<Vec<char>> = Vec::new();
    let mut cur: Vec<char> = Vec::new();
    let mut i: usize = 0;
    assert(s@.take(0) =~= Seq::<char>::empty());
    while i < s.len()
        invariant
            i <= s.len(),
            part_views(parts@).push(cur@) == split_plus(s@.take(i as int)),
        decreases s.len() - i,
    {
        let ghost prev = split_plus(s@.take(i as int));
        assert(s@.take(i + 1).drop_last() =~= s@.take(i as int));
        assert(s@.take(i + 1).last() == s@[i as int]);
        if s[i] == '+' {
            let done = cur;
            cur = Vec::new();
            parts.push(done);
            assert(part_views(parts@).push(cur@) =~= prev.push(seq![]));
        } else {
            cur.push(s[i]);
            assert(part_views(parts@).push(cur@) =~= prev.update(prev.len() - 1, prev.last().push(
                s@[i as int],
            )));
        }
        i = i + 1;
    }
    parts.push(cur);
    assert(s@.take(s.len() as int) =~= s@);
    assert(part_views(parts@) =~= split_plus(s@));
    parts
}

impl KeyCombo {
    /// Parse a combo text such as `cmd+opt+b` (see [`spec_parse_combo`]).
    pub fn parse(text: &str) -> (r: Result<KeyCombo, ComboError>)
        ensures
            match spec_parse_combo(text@) {
                Ok(c) => r == Ok::<KeyCombo, ComboError>(c),
                Err(f) => r matches Err(e) && fault_of(e) == f,
            },
    {
        let lower = to_lowercase(text);
        KeyCombo::parse_lowercase(lower.as_str())
    }

    /// Parse a combo text that is already lowercase (see
    /// [`parse_lowercase_combo`]).
    pub fn parse_lowercase(lower: &str) -> (r: Result<KeyCombo, ComboError>)
        ensures
            match parse_lowercase_combo(lower@) {
                Ok(c) => r == Ok::<KeyCombo, ComboError>(c),
                Err(f) => r matches Err(e) && fault_of(e) == f,
            },
    {
        let chars = chars_of(lower);
        let parts = split_on_plus(&chars);
        let ghost pv = part_views(parts@);
        let last: usize = parts.len() - 1;
        assert(pv.drop_last() =~= part_views(parts@.take(last as int)));
        let mut m = Modifiers::empty();
        let mut i: usize = 0;
        assert(pv.take(0) =~= Seq::<Seq<char>>::empty());
        while i < last
            invariant
                pv == part_views(parts@),
                pv == split_plus(lower@),
                last == parts@.len() - 1,
                i <= last,
                parts_modifiers(pv.take(i as int)) == Ok::<Modifiers, Seq<char>>(m),
            decreases last - i,
        {
            assert(pv.take(i + 1).drop_last() =~= pv.take(i as int));
            assert(pv.take(i + 1).last() == parts@[i as int]@);
            match modifier_from_name(&parts[i]) {
                Some(x) => {
                    m = m.union(x);
                },
                None => {
                    proof {
                        assert(parts_modifiers(pv.take(i + 1)) == Err::<Modifiers, Seq<char>>(
                            parts@[i as int]@,
                        ));
                        assert(pv.drop_last().take(i + 1) =~= pv.take(i + 1));
                        lemma_parts_modifiers_err_prefix(pv.drop_last(), i + 1);
                    }
                    return Err(ComboError::UnknownModifier(string_of_chars(&parts[i])));
                },
            }
            i = i + 1;
        }
        assert(pv.take(last as int) =~= pv.drop_last());
        assert(pv.last() == parts@[last as int]@);
        match key_from_name(&parts[last]) {
            Some(k) => Ok(KeyCombo { modifiers: m, key: k }),
            None => Err(ComboError::UnknownKey(string_of_chars(&parts[last]))),
        }
    }
}

proof fn lemma_parts_modifiers_err_prefix(parts: Seq<Seq<char>>, n: int)
    requires
        0 <= n <= parts.len(),
        parts_modifiers(parts.take(n)) is Err,
    ensures
        parts_modifiers(parts) == parts_modifiers(parts.take(n)),
    decreases parts.len() - n,
{
    if n < parts.len() {
        assert(parts.take(n + 1).drop_last() =~= parts.take(n));
        lemma_parts_modifiers_err_prefix(parts, n + 1);
    } else {
        assert(parts.take(n) =~= parts);
    }
}

/// One `scan --key` filter: a modifier or a key.
#[derive(Clone, Copy, Debug, PartialEq, Eq, Structural)]
pub enum ComboToken {
    Modifier(Modifiers),
    Key(Key),
}

/// What a filter token denotes: a modifier name, else a key name (compared
/// without regard to case).
pub open spec fn spec_parse_token(token: Seq<char>) -> Result<ComboToken, ComboFault> {
    parse_lowercase_token(lowercase(token))
}

/// What an already lowercased filter token denotes.
pub open spec fn parse_lowercase_token(name: Seq<char>) -> Result<ComboToken, ComboFault> {
    match modifier_named(name) {
        Some(m) => Ok(ComboToken::Modifier(m)),
        None => match key_named(name) {
            Some(k) => Ok(ComboToken::Key(k)),
            None => Err(ComboFault::Token(name)),
        },
    }
}

/// Whether a combo contains a filter token: holds its modifier, or has
/// its key.
pub open spec fn token_matches(t: ComboToken, c: KeyCombo) -> bool {
    match t {
        ComboToken::Modifier(m) => (m.cmd ==> c.modifiers.cmd) && (m.opt ==> c.modifiers.opt) && (
        m.ctrl ==> c.modifiers.ctrl) && (m.shift ==> c.modifiers.shift) && (m.function
            ==> c.modifiers.function),
        ComboToken::Key(k) => c.key == k,
    }
}

impl ComboToken {
    /// Parse a filter token such as `cmd`, `space` or `f1`.
    pub fn parse(token: &str) -> (r: Result<ComboToken, ComboError>)
        ensures
            match spec_parse_token(token@) {
                Ok(t) => r == Ok::<ComboToken, ComboError>(t),
                Err(f) => r matches Err(e) && fault_of(e) == f,
            },
    {
        let lower = to_lowercase(token);
        ComboToken::parse_lowercase(lower.as_str())
    }

    /// Parse a filter token that is already lowercase (see
    /// [`parse_lowercase_token`]).
    pub fn parse_lowercase(name: &str) -> (r: Result<ComboToken, ComboError>)
        ensures
            match parse_lowercase_token(name@) {
                Ok(t) => r == Ok::<ComboToken, ComboError>(t),
                Err(f) => r matches Err(e) && fault_of(e) == f,
            },
    {
        let chars = chars_of(name);
        match modifier_from_name(&chars) {
            Some(m) => Ok(ComboToken::Modifier(m)),
            None => match key_from_name(&chars) {
                Some(k) => Ok(ComboToken::Key(k)),
                None => Err(ComboError::UnknownToken(name.to_owned())),
            },
        }
    }

    /// Whether `combo` contains this token.
    pub fn matches(&self, combo: &KeyCombo) -> (r: bool)
        ensures
            r == token_matches(*self, *combo),
    {
        match self {
            ComboToken::Modifier(m) => (!m.cmd || combo.modifiers.cmd) && (!m.opt
                || combo.modifiers.opt) && (!m.ctrl || combo.modifiers.ctrl) && (!m.shift
                || combo.modifiers.shift) && (!m.function || combo.modifiers.function),
            ComboToken::Key(k) => combo.key == *k,
        }
    }
}

impl ComboError {
    /// A sentence describing the refusal.
    pub fn message(&self) -> (s: String)
        ensures
            s@ == match fault_of(*self) {
                ComboFault::Modifier(p) => "unknown modifier `"@ + p + "`"@,
                ComboFault::Key(p) => "unknown key `"@ + p + "`"@,
                ComboFault::Token(p) => "unknown modifier or key `"@ + p + "`"@,
            },
    {
        let (mut s, part) = match self {
            ComboError::UnknownModifier(p) => ("unknown modifier `".to_owned(), p),
            ComboError::UnknownKey(p) => ("unknown key `".to_owned(), p),
            ComboError::UnknownToken(p) => ("unknown modifier or key `".to_owned(), p),
        };
        s.append(part.as_str());
        s.append("`");
        s
    }
}

proof fn lemma_reveal_modifier_aliases()
    ensures
        modifier_named("command"@) == modifier_named("cmd"@),
        modifier_named("option"@) == modifier_named("opt"@),
        modifier_named("alt"@) == modifier_named("opt"@),
        modifier_named("control"@) == modifier_named("ctrl"@),
        modifier_named("globe"@) == modifier_named("fn"@),
        plus_free("command"@) && plus_free("cmd"@) && plus_free("option"@) && plus_free("opt"@),
        plus_free("alt"@) && plus_free("control"@) && plus_free("ctrl"@) && plus_free("globe"@),
        plus_free("fn"@) && plus_free("shift"@),
{
    lemma_reveal_modifier_names();
    reveal_strlit("cmd");
    reveal_strlit("command");
    reveal_strlit("opt");
    reveal_strlit("option");
    reveal_strlit("alt");
    reveal_strlit("ctrl");
    reveal_strlit("control");
    reveal_strlit("shift");
    reveal_strlit("fn");
    reveal_strlit("globe");
    assert("cmd"@.len() == 3 && "command"@.len() == 7 && "opt"@.len() == 3 && "option"@.len() == 6);
    assert("alt"@.len() == 3 && "ctrl"@.len() == 4 && "control"@.len() == 7 && "shift"@.len() == 5);
    assert("fn"@.len() == 2 && "globe"@.len() == 5);
    assert("alt"@[0] != "cmd"@[0] && "alt"@[0] != "opt"@[0]);
    assert("control"@[2] != "command"@[2]);
    assert("globe"@[0] != "shift"@[0]);
}

proof fn lemma_parts_modifiers_first_alike(a: Seq<char>, b: Seq<char>, rest: Seq<Seq<char>>)
    requires
        modifier_named(a) == modifier_named(b),
        modifier_named(a) is Some,
    ensures
        parts_modifiers(seq![a] + rest) == parts_modifiers(seq![b] + rest),
    decreases rest.len(),
{
    if rest.len() == 0 {
        assert(seq![a] + rest =~= seq![a]);
        assert(seq![b] + rest =~= seq![b]);
        assert(seq![a].drop_last() =~= Seq::<Seq<char>>::empty());
        assert(seq![b].drop_last() =~= Seq::<Seq<char>>::empty());
        assert(parts_modifiers(Seq::<Seq<char>>::empty()) == Ok::<Modifiers, Seq<char>>(Modifiers::spec_empty()));
        assert(seq![a].last() == a && seq![b].last() == b);
        assert(parts_modifiers(seq![a]) == parts_modifiers(seq![b]));
    } else {
        let ra = seq![a] + rest;
        let rb = seq![b] + rest;
        lemma_parts_modifiers_first_alike(a, b, rest.drop_last());
        assert((seq![a] + rest).drop_last() =~= seq![a] + rest.drop_last());
        assert((seq![b] + rest).drop_last() =~= seq![b] + rest.drop_last());
        assert((seq![a] + rest).last() == rest.last());
        assert((seq![b] + rest).last() == rest.last());
        assert(parts_modifiers(ra) == parts_modifiers(rb));
    }
}

proof fn lemma_alias_parses_alike(a: Seq<char>, b: Seq<char>, r: Seq<char>)
    requires
        modifier_named(a) == modifier_named(b),
        modifier_named(a) is Some,
        plus_free(a),
        plus_free(b),
    ensures
        parse_lowercase_combo(a + seq!['+'] + r) == parse_lowercase_combo(b + seq!['+'] + r),
        parse_lowercase_token(a) == parse_lowercase_token(b),
{
    lemma_split_after_name(a, r);
    lemma_split_after_name(b, r);
    lemma_split_plus_nonempty(r);
    let p = split_plus(r);
    let pa = seq![a] + p;
    let pb = seq![b] + p;
    assert(pa.drop_last() =~= seq![a] + p.drop_last());
    assert(pb.drop_last() =~= seq![b] + p.drop_last());
    assert(pa.last() == p.last() && pb.last() == p.last());
    lemma_parts_modifiers_first_alike(a, b, p.drop_last());
}

/// Every documented modifier alias means the same modifier as its canonical
/// name, and each canonical name means exactly its own modifier: `cmd` and
/// `command` are Command, `opt`, `option` and `alt` Option, `ctrl` and
/// `control` Control, `shift` Shift, `fn` and `globe` Fn. So a combo text
/// or a filter token reads the same whichever of the names it uses.
pub proof fn modifier_aliases_mean_their_modifier(rest: Seq<char>)
    ensures
        modifier_named("cmd"@) == Some(Modifiers { cmd: true, ..Modifiers::spec_empty() }),
        modifier_named("opt"@) == Some(Modifiers { opt: true, ..Modifiers::spec_empty() }),
        modifier_named("ctrl"@) == Some(Modifiers { ctrl: true, ..Modifiers::spec_empty() }),
        modifier_named("shift"@) == Some(Modifiers { shift: true, ..Modifiers::spec_empty() }),
        modifier_named("fn"@) == Some(Modifiers { function: true, ..Modifiers::spec_empty() }),
        modifier_named("command"@) == modifier_named("cmd"@),
        modifier_named("option"@) == modifier_named("opt"@),
        modifier_named("alt"@) == modifier_named("opt"@),
        modifier_named("control"@) == modifier_named("ctrl"@),
        modifier_named("globe"@) == modifier_named("fn"@),
        parse_lowercase_combo("alt"@ + seq!['+'] + rest) == parse_lowercase_combo("opt"@ + seq!['+'] + rest),
        parse_lowercase_combo("option"@ + seq!['+'] + rest) == parse_lowercase_combo("opt"@ + seq!['+'] + rest),
        parse_lowercase_combo("command"@ + seq!['+'] + rest) == parse_lowercase_combo("cmd"@ + seq!['+'] + rest),
        parse_lowercase_combo("control"@ + seq!['+'] + rest) == parse_lowercase_combo("ctrl"@ + seq!['+'] + rest),
        parse_lowercase_combo("globe"@ + seq!['+'] + rest) == parse_lowercase_combo("fn"@ + seq!['+'] + rest),
        parse_lowercase_token("alt"@) == parse_lowercase_token("opt"@),
        parse_lowercase_token("option"@) == parse_lowercase_token("opt"@),
        parse_lowercase_token("command"@) == parse_lowercase_token("cmd"@),
        parse_lowercase_token("control"@) == parse_lowercase_token("ctrl"@),
        parse_lowercase_token("globe"@) == parse_lowercase_token("fn"@),
{
    lemma_reveal_modifier_names();
    lemma_reveal_modifier_aliases();
    lemma_alias_parses_alike("alt"@, "opt"@, rest);
    lemma_alias_parses_alike("option"@, "opt"@, rest);
    lemma_alias_parses_alike("command"@, "cmd"@, rest);
    lemma_alias_parses_alike("control"@, "ctrl"@, rest);
    lemma_alias_parses_alike("globe"@, "fn"@, rest);
}

/// A modifier token matches exactly the combos that hold every modifier it
/// names (the combo's modifiers already include the token's), and a key
/// token exactly the combos with that key. So the token `shift` matches a
/// combo just when the combo holds Shift, and likewise for each modifier
/// name.
pub proof fn tokens_match_combos_that_contain_them(m: Modifiers, k: Key, c: KeyCombo)
    ensures
        token_matches(ComboToken::Modifier(m), c) <==> m.spec_union(c.modifiers) == c.modifiers,
        token_matches(ComboToken::Key(k), c) <==> c.key == k,
        parse_lowercase_token("shift"@) matches Ok(t) && (token_matches(t, c) <==> c.modifiers.shift),
        parse_lowercase_token("cmd"@) matches Ok(t) && (token_matches(t, c) <==> c.modifiers.cmd),
        parse_lowercase_token("opt"@) matches Ok(t) && (token_matches(t, c) <==> c.modifiers.opt),
        parse_lowercase_token("ctrl"@) matches Ok(t) && (token_matches(t, c) <==> c.modifiers.ctrl),
        parse_lowercase_token("fn"@) matches Ok(t) && (token_matches(t, c) <==> c.modifiers.function),
{
    lemma_reveal_modifier_names();
    let u = m.spec_union(c.modifiers);
    if token_matches(ComboToken::Modifier(m), c) {
        assert(u == c.modifiers);
    }
    if u == c.modifiers {
        assert(u.cmd == c.modifiers.cmd && u.opt == c.modifiers.opt && u.ctrl == c.modifiers.ctrl);
        assert(u.shift == c.modifiers.shift && u.function == c.modifiers.function);
    }
}

} // verus!
