//! Parser for per-app `NSUserKeyEquivalents` overrides.
//!
//! Each app's `~/Library/Preferences/<bundle_id>.plist` may contain an
//! `NSUserKeyEquivalents` dictionary that the user populates via System
//! Settings → Keyboard → Keyboard Shortcuts → App Shortcuts. Keys are menu
//! item titles (`"New"`, `"Save All"`); values are keystroke shorthand:
//! `@` = Command, `~` = Option, `$` = Shift, `^` = Control, followed by the
//! literal key character. So `@~n` denotes ⌘⌥N.

use vstd::prelude::*;

use vstd::utf8::encode_utf8;

use crate::binding::{is_schema_error, schema_error, Binding, BindingSource, ScanError};
use crate::keys::{spec_is_control, spec_key_from_char, is_control, Key, KeyCombo, Modifiers, NamedKey};
use crate::paths::{extension, file_stem, has_plist_extension, path_file_stem};
use crate::plist_file::{
    field, keys_distinct, lookup, parse_value, read_root, spec_as_dictionary, spec_as_string, well_keyed,
    PlistValue,
};
use crate::text::{
    chars_of, lemma_insert_multiset, lemma_seq_lt_asymmetric, lemma_seq_lt_le, lemma_seq_lt_total,
    lemma_seq_lt_transitive, seq_lt, str_lt,
};

verus! {

broadcast use vstd::string::group_string_axioms;

/// Whether `c` is one of the modifier prefix characters `@ ~ $ ^`.
pub open spec fn is_modifier_char(c: char) -> bool {
    c == '@' || c == '~' || c == '$' || c == '^'
}

/// The modifier a prefix character stands for.
pub open spec fn modifier_of(c: char) -> Modifiers {
    Modifiers {
        cmd: c == '@',
        opt: c == '~',
        ctrl: c == '^',
        shift: c == '$',
        function: false,
    }
}

/// The length of the run of modifier characters that `s` starts with.
pub open spec fn modifier_run(s: Seq<char>) -> nat
    decreases s.len(),
{
    if s.len() > 0 && is_modifier_char(s[0]) {
        1 + modifier_run(s.drop_first())
    } else {
        0
    }
}

/// The modifiers named by the run of modifier characters that `s` starts
/// with.
pub open spec fn run_modifiers(s: Seq<char>) -> Modifiers
    decreases s.len(),
{
    if s.len() > 0 && is_modifier_char(s[0]) {
        modifier_of(s[0]).spec_union(run_modifiers(s.drop_first()))
    } else {
        Modifiers::spec_empty()
    }
}

/// What keystroke shorthand denotes: modifier prefix characters in any
/// order, then exactly one key character, which must not be a control
/// character that names no key.
pub open spec fn spec_parse_keystroke(s: Seq<char>) -> Option<KeyCombo> {
    let n = modifier_run(s);
    if s.len() != n + 1 {
        None
    } else {
        let key = spec_key_from_char(s[n as int]);
        if key matches Key::Char(c) && spec_is_control(c) {
            None
        } else {
            Some(KeyCombo { modifiers: run_modifiers(s), key })
        }
    }
}

proof fn lemma_single_prefix(p: char, k: char)
    requires
        is_modifier_char(p),
        !is_modifier_char(k),
    ensures
        modifier_run(seq![p, k]) == 1,
        run_modifiers(seq![p, k]) == modifier_of(p),
{
    let s = seq![p, k];
    assert(s.drop_first() =~= seq![k]);
    assert(seq![k].drop_first() =~= Seq::<char>::empty());
    assert(modifier_run(seq![k]) == 0);
    assert(run_modifiers(seq![k]) == Modifiers::spec_empty());
}

/// What each prefix character of the shorthand means (`NSUserKeyEquivalents`
/// uses the `NSMenuItem` key-equivalent notation): `@` alone is Command,
/// `~` alone Option, `$` alone Shift and `^` alone Control, each followed by
/// the key character, which keeps the key it stands for; a key with no
/// prefix has no modifier. So `@` + `NSUpArrowFunctionKey` (U+F700) is
/// Command + Up.
pub proof fn keystroke_prefixes_mean_their_modifier(k: char)
    requires
        !is_modifier_char(k),
        !(spec_key_from_char(k) matches Key::Char(c) && spec_is_control(c)),
    ensures
        spec_parse_keystroke(seq!['@', k]) == Some(
            KeyCombo { modifiers: Modifiers { cmd: true, ..Modifiers::spec_empty() }, key: spec_key_from_char(k) },
        ),
        spec_parse_keystroke(seq!['~', k]) == Some(
            KeyCombo { modifiers: Modifiers { opt: true, ..Modifiers::spec_empty() }, key: spec_key_from_char(k) },
        ),
        spec_parse_keystroke(seq!['$', k]) == Some(
            KeyCombo { modifiers: Modifiers { shift: true, ..Modifiers::spec_empty() }, key: spec_key_from_char(k) },
        ),
        spec_parse_keystroke(seq!['^', k]) == Some(
            KeyCombo { modifiers: Modifiers { ctrl: true, ..Modifiers::spec_empty() }, key: spec_key_from_char(k) },
        ),
        spec_parse_keystroke(seq![k]) == Some(KeyCombo { modifiers: Modifiers::spec_empty(), key: spec_key_from_char(k) }),
        spec_parse_keystroke(seq!['@', '\u{F700}']) == Some(
            KeyCombo { modifiers: Modifiers { cmd: true, ..Modifiers::spec_empty() }, key: Key::Named(NamedKey::Up) },
        ),
{
    lemma_single_prefix('@', k);
    lemma_single_prefix('~', k);
    lemma_single_prefix('$', k);
    lemma_single_prefix('^', k);
    lemma_single_prefix('@', '\u{F700}');
    assert(seq![k].drop_first() =~= Seq::<char>::empty());
    assert(modifier_run(seq![k]) == 0);
    assert(seq!['\u{F700}'].drop_first() =~= Seq::<char>::empty());
}

proof fn lemma_run_step(s: Seq<char>, i: int)
    requires
        0 <= i < s.len(),
        is_modifier_char(s[i]),
    ensures
        modifier_run(s.skip(i)) == 1 + modifier_run(s.skip(i + 1)),
        run_modifiers(s.skip(i)) == modifier_of(s[i]).spec_union(run_modifiers(s.skip(i + 1))),
{
    assert(s.skip(i).drop_first() =~= s.skip(i + 1));
}

/// Parse keystroke shorthand into a combo; `None` for malformed input (no
/// key, more than one key character, or an unnamed control character).
pub fn parse_keystroke(s: &str) -> (r: Option<KeyCombo>)
    ensures
        r == spec_parse_keystroke(s@),
{
    let chars = chars_of(s);
    let mut modifiers = Modifiers::empty();
    let mut i: usize = 0;
    assert(chars@.skip(0) =~= chars@);
    while i < chars.len() && (chars[i] == '@' || chars[i] == '~' || chars[i] == '$' || chars[i]
        == '^')
        invariant
            chars@ == s@,
            i <= chars.len(),
            modifier_run(s@) == i + modifier_run(s@.skip(i as int)),
            run_modifiers(s@) == modifiers.spec_union(run_modifiers(s@.skip(i as int))),
        decreases chars.len() - i,
    {
        proof {
            lemma_run_step(s@, i as int);
        }
        let c = chars[i];
        let m = Modifiers {
            cmd: c == '@',
            opt: c == '~',
            ctrl: c == '^',
            shift: c == '$',
            function: false,
        };
        modifiers = modifiers.union(m);
        i = i + 1;
    }
    proof {
        if i < chars.len() {
            assert(s@.skip(i as int)[0] == s@[i as int]);
        }
        assert(modifier_run(s@.skip(i as int)) == 0);
        assert(run_modifiers(s@.skip(i as int)) == Modifiers::spec_empty());
    }
    if i >= chars.len() || chars.len() - i != 1 {
        return None;
    }
    let key = Key::from_char(chars[i]);
    if let Key::Char(c) = key {
        if is_control(c) {
            return None;
        }
    }
    Some(KeyCombo { modifiers, key })
}

/// The modifiers named by a set of prefix characters.
pub open spec fn modifiers_named(s: Seq<char>) -> Modifiers {
    Modifiers {
        cmd: s.contains('@'),
        opt: s.contains('~'),
        ctrl: s.contains('^'),
        shift: s.contains('$'),
        function: false,
    }
}

proof fn lemma_run_of_prefix(p: Seq<char>, k: char)
    requires
        forall|i: int| 0 <= i < p.len() ==> is_modifier_char(#[trigger] p[i]),
        !is_modifier_char(k),
    ensures
        modifier_run(p.push(k)) == p.len(),
        run_modifiers(p.push(k)) == modifiers_named(p),
    decreases p.len(),
{
    if p.len() == 0 {
        assert(p.push(k)[0] == k);
        assert(modifiers_named(p) == Modifiers::spec_empty());
    } else {
        let q = p.drop_first();
        assert(p.push(k).drop_first() =~= q.push(k));
        lemma_run_of_prefix(q, k);
        assert(p.push(k)[0] == p[0]);
        assert forall|c: char| p.contains(c) <==> (c == p[0] || q.contains(c)) by {
            if p.contains(c) {
                let j = choose|j: int| 0 <= j < p.len() && p[j] == c;
                if j > 0 {
                    assert(q[j - 1] == c);
                }
            }
            if q.contains(c) {
                let j = choose|j: int| 0 <= j < q.len() && q[j] == c;
                assert(p[j + 1] == c);
            }
        }
    }
}

/// The order of the modifier prefix characters is irrelevant: two shorthands
/// whose prefixes name the same modifier characters, followed by the same
/// key character, parse alike.
pub proof fn modifier_order_is_irrelevant(p1: Seq<char>, p2: Seq<char>, k: char)
    requires
        forall|i: int| 0 <= i < p1.len() ==> is_modifier_char(#[trigger] p1[i]),
        forall|i: int| 0 <= i < p2.len() ==> is_modifier_char(#[trigger] p2[i]),
        forall|c: char| p1.contains(c) <==> p2.contains(c),
        !is_modifier_char(k),
    ensures
        spec_parse_keystroke(p1.push(k)) == spec_parse_keystroke(p2.push(k)),
{
    lemma_run_of_prefix(p1, k);
    lemma_run_of_prefix(p2, k);
    assert(modifiers_named(p1) == modifiers_named(p2));
    assert(p1.push(k)[p1.len() as int] == k);
    assert(p2.push(k)[p2.len() as int] == k);
}

/// Longest menu item title, in bytes, that is read.
pub const MAX_MENU_ITEM_BYTES: usize = 1024;
/// Most overrides read from one plist.
pub const MAX_BINDINGS_PER_PLIST: usize = 1024;
/// Most plists read from one preferences directory.
pub const MAX_PREFERENCE_PLISTS: usize = 10000;
/// Most overrides gathered from one preferences directory.
pub const MAX_TOTAL_OVERRIDE_BINDINGS: usize = 10000;

/// Walks every plist in a preferences directory looking for
/// `NSUserKeyEquivalents` overrides.
#[derive(Clone, Debug)]
pub struct AppMenuOverrides {
    prefs_dir: String,
}

impl AppMenuOverrides {
    /// A source walking the given preferences directory (typically
    /// `~/Library/Preferences`).
    pub fn new(prefs_dir: String) -> (s: AppMenuOverrides)
        ensures
            s.spec_prefs_dir() == prefs_dir@,
    {
        AppMenuOverrides { prefs_dir }
    }

    pub closed spec fn spec_prefs_dir(&self) -> Seq<char> {
        self.prefs_dir@
    }

    /// The directory this source walks.
    pub fn prefs_dir(&self) -> (r: &str)
        ensures
            r@ == self.spec_prefs_dir(),
    {
        self.prefs_dir.as_str()
    }

    /// The source's name.
    pub fn name(&self) -> (r: &'static str)
        ensures
            r@ == "nsuserkeyequivalents"@,
    {
        "nsuserkeyequivalents"
    }
}

/// The combo an `NSUserKeyEquivalents` entry binds its menu item to, if the
/// entry is usable: a title of at most `MAX_MENU_ITEM_BYTES` bytes and a
/// string value holding valid shorthand.
pub open spec fn entry_row(title: Seq<char>, value: PlistValue) -> Option<KeyCombo> {
    if encode_utf8(title).len() > MAX_MENU_ITEM_BYTES {
        None
    } else {
        match spec_as_string(value) {
            Some(s) => spec_parse_keystroke(s),
            None => None,
        }
    }
}

/// The usable entries, as `(title, combo)` rows in document order.
pub open spec fn override_rows(entries: Seq<(String, PlistValue)>) -> Seq<(Seq<char>, KeyCombo)>
    decreases entries.len(),
{
    if entries.len() == 0 {
        seq![]
    } else {
        let prev = override_rows(entries.drop_last());
        let last = entries.last();
        match entry_row(last.0@, last.1) {
            Some(c) => prev.push((last.0@, c)),
            None => prev,
        }
    }
}

/// The rows that are kept: the first `MAX_BINDINGS_PER_PLIST` usable ones.
pub open spec fn kept_rows(entries: Seq<(String, PlistValue)>) -> Seq<(Seq<char>, KeyCombo)> {
    let rows = override_rows(entries);
    if rows.len() > MAX_BINDINGS_PER_PLIST {
        rows.take(MAX_BINDINGS_PER_PLIST as int)
    } else {
        rows
    }
}

/// The entries of a plist root's `NSUserKeyEquivalents` dictionary (none
/// when the root is not a dictionary or has no such dictionary).
pub open spec fn equivalent_entries(root: PlistValue) -> Seq<(String, PlistValue)> {
    match field(root, "NSUserKeyEquivalents"@) {
        Some(v) => match spec_as_dictionary(v) {
            Some(es) => es,
            None => seq![],
        },
        None => seq![],
    }
}

/// The row a binding stands for.
pub open spec fn row_of(b: Binding) -> (Seq<char>, KeyCombo) {
    (b.label@, b.combo)
}

/// `b` is an override binding of the app `bundle_id` for its menu item
/// titled like the binding's label.
pub open spec fn is_override_of(b: Binding, bundle_id: Seq<char>) -> bool {
    b.source matches BindingSource::AppMenuOverride { bundle_id: x, menu_item: m } && x@
        == bundle_id && m@ == b.label@
}

/// `row` inserted into `rows` after every row whose title does not come
/// after its own.
pub open spec fn insert_row(rows: Seq<(Seq<char>, KeyCombo)>, row: (Seq<char>, KeyCombo)) -> Seq<(Seq<char>, KeyCombo)>
    decreases rows.len(),
{
    if rows.len() == 0 {
        seq![row]
    } else if seq_lt(row.0, rows[0].0) {
        seq![row] + rows
    } else {
        seq![rows[0]] + insert_row(rows.drop_first(), row)
    }
}

/// The stable sort of `rows` by title: rows with equal titles keep their
/// document order.
pub open spec fn title_sorted(rows: Seq<(Seq<char>, KeyCombo)>) -> Seq<(Seq<char>, KeyCombo)>
    decreases rows.len(),
{
    if rows.len() == 0 {
        seq![]
    } else {
        insert_row(title_sorted(rows.drop_last()), rows.last())
    }
}

proof fn lemma_insert_row_at(rows: Seq<(Seq<char>, KeyCombo)>, row: (Seq<char>, KeyCombo), pos: int)
    requires
        0 <= pos <= rows.len(),
        forall|k: int| 0 <= k < pos ==> !seq_lt(row.0, (#[trigger] rows[k]).0),
        pos < rows.len() ==> seq_lt(row.0, rows[pos].0),
    ensures
        insert_row(rows, row) == rows.insert(pos, row),
    decreases rows.len(),
{
    if rows.len() == 0 {
        assert(rows.insert(pos, row) =~= seq![row]);
    } else if pos == 0 {
        assert(rows.insert(pos, row) =~= seq![row] + rows);
    } else {
        let t = rows.drop_first();
        assert forall|k: int| 0 <= k < pos - 1 implies !seq_lt(row.0, (#[trigger] t[k]).0) by {
            assert(t[k] == rows[k + 1]);
        }
        if pos < rows.len() {
            assert(t[pos - 1] == rows[pos]);
        }
        assert(!seq_lt(row.0, rows[0].0));
        lemma_insert_row_at(t, row, pos - 1);
        assert(rows.insert(pos, row) =~= seq![rows[0]] + t.insert(pos - 1, row));
    }
}

/// The rows of `rows` titled `t`, in order.
pub open spec fn with_title(rows: Seq<(Seq<char>, KeyCombo)>, t: Seq<char>) -> Seq<(Seq<char>, KeyCombo)>
    decreases rows.len(),
{
    if rows.len() == 0 {
        seq![]
    } else {
        (if rows[0].0 == t { seq![rows[0]] } else { seq![] }) + with_title(rows.drop_first(), t)
    }
}

/// Whether rows are ordered by title (equal titles allowed).
pub open spec fn rows_by_title(rows: Seq<(Seq<char>, KeyCombo)>) -> bool {
    forall|i: int, j: int| 0 <= i < j < rows.len() ==> !seq_lt((#[trigger] rows[j]).0, (#[trigger] rows[i]).0)
}

proof fn lemma_with_title_push(rows: Seq<(Seq<char>, KeyCombo)>, row: (Seq<char>, KeyCombo), t: Seq<char>)
    ensures
        with_title(rows.push(row), t) == with_title(rows, t) + (if row.0 == t { seq![row] } else { seq![] }),
    decreases rows.len(),
{
    let u = rows.push(row);
    let e = if row.0 == t { seq![row] } else { Seq::<(Seq<char>, KeyCombo)>::empty() };
    if rows.len() == 0 {
        assert(u.drop_first() =~= Seq::<(Seq<char>, KeyCombo)>::empty());
        assert(u[0] == row);
        assert(with_title(u.drop_first(), t) == Seq::<(Seq<char>, KeyCombo)>::empty());
        assert(with_title(rows, t) == Seq::<(Seq<char>, KeyCombo)>::empty());
        assert(e + Seq::<(Seq<char>, KeyCombo)>::empty() =~= Seq::<(Seq<char>, KeyCombo)>::empty() + e);
    } else {
        lemma_with_title_push(rows.drop_first(), row, t);
        assert(u.drop_first() =~= rows.drop_first().push(row));
        assert(u[0] == rows[0]);
        let h = if rows[0].0 == t { seq![rows[0]] } else { Seq::<(Seq<char>, KeyCombo)>::empty() };
        assert(h + (with_title(rows.drop_first(), t) + e) =~= (h + with_title(rows.drop_first(), t)) + e);
    }
}

proof fn lemma_with_title_none(rows: Seq<(Seq<char>, KeyCombo)>, t: Seq<char>)
    requires
        forall|j: int| 0 <= j < rows.len() ==> (#[trigger] rows[j]).0 != t,
    ensures
        with_title(rows, t) == Seq::<(Seq<char>, KeyCombo)>::empty(),
    decreases rows.len(),
{
    if rows.len() > 0 {
        assert(rows[0].0 != t);
        assert forall|j: int| 0 <= j < rows.drop_first().len() implies (#[trigger] rows.drop_first()[j]).0 != t by {
            assert(rows.drop_first()[j] == rows[j + 1]);
        }
        lemma_with_title_none(rows.drop_first(), t);
        assert(Seq::<(Seq<char>, KeyCombo)>::empty() + Seq::<(Seq<char>, KeyCombo)>::empty()
            =~= Seq::<(Seq<char>, KeyCombo)>::empty());
    }
}

proof fn lemma_with_title_insert(rows: Seq<(Seq<char>, KeyCombo)>, row: (Seq<char>, KeyCombo), pos: int, t: Seq<char>)
    requires
        rows_by_title(rows),
        0 <= pos <= rows.len(),
        forall|j: int| 0 <= j < pos ==> !seq_lt(row.0, (#[trigger] rows[j]).0),
        pos < rows.len() ==> seq_lt(row.0, rows[pos].0),
    ensures
        with_title(rows.insert(pos, row), t) == with_title(rows.push(row), t),
    decreases rows.len(),
{
    lemma_with_title_push(rows, row, t);
    if pos == rows.len() {
        assert(rows.insert(pos, row) =~= rows.push(row));
    } else if pos == 0 {
        let u = rows.insert(0, row);
        assert(u.drop_first() =~= rows);
        assert(u[0] == row);
        if row.0 == t {
            assert forall|j: int| 0 <= j < rows.len() implies (#[trigger] rows[j]).0 != t by {
                lemma_seq_lt_asymmetric(row.0, row.0);
                if j > 0 {
                    assert(!seq_lt(rows[j].0, rows[0].0));
                    lemma_seq_lt_le(row.0, rows[0].0, rows[j].0);
                }
            }
            lemma_with_title_none(rows, t);
            assert(seq![row] + Seq::<(Seq<char>, KeyCombo)>::empty() =~= Seq::<(Seq<char>, KeyCombo)>::empty()
                + seq![row]);
        } else {
            assert(Seq::<(Seq<char>, KeyCombo)>::empty() + with_title(rows, t) =~= with_title(rows, t)
                + Seq::<(Seq<char>, KeyCombo)>::empty());
        }
    } else {
        let rest = rows.drop_first();
        assert forall|i: int, j: int| 0 <= i < j < rest.len() implies !seq_lt(
            (#[trigger] rest[j]).0,
            (#[trigger] rest[i]).0,
        ) by {
            assert(rest[i] == rows[i + 1] && rest[j] == rows[j + 1]);
        }
        assert forall|j: int| 0 <= j < pos - 1 implies !seq_lt(row.0, (#[trigger] rest[j]).0) by {
            assert(rest[j] == rows[j + 1]);
        }
        if pos < rows.len() {
            assert(rest[pos - 1] == rows[pos]);
        }
        lemma_with_title_insert(rest, row, pos - 1, t);
        let u = rows.insert(pos, row);
        assert(u[0] == rows[0]);
        assert(u.drop_first() =~= rest.insert(pos - 1, row));
        let v = rows.push(row);
        assert(v[0] == rows[0]);
        assert(v.drop_first() =~= rest.push(row));
    }
}

proof fn lemma_row_step_keeps_titles(
    before: Seq<(Seq<char>, KeyCombo)>,
    row: (Seq<char>, KeyCombo),
    pos: int,
    prefix: Seq<(Seq<char>, KeyCombo)>,
)
    requires
        rows_by_title(before),
        0 <= pos <= before.len(),
        forall|j: int| 0 <= j < pos ==> !seq_lt(row.0, (#[trigger] before[j]).0),
        pos < before.len() ==> seq_lt(row.0, before[pos].0),
        forall|t: Seq<char>| #[trigger] with_title(before, t) == with_title(prefix, t),
    ensures
        forall|t: Seq<char>| #[trigger] with_title(before.insert(pos, row), t) == with_title(prefix.push(row), t),
{
    assert forall|t: Seq<char>| #[trigger] with_title(before.insert(pos, row), t) == with_title(prefix.push(row), t) by {
        lemma_with_title_insert(before, row, pos, t);
        lemma_with_title_push(before, row, t);
        lemma_with_title_push(prefix, row, t);
    }
}

/// `bindings` are the override bindings of `rows` for the app `bundle_id`:
/// one per row, in the stable order of their menu item titles (ordered by
/// title, the same rows counted with multiplicity, and rows of equal title
/// in their document order), each naming the app and its menu item.
pub open spec fn override_bindings(bundle_id: Seq<char>, rows: Seq<(Seq<char>, KeyCombo)>, bindings: Seq<Binding>) -> bool {
    &&& bindings.map_values(|b: Binding| row_of(b)) == title_sorted(rows)
    &&& bindings.map_values(|b: Binding| row_of(b)).to_multiset() == rows.to_multiset()
    &&& forall|t: Seq<char>|
        with_title(bindings.map_values(|b: Binding| row_of(b)), t) == #[trigger] with_title(rows, t)
    &&& forall|i: int| 0 <= i < bindings.len() ==> is_override_of(#[trigger] bindings[i], bundle_id)
    &&& forall|i: int, j: int|
        0 <= i < j < bindings.len() ==> !seq_lt(
            (#[trigger] bindings[j]).label@,
            (#[trigger] bindings[i]).label@,
        )
}

proof fn lemma_rows_prefix(entries: Seq<(String, PlistValue)>, i: int, j: int)
    requires
        0 <= i <= j <= entries.len(),
    ensures
        override_rows(entries.take(i)).len() <= override_rows(entries.take(j)).len(),
        override_rows(entries.take(i)) == override_rows(entries.take(j)).take(
            override_rows(entries.take(i)).len() as int,
        ),
    decreases j - i,
{
    if i < j {
        lemma_rows_prefix(entries, i, j - 1);
        assert(entries.take(j).drop_last() =~= entries.take(j - 1));
        let a = override_rows(entries.take(i));
        let b = override_rows(entries.take(j - 1));
        let c = override_rows(entries.take(j));
        assert(c == b || c == b.push(c.last()));
        assert(c.take(a.len() as int) =~= b.take(a.len() as int));
    } else {
        let a = override_rows(entries.take(i));
        assert(a.take(a.len() as int) =~= a);
    }
}

/// Insert `b` after every binding whose title does not come after its own,
/// keeping the bindings ordered by title.
fn insert_by_title(bindings: &mut Vec<Binding>, b: Binding) -> (pos: usize)
    requires
        forall|i: int, j: int|
            0 <= i < j < old(bindings)@.len() ==> !seq_lt(
                (#[trigger] old(bindings)@[j]).label@,
                (#[trigger] old(bindings)@[i]).label@,
            ),
    ensures
        forall|i: int, j: int|
            0 <= i < j < final(bindings)@.len() ==> !seq_lt(
                (#[trigger] final(bindings)@[j]).label@,
                (#[trigger] final(bindings)@[i]).label@,
            ),
        pos <= old(bindings)@.len(),
        final(bindings)@ == old(bindings)@.insert(pos as int, b),
        forall|k: int| 0 <= k < pos ==> !seq_lt(b.label@, #[trigger] old(bindings)@[k].label@),
        pos < old(bindings)@.len() ==> seq_lt(b.label@, old(bindings)@[pos as int].label@),
{
    let mut pos: usize = 0;
    while pos < bindings.len() && !str_lt(b.label.as_str(), bindings[pos].label.as_str())
        invariant
            pos <= bindings.len(),
            forall|k: int| 0 <= k < pos ==> !seq_lt(b.label@, #[trigger] bindings@[k].label@),
        decreases bindings.len() - pos,
    {
        pos = pos + 1;
    }
    let ghost before = bindings@;
    bindings.insert(pos, b);
    proof {
        before.insert_ensures(pos as int, b);
        assert forall|i: int, j: int| 0 <= i < j < bindings@.len() implies !seq_lt(
            (#[trigger] bindings@[j]).label@,
            (#[trigger] bindings@[i]).label@,
        ) by {
            if j < pos {
                assert(bindings@[i] == before[i] && bindings@[j] == before[j]);
            } else if j == pos {
                assert(bindings@[i] == before[i]);
            } else if i < pos {
                assert(bindings@[i] == before[i] && bindings@[j] == before[j - 1]);
            } else if i == pos {
                assert(bindings@[j] == before[j - 1]);
                assert(seq_lt(b.label@, before[pos as int].label@));
                if j - 1 > pos {
                    assert(!seq_lt(before[j - 1].label@, before[pos as int].label@));
                    lemma_seq_lt_le(b.label@, before[pos as int].label@, before[j - 1].label@);
                }
                lemma_seq_lt_asymmetric(b.label@, before[j - 1].label@);
            } else {
                assert(bindings@[i] == before[i - 1] && bindings@[j] == before[j - 1]);
            }
        }
    }
    pos
}

/// The bundle id a preferences plist belongs to: its file stem.
pub fn bundle_id_from_path(path: &str) -> (r: Option<String>)
    ensures
        r is Some <==> file_stem(path@) is Some,
        r matches Some(s) ==> file_stem(path@) == Some(s@),
{
    path_file_stem(path)
}

/// Parse one `<bundle_id>.plist` for its `NSUserKeyEquivalents` overrides,
/// from the bytes of a bounded read of it. A plist without overrides gives
/// no bindings (not an error): most apps have none.
pub fn parse(path: &str, bytes: &[u8]) -> (r: Result<Vec<Binding>, ScanError>)
    ensures
        match file_stem(path@) {
            None => r matches Err(e) && is_schema_error(e, path@, "filename has no bundle id stem"@),
            Some(stem) => match read_root(bytes@) {
                Err(m) => r matches Err(e) && is_schema_error(e, path@, m),
                Ok(root) => r matches Ok(bs) && override_bindings(
                    stem,
                    kept_rows(equivalent_entries(root)),
                    bs@,
                ) && bs@.len() <= MAX_BINDINGS_PER_PLIST && titles_increasing(bs@),
            },
        },
{
    let bundle_id = match bundle_id_from_path(path) {
        Some(b) => b,
        None => return Err(schema_error(path, "filename has no bundle id stem".to_owned())),
    };
    let value = parse_value(bytes, path)?;
    proof {
        lemma_equivalents_keys_distinct(value);
    }
    Ok(overrides_in(bundle_id.as_str(), &value))
}

proof fn lemma_lookup_member(entries: Seq<(String, PlistValue)>, key: Seq<char>)
    requires
        lookup(entries, key) is Some,
    ensures
        exists|k: int| 0 <= k < entries.len() && entries[k].1 == lookup(entries, key)->0,
    decreases entries.len(),
{
    if entries[0].0@ != key {
        lemma_lookup_member(entries.drop_first(), key);
        let k = choose|k: int|
            0 <= k < entries.drop_first().len() && entries.drop_first()[k].1 == lookup(entries.drop_first(), key)->0;
        assert(entries[k + 1].1 == lookup(entries, key)->0);
    }
}

proof fn lemma_equivalents_keys_distinct(root: PlistValue)
    requires
        well_keyed(root),
    ensures
        keys_distinct(equivalent_entries(root)),
{
    if let PlistValue::Dictionary(entries) = root {
        let key = "NSUserKeyEquivalents"@;
        if lookup(entries@, key) is Some {
            lemma_lookup_member(entries@, key);
            let k = choose|k: int| 0 <= k < entries@.len() && entries@[k].1 == lookup(entries@, key)->0;
            assert(well_keyed(entries@[k].1));
        }
    }
}

/// Whether the bindings' labels strictly increase.
pub open spec fn titles_increasing(bindings: Seq<Binding>) -> bool {
    forall|i: int, j: int|
        0 <= i < j < bindings.len() ==> seq_lt((#[trigger] bindings[i]).label@, (#[trigger] bindings[j]).label@)
}

proof fn lemma_insert_strict(before: Seq<Binding>, b: Binding, pos: int)
    requires
        titles_increasing(before),
        0 <= pos <= before.len(),
        forall|k: int| 0 <= k < pos ==> seq_lt((#[trigger] before[k]).label@, b.label@),
        pos < before.len() ==> seq_lt(b.label@, before[pos].label@),
    ensures
        titles_increasing(before.insert(pos, b)),
{
    let after = before.insert(pos, b);
    before.insert_ensures(pos, b);
    assert forall|x: int, y: int| 0 <= x < y < after.len() implies seq_lt(
        (#[trigger] after[x]).label@,
        (#[trigger] after[y]).label@,
    ) by {
        if y < pos {
            assert(after[x] == before[x] && after[y] == before[y]);
        } else if y == pos {
            assert(after[x] == before[x]);
        } else if x < pos {
            assert(after[x] == before[x] && after[y] == before[y - 1]);
        } else if x == pos {
            assert(after[y] == before[y - 1]);
            if y - 1 > pos {
                assert(seq_lt(before[pos].label@, before[y - 1].label@));
                lemma_seq_lt_transitive(b.label@, before[pos].label@, before[y - 1].label@);
            }
        } else {
            assert(after[x] == before[x - 1] && after[y] == before[y - 1]);
        }
    }
}

/// The overrides a decoded preferences plist of the app `bundle_id` holds:
/// the usable entries of its `NSUserKeyEquivalents` dictionary (none when
/// the root is not a dictionary or has no such dictionary), at most
/// `MAX_BINDINGS_PER_PLIST` of them, ordered by menu item title.
pub fn overrides_in(bundle_id: &str, value: &PlistValue) -> (r: Vec<Binding>)
    ensures
        override_bindings(bundle_id@, kept_rows(equivalent_entries(*value)), r@),
        r@.len() <= MAX_BINDINGS_PER_PLIST,
        keys_distinct(equivalent_entries(*value)) ==> titles_increasing(r@),
{
    let empty: Vec<(String, PlistValue)> = Vec::new();
    let entries: &Vec<(String, PlistValue)> = match value.get("NSUserKeyEquivalents") {
        Some(v) => match v.as_dictionary() {
            Some(d) => d,
            None => &empty,
        },
        None => &empty,
    };
    let ghost es = entries@;
    assert(es == equivalent_entries(*value));
    let mut bindings: Vec<Binding> = Vec::new();
    let mut i: usize = 0;
    assert(es.take(0) =~= Seq::<(String, PlistValue)>::empty());
    assert(bindings@.map_values(|b: Binding| row_of(b)) =~= Seq::<(Seq<char>, KeyCombo)>::empty());
    while i < entries.len() && bindings.len() < MAX_BINDINGS_PER_PLIST
        invariant
            es == entries@,
            i <= entries.len(),
            bindings@.len() <= MAX_BINDINGS_PER_PLIST,
            bindings@.len() == override_rows(es.take(i as int)).len(),
            override_bindings(bundle_id@, override_rows(es.take(i as int)), bindings@),
            forall|k: int|
                0 <= k < bindings@.len() ==> exists|j: int|
                    0 <= j < i && es[j].0@ == (#[trigger] bindings@[k]).label@,
            keys_distinct(es) ==> titles_increasing(bindings@),
        decreases entries.len() - i,
    {
        assert(es.take(i + 1).drop_last() =~= es.take(i as int));
        assert(es.take(i + 1).last() == es[i as int]);
        let title = &entries[i].0;
        let combo = if title.as_str().as_bytes().len() > MAX_MENU_ITEM_BYTES {
            None
        } else {
            match entries[i].1.as_string() {
                Some(s) => parse_keystroke(s),
                None => None,
            }
        };
        assert(combo == entry_row(es[i as int].0@, es[i as int].1));
        if let Some(c) = combo {
            let b = Binding {
                combo: c,
                source: BindingSource::AppMenuOverride {
                    bundle_id: bundle_id.to_owned(),
                    menu_item: title.clone(),
                },
                label: title.clone(),
            };
            let ghost before = bindings@;
            let ghost rows_before = override_rows(es.take(i as int));
            let at = insert_by_title(&mut bindings, b);
            proof {
                let pos = at as int;
                let before_rows = before.map_values(|x: Binding| row_of(x));
                assert forall|k: int| 0 <= k < pos implies !seq_lt(row_of(b).0, (#[trigger] before_rows[k]).0) by {
                    assert(before_rows[k] == row_of(before[k]));
                }
                if pos < before.len() {
                    assert(before_rows[pos] == row_of(before[pos]));
                }
                lemma_insert_row_at(before_rows, row_of(b), pos);
                assert forall|x: int, y: int| 0 <= x < y < before_rows.len() implies !seq_lt(
                    (#[trigger] before_rows[y]).0,
                    (#[trigger] before_rows[x]).0,
                ) by {
                    assert(before_rows[x] == row_of(before[x]) && before_rows[y] == row_of(before[y]));
                }
                lemma_row_step_keeps_titles(before_rows, row_of(b), pos, rows_before);
                assert(override_rows(es.take(i + 1)) == rows_before.push(row_of(b)));
                assert(rows_before.push(row_of(b)).drop_last() =~= rows_before);
                assert(es.take(i + 1).drop_last() =~= es.take(i as int));
                assert(bindings@.map_values(|x: Binding| row_of(x)) =~= before.map_values(
                    |x: Binding| row_of(x),
                ).insert(pos, row_of(b)));
                lemma_insert_multiset(before.map_values(|x: Binding| row_of(x)), pos, row_of(b));
                broadcast use vstd::seq_lib::group_to_multiset_ensures;

                assert(rows_before.push(row_of(b)).to_multiset() =~= rows_before.to_multiset().insert(
                    row_of(b),
                ));
                before.insert_ensures(pos, b);
                assert forall|k: int| 0 <= k < bindings@.len() implies exists|j: int|
                    0 <= j < i + 1 && es[j].0@ == (#[trigger] bindings@[k]).label@ by {
                    if k < pos {
                        assert(bindings@[k] == before[k]);
                    } else if k > pos {
                        assert(bindings@[k] == before[k - 1]);
                    } else {
                        assert(es[i as int].0@ == bindings@[k].label@);
                    }
                }
                if keys_distinct(es) {
                    assert forall|k: int| 0 <= k < pos implies seq_lt((#[trigger] before[k]).label@, b.label@) by {
                        let j = choose|j: int| 0 <= j < i && es[j].0@ == before[k].label@;
                        assert(es[j].0@ != es[i as int].0@);
                        assert(!seq_lt(b.label@, before_rows[k].0));
                        lemma_seq_lt_total(before[k].label@, b.label@);
                    }
                    lemma_insert_strict(before, b, pos);
                }
                assert forall|k: int| 0 <= k < bindings@.len() implies is_override_of(
                    #[trigger] bindings@[k],
                    bundle_id@,
                ) by {
                    if k < pos {
                        assert(bindings@[k] == before[k]);
                    } else if k > pos {
                        assert(bindings@[k] == before[k - 1]);
                    }
                }
            }
        }
        i = i + 1;
    }
    proof {
        let all = override_rows(es);
        assert(es.take(es.len() as int) =~= es);
        if i < entries.len() {
            lemma_rows_prefix(es, i as int, es.len() as int);
            assert(override_rows(es.take(i as int)).len() == MAX_BINDINGS_PER_PLIST);
            if all.len() == MAX_BINDINGS_PER_PLIST {
                assert(all.take(MAX_BINDINGS_PER_PLIST as int) =~= all);
            }
        } else {
            lemma_rows_prefix(es, i as int, es.len() as int);
        }
    }
    bindings
}

/// What to do with one entry of the preferences directory.
#[derive(Clone, Copy, Debug, PartialEq, Eq, Structural)]
pub enum EntryStep {
    /// Not a plist file: go on to the next entry.
    Skip,
    /// A plist file to parse and hand to [`OverrideScan::absorb`].
    Parse,
    /// Enough plists were read: stop walking the directory.
    Stop,
}

/// The state of a walk over a preferences directory that gathers the
/// overrides of every plist in it. The walk reads at most
/// `MAX_PREFERENCE_PLISTS` plists and keeps at most
/// `MAX_TOTAL_OVERRIDE_BINDINGS` overrides. Taken entry by entry over a
/// whole listing, the steps compute [`walk_listing`], whose result
/// [`directory_walk_gathers_first_overrides`] states.
pub struct OverrideScan {
    bindings: Vec<Binding>,
    plist_count: usize,
}

impl OverrideScan {
    #[verifier::type_invariant]
    spec fn bounded(self) -> bool {
        &&& self.bindings@.len() <= MAX_TOTAL_OVERRIDE_BINDINGS
        &&& self.plist_count <= MAX_PREFERENCE_PLISTS
    }

    /// The overrides gathered so far.
    pub closed spec fn gathered(self) -> Seq<Binding> {
        self.bindings@
    }

    /// How many plists were admitted for parsing so far.
    pub closed spec fn plists_admitted(self) -> nat {
        self.plist_count as nat
    }

    /// A walk that has seen nothing yet.
    pub fn new() -> (s: OverrideScan)
        ensures
            s.gathered() == Seq::<Binding>::empty(),
            s.plists_admitted() == 0,
    {
        OverrideScan { bindings: Vec::new(), plist_count: 0 }
    }

    /// Decide what to do with a directory entry: only regular files whose
    /// name has the extension `plist` are parsed, and none once
    /// `MAX_PREFERENCE_PLISTS` were.
    pub fn consider(&mut self, is_file: bool, path: &str) -> (step: EntryStep)
        ensures
            final(self).gathered() == old(self).gathered(),
            final(self).plists_admitted() <= MAX_PREFERENCE_PLISTS,
            !is_file || extension(path@) != Some(seq!['p', 'l', 'i', 's', 't']) ==> step
                == EntryStep::Skip && final(self).plists_admitted() == old(self).plists_admitted(),
            is_file && extension(path@) == Some(seq!['p', 'l', 'i', 's', 't'])
                && old(self).plists_admitted() == MAX_PREFERENCE_PLISTS ==> step == EntryStep::Stop
                && final(self).plists_admitted() == old(self).plists_admitted(),
            is_file && extension(path@) == Some(seq!['p', 'l', 'i', 's', 't'])
                && old(self).plists_admitted() < MAX_PREFERENCE_PLISTS ==> step == EntryStep::Parse
                && final(self).plists_admitted() == old(self).plists_admitted() + 1,
    {
        proof {
            use_type_invariant(&*self);
        }
        if !is_file || !has_plist_extension(path) {
            return EntryStep::Skip;
        }
        if self.plist_count == MAX_PREFERENCE_PLISTS {
            return EntryStep::Stop;
        }
        self.plist_count = self.plist_count + 1;
        EntryStep::Parse
    }

    /// Take in what parsing an admitted plist gave: a plist that failed to
    /// parse is skipped (most plists in the directory are unrelated
    /// preferences); otherwise its overrides are kept up to the total bound.
    /// Returns whether the walk should go on.
    pub fn absorb(&mut self, found: Result<Vec<Binding>, ScanError>) -> (go_on: bool)
        ensures
            final(self).plists_admitted() == old(self).plists_admitted(),
            final(self).gathered().len() <= MAX_TOTAL_OVERRIDE_BINDINGS,
            found is Err ==> final(self).gathered() == old(self).gathered() && go_on,
            found matches Ok(f) ==> {
                let room = MAX_TOTAL_OVERRIDE_BINDINGS - old(self).gathered().len();
                &&& final(self).gathered() == old(self).gathered() + at_most(f@, room as nat)
                &&& go_on == (final(self).gathered().len() < MAX_TOTAL_OVERRIDE_BINDINGS)
            },
    {
        proof {
            use_type_invariant(&*self);
        }
        let mut found = match found {
            Ok(f) => f,
            Err(_) => return true,
        };
        let room: usize = MAX_TOTAL_OVERRIDE_BINDINGS - self.bindings.len();
        let ghost f0 = found@;
        if found.len() > room {
            found.truncate(room);
        }
        assert(found@ =~= (if f0.len() <= room { f0 } else { f0.take(room as int) }));
        let mut bindings: Vec<Binding> = Vec::new();
        std::mem::swap(&mut bindings, &mut self.bindings);
        bindings.append(&mut found);
        let go_on = bindings.len() < MAX_TOTAL_OVERRIDE_BINDINGS;
        self.bindings = bindings;
        go_on
    }

    /// The overrides gathered by the walk.
    pub fn finish(self) -> (r: Vec<Binding>)
        ensures
            r@ == self.gathered(),
            r@.len() <= MAX_TOTAL_OVERRIDE_BINDINGS,
    {
        proof {
            use_type_invariant(&self);
        }
        self.bindings
    }
}

/// An entry of a preferences-directory listing, as the walk sees it: whether
/// it is a regular file, its path, and what parsing it gives (`None` when
/// the file fails to read or parse).
pub type ListedEntry = (bool, Seq<char>, Option<Seq<Binding>>);

/// Whether a listed entry is a regular file with the extension `plist`.
pub open spec fn is_plist_entry(e: ListedEntry) -> bool {
    e.0 && extension(e.1) == Some(seq!['p', 'l', 'i', 's', 't'])
}

/// The first `n` plist files of a listing, in listing order.
pub open spec fn first_plists(listing: Seq<ListedEntry>, n: nat) -> Seq<ListedEntry>
    decreases listing.len(),
{
    if listing.len() == 0 {
        seq![]
    } else if is_plist_entry(listing[0]) {
        if n == 0 {
            seq![]
        } else {
            seq![listing[0]] + first_plists(listing.drop_first(), (n - 1) as nat)
        }
    } else {
        first_plists(listing.drop_first(), n)
    }
}

/// The overrides of the entries that parse, in order.
pub open spec fn parsed_overrides(entries: Seq<ListedEntry>) -> Seq<Binding>
    decreases entries.len(),
{
    if entries.len() == 0 {
        seq![]
    } else {
        (match entries[0].2 {
            Some(f) => f,
            None => seq![],
        }) + parsed_overrides(entries.drop_first())
    }
}

/// At most the first `n` items of `s`.
pub open spec fn at_most<A>(s: Seq<A>, n: nat) -> Seq<A> {
    if s.len() <= n { s } else { s.take(n as int) }
}

/// What a walk over the rest of a listing gathers, from `gathered` with
/// `admitted` plists parsed so far, taking each entry as
/// [`OverrideScan::consider`] and [`OverrideScan::absorb`] do: entries that
/// are not plist files are skipped, the walk stops once
/// `MAX_PREFERENCE_PLISTS` plists were admitted, a plist that fails to parse
/// adds nothing, and the overrides of one that parses are kept up to the
/// total bound, where the walk stops.
pub open spec fn walk_listing(listing: Seq<ListedEntry>, gathered: Seq<Binding>, admitted: nat) -> Seq<Binding>
    decreases listing.len(),
{
    if listing.len() == 0 {
        gathered
    } else if !is_plist_entry(listing[0]) {
        walk_listing(listing.drop_first(), gathered, admitted)
    } else if admitted >= MAX_PREFERENCE_PLISTS {
        gathered
    } else {
        match listing[0].2 {
            None => walk_listing(listing.drop_first(), gathered, admitted + 1),
            Some(f) => {
                let room = (MAX_TOTAL_OVERRIDE_BINDINGS - gathered.len()) as nat;
                let next = gathered + at_most(f, room);
                if next.len() < MAX_TOTAL_OVERRIDE_BINDINGS {
                    walk_listing(listing.drop_first(), next, admitted + 1)
                } else {
                    next
                }
            },
        }
    }
}

proof fn lemma_walk_listing(listing: Seq<ListedEntry>, gathered: Seq<Binding>, admitted: nat)
    requires
        gathered.len() < MAX_TOTAL_OVERRIDE_BINDINGS,
        admitted <= MAX_PREFERENCE_PLISTS,
    ensures
        walk_listing(listing, gathered, admitted) == at_most(
            gathered + parsed_overrides(first_plists(listing, (MAX_PREFERENCE_PLISTS - admitted) as nat)),
            MAX_TOTAL_OVERRIDE_BINDINGS as nat,
        ),
    decreases listing.len(),
{
    let n = (MAX_PREFERENCE_PLISTS - admitted) as nat;
    if listing.len() == 0 {
        assert(gathered + Seq::<Binding>::empty() =~= gathered);
    } else if !is_plist_entry(listing[0]) {
        lemma_walk_listing(listing.drop_first(), gathered, admitted);
    } else if admitted >= MAX_PREFERENCE_PLISTS {
        assert(first_plists(listing, n) == Seq::<ListedEntry>::empty());
        assert(gathered + Seq::<Binding>::empty() =~= gathered);
    } else {
        let rest = first_plists(listing.drop_first(), (n - 1) as nat);
        let ps = first_plists(listing, n);
        assert(ps == seq![listing[0]] + rest);
        assert((seq![listing[0]] + rest)[0] == listing[0]);
        assert((seq![listing[0]] + rest).drop_first() =~= rest);
        match listing[0].2 {
            None => {
                assert(parsed_overrides(ps) =~= parsed_overrides(rest));
                lemma_walk_listing(listing.drop_first(), gathered, admitted + 1);
            },
            Some(f) => {
                assert(parsed_overrides(ps) == f + parsed_overrides(rest));
                let room = (MAX_TOTAL_OVERRIDE_BINDINGS - gathered.len()) as nat;
                let next = gathered + at_most(f, room);
                let tail = parsed_overrides(rest);
                if next.len() < MAX_TOTAL_OVERRIDE_BINDINGS {
                    assert(at_most(f, room) == f);
                    lemma_walk_listing(listing.drop_first(), next, admitted + 1);
                    assert(next + tail =~= gathered + (f + tail));
                } else {
                    assert(f.len() >= room);
                    assert((gathered + (f + tail)).take(MAX_TOTAL_OVERRIDE_BINDINGS as int) =~= gathered + f.take(
                        room as int,
                    ));
                }
            },
        }
    }
}

/// A walk over a whole preferences-directory listing, entry by entry with
/// [`OverrideScan::consider`] and [`OverrideScan::absorb`], gathers the
/// first `MAX_TOTAL_OVERRIDE_BINDINGS` overrides of the concatenation, in
/// listing order, of the overrides of the first `MAX_PREFERENCE_PLISTS`
/// plist files that parse; a plist that fails to read or parse is skipped
/// and never makes the walk fail.
pub proof fn directory_walk_gathers_first_overrides(listing: Seq<ListedEntry>)
    ensures
        walk_listing(listing, seq![], 0) == at_most(
            parsed_overrides(first_plists(listing, MAX_PREFERENCE_PLISTS as nat)),
            MAX_TOTAL_OVERRIDE_BINDINGS as nat,
        ),
{
    lemma_walk_listing(listing, seq![], 0);
    let p = parsed_overrides(first_plists(listing, MAX_PREFERENCE_PLISTS as nat));
    assert(Seq::<Binding>::empty() + p =~= p);
}

} // verus!
