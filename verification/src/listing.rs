//! The rules by which the command line filters, orders and logs what the
//! sources found.

use vstd::prelude::*;

use crate::accessibility::{lowercase, lowercase_terms, to_lowercase};
use crate::binding::{spec_bundle_id, spec_owner, Binding};
use crate::combo::{combo_text, token_matches, ComboToken};
use crate::keys::KeyCombo;
use crate::text::{
    chars_of, contains_chars, contains_seq, lemma_insert_multiset, lemma_seq_lt_asymmetric, lemma_seq_lt_total,
    lemma_seq_lt_transitive, seq_lt, str_eq, str_lt,
};

verus! {

broadcast use vstd::string::group_string_axioms;

/// The default log level for a `-v` count: warnings, then info, debug and
/// trace.
pub open spec fn spec_default_level(verbosity: u8) -> &'static str {
    if verbosity == 0 {
        "warn"
    } else if verbosity == 1 {
        "info"
    } else if verbosity == 2 {
        "debug"
    } else {
        "trace"
    }
}

/// The default log level for a `-v` count.
pub fn default_level(verbosity: u8) -> (r: &'static str)
    ensures
        r == spec_default_level(verbosity),
{
    if verbosity == 0 {
        "warn"
    } else if verbosity == 1 {
        "info"
    } else if verbosity == 2 {
        "debug"
    } else {
        "trace"
    }
}

/// The log filter used when `RUST_LOG` is not set: the level for both the
/// command-line crate and the library.
pub fn default_log_filter(verbosity: u8) -> (r: String)
    ensures
        r@ == "tussle="@ + spec_default_level(verbosity)@ + ",tussle_core="@ + spec_default_level(
            verbosity,
        )@,
{
    let level = default_level(verbosity);
    let mut s = "tussle=".to_owned();
    s.append(level);
    s.append(",tussle_core=");
    s.append(level);
    s
}

/// Whether a binding is kept by a filter of already lowercased app terms:
/// some term occurs in the lowercased owner name or the lowercased bundle
/// id.
pub open spec fn app_filter_keeps(b: Binding, filter_lc: Seq<Seq<char>>) -> bool {
    exists|i: int|
        0 <= i < filter_lc.len() && (contains_seq(lowercase(spec_owner(b.source)), #[trigger] filter_lc[i])
            || (spec_bundle_id(b.source) matches Some(id) && contains_seq(lowercase(id), filter_lc[i])))
}

/// Whether the `--app` filter (terms already lowercased) keeps a binding.
pub fn binding_matches_app_filter(b: &Binding, filter_lc: &Vec<String>) -> (r: bool)
    ensures
        r == app_filter_keeps(*b, filter_lc@.map_values(|s: String| s@)),
{
    let ghost f = filter_lc@.map_values(|s: String| s@);
    let owner_lc = chars_of(to_lowercase(b.source.owner()).as_str());
    let bundle_lc: Option<Vec<char>> = match b.source.bundle_id() {
        Some(id) => Some(chars_of(to_lowercase(id).as_str())),
        None => None,
    };
    let mut i: usize = 0;
    while i < filter_lc.len()
        invariant
            i <= filter_lc.len(),
            f == filter_lc@.map_values(|s: String| s@),
            owner_lc@ == lowercase(spec_owner(b.source)),
            bundle_lc is Some <==> spec_bundle_id(b.source) is Some,
            bundle_lc matches Some(v) ==> v@ == lowercase(spec_bundle_id(b.source)->0),
            forall|k: int|
                0 <= k < i ==> !(contains_seq(lowercase(spec_owner(b.source)), #[trigger] f[k])
                    || (spec_bundle_id(b.source) matches Some(id) && contains_seq(lowercase(id), f[k]))),
        decreases filter_lc.len() - i,
    {
        let term = chars_of(filter_lc[i].as_str());
        assert(term@ == f[i as int]);
        let in_owner = contains_chars(&owner_lc, &term);
        let in_bundle = match &bundle_lc {
            Some(v) => contains_chars(v, &term),
            None => false,
        };
        if in_owner || in_bundle {
            assert(contains_seq(lowercase(spec_owner(b.source)), f[i as int]) || (spec_bundle_id(
                b.source,
            ) matches Some(id) && contains_seq(lowercase(id), f[i as int])));
            return true;
        }
        i = i + 1;
    }
    false
}

/// Whether a binding's combo contains one of the tokens.
pub open spec fn key_filter_keeps(b: Binding, tokens: Seq<ComboToken>) -> bool {
    exists|i: int| 0 <= i < tokens.len() && token_matches(#[trigger] tokens[i], b.combo)
}

/// Whether the `--key` filter keeps a binding: its combo contains one of
/// the tokens.
pub fn binding_matches_key_filter(b: &Binding, tokens: &Vec<ComboToken>) -> (r: bool)
    ensures
        r == key_filter_keeps(*b, tokens@),
{
    let mut i: usize = 0;
    while i < tokens.len()
        invariant
            i <= tokens.len(),
            forall|k: int| 0 <= k < i ==> !token_matches(#[trigger] tokens@[k], b.combo),
        decreases tokens.len() - i,
    {
        if tokens[i].matches(&b.combo) {
            return true;
        }
        i = i + 1;
    }
    false
}

/// How `scan` groups its rows.
#[derive(Clone, Copy, Debug, PartialEq, Eq, Structural)]
pub enum GroupBy {
    /// By combo text, then owner: bindings of the same combo stack together.
    Combo,
    /// By owner, then combo text: each app's bindings appear together.
    Owner,
}

/// The sort key of a binding under a grouping.
pub open spec fn sort_key(b: Binding, g: GroupBy) -> (Seq<char>, Seq<char>) {
    match g {
        GroupBy::Combo => (combo_text(b.combo), spec_owner(b.source)),
        GroupBy::Owner => (spec_owner(b.source), combo_text(b.combo)),
    }
}

/// Lexicographic order on pairs of texts.
pub open spec fn pair_lt(a: (Seq<char>, Seq<char>), b: (Seq<char>, Seq<char>)) -> bool {
    seq_lt(a.0, b.0) || (a.0 == b.0 && seq_lt(a.1, b.1))
}

proof fn lemma_pair_lt_le(a: (Seq<char>, Seq<char>), b: (Seq<char>, Seq<char>), c: (Seq<char>, Seq<char>))
    requires
        pair_lt(a, b),
        !pair_lt(c, b),
    ensures
        pair_lt(a, c),
        !pair_lt(c, a),
{
    lemma_seq_lt_total(b.0, c.0);
    lemma_seq_lt_total(b.1, c.1);
    lemma_seq_lt_asymmetric(b.0, c.0);
    lemma_seq_lt_asymmetric(b.1, c.1);
    if seq_lt(a.0, b.0) {
        if b.0 != c.0 {
            lemma_seq_lt_transitive(a.0, b.0, c.0);
        }
        lemma_seq_lt_asymmetric(a.0, c.0);
    } else {
        if b.0 != c.0 {
            assert(seq_lt(b.0, c.0));
        } else {
            if b.1 != c.1 {
                lemma_seq_lt_transitive(a.1, b.1, c.1);
            }
            lemma_seq_lt_asymmetric(a.1, c.1);
        }
        lemma_seq_lt_asymmetric(a.0, c.0);
        lemma_seq_lt_asymmetric(a.0, a.0);
    }
}

proof fn lemma_pair_lt_asymmetric(a: (Seq<char>, Seq<char>), b: (Seq<char>, Seq<char>))
    ensures
        pair_lt(a, b) ==> !pair_lt(b, a),
{
    lemma_seq_lt_asymmetric(a.0, b.0);
    lemma_seq_lt_asymmetric(a.1, b.1);
    lemma_seq_lt_asymmetric(a.0, a.0);
}

/// Whether `bindings` are ordered by their sort keys under `g`.
pub open spec fn sorted_by(bindings: Seq<Binding>, g: GroupBy) -> bool {
    forall|i: int, j: int|
        0 <= i < j < bindings.len() ==> !pair_lt(
            sort_key(#[trigger] bindings[j], g),
            sort_key(#[trigger] bindings[i], g),
        )
}

/// `b` inserted into `s` after every binding whose key does not come after
/// its own.
pub open spec fn insert_sorted(s: Seq<Binding>, b: Binding, g: GroupBy) -> Seq<Binding>
    decreases s.len(),
{
    if s.len() == 0 {
        seq![b]
    } else if pair_lt(sort_key(b, g), sort_key(s[0], g)) {
        seq![b] + s
    } else {
        seq![s[0]] + insert_sorted(s.drop_first(), b, g)
    }
}

/// The stable sort of `s` by sort key under `g`: each binding in turn is
/// inserted after those already placed whose key does not come after its
/// own, so bindings with equal keys keep their relative order.
pub open spec fn stable_sorted(s: Seq<Binding>, g: GroupBy) -> Seq<Binding>
    decreases s.len(),
{
    if s.len() == 0 {
        seq![]
    } else {
        insert_sorted(stable_sorted(s.drop_last(), g), s.last(), g)
    }
}

proof fn lemma_insert_sorted_at(s: Seq<Binding>, b: Binding, g: GroupBy, pos: int)
    requires
        0 <= pos <= s.len(),
        forall|k: int| 0 <= k < pos ==> !pair_lt(sort_key(b, g), sort_key(#[trigger] s[k], g)),
        pos < s.len() ==> pair_lt(sort_key(b, g), sort_key(s[pos], g)),
    ensures
        insert_sorted(s, b, g) == s.insert(pos, b),
    decreases s.len(),
{
    if s.len() == 0 {
        assert(s.insert(pos, b) =~= seq![b]);
    } else if pos == 0 {
        assert(s.insert(pos, b) =~= seq![b] + s);
    } else {
        let t = s.drop_first();
        assert forall|k: int| 0 <= k < pos - 1 implies !pair_lt(sort_key(b, g), sort_key(#[trigger] t[k], g)) by {
            assert(t[k] == s[k + 1]);
        }
        if pos < s.len() {
            assert(t[pos - 1] == s[pos]);
        }
        assert(!pair_lt(sort_key(b, g), sort_key(s[0], g)));
        lemma_insert_sorted_at(t, b, g, pos - 1);
        assert(s.insert(pos, b) =~= seq![s[0]] + t.insert(pos - 1, b));
    }
}

/// In a listing ordered under `g`, bindings that share the group key (the
/// combo text when grouping by combo, the owner when grouping by owner)
/// stand together: whatever lies between two of them shares it too. So a
/// combo claimed by several owners stacks contiguously.
pub proof fn groups_stack_together(r: Seq<Binding>, g: GroupBy, i: int, j: int, k: int)
    requires
        sorted_by(r, g),
        0 <= i < j < k < r.len(),
        sort_key(r[i], g).0 == sort_key(r[k], g).0,
    ensures
        sort_key(r[j], g).0 == sort_key(r[i], g).0,
{
    let a = sort_key(r[i], g).0;
    let b = sort_key(r[j], g).0;
    assert(!pair_lt(sort_key(r[j], g), sort_key(r[i], g)));
    assert(!pair_lt(sort_key(r[k], g), sort_key(r[j], g)));
    lemma_seq_lt_total(a, b);
}

/// The bindings of `s` whose sort key under `g` is `k`, in order.
pub open spec fn with_key(s: Seq<Binding>, g: GroupBy, k: (Seq<char>, Seq<char>)) -> Seq<Binding>
    decreases s.len(),
{
    if s.len() == 0 {
        seq![]
    } else {
        (if sort_key(s[0], g) == k { seq![s[0]] } else { seq![] }) + with_key(s.drop_first(), g, k)
    }
}

proof fn lemma_with_key_push(s: Seq<Binding>, b: Binding, g: GroupBy, k: (Seq<char>, Seq<char>))
    ensures
        with_key(s.push(b), g, k) == with_key(s, g, k) + (if sort_key(b, g) == k { seq![b] } else { seq![] }),
    decreases s.len(),
{
    let t = s.push(b);
    if s.len() == 0 {
        assert(t.drop_first() =~= Seq::<Binding>::empty());
        assert(t[0] == b);
        assert(with_key(t.drop_first(), g, k) == Seq::<Binding>::empty());
        assert(with_key(s, g, k) == Seq::<Binding>::empty());
        let e = if sort_key(b, g) == k { seq![b] } else { Seq::<Binding>::empty() };
        assert(e + Seq::<Binding>::empty() =~= Seq::<Binding>::empty() + e);
    } else {
        lemma_with_key_push(s.drop_first(), b, g, k);
        assert(t.drop_first() =~= s.drop_first().push(b));
        assert(t[0] == s[0]);
        let h = if sort_key(s[0], g) == k { seq![s[0]] } else { Seq::<Binding>::empty() };
        let e = if sort_key(b, g) == k { seq![b] } else { Seq::<Binding>::empty() };
        assert(h + (with_key(s.drop_first(), g, k) + e) =~= (h + with_key(s.drop_first(), g, k)) + e);
    }
}

proof fn lemma_with_key_none(s: Seq<Binding>, g: GroupBy, k: (Seq<char>, Seq<char>))
    requires
        forall|j: int| 0 <= j < s.len() ==> sort_key(#[trigger] s[j], g) != k,
    ensures
        with_key(s, g, k) == Seq::<Binding>::empty(),
    decreases s.len(),
{
    if s.len() > 0 {
        assert(sort_key(s[0], g) != k);
        assert forall|j: int| 0 <= j < s.drop_first().len() implies sort_key(#[trigger] s.drop_first()[j], g) != k by {
            assert(s.drop_first()[j] == s[j + 1]);
        }
        lemma_with_key_none(s.drop_first(), g, k);
        assert(Seq::<Binding>::empty() + Seq::<Binding>::empty() =~= Seq::<Binding>::empty());
    }
}

proof fn lemma_with_key_insert(s: Seq<Binding>, b: Binding, g: GroupBy, pos: int, k: (Seq<char>, Seq<char>))
    requires
        sorted_by(s, g),
        0 <= pos <= s.len(),
        forall|j: int| 0 <= j < pos ==> !pair_lt(sort_key(b, g), sort_key(#[trigger] s[j], g)),
        pos < s.len() ==> pair_lt(sort_key(b, g), sort_key(s[pos], g)),
    ensures
        with_key(s.insert(pos, b), g, k) == with_key(s.push(b), g, k),
    decreases s.len(),
{
    lemma_with_key_push(s, b, g, k);
    if pos == s.len() {
        assert(s.insert(pos, b) =~= s.push(b));
    } else if pos == 0 {
        let t = s.insert(0, b);
        assert(t.drop_first() =~= s);
        assert(t[0] == b);
        if sort_key(b, g) == k {
            assert forall|j: int| 0 <= j < s.len() implies sort_key(#[trigger] s[j], g) != k by {
                lemma_pair_lt_asymmetric(sort_key(b, g), sort_key(b, g));
                if j > 0 {
                    assert(!pair_lt(sort_key(s[j], g), sort_key(s[0], g)));
                    lemma_pair_lt_le(sort_key(b, g), sort_key(s[0], g), sort_key(s[j], g));
                }
            }
            lemma_with_key_none(s, g, k);
            assert(seq![b] + Seq::<Binding>::empty() =~= Seq::<Binding>::empty() + seq![b]);
        } else {
            assert(Seq::<Binding>::empty() + with_key(s, g, k) =~= with_key(s, g, k) + Seq::<Binding>::empty());
        }
    } else {
        let rest = s.drop_first();
        assert(sorted_by(rest, g)) by {
            assert forall|i: int, j: int| 0 <= i < j < rest.len() implies !pair_lt(
                sort_key(#[trigger] rest[j], g),
                sort_key(#[trigger] rest[i], g),
            ) by {
                assert(rest[i] == s[i + 1] && rest[j] == s[j + 1]);
            }
        }
        assert forall|j: int| 0 <= j < pos - 1 implies !pair_lt(sort_key(b, g), sort_key(#[trigger] rest[j], g)) by {
            assert(rest[j] == s[j + 1]);
        }
        if pos < s.len() {
            assert(rest[pos - 1] == s[pos]);
        }
        lemma_with_key_insert(rest, b, g, pos - 1, k);
        let t = s.insert(pos, b);
        assert(t[0] == s[0]);
        assert(t.drop_first() =~= rest.insert(pos - 1, b));
        let u = s.push(b);
        assert(u[0] == s[0]);
        assert(u.drop_first() =~= rest.push(b));
    }
}

proof fn lemma_sort_step_keeps_groups(before: Seq<Binding>, b: Binding, g: GroupBy, pos: int, prefix: Seq<Binding>)
    requires
        sorted_by(before, g),
        0 <= pos <= before.len(),
        forall|j: int| 0 <= j < pos ==> !pair_lt(sort_key(b, g), sort_key(#[trigger] before[j], g)),
        pos < before.len() ==> pair_lt(sort_key(b, g), sort_key(before[pos], g)),
        forall|k: (Seq<char>, Seq<char>)| #[trigger] with_key(before, g, k) == with_key(prefix, g, k),
    ensures
        forall|k: (Seq<char>, Seq<char>)|
            #[trigger] with_key(before.insert(pos, b), g, k) == with_key(prefix.push(b), g, k),
{
    assert forall|k: (Seq<char>, Seq<char>)| #[trigger] with_key(before.insert(pos, b), g, k) == with_key(
        prefix.push(b),
        g,
        k,
    ) by {
        lemma_with_key_insert(before, b, g, pos, k);
        lemma_with_key_push(before, b, g, k);
        lemma_with_key_push(prefix, b, g, k);
    }
}

/// Whether key `a` precedes key `b`.
fn key_lt(a: &(String, String), b: &(String, String)) -> (r: bool)
    ensures
        r == pair_lt((a.0@, a.1@), (b.0@, b.1@)),
{
    if str_lt(a.0.as_str(), b.0.as_str()) {
        true
    } else if str_eq(a.0.as_str(), b.0.as_str()) {
        str_lt(a.1.as_str(), b.1.as_str())
    } else {
        false
    }
}

/// The sort key of a binding, computed.
fn key_of(b: &Binding, g: GroupBy) -> (r: (String, String))
    ensures
        (r.0@, r.1@) == sort_key(*b, g),
{
    let combo = b.combo.to_text();
    let owner = b.source.owner().to_owned();
    match g {
        GroupBy::Combo => (combo, owner),
        GroupBy::Owner => (owner, combo),
    }
}

/// Order bindings by their sort keys under `g` (a stable sort: bindings
/// with equal keys keep their relative order).
pub fn sort_bindings(bindings: Vec<Binding>, g: GroupBy) -> (r: Vec<Binding>)
    ensures
        r@ == stable_sorted(bindings@, g),
        r@.to_multiset() == bindings@.to_multiset(),
        sorted_by(r@, g),
        forall|k: (Seq<char>, Seq<char>)| #[trigger] with_key(r@, g, k) == with_key(bindings@, g, k),
{
    let ghost all = bindings@;
    let mut keys: Vec<(String, String)> = Vec::new();
    let mut out: Vec<Binding> = Vec::new();
    assert(all.take(0) =~= Seq::<Binding>::empty());
    for b in it: bindings.into_iter()
        invariant
            it.seq() == all,
            keys@.len() == out@.len(),
            forall|k: int| 0 <= k < out@.len() ==> ((#[trigger] keys@[k]).0@, keys@[k].1@) == sort_key(
                out@[k],
                g,
            ),
            out@.to_multiset() == all.take(it.index() as int).to_multiset(),
            out@ == stable_sorted(all.take(it.index() as int), g),
            sorted_by(out@, g),
            forall|k: (Seq<char>, Seq<char>)|
                #[trigger] with_key(out@, g, k) == with_key(all.take(it.index() as int), g, k),
    {
        broadcast use vstd::seq_lib::group_to_multiset_ensures;

        let ghost i = it.index();
        assert(all.take(i + 1) =~= all.take(i as int).push(b));
        let key = key_of(&b, g);
        let mut pos: usize = 0;
        while pos < out.len() && !key_lt(&key, &keys[pos])
            invariant
                keys@.len() == out@.len(),
                (key.0@, key.1@) == sort_key(b, g),
                pos <= out.len(),
                forall|k: int| 0 <= k < out@.len() ==> ((#[trigger] keys@[k]).0@, keys@[k].1@) == sort_key(
                    out@[k],
                    g,
                ),
                forall|k: int| 0 <= k < pos ==> !pair_lt(sort_key(b, g), sort_key(#[trigger] out@[k], g)),
            decreases out.len() - pos,
        {
            pos = pos + 1;
        }
        let ghost before = out@;
        let ghost kbefore = keys@;
        keys.insert(pos, key);
        out.insert(pos, b);
        proof {
            before.insert_ensures(pos as int, b);
            kbefore.insert_ensures(pos as int, key);
            lemma_insert_multiset(before, pos as int, b);
            lemma_insert_sorted_at(before, b, g, pos as int);
            lemma_sort_step_keeps_groups(before, b, g, pos as int, all.take(i as int));
            assert(all.take(i + 1).drop_last() =~= all.take(i as int));
            assert forall|x: int, y: int| 0 <= x < y < out@.len() implies !pair_lt(
                sort_key(#[trigger] out@[y], g),
                sort_key(#[trigger] out@[x], g),
            ) by {
                if y < pos {
                    assert(out@[x] == before[x] && out@[y] == before[y]);
                } else if y == pos {
                    assert(out@[x] == before[x]);
                } else if x < pos {
                    assert(out@[x] == before[x] && out@[y] == before[y - 1]);
                } else if x == pos {
                    assert(out@[y] == before[y - 1]);
                    assert(pair_lt(sort_key(b, g), sort_key(before[pos as int], g)));
                    if y - 1 > pos {
                        assert(!pair_lt(sort_key(before[y - 1], g), sort_key(before[pos as int], g)));
                        lemma_pair_lt_le(sort_key(b, g), sort_key(before[pos as int], g), sort_key(before[y - 1], g));
                    } else {
                        lemma_pair_lt_asymmetric(sort_key(b, g), sort_key(before[pos as int], g));
                    }
                } else {
                    assert(out@[x] == before[x - 1] && out@[y] == before[y - 1]);
                }
            }
            assert forall|k: int| 0 <= k < out@.len() implies ((#[trigger] keys@[k]).0@, keys@[k].1@)
                == sort_key(out@[k], g) by {
                if k < pos {
                    assert(keys@[k] == kbefore[k] && out@[k] == before[k]);
                } else if k > pos {
                    assert(keys@[k] == kbefore[k - 1] && out@[k] == before[k - 1]);
                }
            }
        }
    }
    assert(all.take(all.len() as int) =~= all);
    out
}

/// Whether `scan` lists a binding: an app filter (terms already
/// lowercased) that is not empty must keep it, and so must a key filter
/// that is not empty.
pub open spec fn listing_keeps(b: Binding, filter_lc: Seq<Seq<char>>, tokens: Seq<ComboToken>) -> bool {
    &&& filter_lc.len() == 0 || app_filter_keeps(b, filter_lc)
    &&& tokens.len() == 0 || key_filter_keeps(b, tokens)
}

/// Repeated `--app` terms, and repeated `--key` tokens, combine with OR: a
/// filter made of two lists keeps exactly what either list keeps.
pub proof fn repeated_filters_combine_with_or(
    b: Binding,
    f1: Seq<Seq<char>>,
    f2: Seq<Seq<char>>,
    t1: Seq<ComboToken>,
    t2: Seq<ComboToken>,
)
    ensures
        app_filter_keeps(b, f1 + f2) == (app_filter_keeps(b, f1) || app_filter_keeps(b, f2)),
        key_filter_keeps(b, t1 + t2) == (key_filter_keeps(b, t1) || key_filter_keeps(b, t2)),
{
    let f = f1 + f2;
    if app_filter_keeps(b, f) {
        let i = choose|i: int|
            0 <= i < f.len() && (contains_seq(lowercase(spec_owner(b.source)), #[trigger] f[i])
                || (spec_bundle_id(b.source) matches Some(id) && contains_seq(lowercase(id), f[i])));
        if i < f1.len() {
            assert(f[i] == f1[i]);
        } else {
            assert(f[i] == f2[i - f1.len()]);
        }
    }
    if app_filter_keeps(b, f1) {
        let i = choose|i: int|
            0 <= i < f1.len() && (contains_seq(lowercase(spec_owner(b.source)), #[trigger] f1[i])
                || (spec_bundle_id(b.source) matches Some(id) && contains_seq(lowercase(id), f1[i])));
        assert(f[i] == f1[i]);
    }
    if app_filter_keeps(b, f2) {
        let i = choose|i: int|
            0 <= i < f2.len() && (contains_seq(lowercase(spec_owner(b.source)), #[trigger] f2[i])
                || (spec_bundle_id(b.source) matches Some(id) && contains_seq(lowercase(id), f2[i])));
        assert(f[i + f1.len()] == f2[i]);
    }
    let t = t1 + t2;
    if key_filter_keeps(b, t) {
        let i = choose|i: int| 0 <= i < t.len() && token_matches(#[trigger] t[i], b.combo);
        if i < t1.len() {
            assert(t[i] == t1[i]);
        } else {
            assert(t[i] == t2[i - t1.len()]);
        }
    }
    if key_filter_keeps(b, t1) {
        let i = choose|i: int| 0 <= i < t1.len() && token_matches(#[trigger] t1[i], b.combo);
        assert(t[i] == t1[i]);
    }
    if key_filter_keeps(b, t2) {
        let i = choose|i: int| 0 <= i < t2.len() && token_matches(#[trigger] t2[i], b.combo);
        assert(t[i + t1.len()] == t2[i]);
    }
}

/// The bindings `scan` lists, in the order found.
pub open spec fn kept_bindings(s: Seq<Binding>, filter_lc: Seq<Seq<char>>, tokens: Seq<ComboToken>) -> Seq<Binding>
    decreases s.len(),
{
    if s.len() == 0 {
        seq![]
    } else {
        let prev = kept_bindings(s.drop_last(), filter_lc, tokens);
        if listing_keeps(s.last(), filter_lc, tokens) {
            prev.push(s.last())
        } else {
            prev
        }
    }
}

/// What `scan` shows of the bindings the sources found: those the `--app`
/// terms (matched case-insensitively) and the `--key` tokens keep, each
/// filter applying only when it has terms, in stable order of their sort
/// keys under `g`.
pub fn list_bindings(bindings: Vec<Binding>, app_filter: &Vec<String>, key_tokens: &Vec<ComboToken>, g: GroupBy) -> (r: Vec<Binding>)
    ensures
        r@ == stable_sorted(
            kept_bindings(bindings@, app_filter@.map_values(|t: String| lowercase(t@)), key_tokens@),
            g,
        ),
        sorted_by(r@, g),
        r@.to_multiset() == kept_bindings(
            bindings@,
            app_filter@.map_values(|t: String| lowercase(t@)),
            key_tokens@,
        ).to_multiset(),
        forall|k: (Seq<char>, Seq<char>)|
            #[trigger] with_key(r@, g, k) == with_key(
                kept_bindings(bindings@, app_filter@.map_values(|t: String| lowercase(t@)), key_tokens@),
                g,
                k,
            ),
{
    let ghost all = bindings@;
    let filter_lc = lowercase_terms(app_filter);
    let ghost f = app_filter@.map_values(|t: String| lowercase(t@));
    assert(filter_lc@.map_values(|s: String| s@) =~= f);
    let mut kept: Vec<Binding> = Vec::new();
    assert(all.take(0) =~= Seq::<Binding>::empty());
    for b in it: bindings.into_iter()
        invariant
            it.seq() == all,
            f == filter_lc@.map_values(|s: String| s@),
            f.len() == filter_lc@.len(),
            kept@ == kept_bindings(all.take(it.index() as int), f, key_tokens@),
    {
        assert(all.take(it.index() + 1).drop_last() =~= all.take(it.index() as int));
        assert(all.take(it.index() + 1).last() == b);
        let by_app = filter_lc.len() == 0 || binding_matches_app_filter(&b, &filter_lc);
        let by_key = key_tokens.len() == 0 || binding_matches_key_filter(&b, key_tokens);
        if by_app && by_key {
            kept.push(b);
        }
    }
    assert(all.take(all.len() as int) =~= all);
    sort_bindings(kept, g)
}

/// The bindings of `s` bound to `combo`, in order.
pub open spec fn bound_to(s: Seq<Binding>, combo: KeyCombo) -> Seq<Binding>
    decreases s.len(),
{
    if s.len() == 0 {
        seq![]
    } else {
        let prev = bound_to(s.drop_last(), combo);
        if s.last().combo == combo {
            prev.push(s.last())
        } else {
            prev
        }
    }
}

/// What `who` shows of the bindings a source found: those bound to
/// `combo`, in the order found.
pub fn owners_of(bindings: Vec<Binding>, combo: &KeyCombo) -> (r: Vec<Binding>)
    ensures
        r@ == bound_to(bindings@, *combo),
{
    let ghost all = bindings@;
    let mut kept: Vec<Binding> = Vec::new();
    assert(all.take(0) =~= Seq::<Binding>::empty());
    for b in it: bindings.into_iter()
        invariant
            it.seq() == all,
            kept@ == bound_to(all.take(it.index() as int), *combo),
    {
        assert(all.take(it.index() + 1).drop_last() =~= all.take(it.index() as int));
        assert(all.take(it.index() + 1).last() == b);
        if b.combo == *combo {
            kept.push(b);
        }
    }
    assert(all.take(all.len() as int) =~= all);
    kept
}

} // verus!
