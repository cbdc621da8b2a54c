//! The rules of the Accessibility-API menu scan: which running apps are
//! walked, how many at once, and how much app-supplied text is kept.
//!
//! Walking menus happens through macOS's `AXUIElement` API, which the
//! front end drives; the decisions it makes along the way live here.

use vstd::prelude::*;
use vstd::utf8::encode_utf8;

use crate::binding::{Binding, BindingSource};
use crate::text::{chars_of, contains_chars, contains_seq};

verus! {

broadcast use vstd::string::group_string_axioms;

/// Hard cap on the number of apps walked at once.
pub const MAX_CONCURRENT_APP_WALKS: usize = 128;
/// Most running apps walked in one scan.
pub const MAX_RUNNING_APPS: usize = 2048;
/// Bound on app-controlled text kept over a whole scan, in bytes.
pub const MAX_TOTAL_BINDING_STORAGE_BYTES: usize = 67108864;
/// Bytes charged for each binding on top of its text.
pub const BINDING_OVERHEAD_BYTES: usize = 256;
/// Longest bundle id or app name kept, in bytes.
pub const MAX_APP_IDENTITY_BYTES: usize = 4096;

/// What `str::to_lowercase` gives for `s` (the Unicode lowercase mapping).
pub uninterp spec fn lowercase(s: Seq<char>) -> Seq<char>;

/// Calls `str::to_lowercase`. Claimed: the result is the named lowercase
/// mapping of the input.
#[verifier::external_body]
pub(crate) fn to_lowercase(s: &str) -> (r: String)
    ensures
        r@ == lowercase(s@),
{
    s.to_lowercase()
}

/// The number of bytes of the UTF-8 encoding of `s`.
pub open spec fn byte_len(s: Seq<char>) -> nat {
    encode_utf8(s).len()
}

/// `n`, or `usize::MAX` when it does not fit.
pub open spec fn saturate(n: int) -> int {
    if n > usize::MAX { usize::MAX as int } else { n }
}

/// Whether an app with this bundle id and display name is kept by a filter
/// of already lowercased terms: an empty filter keeps every app; otherwise
/// some term occurs in the lowercased bundle id or in the lowercased display
/// name.
pub open spec fn filter_matches(bundle_id: Option<Seq<char>>, app_name: Option<Seq<char>>, filter_lc: Seq<Seq<char>>) -> bool {
    filter_lc.len() == 0 || exists|i: int|
        0 <= i < filter_lc.len() && ((bundle_id matches Some(b) && contains_seq(
            lowercase(b),
            #[trigger] filter_lc[i],
        )) || (app_name matches Some(n) && contains_seq(lowercase(n), filter_lc[i])))
}

/// The views of a list of strings.
pub open spec fn views(v: Seq<String>) -> Seq<Seq<char>> {
    v.map_values(|s: String| s@)
}

/// Whether the app's bundle id or display name contains any of the
/// (already lowercased) terms, ignoring case. An empty filter matches
/// every app.
pub fn matches_bundle_filter(bundle_id: Option<&str>, app_name: Option<&str>, filter_lc: &Vec<String>) -> (r: bool)
    ensures
        r == filter_matches(
            match bundle_id { Some(b) => Some(b@), None => None },
            match app_name { Some(n) => Some(n@), None => None },
            views(filter_lc@),
        ),
{
    if filter_lc.len() == 0 {
        return true;
    }
    let bundle_lc: Option<Vec<char>> = match bundle_id {
        Some(b) => Some(chars_of(to_lowercase(b).as_str())),
        None => None,
    };
    let name_lc: Option<Vec<char>> = match app_name {
        Some(n) => Some(chars_of(to_lowercase(n).as_str())),
        None => None,
    };
    let ghost b_opt = match bundle_id { Some(b) => Some(b@), None => None::<Seq<char>> };
    let ghost n_opt = match app_name { Some(n) => Some(n@), None => None::<Seq<char>> };
    let ghost f = views(filter_lc@);
    let mut i: usize = 0;
    while i < filter_lc.len()
        invariant
            i <= filter_lc.len(),
            f == views(filter_lc@),
            b_opt == match bundle_id { Some(b) => Some(b@), None => None::<Seq<char>> },
            n_opt == match app_name { Some(n) => Some(n@), None => None::<Seq<char>> },
            bundle_lc is Some <==> b_opt is Some,
            bundle_lc matches Some(v) ==> v@ == lowercase(b_opt->0),
            name_lc is Some <==> n_opt is Some,
            name_lc matches Some(v) ==> v@ == lowercase(n_opt->0),
            forall|k: int|
                0 <= k < i ==> !((b_opt matches Some(b) && contains_seq(lowercase(b), #[trigger] f[k]))
                    || (n_opt matches Some(n) && contains_seq(lowercase(n), f[k]))),
        decreases filter_lc.len() - i,
    {
        let term = chars_of(filter_lc[i].as_str());
        assert(term@ == f[i as int]);
        let in_bundle = match &bundle_lc {
            Some(v) => contains_chars(v, &term),
            None => false,
        };
        let in_name = match &name_lc {
            Some(v) => contains_chars(v, &term),
            None => false,
        };
        if in_bundle || in_name {
            assert((b_opt matches Some(b) && contains_seq(lowercase(b), f[i as int])) || (n_opt matches Some(
                n,
            ) && contains_seq(lowercase(n), f[i as int])));
            return true;
        }
        i = i + 1;
    }
    false
}

/// Filter terms combine with OR: a filter made of two non-empty lists of
/// terms keeps exactly the apps that either list keeps.
pub proof fn bundle_filter_is_disjunctive(bundle_id: Option<Seq<char>>, app_name: Option<Seq<char>>, f1: Seq<Seq<char>>, f2: Seq<Seq<char>>)
    requires
        f1.len() > 0,
        f2.len() > 0,
    ensures
        filter_matches(bundle_id, app_name, f1 + f2) == (filter_matches(bundle_id, app_name, f1)
            || filter_matches(bundle_id, app_name, f2)),
{
    let g = f1 + f2;
    if filter_matches(bundle_id, app_name, g) {
        let i = choose|i: int|
            0 <= i < g.len() && ((bundle_id matches Some(b) && contains_seq(lowercase(b), #[trigger] g[i]))
                || (app_name matches Some(n) && contains_seq(lowercase(n), g[i])));
        if i < f1.len() {
            assert(g[i] == f1[i]);
        } else {
            assert(g[i] == f2[i - f1.len()]);
        }
    }
    if filter_matches(bundle_id, app_name, f1) {
        let i = choose|i: int|
            0 <= i < f1.len() && ((bundle_id matches Some(b) && contains_seq(lowercase(b), #[trigger] f1[i]))
                || (app_name matches Some(n) && contains_seq(lowercase(n), f1[i])));
        assert(g[i] == f1[i]);
    }
    if filter_matches(bundle_id, app_name, f2) {
        let i = choose|i: int|
            0 <= i < f2.len() && ((bundle_id matches Some(b) && contains_seq(lowercase(b), #[trigger] f2[i]))
                || (app_name matches Some(n) && contains_seq(lowercase(n), f2[i])));
        assert(g[i + f1.len()] == f2[i]);
    }
}

/// The lowercase form of every filter term.
pub fn lowercase_terms(filter: &Vec<String>) -> (r: Vec<String>)
    ensures
        r@.len() == filter@.len(),
        forall|i: int| 0 <= i < r@.len() ==> (#[trigger] r@[i])@ == lowercase(filter@[i]@),
{
    let mut r: Vec<String> = Vec::new();
    let mut i: usize = 0;
    while i < filter.len()
        invariant
            i <= filter.len(),
            r@.len() == i,
            forall|k: int| 0 <= k < i ==> (#[trigger] r@[k])@ == lowercase(filter@[k]@),
        decreases filter.len() - i,
    {
        r.push(to_lowercase(filter[i].as_str()));
        i = i + 1;
    }
    r
}

/// The number of apps walked at once for a requested concurrency: `0`
/// means the hard cap, and larger requests are capped too.
pub open spec fn spec_bounded_concurrency(requested: usize) -> usize {
    if requested == 0 {
        MAX_CONCURRENT_APP_WALKS
    } else if requested < MAX_CONCURRENT_APP_WALKS {
        requested
    } else {
        MAX_CONCURRENT_APP_WALKS
    }
}

/// The number of apps walked at once; never zero and never above the cap.
pub fn bounded_concurrency(requested: usize) -> (r: usize)
    ensures
        r == spec_bounded_concurrency(requested),
        1 <= r <= MAX_CONCURRENT_APP_WALKS,
{
    if requested == 0 {
        MAX_CONCURRENT_APP_WALKS
    } else if requested < MAX_CONCURRENT_APP_WALKS {
        requested
    } else {
        MAX_CONCURRENT_APP_WALKS
    }
}

/// The total byte length of a list of strings.
pub open spec fn total_bytes(parts: Seq<String>) -> nat
    decreases parts.len(),
{
    if parts.len() == 0 {
        0
    } else {
        total_bytes(parts.drop_last()) + byte_len(parts.last()@)
    }
}

/// The bytes of app-controlled text a binding retains.
pub open spec fn source_bytes(s: BindingSource) -> nat {
    match s {
        BindingSource::SystemSymbolicHotkey { .. } => 0,
        BindingSource::AppMenuOverride { bundle_id, menu_item } => byte_len(bundle_id@) + byte_len(
            menu_item@,
        ),
        BindingSource::AppMenuItem { bundle_id, app_name, menu_path } => byte_len(bundle_id@) + (
        match app_name {
            Some(n) => byte_len(n@),
            None => 0,
        }) + total_bytes(menu_path@),
    }
}

/// The storage a binding is charged: the overhead, its label and the text
/// of its source, saturating at `usize::MAX`.
pub open spec fn storage_of(b: Binding) -> int {
    saturate(BINDING_OVERHEAD_BYTES + byte_len(b.label@) + source_bytes(b.source))
}

fn sum_bytes(parts: &Vec<String>) -> (r: usize)
    ensures
        r == saturate(total_bytes(parts@) as int),
{
    let mut total: usize = 0;
    let mut i: usize = 0;
    assert(parts@.take(0) =~= Seq::<String>::empty());
    while i < parts.len()
        invariant
            i <= parts.len(),
            total == saturate(total_bytes(parts@.take(i as int)) as int),
        decreases parts.len() - i,
    {
        assert(parts@.take(i + 1).drop_last() =~= parts@.take(i as int));
        total = total.saturating_add(parts[i].as_str().as_bytes().len());
        i = i + 1;
    }
    assert(parts@.take(parts.len() as int) =~= parts@);
    total
}

/// The storage a binding from the Accessibility scan is charged.
pub fn binding_storage_bytes(binding: &Binding) -> (r: usize)
    ensures
        r == storage_of(*binding),
{
    let source_bytes: usize = match &binding.source {
        BindingSource::SystemSymbolicHotkey { .. } => 0,
        BindingSource::AppMenuOverride { bundle_id, menu_item } => bundle_id.as_str().as_bytes().len().saturating_add(
            menu_item.as_str().as_bytes().len(),
        ),
        BindingSource::AppMenuItem { bundle_id, app_name, menu_path } => {
            let name_bytes: usize = match app_name {
                Some(n) => n.as_str().as_bytes().len(),
                None => 0,
            };
            bundle_id.as_str().as_bytes().len().saturating_add(name_bytes).saturating_add(
                sum_bytes(menu_path),
            )
        },
    };
    BINDING_OVERHEAD_BYTES.saturating_add(binding.label.as_str().as_bytes().len()).saturating_add(
        source_bytes,
    )
}

/// A running app that plausibly owns a menu bar.
#[derive(Clone, Debug)]
pub struct RunningApp {
    pub pid: i32,
    pub bundle_id: Option<String>,
    pub app_name: Option<String>,
}

/// The view of an optional string.
pub open spec fn opt_view(s: Option<String>) -> Option<Seq<char>> {
    match s {
        Some(v) => Some(v@),
        None => None,
    }
}

/// Whether a filter of lowercased terms keeps an app.
pub open spec fn app_matches(app: RunningApp, filter_lc: Seq<Seq<char>>) -> bool {
    filter_matches(opt_view(app.bundle_id), opt_view(app.app_name), filter_lc)
}

/// The apps a filter of lowercased terms keeps, in their order.
pub open spec fn kept_apps(apps: Seq<RunningApp>, filter_lc: Seq<Seq<char>>) -> Seq<RunningApp>
    decreases apps.len(),
{
    if apps.len() == 0 {
        seq![]
    } else {
        let prev = kept_apps(apps.drop_last(), filter_lc);
        if app_matches(apps.last(), filter_lc) {
            prev.push(apps.last())
        } else {
            prev
        }
    }
}

/// The apps a scan walks: those the filter keeps (all of them when the
/// filter is empty), at most `MAX_RUNNING_APPS` of them.
pub open spec fn selected_apps(apps: Seq<RunningApp>, filter: Seq<String>) -> Seq<RunningApp> {
    let kept = if filter.len() == 0 {
        apps
    } else {
        kept_apps(apps, filter.map_values(|t: String| lowercase(t@)))
    };
    if kept.len() > MAX_RUNNING_APPS {
        kept.take(MAX_RUNNING_APPS as int)
    } else {
        kept
    }
}

/// Choose the apps to walk: apply the bundle filter (case-insensitive
/// substring match on bundle id or display name, any term), then keep at
/// most `MAX_RUNNING_APPS`.
pub fn select_apps(apps: Vec<RunningApp>, bundle_filter: &Vec<String>) -> (r: Vec<RunningApp>)
    ensures
        r@ == selected_apps(apps@, bundle_filter@),
{
    let ghost all = apps@;
    let mut kept: Vec<RunningApp> = Vec::new();
    if bundle_filter.len() == 0 {
        kept = apps;
    } else {
        let filter_lc = lowercase_terms(bundle_filter);
        let ghost f = bundle_filter@.map_values(|t: String| lowercase(t@));
        assert(views(filter_lc@) =~= f);
        assert(all.take(0) =~= Seq::<RunningApp>::empty());
        for app in it: apps.into_iter()
            invariant
                it.seq() == all,
                f == views(filter_lc@),
                kept@ == kept_apps(all.take(it.index() as int), f),
        {
            assert(all.take(it.index() + 1).drop_last() =~= all.take(it.index() as int));
            assert(all.take(it.index() + 1).last() == app);
            let keep = matches_bundle_filter(
                match &app.bundle_id { Some(b) => Some(b.as_str()), None => None },
                match &app.app_name { Some(n) => Some(n.as_str()), None => None },
                &filter_lc,
            );
            if keep {
                kept.push(app);
            }
        }
        assert(all.take(all.len() as int) =~= all);
    }
    if kept.len() > MAX_RUNNING_APPS {
        kept.truncate(MAX_RUNNING_APPS);
    }
    kept
}

/// Whether a running app plausibly owns a menu bar: its activation policy
/// is not "prohibited", it has a bundle, and its executable does not live
/// in an `XPCServices` directory.
pub open spec fn spec_is_menu_app(prohibited: bool, has_bundle_url: bool, executable_path: Option<Seq<char>>) -> bool {
    !prohibited && has_bundle_url && !(executable_path matches Some(p) && contains_seq(
        p,
        seq!['/', 'X', 'P', 'C', 'S', 'e', 'r', 'v', 'i', 'c', 'e', 's', '/'],
    ))
}

/// Whether a running app is worth walking (see [`spec_is_menu_app`]).
pub fn is_menu_app(prohibited: bool, has_bundle_url: bool, executable_path: Option<&str>) -> (r: bool)
    ensures
        r == spec_is_menu_app(
            prohibited,
            has_bundle_url,
            match executable_path { Some(p) => Some(p@), None => None },
        ),
{
    if prohibited || !has_bundle_url {
        return false;
    }
    match executable_path {
        Some(p) => {
            let marker = vec!['/', 'X', 'P', 'C', 'S', 'e', 'r', 'v', 'i', 'c', 'e', 's', '/'];
            assert(marker@ =~= seq!['/', 'X', 'P', 'C', 'S', 'e', 'r', 'v', 'i', 'c', 'e', 's', '/']);
            !contains_chars(&chars_of(p), &marker)
        },
        None => true,
    }
}

/// An app identity string, kept only when it is at most
/// `MAX_APP_IDENTITY_BYTES` long.
pub fn bounded_identity(s: Option<String>) -> (r: Option<String>)
    ensures
        match s {
            Some(v) => if byte_len(v@) <= MAX_APP_IDENTITY_BYTES {
                r == Some(v)
            } else {
                r is None
            },
            None => r is None,
        },
{
    match s {
        Some(v) => if v.as_str().as_bytes().len() <= MAX_APP_IDENTITY_BYTES {
            Some(v)
        } else {
            None
        },
        None => None,
    }
}

/// The bytes of app-controlled text a menu binding of `app` retains:
/// bundle id, display name, menu path and title, plus the overhead.
pub open spec fn menu_storage(app: RunningApp, path: Seq<String>, title: Seq<char>) -> int {
    saturate(
        (match opt_view(app.bundle_id) {
            Some(b) => byte_len(b),
            None => 0,
        }) + (match opt_view(app.app_name) {
            Some(n) => byte_len(n),
            None => 0,
        }) + total_bytes(path) + byte_len(title) + BINDING_OVERHEAD_BYTES,
    )
}

/// The storage a menu binding of `app` at `path` titled `title` is charged.
pub fn menu_binding_storage_bytes(app: &RunningApp, path: &Vec<String>, title: &str) -> (r: usize)
    ensures
        r == menu_storage(*app, path@, title@),
{
    let bundle: usize = match &app.bundle_id {
        Some(b) => b.as_str().as_bytes().len(),
        None => 0,
    };
    let name: usize = match &app.app_name {
        Some(n) => n.as_str().as_bytes().len(),
        None => 0,
    };
    bundle.saturating_add(name).saturating_add(sum_bytes(path)).saturating_add(
        title.as_bytes().len(),
    ).saturating_add(BINDING_OVERHEAD_BYTES)
}

/// What a budget of `remaining` bytes admits of a batch of bindings, in
/// order: the bindings kept before the first that does not fit, the budget
/// left, and whether a binding did not fit.
pub open spec fn within_budget(batch: Seq<Binding>, remaining: int) -> (Seq<Binding>, int, bool)
    decreases batch.len(),
{
    if batch.len() == 0 {
        (seq![], remaining, false)
    } else if storage_of(batch[0]) > remaining {
        (seq![], remaining, true)
    } else {
        let rest = within_budget(batch.drop_first(), remaining - storage_of(batch[0]));
        (seq![batch[0]] + rest.0, rest.1, rest.2)
    }
}

/// Append a walked batch to the scan's bindings while the total storage
/// budget lasts; the scan stops at the first binding that does not fit.
/// Returns whether the scan must stop.
pub fn absorb_batch(bindings: &mut Vec<Binding>, remaining: &mut usize, batch: Vec<Binding>) -> (stop: bool)
    ensures
        ({
            let (kept, left, stopped) = within_budget(batch@, *old(remaining) as int);
            &&& final(bindings)@ == old(bindings)@ + kept
            &&& *final(remaining) == left
            &&& stop == stopped
        }),
{
    let ghost all = batch@;
    let ghost start = bindings@;
    let ghost rem0 = *remaining as int;
    assert(all.skip(0) =~= all);
    assert(all.take(0) =~= Seq::<Binding>::empty());
    for b in it: batch.into_iter()
        invariant
            it.seq() == all,
            all == batch@,
            rem0 == *old(remaining) as int,
            start == old(bindings)@,
            ({
                let (k, l, s) = within_budget(all.skip(it.index() as int), *remaining as int);
                within_budget(all, rem0) == (all.take(it.index() as int) + k, l, s)
            }),
            bindings@ == start + all.take(it.index() as int),
    {
        let ghost i = it.index();
        assert(all.skip(i as int)[0] == b);
        assert(all.skip(i as int).drop_first() =~= all.skip(i + 1));
        let cost = binding_storage_bytes(&b);
        if cost > *remaining {
            assert(within_budget(all.skip(i as int), *remaining as int) == (
            Seq::<Binding>::empty(), *remaining as int, true));
            assert(all.take(i as int) + Seq::<Binding>::empty() =~= all.take(i as int));
            return true;
        }
        *remaining = *remaining - cost;
        bindings.push(b);
        assert(all.take(i + 1) =~= all.take(i as int) + seq![all[i as int]]);
    }
    assert(all.skip(all.len() as int) =~= Seq::<Binding>::empty());
    assert(all.take(all.len() as int) =~= all);
    false
}

} // verus!
