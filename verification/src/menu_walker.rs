//! Walking an app's menu bars (main and status-bar extras) to harvest every
//! menu item with a key equivalent.
//!
//! The menus are read through macOS's Accessibility API, one query at a
//! time, by the front end. [`MenuWalk`] decides what to query next and what
//! to keep: the front end starts a walk with the app's menu bars, answers
//! each [`WalkRequest`] with what the API reports, and stops at
//! [`WalkRequest::Done`]. Elements are named by numbers the front end
//! assigns.

use vstd::prelude::*;

use crate::accessibility::{
    app_matches, byte_len, menu_binding_storage_bytes, menu_storage, opt_view, storage_of, RunningApp,
};
use crate::binding::{Binding, BindingSource};
use crate::listing::app_filter_keeps;
use crate::keys::{spec_key_from_char, Key, KeyCombo, Modifiers};
use crate::text::chars_of;

verus! {

broadcast use vstd::string::group_string_axioms;

/// Hard cap on menu nesting, against pathological apps.
pub const MAX_MENU_DEPTH: usize = 16;
/// Hard cap on the menu items read per app: depth alone does not bound a
/// very wide or cyclic menu graph supplied by a pathological process.
pub const MAX_MENU_NODES_PER_APP: usize = 10000;
/// Bound on app-controlled text kept per app, in bytes.
pub const MAX_BINDING_STORAGE_BYTES_PER_APP: usize = 1048576;

/// `kAXMenuItemModifierShift`.
pub const AX_SHIFT: i64 = 1;
/// `kAXMenuItemModifierOption`.
pub const AX_OPTION: i64 = 2;
/// `kAXMenuItemModifierControl`.
pub const AX_CONTROL: i64 = 4;
/// `kAXMenuItemModifierNoCommand`.
pub const AX_NO_COMMAND: i64 = 8;

/// The modifiers an Accessibility menu-item modifier mask denotes: Command
/// unless the no-command bit is set, plus Shift, Option and Control by
/// their bits.
pub open spec fn spec_decode_ax_modifiers(mask: i64) -> Modifiers {
    Modifiers {
        cmd: mask & AX_NO_COMMAND == 0,
        opt: mask & AX_OPTION != 0,
        ctrl: mask & AX_CONTROL != 0,
        shift: mask & AX_SHIFT != 0,
        function: false,
    }
}

/// Decode an Accessibility menu-item modifier mask.
pub fn decode_ax_modifiers(mask: i64) -> (m: Modifiers)
    ensures
        m == spec_decode_ax_modifiers(mask),
{
    Modifiers {
        cmd: mask & AX_NO_COMMAND == 0,
        opt: mask & AX_OPTION != 0,
        ctrl: mask & AX_CONTROL != 0,
        shift: mask & AX_SHIFT != 0,
        function: false,
    }
}

/// What the Accessibility API reports about one menu item.
#[derive(Clone, Debug)]
pub struct MenuItemInfo {
    /// `AXTitle`, if readable.
    pub title: Option<String>,
    /// `AXMenuItemCmdChar`, if readable.
    pub cmd_char: Option<String>,
    /// `AXMenuItemCmdModifiers`, if readable.
    pub cmd_modifiers: Option<i64>,
}

/// The key equivalent a menu item reports: the first character of its
/// command character with its modifier mask (no mask means Command alone).
pub open spec fn spec_key_equivalent(info: MenuItemInfo) -> Option<KeyCombo> {
    match info.cmd_char {
        Some(s) => if s@.len() > 0 {
            Some(
                KeyCombo {
                    modifiers: spec_decode_ax_modifiers(
                        match info.cmd_modifiers {
                            Some(m) => m,
                            None => 0,
                        },
                    ),
                    key: spec_key_from_char(s@[0]),
                },
            )
        } else {
            None
        },
        None => None,
    }
}

/// Read a menu item's key equivalent.
pub fn read_key_equivalent(info: &MenuItemInfo) -> (r: Option<KeyCombo>)
    ensures
        r == spec_key_equivalent(*info),
{
    match &info.cmd_char {
        Some(s) => {
            let chars = chars_of(s.as_str());
            if chars.len() == 0 {
                return None;
            }
            let mask: i64 = match info.cmd_modifiers {
                Some(m) => m,
                None => 0,
            };
            Some(KeyCombo { modifiers: decode_ax_modifiers(mask), key: Key::from_char(chars[0]) })
        },
        None => None,
    }
}

/// What the walk needs next from the front end.
#[derive(Clone, Copy, Debug, PartialEq, Eq, Structural)]
pub enum WalkRequest {
    /// Report the children (`AXChildren`) of this element: a menu's items,
    /// or an item's submenus. Each child is reported as the number the
    /// front end gives it, or `None` when it is not an Accessibility element.
    Children(u64),
    /// Report the title and key equivalent of this menu item.
    Item(u64),
    /// The walk is over.
    Done,
}

/// The kind of a list the walk is going through.
#[derive(Clone, Copy, Debug, PartialEq, Eq, Structural)]
pub enum FrameKind {
    /// The app's menu bars: each is walked as a menu at depth zero.
    Roots,
    /// The items of a menu: each is read (one node of the node budget).
    Items,
    /// The submenus of an item: each is walked one level deeper.
    Submenus,
}

/// A list being gone through, as the specification sees it.
pub struct FrameView {
    pub kind: FrameKind,
    pub elements: Seq<Option<u64>>,
    pub next: int,
    pub path: Seq<String>,
    pub depth: int,
}

/// What the walk is waiting for, as the specification sees it.
pub enum PendingView {
    /// The items of a menu at `depth` under `path`.
    MenuChildren { path: Seq<String>, depth: int },
    /// The report on an item of a menu at `depth` under `path`.
    ItemInfo { item: u64, path: Seq<String>, depth: int },
    /// The submenus of an item at `depth`, whose own path is `path`.
    ItemChildren { path: Seq<String>, depth: int },
    /// Nothing: the walk is over.
    Finished,
}

/// The work left in a stack of lists.
pub open spec fn work_left(frames: Seq<FrameView>) -> nat
    decreases frames.len(),
{
    if frames.len() == 0 {
        0
    } else {
        let top = frames.last();
        work_left(frames.drop_last()) + 1 + (if top.next < top.elements.len() {
            (top.elements.len() - top.next) as nat
        } else {
            0
        })
    }
}

/// The walk between two answers: go through the lists on the stack until
/// something must be asked. Finished lists are dropped. A list of items or
/// submenus is also dropped once the node or byte budget is spent (the
/// app's menu bars are each still asked for). Items cost one node each.
/// Submenus deeper than `MAX_MENU_DEPTH` are not walked.
pub open spec fn settle(frames: Seq<FrameView>, nodes: int, bytes: int) -> (Seq<FrameView>, PendingView, int, WalkRequest)
    decreases work_left(frames),
{
    if frames.len() == 0 {
        (frames, PendingView::Finished, nodes, WalkRequest::Done)
    } else {
        let top = frames.last();
        if top.next >= top.elements.len() || top.next < 0 {
            settle(frames.drop_last(), nodes, bytes)
        } else if top.kind != FrameKind::Roots && (nodes == 0 || bytes == 0) {
            settle(frames.drop_last(), nodes, bytes)
        } else {
            let advanced = frames.update(frames.len() - 1, FrameView { next: top.next + 1, ..top });
            proof {
                assert(advanced.drop_last() =~= frames.drop_last());
            }
            match top.elements[top.next] {
                None => settle(advanced, nodes, bytes),
                Some(id) => match top.kind {
                    FrameKind::Roots => (
                        advanced,
                        PendingView::MenuChildren { path: seq![], depth: 0 },
                        nodes,
                        WalkRequest::Children(id),
                    ),
                    FrameKind::Items => (
                        advanced,
                        PendingView::ItemInfo { item: id, path: top.path, depth: top.depth },
                        nodes - 1,
                        WalkRequest::Item(id),
                    ),
                    FrameKind::Submenus => if top.depth + 1 > MAX_MENU_DEPTH {
                        settle(advanced, nodes, bytes)
                    } else {
                        (
                            advanced,
                            PendingView::MenuChildren { path: top.path, depth: top.depth + 1 },
                            nodes,
                            WalkRequest::Children(id),
                        )
                    },
                },
            }
        }
    }
}

/// The path of an item: its menu's path, then its title when not empty.
pub open spec fn item_path(path: Seq<String>, title: String) -> Seq<String> {
    if title@.len() == 0 {
        path
    } else {
        path.push(title)
    }
}

/// `b` is the binding a menu item of `app` at `path`, titled `title`, with
/// key equivalent `combo` gives.
pub open spec fn is_menu_binding(b: Binding, app: RunningApp, path: Seq<String>, title: Seq<char>, combo: KeyCombo) -> bool {
    &&& b.combo == combo
    &&& b.label@ == title
    &&& b.source matches BindingSource::AppMenuItem { bundle_id, app_name, menu_path }
    &&& bundle_id@ == (match app.bundle_id {
        Some(x) => x@,
        None => Seq::<char>::empty(),
    })
    &&& app_name == app.app_name
    &&& menu_path@ == path
}

/// The title an item report gives (empty when unreadable).
pub open spec fn title_view(info: MenuItemInfo) -> Seq<char> {
    match info.title {
        Some(t) => t@,
        None => Seq::<char>::empty(),
    }
}

/// The path of a reported item: its menu's path, then its title when it has
/// a non-empty one.
pub open spec fn reported_path(path: Seq<String>, info: MenuItemInfo) -> Seq<String> {
    match info.title {
        Some(t) => if t@.len() > 0 { path.push(t) } else { path },
        None => path,
    }
}

/// The storage charged over a list of bindings.
pub open spec fn storage_total(bindings: Seq<Binding>) -> int
    decreases bindings.len(),
{
    if bindings.len() == 0 {
        0
    } else {
        storage_total(bindings.drop_last()) + crate::accessibility::storage_of(bindings.last())
    }
}

struct Frame {
    kind: FrameKind,
    elements: Vec<Option<u64>>,
    next: usize,
    path: Vec<String>,
    depth: usize,
}

enum Pending {
    MenuChildren { path: Vec<String>, depth: usize },
    ItemInfo { item: u64, path: Vec<String>, depth: usize },
    ItemChildren { path: Vec<String>, depth: usize },
    Finished,
}

spec fn frame_view(f: Frame) -> FrameView {
    FrameView {
        kind: f.kind,
        elements: f.elements@,
        next: f.next as int,
        path: f.path@,
        depth: f.depth as int,
    }
}

spec fn frames_view(frames: Seq<Frame>) -> Seq<FrameView> {
    frames.map_values(|f: Frame| frame_view(f))
}

spec fn pending_view(p: Pending) -> PendingView {
    match p {
        Pending::MenuChildren { path, depth } => PendingView::MenuChildren {
            path: path@,
            depth: depth as int,
        },
        Pending::ItemInfo { item, path, depth } => PendingView::ItemInfo {
            item,
            path: path@,
            depth: depth as int,
        },
        Pending::ItemChildren { path, depth } => PendingView::ItemChildren {
            path: path@,
            depth: depth as int,
        },
        Pending::Finished => PendingView::Finished,
    }
}

/// How many titles the path of a list may hold: a menu at depth `d` has at
/// most `d` titles above it, and the submenus of one of its items at most
/// `d + 1`.
spec fn path_room(kind: FrameKind, depth: int) -> int {
    if kind == FrameKind::Submenus { depth + 1 } else { depth }
}

spec fn frames_ok(frames: Seq<Frame>) -> bool {
    forall|i: int|
        0 <= i < frames.len() ==> (#[trigger] frames[i]).next <= frames[i].elements@.len()
            && frames[i].depth <= MAX_MENU_DEPTH
            && frames[i].path@.len() <= path_room(frames[i].kind, frames[i].depth as int)
}

spec fn pending_ok(p: Pending) -> bool {
    match p {
        Pending::MenuChildren { path, depth } => depth <= MAX_MENU_DEPTH && path@.len() <= depth,
        Pending::ItemInfo { path, depth, .. } => depth <= MAX_MENU_DEPTH && path@.len() <= depth,
        Pending::ItemChildren { path, depth } => depth <= MAX_MENU_DEPTH && path@.len() <= depth + 1,
        Pending::Finished => true,
    }
}

/// The number of titles in a binding's menu path (zero for bindings that do
/// not come from a menu).
pub open spec fn menu_path_len(b: Binding) -> int {
    match b.source {
        BindingSource::AppMenuItem { menu_path, .. } => menu_path@.len() as int,
        _ => 0,
    }
}

/// The state of a walk over one app's menus.
pub struct MenuWalk {
    app: RunningApp,
    frames: Vec<Frame>,
    pending: Pending,
    nodes: usize,
    bytes: usize,
    bindings: Vec<Binding>,
}

impl MenuWalk {
    /// The walk's bookkeeping is consistent: the budgets never exceed their
    /// caps, and the storage of the bindings kept plus the bytes left stay
    /// within the per-app byte budget.
    pub closed spec fn wf(self) -> bool {
        &&& self.nodes <= MAX_MENU_NODES_PER_APP
        &&& storage_total(self.bindings@) + self.bytes <= MAX_BINDING_STORAGE_BYTES_PER_APP
        &&& frames_ok(self.frames@)
        &&& pending_ok(self.pending)
        &&& forall|i: int|
            0 <= i < self.bindings@.len() ==> menu_path_len(#[trigger] self.bindings@[i])
                <= MAX_MENU_DEPTH + 1
    }

    /// The app whose menus are walked.
    pub closed spec fn walked_app(self) -> RunningApp {
        self.app
    }

    /// The lists being gone through, innermost last.
    pub closed spec fn lists(self) -> Seq<FrameView> {
        frames_view(self.frames@)
    }

    /// What the walk waits for.
    pub closed spec fn waiting_for(self) -> PendingView {
        pending_view(self.pending)
    }

    /// Items that may still be read.
    pub closed spec fn nodes_left(self) -> int {
        self.nodes as int
    }

    /// Bytes of app text that may still be kept.
    pub closed spec fn bytes_left(self) -> int {
        self.bytes as int
    }

    /// The bindings found so far.
    pub closed spec fn gathered(self) -> Seq<Binding> {
        self.bindings@
    }

    /// Go through the lists until something must be asked (see [`settle`]).
    fn settle(&mut self) -> (r: WalkRequest)
        requires
            frames_ok(old(self).frames@),
        ensures
            (frames_view(final(self).frames@), pending_view(final(self).pending), final(self).nodes as int, r)
                == settle(frames_view(old(self).frames@), old(self).nodes as int, old(self).bytes as int),
            final(self).bytes == old(self).bytes,
            final(self).bindings == old(self).bindings,
            final(self).app == old(self).app,
            final(self).nodes <= old(self).nodes,
            frames_ok(final(self).frames@),
            pending_ok(final(self).pending),
    {
        let ghost goal = settle(frames_view(self.frames@), self.nodes as int, self.bytes as int);
        loop
            invariant
                frames_ok(self.frames@),
                settle(frames_view(self.frames@), self.nodes as int, self.bytes as int) == goal,
                goal == settle(frames_view(old(self).frames@), old(self).nodes as int, old(self).bytes as int),
                self.bytes == old(self).bytes,
                self.bindings == old(self).bindings,
                self.app == old(self).app,
                self.nodes <= old(self).nodes,
            decreases work_left(frames_view(self.frames@)),
        {
            let ghost fv = frames_view(self.frames@);
            match self.frames.pop() {
                None => {
                    self.pending = Pending::Finished;
                    assert(frames_view(self.frames@) =~= fv);
                    return WalkRequest::Done;
                },
                Some(mut top) => {
                    proof {
                        assert(frames_view(self.frames@) =~= fv.drop_last());
                        assert(fv.last() == frame_view(top));
                    }
                    if top.next >= top.elements.len() {
                        continue;
                    }
                    if top.kind != FrameKind::Roots && (self.nodes == 0 || self.bytes == 0) {
                        continue;
                    }
                    let element = top.elements[top.next];
                    top.next = top.next + 1;
                    let kind = top.kind;
                    let depth = top.depth;
                    let path = top.path.clone();
                    proof {
                        assert(path@ =~= top.path@);
                    }
                    self.frames.push(top);
                    proof {
                        assert(frames_view(self.frames@) =~= fv.update(
                            fv.len() - 1,
                            FrameView { next: fv.last().next + 1, ..fv.last() },
                        ));
                        assert(frames_view(self.frames@).drop_last() =~= fv.drop_last());
                        assert(work_left(frames_view(self.frames@)) < work_left(fv));
                    }
                    match element {
                        None => {},
                        Some(id) => match kind {
                            FrameKind::Roots => {
                                self.pending = Pending::MenuChildren { path: Vec::new(), depth: 0 };
                                assert(pending_view(self.pending) == PendingView::MenuChildren {
                                    path: seq![],
                                    depth: 0,
                                });
                                return WalkRequest::Children(id);
                            },
                            FrameKind::Items => {
                                self.nodes = self.nodes - 1;
                                self.pending = Pending::ItemInfo { item: id, path, depth };
                                return WalkRequest::Item(id);
                            },
                            FrameKind::Submenus => {
                                if depth + 1 <= MAX_MENU_DEPTH {
                                    self.pending = Pending::MenuChildren { path, depth: depth + 1 };
                                    return WalkRequest::Children(id);
                                }
                            },
                        },
                    }
                },
            }
        }
    }

    /// Start walking `app`'s menus, given its menu bars (the main menu bar
    /// and the status-bar extras, those that exist).
    pub fn start(app: RunningApp, menu_bars: &Vec<u64>) -> (r: (MenuWalk, WalkRequest))
        ensures
            r.0.wf(),
            r.0.walked_app() == app,
            r.0.gathered() == Seq::<Binding>::empty(),
            r.0.bytes_left() == MAX_BINDING_STORAGE_BYTES_PER_APP,
            (r.0.lists(), r.0.waiting_for(), r.0.nodes_left(), r.1) == settle(
                seq![
                    FrameView {
                        kind: FrameKind::Roots,
                        elements: menu_bars@.map_values(|b: u64| Some(b)),
                        next: 0,
                        path: seq![],
                        depth: 0,
                    },
                ],
                MAX_MENU_NODES_PER_APP as int,
                MAX_BINDING_STORAGE_BYTES_PER_APP as int,
            ),
    {
        let mut elements: Vec<Option<u64>> = Vec::new();
        let mut i: usize = 0;
        while i < menu_bars.len()
            invariant
                i <= menu_bars.len(),
                elements@ == menu_bars@.take(i as int).map_values(|b: u64| Some(b)),
            decreases menu_bars.len() - i,
        {
            elements.push(Some(menu_bars[i]));
            assert(menu_bars@.take(i + 1).map_values(|b: u64| Some(b)) =~= menu_bars@.take(
                i as int,
            ).map_values(|b: u64| Some(b)).push(Some(menu_bars@[i as int])));
            i = i + 1;
        }
        assert(menu_bars@.take(menu_bars.len() as int) =~= menu_bars@);
        let roots = Frame { kind: FrameKind::Roots, elements, next: 0, path: Vec::new(), depth: 0 };
        let mut frames: Vec<Frame> = Vec::new();
        frames.push(roots);
        let mut w = MenuWalk {
            app,
            frames,
            pending: Pending::Finished,
            nodes: MAX_MENU_NODES_PER_APP,
            bytes: MAX_BINDING_STORAGE_BYTES_PER_APP,
            bindings: Vec::new(),
        };
        assert(frames_view(w.frames@) =~= seq![
            FrameView {
                kind: FrameKind::Roots,
                elements: menu_bars@.map_values(|b: u64| Some(b)),
                next: 0,
                path: seq![],
                depth: 0,
            },
        ]);
        assert(storage_total(w.bindings@) == 0);
        let r = w.settle();
        (w, r)
    }

    /// Take in the children the front end reported for the element it was
    /// last asked about (`None` when they could not be read), and go on.
    pub fn answer_children(&mut self, children: Option<Vec<Option<u64>>>) -> (r: WalkRequest)
        requires
            old(self).wf(),
            old(self).waiting_for() is MenuChildren || old(self).waiting_for() is ItemChildren,
        ensures
            final(self).wf(),
            final(self).walked_app() == old(self).walked_app(),
            final(self).gathered() == old(self).gathered(),
            final(self).bytes_left() == old(self).bytes_left(),
            ({
                let pushed = match (old(self).waiting_for(), children) {
                    (PendingView::MenuChildren { path, depth }, Some(c)) => old(self).lists().push(
                        FrameView { kind: FrameKind::Items, elements: c@, next: 0, path, depth },
                    ),
                    (PendingView::ItemChildren { path, depth }, Some(c)) => old(self).lists().push(
                        FrameView { kind: FrameKind::Submenus, elements: c@, next: 0, path, depth },
                    ),
                    _ => old(self).lists(),
                };
                (final(self).lists(), final(self).waiting_for(), final(self).nodes_left(), r)
                    == settle(pushed, old(self).nodes_left(), old(self).bytes_left())
            }),
    {
        let mut pending = Pending::Finished;
        std::mem::swap(&mut pending, &mut self.pending);
        if let Some(c) = children {
            let ghost before = self.frames@;
            match pending {
                Pending::MenuChildren { path, depth } => {
                    self.frames.push(Frame { kind: FrameKind::Items, elements: c, next: 0, path, depth });
                },
                Pending::ItemChildren { path, depth } => {
                    self.frames.push(Frame { kind: FrameKind::Submenus, elements: c, next: 0, path, depth });
                },
                _ => {},
            }
            proof {
                assert(frames_view(self.frames@) =~= frames_view(before).push(frame_view(self.frames@.last())));
                assert forall|i: int| 0 <= i < self.frames@.len() implies (#[trigger] self.frames@[i]).next
                    <= self.frames@[i].elements@.len() && self.frames@[i].depth <= MAX_MENU_DEPTH by {
                    if i < before.len() {
                        assert(self.frames@[i] == before[i]);
                    }
                }
            }
        }
        self.settle()
    }

    /// Take in the report on the item the front end was last asked about,
    /// and go on: an item with a key equivalent gives a binding if its text
    /// fits in the byte budget (otherwise the budget is spent and the item's
    /// submenus are not walked); then the item's submenus are asked for.
    pub fn answer_item(&mut self, info: MenuItemInfo) -> (r: WalkRequest)
        requires
            old(self).wf(),
            old(self).waiting_for() is ItemInfo,
        ensures
            final(self).wf(),
            final(self).walked_app() == old(self).walked_app(),
            ({
                let (item, path, depth) = match old(self).waiting_for() {
                    PendingView::ItemInfo { item, path, depth } => (item, path, depth),
                    _ => (0u64, seq![], 0int),
                };
                let app = old(self).walked_app();
                let item_path = reported_path(path, info);
                let title = title_view(info);
                match spec_key_equivalent(info) {
                    Some(c) => if menu_storage(app, item_path, title) > old(self).bytes_left() {
                        &&& final(self).bytes_left() == 0
                        &&& final(self).gathered() == old(self).gathered()
                        &&& (final(self).lists(), final(self).waiting_for(), final(self).nodes_left(), r)
                            == settle(old(self).lists(), old(self).nodes_left(), 0)
                    } else {
                        &&& final(self).bytes_left() == old(self).bytes_left() - menu_storage(app, item_path, title)
                        &&& final(self).gathered().len() == old(self).gathered().len() + 1
                        &&& final(self).gathered().drop_last() == old(self).gathered()
                        &&& is_menu_binding(final(self).gathered().last(), app, item_path, title, c)
                        &&& final(self).lists() == old(self).lists()
                        &&& final(self).nodes_left() == old(self).nodes_left()
                        &&& final(self).waiting_for() == (PendingView::ItemChildren { path: item_path, depth })
                        &&& r == WalkRequest::Children(item)
                    },
                    None => {
                        &&& final(self).bytes_left() == old(self).bytes_left()
                        &&& final(self).gathered() == old(self).gathered()
                        &&& final(self).lists() == old(self).lists()
                        &&& final(self).nodes_left() == old(self).nodes_left()
                        &&& final(self).waiting_for() == (PendingView::ItemChildren { path: item_path, depth })
                        &&& r == WalkRequest::Children(item)
                    },
                }
            }),
    {
        let mut pending = Pending::Finished;
        std::mem::swap(&mut pending, &mut self.pending);
        let (item, mut path, depth) = match pending {
            Pending::ItemInfo { item, path, depth } => (item, path, depth),
            _ => (0u64, Vec::new(), 0usize),
        };
        let combo = read_key_equivalent(&info);
        let title: String = match info.title {
            Some(t) => t,
            None => String::new(),
        };
        if !title.as_str().is_empty() {
            path.push(title.clone());
        }
        if let Some(c) = combo {
            let storage = menu_binding_storage_bytes(&self.app, &path, title.as_str());
            if storage > self.bytes {
                self.bytes = 0;
                return self.settle();
            }
            self.bytes = self.bytes - storage;
            let bundle_id: String = match &self.app.bundle_id {
                Some(b) => b.clone(),
                None => String::new(),
            };
            let b = Binding {
                combo: c,
                source: BindingSource::AppMenuItem {
                    bundle_id,
                    app_name: self.app.app_name.clone(),
                    menu_path: path.clone(),
                },
                label: title,
            };
            proof {
                assert(storage_of(b) == menu_storage(self.app, path@, b.label@));
            }
            let ghost before = self.bindings@;
            self.bindings.push(b);
            assert(self.bindings@.drop_last() =~= before);
        }
        self.pending = Pending::ItemChildren { path, depth };
        WalkRequest::Children(item)
    }

    /// The bindings the walk found.
    pub fn finish(self) -> (r: Vec<Binding>)
        ensures
            r@ == self.gathered(),
    {
        self.bindings
    }
}

/// A walk never keeps more app text than the per-app byte budget and never
/// reads more items than the per-app node budget: the storage charged for
/// the bindings kept, plus the bytes left, stays within
/// `MAX_BINDING_STORAGE_BYTES_PER_APP`, and the nodes left stay within
/// `MAX_MENU_NODES_PER_APP`.
pub proof fn walk_stays_within_budgets(w: MenuWalk)
    requires
        w.wf(),
    ensures
        storage_total(w.gathered()) + w.bytes_left() <= MAX_BINDING_STORAGE_BYTES_PER_APP,
        0 <= w.nodes_left() <= MAX_MENU_NODES_PER_APP,
        w.bytes_left() >= 0,
{
}

/// A walk never reads deeper than `MAX_MENU_DEPTH`, so every menu path it
/// reports holds at most `MAX_MENU_DEPTH + 1` titles: the item it waits
/// for lies in a menu at depth at most `MAX_MENU_DEPTH` with at most one
/// title per level above it, and every binding found has a path of at
/// most `MAX_MENU_DEPTH + 1` titles.
pub proof fn walk_paths_stay_within_depth(w: MenuWalk)
    requires
        w.wf(),
    ensures
        w.waiting_for() matches PendingView::ItemInfo { path, depth, .. } ==> path.len() <= depth
            <= MAX_MENU_DEPTH,
        w.waiting_for() matches PendingView::MenuChildren { path, depth } ==> path.len() <= depth
            <= MAX_MENU_DEPTH,
        w.waiting_for() matches PendingView::ItemChildren { path, depth } ==> path.len() <= depth
            + 1 <= MAX_MENU_DEPTH + 1,
        forall|i: int|
            0 <= i < w.gathered().len() ==> menu_path_len(#[trigger] w.gathered()[i])
                <= MAX_MENU_DEPTH + 1,
{
}

/// The app filter applied to a listing keeps every menu binding of an app
/// that the same non-empty (lowercased) filter kept for walking: for the
/// Accessibility scan's rows the listing's filter changes nothing.
pub proof fn walked_apps_pass_the_listing_filter(
    b: Binding,
    app: RunningApp,
    path: Seq<String>,
    title: Seq<char>,
    combo: KeyCombo,
    filter_lc: Seq<Seq<char>>,
)
    requires
        filter_lc.len() > 0,
        app_matches(app, filter_lc),
        is_menu_binding(b, app, path, title, combo),
    ensures
        app_filter_keeps(b, filter_lc),
{
    let i = choose|i: int|
        0 <= i < filter_lc.len() && ((opt_view(app.bundle_id) matches Some(x) && crate::text::contains_seq(
            crate::accessibility::lowercase(x),
            #[trigger] filter_lc[i],
        )) || (opt_view(app.app_name) matches Some(n) && crate::text::contains_seq(
            crate::accessibility::lowercase(n),
            filter_lc[i],
        )));
    assert(crate::text::contains_seq(
        crate::accessibility::lowercase(crate::binding::spec_owner(b.source)),
        filter_lc[i],
    ) || (crate::binding::spec_bundle_id(b.source) matches Some(id) && crate::text::contains_seq(
        crate::accessibility::lowercase(id),
        filter_lc[i],
    )));
}

/// What an Accessibility menu-item modifier mask means, bit by bit: bit 1
/// (`kAXMenuItemModifierShift`) holds Shift, bit 2
/// (`kAXMenuItemModifierOption`) Option, bit 4
/// (`kAXMenuItemModifierControl`) Control, and Command is held unless bit 8
/// (`kAXMenuItemModifierNoCommand`) is set; Fn is never reported. Each bit
/// decides its own modifier: setting the Control bit in any mask adds
/// Control and changes nothing else, and likewise for the others.
pub proof fn ax_modifier_bits_decide_their_own_modifier(mask: i64)
    ensures
        spec_decode_ax_modifiers(mask).shift <==> mask & 1 != 0,
        spec_decode_ax_modifiers(mask).opt <==> mask & 2 != 0,
        spec_decode_ax_modifiers(mask).ctrl <==> mask & 4 != 0,
        spec_decode_ax_modifiers(mask).cmd <==> mask & 8 == 0,
        !spec_decode_ax_modifiers(mask).function,
        spec_decode_ax_modifiers(mask | 4) == (Modifiers { ctrl: true, ..spec_decode_ax_modifiers(mask) }),
        spec_decode_ax_modifiers(mask | 2) == (Modifiers { opt: true, ..spec_decode_ax_modifiers(mask) }),
        spec_decode_ax_modifiers(mask | 1) == (Modifiers { shift: true, ..spec_decode_ax_modifiers(mask) }),
        spec_decode_ax_modifiers(mask | 8) == (Modifiers { cmd: false, ..spec_decode_ax_modifiers(mask) }),
{
    assert((mask | 4) & 4 != 0 && (mask | 4) & 1 == mask & 1 && (mask | 4) & 2 == mask & 2 && (mask | 4) & 8
        == mask & 8) by (bit_vector);
    assert((mask | 2) & 2 != 0 && (mask | 2) & 1 == mask & 1 && (mask | 2) & 4 == mask & 4 && (mask | 2) & 8
        == mask & 8) by (bit_vector);
    assert((mask | 1) & 1 != 0 && (mask | 1) & 2 == mask & 2 && (mask | 1) & 4 == mask & 4 && (mask | 1) & 8
        == mask & 8) by (bit_vector);
    assert((mask | 8) & 8 != 0 && (mask | 8) & 1 == mask & 1 && (mask | 8) & 2 == mask & 2 && (mask | 8) & 4
        == mask & 4) by (bit_vector);
}

/// A menu item's key equivalent holds exactly the modifiers its mask's bits
/// name (Command alone when the item reports no mask), with the key its
/// first command character stands for.
pub proof fn key_equivalents_carry_their_mask(info: MenuItemInfo)
    requires
        info.cmd_char matches Some(s) && s@.len() > 0,
    ensures
        ({
            let mask = match info.cmd_modifiers {
                Some(m) => m,
                None => 0i64,
            };
            let c = spec_key_equivalent(info)->0;
            &&& spec_key_equivalent(info) is Some
            &&& c.key == spec_key_from_char(info.cmd_char->0@[0])
            &&& (c.modifiers.shift <==> mask & 1 != 0)
            &&& (c.modifiers.opt <==> mask & 2 != 0)
            &&& (c.modifiers.ctrl <==> mask & 4 != 0)
            &&& (c.modifiers.cmd <==> mask & 8 == 0)
            &&& !c.modifiers.function
        }),
{
    let mask = match info.cmd_modifiers {
        Some(m) => m,
        None => 0i64,
    };
    ax_modifier_bits_decide_their_own_modifier(mask);
}

} // verus!
