//! Discovered bindings, where each came from, and the scan error type.

use vstd::prelude::*;

use crate::keys::KeyCombo;

verus! {

/// Where a binding was discovered.
#[derive(Clone, Debug)]
pub enum BindingSource {
    /// A macOS system shortcut from `com.apple.symbolichotkeys.plist`.
    SystemSymbolicHotkey { id: u32 },
    /// A per-app menu shortcut override from `NSUserKeyEquivalents`.
    AppMenuOverride { bundle_id: String, menu_item: String },
    /// A menu item of a running app, read through the Accessibility API.
    AppMenuItem { bundle_id: String, app_name: Option<String>, menu_path: Vec<String> },
}

/// One key combination together with its owner and the action it triggers.
#[derive(Clone, Debug)]
pub struct Binding {
    pub combo: KeyCombo,
    pub source: BindingSource,
    pub label: String,
}

/// Why a source could not be scanned.
#[derive(Clone, Debug)]
pub enum ScanError {
    /// Reading `path` failed; `message` is the operating system's account.
    Io { path: String, message: String },
    /// `path` was read but does not have the expected shape.
    Schema { path: String, message: String },
}

/// The name of the owner of a binding source: `macOS` for system shortcuts,
/// the app's display name where one is known, and its bundle id otherwise.
pub open spec fn spec_owner(s: BindingSource) -> Seq<char> {
    match s {
        BindingSource::SystemSymbolicHotkey { .. } => "macOS"@,
        BindingSource::AppMenuOverride { bundle_id, .. } => bundle_id@,
        BindingSource::AppMenuItem { bundle_id, app_name, .. } => match app_name {
            Some(name) => name@,
            None => bundle_id@,
        },
    }
}

/// The bundle id of the app that owns a binding source, if an app does.
pub open spec fn spec_bundle_id(s: BindingSource) -> Option<Seq<char>> {
    match s {
        BindingSource::SystemSymbolicHotkey { .. } => None,
        BindingSource::AppMenuOverride { bundle_id, .. } => Some(bundle_id@),
        BindingSource::AppMenuItem { bundle_id, .. } => Some(bundle_id@),
    }
}

impl BindingSource {
    /// The owner's display name (see [`spec_owner`]).
    pub fn owner(&self) -> (r: &str)
        ensures
            r@ == spec_owner(*self),
    {
        match self {
            BindingSource::SystemSymbolicHotkey { .. } => "macOS",
            BindingSource::AppMenuOverride { bundle_id, .. } => bundle_id.as_str(),
            BindingSource::AppMenuItem { bundle_id, app_name, .. } => match app_name {
                Some(name) => name.as_str(),
                None => bundle_id.as_str(),
            },
        }
    }

    /// The owning app's bundle id, `None` for system shortcuts.
    pub fn bundle_id(&self) -> (r: Option<&str>)
        ensures
            r is Some <==> spec_bundle_id(*self) is Some,
            r matches Some(b) ==> b@ == spec_bundle_id(*self)->0,
    {
        match self {
            BindingSource::SystemSymbolicHotkey { .. } => None,
            BindingSource::AppMenuOverride { bundle_id, .. } => Some(bundle_id.as_str()),
            BindingSource::AppMenuItem { bundle_id, .. } => Some(bundle_id.as_str()),
        }
    }
}

/// `e` is a schema error about `path` that says `message`.
pub open spec fn is_schema_error(e: ScanError, path: Seq<char>, message: Seq<char>) -> bool {
    e matches ScanError::Schema { path: p, message: m } && p@ == path && m@ == message
}

/// A schema error about `path` that says `message`.
pub fn schema_error(path: &str, message: String) -> (e: ScanError)
    ensures
        is_schema_error(e, path@, message@),
{
    ScanError::Schema { path: path.to_owned(), message }
}

/// The one-line account of a scan error: which file, and what went wrong.
pub open spec fn error_text(e: ScanError) -> Seq<char> {
    match e {
        ScanError::Io { path, message } => "reading "@ + path@ + ": "@ + message@,
        ScanError::Schema { path, message } => path@ + ": "@ + message@,
    }
}

impl ScanError {
    /// The one-line account of this error (see [`error_text`]).
    pub fn describe(&self) -> (r: String)
        ensures
            r@ == error_text(*self),
    {
        match self {
            ScanError::Io { path, message } => {
                let mut s = "reading ".to_owned();
                s.append(path.as_str());
                s.append(": ");
                s.append(message.as_str());
                s
            },
            ScanError::Schema { path, message } => {
                let mut s = path.clone();
                s.append(": ");
                s.append(message.as_str());
                s
            },
        }
    }
}

} // verus!
