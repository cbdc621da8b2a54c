//! Inspect keyboard shortcuts: the key model, the parsers for the macOS
//! preference formats that store shortcuts, and the pure rules that the
//! command-line front end applies to what it finds.

pub mod keys;
pub mod text;
pub mod binding;
pub mod plist_file;
pub mod numbers;
pub mod symbolichotkeys;
pub mod nsuserkeyequivalents;
pub mod paths;
pub mod output;
pub mod accessibility;
pub mod combo;
pub mod listing;
pub mod menu_walker;
pub mod capture;
