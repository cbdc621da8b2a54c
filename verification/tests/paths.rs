use tussle::numbers::parse_u32;
use tussle::paths::{has_plist_extension, path_file_stem};
use tussle::text::{str_lt};

#[test]
fn file_stems_follow_std_path() {
    assert_eq!(path_file_stem("/prefs/com.apple.finder.plist").as_deref(), Some("com.apple.finder"));
    assert_eq!(path_file_stem("com.example.plist/").as_deref(), Some("com.example"));
    assert_eq!(path_file_stem("/prefs/.hidden").as_deref(), Some(".hidden"));
    assert_eq!(path_file_stem("/prefs/a/.").as_deref(), Some("a"));
    assert_eq!(path_file_stem("/prefs/.."), None);
    assert_eq!(path_file_stem("/"), None);
    assert_eq!(path_file_stem(""), None);
    for p in ["/x/y.tar.gz", "noext", "..a", "a.", "/a//b.c/"] {
        let expected = std::path::Path::new(p).file_stem().and_then(|s| s.to_str()).map(String::from);
        assert_eq!(path_file_stem(p), expected, "{p}");
    }
}

#[test]
fn plist_extension_follows_std_path() {
    for p in ["/p/a.plist", "/p/.plist", "/p/a.plist/", "/p/a.PLIST", "/p/a.plistx", "a.b.plist", "plist"] {
        let expected = std::path::Path::new(p).extension().and_then(|e| e.to_str()) == Some("plist");
        assert_eq!(has_plist_extension(p), expected, "{p}");
    }
}

#[test]
fn u32_parsing_follows_from_str() {
    for s in ["0", "42", "+7", "+", "", "-1", "4294967295", "4294967296", "007", "1a", " 1"] {
        assert_eq!(parse_u32(s), s.parse::<u32>().ok(), "{s:?}");
    }
}

#[test]
fn text_order_follows_string_order() {
    for (a, b) in [("a", "b"), ("b", "a"), ("a", "ab"), ("", "a"), ("a", "a"), ("Z", "a"), ("é", "z")] {
        assert_eq!(str_lt(a, b), a < b, "{a:?} {b:?}");
    }
}
