use orbit::catalog::{classify_entry, display_name, organize, AppEntry, EntryKind};
use orbit::paths::{extension_of_name, file_name_of, path_key_of, stem_of_name};

fn app(name: &str, path: &str) -> AppEntry {
    AppEntry { name: name.to_string(), path: path.to_string() }
}

fn names(apps: &[AppEntry]) -> Vec<&str> {
    apps.iter().map(|a| a.name.as_str()).collect()
}

#[test]
fn organize_sorts_by_lowercase_name() {
    let out = organize(vec![
        app("zoom", "/Applications/zoom.app"),
        app("Calendar", "/System/Applications/Calendar.app"),
        app("app store", "/System/Applications/App Store.app"),
        app("Books", "/System/Applications/Books.app"),
    ]);
    assert_eq!(names(&out), vec!["app store", "Books", "Calendar", "zoom"]);
}

#[test]
fn organize_drops_duplicate_paths_keeping_the_first() {
    let out = organize(vec![
        app("Safari", "/Applications/Safari.app"),
        app("Notes", "/System/Applications/Notes.app"),
        app("Safari (again)", "/Applications/Safari.app"),
    ]);
    assert_eq!(names(&out), vec!["Notes", "Safari"]);
}

#[test]
fn organize_treats_equal_components_as_one_path() {
    let out = organize(vec![
        app("A", "/Applications//A.app"),
        app("A copy", "/Applications/A.app/"),
    ]);
    assert_eq!(out.len(), 1);
    assert_eq!(out[0].name, "A");
}

#[test]
fn organize_orders_equal_names_by_path_components() {
    // By components "Foo" comes before "Foo Bar"; as plain text the space
    // would sort before the slash.
    let out = organize(vec![
        app("Tool", "/Applications/Foo Bar/Tool.app"),
        app("tool", "/Applications/Foo/Tool.app"),
    ]);
    assert_eq!(out[0].path, "/Applications/Foo/Tool.app");
    assert_eq!(out[1].path, "/Applications/Foo Bar/Tool.app");
}

#[test]
fn organize_of_organized_is_unchanged() {
    let once = organize(vec![
        app("b", "/x/b.app"),
        app("a", "/x/a.app"),
        app("b", "/x/b.app"),
    ]);
    let twice = organize(once.clone());
    assert_eq!(names(&once), names(&twice));
    assert_eq!(names(&once), vec!["a", "b"]);
}

#[test]
fn organize_empty() {
    assert!(organize(Vec::new()).is_empty());
}

#[test]
fn path_keys_follow_components() {
    assert_eq!(path_key_of("/a//b"), path_key_of("/a/b"));
    assert_eq!(path_key_of("/a/b/"), path_key_of("/a/b"));
    assert_ne!(path_key_of("/a/b"), path_key_of("/a/c"));
    // root (kind 1), then "a" (kind 4, chars shifted by one, terminator)
    assert_eq!(path_key_of("/a"), vec![1, 0x30, 0, 4, 0x62, 0]);
}

#[test]
fn file_names_stems_and_extensions() {
    assert_eq!(file_name_of("/Applications/Safari.app").as_deref(), Some("Safari.app"));
    assert_eq!(file_name_of("/"), None);
    assert_eq!(file_name_of("/a/.."), None);
    assert_eq!(stem_of_name("Safari.app"), "Safari");
    assert_eq!(stem_of_name("Foo.bar.app"), "Foo.bar");
    assert_eq!(stem_of_name(".hidden"), ".hidden");
    assert_eq!(stem_of_name("plain"), "plain");
    assert_eq!(extension_of_name("Safari.app").as_deref(), Some("app"));
    assert_eq!(extension_of_name(".app"), None);
    assert_eq!(extension_of_name("noext"), None);
    assert_eq!(extension_of_name("dot.").as_deref(), Some(""));
}

#[test]
fn classify_entries() {
    assert_eq!(classify_entry(true, "/Applications/Safari.app", 0), EntryKind::Bundle);
    assert_eq!(classify_entry(true, "/Applications/Safari.app", 1), EntryKind::Bundle);
    assert_eq!(classify_entry(false, "/Applications/Safari.app", 1), EntryKind::Skip);
    assert_eq!(classify_entry(true, "/Applications/Utilities", 1), EntryKind::Descend);
    assert_eq!(classify_entry(true, "/Applications/Utilities", 0), EntryKind::Skip);
    assert_eq!(classify_entry(true, "/Applications/.app", 0), EntryKind::Skip);
    assert_eq!(classify_entry(true, "/Applications/Thing.App", 0), EntryKind::Skip);
}

fn plist_xml(entries: &[(&str, &str)]) -> Vec<u8> {
    let mut s = String::from(
        "<?xml version=\"1.0\" encoding=\"UTF-8\"?>\n<plist version=\"1.0\">\n<dict>\n",
    );
    for (k, v) in entries {
        s.push_str(&format!("<key>{}</key>\n{}\n", k, v));
    }
    s.push_str("</dict>\n</plist>\n");
    s.into_bytes()
}

#[test]
fn display_name_prefers_display_name() {
    let info = plist_xml(&[
        ("CFBundleName", "<string>Short</string>"),
        ("CFBundleDisplayName", "<string>Nice Name</string>"),
    ]);
    assert_eq!(display_name("/Applications/X.app", Some(&info)), "Nice Name");
}

#[test]
fn display_name_falls_back_to_bundle_name() {
    let info = plist_xml(&[("CFBundleName", "<string>Short</string>")]);
    assert_eq!(display_name("/Applications/X.app", Some(&info)), "Short");
}

#[test]
fn display_name_skips_non_string_values() {
    let info = plist_xml(&[
        ("CFBundleDisplayName", "<integer>3</integer>"),
        ("CFBundleName", "<string>Short</string>"),
    ]);
    assert_eq!(display_name("/Applications/X.app", Some(&info)), "Short");
}

#[test]
fn empty_display_name_gives_the_stem() {
    let info = plist_xml(&[
        ("CFBundleDisplayName", "<string></string>"),
        ("CFBundleName", "<string>Short</string>"),
    ]);
    assert_eq!(display_name("/Applications/Some App.app", Some(&info)), "Some App");
}

#[test]
fn display_name_without_info_is_the_stem() {
    assert_eq!(display_name("/Applications/Some App.app", None), "Some App");
    assert_eq!(display_name("/Applications/Some App.app", Some(b"not a plist")), "Some App");
    let array = b"<?xml version=\"1.0\"?><plist version=\"1.0\"><array/></plist>";
    assert_eq!(display_name("/Applications/Some App.app", Some(array)), "Some App");
    let info = plist_xml(&[("Other", "<string>x</string>")]);
    assert_eq!(display_name("/Applications/Some App.app", Some(&info)), "Some App");
}
