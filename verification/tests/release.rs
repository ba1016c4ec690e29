use microbit::release::{find, package_version, replace_first, QUOTE, VERSION_KEY};

const COMMON_TOML: &str = "[package]\nname = \"microbit-common\"\nversion = \"0.15.1\"\n\n\
[dependencies]\ntiny-led-matrix = { version = \"1.0.1\" }\n";

#[test]
fn version_key_is_the_text_before_a_version() {
    assert_eq!(&VERSION_KEY, b"version = \"");
    assert_eq!(QUOTE, b'"');
}

#[test]
fn find_gives_the_first_occurrence() {
    assert_eq!(find(b"abcabc", b"bc"), Some(1));
    assert_eq!(find(b"abcabc", b"abcabc"), Some(0));
    assert_eq!(find(b"abcabc", b"c"), Some(2));
    assert_eq!(find(b"aab", b"ab"), Some(1));
    assert_eq!(find(b"abcabc", b"cb"), None);
    assert_eq!(find(b"abc", b"abcd"), None);
    assert_eq!(find(b"abc", b""), Some(0));
    assert_eq!(find(b"", b""), Some(0));
    assert_eq!(find(b"", b"a"), None);
    for (text, needle) in [("## [Unreleased]\n\n(no changes)\n", "(no changes)"), (COMMON_TOML, "[")] {
        assert_eq!(find(text.as_bytes(), needle.as_bytes()), text.find(needle));
    }
}

#[test]
fn replace_first_replaces_once() {
    assert_eq!(replace_first(b"abcabc", b"bc", b"X"), Some(b"aXabc".to_vec()));
    assert_eq!(replace_first(b"abcabc", b"abc", b""), Some(b"abc".to_vec()));
    assert_eq!(replace_first(b"abcabc", b"c", b"cc"), Some(b"abccabc".to_vec()));
    assert_eq!(replace_first(b"abc", b"", b"-"), Some(b"-abc".to_vec()));
    assert_eq!(replace_first(b"abc", b"abc", b"abc"), Some(b"abc".to_vec()));
    assert_eq!(replace_first(b"abc", b"d", b"e"), None);
    assert_eq!(replace_first(b"", b"d", b"e"), None);
    let bumped = replace_first(COMMON_TOML.as_bytes(), b"version = \"0.15.1\"", b"version = \"0.16.0\"");
    assert_eq!(
        String::from_utf8(bumped.unwrap()).unwrap(),
        COMMON_TOML.replacen("version = \"0.15.1\"", "version = \"0.16.0\"", 1)
    );
}

#[test]
fn package_version_is_the_first_version_of_the_manifest() {
    let (start, end) = package_version(COMMON_TOML.as_bytes()).unwrap();
    assert_eq!(&COMMON_TOML[start..end], "0.15.1");
    assert_eq!(package_version(b"version = \"\""), Some((11, 11)));
    assert_eq!(package_version(b"version = \"1.2"), None);
    assert_eq!(package_version(b"version = 1.2\""), None);
    assert_eq!(package_version(b"name = \"x\""), None);
    assert_eq!(package_version(b""), None);
}
