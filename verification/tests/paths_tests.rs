use geode_installer::paths::join_path;
use std::path::Path;

#[test]
fn join_puts_one_separator_between() {
    assert_eq!(join_path("/home/u", ".steam"), "/home/u/.steam");
    assert_eq!(join_path("/home/u/", ".steam"), "/home/u/.steam");
    assert_eq!(join_path("lib", "common"), "lib/common");
    assert_eq!(join_path("", "common"), "common");
    assert_eq!(join_path("/a", ""), "/a/");
    assert_eq!(join_path("", ""), "");
}

#[test]
fn join_lets_an_absolute_part_replace_the_base() {
    assert_eq!(join_path("/home/u", "/usr/share/steam"), "/usr/share/steam");
    assert_eq!(join_path("", "/x"), "/x");
    assert_eq!(join_path("/a/b", "/"), "/");
}

#[test]
fn join_agrees_with_the_standard_paths() {
    let samples = [
        "", "/", "a", "/a", "a/", "/a/", "a/b", "/a/b/", "..", "./x", "Geometry Dash", "//x",
        "x//", "\u{e9}t\u{e9}",
    ];
    for base in samples {
        for part in samples {
            let expected = Path::new(base).join(part);
            assert_eq!(
                join_path(base, part),
                expected.to_str().unwrap(),
                "{:?} joined with {:?}",
                base,
                part
            );
        }
    }
}
