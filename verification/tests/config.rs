use music_sync::config::is_toml_file;
use music_sync::hue::{version_supported, MIN_SOFTWARE_VERSION};

#[test]
fn toml_files_are_recognised() {
    assert!(is_toml_file("./config.toml"));
    assert!(is_toml_file("config.toml"));
    assert!(is_toml_file("a.b.toml"));
    assert!(is_toml_file("toml"));
    assert!(is_toml_file(".toml"));
    assert!(is_toml_file("config.toml."));
}

#[test]
fn other_files_are_not() {
    assert!(!is_toml_file(""));
    assert!(!is_toml_file("."));
    assert!(!is_toml_file("config"));
    assert!(!is_toml_file("config.tom"));
    assert!(!is_toml_file("config.toml.bak"));
    assert!(!is_toml_file("config.TOML"));
    assert!(!is_toml_file("configtoml"));
    assert!(!is_toml_file("config.toml.."));
    assert!(!is_toml_file("oml"));
}

#[test]
fn agrees_with_splitting_at_dots() {
    let names = [
        "", ".", "..", "toml", "toml.", ".toml", "a.toml", "a.toml.", "a.toml..", "atoml",
        "a.tomll", "a.b.c", "x/y.z/config.toml", "t.o.m.l", "a..toml", "\u{e9}.toml",
    ];
    for name in names {
        assert_eq!(is_toml_file(name), name.split_terminator('.').last() == Some("toml"), "{name}");
    }
}

#[test]
fn old_bridges_are_rejected() {
    assert_eq!(MIN_SOFTWARE_VERSION, 1948086000);
    assert!(version_supported(1948086000));
    assert!(version_supported(u32::MAX));
    assert!(!version_supported(1948085999));
    assert!(!version_supported(0));
}
