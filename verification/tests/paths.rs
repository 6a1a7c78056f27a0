use turicraft::paths::{safe_join, Paths};

#[test]
fn chemins_venus_du_reseau() {
    let base = "/jeu";
    assert_eq!(safe_join(base, "config/a.toml", false).unwrap(), "/jeu/config/a.toml");
    assert!(safe_join(base, "../settings.json", false).is_err());
    assert!(safe_join(base, "config/../../x", false).is_err());
    assert!(safe_join(base, "/etc/passwd", false).is_err());
    assert!(safe_join(base, "", false).is_err());
}

#[test]
fn dotted_names_are_not_parents() {
    assert_eq!(safe_join("/jeu/", "a..b/..c", false).unwrap(), "/jeu/a..b/..c");
    assert!(safe_join("/jeu", "a/..", false).is_err());
    assert_eq!(safe_join("/jeu", "./a", false).unwrap(), "/jeu/./a");
}

#[test]
fn launcher_directories() {
    let p = Paths::new("/data/turicraft".into());
    assert_eq!(p.settings(), "/data/turicraft/settings.json");
    assert_eq!(p.versions(), "/data/turicraft/minecraft/versions");
    assert_eq!(p.libraries(), "/data/turicraft/minecraft/libraries");
    assert_eq!(p.assets(), "/data/turicraft/minecraft/assets");
    assert_eq!(p.natives(), "/data/turicraft/instance/natives");
    assert_eq!(p.tools(), "/data/turicraft/tools");
    assert_eq!(p.runtime(), "/data/turicraft/runtime");
}

#[test]
fn windows_paths_refused() {
    assert!(safe_join("/jeu", "..\\x", true).is_err());
    assert!(safe_join("/jeu", "a\\..\\..\\x", true).is_err());
    assert!(safe_join("/jeu", "\\x", true).is_err());
    assert!(safe_join("/jeu", "C:x", true).is_err());
    assert!(safe_join("/jeu", "c:\\x", true).is_err());
    assert_eq!(safe_join("/jeu", "1:b", true).unwrap(), "/jeu/1:b");
    assert_eq!(safe_join("/jeu", "ab:c", true).unwrap(), "/jeu/ab:c");
}

#[test]
fn unix_names_with_backslash_or_colon_accepted() {
    assert_eq!(safe_join("/jeu", "C:x", false).unwrap(), "/jeu/C:x");
    assert_eq!(safe_join("/jeu", "\\x", false).unwrap(), "/jeu/\\x");
    assert_eq!(safe_join("/jeu", "..\\x", false).unwrap(), "/jeu/..\\x");
    assert!(safe_join("/jeu", "../x", false).is_err());
}
