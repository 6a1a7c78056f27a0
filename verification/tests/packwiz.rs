use turicraft::packwiz::{pack_versions_of, PackError, PackVersions};
use turicraft::packwiz::{
    aside_name, is_failure_line, known_mods, optional_updates, parse_counter, should_set_aside, MODS_SET_ASIDE,
};

#[test]
fn counters_of_the_installer() {
    assert_eq!(parse_counter("(123/749) Downloading sodium.jar"), Some((123, 749)));
    assert_eq!(parse_counter("Progress ( 5 / 10 ) done"), Some((5, 10)));
    assert_eq!(parse_counter("(+7/8)"), Some((7, 8)));
    assert_eq!(parse_counter("no counter"), None);
    assert_eq!(parse_counter("(a/b)"), None);
    assert_eq!(parse_counter("(12)"), None);
    assert_eq!(parse_counter("(1/2"), None);
    assert_eq!(parse_counter("(18446744073709551616/1)"), None);
}

#[test]
fn failures_shown() {
    assert!(is_failure_line("Failed to download modrinth file"));
    assert!(is_failure_line("Invalid hash"));
    assert!(is_failure_line("java.lang.Error: x"));
    assert!(!is_failure_line("Downloading"));
}

#[test]
fn optional_mods_written_where_they_differ() {
    let present = vec![
        ("mods/a.pw.toml".to_string(), Some(true)),
        ("mods/b.pw.toml".to_string(), Some(false)),
        ("mods/c.pw.toml".to_string(), None),
        ("mods/d.pw.toml".to_string(), Some(true)),
    ];
    let enabled = vec!["mods/a.pw.toml".to_string(), "mods/b.pw.toml".to_string()];
    let w = optional_updates(&present, &enabled);
    assert_eq!(
        w,
        [("mods/b.pw.toml".to_string(), true), ("mods/c.pw.toml".to_string(), false), ("mods/d.pw.toml".to_string(), false)]
    );
    assert!(optional_updates(&present[..1].to_vec(), &enabled).is_empty());
}

#[test]
fn mods_added_by_hand_set_aside() {
    let known = known_mods(&vec!["mods/sodium.jar".to_string(), "config/a.toml".to_string()]);
    assert_eq!(known, ["sodium.jar"]);
    assert!(should_set_aside("triche.jar", true, &known));
    assert!(should_set_aside("Triche.JAR", true, &known));
    assert!(should_set_aside("pack.zip", true, &known));
    assert!(!should_set_aside("sodium.jar", true, &known), "a mod of the pack stays");
    assert!(!should_set_aside("notes.txt", true, &known), "what is not a mod stays");
    assert!(!should_set_aside("dir.jar", false, &known));
    assert!(!should_set_aside("triche.jar", true, &vec![]), "no manifest, nothing moves");
    assert_eq!(aside_name("triche.jar", 1), "triche.jar");
    assert_eq!(aside_name("triche.jar", 2), "2-triche.jar");
    assert_eq!(aside_name("triche.jar", 12), "12-triche.jar");
    assert_eq!(MODS_SET_ASIDE, "mods-desactives");
}

#[test]
fn optional_mods_settle() {
    let present = vec![("mods/a.pw.toml".to_string(), None), ("mods/b.pw.toml".to_string(), Some(true))];
    let enabled = vec!["mods/a.pw.toml".to_string()];
    let writes = optional_updates(&present, &enabled);
    assert_eq!(writes, [("mods/a.pw.toml".to_string(), true), ("mods/b.pw.toml".to_string(), false)]);
    // once written, nothing more to write
    let after: Vec<(String, Option<bool>)> = writes.iter().map(|(p, v)| (p.clone(), Some(*v))).collect();
    assert!(optional_updates(&after, &enabled).is_empty());
}

#[test]
fn installer_command_line() {
    assert_eq!(
        turicraft::packwiz::installer_args("/t/tools", "https://p/pack.toml"),
        [
            "-jar",
            "/t/tools/packwiz-installer-bootstrap.jar",
            "--bootstrap-no-update",
            "--bootstrap-main-jar",
            "/t/tools/packwiz-installer.jar",
            "-g",
            "-s",
            "client",
            "https://p/pack.toml"
        ]
    );
}

fn cf(path: &str, location: Option<&str>, hash: Option<&str>, option_value: Option<bool>) -> turicraft::packwiz::CachedFile {
    turicraft::packwiz::CachedFile {
        path: path.into(),
        location: location.map(String::from),
        hash: hash.map(String::from),
        option_value,
    }
}

#[test]
fn hashes_of_the_pack_files() {
    let cached = vec![
        cf("config/a.toml", Some("config/a.toml"), Some("h1"), None),
        cf("config/b.toml", None, None, None),
        cf("config/c.toml", None, Some("h3"), None),
    ];
    let files = vec!["config/a.toml".to_string(), "config/b.toml".into(), "config/c.toml".into(), "config/z.toml".into()];
    assert_eq!(
        turicraft::packwiz::pack_hashes_in(&cached, &files),
        vec![("config/a.toml".to_string(), "h1".to_string()), ("config/c.toml".to_string(), "h3".to_string())]
    );
}

#[test]
fn optional_writes_from_the_manifest() {
    let cached = vec![cf("mods/a.pw.toml", None, None, Some(true)), cf("mods/b.pw.toml", None, None, None), cf("mods/c.pw.toml", None, None, Some(false))];
    let all = vec!["mods/a.pw.toml".to_string(), "mods/b.pw.toml".into(), "mods/c.pw.toml".into(), "mods/absent.pw.toml".into()];
    let enabled = vec!["mods/b.pw.toml".to_string(), "mods/c.pw.toml".into()];
    assert_eq!(
        turicraft::packwiz::optional_plan(&cached, &all, &enabled),
        vec![("mods/a.pw.toml".to_string(), false), ("mods/b.pw.toml".to_string(), true), ("mods/c.pw.toml".to_string(), true)]
    );
}

#[test]
fn hand_added_mods_sorted() {
    let cached = vec![cf("mods/sodium.pw.toml", Some("mods/sodium.jar"), None, None), cf("x", Some("config/x.toml"), None, None)];
    let listing = vec![
        ("zeta.jar".to_string(), true),
        ("sodium.jar".to_string(), true),
        ("Alpha.ZIP".to_string(), true),
        ("dossier.jar".to_string(), false),
        ("notes.txt".to_string(), true),
        ("beta.jar".to_string(), true),
    ];
    assert_eq!(turicraft::packwiz::unknown_mods(&listing, &cached), ["Alpha.ZIP", "beta.jar", "zeta.jar"]);
    // no mod known: nothing put aside
    assert!(turicraft::packwiz::unknown_mods(&listing, &vec![cf("x", Some("config/x.toml"), None, None)]).is_empty());
}

#[test]
fn versions_asked_by_the_pack() {
    let v = |m: Option<&str>, n: Option<&str>| Some(PackVersions { minecraft: m.map(String::from), neoforge: n.map(String::from) });
    assert_eq!(pack_versions_of(v(Some("1.21.1"), Some("21.1.77"))), Ok(("1.21.1".to_string(), "21.1.77".to_string())));
    assert_eq!(pack_versions_of(None), Err(PackError::NoVersions));
    assert_eq!(pack_versions_of(v(None, None)), Err(PackError::NoMinecraft));
    assert_eq!(pack_versions_of(v(Some("1.21.1"), None)), Err(PackError::NoNeoforge));
    assert_eq!(PackError::NoVersions.message(), "pack.toml sans [versions]");
}
