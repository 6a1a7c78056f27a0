use turicraft::neoforge::{done_marker, installer_download, is_installer_step, keep_tail, launcher_profiles_stub, version_id};
use turicraft::paths::Paths;

#[test]
fn names_and_places() {
    let p = Paths::new("/t".into());
    assert_eq!(version_id("21.1.77"), "neoforge-21.1.77");
    assert_eq!(done_marker(&p, "neoforge-21.1.77"), "/t/minecraft/versions/neoforge-21.1.77/.turicraft-installe");
    let d = installer_download(&p, "21.1.77");
    assert_eq!(d.url, "https://maven.neoforged.net/releases/net/neoforged/neoforge/21.1.77/neoforge-21.1.77-installer.jar");
    assert_eq!(d.path, "/t/tools/neoforge-21.1.77-installer.jar");
    assert_eq!(d.hash, turicraft::net::Hash::Unchecked);
    assert_eq!(launcher_profiles_stub(), r#"{"profiles":{}}"#);
}

#[test]
fn installer_output() {
    assert!(is_installer_step("  Processor 3/12"));
    assert!(is_installer_step("Task: PROCESS_MINECRAFT_JAR"));
    assert!(is_installer_step("  Downloading library from https://x"));
    assert!(!is_installer_step("Processor without indent"));
    let mut tail: Vec<String> = Vec::new();
    for i in 0..5 {
        keep_tail(&mut tail, format!("l{i}"), 3);
    }
    assert_eq!(tail, ["l2", "l3", "l4"]);
}
