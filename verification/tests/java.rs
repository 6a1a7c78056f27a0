use turicraft::java::{java_binary, platform, runtime_arch, runtime_plan, runtime_root, RawDownload, RuntimeFile};
use turicraft::paths::Paths;

#[test]
fn catalogue_platforms() {
    assert_eq!(platform("linux", "x86_64").unwrap(), "linux");
    assert_eq!(platform("linux", "x86").unwrap(), "linux-i386");
    assert_eq!(platform("macos", "aarch64").unwrap(), "mac-os-arm64");
    assert_eq!(platform("macos", "x86_64").unwrap(), "mac-os");
    assert_eq!(platform("windows", "x86_64").unwrap(), "windows-x64");
    assert_eq!(platform("windows", "aarch64").unwrap(), "windows-arm64");
    assert_eq!(platform("windows", "x86").unwrap(), "windows-x86");
    let e = platform("linux", "riscv64").unwrap_err();
    assert_eq!(e.message(), "plateforme non prise en charge : linux/riscv64");
}

#[test]
fn arm_windows_gets_arm_java() {
    assert_eq!(runtime_arch("windows", "x86_64", true), "aarch64");
    assert_eq!(runtime_arch("windows", "x86_64", false), "x86_64");
    assert_eq!(runtime_arch("linux", "x86_64", true), "x86_64");
    let p = Paths::new("/t".into());
    assert_eq!(runtime_root(&p, "java-runtime-delta", "windows-arm64", "x86_64"), "/t/runtime/java-runtime-delta-arm64");
    assert_eq!(runtime_root(&p, "java-runtime-delta", "windows-arm64", "aarch64"), "/t/runtime/java-runtime-delta");
    assert_eq!(runtime_root(&p, "java-runtime-delta", "linux", "x86_64"), "/t/runtime/java-runtime-delta");
}

#[test]
fn java_executable() {
    assert_eq!(java_binary("/r", "macos"), "/r/jre.bundle/Contents/Home/bin/java");
    assert_eq!(java_binary("/r", "windows"), "/r/bin/javaw.exe");
    assert_eq!(java_binary("/r", "linux"), "/r/bin/java");
}

#[test]
fn manifest_planned() {
    let f = |path: &str, kind: &str, dl: bool, target: Option<&str>| RuntimeFile {
        path: path.into(),
        kind: kind.into(),
        executable: path.ends_with("java"),
        download: if dl { Some(RawDownload { sha1: "ab".into(), size: 9, url: format!("https://x/{path}") }) } else { None },
        target: target.map(String::from),
    };
    let files = vec![
        f("bin", "directory", false, None),
        f("bin/java", "file", true, None),
        f("lib/x", "file", false, None),
        f("legal", "link", false, Some("../legal")),
        f("odd", "link", false, None),
    ];
    let plan = runtime_plan("/r", &files, false).unwrap();
    assert_eq!(plan.dirs, ["/r/bin"]);
    assert_eq!(plan.downloads.len(), 1);
    assert_eq!(plan.downloads[0].url, "https://x/bin/java");
    assert_eq!(plan.downloads[0].path, "/r/bin/java");
    assert_eq!(plan.downloads[0].hash, turicraft::net::Hash::Sha1("ab".into()));
    assert_eq!(plan.downloads[0].size, Some(9));
    assert!(plan.downloads[0].executable);
    assert_eq!(plan.links, [("/r/legal".to_string(), "../legal".to_string())]);
}

#[test]
fn manifest_leaving_its_directory_refused() {
    let f = |path: &str| RuntimeFile { path: path.into(), kind: "directory".into(), executable: false, download: None, target: None };
    for bad in ["../evil", "bin/../../evil", "/etc", ""] {
        for windows in [false, true] {
            let e = runtime_plan("/r", &vec![f("bin"), f(bad), f("../second")], windows).unwrap_err();
            assert_eq!(e.path, bad);
        }
    }
    // Windows reads these as absolute or going up; Unix as plain names
    for name in ["\\x", "..\\x", "C:x"] {
        assert_eq!(runtime_plan("/r", &vec![f(name)], true).unwrap_err().path, name);
        assert!(runtime_plan("/r", &vec![f(name)], false).is_ok());
    }
    assert!(runtime_plan("/r", &vec![f("bin"), f("a..b")], false).is_ok());
}
