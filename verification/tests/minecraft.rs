use turicraft::minecraft::{
    asset_downloads, classpath, command_line, flatten_args, is_installed, maven_path, os_name, resolve_profile,
    rules_allow, version_json_path, Arg, ArgValue, Artifact, AssetIndexRef, AssetObject, LaunchVars, Library,
    LibraryDownloads, LibraryError, OsRule, ProfileError, Rule, VersionJson,
};
use turicraft::paths::Paths;

fn lib(name: &str) -> Library {
    Library { name: name.into(), downloads: None, url: None, rules: None }
}

fn rule(action: &str, os: Option<&str>, arch: Option<&str>) -> Rule {
    Rule {
        action: action.into(),
        os: if os.is_some() || arch.is_some() {
            Some(OsRule { name: os.map(String::from), arch: arch.map(String::from) })
        } else {
            None
        },
        features: None,
    }
}

fn index() -> AssetIndexRef {
    AssetIndexRef { id: "17".into(), url: "https://x/17.json".into(), sha1: "ab".into(), size: 1 }
}

fn version(id: &str) -> VersionJson {
    VersionJson {
        id: id.into(),
        inherits_from: None,
        main_class: None,
        libraries: vec![],
        arguments: None,
        asset_index: None,
        assets: None,
        downloads: None,
        logging: None,
        kind: None,
    }
}

#[test]
fn maven_coordinates() {
    assert_eq!(maven_path("org.ow2.asm:asm:9.7").unwrap(), "org/ow2/asm/asm/9.7/asm-9.7.jar");
    assert_eq!(
        maven_path("net.neoforged:neoforge:21.1.0:universal@jar").unwrap(),
        "net/neoforged/neoforge/21.1.0/neoforge-21.1.0-universal.jar"
    );
    assert_eq!(maven_path("a.b:c:1@zip").unwrap(), "a/b/c/1/c-1.zip");
    assert!(maven_path("a.b:c").is_err());
}

#[test]
fn mojang_os_names() {
    assert_eq!(os_name("macos"), "osx");
    assert_eq!(os_name("windows"), "windows");
    assert_eq!(os_name("linux"), "linux");
    assert_eq!(os_name("freebsd"), "linux");
}

#[test]
fn rules_of_libraries() {
    // systems by their Mojang name (see os_name)
    assert!(rules_allow(&None, "linux", "x86_64"));
    assert!(!rules_allow(&Some(vec![]), "linux", "x86_64"));
    let only_osx = Some(vec![rule("allow", Some("osx"), None)]);
    assert!(rules_allow(&only_osx, "osx", "aarch64"));
    assert!(!rules_allow(&only_osx, "linux", "x86_64"));
    let not_osx = Some(vec![rule("allow", None, None), rule("disallow", Some("osx"), None)]);
    assert!(rules_allow(&not_osx, "windows", "x86_64"));
    assert!(!rules_allow(&not_osx, "osx", "x86_64"));
    // x86 (32 bits) only where the program itself is 32 bits
    let x86 = Some(vec![rule("allow", None, Some("x86"))]);
    assert!(!rules_allow(&x86, "windows", "x86_64"));
    assert!(rules_allow(&x86, "windows", "x86"));
    // features asked true never match here
    let mut demo = rule("allow", None, None);
    demo.features = Some(vec![("is_demo_user".into(), true)]);
    assert!(!rules_allow(&Some(vec![demo]), "linux", "x86_64"));
    let mut off = rule("allow", None, None);
    off.features = Some(vec![("has_custom_resolution".into(), false)]);
    assert!(rules_allow(&Some(vec![off]), "linux", "x86_64"));
}

#[test]
fn library_files_and_downloads() {
    let mut l = lib("org.lwjgl:lwjgl:3.3.3:natives-linux");
    assert_eq!(l.path().unwrap(), "org/lwjgl/lwjgl/3.3.3/lwjgl-3.3.3-natives-linux.jar");
    l.downloads = Some(LibraryDownloads {
        artifact: Some(Artifact { path: Some("x/y.jar".into()), sha1: "aa".into(), size: 7, url: "https://l/x/y.jar".into() }),
    });
    assert_eq!(l.path().unwrap(), "x/y.jar");
    let d = l.download("/r/libraries", false).unwrap().unwrap();
    assert_eq!(d.url, "https://l/x/y.jar");
    assert_eq!(d.path, "/r/libraries/x/y.jar");
    assert_eq!(d.hash, turicraft::net::Hash::Sha1("aa".into()));
    assert_eq!(d.size, Some(7));
    assert!(!d.executable);
    // made locally by the NeoForge installer: nothing to download
    l.downloads.as_mut().unwrap().artifact.as_mut().unwrap().url = String::new();
    assert!(l.download("/r/libraries", false).unwrap().is_none());
    // a Maven repository: the coordinate's path under it, unchecked
    let mut m = lib("cpw.mods:modlauncher:10.0");
    m.url = Some("https://maven.example/".into());
    let d = m.download("/r/libraries", false).unwrap().unwrap();
    assert_eq!(d.url, "https://maven.example/cpw/mods/modlauncher/10.0/modlauncher-10.0.jar");
    assert_eq!(d.hash, turicraft::net::Hash::Unchecked);
    assert_eq!(d.size, None);
    assert!(lib("a:b:1").download("/r/libraries", false).unwrap().is_none());
    // a path leaving the libraries directory is refused
    let mut evil = lib("a:b:1");
    evil.downloads = Some(LibraryDownloads {
        artifact: Some(Artifact { path: Some("../../x".into()), sha1: "a".into(), size: 1, url: "https://e".into() }),
    });
    assert!(matches!(evil.download("/r/libraries", false), Err(LibraryError::Path(_))));
    let mut bad = lib("nothing");
    bad.url = Some("https://m".into());
    assert!(matches!(bad.download("/r/libraries", false), Err(LibraryError::Coordinate(_))));
}

#[test]
fn version_file_place() {
    let p = Paths::new("/t".into());
    assert_eq!(version_json_path(&p, "1.21.1"), "/t/minecraft/versions/1.21.1/1.21.1.json");
}

#[test]
fn child_completed_by_its_parent() {
    let mut parent = version("1.21.1");
    parent.main_class = Some("net.minecraft.client.main.Main".into());
    parent.asset_index = Some(index());
    parent.libraries = vec![lib("org.ow2.asm:asm:9.6"), lib("com.google:gson:2.10"), lib("org.lwjgl:lwjgl:3.3.3:natives-linux")];
    parent.kind = Some("release".into());
    let mut child = version("neoforge-21.1.0");
    child.inherits_from = Some("1.21.1".into());
    child.main_class = Some("cpw.mods.bootstraplauncher.BootstrapLauncher".into());
    child.libraries = vec![lib("org.ow2.asm:asm:9.7"), lib("org.lwjgl:lwjgl:3.3.3")];
    child.arguments = Some(turicraft::minecraft::Arguments { game: vec![Arg::Text("--fml".into())], jvm: vec![] });
    parent.arguments = Some(turicraft::minecraft::Arguments { game: vec![Arg::Text("--username".into())], jvm: vec![] });
    let p = resolve_profile(child, Some(parent)).unwrap();
    assert_eq!(p.id, "neoforge-21.1.0");
    assert_eq!(p.jar_version, "1.21.1");
    assert_eq!(p.main_class, "cpw.mods.bootstraplauncher.BootstrapLauncher");
    let names: Vec<&str> = p.libraries.iter().map(|l| l.name.as_str()).collect();
    // the child's asm wins; natives differ by their classifier and stay
    assert_eq!(names, ["org.ow2.asm:asm:9.7", "org.lwjgl:lwjgl:3.3.3", "com.google:gson:2.10", "org.lwjgl:lwjgl:3.3.3:natives-linux"]);
    // the parent's arguments first
    assert!(matches!(&p.game_args[..], [Arg::Text(a), Arg::Text(b)] if a == "--username" && b == "--fml"));
    assert_eq!(p.asset_index.id, "17");
    assert_eq!(p.kind, "release");
}

#[test]
fn what_a_version_lacks() {
    let v = version("x");
    assert_eq!(resolve_profile(v.clone(), None).unwrap_err(), ProfileError::NoMainClass);
    let mut w = v;
    w.main_class = Some("M".into());
    assert_eq!(resolve_profile(w.clone(), None).unwrap_err(), ProfileError::NoAssetIndex);
    assert_eq!(ProfileError::NoMainClass.message(), "mainClass absente");
    w.asset_index = Some(index());
    let p = resolve_profile(w, None).unwrap();
    assert_eq!(p.jar_version, "x");
    assert_eq!(p.kind, "release");
}

#[test]
fn arguments_flattened_with_rules() {
    let args = vec![
        Arg::Text("--a".into()),
        Arg::Ruled { rules: Some(vec![rule("allow", Some("osx"), None)]), value: ArgValue::Text("-XstartOnFirstThread".into()) },
        Arg::Ruled { rules: None, value: ArgValue::List(vec![Some("-x".into()), None, Some("-y".into())]) },
        Arg::Ruled { rules: None, value: ArgValue::Other },
        Arg::Other,
    ];
    assert_eq!(flatten_args(&args, "linux", "x86_64"), ["--a", "-x", "-y"]);
    assert_eq!(flatten_args(&args, "osx", "aarch64"), ["--a", "-XstartOnFirstThread", "-x", "-y"]);
}

fn profile() -> turicraft::minecraft::Profile {
    let mut v = version("neo");
    v.main_class = Some("Main".into());
    v.asset_index = Some(index());
    v.libraries = vec![lib("a:b:1"), lib("a:b:1:natives"), {
        let mut l = lib("c:d:2");
        l.rules = Some(vec![rule("allow", Some("windows"), None)]);
        l
    }];
    v.arguments = Some(turicraft::minecraft::Arguments {
        game: vec![Arg::Text("--username".into()), Arg::Text("${auth_player_name}".into()), Arg::Text("--gameDir".into()), Arg::Text("${game_directory}".into())],
        jvm: vec![Arg::Text("-cp".into()), Arg::Text("${classpath}".into()), Arg::Text("-Dv=${version_name}".into())],
    });
    resolve_profile(v, None).unwrap()
}

#[test]
fn class_path_and_installed_files() {
    let paths = Paths::new("/t".into());
    let p = profile();
    let cp = classpath(&paths, &p, "linux", "x86_64").unwrap();
    assert_eq!(
        cp,
        ["/t/minecraft/libraries/a/b/1/b-1.jar", "/t/minecraft/libraries/a/b/1/b-1-natives.jar", "/t/minecraft/versions/neo/neo.jar"]
    );
    let files = is_installed(&paths, &p, "windows", "x86_64").unwrap();
    assert_eq!(files.len(), 3);
    assert_eq!(files[2], "/t/minecraft/libraries/c/d/2/d-2.jar");
    // a library listed twice is on the class path once
    let mut twice = p.clone();
    twice.libraries.push(lib("a:b:1"));
    assert_eq!(classpath(&paths, &twice, "linux", "x86_64").unwrap(), cp);
    let mut broken = p.clone();
    broken.libraries.push(lib("nothing"));
    assert!(is_installed(&paths, &broken, "linux", "x86_64").is_none());
    assert!(classpath(&paths, &broken, "linux", "x86_64").is_err());
}

#[test]
fn the_command_line() {
    let paths = Paths::new("/t".into());
    let p = profile();
    let vars = LaunchVars {
        player_name: "Steve".into(),
        uuid: "u".into(),
        access_token: "0".into(),
        xuid: "0".into(),
        user_type: "legacy".into(),
        game_dir: "/t/instance".into(),
        memory_mb: 6144,
        extra_jvm: vec!["-XX:+UseZGC".into()],
    };
    let cp = vec!["/a.jar".to_string(), "/b.jar".to_string()];
    let utf8 = vec!["-Dfile.encoding=UTF-8".to_string()];
    let (jvm, game) = command_line(&paths, &p, &vars, &cp, ":", &utf8, "0.2.0", "linux", "x86_64");
    assert_eq!(jvm, ["-Xmx6144m", "-Xms1024m", "-XX:+UseZGC", "-Dfile.encoding=UTF-8", "-cp", "/a.jar:/b.jar", "-Dv=neo", "Main"]);
    assert_eq!(game, ["--username", "Steve", "--gameDir", "/t/instance"]);
}

#[test]
fn assets_each_once() {
    let paths = Paths::new("/t".into());
    let objs = vec![
        AssetObject { hash: "abcdef".into(), size: 3 },
        AssetObject { hash: "0123".into(), size: 1 },
        AssetObject { hash: "abcdef".into(), size: 3 },
    ];
    let ds = asset_downloads(&paths, &objs);
    assert_eq!(ds.len(), 2);
    assert_eq!(ds[0].url, "https://resources.download.minecraft.net/ab/abcdef");
    assert_eq!(ds[0].path, "/t/minecraft/assets/objects/ab/abcdef");
    assert_eq!(ds[0].hash, turicraft::net::Hash::Sha1("abcdef".into()));
    assert_eq!(ds[1].path, "/t/minecraft/assets/objects/01/0123");
}

#[test]
fn absolute_library_path_taken_as_it_is() {
    let paths = Paths::new("/t".into());
    let mut p = profile();
    let mut abs = lib("e:f:3");
    abs.downloads = Some(LibraryDownloads {
        artifact: Some(Artifact { path: Some("/opt/f.jar".into()), sha1: "a".into(), size: 1, url: String::new() }),
    });
    p.libraries.push(abs);
    let cp = classpath(&paths, &p, "linux", "x86_64").unwrap();
    assert_eq!(cp[2], "/opt/f.jar");
}
