//! Java 21: Mojang's runtime (`java-runtime-delta`), the official
//! launcher's. No system installation is asked of the player. Fetching the
//! catalogue and the files happens outside the library; here are the
//! choices: which platform, where the runtime goes, what to fetch.

use vstd::prelude::*;

use crate::net::{downloads_view, Download, DownloadSpec, HashSpec};
use crate::paths::{is_inside, join, spec_join, stays_inside, Paths, PathRefused};
use crate::text::str_eq;

verus! {

/// A system Mojang publishes no runtime for.
#[derive(Clone, Debug, PartialEq, Eq)]
pub struct UnsupportedPlatform {
    pub os: String,
    pub arch: String,
}

/// The architecture the runtime is chosen for: on Windows, the
/// PROCESSOR's (an x64 launcher on a Snapdragon would otherwise run Java,
/// and the whole game, in x64 emulation; Minecraft ships arm64 LWJGL
/// natives).
pub open spec fn spec_runtime_arch(os: Seq<char>, arch: Seq<char>, native_arm64: bool) -> Seq<char> {
    if os == "windows"@ && native_arm64 {
        "aarch64"@
    } else {
        arch
    }
}

pub fn runtime_arch(os: &str, arch: &str, native_arm64: bool) -> (r: String)
    ensures
        r@ == spec_runtime_arch(os@, arch@, native_arm64),
{
    if str_eq(os, "windows") && native_arm64 {
        "aarch64".to_owned()
    } else {
        arch.to_owned()
    }
}

/// The platform key of Mojang's runtime catalogue for a system and an
/// architecture (Rust's names for them).
pub open spec fn spec_platform(os: Seq<char>, arch: Seq<char>) -> Option<Seq<char>> {
    if os == "linux"@ && arch == "x86_64"@ {
        Some("linux"@)
    } else if os == "linux"@ && arch == "x86"@ {
        Some("linux-i386"@)
    } else if os == "macos"@ && arch == "aarch64"@ {
        Some("mac-os-arm64"@)
    } else if os == "macos"@ {
        Some("mac-os"@)
    } else if os == "windows"@ && arch == "x86_64"@ {
        Some("windows-x64"@)
    } else if os == "windows"@ && arch == "aarch64"@ {
        Some("windows-arm64"@)
    } else if os == "windows"@ && arch == "x86"@ {
        Some("windows-x86"@)
    } else {
        None
    }
}

/// The platform key of Mojang's catalogue, or the system it does not cover.
pub fn platform(os: &str, arch: &str) -> (r: Result<&'static str, UnsupportedPlatform>)
    ensures
        match spec_platform(os@, arch@) {
            Some(k) => (r matches Ok(s) && s@ == k),
            None => (r matches Err(e) && e.os@ == os@ && e.arch@ == arch@),
        },
{
    let linux = str_eq(os, "linux");
    let macos = str_eq(os, "macos");
    let windows = str_eq(os, "windows");
    let x64 = str_eq(arch, "x86_64");
    let x86 = str_eq(arch, "x86");
    let arm = str_eq(arch, "aarch64");
    if linux && x64 {
        Ok("linux")
    } else if linux && x86 {
        Ok("linux-i386")
    } else if macos && arm {
        Ok("mac-os-arm64")
    } else if macos {
        Ok("mac-os")
    } else if windows && x64 {
        Ok("windows-x64")
    } else if windows && arm {
        Ok("windows-arm64")
    } else if windows && x86 {
        Ok("windows-x86")
    } else {
        Err(UnsupportedPlatform { os: os.to_owned(), arch: arch.to_owned() })
    }
}

impl UnsupportedPlatform {
    /// The message shown.
    pub fn message(&self) -> (r: String)
        ensures
            r@ == "plateforme non prise en charge : "@ + self.os@ + "/"@ + self.arch@,
    {
        let mut r = "plateforme non prise en charge : ".to_owned();
        r.append(self.os.as_str());
        r.append("/");
        r.append(self.arch.as_str());
        r
    }
}

/// Where the runtime `component` goes: an arm64 Java under an x64 launcher
/// gets a directory of its own, so as not to mix its files with those of
/// an x64 runtime already installed.
pub open spec fn spec_runtime_root(root: Seq<char>, component: Seq<char>, platform: Seq<char>, launcher_arch: Seq<char>) -> Seq<char> {
    if platform == "windows-arm64"@ && launcher_arch != "aarch64"@ {
        spec_join(spec_join(root, "runtime"@), component + "-arm64"@)
    } else {
        spec_join(spec_join(root, "runtime"@), component)
    }
}

pub fn runtime_root(paths: &Paths, component: &str, platform: &str, launcher_arch: &str) -> (r: String)
    ensures
        r@ == spec_runtime_root(paths.root@, component@, platform@, launcher_arch@),
{
    if str_eq(platform, "windows-arm64") && !str_eq(launcher_arch, "aarch64") {
        let mut dir = component.to_owned();
        dir.append("-arm64");
        join(paths.runtime().as_str(), dir.as_str())
    } else {
        join(paths.runtime().as_str(), component)
    }
}

/// The `java` executable inside an installed runtime. On Windows,
/// `javaw`: no console window next to the game.
pub open spec fn spec_java_binary(root: Seq<char>, os: Seq<char>) -> Seq<char> {
    if os == "macos"@ {
        spec_join(root, "jre.bundle/Contents/Home/bin/java"@)
    } else if os == "windows"@ {
        spec_join(spec_join(root, "bin"@), "javaw.exe"@)
    } else {
        spec_join(spec_join(root, "bin"@), "java"@)
    }
}

pub fn java_binary(root: &str, os: &str) -> (r: String)
    ensures
        r@ == spec_java_binary(root@, os@),
{
    if str_eq(os, "macos") {
        join(root, "jre.bundle/Contents/Home/bin/java")
    } else if str_eq(os, "windows") {
        join(join(root, "bin").as_str(), "javaw.exe")
    } else {
        join(join(root, "bin").as_str(), "java")
    }
}

/// The raw download of a runtime file.
#[derive(Clone, Debug)]
pub struct RawDownload {
    pub sha1: String,
    pub size: u64,
    pub url: String,
}

/// One entry of a runtime's manifest, under its relative path.
#[derive(Clone, Debug)]
pub struct RuntimeFile {
    pub path: String,
    /// `directory`, `file` or `link`.
    pub kind: String,
    pub executable: bool,
    pub download: Option<RawDownload>,
    pub target: Option<String>,
}

/// What installing a runtime takes: directories to create, files to
/// download, links to make (path, target).
#[derive(Clone, Debug)]
pub struct RuntimePlan {
    pub dirs: Vec<String>,
    pub downloads: Vec<Download>,
    pub links: Vec<(String, String)>,
}

/// The directories of a manifest, under `root`.
pub open spec fn plan_dirs(root: Seq<char>, files: Seq<RuntimeFile>) -> Seq<Seq<char>>
    decreases files.len(),
{
    if files.len() == 0 {
        Seq::empty()
    } else if files.last().kind@ == "directory"@ {
        plan_dirs(root, files.drop_last()).push(spec_join(root, files.last().path@))
    } else {
        plan_dirs(root, files.drop_last())
    }
}

/// The files of a manifest that have a download, checked by size and SHA-1,
/// executable as the manifest says.
pub open spec fn plan_downloads(root: Seq<char>, files: Seq<RuntimeFile>) -> Seq<DownloadSpec>
    decreases files.len(),
{
    if files.len() == 0 {
        Seq::empty()
    } else if files.last().kind@ == "file"@ && files.last().download is Some {
        let d = files.last().download->0;
        plan_downloads(root, files.drop_last()).push(DownloadSpec {
            url: d.url@,
            path: spec_join(root, files.last().path@),
            hash: HashSpec::Sha1(d.sha1@),
            size: Some(d.size),
            executable: files.last().executable,
        })
    } else {
        plan_downloads(root, files.drop_last())
    }
}

/// The links of a manifest that name a target.
pub open spec fn plan_links(root: Seq<char>, files: Seq<RuntimeFile>) -> Seq<(Seq<char>, Seq<char>)>
    decreases files.len(),
{
    if files.len() == 0 {
        Seq::empty()
    } else if files.last().kind@ == "link"@ && files.last().target is Some {
        plan_links(root, files.drop_last()).push((spec_join(root, files.last().path@), files.last().target->0@))
    } else {
        plan_links(root, files.drop_last())
    }
}

pub open spec fn view_string_pairs(v: Seq<(String, String)>) -> Seq<(Seq<char>, Seq<char>)> {
    Seq::new(v.len(), |i: int| (v[i].0@, v[i].1@))
}

pub open spec fn view_strings(v: Seq<String>) -> Seq<Seq<char>> {
    Seq::new(v.len(), |i: int| v[i]@)
}

/// Every path of a manifest stays inside the runtime's directory.
pub open spec fn all_inside(files: Seq<RuntimeFile>, windows: bool) -> bool {
    forall|i: int| 0 <= i < files.len() ==> stays_inside((#[trigger] files[i]).path@, windows)
}

/// The index of the first path of a manifest that could leave the
/// runtime's directory (see `stays_inside`).
pub open spec fn is_first_outside(files: Seq<RuntimeFile>, i: int, windows: bool) -> bool {
    &&& 0 <= i < files.len()
    &&& !stays_inside(files[i].path@, windows)
    &&& forall|j: int| 0 <= j < i ==> stays_inside((#[trigger] files[j]).path@, windows)
}

/// The index of the first path of a manifest that leaves its directory.
fn first_outside(files: &Vec<RuntimeFile>, windows: bool) -> (r: Option<usize>)
    ensures
        match r {
            Some(i) => is_first_outside(files@, i as int, windows),
            None => all_inside(files@, windows),
        },
{
    let mut i: usize = 0;
    while i < files.len()
        invariant
            i <= files@.len(),
            forall|j: int| 0 <= j < i ==> stays_inside((#[trigger] files@[j]).path@, windows),
        decreases files.len() - i,
    {
        if !is_inside(files[i].path.as_str(), windows) {
            return Some(i);
        }
        i = i + 1;
    }
    None
}

/// What to do to install a runtime from its manifest into `root`. A
/// manifest with a path that is absolute or goes up, as the system reads it
/// (`windows`; see `stays_inside`), is refused as a whole, with the first such path: nothing of it may be
/// written outside of `root`.
pub fn runtime_plan(root: &str, files: &Vec<RuntimeFile>, windows: bool) -> (r: Result<RuntimePlan, PathRefused>)
    ensures
        r is Ok <==> all_inside(files@, windows),
        r matches Err(e) ==> exists|i: int| is_first_outside(files@, i, windows) && e.path@ == files@[i].path@,
        r matches Ok(p) ==> {
            &&& view_strings(p.dirs@) == plan_dirs(root@, files@)
            &&& downloads_view(p.downloads@) == plan_downloads(root@, files@)
            &&& view_string_pairs(p.links@) == plan_links(root@, files@)
        },
{
    if let Some(bad) = first_outside(files, windows) {
        return Err(PathRefused { path: files[bad].path.clone() });
    }
    let mut dirs: Vec<String> = Vec::new();
    let mut downloads: Vec<Download> = Vec::new();
    let mut links: Vec<(String, String)> = Vec::new();
    let mut i: usize = 0;
    while i < files.len()
        invariant
            i <= files@.len(),
            view_strings(dirs@) == plan_dirs(root@, files@.take(i as int)),
            downloads_view(downloads@) == plan_downloads(root@, files@.take(i as int)),
            view_string_pairs(links@) == plan_links(root@, files@.take(i as int)),
        decreases files.len() - i,
    {
        let ghost t = files@.take(i + 1);
        assert(t.drop_last() =~= files@.take(i as int));
        assert(t.last() == files@[i as int]);
        proof {
            reveal_strlit("directory");
            reveal_strlit("file");
            reveal_strlit("link");
            assert("directory"@.len() == 9 && "file"@.len() == 4 && "link"@.len() == 4);
            assert("file"@[0] != "link"@[0]);
        }
        let f = &files[i];
        let path = join(root, f.path.as_str());
        let ghost (d0, w0, l0) = (dirs@, downloads@, links@);
        if str_eq(f.kind.as_str(), "directory") {
            dirs.push(path);
            assert(view_strings(dirs@) =~= view_strings(d0).push(path@));
        } else if str_eq(f.kind.as_str(), "file") {
            match &f.download {
                Some(d) => {
                    let dl = Download {
                        url: d.url.clone(),
                        path,
                        hash: crate::net::Hash::Sha1(d.sha1.clone()),
                        size: Some(d.size),
                        executable: f.executable,
                    };
                    downloads.push(dl);
                    assert(downloads_view(downloads@) =~= downloads_view(w0).push(dl@));
                },
                None => {},
            }
        } else if str_eq(f.kind.as_str(), "link") {
            match &f.target {
                Some(target) => {
                    let tg = target.clone();
                    links.push((path, tg));
                    assert(view_string_pairs(links@) =~= view_string_pairs(l0).push((path@, tg@)));
                },
                None => {},
            }
        }
        i = i + 1;
    }
    assert(files@.take(files@.len() as int) =~= files@);
    Ok(RuntimePlan { dirs, downloads, links })
}

} // verus!
