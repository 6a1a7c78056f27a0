//! Vanilla Minecraft (jar, libraries, assets) and version files: merging a
//! child version with its parent (`inheritsFrom`, which is how NeoForge
//! grafts itself on), rules by system, and the command line.
//!
//! Reference format: the files of piston-meta.mojang.com, as the official
//! launcher reads them. Reading and fetching them happens outside the
//! library, which works on their contents.

use vstd::prelude::*;

use crate::net::{downloads_view, Download, DownloadSpec, HashSpec};
use crate::paths::{join, path_join, safe_join, spec_join, spec_path_join, stays_inside, Paths, PathRefused};
use vstd::hash_set::StringHashSet;
use vstd::utf8::{decode_utf8, encode_utf8, is_char_boundary};

use crate::text::{replace_all, spec_decimal, spec_replace, find_in, lemma_find_char, push_char, split_on, split_once, split_ranges, str_eq, string_of, to_chars};

verus! {

// ─── Version file ───────────────────────────────────────────────────────────

/// A downloadable file of a version file.
#[derive(Clone, Debug)]
pub struct Artifact {
    pub path: Option<String>,
    pub sha1: String,
    pub size: u64,
    pub url: String,
}

#[derive(Clone, Debug)]
pub struct LibraryDownloads {
    pub artifact: Option<Artifact>,
}

/// Conditions of a rule on the operating system.
#[derive(Clone, Debug)]
pub struct OsRule {
    pub name: Option<String>,
    pub arch: Option<String>,
}

/// `allow` or `disallow`, when everything it names matches.
#[derive(Clone, Debug)]
pub struct Rule {
    pub action: String,
    pub os: Option<OsRule>,
    /// Launcher features (demo, forced resolution, quick play...) the rule
    /// asks for, with the value it asks.
    pub features: Option<Vec<(String, bool)>>,
}

#[derive(Clone, Debug)]
pub struct Library {
    pub name: String,
    pub downloads: Option<LibraryDownloads>,
    /// Maven libraries without a `downloads` block (older formats).
    pub url: Option<String>,
    pub rules: Option<Vec<Rule>>,
}

#[derive(Clone, Debug)]
pub struct AssetIndexRef {
    pub id: String,
    pub url: String,
    pub sha1: String,
    pub size: u64,
}

#[derive(Clone, Debug)]
pub struct VersionDownloads {
    pub client: Artifact,
}

#[derive(Clone, Debug)]
pub struct LoggingFile {
    pub id: String,
    pub sha1: String,
    pub size: u64,
    pub url: String,
}

#[derive(Clone, Debug)]
pub struct LoggingClient {
    pub argument: String,
    pub file: LoggingFile,
}

#[derive(Clone, Debug)]
pub struct Logging {
    pub client: Option<LoggingClient>,
}

// ─── Rules ──────────────────────────────────────────────────────────────────

/// The operating system as Mojang's rules name it, from Rust's name for it.
pub open spec fn mojang_os(os: Seq<char>) -> Seq<char> {
    if os == "macos"@ {
        "osx"@
    } else if os == "windows"@ {
        "windows"@
    } else {
        "linux"@
    }
}

/// Mojang's name for the operating system `os` (`std::env::consts::OS`).
pub fn os_name(os: &str) -> (r: &'static str)
    ensures
        r@ == mojang_os(os@),
{
    if str_eq(os, "macos") {
        "osx"
    } else if str_eq(os, "windows") {
        "windows"
    } else {
        "linux"
    }
}

/// A rule applies when everything it names matches: the system `os`
/// (Mojang's name), the architecture (only `x86` is ever named, and matches
/// a 32-bit x86 launcher `arch`), and launcher features, all off here.
pub open spec fn rule_matches(r: Rule, os: Seq<char>, arch: Seq<char>) -> bool {
    &&& match r.os {
        Some(o) => {
            &&& (o.name matches Some(n) ==> n@ == os)
            &&& (o.arch matches Some(a) ==> a@ == "x86"@ && arch == "x86"@)
        },
        None => true,
    }
    &&& match r.features {
        Some(f) => forall|i: int| 0 <= i < f@.len() ==> !(#[trigger] f@[i]).1,
        None => true,
    }
}

/// The last rule that applies decides; none applies: not allowed.
pub open spec fn allowed_by(rules: Seq<Rule>, os: Seq<char>, arch: Seq<char>) -> bool
    decreases rules.len(),
{
    if rules.len() == 0 {
        false
    } else if rule_matches(rules.last(), os, arch) {
        rules.last().action@ == "allow"@
    } else {
        allowed_by(rules.drop_last(), os, arch)
    }
}

/// No rules: always allowed.
pub open spec fn spec_rules_allow(rules: Option<Vec<Rule>>, os: Seq<char>, arch: Seq<char>) -> bool {
    match rules {
        None => true,
        Some(r) => allowed_by(r@, os, arch),
    }
}

fn rule_applies(r: &Rule, os: &str, arch: &str) -> (b: bool)
    ensures
        b == rule_matches(*r, os@, arch@),
{
    let mut matches = true;
    match &r.os {
        Some(o) => {
            match &o.name {
                Some(n) => {
                    matches = matches && str_eq(n.as_str(), os);
                },
                None => {},
            }
            match &o.arch {
                Some(a) => {
                    let x86 = str_eq(a.as_str(), "x86") && str_eq(arch, "x86");
                    matches = matches && x86;
                },
                None => {},
            }
        },
        None => {},
    }
    match &r.features {
        Some(f) => {
            let mut i: usize = 0;
            let mut all_off = true;
            while i < f.len()
                invariant
                    i <= f@.len(),
                    all_off == forall|j: int| 0 <= j < i ==> !(#[trigger] f@[j]).1,
                decreases f.len() - i,
            {
                if f[i].1 {
                    all_off = false;
                }
                i = i + 1;
            }
            matches = matches && all_off;
        },
        None => {},
    }
    matches
}

/// Whether a library or an argument applies on this system.
pub fn rules_allow(rules: &Option<Vec<Rule>>, os: &str, arch: &str) -> (b: bool)
    ensures
        b == spec_rules_allow(*rules, os@, arch@),
{
    let rules = match rules {
        None => return true,
        Some(r) => r,
    };
    let mut allowed = false;
    let mut i: usize = 0;
    while i < rules.len()
        invariant
            i <= rules@.len(),
            allowed == allowed_by(rules@.take(i as int), os@, arch@),
        decreases rules.len() - i,
    {
        let ghost t = rules@.take(i + 1);
        assert(t.drop_last() =~= rules@.take(i as int));
        assert(t.last() == rules@[i as int]);
        if rule_applies(&rules[i], os, arch) {
            allowed = str_eq(rules[i].action.as_str(), "allow");
        }
        i = i + 1;
    }
    assert(rules@.take(rules@.len() as int) =~= rules@);
    allowed
}

// ─── Maven coordinates ──────────────────────────────────────────────────────

/// `s` with every `.` made a `/`.
pub open spec fn dots_to_slashes(s: Seq<char>) -> Seq<char> {
    Seq::new(s.len(), |i: int| if s[i] == '.' { '/' } else { s[i] })
}

/// The Maven path of a coordinate split into its parts `p` (at least
/// three), with extension `ext`.
pub open spec fn maven_of(p: Seq<Seq<char>>, ext: Seq<char>) -> Seq<char> {
    if p.len() > 3 {
        dots_to_slashes(p[0]) + "/"@ + p[1] + "/"@ + p[2] + "/"@ + p[1] + "-"@ + p[2] + "-"@ + p[3] + "."@ + ext
    } else {
        dots_to_slashes(p[0]) + "/"@ + p[1] + "/"@ + p[2] + "/"@ + p[1] + "-"@ + p[2] + "."@ + ext
    }
}

/// A coordinate split at its first `@`: the coordinates and the extension
/// (`jar` by default).
pub open spec fn coords_and_ext(name: Seq<char>) -> (Seq<char>, Seq<char>) {
    match split_once(name, '@') {
        Some(ce) => ce,
        None => (name, "jar"@),
    }
}

/// `group:artifact:version[:classifier][@ext]` -> its path in a Maven
/// repository; `None` with fewer than three parts.
pub open spec fn spec_maven_path(name: Seq<char>) -> Option<Seq<char>> {
    let p = split_on(coords_and_ext(name).0, ':');
    if p.len() < 3 {
        None
    } else {
        Some(maven_of(p, coords_and_ext(name).1))
    }
}

/// A Maven coordinate that does not name a file.
#[derive(Clone, Debug, PartialEq, Eq)]
pub struct BadCoordinate {
    pub name: String,
}

/// The string `v[from..to]`, with `.` made `/`.
fn slashed(v: &Vec<char>, from: usize, to: usize) -> (s: String)
    requires
        from <= to <= v@.len(),
    ensures
        s@ == dots_to_slashes(v@.subrange(from as int, to as int)),
{
    let mut s = String::new();
    let mut i = from;
    while i < to
        invariant
            from <= i <= to <= v@.len(),
            s@ == dots_to_slashes(v@.subrange(from as int, i as int)),
        decreases to - i,
    {
        let c = v[i];
        push_char(&mut s, if c == '.' { '/' } else { c });
        assert(s@ =~= dots_to_slashes(v@.subrange(from as int, i + 1)));
        i = i + 1;
    }
    s
}

/// Where the coordinates end in `v`, and the extension.
fn split_ext(v: &Vec<char>) -> (r: (usize, String))
    ensures
        r.0 <= v@.len(),
        coords_and_ext(v@) == (v@.subrange(0, r.0 as int), r.1@),
{
    let n = v.len();
    proof {
        assert(v@.subrange(0, n as int) =~= v@);
        lemma_find_char(v@, '@');
    }
    match find_in(v, 0, n, '@') {
        Some(k) => {
            let ext = string_of(v.as_slice(), k + 1, n);
            (k, ext)
        },
        None => (n, "jar".to_owned()),
    }
}

/// The Maven path from the parts of a coordinate, given as ranges of `v`.
fn build_maven(v: &Vec<char>, parts: &Vec<(usize, usize)>, ext: &str) -> (s: String)
    requires
        parts@.len() >= 3,
        forall|i: int| 0 <= i < parts@.len() ==> (#[trigger] parts@[i]).0 <= parts@[i].1 <= v@.len(),
    ensures
        s@ == maven_of(Seq::new(parts@.len(), |i: int| v@.subrange(parts@[i].0 as int, parts@[i].1 as int)), ext@),
{
    let ghost p = Seq::new(parts@.len(), |i: int| v@.subrange(parts@[i].0 as int, parts@[i].1 as int));
    let a = parts[0];
    let b = parts[1];
    let c = parts[2];
    assert(v@.subrange(a.0 as int, a.1 as int) == p[0]);
    assert(v@.subrange(b.0 as int, b.1 as int) == p[1]);
    assert(v@.subrange(c.0 as int, c.1 as int) == p[2]);
    let artifact = string_of(v.as_slice(), b.0, b.1);
    let version = string_of(v.as_slice(), c.0, c.1);
    let mut s = slashed(v, a.0, a.1);
    s.append("/");
    s.append(artifact.as_str());
    s.append("/");
    s.append(version.as_str());
    s.append("/");
    s.append(artifact.as_str());
    s.append("-");
    s.append(version.as_str());
    if parts.len() > 3 {
        let d = parts[3];
        assert(v@.subrange(d.0 as int, d.1 as int) == p[3]);
        let classifier = string_of(v.as_slice(), d.0, d.1);
        s.append("-");
        s.append(classifier.as_str());
    }
    s.append(".");
    s.append(ext);
    s
}

/// The path of a library in a Maven repository, from its coordinate
/// `group:artifact:version[:classifier][@ext]` (extension `jar` by
/// default; the group's dots become directories).
pub fn maven_path(name: &str) -> (r: Result<String, BadCoordinate>)
    ensures
        match spec_maven_path(name@) {
            Some(p) => (r matches Ok(s) && s@ == p),
            None => (r matches Err(e) && e.name@ == name@),
        },
{
    let v = to_chars(name);
    let (cend, ext) = split_ext(&v);
    let start: usize = 0;
    let parts = split_ranges(&v, start, cend, ':');
    assert(v@.subrange(start as int, cend as int) == v@.subrange(0, cend as int));
    if parts.len() < 3 {
        return Err(BadCoordinate { name: name.to_owned() });
    }
    Ok(build_maven(&v, &parts, ext.as_str()))
}

// ─── Libraries ──────────────────────────────────────────────────────────────

/// The artifact of a library, if its `downloads` block names one.
pub open spec fn lib_artifact(l: Library) -> Option<Artifact> {
    match l.downloads {
        Some(d) => d.artifact,
        None => None,
    }
}

/// Where a library lies under the libraries directory: the path its
/// artifact gives, or else the one its Maven coordinate gives.
pub open spec fn spec_library_path(l: Library) -> Option<Seq<char>> {
    match lib_artifact(l) {
        Some(a) => match a.path {
            Some(p) => Some(p@),
            None => spec_maven_path(l.name@),
        },
        None => spec_maven_path(l.name@),
    }
}

/// `s` without its trailing `/` (`str::trim_end_matches('/')`).
pub open spec fn trim_end_slashes(s: Seq<char>) -> Seq<char>
    decreases s.len(),
{
    if s.len() > 0 && s.last() == '/' {
        trim_end_slashes(s.drop_last())
    } else {
        s
    }
}

/// Why a library cannot be downloaded.
#[derive(Clone, Debug, PartialEq, Eq)]
pub enum LibraryError {
    /// Its coordinate names no file.
    Coordinate(BadCoordinate),
    /// Its path would leave the libraries directory.
    Path(PathRefused),
}

/// `s` without its trailing `/`.
fn trim_slashes(s: &str) -> (r: String)
    ensures
        r@ == trim_end_slashes(s@),
{
    let v = to_chars(s);
    let mut e = v.len();
    proof { assert(v@.subrange(0, e as int) =~= v@); }
    while e > 0 && v[e - 1] == '/'
        invariant
            e <= v@.len(),
            trim_end_slashes(v@) == trim_end_slashes(v@.subrange(0, e as int)),
        decreases e,
    {
        assert(v@.subrange(0, e as int).drop_last() =~= v@.subrange(0, e - 1));
        e = e - 1;
    }
    string_of(v.as_slice(), 0, e)
}

/// What to download for a library into `libraries`; `None` when its
/// coordinate names no file or its path would leave the directory.
pub open spec fn spec_lib_download(l: Library, libraries: Seq<char>, windows: bool) -> Option<Option<DownloadSpec>> {
    match lib_artifact(l) {
        Some(a) => if a.url@.len() == 0 {
            Some(None)
        } else {
            match spec_library_path(l) {
                None => None,
                Some(p) => if !stays_inside(p, windows) {
                    None
                } else {
                    Some(Some(DownloadSpec {
                        url: a.url@,
                        path: spec_join(libraries, p),
                        hash: HashSpec::Sha1(a.sha1@),
                        size: Some(a.size),
                        executable: false,
                    }))
                },
            }
        },
        None => match l.url {
            None => Some(None),
            Some(base) => match spec_maven_path(l.name@) {
                None => None,
                Some(rel) => if !stays_inside(rel, windows) {
                    None
                } else {
                    Some(Some(DownloadSpec {
                        url: trim_end_slashes(base@) + "/"@ + rel,
                        path: spec_join(libraries, rel),
                        hash: HashSpec::Unchecked,
                        size: None,
                        executable: false,
                    }))
                },
            },
        },
    }
}

impl Library {
    /// Where the library lies under the libraries directory.
    pub fn path(&self) -> (r: Result<String, BadCoordinate>)
        ensures
            match spec_library_path(*self) {
                Some(p) => (r matches Ok(s) && s@ == p),
                None => (r matches Err(e) && e.name@ == self.name@),
            },
    {
        match &self.downloads {
            Some(d) => match &d.artifact {
                Some(a) => match &a.path {
                    Some(p) => return Ok(p.clone()),
                    None => {},
                },
                None => {},
            },
            None => {},
        }
        maven_path(self.name.as_str())
    }

    /// What to download for this library into `libraries`: its artifact
    /// (nothing if the artifact has no URL: the NeoForge installer makes
    /// it), or, for an old-style Maven library, the file under its
    /// repository `url`, unchecked.
    pub fn download(&self, libraries: &str, windows: bool) -> (r: Result<Option<Download>, LibraryError>)
        ensures
            match spec_lib_download(*self, libraries@, windows) {
                Some(None) => r matches Ok(None),
                Some(Some(ds)) => (r matches Ok(Some(d)) && d@ == ds),
                None => r is Err,
            },
            r matches Err(LibraryError::Coordinate(e)) ==> e.name@ == self.name@,
            r matches Err(LibraryError::Path(e)) ==> !stays_inside(e.path@, windows),
    {
        match &self.downloads {
            Some(dl) => match &dl.artifact {
                Some(a) => {
                    if a.url.as_str().is_empty() {
                        return Ok(None);
                    }
                    let rel = match self.path() {
                        Ok(p) => p,
                        Err(e) => return Err(LibraryError::Coordinate(e)),
                    };
                    let path = match safe_join(libraries, rel.as_str(), windows) {
                        Ok(p) => p,
                        Err(e) => return Err(LibraryError::Path(e)),
                    };
                    return Ok(
                        Some(
                            Download {
                                url: a.url.clone(),
                                path,
                                hash: crate::net::Hash::Sha1(a.sha1.clone()),
                                size: Some(a.size),
                                executable: false,
                            },
                        ),
                    );
                },
                None => {},
            },
            None => {},
        }
        match &self.url {
            Some(base) => {
                let rel = match maven_path(self.name.as_str()) {
                    Ok(p) => p,
                    Err(e) => return Err(LibraryError::Coordinate(e)),
                };
                let mut url = trim_slashes(base.as_str());
                url.append("/");
                url.append(rel.as_str());
                let path = match safe_join(libraries, rel.as_str(), windows) {
                    Ok(p) => p,
                    Err(e) => return Err(LibraryError::Path(e)),
                };
                Ok(
                    Some(
                        Download {
                            url,
                            path,
                            hash: crate::net::Hash::Unchecked,
                            size: None,
                            executable: false,
                        },
                    ),
                )
            },
            None => Ok(None),
        }
    }
}

/// `<root>/minecraft/versions/<id>/<id>.json`
pub open spec fn spec_version_json_path(root: Seq<char>, id: Seq<char>) -> Seq<char> {
    spec_join(spec_join(spec_join(spec_join(root, "minecraft"@), "versions"@), id), id + ".json"@)
}

/// Where the version file of `id` lies.
pub fn version_json_path(paths: &Paths, id: &str) -> (p: String)
    ensures
        p@ == spec_version_json_path(paths.root@, id@),
{
    let dir = join(paths.versions().as_str(), id);
    let mut file = id.to_owned();
    file.append(".json");
    join(dir.as_str(), file.as_str())
}

// ─── Version files and their merge ──────────────────────────────────────────

/// One value of the `value` of a ruled argument.
#[derive(Clone, Debug)]
pub enum ArgValue {
    /// A string.
    Text(String),
    /// An array: its strings, `None` for anything else in it.
    List(Vec<Option<String>>),
    /// Missing, or neither a string nor an array.
    Other,
}

/// One argument of a version file: a string, or an object with `rules` and
/// `value`.
#[derive(Clone, Debug)]
pub enum Arg {
    Text(String),
    Ruled {
        /// `None` when absent or unreadable as rules.
        rules: Option<Vec<Rule>>,
        value: ArgValue,
    },
    /// Anything else (skipped).
    Other,
}

#[derive(Clone, Debug)]
pub struct Arguments {
    pub game: Vec<Arg>,
    pub jvm: Vec<Arg>,
}

/// A version file (`versions/<id>/<id>.json`).
#[derive(Clone, Debug)]
pub struct VersionJson {
    pub id: String,
    pub inherits_from: Option<String>,
    pub main_class: Option<String>,
    pub libraries: Vec<Library>,
    pub arguments: Option<Arguments>,
    pub asset_index: Option<AssetIndexRef>,
    pub assets: Option<String>,
    pub downloads: Option<VersionDownloads>,
    pub logging: Option<Logging>,
    /// `type`: release, snapshot...
    pub kind: Option<String>,
}

/// A version ready to launch: the child (NeoForge) completed by its parent.
#[derive(Clone, Debug)]
pub struct Profile {
    pub id: String,
    /// The vanilla version whose jar is used.
    pub jar_version: String,
    pub main_class: String,
    pub libraries: Vec<Library>,
    pub game_args: Vec<Arg>,
    pub jvm_args: Vec<Arg>,
    pub asset_index: AssetIndexRef,
    pub logging: Option<LoggingClient>,
    pub kind: String,
}

/// What a version file lacks to be launched.
#[derive(Clone, Copy, Debug, PartialEq, Eq)]
pub enum ProfileError {
    NoMainClass,
    NoAssetIndex,
}

impl ProfileError {
    pub fn message(&self) -> (r: &'static str)
        ensures
            r@ == match self {
                ProfileError::NoMainClass => "mainClass absente"@,
                ProfileError::NoAssetIndex => "assetIndex absent"@,
            },
    {
        match self {
            ProfileError::NoMainClass => "mainClass absente",
            ProfileError::NoAssetIndex => "assetIndex absent",
        }
    }
}

/// Part `i` of `p`, or empty.
pub open spec fn part_or_empty(p: Seq<Seq<char>>, i: int) -> Seq<char> {
    if 0 <= i < p.len() {
        p[i]
    } else {
        Seq::empty()
    }
}

/// Two libraries with the same group, artifact and classifier are the same
/// library (in another version).
pub open spec fn lib_key(name: Seq<char>) -> (Seq<char>, Seq<char>, Seq<char>) {
    let p = split_on(name, ':');
    (part_or_empty(p, 0), part_or_empty(p, 1), part_or_empty(p, 3))
}

/// An earlier library of `s` than the one at `i` has its key.
pub open spec fn key_seen(s: Seq<Library>, i: int) -> bool {
    exists|j: int| 0 <= j < i && lib_key((#[trigger] s[j]).name@) == lib_key(s[i].name@)
}

/// The libraries of `s`, each key kept at its first occurrence only.
pub open spec fn dedup_libs(s: Seq<Library>) -> Seq<Library>
    decreases s.len(),
{
    if s.len() == 0 {
        Seq::empty()
    } else if key_seen(s, s.len() - 1) {
        dedup_libs(s.drop_last())
    } else {
        dedup_libs(s.drop_last()).push(s.last())
    }
}

/// The arguments of a version file (none when absent).
pub open spec fn game_args_of(v: VersionJson) -> Seq<Arg> {
    match v.arguments {
        Some(a) => a.game@,
        None => Seq::empty(),
    }
}

pub open spec fn jvm_args_of(v: VersionJson) -> Seq<Arg> {
    match v.arguments {
        Some(a) => a.jvm@,
        None => Seq::empty(),
    }
}

/// The first of two optional values that is there.
pub open spec fn or_else<T>(a: Option<T>, b: Option<T>) -> Option<T> {
    match a {
        Some(x) => Some(x),
        None => b,
    }
}

/// The key of a library name, as three strings.
fn key_of(name: &str) -> (k: (String, String, String))
    ensures
        (k.0@, k.1@, k.2@) == lib_key(name@),
{
    let v = to_chars(name);
    let n = v.len();
    let parts = split_ranges(&v, 0, n, ':');
    proof {
        assert(v@.subrange(0, n as int) =~= v@);
    }
    let ghost p = Seq::new(parts@.len(), |i: int| v@.subrange(parts@[i].0 as int, parts@[i].1 as int));
    let a = if parts.len() > 0 { string_of(v.as_slice(), parts[0].0, parts[0].1) } else { String::new() };
    let b = if parts.len() > 1 { string_of(v.as_slice(), parts[1].0, parts[1].1) } else { String::new() };
    let c = if parts.len() > 3 { string_of(v.as_slice(), parts[3].0, parts[3].1) } else { String::new() };
    proof {
        assert(a@ == part_or_empty(p, 0));
        assert(b@ == part_or_empty(p, 1));
        assert(c@ == part_or_empty(p, 3));
    }
    (a, b, c)
}

/// Which libraries of `libs` come first with their key.
fn first_of_keys(libs: &Vec<Library>) -> (keep: Vec<bool>)
    ensures
        keep@.len() == libs@.len(),
        forall|i: int| 0 <= i < libs@.len() ==> keep@[i] == !key_seen(libs@, i),
{
    let mut keys: Vec<(String, String, String)> = Vec::new();
    let mut i: usize = 0;
    while i < libs.len()
        invariant
            i <= libs@.len(),
            keys@.len() == i,
            forall|j: int| 0 <= j < i ==> ((#[trigger] keys@[j]).0@, keys@[j].1@, keys@[j].2@) == lib_key(
                libs@[j].name@,
            ),
        decreases libs.len() - i,
    {
        keys.push(key_of(libs[i].name.as_str()));
        i = i + 1;
    }
    let mut keep: Vec<bool> = Vec::new();
    let mut i: usize = 0;
    while i < libs.len()
        invariant
            i <= libs@.len(),
            keys@.len() == libs@.len(),
            keep@.len() == i,
            forall|j: int| 0 <= j < libs@.len() ==> ((#[trigger] keys@[j]).0@, keys@[j].1@, keys@[j].2@)
                == lib_key(libs@[j].name@),
            forall|j: int| 0 <= j < i ==> keep@[j] == !key_seen(libs@, j),
        decreases libs.len() - i,
    {
        let mut seen = false;
        let mut j: usize = 0;
        while j < i
            invariant
                i < libs@.len(),
                j <= i,
                keys@.len() == libs@.len(),
                forall|m: int| 0 <= m < libs@.len() ==> ((#[trigger] keys@[m]).0@, keys@[m].1@, keys@[m].2@)
                    == lib_key(libs@[m].name@),
                seen == exists|m: int| 0 <= m < j && lib_key((#[trigger] libs@[m]).name@) == lib_key(libs@[i as int].name@),
            decreases i - j,
        {
            let same = str_eq(keys[j].0.as_str(), keys[i].0.as_str()) && str_eq(keys[j].1.as_str(), keys[i].1.as_str())
                && str_eq(keys[j].2.as_str(), keys[i].2.as_str());
            proof {
                let kj = keys@[j as int];
                let ki = keys@[i as int];
                assert(same == ((kj.0@, kj.1@, kj.2@) == (ki.0@, ki.1@, ki.2@)));
                if same {
                    assert(lib_key(libs@[j as int].name@) == lib_key(libs@[i as int].name@));
                }
            }
            seen = seen || same;
            j = j + 1;
        }
        keep.push(!seen);
        i = i + 1;
    }
    keep
}

/// `dedup_libs` of `libs`, moving the libraries out of it.
fn dedup_by_key(libs: Vec<Library>) -> (out: Vec<Library>)
    ensures
        out@ == dedup_libs(libs@),
{
    let keep = first_of_keys(&libs);
    let ghost s = libs@;
    let mut rest = libs;
    let mut out: Vec<Library> = Vec::new();
    let mut i: usize = 0;
    while i < keep.len()
        invariant
            keep@.len() == s.len(),
            i <= s.len(),
            rest@ == s.subrange(i as int, s.len() as int),
            forall|j: int| 0 <= j < s.len() ==> keep@[j] == !key_seen(s, j),
            out@ == dedup_libs(s.take(i as int)),
        decreases keep.len() - i,
    {
        let l = rest.remove(0);
        assert(l == s[i as int]);
        let ghost t = s.take(i + 1);
        assert(t.drop_last() =~= s.take(i as int));
        assert(t.last() == s[i as int]);
        assert(key_seen(t, i as int) == key_seen(s, i as int)) by {
            if key_seen(s, i as int) {
                let j = choose|j: int| 0 <= j < i && lib_key((#[trigger] s[j]).name@) == lib_key(s[i as int].name@);
                assert(t[j] == s[j]);
            }
            if key_seen(t, i as int) {
                let j = choose|j: int| 0 <= j < i && lib_key((#[trigger] t[j]).name@) == lib_key(t[i as int].name@);
                assert(t[j] == s[j]);
            }
        }
        if keep[i] {
            out.push(l);
        }
        assert(rest@ =~= s.subrange(i + 1, s.len() as int));
        i = i + 1;
    }
    assert(s.take(s.len() as int) =~= s);
    out
}

/// The child version `child` completed by `parent` (read when the child
/// names one in `inheritsFrom`): the child's libraries first, a parent's
/// library dropped when the child already has its key; the parent's
/// arguments then the child's; the child's main class, asset index and
/// type, or else the parent's; the logging configuration of the child only
/// (the vanilla one would replace NeoForge's).
pub open spec fn spec_resolve_profile(child: VersionJson, parent: Option<VersionJson>) -> Result<
    (Seq<char>, Seq<char>, Seq<char>, Seq<Library>, Seq<Arg>, Seq<Arg>, AssetIndexRef, Option<LoggingClient>, Seq<char>),
    ProfileError,
> {
    let base: Option<VersionJson> = if child.inherits_from is Some { parent } else { None };
    let jar = match child.inherits_from {
        Some(p) => p@,
        None => child.id@,
    };
    let base_libs = match base { Some(b) => b.libraries@, None => Seq::empty() };
    let base_game = match base { Some(b) => game_args_of(b), None => Seq::empty() };
    let base_jvm = match base { Some(b) => jvm_args_of(b), None => Seq::empty() };
    let base_main = match base { Some(b) => b.main_class, None => None };
    let base_index = match base { Some(b) => b.asset_index, None => None };
    let base_kind = match base { Some(b) => b.kind, None => None };
    match or_else(child.main_class, base_main) {
        None => Err(ProfileError::NoMainClass),
        Some(main) => match or_else(child.asset_index, base_index) {
            None => Err(ProfileError::NoAssetIndex),
            Some(index) => Ok((
                child.id@,
                jar,
                main@,
                dedup_libs(child.libraries@ + base_libs),
                base_game + game_args_of(child),
                base_jvm + jvm_args_of(child),
                index,
                match child.logging { Some(l) => l.client, None => None },
                match or_else(child.kind, base_kind) { Some(k) => k@, None => "release"@ },
            )),
        },
    }
}

/// The fields of a profile, as `spec_resolve_profile` gives them.
pub open spec fn profile_fields(p: Profile) -> (Seq<char>, Seq<char>, Seq<char>, Seq<Library>, Seq<Arg>, Seq<Arg>, AssetIndexRef, Option<LoggingClient>, Seq<char>) {
    (p.id@, p.jar_version@, p.main_class@, p.libraries@, p.game_args@, p.jvm_args@, p.asset_index, p.logging, p.kind@)
}

/// The arguments of a version file, taken out of it.
fn take_args(a: Option<Arguments>) -> (r: (Vec<Arg>, Vec<Arg>))
    ensures
        r.0@ == match a { Some(x) => x.game@, None => Seq::empty() },
        r.1@ == match a { Some(x) => x.jvm@, None => Seq::empty() },
{
    match a {
        Some(x) => (x.game, x.jvm),
        None => (Vec::new(), Vec::new()),
    }
}

/// A version ready to launch, from its version file and its parent's.
pub fn resolve_profile(child: VersionJson, parent: Option<VersionJson>) -> (r: Result<Profile, ProfileError>)
    ensures
        match spec_resolve_profile(child, parent) {
            Ok(f) => (r matches Ok(p) && profile_fields(p) == f),
            Err(e) => r == Err::<Profile, ProfileError>(e),
        },
{
    let VersionJson { id, inherits_from, main_class, libraries, arguments, asset_index, logging, kind, .. } = child;
    let (base_libs, base_args, base_main, base_index, base_kind) = match inherits_from {
        Some(_) => match parent {
            Some(b) => (b.libraries, b.arguments, b.main_class, b.asset_index, b.kind),
            None => (Vec::new(), None, None, None, None),
        },
        None => (Vec::new(), None, None, None, None),
    };
    let jar_version = match &inherits_from {
        Some(p) => p.clone(),
        None => id.clone(),
    };
    let main_class = match main_class {
        Some(m) => m,
        None => match base_main {
            Some(m) => m,
            None => return Err(ProfileError::NoMainClass),
        },
    };
    let mut all_libs = libraries;
    let mut more = base_libs;
    all_libs.append(&mut more);
    let libraries = dedup_by_key(all_libs);
    let (child_game, child_jvm) = take_args(arguments);
    let (mut game_args, mut jvm_args) = take_args(base_args);
    let mut cg = child_game;
    let mut cj = child_jvm;
    game_args.append(&mut cg);
    jvm_args.append(&mut cj);
    let asset_index = match asset_index {
        Some(a) => a,
        None => match base_index {
            Some(a) => a,
            None => return Err(ProfileError::NoAssetIndex),
        },
    };
    let logging = match logging {
        Some(l) => l.client,
        None => None,
    };
    let kind = match kind {
        Some(k) => k,
        None => match base_kind {
            Some(k) => k,
            None => "release".to_owned(),
        },
    };
    Ok(Profile { id, jar_version, main_class, libraries, game_args, jvm_args, asset_index, logging, kind })
}

// ─── Installing the vanilla version ─────────────────────────────────────────

/// One version of Mojang's version list.
#[derive(Clone, Debug)]
pub struct ManifestVersion {
    pub id: String,
    pub url: String,
    pub sha1: String,
}

/// The first version of the list named `id`.
pub fn find_version(versions: &Vec<ManifestVersion>, id: &str) -> (r: Option<usize>)
    ensures
        match r {
            Some(i) => i < versions@.len() && versions@[i as int].id@ == id@ && forall|j: int|
                0 <= j < i ==> (#[trigger] versions@[j]).id@ != id@,
            None => forall|j: int| 0 <= j < versions@.len() ==> (#[trigger] versions@[j]).id@ != id@,
        },
{
    let mut i: usize = 0;
    while i < versions.len()
        invariant
            i <= versions@.len(),
            forall|j: int| 0 <= j < i ==> (#[trigger] versions@[j]).id@ != id@,
        decreases versions.len() - i,
    {
        if str_eq(versions[i].id.as_str(), id) {
            return Some(i);
        }
        i = i + 1;
    }
    None
}

/// `<root>/minecraft/versions/<version>/<version>.jar`
pub open spec fn spec_client_jar_path(root: Seq<char>, version: Seq<char>) -> Seq<char> {
    spec_join(spec_join(spec_join(spec_join(root, "minecraft"@), "versions"@), version), version + ".jar"@)
}

/// The version file of an entry of Mojang's list, checked by its SHA-1.
pub fn version_file_download(paths: &Paths, entry: &ManifestVersion, version: &str) -> (d: Download)
    ensures
        d@ == (DownloadSpec {
            url: entry.url@,
            path: spec_version_json_path(paths.root@, version@),
            hash: HashSpec::Sha1(entry.sha1@),
            size: None,
            executable: false,
        }),
{
    Download {
        url: entry.url.clone(),
        path: version_json_path(paths, version),
        hash: crate::net::Hash::Sha1(entry.sha1.clone()),
        size: None,
        executable: false,
    }
}

/// The downloads of the libraries of `libs` that apply on this system, or
/// `None` if one of them cannot be downloaded.
pub open spec fn lib_downloads(libs: Seq<Library>, libraries: Seq<char>, os: Seq<char>, arch: Seq<char>) -> Option<Seq<DownloadSpec>>
    decreases libs.len(),
{
    if libs.len() == 0 {
        Some(Seq::empty())
    } else {
        match lib_downloads(libs.drop_last(), libraries, os, arch) {
            None => None,
            Some(prev) => if !spec_rules_allow(libs.last().rules, os, arch) {
                Some(prev)
            } else {
                match spec_lib_download(libs.last(), libraries, os == "windows"@) {
                    None => None,
                    Some(None) => Some(prev),
                    Some(Some(d)) => Some(prev.push(d)),
                }
            },
        }
    }
}

/// `<root>/minecraft/assets/log_configs`
pub open spec fn spec_log_configs(root: Seq<char>) -> Seq<char> {
    spec_join(spec_join(spec_join(root, "minecraft"@), "assets"@), "log_configs"@)
}

/// The downloads for a vanilla version: the game's jar (checked by size
/// and SHA-1), the libraries that apply on this system, and the logging
/// configuration; `None` if one cannot be downloaded.
pub open spec fn spec_vanilla_downloads(root: Seq<char>, v: VersionJson, version: Seq<char>, os: Seq<char>, arch: Seq<char>) -> Option<Seq<DownloadSpec>> {
    let client: Seq<DownloadSpec> = match v.downloads {
        Some(d) => seq![DownloadSpec {
            url: d.client.url@,
            path: spec_client_jar_path(root, version),
            hash: HashSpec::Sha1(d.client.sha1@),
            size: Some(d.client.size),
            executable: false,
        }],
        None => Seq::empty(),
    };
    let libraries = spec_join(spec_join(root, "minecraft"@), "libraries"@);
    match lib_downloads(v.libraries@, libraries, os, arch) {
        None => None,
        Some(libs) => match v.logging {
            Some(l) => match l.client {
                Some(c) => if stays_inside(c.file.id@, os == "windows"@) {
                    Some(client + libs + seq![DownloadSpec {
                        url: c.file.url@,
                        path: spec_join(spec_log_configs(root), c.file.id@),
                        hash: HashSpec::Sha1(c.file.sha1@),
                        size: Some(c.file.size),
                        executable: false,
                    }])
                } else {
                    None
                },
                None => Some(client + libs),
            },
            None => Some(client + libs),
        },
    }
}

/// The downloads of the libraries of `libs` that apply on this system (see
/// `lib_downloads`); an error for the first one that cannot be downloaded.
pub fn library_downloads(paths: &Paths, libs: &Vec<Library>, os: &str, arch: &str) -> (r: Result<Vec<Download>, LibraryError>)
    ensures
        match lib_downloads(libs@, spec_join(spec_join(paths.root@, "minecraft"@), "libraries"@), os@, arch@) {
            Some(ds) => (r matches Ok(list) && downloads_view(list@) == ds),
            None => r is Err,
        },
{
    let mut list: Vec<Download> = Vec::new();
    let libraries = paths.libraries();
    let mut i: usize = 0;
    while i < libs.len()
        invariant
            i <= libs@.len(),
            libraries@ == spec_join(spec_join(paths.root@, "minecraft"@), "libraries"@),
            lib_downloads(libs@.take(i as int), libraries@, os@, arch@) == Some(downloads_view(list@)),
        decreases libs.len() - i,
    {
        let ghost t = libs@.take(i + 1);
        assert(t.drop_last() =~= libs@.take(i as int));
        assert(t.last() == libs@[i as int]);
        let ghost before = list@;
        if rules_allow(&libs[i].rules, os, arch) {
            match libs[i].download(libraries.as_str(), str_eq(os, "windows")) {
                Ok(Some(d)) => {
                    list.push(d);
                    assert(downloads_view(list@) =~= downloads_view(before).push(d@));
                },
                Ok(None) => {},
                Err(e) => {
                    proof {
                        assert(lib_downloads(t, libraries@, os@, arch@) is None);
                        lemma_lib_downloads_none(libs@, libraries@, os@, arch@, i + 1);
                    }
                    return Err(e);
                },
            }
        }
        i = i + 1;
    }
    assert(libs@.take(libs@.len() as int) =~= libs@);
    Ok(list)
}

/// What to download for the vanilla version `version`, from its version
/// file.
pub fn vanilla_downloads(paths: &Paths, v: &VersionJson, version: &str, os: &str, arch: &str) -> (r: Result<Vec<Download>, LibraryError>)
    ensures
        match spec_vanilla_downloads(paths.root@, *v, version@, os@, arch@) {
            Some(ds) => (r matches Ok(list) && downloads_view(list@) == ds),
            None => r is Err,
        },
{
    let mut list: Vec<Download> = Vec::new();
    match &v.downloads {
        Some(d) => {
            let dir = join(paths.versions().as_str(), version);
            let mut file = version.to_owned();
            file.append(".jar");
            list.push(
                Download {
                    url: d.client.url.clone(),
                    path: join(dir.as_str(), file.as_str()),
                    hash: crate::net::Hash::Sha1(d.client.sha1.clone()),
                    size: Some(d.client.size),
                    executable: false,
                },
            );
        },
        None => {},
    }
    let mut libs = library_downloads(paths, &v.libraries, os, arch)?;
    let ghost before = list@;
    let ghost lv = libs@;
    list.append(&mut libs);
    assert(downloads_view(list@) =~= downloads_view(before) + downloads_view(lv));
    match &v.logging {
        Some(l) => match &l.client {
            Some(c) => {
                let dir = join(paths.assets().as_str(), "log_configs");
                let path = match safe_join(dir.as_str(), c.file.id.as_str(), str_eq(os, "windows")) {
                    Ok(p) => p,
                    Err(e) => return Err(LibraryError::Path(e)),
                };
                let ghost before = list@;
                list.push(
                    Download {
                        url: c.file.url.clone(),
                        path,
                        hash: crate::net::Hash::Sha1(c.file.sha1.clone()),
                        size: Some(c.file.size),
                        executable: false,
                    },
                );
                assert(downloads_view(list@) =~= downloads_view(before).push(list@.last()@));
            },
            None => {},
        },
        None => {},
    }
    Ok(list)
}

/// Once a prefix of the libraries cannot be downloaded, neither can the
/// whole list.
proof fn lemma_lib_downloads_none(libs: Seq<Library>, libraries: Seq<char>, os: Seq<char>, arch: Seq<char>, k: int)
    requires
        0 <= k <= libs.len(),
        lib_downloads(libs.take(k), libraries, os, arch) is None,
    ensures
        lib_downloads(libs, libraries, os, arch) is None,
    decreases libs.len() - k,
{
    if k < libs.len() {
        let t = libs.take(k + 1);
        assert(t.drop_last() =~= libs.take(k));
        lemma_lib_downloads_none(libs, libraries, os, arch, k + 1);
    } else {
        assert(libs.take(k) =~= libs);
    }
}

/// `<root>/minecraft/assets/indexes/<id>.json`
pub open spec fn spec_asset_index_path(root: Seq<char>, id: Seq<char>) -> Seq<char> {
    spec_join(spec_join(spec_join(spec_join(root, "minecraft"@), "assets"@), "indexes"@), id + ".json"@)
}

/// The asset index of a version, checked by size and SHA-1.
pub fn asset_index_download(paths: &Paths, idx: &AssetIndexRef) -> (d: Download)
    ensures
        d@ == (DownloadSpec {
            url: idx.url@,
            path: spec_asset_index_path(paths.root@, idx.id@),
            hash: HashSpec::Sha1(idx.sha1@),
            size: Some(idx.size),
            executable: false,
        }),
{
    let dir = join(paths.assets().as_str(), "indexes");
    let mut file = idx.id.clone();
    file.append(".json");
    Download {
        url: idx.url.clone(),
        path: join(dir.as_str(), file.as_str()),
        hash: crate::net::Hash::Sha1(idx.sha1.clone()),
        size: Some(idx.size),
        executable: false,
    }
}

/// One object of an asset index: its SHA-1 (which names its file) and size.
#[derive(Clone, Debug)]
pub struct AssetObject {
    pub hash: String,
    pub size: u64,
}

/// The directory of an asset: the first two bytes of its hash.
pub open spec fn asset_prefix(hash: Seq<char>) -> Seq<char> {
    decode_utf8(encode_utf8(hash).subrange(0, 2))
}

/// Each asset is fetched from Mojang's resource server, under the
/// directory named by the start of its hash, and checked by size and hash.
pub open spec fn asset_download(root: Seq<char>, o: AssetObject) -> DownloadSpec {
    DownloadSpec {
        url: "https://resources.download.minecraft.net/"@ + asset_prefix(o.hash@) + "/"@ + o.hash@,
        path: spec_join(
            spec_join(spec_join(spec_join(spec_join(root, "minecraft"@), "assets"@), "objects"@), asset_prefix(o.hash@)),
            o.hash@,
        ),
        hash: HashSpec::Sha1(o.hash@),
        size: Some(o.size),
        executable: false,
    }
}

/// An earlier object of `objs` than the one at `i` has its hash.
pub open spec fn hash_seen(objs: Seq<AssetObject>, i: int) -> bool {
    exists|j: int| 0 <= j < i && (#[trigger] objs[j]).hash@ == objs[i].hash@
}

/// The downloads of the assets, one per distinct hash (the first object
/// with that hash).
pub open spec fn spec_asset_downloads(root: Seq<char>, objs: Seq<AssetObject>) -> Seq<DownloadSpec>
    decreases objs.len(),
{
    if objs.len() == 0 {
        Seq::empty()
    } else if hash_seen(objs, objs.len() - 1) {
        spec_asset_downloads(root, objs.drop_last())
    } else {
        spec_asset_downloads(root, objs.drop_last()).push(asset_download(root, objs.last()))
    }
}

/// The hash of every object can be cut after its second byte.
pub open spec fn asset_hashes_cut(objs: Seq<AssetObject>) -> bool {
    forall|i: int| 0 <= i < objs.len() ==> is_char_boundary(encode_utf8((#[trigger] objs[i]).hash@), 2)
}

/// The downloads of the sounds and textures of an asset index, each file
/// once.
pub fn asset_downloads(paths: &Paths, objects: &Vec<AssetObject>) -> (r: Vec<Download>)
    requires
        asset_hashes_cut(objects@),
    ensures
        downloads_view(r@) == spec_asset_downloads(paths.root@, objects@),
{
    let objects_dir = join(paths.assets().as_str(), "objects");
    let mut seen = StringHashSet::new();
    let mut out: Vec<Download> = Vec::new();
    let mut i: usize = 0;
    while i < objects.len()
        invariant
            i <= objects@.len(),
            asset_hashes_cut(objects@),
            objects_dir@ == spec_join(spec_join(spec_join(paths.root@, "minecraft"@), "assets"@), "objects"@),
            forall|h: Seq<char>| seen@.contains(h) <==> exists|j: int| 0 <= j < i && (#[trigger] objects@[j]).hash@ == h,
            downloads_view(out@) == spec_asset_downloads(paths.root@, objects@.take(i as int)),
        decreases objects.len() - i,
    {
        let o = &objects[i];
        let ghost t = objects@.take(i + 1);
        assert(t.drop_last() =~= objects@.take(i as int));
        assert(t.last() == objects@[i as int]);
        assert(hash_seen(t, i as int) == seen@.contains(o.hash@)) by {
            if seen@.contains(o.hash@) {
                let j = choose|j: int| 0 <= j < i && (#[trigger] objects@[j]).hash@ == o.hash@;
                assert(t[j] == objects@[j]);
            }
            if hash_seen(t, i as int) {
                let j = choose|j: int| 0 <= j < i && (#[trigger] t[j]).hash@ == t[i as int].hash@;
                assert(t[j] == objects@[j]);
            }
        }
        let fresh = seen.insert(o.hash.clone());
        if fresh {
            assert(is_char_boundary(encode_utf8(objects@[i as int].hash@), 2));
            let (prefix, _) = o.hash.as_str().split_at(2);
            proof {
                vstd::utf8::encode_utf8_decode_utf8(prefix@);
            }
            let mut url = "https://resources.download.minecraft.net/".to_owned();
            url.append(prefix);
            url.append("/");
            url.append(o.hash.as_str());
            let dir = join(objects_dir.as_str(), prefix);
            let path = join(dir.as_str(), o.hash.as_str());
            let ghost before = out@;
            out.push(
                Download {
                    url,
                    path,
                    hash: crate::net::Hash::Sha1(o.hash.clone()),
                    size: Some(o.size),
                    executable: false,
                },
            );
            assert(downloads_view(out@) =~= downloads_view(before).push(asset_download(paths.root@, *o)));
        }
        proof {
            assert forall|h: Seq<char>| seen@.contains(h) <==> exists|j: int| 0 <= j < i + 1 && (#[trigger] objects@[j]).hash@ == h by {
                if h == o.hash@ {
                    assert(objects@[i as int].hash@ == h);
                }
            }
        }
        i = i + 1;
    }
    assert(objects@.take(objects@.len() as int) =~= objects@);
    out
}

// ─── Command line ───────────────────────────────────────────────────────────

/// The contents of a list of strings.
pub open spec fn strings_view(v: Seq<String>) -> Seq<Seq<char>> {
    Seq::new(v.len(), |i: int| v[i]@)
}

proof fn lemma_strings_push(v: Seq<String>, s: String)
    ensures
        strings_view(v.push(s)) == strings_view(v).push(s@),
{
    assert(strings_view(v.push(s)) =~= strings_view(v).push(s@));
}

proof fn lemma_take_push<A>(s: Seq<A>, i: int)
    requires
        0 <= i < s.len(),
    ensures
        s.take(i + 1) == s.take(i).push(s[i]),
{
    assert(s.take(i + 1) =~= s.take(i).push(s[i]));
}

/// The strings of an array value (other elements are skipped).
pub open spec fn present_strings(v: Seq<Option<String>>) -> Seq<Seq<char>>
    decreases v.len(),
{
    if v.len() == 0 {
        Seq::empty()
    } else {
        match v.last() {
            Some(s) => present_strings(v.drop_last()).push(s@),
            None => present_strings(v.drop_last()),
        }
    }
}

/// The strings one argument gives on this system.
pub open spec fn arg_strings(a: Arg, os: Seq<char>, arch: Seq<char>) -> Seq<Seq<char>> {
    match a {
        Arg::Text(s) => seq![s@],
        Arg::Ruled { rules, value } => if !spec_rules_allow(rules, os, arch) {
            Seq::empty()
        } else {
            match value {
                ArgValue::Text(s) => seq![s@],
                ArgValue::List(v) => present_strings(v@),
                ArgValue::Other => Seq::empty(),
            }
        },
        Arg::Other => Seq::empty(),
    }
}

/// The arguments of a version file, flattened, rules applied.
pub open spec fn spec_flatten(args: Seq<Arg>, os: Seq<char>, arch: Seq<char>) -> Seq<Seq<char>>
    decreases args.len(),
{
    if args.len() == 0 {
        Seq::empty()
    } else {
        spec_flatten(args.drop_last(), os, arch) + arg_strings(args.last(), os, arch)
    }
}

/// Appends the strings of one argument.
fn push_arg(out: &mut Vec<String>, a: &Arg, os: &str, arch: &str)
    ensures
        strings_view(final(out)@) == strings_view(old(out)@) + arg_strings(*a, os@, arch@),
{
    let ghost start = strings_view(out@);
    match a {
        Arg::Text(s) => {
            out.push(s.clone());
            assert(strings_view(out@) =~= start + seq![s@]);
        },
        Arg::Ruled { rules, value } => {
            if !rules_allow(rules, os, arch) {
                assert(strings_view(out@) =~= start + Seq::<Seq<char>>::empty());
                return;
            }
            match value {
                ArgValue::Text(s) => {
                    out.push(s.clone());
                    assert(strings_view(out@) =~= start + seq![s@]);
                },
                ArgValue::List(v) => {
                    let mut i: usize = 0;
                    assert(strings_view(out@) =~= start + present_strings(v@.take(0)));
                    while i < v.len()
                        invariant
                            i <= v@.len(),
                            strings_view(out@) == start + present_strings(v@.take(i as int)),
                        decreases v.len() - i,
                    {
                        let ghost t = v@.take(i + 1);
                        assert(t.drop_last() =~= v@.take(i as int));
                        assert(t.last() == v@[i as int]);
                        let ghost before = out@;
                        match &v[i] {
                            Some(s) => {
                                out.push(s.clone());
                                assert(strings_view(out@) =~= strings_view(before).push(s@));
                            },
                            None => {},
                        }
                        i = i + 1;
                    }
                    assert(v@.take(v@.len() as int) =~= v@);
                },
                ArgValue::Other => {
                    assert(strings_view(out@) =~= start + Seq::<Seq<char>>::empty());
                },
            }
        },
        Arg::Other => {
            assert(strings_view(out@) =~= start + Seq::<Seq<char>>::empty());
        },
    }
}

/// Flattens arguments of a version file (strings, or objects with `rules`
/// and `value`), rules applied.
pub fn flatten_args(args: &Vec<Arg>, os: &str, arch: &str) -> (out: Vec<String>)
    ensures
        strings_view(out@) == spec_flatten(args@, os@, arch@),
{
    let mut out: Vec<String> = Vec::new();
    let mut i: usize = 0;
    assert(strings_view(out@) =~= spec_flatten(args@.take(0), os@, arch@));
    while i < args.len()
        invariant
            i <= args@.len(),
            strings_view(out@) == spec_flatten(args@.take(i as int), os@, arch@),
        decreases args.len() - i,
    {
        let ghost t = args@.take(i + 1);
        assert(t.drop_last() =~= args@.take(i as int));
        assert(t.last() == args@[i as int]);
        push_arg(&mut out, &args[i], os, arch);
        i = i + 1;
    }
    assert(args@.take(args@.len() as int) =~= args@);
    out
}

/// What the command line of the game is filled with.
#[derive(Clone, Debug)]
pub struct LaunchVars {
    pub player_name: String,
    pub uuid: String,
    pub access_token: String,
    pub xuid: String,
    pub user_type: String,
    pub game_dir: String,
    pub memory_mb: u64,
    pub extra_jvm: Vec<String>,
}

/// `${key}`
pub open spec fn placeholder(key: Seq<char>) -> Seq<char> {
    "${"@ + key + "}"@
}

/// `s` with each placeholder of `pairs` replaced by its value, one after the
/// other in their order.
pub open spec fn fill_all(s: Seq<char>, pairs: Seq<(Seq<char>, Seq<char>)>) -> Seq<char>
    decreases pairs.len(),
{
    if pairs.len() == 0 {
        s
    } else {
        spec_replace(fill_all(s, pairs.drop_last()), placeholder(pairs.last().0), pairs.last().1)
    }
}

/// The parts of `parts` with `sep` between them.
pub open spec fn joined(parts: Seq<Seq<char>>, sep: Seq<char>) -> Seq<char>
    decreases parts.len(),
{
    if parts.len() == 0 {
        Seq::empty()
    } else if parts.len() == 1 {
        parts[0]
    } else {
        joined(parts.drop_last(), sep) + sep + parts.last()
    }
}

/// The values put in the game's arguments.
pub open spec fn launch_values(
    root: Seq<char>,
    profile: Profile,
    vars: LaunchVars,
    classpath: Seq<Seq<char>>,
    sep: Seq<char>,
    launcher_version: Seq<char>,
) -> Seq<(Seq<char>, Seq<char>)> {
    let mc = spec_join(root, "minecraft"@);
    seq![
        ("auth_player_name"@, vars.player_name@),
        ("version_name"@, profile.id@),
        ("game_directory"@, vars.game_dir@),
        ("assets_root"@, spec_join(mc, "assets"@)),
        ("assets_index_name"@, profile.asset_index.id@),
        ("auth_uuid"@, vars.uuid@),
        ("auth_access_token"@, vars.access_token@),
        ("clientid"@, Seq::empty()),
        ("auth_xuid"@, vars.xuid@),
        ("user_type"@, vars.user_type@),
        ("version_type"@, profile.kind@),
        ("natives_directory"@, spec_join(spec_join(root, "instance"@), "natives"@)),
        ("launcher_name"@, "turicraft-launcher"@),
        ("launcher_version"@, launcher_version),
        ("classpath"@, joined(classpath, sep)),
        ("classpath_separator"@, sep),
        ("library_directory"@, spec_join(mc, "libraries"@)),
        ("user_properties"@, "{}"@),
    ]
}

/// `parts` joined with `sep` (`[String]::join`).
fn join_with(parts: &Vec<String>, sep: &str) -> (r: String)
    ensures
        r@ == joined(strings_view(parts@), sep@),
{
    let mut r = String::new();
    let mut i: usize = 0;
    while i < parts.len()
        invariant
            i <= parts@.len(),
            r@ == joined(strings_view(parts@).take(i as int), sep@),
        decreases parts.len() - i,
    {
        let ghost t = strings_view(parts@).take(i + 1);
        assert(t.drop_last() =~= strings_view(parts@).take(i as int));
        if i > 0 {
            r.append(sep);
        }
        r.append(parts[i].as_str());
        proof {
            if i == 0 {
                assert(t.len() == 1);
                assert(r@ =~= t[0]);
            }
        }
        i = i + 1;
    }
    assert(strings_view(parts@).take(parts@.len() as int) =~= strings_view(parts@));
    r
}

/// The values of `launch_values`, as strings.
fn launch_value_list(
    paths: &Paths,
    profile: &Profile,
    vars: &LaunchVars,
    classpath: &Vec<String>,
    sep: &str,
    launcher_version: &str,
) -> (r: Vec<(String, String)>)
    ensures
        view_pairs_of(r@) == launch_values(paths.root@, *profile, *vars, strings_view(classpath@), sep@, launcher_version@),
{
    let r = vec![
        ("auth_player_name".to_owned(), vars.player_name.clone()),
        ("version_name".to_owned(), profile.id.clone()),
        ("game_directory".to_owned(), vars.game_dir.clone()),
        ("assets_root".to_owned(), paths.assets()),
        ("assets_index_name".to_owned(), profile.asset_index.id.clone()),
        ("auth_uuid".to_owned(), vars.uuid.clone()),
        ("auth_access_token".to_owned(), vars.access_token.clone()),
        ("clientid".to_owned(), String::new()),
        ("auth_xuid".to_owned(), vars.xuid.clone()),
        ("user_type".to_owned(), vars.user_type.clone()),
        ("version_type".to_owned(), profile.kind.clone()),
        ("natives_directory".to_owned(), paths.natives()),
        ("launcher_name".to_owned(), "turicraft-launcher".to_owned()),
        ("launcher_version".to_owned(), launcher_version.to_owned()),
        ("classpath".to_owned(), join_with(classpath, sep)),
        ("classpath_separator".to_owned(), sep.to_owned()),
        ("library_directory".to_owned(), paths.libraries()),
        ("user_properties".to_owned(), "{}".to_owned()),
    ];
    assert(view_pairs_of(r@) =~= launch_values(paths.root@, *profile, *vars, strings_view(classpath@), sep@, launcher_version@));
    r
}

/// The contents of a list of string pairs.
pub open spec fn view_pairs_of(v: Seq<(String, String)>) -> Seq<(Seq<char>, Seq<char>)> {
    Seq::new(v.len(), |i: int| (v[i].0@, v[i].1@))
}

/// `s` with the placeholders of `pairs` replaced (see `fill_all`).
fn fill(s: &str, pairs: &Vec<(String, String)>) -> (r: String)
    ensures
        r@ == fill_all(s@, view_pairs_of(pairs@)),
{
    let mut out = s.to_owned();
    let mut i: usize = 0;
    assert(view_pairs_of(pairs@).take(0) =~= Seq::<(Seq<char>, Seq<char>)>::empty());
    while i < pairs.len()
        invariant
            i <= pairs@.len(),
            out@ == fill_all(s@, view_pairs_of(pairs@).take(i as int)),
        decreases pairs.len() - i,
    {
        let ghost t = view_pairs_of(pairs@).take(i + 1);
        assert(t.drop_last() =~= view_pairs_of(pairs@).take(i as int));
        let mut pat = "${".to_owned();
        pat.append(pairs[i].0.as_str());
        pat.append("}");
        proof {
            reveal_strlit("${");
        }
        out = replace_all(out.as_str(), pat.as_str(), pairs[i].1.as_str());
        i = i + 1;
    }
    assert(view_pairs_of(pairs@).take(pairs@.len() as int) =~= view_pairs_of(pairs@));
    out
}

/// Each string of `v` filled.
pub open spec fn fill_each(v: Seq<Seq<char>>, pairs: Seq<(Seq<char>, Seq<char>)>) -> Seq<Seq<char>> {
    Seq::new(v.len(), |i: int| fill_all(v[i], pairs))
}

/// Appends each string of `v`, filled, to `out`.
fn push_filled(out: &mut Vec<String>, v: &Vec<String>, pairs: &Vec<(String, String)>)
    ensures
        strings_view(final(out)@) == strings_view(old(out)@) + fill_each(strings_view(v@), view_pairs_of(pairs@)),
{
    let ghost start = strings_view(out@);
    let mut i: usize = 0;
    while i < v.len()
        invariant
            i <= v@.len(),
            strings_view(out@) == start + fill_each(strings_view(v@), view_pairs_of(pairs@)).take(i as int),
        decreases v.len() - i,
    {
        let ghost before = out@;
        let x = fill(v[i].as_str(), pairs);
        out.push(x);
        proof {
            lemma_strings_push(before, x);
            lemma_take_push(fill_each(strings_view(v@), view_pairs_of(pairs@)), i as int);
            assert(fill_each(strings_view(v@), view_pairs_of(pairs@))[i as int] == x@);
            assert(strings_view(out@) =~= start + fill_each(strings_view(v@), view_pairs_of(pairs@)).take(i + 1));
        }
        i = i + 1;
    }
    assert(fill_each(strings_view(v@), view_pairs_of(pairs@)).take(v@.len() as int) =~= fill_each(
        strings_view(v@),
        view_pairs_of(pairs@),
    ));
}

/// The Java arguments: memory, the extra options, the options for UTF-8
/// output, the version's own (filled), the logging configuration, and the
/// main class.
pub open spec fn spec_jvm_line(
    root: Seq<char>,
    profile: Profile,
    vars: LaunchVars,
    java_utf8: Seq<Seq<char>>,
    pairs: Seq<(Seq<char>, Seq<char>)>,
    os: Seq<char>,
    arch: Seq<char>,
) -> Seq<Seq<char>> {
    seq!["-Xmx"@ + spec_decimal(vars.memory_mb as nat) + "m"@, "-Xms1024m"@] + strings_view(vars.extra_jvm@) + java_utf8
        + fill_each(spec_flatten(profile.jvm_args@, os, arch), pairs) + match profile.logging {
        Some(l) => seq![spec_replace(l.argument@, "${path}"@, spec_join(spec_log_configs(root), l.file.id@))],
        None => Seq::empty(),
    } + seq![profile.main_class@]
}

/// The full command line: the Java arguments (up to the main class) and the
/// game's arguments, each filled with the launch values. `classpath` holds
/// the class path entries, `sep` their separator on this system.
pub fn command_line(
    paths: &Paths,
    profile: &Profile,
    vars: &LaunchVars,
    classpath: &Vec<String>,
    sep: &str,
    java_utf8: &Vec<String>,
    launcher_version: &str,
    os: &str,
    arch: &str,
) -> (r: (Vec<String>, Vec<String>))
    ensures
        strings_view(r.0@) == spec_jvm_line(
            paths.root@,
            *profile,
            *vars,
            strings_view(java_utf8@),
            launch_values(paths.root@, *profile, *vars, strings_view(classpath@), sep@, launcher_version@),
            os@,
            arch@,
        ),
        strings_view(r.1@) == fill_each(
            spec_flatten(profile.game_args@, os@, arch@),
            launch_values(paths.root@, *profile, *vars, strings_view(classpath@), sep@, launcher_version@),
        ),
{
    let pairs = launch_value_list(paths, profile, vars, classpath, sep, launcher_version);
    let mut jvm: Vec<String> = Vec::new();
    let mut xmx = "-Xmx".to_owned();
    crate::text::push_decimal(&mut xmx, vars.memory_mb);
    xmx.append("m");
    jvm.push(xmx);
    jvm.push("-Xms1024m".to_owned());
    let ghost head = strings_view(jvm@);
    let mut i: usize = 0;
    while i < vars.extra_jvm.len()
        invariant
            i <= vars.extra_jvm@.len(),
            strings_view(jvm@) == head + strings_view(vars.extra_jvm@).take(i as int),
        decreases vars.extra_jvm.len() - i,
    {
        let ghost before = jvm@;
        let x = vars.extra_jvm[i].clone();
        jvm.push(x);
        proof {
            lemma_strings_push(before, x);
            lemma_take_push(strings_view(vars.extra_jvm@), i as int);
            assert(strings_view(jvm@) =~= head + strings_view(vars.extra_jvm@).take(i + 1));
        }
        i = i + 1;
    }
    assert(strings_view(vars.extra_jvm@).take(vars.extra_jvm@.len() as int) =~= strings_view(vars.extra_jvm@));
    let ghost head2 = strings_view(jvm@);
    let mut i: usize = 0;
    while i < java_utf8.len()
        invariant
            i <= java_utf8@.len(),
            strings_view(jvm@) == head2 + strings_view(java_utf8@).take(i as int),
        decreases java_utf8.len() - i,
    {
        let ghost before = jvm@;
        let x = java_utf8[i].clone();
        jvm.push(x);
        proof {
            lemma_strings_push(before, x);
            lemma_take_push(strings_view(java_utf8@), i as int);
            assert(strings_view(jvm@) =~= head2 + strings_view(java_utf8@).take(i + 1));
        }
        i = i + 1;
    }
    assert(strings_view(java_utf8@).take(java_utf8@.len() as int) =~= strings_view(java_utf8@));
    let flat_jvm = flatten_args(&profile.jvm_args, os, arch);
    push_filled(&mut jvm, &flat_jvm, &pairs);
    let ghost head3 = strings_view(jvm@);
    match &profile.logging {
        Some(l) => {
            let dir = join(paths.assets().as_str(), "log_configs");
            let cfg = join(dir.as_str(), l.file.id.as_str());
            proof {
                reveal_strlit("${path}");
            }
            let x = replace_all(l.argument.as_str(), "${path}", cfg.as_str());
            let ghost before = jvm@;
            jvm.push(x);
            proof {
                lemma_strings_push(before, x);
            }
        },
        None => {},
    }
    let ghost head4 = jvm@;
    let mc = profile.main_class.clone();
    jvm.push(mc);
    proof {
        lemma_strings_push(head4, mc);
    }
    let flat_game = flatten_args(&profile.game_args, os, arch);
    let mut game: Vec<String> = Vec::new();
    push_filled(&mut game, &flat_game, &pairs);
    assert(strings_view(game@) =~= Seq::<Seq<char>>::empty() + fill_each(
        spec_flatten(profile.game_args@, os@, arch@),
        view_pairs_of(pairs@),
    ));
    assert(strings_view(jvm@) =~= spec_jvm_line(
        paths.root@,
        *profile,
        *vars,
        strings_view(java_utf8@),
        view_pairs_of(pairs@),
        os@,
        arch@,
    ));
    (jvm, game)
}

/// The paths, under `libraries`, of the libraries that apply on this
/// system, in order; `None` if one of them names no file. A library path
/// that is absolute is taken as it is, as `Path::join` does (installing
/// refuses such a library: see `library_downloads`).
pub open spec fn lib_paths(libs: Seq<Library>, libraries: Seq<char>, os: Seq<char>, arch: Seq<char>) -> Option<Seq<Seq<char>>>
    decreases libs.len(),
{
    if libs.len() == 0 {
        Some(Seq::empty())
    } else {
        match lib_paths(libs.drop_last(), libraries, os, arch) {
            None => None,
            Some(prev) => if !spec_rules_allow(libs.last().rules, os, arch) {
                Some(prev)
            } else {
                match spec_library_path(libs.last()) {
                    None => None,
                    Some(p) => Some(prev.push(spec_path_join(libraries, p))),
                }
            },
        }
    }
}

/// An earlier string of `s` than the one at `i` is equal to it.
pub open spec fn string_seen(s: Seq<Seq<char>>, i: int) -> bool {
    exists|j: int| 0 <= j < i && #[trigger] s[j] == s[i]
}

/// `s` with each string kept at its first occurrence only.
pub open spec fn dedup_strings(s: Seq<Seq<char>>) -> Seq<Seq<char>>
    decreases s.len(),
{
    if s.len() == 0 {
        Seq::empty()
    } else if string_seen(s, s.len() - 1) {
        dedup_strings(s.drop_last())
    } else {
        dedup_strings(s.drop_last()).push(s.last())
    }
}

/// `<root>/minecraft/versions/<id>/<id>.jar`: the game's jar under the name
/// of the version launched (NeoForge leaves it out of its module layer by
/// that name).
pub fn launch_jar_path(paths: &Paths, id: &str) -> (p: String)
    ensures
        p@ == spec_client_jar_path(paths.root@, id@),
{
    let dir = join(paths.versions().as_str(), id);
    let mut file = id.to_owned();
    file.append(".jar");
    join(dir.as_str(), file.as_str())
}

/// The class path: the libraries that apply on this system, in order and
/// each once, then the game's jar under the name of the launched version.
pub open spec fn spec_classpath(root: Seq<char>, profile: Profile, os: Seq<char>, arch: Seq<char>) -> Option<Seq<Seq<char>>> {
    match lib_paths(profile.libraries@, spec_join(spec_join(root, "minecraft"@), "libraries"@), os, arch) {
        None => None,
        Some(ps) => Some(dedup_strings(ps).push(spec_client_jar_path(root, profile.id@))),
    }
}

/// The file of each library the rules allow here, under the libraries
/// directory, in order (see `lib_paths`).
fn library_paths(paths: &Paths, profile: &Profile, os: &str, arch: &str) -> (r: Result<Vec<String>, BadCoordinate>)
    ensures
        match lib_paths(profile.libraries@, spec_join(spec_join(paths.root@, "minecraft"@), "libraries"@), os@, arch@) {
            Some(ps) => (r matches Ok(v) && strings_view(v@) == ps),
            None => r is Err,
        },
{
    let libraries = paths.libraries();
    let libs = &profile.libraries;
    let mut all: Vec<String> = Vec::new();
    let mut i: usize = 0;
    while i < libs.len()
        invariant
            i <= libs@.len(),
            libraries@ == spec_join(spec_join(paths.root@, "minecraft"@), "libraries"@),
            libs@ == profile.libraries@,
            lib_paths(libs@.take(i as int), libraries@, os@, arch@) == Some(strings_view(all@)),
        decreases libs.len() - i,
    {
        let ghost t = libs@.take(i + 1);
        assert(t.drop_last() =~= libs@.take(i as int));
        assert(t.last() == libs@[i as int]);
        if rules_allow(&libs[i].rules, os, arch) {
            match libs[i].path() {
                Ok(p) => {
                    let ghost before = all@;
                    let x = path_join(libraries.as_str(), p.as_str());
                    all.push(x);
                    proof {
                        lemma_strings_push(before, x);
                    }
                },
                Err(e) => {
                    proof {
                        assert(spec_library_path(libs@[i as int]) is None);
                        assert(lib_paths(t, libraries@, os@, arch@) is None);
                        lemma_lib_paths_none(libs@, libraries@, os@, arch@, i + 1);
                    }
                    return Err(e);
                },
            }
        }
        i = i + 1;
    }
    assert(libs@.take(libs@.len() as int) =~= libs@);
    Ok(all)
}

/// What makes a version installed: the file of each library its rules
/// allow here; `None` when one of them names no file (not installed). The
/// version is installed when its file reads and all these files exist.
pub fn is_installed(paths: &Paths, profile: &Profile, os: &str, arch: &str) -> (r: Option<Vec<String>>)
    ensures
        match lib_paths(profile.libraries@, spec_join(spec_join(paths.root@, "minecraft"@), "libraries"@), os@, arch@) {
            Some(ps) => (r matches Some(v) && strings_view(v@) == ps),
            None => r is None,
        },
{
    match library_paths(paths, profile, os, arch) {
        Ok(v) => Some(v),
        Err(_) => None,
    }
}

/// The class path of a profile (see `spec_classpath`).
pub fn classpath(paths: &Paths, profile: &Profile, os: &str, arch: &str) -> (r: Result<Vec<String>, BadCoordinate>)
    ensures
        match spec_classpath(paths.root@, *profile, os@, arch@) {
            Some(cp) => (r matches Ok(v) && strings_view(v@) == cp),
            None => r is Err,
        },
{
    let all = library_paths(paths, profile, os, arch)?;
    let ghost ps = strings_view(all@);
    let mut seen = StringHashSet::new();
    let mut cp: Vec<String> = Vec::new();
    let mut i: usize = 0;
    while i < all.len()
        invariant
            i <= all@.len(),
            ps == strings_view(all@),
            forall|h: Seq<char>| seen@.contains(h) <==> exists|j: int| 0 <= j < i && #[trigger] ps[j] == h,
            strings_view(cp@) == dedup_strings(ps.take(i as int)),
        decreases all.len() - i,
    {
        let ghost t = ps.take(i + 1);
        assert(t.drop_last() =~= ps.take(i as int));
        assert(t.last() == ps[i as int]);
        assert(ps[i as int] == all@[i as int]@);
        assert(string_seen(t, i as int) == seen@.contains(all@[i as int]@)) by {
            if seen@.contains(all@[i as int]@) {
                let j = choose|j: int| 0 <= j < i && #[trigger] ps[j] == all@[i as int]@;
                assert(t[j] == ps[j]);
            }
            if string_seen(t, i as int) {
                let j = choose|j: int| 0 <= j < i && #[trigger] t[j] == t[i as int];
                assert(t[j] == ps[j]);
            }
        }
        let fresh = seen.insert(all[i].clone());
        if fresh {
            let ghost before = cp@;
            let x = all[i].clone();
            cp.push(x);
            proof {
                lemma_strings_push(before, x);
            }
        }
        proof {
            assert forall|h: Seq<char>| seen@.contains(h) <==> exists|j: int| 0 <= j < i + 1 && #[trigger] ps[j] == h by {
                if h == ps[i as int] {
                    assert(ps[i as int] == h);
                }
            }
        }
        i = i + 1;
    }
    assert(ps.take(ps.len() as int) =~= ps);
    let ghost before = cp@;
    let jar = launch_jar_path(paths, profile.id.as_str());
    cp.push(jar);
    proof {
        lemma_strings_push(before, jar);
    }
    Ok(cp)
}

/// Once a prefix of the libraries names no file, the whole list does not.
proof fn lemma_lib_paths_none(libs: Seq<Library>, libraries: Seq<char>, os: Seq<char>, arch: Seq<char>, k: int)
    requires
        0 <= k <= libs.len(),
        lib_paths(libs.take(k), libraries, os, arch) is None,
    ensures
        lib_paths(libs, libraries, os, arch) is None,
    decreases libs.len() - k,
{
    if k < libs.len() {
        let t = libs.take(k + 1);
        assert(t.drop_last() =~= libs.take(k));
        lemma_lib_paths_none(libs, libraries, os, arch, k + 1);
    } else {
        assert(libs.take(k) =~= libs);
    }
}

/// Whether an earlier library shares the key of the one at `i` does not
/// depend on what comes after it.
proof fn lemma_key_seen_prefix(s: Seq<Library>, i: int)
    requires
        0 <= i < s.len() - 1,
    ensures
        key_seen(s, i) == key_seen(s.drop_last(), i),
{
    let p = s.drop_last();
    if key_seen(s, i) {
        let j = choose|j: int| 0 <= j < i && lib_key((#[trigger] s[j]).name@) == lib_key(s[i].name@);
        assert(p[j] == s[j]);
    }
    if key_seen(p, i) {
        let j = choose|j: int| 0 <= j < i && lib_key((#[trigger] p[j]).name@) == lib_key(p[i].name@);
        assert(p[j] == s[j]);
    }
}

/// Each library that `dedup_libs` keeps comes from the list.
proof fn lemma_dedup_libs_from(s: Seq<Library>)
    ensures
        forall|i: int| #![trigger dedup_libs(s)[i]] 0 <= i < dedup_libs(s).len() ==> exists|j: int| 0 <= j < s.len() && #[trigger] s[j] == dedup_libs(s)[i],
    decreases s.len(),
{
    if s.len() > 0 {
        let p = s.drop_last();
        let n = s.len() - 1;
        lemma_dedup_libs_from(p);
        let dp = dedup_libs(p);
        let d = dedup_libs(s);
        assert forall|i: int| #![trigger d[i]] 0 <= i < d.len() implies exists|j: int| 0 <= j < s.len() && #[trigger] s[j] == d[i] by {
            if i < dp.len() {
                assert(d[i] == dp[i]);
                let j = choose|j: int| 0 <= j < p.len() && #[trigger] p[j] == dp[i];
                assert(s[j] == p[j]);
            } else {
                assert(s[n] == d[i]);
            }
        }
    }
}

/// No two libraries kept by `dedup_libs` share a key.
proof fn lemma_dedup_libs_distinct(s: Seq<Library>)
    ensures
        forall|i: int, j: int| 0 <= i < j < dedup_libs(s).len() ==> lib_key(#[trigger] dedup_libs(s)[i].name@)
            != lib_key(#[trigger] dedup_libs(s)[j].name@),
    decreases s.len(),
{
    if s.len() > 0 {
        let p = s.drop_last();
        let n = s.len() - 1;
        lemma_dedup_libs_distinct(p);
        lemma_dedup_libs_from(p);
        let dp = dedup_libs(p);
        let d = dedup_libs(s);
        if !key_seen(s, n) {
            assert forall|i: int, j: int| 0 <= i < j < d.len() implies lib_key(#[trigger] d[i].name@) != lib_key(#[trigger] d[j].name@) by {
                if j == d.len() - 1 {
                    assert(d[i] == dp[i]);
                    let k = choose|k: int| 0 <= k < p.len() && #[trigger] p[k] == dp[i];
                    assert(s[k] == p[k]);
                    if lib_key(d[i].name@) == lib_key(d[j].name@) {
                        assert(lib_key(s[k].name@) == lib_key(s[n].name@));
                        assert(key_seen(s, n));
                    }
                } else {
                    assert(d[i] == dp[i] && d[j] == dp[j]);
                }
            }
        }
    }
}

/// A library whose key no earlier library has is kept.
proof fn lemma_dedup_libs_kept(s: Seq<Library>)
    ensures
        forall|i: int| #![trigger key_seen(s, i)] 0 <= i < s.len() && !key_seen(s, i) ==> exists|j: int| 0 <= j < dedup_libs(s).len() && #[trigger] dedup_libs(s)[j] == s[i],
    decreases s.len(),
{
    if s.len() > 0 {
        let p = s.drop_last();
        let n = s.len() - 1;
        lemma_dedup_libs_kept(p);
        let dp = dedup_libs(p);
        let d = dedup_libs(s);
        assert forall|i: int| #![trigger key_seen(s, i)] 0 <= i < s.len() && !key_seen(s, i) implies exists|j: int| 0 <= j < d.len() && #[trigger] d[j] == s[i] by {
            if i < n {
                lemma_key_seen_prefix(s, i);
                assert(s[i] == p[i]);
                assert(!key_seen(p, i));
                let j = choose|j: int| 0 <= j < dp.len() && #[trigger] dp[j] == p[i];
                assert(d[j] == dp[j]);
            } else {
                assert(d[dp.len() as int] == s[n]);
            }
        }
    }
}

/// Every key of the list is the key of a kept library.
proof fn lemma_dedup_libs_covers(s: Seq<Library>)
    ensures
        forall|i: int| #![trigger s[i]] 0 <= i < s.len() ==> exists|j: int| 0 <= j < dedup_libs(s).len() && lib_key(#[trigger] dedup_libs(s)[j].name@) == lib_key(s[i].name@),
    decreases s.len(),
{
    if s.len() > 0 {
        let p = s.drop_last();
        let n = s.len() - 1;
        lemma_dedup_libs_covers(p);
        let dp = dedup_libs(p);
        let d = dedup_libs(s);
        assert forall|i: int| #![trigger s[i]] 0 <= i < s.len() implies exists|j: int| 0 <= j < d.len() && lib_key(#[trigger] d[j].name@) == lib_key(s[i].name@) by {
            if i < n {
                assert(s[i] == p[i]);
                let j = choose|j: int| 0 <= j < dp.len() && lib_key(#[trigger] dp[j].name@) == lib_key(p[i].name@);
                assert(d[j] == dp[j]);
            } else if key_seen(s, n) {
                let k = choose|k: int| 0 <= k < n && lib_key((#[trigger] s[k]).name@) == lib_key(s[n].name@);
                assert(s[k] == p[k]);
                let j = choose|j: int| 0 <= j < dp.len() && lib_key(#[trigger] dp[j].name@) == lib_key(p[k].name@);
                assert(d[j] == dp[j]);
            } else {
                assert(d[dp.len() as int] == s[n]);
            }
        }
    }
}

/// The libraries of a merged version: no two share a key (group, artifact,
/// classifier); each is one of the merged list; every key of that list is
/// there; and a library whose key had not come before it is kept, so the
/// child's libraries always win over the parent's.
pub proof fn lemma_dedup_libs(s: Seq<Library>)
    ensures
        forall|i: int, j: int| 0 <= i < j < dedup_libs(s).len() ==> lib_key(#[trigger] dedup_libs(s)[i].name@)
            != lib_key(#[trigger] dedup_libs(s)[j].name@),
        forall|i: int| #![trigger dedup_libs(s)[i]] 0 <= i < dedup_libs(s).len() ==> exists|j: int| 0 <= j < s.len() && #[trigger] s[j] == dedup_libs(s)[i],
        forall|i: int| #![trigger key_seen(s, i)] 0 <= i < s.len() && !key_seen(s, i) ==> exists|j: int| 0 <= j < dedup_libs(s).len() && #[trigger] dedup_libs(s)[j] == s[i],
        forall|i: int| #![trigger s[i]] 0 <= i < s.len() ==> exists|j: int| 0 <= j < dedup_libs(s).len() && lib_key(#[trigger] dedup_libs(s)[j].name@) == lib_key(s[i].name@),
{
    lemma_dedup_libs_distinct(s);
    lemma_dedup_libs_from(s);
    lemma_dedup_libs_kept(s);
    lemma_dedup_libs_covers(s);
}

/// The class path holds each entry once, and ends with the game's jar.
pub proof fn lemma_classpath_once(root: Seq<char>, profile: Profile, os: Seq<char>, arch: Seq<char>)
    requires
        spec_classpath(root, profile, os, arch) is Some,
    ensures
        ({
            let cp = spec_classpath(root, profile, os, arch)->0;
            &&& cp.last() == spec_client_jar_path(root, profile.id@)
            &&& forall|i: int, j: int| 0 <= i < j < cp.len() - 1 ==> #[trigger] cp[i] != #[trigger] cp[j]
        }),
{
    let ps = lib_paths(profile.libraries@, spec_join(spec_join(root, "minecraft"@), "libraries"@), os, arch)->0;
    lemma_dedup_strings(ps);
}

/// The strings kept by `dedup_strings` are distinct, and each comes from
/// the list.
pub proof fn lemma_dedup_strings(s: Seq<Seq<char>>)
    ensures
        forall|i: int, j: int| 0 <= i < j < dedup_strings(s).len() ==> #[trigger] dedup_strings(s)[i] != #[trigger] dedup_strings(s)[j],
        forall|i: int| #![trigger dedup_strings(s)[i]] 0 <= i < dedup_strings(s).len() ==> exists|j: int| 0 <= j < s.len() && #[trigger] s[j] == dedup_strings(s)[i],
    decreases s.len(),
{
    if s.len() > 0 {
        let p = s.drop_last();
        let n = s.len() - 1;
        lemma_dedup_strings(p);
        let dp = dedup_strings(p);
        let d = dedup_strings(s);
        if string_seen(s, n) {
            assert forall|i: int| #![trigger d[i]] 0 <= i < d.len() implies exists|j: int| 0 <= j < s.len() && #[trigger] s[j] == d[i] by {
                let j = choose|j: int| 0 <= j < p.len() && #[trigger] p[j] == dp[i];
                assert(s[j] == p[j]);
            }
        } else {
            assert forall|i: int, j: int| 0 <= i < j < d.len() implies #[trigger] d[i] != #[trigger] d[j] by {
                if j == d.len() - 1 {
                    assert(d[i] == dp[i]);
                    let k = choose|k: int| 0 <= k < p.len() && #[trigger] p[k] == dp[i];
                    assert(s[k] == p[k]);
                    if d[i] == d[j] {
                        assert(s[k] == s[n]);
                        assert(string_seen(s, n));
                    }
                } else {
                    assert(d[i] == dp[i] && d[j] == dp[j]);
                }
            }
            assert forall|i: int| #![trigger d[i]] 0 <= i < d.len() implies exists|j: int| 0 <= j < s.len() && #[trigger] s[j] == d[i] by {
                if i < dp.len() {
                    let j = choose|j: int| 0 <= j < p.len() && #[trigger] p[j] == dp[i];
                    assert(s[j] == p[j]);
                } else {
                    assert(s[n] == d[i]);
                }
            }
        }
    }
}

/// Each asset is downloaded once: no two downloads of an asset index share
/// a hash.
pub proof fn lemma_assets_once(root: Seq<char>, objs: Seq<AssetObject>)
    ensures
        forall|i: int, j: int| 0 <= i < j < spec_asset_downloads(root, objs).len() ==> (#[trigger] spec_asset_downloads(root, objs)[i]).hash
            != (#[trigger] spec_asset_downloads(root, objs)[j]).hash,
        forall|i: int| #![trigger spec_asset_downloads(root, objs)[i]] 0 <= i < spec_asset_downloads(root, objs).len() ==> exists|j: int| 0 <= j < objs.len()
            && spec_asset_downloads(root, objs)[i] == asset_download(root, #[trigger] objs[j]),
    decreases objs.len(),
{
    if objs.len() > 0 {
        let p = objs.drop_last();
        let n = objs.len() - 1;
        lemma_assets_once(root, p);
        let dp = spec_asset_downloads(root, p);
        let d = spec_asset_downloads(root, objs);
        if hash_seen(objs, n) {
            assert forall|i: int| #![trigger d[i]] 0 <= i < d.len() implies exists|j: int| 0 <= j < objs.len()
                && d[i] == asset_download(root, #[trigger] objs[j]) by {
                let j = choose|j: int| 0 <= j < p.len() && dp[i] == asset_download(root, #[trigger] p[j]);
                assert(objs[j] == p[j]);
            }
        } else {
            assert forall|i: int, j: int| 0 <= i < j < d.len() implies (#[trigger] d[i]).hash != (#[trigger] d[j]).hash by {
                if j == d.len() - 1 {
                    assert(d[i] == dp[i]);
                    let k = choose|k: int| 0 <= k < p.len() && dp[i] == asset_download(root, #[trigger] p[k]);
                    assert(objs[k] == p[k]);
                    if d[i].hash == d[j].hash {
                        assert(HashSpec::Sha1(objs[k].hash@) == HashSpec::Sha1(objs[n].hash@));
                        assert(objs[k].hash@ == objs[n].hash@);
                        assert(hash_seen(objs, n));
                    }
                } else {
                    assert(d[i] == dp[i] && d[j] == dp[j]);
                }
            }
            assert forall|i: int| #![trigger d[i]] 0 <= i < d.len() implies exists|j: int| 0 <= j < objs.len()
                && d[i] == asset_download(root, #[trigger] objs[j]) by {
                if i < dp.len() {
                    let j = choose|j: int| 0 <= j < p.len() && dp[i] == asset_download(root, #[trigger] p[j]);
                    assert(objs[j] == p[j]);
                } else {
                    assert(d[i] == asset_download(root, objs[n]));
                }
            }
        }
    }
}


// ─── What each placeholder of the command line becomes ─────────────────────

/// `pat` occurs in `s`.
pub open spec fn occurs(s: Seq<char>, pat: Seq<char>) -> bool {
    exists|i: int| 0 <= i && i + pat.len() <= s.len() && #[trigger] s.subrange(i, i + pat.len()) == pat
}

/// A placeholder's key: no `$` and no `}` in it.
pub open spec fn plain_placeholder_key(k: Seq<char>) -> bool {
    forall|i: int| 0 <= i < k.len() ==> #[trigger] k[i] != '$' && k[i] != '}'
}

proof fn lemma_replace_absent(s: Seq<char>, pat: Seq<char>, with: Seq<char>)
    requires
        pat.len() > 0,
        !occurs(s, pat),
    ensures
        spec_replace(s, pat, with) == s,
    decreases s.len(),
{
    if s.len() >= pat.len() {
        assert(s.subrange(0int, 0int + pat.len()) != pat);
        assert(s.subrange(0, pat.len() as int) != pat);
        let d = s.drop_first();
        assert(!occurs(d, pat)) by {
            if occurs(d, pat) {
                let i = choose|i: int| 0 <= i && i + pat.len() <= d.len() && #[trigger] d.subrange(i, i + pat.len()) == pat;
                assert(s.subrange(i + 1, i + 1 + pat.len()) =~= d.subrange(i, i + pat.len()));
            }
        }
        lemma_replace_absent(d, pat, with);
        assert(seq![s[0]] + d =~= s);
    }
}

proof fn lemma_replace_whole(pat: Seq<char>, with: Seq<char>)
    requires
        pat.len() > 0,
    ensures
        spec_replace(pat, pat, with) == with,
{
    assert(pat.subrange(0, pat.len() as int) =~= pat);
    let rest = pat.subrange(pat.len() as int, pat.len() as int);
    assert(rest.len() == 0);
    assert(spec_replace(rest, pat, with) == rest);
    assert(with + rest =~= with);
}

proof fn lemma_no_dollar_no_placeholder(s: Seq<char>, k: Seq<char>)
    requires
        !occurs(s, "${"@),
    ensures
        !occurs(s, placeholder(k)),
{
    reveal_strlit("${");
    reveal_strlit("}");
    let p = placeholder(k);
    if occurs(s, p) {
        let i = choose|i: int| 0 <= i && i + p.len() <= s.len() && #[trigger] s.subrange(i, i + p.len()) == p;
        assert(s.subrange(i, i + 2) =~= p.subrange(0, 2));
        assert(p.subrange(0, 2) =~= "${"@);
        assert(s.subrange(i, i + "${"@.len()) == "${"@);
    }
}

proof fn lemma_placeholders_apart(k1: Seq<char>, k2: Seq<char>)
    requires
        plain_placeholder_key(k1),
        plain_placeholder_key(k2),
        k1 != k2,
    ensures
        !occurs(placeholder(k2), placeholder(k1)),
{
    reveal_strlit("${");
    reveal_strlit("}");
    let p1 = placeholder(k1);
    let p2 = placeholder(k2);
    assert(p1.len() == k1.len() + 3);
    assert(p2.len() == k2.len() + 3);
    if occurs(p2, p1) {
        let o = choose|o: int| 0 <= o && o + p1.len() <= p2.len() && #[trigger] p2.subrange(o, o + p1.len()) == p1;
        assert(p1[0] == '$');
        assert(p2[o] == p2.subrange(o, o + p1.len())[0]);
        if o >= 2 && o < 2 + k2.len() {
            assert(p2[o] == k2[o - 2]);
        }
        assert(o == 0);
        let e = p1.len() - 1;
        assert(p1[e] == '}');
        assert(p2[e] == p2.subrange(o, o + p1.len())[e]);
        if e < 2 + k2.len() {
            assert(p2[e] == k2[e - 2]);
        }
        assert(p1.len() == p2.len());
        assert(p2.subrange(0, p2.len() as int) =~= p2);
        assert(k1 =~= p1.subrange(2int, 2int + k1.len()));
        assert(k2 =~= p2.subrange(2int, 2int + k2.len()));
    }
}

proof fn lemma_fill_untouched(key: Seq<char>, pairs: Seq<(Seq<char>, Seq<char>)>)
    requires
        plain_placeholder_key(key),
        forall|i: int| 0 <= i < pairs.len() ==> plain_placeholder_key(#[trigger] pairs[i].0) && pairs[i].0 != key,
    ensures
        fill_all(placeholder(key), pairs) == placeholder(key),
    decreases pairs.len(),
{
    reveal_strlit("${");
    reveal_strlit("}");
    if pairs.len() > 0 {
        let d = pairs.drop_last();
        assert forall|i: int| 0 <= i < d.len() implies plain_placeholder_key(#[trigger] d[i].0) && d[i].0 != key by {
            assert(d[i] == pairs[i]);
        }
        lemma_fill_untouched(key, d);
        let last = pairs[pairs.len() - 1];
        lemma_placeholders_apart(last.0, key);
        lemma_replace_absent(placeholder(key), placeholder(last.0), last.1);
    }
}

/// The placeholder of the pair at `j` becomes its value, when the keys
/// before it are other keys and the value holds no `${`.
proof fn lemma_fill_at(pairs: Seq<(Seq<char>, Seq<char>)>, j: int)
    requires
        0 <= j < pairs.len(),
        forall|i: int| 0 <= i <= j ==> plain_placeholder_key(#[trigger] pairs[i].0),
        forall|i: int| 0 <= i < j ==> #[trigger] pairs[i].0 != pairs[j].0,
        !occurs(pairs[j].1, "${"@),
    ensures
        fill_all(placeholder(pairs[j].0), pairs) == pairs[j].1,
    decreases pairs.len(),
{
    reveal_strlit("${");
    reveal_strlit("}");
    let d = pairs.drop_last();
    let key = pairs[j].0;
    if j == pairs.len() - 1 {
        assert forall|i: int| 0 <= i < d.len() implies plain_placeholder_key(#[trigger] d[i].0) && d[i].0 != key by {
            assert(d[i] == pairs[i]);
        }
        lemma_fill_untouched(key, d);
        lemma_replace_whole(placeholder(key), pairs[j].1);
    } else {
        assert(d[j] == pairs[j]);
        assert forall|i: int| 0 <= i <= j implies plain_placeholder_key(#[trigger] d[i].0) by {
            assert(d[i] == pairs[i]);
        }
        assert forall|i: int| 0 <= i < j implies #[trigger] d[i].0 != d[j].0 by {
            assert(d[i] == pairs[i]);
        }
        lemma_fill_at(d, j);
        let last = pairs[pairs.len() - 1];
        lemma_no_dollar_no_placeholder(pairs[j].1, last.0);
        lemma_replace_absent(pairs[j].1, placeholder(last.0), last.1);
    }
}


/// Each placeholder of the launch that stands for a value of the player,
/// the session, the version or the launcher is filled with that value
/// (when the value holds no `${` itself): `${auth_access_token}` with the
/// session's access token, `${auth_uuid}` with the player's UUID,
/// `${auth_player_name}` with the player's name, and so on. The game's and
/// Java's arguments are these fillings (see `command_line`).
pub proof fn lemma_launch_placeholders_filled(
    root: Seq<char>,
    profile: Profile,
    vars: LaunchVars,
    classpath: Seq<Seq<char>>,
    sep: Seq<char>,
    launcher_version: Seq<char>,
)
    ensures
        !occurs(vars.player_name@, "${"@) ==> fill_all(placeholder("auth_player_name"@), launch_values(root, profile, vars, classpath, sep, launcher_version)) == vars.player_name@,
        !occurs(profile.id@, "${"@) ==> fill_all(placeholder("version_name"@), launch_values(root, profile, vars, classpath, sep, launcher_version)) == profile.id@,
        !occurs(vars.game_dir@, "${"@) ==> fill_all(placeholder("game_directory"@), launch_values(root, profile, vars, classpath, sep, launcher_version)) == vars.game_dir@,
        !occurs(profile.asset_index.id@, "${"@) ==> fill_all(placeholder("assets_index_name"@), launch_values(root, profile, vars, classpath, sep, launcher_version)) == profile.asset_index.id@,
        !occurs(vars.uuid@, "${"@) ==> fill_all(placeholder("auth_uuid"@), launch_values(root, profile, vars, classpath, sep, launcher_version)) == vars.uuid@,
        !occurs(vars.access_token@, "${"@) ==> fill_all(placeholder("auth_access_token"@), launch_values(root, profile, vars, classpath, sep, launcher_version)) == vars.access_token@,
        !occurs(vars.xuid@, "${"@) ==> fill_all(placeholder("auth_xuid"@), launch_values(root, profile, vars, classpath, sep, launcher_version)) == vars.xuid@,
        !occurs(vars.user_type@, "${"@) ==> fill_all(placeholder("user_type"@), launch_values(root, profile, vars, classpath, sep, launcher_version)) == vars.user_type@,
        !occurs(profile.kind@, "${"@) ==> fill_all(placeholder("version_type"@), launch_values(root, profile, vars, classpath, sep, launcher_version)) == profile.kind@,
        !occurs(launcher_version, "${"@) ==> fill_all(placeholder("launcher_version"@), launch_values(root, profile, vars, classpath, sep, launcher_version)) == launcher_version,
        !occurs(joined(classpath, sep), "${"@) ==> fill_all(placeholder("classpath"@), launch_values(root, profile, vars, classpath, sep, launcher_version)) == joined(classpath, sep),
        !occurs(sep, "${"@) ==> fill_all(placeholder("classpath_separator"@), launch_values(root, profile, vars, classpath, sep, launcher_version)) == sep,
{
    let pairs = launch_values(root, profile, vars, classpath, sep, launcher_version);
    reveal_strlit("auth_player_name");
    reveal_strlit("version_name");
    reveal_strlit("game_directory");
    reveal_strlit("assets_root");
    reveal_strlit("assets_index_name");
    reveal_strlit("auth_uuid");
    reveal_strlit("auth_access_token");
    reveal_strlit("clientid");
    reveal_strlit("auth_xuid");
    reveal_strlit("user_type");
    reveal_strlit("version_type");
    reveal_strlit("natives_directory");
    reveal_strlit("launcher_name");
    reveal_strlit("launcher_version");
    reveal_strlit("classpath");
    reveal_strlit("classpath_separator");
    reveal_strlit("library_directory");
    reveal_strlit("user_properties");
    assert(pairs.len() == 18);
    if !occurs(vars.player_name@, "${"@) {
        assert(pairs[0].0 == "auth_player_name"@ && pairs[0].1 == vars.player_name@);
        assert forall|i: int| 0 <= i <= 0 implies plain_placeholder_key(#[trigger] pairs[i].0) by {
            if i == 0 { assert(plain_placeholder_key("auth_player_name"@)); }
        }
        assert forall|i: int| 0 <= i < 0 implies #[trigger] pairs[i].0 != pairs[0].0 by {
        }
        lemma_fill_at(pairs, 0);
    }
    if !occurs(profile.id@, "${"@) {
        assert(pairs[1].0 == "version_name"@ && pairs[1].1 == profile.id@);
        assert forall|i: int| 0 <= i <= 1 implies plain_placeholder_key(#[trigger] pairs[i].0) by {
            if i == 0 { assert(plain_placeholder_key("auth_player_name"@)); }
            if i == 1 { assert(plain_placeholder_key("version_name"@)); }
        }
        assert forall|i: int| 0 <= i < 1 implies #[trigger] pairs[i].0 != pairs[1].0 by {
            if i == 0 { assert("auth_player_name"@.len() != "version_name"@.len()); }
        }
        lemma_fill_at(pairs, 1);
    }
    if !occurs(vars.game_dir@, "${"@) {
        assert(pairs[2].0 == "game_directory"@ && pairs[2].1 == vars.game_dir@);
        assert forall|i: int| 0 <= i <= 2 implies plain_placeholder_key(#[trigger] pairs[i].0) by {
            if i == 0 { assert(plain_placeholder_key("auth_player_name"@)); }
            if i == 1 { assert(plain_placeholder_key("version_name"@)); }
            if i == 2 { assert(plain_placeholder_key("game_directory"@)); }
        }
        assert forall|i: int| 0 <= i < 2 implies #[trigger] pairs[i].0 != pairs[2].0 by {
            if i == 0 { assert("auth_player_name"@.len() != "game_directory"@.len()); }
            if i == 1 { assert("version_name"@.len() != "game_directory"@.len()); }
        }
        lemma_fill_at(pairs, 2);
    }
    if !occurs(profile.asset_index.id@, "${"@) {
        assert(pairs[4].0 == "assets_index_name"@ && pairs[4].1 == profile.asset_index.id@);
        assert forall|i: int| 0 <= i <= 4 implies plain_placeholder_key(#[trigger] pairs[i].0) by {
            if i == 0 { assert(plain_placeholder_key("auth_player_name"@)); }
            if i == 1 { assert(plain_placeholder_key("version_name"@)); }
            if i == 2 { assert(plain_placeholder_key("game_directory"@)); }
            if i == 3 { assert(plain_placeholder_key("assets_root"@)); }
            if i == 4 { assert(plain_placeholder_key("assets_index_name"@)); }
        }
        assert forall|i: int| 0 <= i < 4 implies #[trigger] pairs[i].0 != pairs[4].0 by {
            if i == 0 { assert("auth_player_name"@.len() != "assets_index_name"@.len()); }
            if i == 1 { assert("version_name"@.len() != "assets_index_name"@.len()); }
            if i == 2 { assert("game_directory"@.len() != "assets_index_name"@.len()); }
            if i == 3 { assert("assets_root"@.len() != "assets_index_name"@.len()); }
        }
        lemma_fill_at(pairs, 4);
    }
    if !occurs(vars.uuid@, "${"@) {
        assert(pairs[5].0 == "auth_uuid"@ && pairs[5].1 == vars.uuid@);
        assert forall|i: int| 0 <= i <= 5 implies plain_placeholder_key(#[trigger] pairs[i].0) by {
            if i == 0 { assert(plain_placeholder_key("auth_player_name"@)); }
            if i == 1 { assert(plain_placeholder_key("version_name"@)); }
            if i == 2 { assert(plain_placeholder_key("game_directory"@)); }
            if i == 3 { assert(plain_placeholder_key("assets_root"@)); }
            if i == 4 { assert(plain_placeholder_key("assets_index_name"@)); }
            if i == 5 { assert(plain_placeholder_key("auth_uuid"@)); }
        }
        assert forall|i: int| 0 <= i < 5 implies #[trigger] pairs[i].0 != pairs[5].0 by {
            if i == 0 { assert("auth_player_name"@.len() != "auth_uuid"@.len()); }
            if i == 1 { assert("version_name"@.len() != "auth_uuid"@.len()); }
            if i == 2 { assert("game_directory"@.len() != "auth_uuid"@.len()); }
            if i == 3 { assert("assets_root"@.len() != "auth_uuid"@.len()); }
            if i == 4 { assert("assets_index_name"@.len() != "auth_uuid"@.len()); }
        }
        lemma_fill_at(pairs, 5);
    }
    if !occurs(vars.access_token@, "${"@) {
        assert(pairs[6].0 == "auth_access_token"@ && pairs[6].1 == vars.access_token@);
        assert forall|i: int| 0 <= i <= 6 implies plain_placeholder_key(#[trigger] pairs[i].0) by {
            if i == 0 { assert(plain_placeholder_key("auth_player_name"@)); }
            if i == 1 { assert(plain_placeholder_key("version_name"@)); }
            if i == 2 { assert(plain_placeholder_key("game_directory"@)); }
            if i == 3 { assert(plain_placeholder_key("assets_root"@)); }
            if i == 4 { assert(plain_placeholder_key("assets_index_name"@)); }
            if i == 5 { assert(plain_placeholder_key("auth_uuid"@)); }
            if i == 6 { assert(plain_placeholder_key("auth_access_token"@)); }
        }
        assert forall|i: int| 0 <= i < 6 implies #[trigger] pairs[i].0 != pairs[6].0 by {
            if i == 0 { assert("auth_player_name"@.len() != "auth_access_token"@.len()); }
            if i == 1 { assert("version_name"@.len() != "auth_access_token"@.len()); }
            if i == 2 { assert("game_directory"@.len() != "auth_access_token"@.len()); }
            if i == 3 { assert("assets_root"@.len() != "auth_access_token"@.len()); }
            if i == 4 { assert("assets_index_name"@[1] != "auth_access_token"@[1]); }
            if i == 5 { assert("auth_uuid"@.len() != "auth_access_token"@.len()); }
        }
        lemma_fill_at(pairs, 6);
    }
    if !occurs(vars.xuid@, "${"@) {
        assert(pairs[8].0 == "auth_xuid"@ && pairs[8].1 == vars.xuid@);
        assert forall|i: int| 0 <= i <= 8 implies plain_placeholder_key(#[trigger] pairs[i].0) by {
            if i == 0 { assert(plain_placeholder_key("auth_player_name"@)); }
            if i == 1 { assert(plain_placeholder_key("version_name"@)); }
            if i == 2 { assert(plain_placeholder_key("game_directory"@)); }
            if i == 3 { assert(plain_placeholder_key("assets_root"@)); }
            if i == 4 { assert(plain_placeholder_key("assets_index_name"@)); }
            if i == 5 { assert(plain_placeholder_key("auth_uuid"@)); }
            if i == 6 { assert(plain_placeholder_key("auth_access_token"@)); }
            if i == 7 { assert(plain_placeholder_key("clientid"@)); }
            if i == 8 { assert(plain_placeholder_key("auth_xuid"@)); }
        }
        assert forall|i: int| 0 <= i < 8 implies #[trigger] pairs[i].0 != pairs[8].0 by {
            if i == 0 { assert("auth_player_name"@.len() != "auth_xuid"@.len()); }
            if i == 1 { assert("version_name"@.len() != "auth_xuid"@.len()); }
            if i == 2 { assert("game_directory"@.len() != "auth_xuid"@.len()); }
            if i == 3 { assert("assets_root"@.len() != "auth_xuid"@.len()); }
            if i == 4 { assert("assets_index_name"@.len() != "auth_xuid"@.len()); }
            if i == 5 { assert("auth_uuid"@[5] != "auth_xuid"@[5]); }
            if i == 6 { assert("auth_access_token"@.len() != "auth_xuid"@.len()); }
            if i == 7 { assert("clientid"@.len() != "auth_xuid"@.len()); }
        }
        lemma_fill_at(pairs, 8);
    }
    if !occurs(vars.user_type@, "${"@) {
        assert(pairs[9].0 == "user_type"@ && pairs[9].1 == vars.user_type@);
        assert forall|i: int| 0 <= i <= 9 implies plain_placeholder_key(#[trigger] pairs[i].0) by {
            if i == 0 { assert(plain_placeholder_key("auth_player_name"@)); }
            if i == 1 { assert(plain_placeholder_key("version_name"@)); }
            if i == 2 { assert(plain_placeholder_key("game_directory"@)); }
            if i == 3 { assert(plain_placeholder_key("assets_root"@)); }
            if i == 4 { assert(plain_placeholder_key("assets_index_name"@)); }
            if i == 5 { assert(plain_placeholder_key("auth_uuid"@)); }
            if i == 6 { assert(plain_placeholder_key("auth_access_token"@)); }
            if i == 7 { assert(plain_placeholder_key("clientid"@)); }
            if i == 8 { assert(plain_placeholder_key("auth_xuid"@)); }
            if i == 9 { assert(plain_placeholder_key("user_type"@)); }
        }
        assert forall|i: int| 0 <= i < 9 implies #[trigger] pairs[i].0 != pairs[9].0 by {
            if i == 0 { assert("auth_player_name"@.len() != "user_type"@.len()); }
            if i == 1 { assert("version_name"@.len() != "user_type"@.len()); }
            if i == 2 { assert("game_directory"@.len() != "user_type"@.len()); }
            if i == 3 { assert("assets_root"@.len() != "user_type"@.len()); }
            if i == 4 { assert("assets_index_name"@.len() != "user_type"@.len()); }
            if i == 5 { assert("auth_uuid"@[0] != "user_type"@[0]); }
            if i == 6 { assert("auth_access_token"@.len() != "user_type"@.len()); }
            if i == 7 { assert("clientid"@.len() != "user_type"@.len()); }
            if i == 8 { assert("auth_xuid"@[0] != "user_type"@[0]); }
        }
        lemma_fill_at(pairs, 9);
    }
    if !occurs(profile.kind@, "${"@) {
        assert(pairs[10].0 == "version_type"@ && pairs[10].1 == profile.kind@);
        assert forall|i: int| 0 <= i <= 10 implies plain_placeholder_key(#[trigger] pairs[i].0) by {
            if i == 0 { assert(plain_placeholder_key("auth_player_name"@)); }
            if i == 1 { assert(plain_placeholder_key("version_name"@)); }
            if i == 2 { assert(plain_placeholder_key("game_directory"@)); }
            if i == 3 { assert(plain_placeholder_key("assets_root"@)); }
            if i == 4 { assert(plain_placeholder_key("assets_index_name"@)); }
            if i == 5 { assert(plain_placeholder_key("auth_uuid"@)); }
            if i == 6 { assert(plain_placeholder_key("auth_access_token"@)); }
            if i == 7 { assert(plain_placeholder_key("clientid"@)); }
            if i == 8 { assert(plain_placeholder_key("auth_xuid"@)); }
            if i == 9 { assert(plain_placeholder_key("user_type"@)); }
            if i == 10 { assert(plain_placeholder_key("version_type"@)); }
        }
        assert forall|i: int| 0 <= i < 10 implies #[trigger] pairs[i].0 != pairs[10].0 by {
            if i == 0 { assert("auth_player_name"@.len() != "version_type"@.len()); }
            if i == 1 { assert("version_name"@[8] != "version_type"@[8]); }
            if i == 2 { assert("game_directory"@.len() != "version_type"@.len()); }
            if i == 3 { assert("assets_root"@.len() != "version_type"@.len()); }
            if i == 4 { assert("assets_index_name"@.len() != "version_type"@.len()); }
            if i == 5 { assert("auth_uuid"@.len() != "version_type"@.len()); }
            if i == 6 { assert("auth_access_token"@.len() != "version_type"@.len()); }
            if i == 7 { assert("clientid"@.len() != "version_type"@.len()); }
            if i == 8 { assert("auth_xuid"@.len() != "version_type"@.len()); }
            if i == 9 { assert("user_type"@.len() != "version_type"@.len()); }
        }
        lemma_fill_at(pairs, 10);
    }
    if !occurs(launcher_version, "${"@) {
        assert(pairs[13].0 == "launcher_version"@ && pairs[13].1 == launcher_version);
        assert forall|i: int| 0 <= i <= 13 implies plain_placeholder_key(#[trigger] pairs[i].0) by {
            if i == 0 { assert(plain_placeholder_key("auth_player_name"@)); }
            if i == 1 { assert(plain_placeholder_key("version_name"@)); }
            if i == 2 { assert(plain_placeholder_key("game_directory"@)); }
            if i == 3 { assert(plain_placeholder_key("assets_root"@)); }
            if i == 4 { assert(plain_placeholder_key("assets_index_name"@)); }
            if i == 5 { assert(plain_placeholder_key("auth_uuid"@)); }
            if i == 6 { assert(plain_placeholder_key("auth_access_token"@)); }
            if i == 7 { assert(plain_placeholder_key("clientid"@)); }
            if i == 8 { assert(plain_placeholder_key("auth_xuid"@)); }
            if i == 9 { assert(plain_placeholder_key("user_type"@)); }
            if i == 10 { assert(plain_placeholder_key("version_type"@)); }
            if i == 11 { assert(plain_placeholder_key("natives_directory"@)); }
            if i == 12 { assert(plain_placeholder_key("launcher_name"@)); }
            if i == 13 { assert(plain_placeholder_key("launcher_version"@)); }
        }
        assert forall|i: int| 0 <= i < 13 implies #[trigger] pairs[i].0 != pairs[13].0 by {
            if i == 0 { assert("auth_player_name"@[0] != "launcher_version"@[0]); }
            if i == 1 { assert("version_name"@.len() != "launcher_version"@.len()); }
            if i == 2 { assert("game_directory"@.len() != "launcher_version"@.len()); }
            if i == 3 { assert("assets_root"@.len() != "launcher_version"@.len()); }
            if i == 4 { assert("assets_index_name"@.len() != "launcher_version"@.len()); }
            if i == 5 { assert("auth_uuid"@.len() != "launcher_version"@.len()); }
            if i == 6 { assert("auth_access_token"@.len() != "launcher_version"@.len()); }
            if i == 7 { assert("clientid"@.len() != "launcher_version"@.len()); }
            if i == 8 { assert("auth_xuid"@.len() != "launcher_version"@.len()); }
            if i == 9 { assert("user_type"@.len() != "launcher_version"@.len()); }
            if i == 10 { assert("version_type"@.len() != "launcher_version"@.len()); }
            if i == 11 { assert("natives_directory"@.len() != "launcher_version"@.len()); }
            if i == 12 { assert("launcher_name"@.len() != "launcher_version"@.len()); }
        }
        lemma_fill_at(pairs, 13);
    }
    if !occurs(joined(classpath, sep), "${"@) {
        assert(pairs[14].0 == "classpath"@ && pairs[14].1 == joined(classpath, sep));
        assert forall|i: int| 0 <= i <= 14 implies plain_placeholder_key(#[trigger] pairs[i].0) by {
            if i == 0 { assert(plain_placeholder_key("auth_player_name"@)); }
            if i == 1 { assert(plain_placeholder_key("version_name"@)); }
            if i == 2 { assert(plain_placeholder_key("game_directory"@)); }
            if i == 3 { assert(plain_placeholder_key("assets_root"@)); }
            if i == 4 { assert(plain_placeholder_key("assets_index_name"@)); }
            if i == 5 { assert(plain_placeholder_key("auth_uuid"@)); }
            if i == 6 { assert(plain_placeholder_key("auth_access_token"@)); }
            if i == 7 { assert(plain_placeholder_key("clientid"@)); }
            if i == 8 { assert(plain_placeholder_key("auth_xuid"@)); }
            if i == 9 { assert(plain_placeholder_key("user_type"@)); }
            if i == 10 { assert(plain_placeholder_key("version_type"@)); }
            if i == 11 { assert(plain_placeholder_key("natives_directory"@)); }
            if i == 12 { assert(plain_placeholder_key("launcher_name"@)); }
            if i == 13 { assert(plain_placeholder_key("launcher_version"@)); }
            if i == 14 { assert(plain_placeholder_key("classpath"@)); }
        }
        assert forall|i: int| 0 <= i < 14 implies #[trigger] pairs[i].0 != pairs[14].0 by {
            if i == 0 { assert("auth_player_name"@.len() != "classpath"@.len()); }
            if i == 1 { assert("version_name"@.len() != "classpath"@.len()); }
            if i == 2 { assert("game_directory"@.len() != "classpath"@.len()); }
            if i == 3 { assert("assets_root"@.len() != "classpath"@.len()); }
            if i == 4 { assert("assets_index_name"@.len() != "classpath"@.len()); }
            if i == 5 { assert("auth_uuid"@[0] != "classpath"@[0]); }
            if i == 6 { assert("auth_access_token"@.len() != "classpath"@.len()); }
            if i == 7 { assert("clientid"@.len() != "classpath"@.len()); }
            if i == 8 { assert("auth_xuid"@[0] != "classpath"@[0]); }
            if i == 9 { assert("user_type"@[0] != "classpath"@[0]); }
            if i == 10 { assert("version_type"@.len() != "classpath"@.len()); }
            if i == 11 { assert("natives_directory"@.len() != "classpath"@.len()); }
            if i == 12 { assert("launcher_name"@.len() != "classpath"@.len()); }
            if i == 13 { assert("launcher_version"@.len() != "classpath"@.len()); }
        }
        lemma_fill_at(pairs, 14);
    }
    if !occurs(sep, "${"@) {
        assert(pairs[15].0 == "classpath_separator"@ && pairs[15].1 == sep);
        assert forall|i: int| 0 <= i <= 15 implies plain_placeholder_key(#[trigger] pairs[i].0) by {
            if i == 0 { assert(plain_placeholder_key("auth_player_name"@)); }
            if i == 1 { assert(plain_placeholder_key("version_name"@)); }
            if i == 2 { assert(plain_placeholder_key("game_directory"@)); }
            if i == 3 { assert(plain_placeholder_key("assets_root"@)); }
            if i == 4 { assert(plain_placeholder_key("assets_index_name"@)); }
            if i == 5 { assert(plain_placeholder_key("auth_uuid"@)); }
            if i == 6 { assert(plain_placeholder_key("auth_access_token"@)); }
            if i == 7 { assert(plain_placeholder_key("clientid"@)); }
            if i == 8 { assert(plain_placeholder_key("auth_xuid"@)); }
            if i == 9 { assert(plain_placeholder_key("user_type"@)); }
            if i == 10 { assert(plain_placeholder_key("version_type"@)); }
            if i == 11 { assert(plain_placeholder_key("natives_directory"@)); }
            if i == 12 { assert(plain_placeholder_key("launcher_name"@)); }
            if i == 13 { assert(plain_placeholder_key("launcher_version"@)); }
            if i == 14 { assert(plain_placeholder_key("classpath"@)); }
            if i == 15 { assert(plain_placeholder_key("classpath_separator"@)); }
        }
        assert forall|i: int| 0 <= i < 15 implies #[trigger] pairs[i].0 != pairs[15].0 by {
            if i == 0 { assert("auth_player_name"@.len() != "classpath_separator"@.len()); }
            if i == 1 { assert("version_name"@.len() != "classpath_separator"@.len()); }
            if i == 2 { assert("game_directory"@.len() != "classpath_separator"@.len()); }
            if i == 3 { assert("assets_root"@.len() != "classpath_separator"@.len()); }
            if i == 4 { assert("assets_index_name"@.len() != "classpath_separator"@.len()); }
            if i == 5 { assert("auth_uuid"@.len() != "classpath_separator"@.len()); }
            if i == 6 { assert("auth_access_token"@.len() != "classpath_separator"@.len()); }
            if i == 7 { assert("clientid"@.len() != "classpath_separator"@.len()); }
            if i == 8 { assert("auth_xuid"@.len() != "classpath_separator"@.len()); }
            if i == 9 { assert("user_type"@.len() != "classpath_separator"@.len()); }
            if i == 10 { assert("version_type"@.len() != "classpath_separator"@.len()); }
            if i == 11 { assert("natives_directory"@.len() != "classpath_separator"@.len()); }
            if i == 12 { assert("launcher_name"@.len() != "classpath_separator"@.len()); }
            if i == 13 { assert("launcher_version"@.len() != "classpath_separator"@.len()); }
            if i == 14 { assert("classpath"@.len() != "classpath_separator"@.len()); }
        }
        lemma_fill_at(pairs, 15);
    }
}

} // verus!
