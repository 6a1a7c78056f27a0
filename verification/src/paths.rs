//! Where the launcher keeps everything, under one root directory per player:
//!
//! ```text
//! <data>/turicraft/
//!   settings.json      launcher settings (no secret)
//!   runtime/           Mojang's Java
//!   minecraft/         versions, libraries, assets
//!   instance/          the game directory (mods, config, saves...)
//!   tools/             packwiz-installer
//! ```
//!
//! Paths are strings whose separator is `/`. Paths that come from the
//! network are checked as the system reads them: on Windows `\` separates
//! segments too, and a drive prefix (`C:`) makes a path absolute.

use vstd::prelude::*;

use crate::text::push_char;

verus! {

/// `base` joined with the relative path `rel`, as `Path::join` does for a
/// relative `rel`: a separator is inserted unless `base` is empty or already
/// ends with one.
pub open spec fn spec_join(base: Seq<char>, rel: Seq<char>) -> Seq<char> {
    if base.len() == 0 {
        rel
    } else if base.last() == '/' {
        base + rel
    } else {
        base + seq!['/'] + rel
    }
}

/// `base` joined with `rel` as `Path::join` does on Unix: an absolute `rel`
/// (starting with `/`) replaces `base`; otherwise `spec_join`.
pub open spec fn spec_path_join(base: Seq<char>, rel: Seq<char>) -> Seq<char> {
    if rel.len() > 0 && rel[0] == '/' {
        rel
    } else {
        spec_join(base, rel)
    }
}

/// `base` joined with `rel` (see `spec_path_join`).
pub fn path_join(base: &str, rel: &str) -> (r: String)
    ensures
        r@ == spec_path_join(base@, rel@),
{
    if rel.unicode_len() > 0 && rel.get_char(0) == '/' {
        rel.to_owned()
    } else {
        join(base, rel)
    }
}

/// A separator of path segments: `/`, and on Windows `\` too.
pub open spec fn is_separator(c: char, windows: bool) -> bool {
    c == '/' || (windows && c == '\\')
}

/// The segment of `rel` that starts at `i` is `..`.
pub open spec fn parent_segment_at(rel: Seq<char>, i: int, windows: bool) -> bool {
    &&& 0 <= i
    &&& i + 2 <= rel.len()
    &&& rel[i] == '.'
    &&& rel[i + 1] == '.'
    &&& (i == 0 || is_separator(rel[i - 1], windows))
    &&& (i + 2 == rel.len() || is_separator(rel[i + 2], windows))
}

/// `rel` starts with a drive prefix (`C:`), which Windows reads as another
/// disk or another directory.
pub open spec fn has_drive_prefix(rel: Seq<char>) -> bool {
    &&& rel.len() >= 2
    &&& rel[1] == ':'
    &&& (('a' <= rel[0] && rel[0] <= 'z') || ('A' <= rel[0] && rel[0] <= 'Z'))
}

/// A relative path that stays inside the directory it is joined to, as the
/// system reads paths: not empty, not absolute (no leading separator; on
/// Windows no drive prefix either), and without any `..` segment. On Unix
/// `\` and `:` are ordinary characters of a name.
pub open spec fn stays_inside(rel: Seq<char>, windows: bool) -> bool {
    &&& rel.len() > 0
    &&& !is_separator(rel[0], windows)
    &&& !(windows && has_drive_prefix(rel))
    &&& forall|i: int| !#[trigger] parent_segment_at(rel, i, windows)
}

/// A path coming from the network refused because it could leave its
/// directory.
#[derive(Clone, Debug, PartialEq, Eq)]
pub struct PathRefused {
    pub path: String,
}

/// `base/rel` (see `spec_join`).
pub fn join(base: &str, rel: &str) -> (r: String)
    ensures
        r@ == spec_join(base@, rel@),
{
    let mut out = base.to_owned();
    let n = base.unicode_len();
    if n > 0 && base.get_char(n - 1) != '/' {
        push_char(&mut out, '/');
    }
    out.append(rel);
    out
}

/// Whether `rel` stays inside the directory it is joined to, on Windows
/// (`windows`) or on Unix.
pub fn is_inside(rel: &str, windows: bool) -> (b: bool)
    ensures
        b == stays_inside(rel@, windows),
{
    let n = rel.unicode_len();
    if n == 0 {
        return false;
    }
    let c0 = rel.get_char(0);
    if c0 == '/' || (windows && c0 == '\\') {
        return false;
    }
    if windows && n >= 2 && rel.get_char(1) == ':' && (('a' <= c0 && c0 <= 'z') || ('A' <= c0 && c0 <= 'Z')) {
        return false;
    }
    let mut i: usize = 0;
    while i < n
        invariant
            n == rel@.len(),
            i <= n,
            forall|j: int| 0 <= j < i ==> !#[trigger] parent_segment_at(rel@, j, windows),
        decreases n - i,
    {
        if n - i >= 2 && rel.get_char(i) == '.' && rel.get_char(i + 1) == '.'
            && (i == 0 || rel.get_char(i - 1) == '/' || (windows && rel.get_char(i - 1) == '\\'))
            && (i + 2 == n || rel.get_char(i + 2) == '/' || (windows && rel.get_char(i + 2) == '\\')) {
            assert(parent_segment_at(rel@, i as int, windows));
            return false;
        }
        i = i + 1;
    }
    assert forall|j: int| !#[trigger] parent_segment_at(rel@, j, windows) by {
        if 0 <= j < n {
        }
    }
    true
}

/// `base/rel`, for a relative path coming from the network (Mojang's Java
/// manifest, libraries, presets.toml): refused if it is empty, absolute,
/// or goes up (a `..` segment), as the system reads it (`windows`: `\`
/// separates segments and a drive prefix is absolute; see `stays_inside`),
/// so that a malformed or tampered file writes nothing outside of `base`.
pub fn safe_join(base: &str, rel: &str, windows: bool) -> (r: Result<String, PathRefused>)
    ensures
        r is Ok <==> stays_inside(rel@, windows),
        r matches Ok(p) ==> p@ == spec_join(base@, rel@),
        r matches Err(e) ==> e.path@ == rel@,
{
    if is_inside(rel, windows) {
        Ok(join(base, rel))
    } else {
        Err(PathRefused { path: rel.to_owned() })
    }
}

/// A path accepted by `safe_join` lies under `base`: the result starts with
/// `base`, and what follows is `rel`, which has no `..` segment and is not
/// absolute.
pub proof fn lemma_safe_join_stays_under_base(base: Seq<char>, rel: Seq<char>, windows: bool)
    requires
        stays_inside(rel, windows),
    ensures
        base.is_prefix_of(spec_join(base, rel)),
        spec_join(base, rel).subrange(
            spec_join(base, rel).len() - rel.len(),
            spec_join(base, rel).len() as int,
        ) == rel,
{
    let j = spec_join(base, rel);
    if base.len() == 0 {
        assert(j.subrange(0, j.len() as int) =~= rel);
    } else if base.last() == '/' {
        assert(j.subrange(0, base.len() as int) =~= base);
        assert(j.subrange(base.len() as int, j.len() as int) =~= rel);
    } else {
        assert(j.subrange(0, base.len() as int) =~= base);
        assert(j.subrange(base.len() as int + 1, j.len() as int) =~= rel);
    }
}

/// The launcher's directories, all under `root`.
#[derive(Clone, Debug)]
pub struct Paths {
    pub root: String,
}


impl Paths {
    pub fn new(root: String) -> (p: Self)
        ensures
            p.root == root,
    {
        Self { root }
    }

    /// `<root>/settings.json`
    pub fn settings(&self) -> (p: String)
        ensures
            p@ == spec_join(self.root@, "settings.json"@),
    {
        join(self.root.as_str(), "settings.json")
    }

    /// `<root>/runtime`
    pub fn runtime(&self) -> (p: String)
        ensures
            p@ == spec_join(self.root@, "runtime"@),
    {
        join(self.root.as_str(), "runtime")
    }

    /// `<root>/minecraft`
    pub fn minecraft(&self) -> (p: String)
        ensures
            p@ == spec_join(self.root@, "minecraft"@),
    {
        join(self.root.as_str(), "minecraft")
    }

    /// `<root>/minecraft/versions`
    pub fn versions(&self) -> (p: String)
        ensures
            p@ == spec_join(spec_join(self.root@, "minecraft"@), "versions"@),
    {
        join(self.minecraft().as_str(), "versions")
    }

    /// `<root>/minecraft/libraries`
    pub fn libraries(&self) -> (p: String)
        ensures
            p@ == spec_join(spec_join(self.root@, "minecraft"@), "libraries"@),
    {
        join(self.minecraft().as_str(), "libraries")
    }

    /// `<root>/minecraft/assets`
    pub fn assets(&self) -> (p: String)
        ensures
            p@ == spec_join(spec_join(self.root@, "minecraft"@), "assets"@),
    {
        join(self.minecraft().as_str(), "assets")
    }

    /// `<root>/instance`
    pub fn instance(&self) -> (p: String)
        ensures
            p@ == spec_join(self.root@, "instance"@),
    {
        join(self.root.as_str(), "instance")
    }

    /// `<root>/instance/natives`
    pub fn natives(&self) -> (p: String)
        ensures
            p@ == spec_join(spec_join(self.root@, "instance"@), "natives"@),
    {
        join(self.instance().as_str(), "natives")
    }

    /// `<root>/tools`
    pub fn tools(&self) -> (p: String)
        ensures
            p@ == spec_join(self.root@, "tools"@),
    {
        join(self.root.as_str(), "tools")
    }
}

} // verus!
