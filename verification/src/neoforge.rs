//! NeoForge: its official installer is run without interface
//! (`--install-client <dir>`), exactly as a player would with Mojang's
//! launcher. It writes `versions/neoforge-X/neoforge-X.json`, which
//! `minecraft::resolve_profile` merges with the vanilla version. Running it
//! happens outside the library; here are the names, paths and the reading of
//! its output.

use vstd::prelude::*;

use crate::net::{Download, DownloadSpec, HashSpec};
use crate::paths::{join, spec_join, Paths};
use crate::text::{contains, contains_str, starts_with, starts_with_str};

verus! {

/// The version id NeoForge's installer writes.
pub fn version_id(neoforge: &str) -> (r: String)
    ensures
        r@ == "neoforge-"@ + neoforge@,
{
    let mut r = "neoforge-".to_owned();
    r.append(neoforge);
    r
}

/// `<root>/minecraft/versions/<id>/.turicraft-installe`
pub open spec fn spec_done_marker(root: Seq<char>, id: Seq<char>) -> Seq<char> {
    spec_join(spec_join(spec_join(spec_join(root, "minecraft"@), "versions"@), id), ".turicraft-installe"@)
}

/// The marker lies beside the version file, in the version's directory,
/// and is not that file: both are that directory joined with a name, the
/// marker's holds no `/` (nor does the version file's, for an id without
/// `/`), and the two names differ.
pub proof fn lemma_done_marker_beside_version_json(root: Seq<char>, id: Seq<char>)
    ensures
        ({
            let dir = spec_join(spec_join(spec_join(root, "minecraft"@), "versions"@), id);
            &&& spec_done_marker(root, id) == spec_join(dir, ".turicraft-installe"@)
            &&& crate::minecraft::spec_version_json_path(root, id) == spec_join(dir, id + ".json"@)
            &&& !".turicraft-installe"@.contains('/')
            &&& !id.contains('/') ==> !(id + ".json"@).contains('/')
            &&& spec_done_marker(root, id) != crate::minecraft::spec_version_json_path(root, id)
        }),
{
    reveal_strlit(".turicraft-installe");
    reveal_strlit(".json");
    let dir = spec_join(spec_join(spec_join(root, "minecraft"@), "versions"@), id);
    let a = spec_join(dir, ".turicraft-installe"@);
    let b = spec_join(dir, id + ".json"@);
    assert(a.last() == 'e');
    assert((id + ".json"@).last() == 'n');
    assert(b.last() == 'n');
    assert(!".turicraft-installe"@.contains('/')) by {
        if ".turicraft-installe"@.contains('/') {
            let k = choose|k: int| 0 <= k < ".turicraft-installe"@.len() && ".turicraft-installe"@[k] == '/';
        }
    }
    if !id.contains('/') {
        assert forall|k: int| 0 <= k < (id + ".json"@).len() implies (id + ".json"@)[k] != '/' by {
            if k < id.len() {
                assert((id + ".json"@)[k] == id[k]);
                assert(!(id[k] == '/') || id.contains('/'));
            }
        }
    }
}

/// Written once the installer finished without error. `is_installed` is
/// not enough: the installer writes the version file and the libraries
/// first, then makes the patched game, which is NOT among the libraries;
/// stopped during that step, everything looked installed and the game no
/// longer started. Without the marker the installer runs again and keeps
/// what is already good.
pub fn done_marker(paths: &Paths, id: &str) -> (p: String)
    ensures
        p@ == spec_done_marker(paths.root@, id@),
{
    let dir = join(paths.versions().as_str(), id);
    join(dir.as_str(), ".turicraft-installe")
}

/// The installer of NeoForge `neoforge`, from NeoForge's Maven repository,
/// into the tools directory (unchecked: the repository gives no digest to
/// compare with here).
pub open spec fn spec_installer_download(root: Seq<char>, neoforge: Seq<char>) -> DownloadSpec {
    DownloadSpec {
        url: "https://maven.neoforged.net/releases/net/neoforged/neoforge/"@ + neoforge + "/neoforge-"@ + neoforge
            + "-installer.jar"@,
        path: spec_join(spec_join(root, "tools"@), "neoforge-"@ + neoforge + "-installer.jar"@),
        hash: HashSpec::Unchecked,
        size: None,
        executable: false,
    }
}

pub fn installer_download(paths: &Paths, neoforge: &str) -> (d: Download)
    ensures
        d@ == spec_installer_download(paths.root@, neoforge@),
{
    let mut url = "https://maven.neoforged.net/releases/net/neoforged/neoforge/".to_owned();
    url.append(neoforge);
    url.append("/neoforge-");
    url.append(neoforge);
    url.append("-installer.jar");
    let mut file = "neoforge-".to_owned();
    file.append(neoforge);
    file.append("-installer.jar");
    let path = join(paths.tools().as_str(), file.as_str());
    Download { url, path, hash: crate::net::Hash::Unchecked, size: None, executable: false }
}

/// What the installer needs to find in the Minecraft directory, or it
/// believes it is not a Minecraft installation.
pub fn launcher_profiles_stub() -> (s: &'static str)
    ensures
        s@ == "{\"profiles\":{}}"@,
{
    "{\"profiles\":{}}"
}

/// The installer's steps worth showing: processors, library downloads,
/// tasks. The rest only goes to the kept end of its output.
pub open spec fn installer_step(line: Seq<char>) -> bool {
    starts_with(line, "  Processor"@) || contains(line, "Downloading library"@) || starts_with(line, "Task:"@)
}

pub fn is_installer_step(line: &str) -> (r: bool)
    ensures
        r == installer_step(line@),
{
    starts_with_str(line, "  Processor") || contains_str(line, "Downloading library") || starts_with_str(line, "Task:")
}

/// Keeps the last `max` lines of an output: `line` is added, and the
/// oldest dropped when there are more than `max`.
pub fn keep_tail(tail: &mut Vec<String>, line: String, max: usize)
    requires
        old(tail)@.len() <= max,
    ensures
        final(tail)@ == if old(tail)@.len() + 1 > max {
            old(tail)@.push(line).drop_first()
        } else {
            old(tail)@.push(line)
        },
        final(tail)@.len() <= max,
{
    tail.push(line);
    if tail.len() > max {
        tail.remove(0);
        assert(final(tail)@ =~= old(tail)@.push(line).drop_first());
    }
}

} // verus!
