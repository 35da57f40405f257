//! Where the game keeps its files, and where the project keeps them.

use vstd::prelude::*;
use crate::path::{join, join_path};

verus! {

/// The directory of the version `version` below the game's root.
pub open spec fn version_dir(game_root: Seq<char>, version: Seq<char>) -> Seq<char> {
    join(join(game_root, "versions"@), version)
}

/// The descriptor of the version `version` below the game's root:
/// `versions/<version>/<version>.json`.
pub open spec fn version_json(game_root: Seq<char>, version: Seq<char>) -> Seq<char> {
    join(version_dir(game_root, version), version + ".json"@)
}

/// The name of the game's own archive for the version `version`:
/// `<version>.jar`.
pub open spec fn client_jar(version: Seq<char>) -> Seq<char> {
    version + ".jar"@
}

/// The game's own archive for the version `version` below the game's root:
/// `versions/<version>/<version>.jar`.
pub open spec fn version_jar(game_root: Seq<char>, version: Seq<char>) -> Seq<char> {
    join(version_dir(game_root, version), client_jar(version))
}

/// The asset index `id` below `root`: `assets/indexes/<id>.json`.
pub open spec fn asset_index_file(root: Seq<char>, id: Seq<char>) -> Seq<char> {
    join(join(join(root, "assets"@), "indexes"@), id + ".json"@)
}

/// The directory of the asset indexes below `root`: `assets/indexes`.
pub open spec fn asset_indexes_root(root: Seq<char>) -> Seq<char> {
    join(join(root, "assets"@), "indexes"@)
}

/// The directory of the asset objects below `root`: `assets/objects`.
pub open spec fn asset_objects_root(root: Seq<char>) -> Seq<char> {
    join(join(root, "assets"@), "objects"@)
}

/// The directory of the libraries below `root`: `libraries`.
pub open spec fn libraries_root(root: Seq<char>) -> Seq<char> {
    join(root, "libraries"@)
}

/// The directory below the project `project` in which the game runs, and
/// which holds its assets and libraries as the game's root does: `runs`.
pub open spec fn runs_root(project: Seq<char>) -> Seq<char> {
    join(project, "runs"@)
}

fn with_extension(name: &str, extension: &str) -> (file: String)
    ensures
        file@ == name@ + extension@,
{
    let mut file = name.to_owned();
    file.append(extension);
    file
}

/// The path of [`version_json`].
pub fn version_json_path(game_root: &str, version: &str) -> (path: String)
    ensures
        path@ == version_json(game_root@, version@),
{
    let versions = join_path(game_root, "versions");
    let dir = join_path(versions.as_str(), version);
    let file = with_extension(version, ".json");
    join_path(dir.as_str(), file.as_str())
}

/// The name of [`client_jar`].
pub fn client_jar_name(version: &str) -> (name: String)
    ensures
        name@ == client_jar(version@),
{
    with_extension(version, ".jar")
}

/// The path of [`version_jar`].
pub fn version_jar_path(game_root: &str, version: &str) -> (path: String)
    ensures
        path@ == version_jar(game_root@, version@),
{
    let versions = join_path(game_root, "versions");
    let dir = join_path(versions.as_str(), version);
    let file = client_jar_name(version);
    join_path(dir.as_str(), file.as_str())
}

/// The path of [`asset_indexes_root`].
pub fn asset_indexes_path(root: &str) -> (path: String)
    ensures
        path@ == asset_indexes_root(root@),
{
    let assets = join_path(root, "assets");
    join_path(assets.as_str(), "indexes")
}

/// The path of [`asset_index_file`].
pub fn asset_index_path(root: &str, id: &str) -> (path: String)
    ensures
        path@ == asset_index_file(root@, id@),
{
    let indexes = asset_indexes_path(root);
    let file = with_extension(id, ".json");
    join_path(indexes.as_str(), file.as_str())
}

/// The path of [`asset_objects_root`].
pub fn asset_objects_path(root: &str) -> (path: String)
    ensures
        path@ == asset_objects_root(root@),
{
    let assets = join_path(root, "assets");
    join_path(assets.as_str(), "objects")
}

/// The path of [`libraries_root`].
pub fn libraries_path(root: &str) -> (path: String)
    ensures
        path@ == libraries_root(root@),
{
    join_path(root, "libraries")
}

/// The path of [`runs_root`].
pub fn runs_path(project: &str) -> (path: String)
    ensures
        path@ == runs_root(project@),
{
    join_path(project, "runs")
}

} // verus!
