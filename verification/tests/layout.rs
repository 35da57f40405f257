use mc_gradle_builder::layout::{
    asset_index_path, asset_indexes_path, asset_objects_path, client_jar_name, libraries_path,
    runs_path, version_jar_path, version_json_path,
};

#[test]
fn the_files_of_a_version_stand_in_its_directory() {
    assert_eq!(
        version_json_path("/home/u/.minecraft", "1.18.2"),
        "/home/u/.minecraft/versions/1.18.2/1.18.2.json"
    );
    assert_eq!(
        version_jar_path("/home/u/.minecraft", "1.18.2"),
        "/home/u/.minecraft/versions/1.18.2/1.18.2.jar"
    );
    assert_eq!(client_jar_name("1.18.2"), "1.18.2.jar");
}

#[test]
fn the_assets_of_the_game() {
    assert_eq!(asset_indexes_path("/g"), "/g/assets/indexes");
    assert_eq!(asset_index_path("/g", "17"), "/g/assets/indexes/17.json");
    assert_eq!(asset_objects_path("/g"), "/g/assets/objects");
    assert_eq!(libraries_path("/g"), "/g/libraries");
}

#[test]
fn the_tree_of_a_project_mirrors_the_game() {
    let runs = runs_path("");
    assert_eq!(runs, "runs");
    assert_eq!(asset_indexes_path(&runs), "runs/assets/indexes");
    assert_eq!(asset_index_path(&runs, "17"), "runs/assets/indexes/17.json");
    assert_eq!(asset_objects_path(&runs), "runs/assets/objects");
    assert_eq!(libraries_path(&runs), "runs/libraries");
    assert_eq!(runs_path("/work/project"), "/work/project/runs");
}
