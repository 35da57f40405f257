use mc_gradle_builder::libraries::{
    build_library_copy_plan, artifacts_are_named, is_present, select_natives,
    try_build_library_copy_plan, wanted_paths, LibraryOp,
};
use mc_gradle_builder::platform::OS;
use mc_gradle_builder::version::{Classifiers, DownloadIndex, LibraryIndex, VersionJSON};

fn file(path: &str) -> Option<DownloadIndex> {
    Some(DownloadIndex { path: path.to_string() })
}

fn with_artifact(path: &str) -> LibraryIndex {
    LibraryIndex { artifact: file(path), classifiers: None }
}

fn with_natives(linux: Option<&str>, windows: Option<&str>, osx: Option<&str>) -> LibraryIndex {
    LibraryIndex {
        artifact: None,
        classifiers: Some(Classifiers {
            linux: linux.and_then(file),
            windows: windows.and_then(file),
            osx: osx.and_then(file),
        }),
    }
}

fn store(paths: &[&str]) -> Vec<String> {
    paths.iter().map(|path| path.to_string()).collect()
}

#[test]
fn natives_are_selected_by_operating_system() {
    let entry = with_natives(Some("l.jar"), Some("w.jar"), Some("o.jar"));
    assert_eq!(select_natives(&entry, OS::Linux), file("l.jar").as_ref());
    assert_eq!(select_natives(&entry, OS::Windows), file("w.jar").as_ref());
    assert_eq!(select_natives(&entry, OS::OSX), file("o.jar").as_ref());
}

#[test]
fn a_missing_bundle_is_not_selected() {
    let entry = with_natives(Some("l.jar"), None, None);
    assert_eq!(select_natives(&entry, OS::Windows), None);
    assert_eq!(select_natives(&entry, OS::OSX), None);
    assert_eq!(select_natives(&with_artifact("a.jar"), OS::Linux), None);
}

#[test]
fn one_artifact_gives_one_copy_under_its_file_name() {
    let version = VersionJSON::new(
        "{\"assetIndex\": {\"id\": \"17\"}, \"javaVersion\": {\"majorVersion\": 17},
          \"libraries\": [{\"downloads\": {\"artifact\": {\"path\": \"com/foo/foo-1.0.jar\"}}}]}",
    )
    .unwrap();
    let present = store(&["com/foo/foo-1.0.jar"]);
    let plan = build_library_copy_plan(
        &version.libraries,
        OS::Linux,
        "/g/libraries",
        "runs/libraries",
        &present,
    );
    assert_eq!(
        plan,
        vec![LibraryOp::CopyFile {
            from: "/g/libraries/com/foo/foo-1.0.jar".to_string(),
            to: "runs/libraries/foo-1.0.jar".to_string(),
        }]
    );
}

#[test]
fn a_bundle_for_the_host_gives_one_extraction() {
    let libraries = vec![with_natives(Some("n/l.jar"), Some("n/w.jar"), None)];
    let present = store(&["n/l.jar", "n/w.jar"]);
    assert_eq!(
        build_library_copy_plan(
            &libraries,
            OS::Windows,
            "/g/libraries",
            "runs/libraries",
            &present
        ),
        vec![LibraryOp::ExtractArchive {
            archive: "/g/libraries/n/w.jar".to_string(),
            dest_dir: "runs/libraries".to_string(),
        }]
    );
    assert_eq!(
        build_library_copy_plan(&libraries, OS::OSX, "/g/libraries", "runs/libraries", &present),
        vec![]
    );
}

#[test]
fn what_the_store_does_not_hold_takes_no_step() {
    let libraries = vec![
        with_artifact("a/a.jar"),
        with_natives(Some("n/l.jar"), None, None),
        with_artifact("b/b.jar"),
    ];
    assert_eq!(build_library_copy_plan(&libraries, OS::Linux, "src", "dst", &store(&[])), vec![]);
    assert_eq!(
        build_library_copy_plan(&libraries, OS::Linux, "src", "dst", &store(&["b/b.jar"])),
        vec![LibraryOp::CopyFile { from: "src/b/b.jar".to_string(), to: "dst/b.jar".to_string() }]
    );
}

#[test]
fn the_steps_follow_the_order_of_the_libraries() {
    let libraries = vec![
        with_artifact("a/a.jar"),
        with_natives(Some("n/l.jar"), None, None),
        with_artifact("b/b.jar"),
    ];
    let present = store(&["b/b.jar", "n/l.jar", "a/a.jar"]);
    assert_eq!(
        build_library_copy_plan(&libraries, OS::Linux, "src", "dst", &present),
        vec![
            LibraryOp::CopyFile { from: "src/a/a.jar".to_string(), to: "dst/a.jar".to_string() },
            LibraryOp::ExtractArchive {
                archive: "src/n/l.jar".to_string(),
                dest_dir: "dst".to_string(),
            },
            LibraryOp::CopyFile { from: "src/b/b.jar".to_string(), to: "dst/b.jar".to_string() },
        ]
    );
}

#[test]
fn a_library_with_both_gives_the_copy_before_the_extraction() {
    let both = LibraryIndex {
        artifact: file("a/a.jar"),
        classifiers: Some(Classifiers { linux: file("n/l.jar"), windows: None, osx: None }),
    };
    let present = store(&["a/a.jar", "n/l.jar"]);
    assert_eq!(
        build_library_copy_plan(&vec![both], OS::Linux, "src", "dst", &present),
        vec![
            LibraryOp::CopyFile { from: "src/a/a.jar".to_string(), to: "dst/a.jar".to_string() },
            LibraryOp::ExtractArchive {
                archive: "src/n/l.jar".to_string(),
                dest_dir: "dst".to_string(),
            },
        ]
    );
}

#[test]
fn two_artifacts_of_one_name_land_on_one_file() {
    let libraries = vec![with_artifact("a/x.jar"), with_artifact("b/x.jar")];
    let present = store(&["a/x.jar", "b/x.jar"]);
    assert_eq!(
        build_library_copy_plan(&libraries, OS::Linux, "src", "dst", &present),
        vec![
            LibraryOp::CopyFile { from: "src/a/x.jar".to_string(), to: "dst/x.jar".to_string() },
            LibraryOp::CopyFile { from: "src/b/x.jar".to_string(), to: "dst/x.jar".to_string() },
        ]
    );
}

#[test]
fn the_same_descriptor_gives_the_same_plan() {
    let json = "{\"assetIndex\": {\"id\": \"17\"}, \"javaVersion\": {\"majorVersion\": 17},
        \"libraries\": [
            {\"downloads\": {\"artifact\": {\"path\": \"a/a.jar\"}}},
            {\"downloads\": {\"classifiers\": {\"natives-linux\": {\"path\": \"n/l.jar\"}}}}]}";
    let present = store(&["a/a.jar", "n/l.jar"]);
    let first = VersionJSON::new(json).unwrap();
    let second = VersionJSON::new(json).unwrap();
    assert_eq!(first, second);
    let first_plan = build_library_copy_plan(&first.libraries, OS::Linux, "src", "dst", &present);
    let second_plan = build_library_copy_plan(&second.libraries, OS::Linux, "src", "dst", &present);
    assert_eq!(first_plan.len(), 2);
    assert_eq!(first_plan, second_plan);
}

#[test]
fn the_wanted_paths_are_the_artifacts_and_the_bundles_of_the_host() {
    let libraries = vec![
        with_artifact("a/a.jar"),
        with_natives(Some("n/l.jar"), Some("n/w.jar"), None),
        with_natives(None, Some("m/w.jar"), None),
    ];
    assert_eq!(wanted_paths(&libraries, OS::Linux), store(&["a/a.jar", "n/l.jar"]));
    assert_eq!(wanted_paths(&libraries, OS::Windows), store(&["a/a.jar", "n/w.jar", "m/w.jar"]));
    assert_eq!(wanted_paths(&libraries, OS::OSX), store(&["a/a.jar"]));
    assert_eq!(wanted_paths(&vec![], OS::OSX), store(&[]));
}

#[test]
fn presence_is_membership() {
    let present = store(&["a", "b/c"]);
    assert!(is_present(&present, &"a".to_string()));
    assert!(is_present(&present, &"b/c".to_string()));
    assert!(!is_present(&present, &"b".to_string()));
    assert!(!is_present(&store(&[]), &"a".to_string()));
}

#[test]
fn an_artifact_without_a_file_name_stops_the_plan_where_the_store_holds_it() {
    let libraries = vec![with_artifact("a/a.jar"), with_artifact("a/..")];
    assert!(artifacts_are_named(&libraries, &store(&["a/a.jar"])));
    assert!(!artifacts_are_named(&libraries, &store(&["a/.."])));
    assert_eq!(
        try_build_library_copy_plan(&libraries, OS::Linux, "src", "dst", &store(&["a/.."])),
        None
    );
    assert_eq!(
        try_build_library_copy_plan(&libraries, OS::Linux, "src", "dst", &store(&["a/a.jar"])),
        Some(vec![LibraryOp::CopyFile {
            from: "src/a/a.jar".to_string(),
            to: "dst/a.jar".to_string(),
        }])
    );
}

#[test]
fn a_bundle_needs_no_file_name() {
    let libraries = vec![with_natives(Some(""), None, None)];
    assert!(artifacts_are_named(&libraries, &store(&[""])));
    assert_eq!(
        try_build_library_copy_plan(&libraries, OS::Linux, "src", "dst", &store(&[""])),
        Some(vec![LibraryOp::ExtractArchive {
            archive: "src/".to_string(),
            dest_dir: "dst".to_string(),
        }])
    );
}
