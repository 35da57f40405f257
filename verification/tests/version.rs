use mc_gradle_builder::document::{Document, Member};
use mc_gradle_builder::error::{Error, Field};
use mc_gradle_builder::platform::OS;
use mc_gradle_builder::version::{
    object_to_download_index, parse_library, parse_version_descriptor, AssetIndex, Classifiers,
    DownloadIndex, LibraryIndex, VersionJSON,
};

fn text(value: &str) -> Document {
    Document::Text(value.to_string())
}

fn object(members: Vec<(&str, Document)>) -> Document {
    Document::Object(
        members.into_iter().map(|(key, value)| Member { key: key.to_string(), value }).collect(),
    )
}

fn members(members: Vec<(&str, Document)>) -> Vec<Member> {
    members.into_iter().map(|(key, value)| Member { key: key.to_string(), value }).collect()
}

fn download(path: &str) -> DownloadIndex {
    DownloadIndex { path: path.to_string() }
}

fn descriptor(libraries: Document) -> Document {
    object(vec![
        ("assetIndex", object(vec![("id", text("17"))])),
        ("javaVersion", object(vec![("majorVersion", Document::Number(Some(17)))])),
        ("libraries", libraries),
    ])
}

fn artifact_library(path: &str) -> Document {
    object(vec![("downloads", object(vec![("artifact", object(vec![("path", text(path))]))]))])
}

#[test]
fn a_descriptor_with_one_artifact() {
    let raw = descriptor(Document::Array(vec![artifact_library("com/foo/foo-1.0.jar")]));
    assert_eq!(
        parse_version_descriptor(&raw),
        Ok(VersionJSON {
            asset_index: AssetIndex { id: "17".to_string() },
            java_version: 17,
            libraries: vec![LibraryIndex {
                artifact: Some(download("com/foo/foo-1.0.jar")),
                classifiers: None,
            }],
        })
    );
}

#[test]
fn a_descriptor_without_libraries_in_its_array() {
    let parsed = parse_version_descriptor(&descriptor(Document::Array(vec![]))).unwrap();
    assert_eq!(parsed.libraries, vec![]);
    assert_eq!(parsed.java_version, 17);
    assert_eq!(parsed.asset_index.id, "17");
}

#[test]
fn the_text_of_a_descriptor_is_read_as_json() {
    let json = "{\"assetIndex\": {\"id\": \"1.18\", \"sha1\": \"x\"},
        \"javaVersion\": {\"component\": \"java-runtime-beta\", \"majorVersion\": 17},
        \"id\": \"1.18.2\",
        \"libraries\": [
            {\"name\": \"a\", \"downloads\": {\"artifact\": {\"path\": \"a/a.jar\", \"size\": 3}}},
            {\"downloads\": {\"classifiers\": {
                \"natives-linux\": {\"path\": \"n/n-linux.jar\"},
                \"natives-osx\": {\"path\": \"n/n-osx.jar\"}}}}
        ]}";
    assert_eq!(
        VersionJSON::new(json),
        Ok(VersionJSON {
            asset_index: AssetIndex { id: "1.18".to_string() },
            java_version: 17,
            libraries: vec![
                LibraryIndex { artifact: Some(download("a/a.jar")), classifiers: None },
                LibraryIndex {
                    artifact: None,
                    classifiers: Some(Classifiers {
                        linux: Some(download("n/n-linux.jar")),
                        windows: None,
                        osx: Some(download("n/n-osx.jar")),
                    }),
                },
            ],
        })
    );
}

#[test]
fn a_text_that_is_not_json_is_no_descriptor() {
    assert_eq!(VersionJSON::new("not json"), Err(Error::MalformedDescriptor(Field::Root)));
    assert_eq!(VersionJSON::new(""), Err(Error::MalformedDescriptor(Field::Root)));
}

#[test]
fn a_descriptor_that_is_no_object_is_malformed() {
    assert_eq!(VersionJSON::new("[]"), Err(Error::MalformedDescriptor(Field::Root)));
    assert_eq!(
        parse_version_descriptor(&Document::Null),
        Err(Error::MalformedDescriptor(Field::Root))
    );
}

#[test]
fn classifiers_take_priority_over_an_artifact() {
    let library = object(vec![(
        "downloads",
        object(vec![
            ("artifact", object(vec![("path", text("a/a.jar"))])),
            (
                "classifiers",
                object(vec![("natives-windows", object(vec![("path", text("n/w.jar"))]))]),
            ),
        ]),
    )]);
    assert_eq!(
        parse_library(&library, 0),
        Ok(LibraryIndex {
            artifact: None,
            classifiers: Some(Classifiers {
                linux: None,
                windows: Some(download("n/w.jar")),
                osx: None,
            }),
        })
    );
}

#[test]
fn classifiers_take_priority_even_where_the_artifact_is_broken() {
    let library = object(vec![(
        "downloads",
        object(vec![("artifact", Document::Null), ("classifiers", object(vec![]))]),
    )]);
    assert_eq!(
        parse_library(&library, 0),
        Ok(LibraryIndex {
            artifact: None,
            classifiers: Some(Classifiers { linux: None, windows: None, osx: None }),
        })
    );
}

#[test]
fn all_three_bundles_are_read() {
    let library = object(vec![(
        "downloads",
        object(vec![(
            "classifiers",
            object(vec![
                ("natives-osx", object(vec![("path", text("o"))])),
                ("natives-linux", object(vec![("path", text("l"))])),
                ("natives-windows", object(vec![("path", text("w"))])),
                ("sources", object(vec![])),
            ]),
        )]),
    )]);
    assert_eq!(
        parse_library(&library, 0),
        Ok(LibraryIndex {
            artifact: None,
            classifiers: Some(Classifiers {
                linux: Some(download("l")),
                windows: Some(download("w")),
                osx: Some(download("o")),
            }),
        })
    );
}

#[test]
fn missing_major_version_is_malformed() {
    let raw = object(vec![
        ("assetIndex", object(vec![("id", text("17"))])),
        ("javaVersion", object(vec![("component", text("jre"))])),
        ("libraries", Document::Array(vec![])),
    ]);
    assert_eq!(
        parse_version_descriptor(&raw),
        Err(Error::MalformedDescriptor(Field::JavaMajorVersion))
    );
    assert_eq!(
        VersionJSON::new(
            "{\"assetIndex\": {\"id\": \"17\"}, \"javaVersion\": {}, \"libraries\": []}"
        ),
        Err(Error::MalformedDescriptor(Field::JavaMajorVersion))
    );
}

#[test]
fn a_major_version_that_is_no_positive_integer_is_malformed() {
    for major in [
        Document::Number(None),
        Document::Number(Some(0)),
        text("17"),
        Document::Null,
    ] {
        let raw = object(vec![
            ("assetIndex", object(vec![("id", text("17"))])),
            ("javaVersion", object(vec![("majorVersion", major)])),
            ("libraries", Document::Array(vec![])),
        ]);
        assert_eq!(
            parse_version_descriptor(&raw),
            Err(Error::MalformedDescriptor(Field::JavaMajorVersion))
        );
    }
    assert_eq!(
        VersionJSON::new(
            "{\"assetIndex\": {\"id\": \"17\"}, \"javaVersion\": {\"majorVersion\": -8},
              \"libraries\": []}"
        ),
        Err(Error::MalformedDescriptor(Field::JavaMajorVersion))
    );
}

#[test]
fn a_missing_java_version_is_malformed() {
    let raw = object(vec![
        ("assetIndex", object(vec![("id", text("17"))])),
        ("libraries", Document::Array(vec![])),
    ]);
    assert_eq!(parse_version_descriptor(&raw), Err(Error::MalformedDescriptor(Field::JavaVersion)));
    let raw = object(vec![
        ("assetIndex", object(vec![("id", text("17"))])),
        ("javaVersion", Document::Number(Some(17))),
        ("libraries", Document::Array(vec![])),
    ]);
    assert_eq!(parse_version_descriptor(&raw), Err(Error::MalformedDescriptor(Field::JavaVersion)));
}

#[test]
fn a_missing_asset_index_is_malformed() {
    assert_eq!(
        parse_version_descriptor(&object(vec![])),
        Err(Error::MalformedDescriptor(Field::AssetIndex))
    );
    let raw = object(vec![("assetIndex", text("17"))]);
    assert_eq!(parse_version_descriptor(&raw), Err(Error::MalformedDescriptor(Field::AssetIndex)));
}

#[test]
fn an_asset_index_without_a_name_is_malformed() {
    for id in [None, Some(text("")), Some(Document::Number(Some(17)))] {
        let asset_index = match id {
            Some(id) => object(vec![("id", id)]),
            None => object(vec![]),
        };
        let raw = object(vec![
            ("assetIndex", asset_index),
            ("javaVersion", object(vec![("majorVersion", Document::Number(Some(17)))])),
            ("libraries", Document::Array(vec![])),
        ]);
        assert_eq!(
            parse_version_descriptor(&raw),
            Err(Error::MalformedDescriptor(Field::AssetIndexId))
        );
    }
}

#[test]
fn missing_libraries_are_malformed() {
    let raw = object(vec![
        ("assetIndex", object(vec![("id", text("17"))])),
        ("javaVersion", object(vec![("majorVersion", Document::Number(Some(17)))])),
    ]);
    assert_eq!(parse_version_descriptor(&raw), Err(Error::MalformedDescriptor(Field::Libraries)));
    assert_eq!(
        parse_version_descriptor(&descriptor(object(vec![]))),
        Err(Error::MalformedDescriptor(Field::Libraries))
    );
}

#[test]
fn the_fields_are_read_in_order() {
    let raw = object(vec![("libraries", Document::Null), ("javaVersion", Document::Null)]);
    assert_eq!(parse_version_descriptor(&raw), Err(Error::MalformedDescriptor(Field::AssetIndex)));
    let raw = object(vec![
        ("libraries", Document::Null),
        ("javaVersion", Document::Null),
        ("assetIndex", object(vec![("id", text("x"))])),
    ]);
    assert_eq!(parse_version_descriptor(&raw), Err(Error::MalformedDescriptor(Field::JavaVersion)));
}

#[test]
fn a_library_with_neither_artifact_nor_classifiers_is_malformed() {
    let library = object(vec![("downloads", object(vec![]))]);
    assert_eq!(parse_library(&library, 0), Err(Error::MalformedLibraryEntry));
    let raw = descriptor(Document::Array(vec![artifact_library("a.jar"), library]));
    assert_eq!(parse_version_descriptor(&raw), Err(Error::MalformedLibraryEntry));
}

#[test]
fn a_library_that_is_no_object_is_malformed() {
    assert_eq!(
        parse_library(&Document::Null, 3),
        Err(Error::MalformedDescriptor(Field::Library(3)))
    );
    let raw = descriptor(Document::Array(vec![artifact_library("a.jar"), text("b")]));
    assert_eq!(parse_version_descriptor(&raw), Err(Error::MalformedDescriptor(Field::Library(1))));
}

#[test]
fn a_library_without_downloads_is_malformed() {
    assert_eq!(
        parse_library(&object(vec![("name", text("a"))]), 2),
        Err(Error::MalformedDescriptor(Field::Downloads(2)))
    );
    assert_eq!(
        parse_library(&object(vec![("downloads", Document::Array(vec![]))]), 2),
        Err(Error::MalformedDescriptor(Field::Downloads(2)))
    );
}

#[test]
fn an_artifact_that_is_no_object_is_malformed() {
    let library = object(vec![("downloads", object(vec![("artifact", text("a.jar"))]))]);
    assert_eq!(parse_library(&library, 4), Err(Error::MalformedDescriptor(Field::Artifact(4))));
}

#[test]
fn classifiers_that_are_no_object_are_malformed() {
    let library = object(vec![("downloads", object(vec![("classifiers", Document::Null)]))]);
    assert_eq!(parse_library(&library, 5), Err(Error::MalformedDescriptor(Field::Classifiers(5))));
}

#[test]
fn a_bundle_that_is_no_object_is_malformed() {
    let library = object(vec![(
        "downloads",
        object(vec![("classifiers", object(vec![("natives-osx", text("o.jar"))]))]),
    )]);
    assert_eq!(
        parse_library(&library, 6),
        Err(Error::MalformedDescriptor(Field::Natives(6, OS::OSX)))
    );
}

#[test]
fn the_first_broken_library_decides() {
    let raw = descriptor(Document::Array(vec![
        artifact_library("a.jar"),
        object(vec![]),
        Document::Null,
    ]));
    assert_eq!(
        parse_version_descriptor(&raw),
        Err(Error::MalformedDescriptor(Field::Downloads(1)))
    );
}

#[test]
fn a_download_without_a_path_is_refused() {
    assert_eq!(object_to_download_index(&members(vec![])), Err(Error::MissingDownloadPath));
    assert_eq!(
        object_to_download_index(&members(vec![("url", text("http://x"))])),
        Err(Error::MissingDownloadPath)
    );
    assert_eq!(
        object_to_download_index(&members(vec![("path", Document::Number(Some(1)))])),
        Err(Error::MissingDownloadPath)
    );
}

#[test]
fn an_absolute_path_is_no_path_of_a_download() {
    assert_eq!(
        object_to_download_index(&members(vec![("path", text("/etc/passwd"))])),
        Err(Error::MissingDownloadPath)
    );
    assert_eq!(
        object_to_download_index(&members(vec![("path", text("/"))])),
        Err(Error::MissingDownloadPath)
    );
}

#[test]
fn a_path_with_a_parent_component_is_no_path_of_a_download() {
    for path in ["..", "../a.jar", "a/../b.jar", "a/..", "a/b/../../../c", "a//.."] {
        assert_eq!(
            object_to_download_index(&members(vec![("path", text(path))])),
            Err(Error::MissingDownloadPath)
        );
    }
}

#[test]
fn dots_inside_a_component_are_no_parent() {
    for path in ["a/...", "..a/b.jar", "a../b.jar", "a/.b/c..jar", "./a.jar", "a/./b", ""] {
        assert_eq!(
            object_to_download_index(&members(vec![("path", text(path))])),
            Ok(download(path))
        );
    }
}

#[test]
fn a_path_that_leaves_the_store_fails_the_whole_descriptor() {
    let raw = descriptor(Document::Array(vec![
        artifact_library("a/a.jar"),
        artifact_library("../outside.jar"),
    ]));
    assert_eq!(parse_version_descriptor(&raw), Err(Error::MissingDownloadPath));
    let raw = descriptor(Document::Array(vec![object(vec![(
        "downloads",
        object(vec![(
            "classifiers",
            object(vec![("natives-windows", object(vec![("path", text("/abs/w.jar"))]))]),
        )]),
    )])]));
    assert_eq!(parse_version_descriptor(&raw), Err(Error::MissingDownloadPath));
}

#[test]
fn a_download_is_its_path() {
    assert_eq!(
        object_to_download_index(&members(vec![("sha1", text("x")), ("path", text("a/b.jar"))])),
        Ok(download("a/b.jar"))
    );
}

#[test]
fn a_missing_path_fails_the_whole_descriptor() {
    let raw = descriptor(Document::Array(vec![object(vec![(
        "downloads",
        object(vec![("artifact", object(vec![]))]),
    )])]));
    assert_eq!(parse_version_descriptor(&raw), Err(Error::MissingDownloadPath));
    let raw = descriptor(Document::Array(vec![object(vec![(
        "downloads",
        object(vec![("classifiers", object(vec![("natives-linux", object(vec![]))]))]),
    )])]));
    assert_eq!(parse_version_descriptor(&raw), Err(Error::MissingDownloadPath));
}
