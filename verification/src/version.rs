//! The descriptor of a version: what it holds, and how it is read.

use vstd::prelude::*;
use crate::document::{
    find_member, items_view, member, members_view, Document, DocumentView, Member, Members,
};
use crate::error::{agrees, Error, Field};
use crate::json::{json_document, read_document};
use crate::path::{is_contained, is_contained_path};
use crate::platform::OS;

verus! {

/// Which asset index a version uses.
#[derive(Clone, Debug, PartialEq, Eq)]
pub struct AssetIndex {
    pub id: String,
}

/// A file of the local store, by its path below the store's root.
#[derive(Clone, Debug, PartialEq, Eq)]
pub struct DownloadIndex {
    pub path: String,
}

/// The native bundles of a library, one for each operating system that has one.
#[derive(Clone, Debug, PartialEq, Eq)]
pub struct Classifiers {
    pub linux: Option<DownloadIndex>,
    pub windows: Option<DownloadIndex>,
    pub osx: Option<DownloadIndex>,
}

/// One library of a version: either a plain artifact or native bundles.
#[derive(Clone, Debug, PartialEq, Eq)]
pub struct LibraryIndex {
    pub artifact: Option<DownloadIndex>,
    pub classifiers: Option<Classifiers>,
}

/// What a version descriptor says of a version.
#[derive(Clone, Debug, PartialEq, Eq)]
pub struct VersionJSON {
    pub asset_index: AssetIndex,
    pub java_version: u64,
    pub libraries: Vec<LibraryIndex>,
}

/// The mathematical value of [`Classifiers`]: the path of each bundle.
pub struct ClassifiersView {
    pub linux: Option<Seq<char>>,
    pub windows: Option<Seq<char>>,
    pub osx: Option<Seq<char>>,
}

/// The mathematical value of a [`LibraryIndex`].
pub struct LibraryIndexView {
    pub artifact: Option<Seq<char>>,
    pub classifiers: Option<ClassifiersView>,
}

/// The mathematical value of a [`VersionJSON`].
pub struct VersionJSONView {
    pub asset_index: Seq<char>,
    pub java_version: u64,
    pub libraries: Seq<LibraryIndexView>,
}

impl DeepView for AssetIndex {
    type V = Seq<char>;

    open spec fn deep_view(&self) -> Seq<char> {
        self.id@
    }
}

impl DeepView for DownloadIndex {
    type V = Seq<char>;

    open spec fn deep_view(&self) -> Seq<char> {
        self.path@
    }
}

impl DeepView for Classifiers {
    type V = ClassifiersView;

    open spec fn deep_view(&self) -> ClassifiersView {
        ClassifiersView {
            linux: self.linux.deep_view(),
            windows: self.windows.deep_view(),
            osx: self.osx.deep_view(),
        }
    }
}

impl DeepView for LibraryIndex {
    type V = LibraryIndexView;

    open spec fn deep_view(&self) -> LibraryIndexView {
        LibraryIndexView {
            artifact: self.artifact.deep_view(),
            classifiers: self.classifiers.deep_view(),
        }
    }
}

impl DeepView for VersionJSON {
    type V = VersionJSONView;

    open spec fn deep_view(&self) -> VersionJSONView {
        VersionJSONView {
            asset_index: self.asset_index.deep_view(),
            java_version: self.java_version,
            libraries: self.libraries.deep_view(),
        }
    }
}

impl ClassifiersView {
    /// Every bundle stays below the store's root.
    pub open spec fn wf(self) -> bool {
        &&& self.linux matches Some(path) ==> is_contained(path)
        &&& self.windows matches Some(path) ==> is_contained(path)
        &&& self.osx matches Some(path) ==> is_contained(path)
    }

    /// The bundle for `os`, where there is one.
    pub open spec fn select(self, os: OS) -> Option<Seq<char>> {
        match os {
            OS::Linux => self.linux,
            OS::Windows => self.windows,
            OS::OSX => self.osx,
        }
    }
}

impl LibraryIndexView {
    /// A library offers an artifact or native bundles, never both, and
    /// whatever it offers stays below the store's root.
    pub open spec fn wf(self) -> bool {
        &&& !(self.artifact is Some && self.classifiers is Some)
        &&& self.artifact matches Some(path) ==> is_contained(path)
        &&& self.classifiers matches Some(classifiers) ==> classifiers.wf()
    }

    /// The native bundle of this library for `os`, where it has one.
    pub open spec fn natives(self, os: OS) -> Option<Seq<char>> {
        match self.classifiers {
            Some(classifiers) => classifiers.select(os),
            None => None,
        }
    }
}

impl VersionJSONView {
    /// The asset index has a name, the Java version is positive, and every
    /// library is well formed.
    pub open spec fn wf(self) -> bool {
        &&& self.asset_index.len() > 0
        &&& self.java_version > 0
        &&& forall|i: int| 0 <= i < self.libraries.len() ==> (#[trigger] self.libraries[i]).wf()
    }
}

/// The download that a download object describes: its `path`, which must be
/// a string that stays below the store's root. An absolute path, or one
/// with a `..` component, is no path of a download: an object with such a
/// `path` fails with `MissingDownloadPath`, as one without a `path` does.
pub open spec fn download_of(object: Members) -> Result<Seq<char>, Error> {
    match member(object, "path"@) {
        Some(DocumentView::Text(path)) if is_contained(path) => Ok(path),
        _ => Err(Error::MissingDownloadPath),
    }
}

/// The bundle that `classifiers` holds under `key`, if it has that key. What
/// stands under the key must be a download object.
pub open spec fn natives_of(classifiers: Members, key: Seq<char>, index: usize, os: OS) -> Result<
    Option<Seq<char>>,
    Error,
> {
    match member(classifiers, key) {
        None => Ok(None),
        Some(DocumentView::Object(object)) => match download_of(object) {
            Ok(path) => Ok(Some(path)),
            Err(e) => Err(e),
        },
        Some(_) => Err(Error::MalformedDescriptor(Field::Natives(index, os))),
    }
}

/// The bundles that `classifiers` holds, looked up for Linux, Windows and
/// macOS in that order; the first that fails decides the error.
pub open spec fn classifiers_of(classifiers: Members, index: usize) -> Result<
    ClassifiersView,
    Error,
> {
    match natives_of(classifiers, "natives-linux"@, index, OS::Linux) {
        Err(e) => Err(e),
        Ok(linux) => match natives_of(classifiers, "natives-windows"@, index, OS::Windows) {
            Err(e) => Err(e),
            Ok(windows) => match natives_of(classifiers, "natives-osx"@, index, OS::OSX) {
                Err(e) => Err(e),
                Ok(osx) => Ok(ClassifiersView { linux, windows, osx }),
            },
        },
    }
}

/// The library that a `downloads` object describes. Where it has
/// `classifiers`, they decide and an `artifact` beside them is not looked at;
/// else its `artifact` decides; with neither the entry is malformed.
pub open spec fn downloads_of(downloads: Members, index: usize) -> Result<LibraryIndexView, Error> {
    match member(downloads, "classifiers"@) {
        Some(DocumentView::Object(classifiers)) => match classifiers_of(classifiers, index) {
            Ok(found) => Ok(LibraryIndexView { artifact: None, classifiers: Some(found) }),
            Err(e) => Err(e),
        },
        Some(_) => Err(Error::MalformedDescriptor(Field::Classifiers(index))),
        None => match member(downloads, "artifact"@) {
            Some(DocumentView::Object(artifact)) => match download_of(artifact) {
                Ok(path) => Ok(LibraryIndexView { artifact: Some(path), classifiers: None }),
                Err(e) => Err(e),
            },
            Some(_) => Err(Error::MalformedDescriptor(Field::Artifact(index))),
            None => Err(Error::MalformedLibraryEntry),
        },
    }
}

/// The library that the item at `index` of `libraries` describes.
pub open spec fn library_of(item: DocumentView, index: usize) -> Result<LibraryIndexView, Error> {
    match item {
        DocumentView::Object(library) => match member(library, "downloads"@) {
            Some(DocumentView::Object(downloads)) => downloads_of(downloads, index),
            _ => Err(Error::MalformedDescriptor(Field::Downloads(index))),
        },
        _ => Err(Error::MalformedDescriptor(Field::Library(index))),
    }
}

/// The libraries that `items` describe, in order, or the error of the first
/// item that describes none.
pub open spec fn libraries_of(items: Seq<DocumentView>) -> Result<Seq<LibraryIndexView>, Error>
    decreases items.len(),
{
    if items.len() == 0 {
        Ok(Seq::empty())
    } else {
        match libraries_of(items.drop_last()) {
            Err(e) => Err(e),
            Ok(parsed) => match library_of(items.last(), (items.len() - 1) as usize) {
                Err(e) => Err(e),
                Ok(library) => Ok(parsed.push(library)),
            },
        }
    }
}

/// The name of the asset index that a descriptor with these members uses.
pub open spec fn asset_index_id_of(descriptor: Members) -> Result<Seq<char>, Error> {
    match member(descriptor, "assetIndex"@) {
        Some(DocumentView::Object(asset_index)) => match member(asset_index, "id"@) {
            Some(DocumentView::Text(id)) if id.len() > 0 => Ok(id),
            _ => Err(Error::MalformedDescriptor(Field::AssetIndexId)),
        },
        _ => Err(Error::MalformedDescriptor(Field::AssetIndex)),
    }
}

/// The major Java version that a descriptor with these members asks for.
pub open spec fn java_version_of(descriptor: Members) -> Result<u64, Error> {
    match member(descriptor, "javaVersion"@) {
        Some(DocumentView::Object(java_version)) => match member(java_version, "majorVersion"@) {
            Some(DocumentView::Number(Some(major))) if major > 0 => Ok(major),
            _ => Err(Error::MalformedDescriptor(Field::JavaMajorVersion)),
        },
        _ => Err(Error::MalformedDescriptor(Field::JavaVersion)),
    }
}

/// What a version descriptor says, or why it is no version descriptor. Its
/// fields are read in the order `assetIndex`, `javaVersion`, `libraries`, and
/// the first that fails decides the error.
pub open spec fn version_of(document: DocumentView) -> Result<VersionJSONView, Error> {
    match document {
        DocumentView::Object(descriptor) => match asset_index_id_of(descriptor) {
            Err(e) => Err(e),
            Ok(asset_index) => match java_version_of(descriptor) {
                Err(e) => Err(e),
                Ok(java_version) => match member(descriptor, "libraries"@) {
                    Some(DocumentView::Array(items)) => match libraries_of(items) {
                        Err(e) => Err(e),
                        Ok(libraries) => Ok(
                            VersionJSONView { asset_index, java_version, libraries },
                        ),
                    },
                    _ => Err(Error::MalformedDescriptor(Field::Libraries)),
                },
            },
        },
        _ => Err(Error::MalformedDescriptor(Field::Root)),
    }
}

/// What the text of a version descriptor says. A text that is not JSON fails
/// as a descriptor that is no object does.
pub open spec fn version_of_json(parsed: Option<DocumentView>) -> Result<VersionJSONView, Error> {
    match parsed {
        Some(document) => version_of(document),
        None => Err(Error::MalformedDescriptor(Field::Root)),
    }
}

/// Reads a download object: see [`download_of`]. The path of what it
/// returns stays below the store's root.
pub fn object_to_download_index(object: &Vec<Member>) -> (download: Result<DownloadIndex, Error>)
    ensures
        agrees(download, download_of(members_view(*object))),
        download matches Ok(d) ==> is_contained(d.path@),
{
    match find_member(object, "path") {
        Some(Document::Text(path)) => {
            if is_contained_path(path.as_str()) {
                Ok(DownloadIndex { path: path.clone() })
            } else {
                Err(Error::MissingDownloadPath)
            }
        },
        _ => Err(Error::MissingDownloadPath),
    }
}

fn parse_natives(classifiers: &Vec<Member>, key: &str, index: usize, os: OS) -> (natives: Result<
    Option<DownloadIndex>,
    Error,
>)
    ensures
        agrees(natives, natives_of(members_view(*classifiers), key@, index, os)),
{
    match find_member(classifiers, key) {
        None => Ok(None),
        Some(Document::Object(object)) => match object_to_download_index(object) {
            Ok(download) => Ok(Some(download)),
            Err(e) => Err(e),
        },
        Some(_) => Err(Error::MalformedDescriptor(Field::Natives(index, os))),
    }
}

fn parse_classifiers(classifiers: &Vec<Member>, index: usize) -> (parsed: Result<
    Classifiers,
    Error,
>)
    ensures
        agrees(parsed, classifiers_of(members_view(*classifiers), index)),
{
    let linux = match parse_natives(classifiers, "natives-linux", index, OS::Linux) {
        Ok(found) => found,
        Err(e) => return Err(e),
    };
    let windows = match parse_natives(classifiers, "natives-windows", index, OS::Windows) {
        Ok(found) => found,
        Err(e) => return Err(e),
    };
    let osx = match parse_natives(classifiers, "natives-osx", index, OS::OSX) {
        Ok(found) => found,
        Err(e) => return Err(e),
    };
    Ok(Classifiers { linux, windows, osx })
}

fn parse_downloads(downloads: &Vec<Member>, index: usize) -> (parsed: Result<LibraryIndex, Error>)
    ensures
        agrees(parsed, downloads_of(members_view(*downloads), index)),
{
    match find_member(downloads, "classifiers") {
        Some(Document::Object(classifiers)) => match parse_classifiers(classifiers, index) {
            Ok(found) => Ok(LibraryIndex { artifact: None, classifiers: Some(found) }),
            Err(e) => Err(e),
        },
        Some(_) => Err(Error::MalformedDescriptor(Field::Classifiers(index))),
        None => match find_member(downloads, "artifact") {
            Some(Document::Object(artifact)) => match object_to_download_index(artifact) {
                Ok(download) => Ok(LibraryIndex { artifact: Some(download), classifiers: None }),
                Err(e) => Err(e),
            },
            Some(_) => Err(Error::MalformedDescriptor(Field::Artifact(index))),
            None => Err(Error::MalformedLibraryEntry),
        },
    }
}

/// Reads the item at `index` of `libraries`: see [`library_of`].
pub fn parse_library(item: &Document, index: usize) -> (parsed: Result<LibraryIndex, Error>)
    ensures
        agrees(parsed, library_of(item.deep_view(), index)),
        parsed matches Ok(library) ==> library.deep_view().wf(),
{
    match item {
        Document::Object(library) => match find_member(library, "downloads") {
            Some(Document::Object(downloads)) => parse_downloads(downloads, index),
            _ => Err(Error::MalformedDescriptor(Field::Downloads(index))),
        },
        _ => Err(Error::MalformedDescriptor(Field::Library(index))),
    }
}

fn parse_libraries(items: &Vec<Document>) -> (parsed: Result<Vec<LibraryIndex>, Error>)
    ensures
        agrees(parsed, libraries_of(items_view(*items))),
        parsed matches Ok(libraries) ==> forall|i: int|
            0 <= i < libraries.len() ==> (#[trigger] libraries.deep_view()[i]).wf(),
{
    let ghost all = items_view(*items);
    let mut libraries: Vec<LibraryIndex> = Vec::new();
    let mut i: usize = 0;
    assert(libraries.deep_view() =~= Seq::empty());
    while i < items.len()
        invariant
            i <= items.len(),
            all == items_view(*items),
            libraries_of(all.take(i as int)) == Ok::<Seq<LibraryIndexView>, Error>(
                libraries.deep_view(),
            ),
            libraries.len() == i,
            forall|k: int| 0 <= k < libraries.len() ==> (#[trigger] libraries.deep_view()[k]).wf(),
        decreases items.len() - i,
    {
        assert(all.take(i + 1).drop_last() =~= all.take(i as int));
        match parse_library(&items[i], i) {
            Err(e) => {
                proof {
                    lemma_libraries_of_fails_on(all, i as int, all.len() as int);
                    assert(all.take(all.len() as int) =~= all);
                }
                return Err(e);
            },
            Ok(library) => {
                let ghost before = libraries.deep_view();
                libraries.push(library);
                assert(libraries.deep_view() =~= before.push(library.deep_view()));
            },
        }
        i += 1;
    }
    assert(all.take(i as int) =~= all);
    Ok(libraries)
}

/// Once an item fails, every longer run of items fails with its error.
proof fn lemma_libraries_of_fails_on(items: Seq<DocumentView>, failing: int, count: int)
    requires
        0 <= failing < count <= items.len(),
        libraries_of(items.take(failing)) is Ok,
        library_of(items[failing], failing as usize) is Err,
    ensures
        libraries_of(items.take(count)) == Err::<Seq<LibraryIndexView>, Error>(
            library_of(items[failing], failing as usize)->Err_0,
        ),
    decreases count,
{
    assert(items.take(count).drop_last() =~= items.take(count - 1));
    if count > failing + 1 {
        lemma_libraries_of_fails_on(items, failing, count - 1);
    }
}

fn parse_asset_index_id(descriptor: &Vec<Member>) -> (parsed: Result<AssetIndex, Error>)
    ensures
        agrees(parsed, asset_index_id_of(members_view(*descriptor))),
{
    match find_member(descriptor, "assetIndex") {
        Some(Document::Object(asset_index)) => match find_member(asset_index, "id") {
            Some(Document::Text(id)) => {
                if id.as_str().is_empty() {
                    Err(Error::MalformedDescriptor(Field::AssetIndexId))
                } else {
                    Ok(AssetIndex { id: id.clone() })
                }
            },
            _ => Err(Error::MalformedDescriptor(Field::AssetIndexId)),
        },
        _ => Err(Error::MalformedDescriptor(Field::AssetIndex)),
    }
}

fn parse_java_version(descriptor: &Vec<Member>) -> (parsed: Result<u64, Error>)
    ensures
        parsed == java_version_of(members_view(*descriptor)),
{
    match find_member(descriptor, "javaVersion") {
        Some(Document::Object(java_version)) => match find_member(java_version, "majorVersion") {
            Some(Document::Number(Some(major))) => {
                if *major > 0 {
                    Ok(*major)
                } else {
                    Err(Error::MalformedDescriptor(Field::JavaMajorVersion))
                }
            },
            _ => Err(Error::MalformedDescriptor(Field::JavaMajorVersion)),
        },
        _ => Err(Error::MalformedDescriptor(Field::JavaVersion)),
    }
}

/// Reads a version descriptor: see [`version_of`]. What it returns is well
/// formed.
pub fn parse_version_descriptor(raw: &Document) -> (parsed: Result<VersionJSON, Error>)
    ensures
        agrees(parsed, version_of(raw.deep_view())),
        parsed matches Ok(version) ==> version.deep_view().wf(),
{
    let descriptor = match raw {
        Document::Object(descriptor) => descriptor,
        _ => return Err(Error::MalformedDescriptor(Field::Root)),
    };
    let asset_index = match parse_asset_index_id(descriptor) {
        Ok(found) => found,
        Err(e) => return Err(e),
    };
    let java_version = match parse_java_version(descriptor) {
        Ok(found) => found,
        Err(e) => return Err(e),
    };
    let libraries = match find_member(descriptor, "libraries") {
        Some(Document::Array(items)) => match parse_libraries(items) {
            Ok(found) => found,
            Err(e) => return Err(e),
        },
        _ => return Err(Error::MalformedDescriptor(Field::Libraries)),
    };
    Ok(VersionJSON { asset_index, java_version, libraries })
}

impl VersionJSON {
    /// Reads the text of a version descriptor: the JSON that the text
    /// denotes, read as [`parse_version_descriptor`] reads it.
    pub fn new(json_string: &str) -> (parsed: Result<VersionJSON, Error>)
        ensures
            agrees(parsed, version_of_json(json_document(json_string@))),
            parsed matches Ok(version) ==> version.deep_view().wf(),
    {
        match read_document(json_string) {
            Some(document) => parse_version_descriptor(&document),
            None => Err(Error::MalformedDescriptor(Field::Root)),
        }
    }
}

/// Whatever download object is read, the path that is read of it stays
/// below the store's root: it is not absolute and has no `..` component.
pub proof fn lemma_download_of_contained(object: Members)
    ensures
        download_of(object) matches Ok(path) ==> is_contained(path),
{
}

/// Classifiers take priority: a library whose `downloads` has `classifiers`
/// is read without an artifact, whether or not `downloads` has an `artifact`
/// too.
pub proof fn lemma_classifiers_take_priority(item: DocumentView, index: usize)
    requires
        item matches DocumentView::Object(library) && member(library, "downloads"@)
            matches Some(DocumentView::Object(downloads)) && member(downloads, "classifiers"@)
            is Some,
    ensures
        library_of(item, index) matches Ok(library) ==> library.artifact is None
            && library.classifiers is Some,
{
}

/// A library that was read has an artifact or native bundles, never both.
pub proof fn lemma_library_of_wf(item: DocumentView, index: usize)
    ensures
        library_of(item, index) matches Ok(library) ==> library.wf(),
{
}

/// The libraries of a descriptor are read item by item: all of them where
/// every item describes a library, and else the error of the first item that
/// describes none.
pub proof fn lemma_libraries_of_each(items: Seq<DocumentView>)
    ensures
        match libraries_of(items) {
            Ok(libraries) => libraries.len() == items.len() && forall|i: int|
                0 <= i < items.len() ==> library_of(#[trigger] items[i], i as usize) == Ok::<
                    LibraryIndexView,
                    Error,
                >(libraries[i]),
            Err(e) => exists|i: int|
                0 <= i < items.len() && library_of(#[trigger] items[i], i as usize) == Err::<
                    LibraryIndexView,
                    Error,
                >(e) && forall|j: int|
                    0 <= j < i ==> library_of(#[trigger] items[j], j as usize) is Ok,
        },
    decreases items.len(),
{
    if items.len() > 0 {
        let earlier = items.drop_last();
        let last = items.len() - 1;
        lemma_libraries_of_each(earlier);
        assert forall|i: int| 0 <= i < last implies earlier[i] == items[i] by {}
        match libraries_of(earlier) {
            Err(e) => {
                let i = choose|i: int|
                    0 <= i < earlier.len() && library_of(#[trigger] earlier[i], i as usize)
                        == Err::<LibraryIndexView, Error>(e) && forall|j: int|
                        0 <= j < i ==> library_of(#[trigger] earlier[j], j as usize) is Ok;
                assert(library_of(items[i], i as usize) == Err::<LibraryIndexView, Error>(e));
                assert forall|j: int| 0 <= j < i implies library_of(
                    #[trigger] items[j],
                    j as usize,
                ) is Ok by {
                    assert(library_of(earlier[j], j as usize) is Ok);
                }
            },
            Ok(parsed) => {
                assert forall|j: int| 0 <= j < last implies library_of(
                    #[trigger] items[j],
                    j as usize,
                ) is Ok by {
                    assert(library_of(earlier[j], j as usize) is Ok);
                }
                match library_of(items[last], last as usize) {
                    Err(e) => {
                        assert(library_of(items[last], last as usize) == Err::<
                            LibraryIndexView,
                            Error,
                        >(e));
                    },
                    Ok(library) => {
                        assert forall|i: int| 0 <= i < items.len() implies library_of(
                            #[trigger] items[i],
                            i as usize,
                        ) == Ok::<LibraryIndexView, Error>(parsed.push(library)[i]) by {
                            if i < last {
                                assert(library_of(earlier[i], i as usize) == Ok::<
                                    LibraryIndexView,
                                    Error,
                                >(parsed[i]));
                            }
                        }
                    },
                }
            },
        }
    }
}

/// A document of the shape of a version descriptor: an object with the name
/// of an asset index, a Java version and an array `libraries`, every item of
/// which describes a library.
pub open spec fn is_version_descriptor(document: DocumentView) -> bool {
    &&& document matches DocumentView::Object(descriptor)
    &&& asset_index_id_of(descriptor) is Ok
    &&& java_version_of(descriptor) is Ok
    &&& member(descriptor, "libraries"@) matches Some(DocumentView::Array(items))
    &&& forall|i: int| 0 <= i < items.len() ==> library_of(#[trigger] items[i], i as usize) is Ok
}

/// A document is read exactly where it has the shape of a version
/// descriptor, and then library by library.
pub proof fn lemma_version_of_accepts(document: DocumentView)
    ensures
        version_of(document) is Ok <==> is_version_descriptor(document),
        version_of(document) matches Ok(version) ==> {
            let items = member(document->Object_0, "libraries"@)->Some_0->Array_0;
            &&& version.libraries.len() == items.len()
            &&& forall|i: int|
                0 <= i < items.len() ==> library_of(#[trigger] items[i], i as usize) == Ok::<
                    LibraryIndexView,
                    Error,
                >(version.libraries[i])
        },
{
    if let DocumentView::Object(descriptor) = document {
        if let Some(DocumentView::Array(items)) = member(descriptor, "libraries"@) {
            lemma_libraries_of_each(items);
        }
    }
}

/// Whatever descriptor is read, what is read of it is well formed.
pub proof fn lemma_version_of_wf(document: DocumentView)
    ensures
        version_of(document) matches Ok(version) ==> version.wf(),
{
    if let Ok(version) = version_of(document) {
        let items = member(document->Object_0, "libraries"@)->Some_0->Array_0;
        lemma_libraries_of_each(items);
        assert forall|i: int| 0 <= i < version.libraries.len() implies (
        #[trigger] version.libraries[i]).wf() by {
            lemma_library_of_wf(items[i], i as usize);
        }
    }
}

/// No `majorVersion` stands under the `javaVersion` of `document`: there is
/// no such key, or nothing that could hold it.
pub open spec fn lacks_major_version(document: DocumentView) -> bool {
    match document {
        DocumentView::Object(descriptor) => match member(descriptor, "javaVersion"@) {
            Some(DocumentView::Object(java_version)) => member(java_version, "majorVersion"@)
                is None,
            _ => true,
        },
        _ => true,
    }
}

/// A descriptor without a `javaVersion.majorVersion` is refused as
/// malformed, and nothing is read of it.
pub proof fn lemma_missing_major_version_fails(document: DocumentView)
    requires
        lacks_major_version(document),
    ensures
        version_of(document) matches Err(Error::MalformedDescriptor(_)),
{
}

} // verus!
