//! The plan that brings the libraries of a version into the project.

use vstd::prelude::*;
use crate::document::DocumentView;
use crate::error::Error;
use crate::path::{
    file_name, file_name_of, is_contained, join, join_path, lemma_file_name_has_no_separator,
    parse_file_name_from_path,
};
use crate::platform::OS;
use crate::version::{
    version_of, DownloadIndex, LibraryIndex, LibraryIndexView, VersionJSON, VersionJSONView,
};

verus! {

/// One step that brings a library into the destination directory.
#[derive(Clone, Debug, PartialEq, Eq)]
pub enum LibraryOp {
    /// Copy the file `from` to the file `to`.
    CopyFile { from: String, to: String },
    /// Unpack the archive `archive` into the directory `dest_dir`.
    ExtractArchive { archive: String, dest_dir: String },
}

/// The mathematical value of a [`LibraryOp`].
pub enum LibraryOpView {
    CopyFile { from: Seq<char>, to: Seq<char> },
    ExtractArchive { archive: Seq<char>, dest_dir: Seq<char> },
}

impl DeepView for LibraryOp {
    type V = LibraryOpView;

    open spec fn deep_view(&self) -> LibraryOpView {
        match self {
            LibraryOp::CopyFile { from, to } => LibraryOpView::CopyFile { from: from@, to: to@ },
            LibraryOp::ExtractArchive { archive, dest_dir } => LibraryOpView::ExtractArchive {
                archive: archive@,
                dest_dir: dest_dir@,
            },
        }
    }
}

/// The copy of a library's artifact, where it has one and the store holds
/// it. The copy lands directly in `dest_root`, under the artifact's file
/// name alone.
pub open spec fn artifact_ops(
    library: LibraryIndexView,
    source_root: Seq<char>,
    dest_root: Seq<char>,
    present: Seq<Seq<char>>,
) -> Seq<LibraryOpView> {
    match library.artifact {
        Some(path) if present.contains(path) => seq![
            LibraryOpView::CopyFile {
                from: join(source_root, path),
                to: join(dest_root, file_name(path)->Some_0),
            },
        ],
        _ => Seq::empty(),
    }
}

/// The unpacking of a library's native bundle for `os`, where it has one and
/// the store holds it.
pub open spec fn natives_ops(
    library: LibraryIndexView,
    os: OS,
    source_root: Seq<char>,
    dest_root: Seq<char>,
    present: Seq<Seq<char>>,
) -> Seq<LibraryOpView> {
    match library.natives(os) {
        Some(path) if present.contains(path) => seq![
            LibraryOpView::ExtractArchive { archive: join(source_root, path), dest_dir: dest_root },
        ],
        _ => Seq::empty(),
    }
}

/// The steps for one library: its artifact first, then its native bundle. A
/// library of which the store holds neither takes no step.
pub open spec fn library_ops(
    library: LibraryIndexView,
    os: OS,
    source_root: Seq<char>,
    dest_root: Seq<char>,
    present: Seq<Seq<char>>,
) -> Seq<LibraryOpView> {
    artifact_ops(library, source_root, dest_root, present) + natives_ops(
        library,
        os,
        source_root,
        dest_root,
        present,
    )
}

/// The steps for `libraries`, library by library in their order.
pub open spec fn library_copy_plan(
    libraries: Seq<LibraryIndexView>,
    os: OS,
    source_root: Seq<char>,
    dest_root: Seq<char>,
    present: Seq<Seq<char>>,
) -> Seq<LibraryOpView>
    decreases libraries.len(),
{
    if libraries.len() == 0 {
        Seq::empty()
    } else {
        library_copy_plan(libraries.drop_last(), os, source_root, dest_root, present)
            + library_ops(libraries.last(), os, source_root, dest_root, present)
    }
}

/// The downloads of one library on which its steps depend: its artifact,
/// then its native bundle for `os`.
pub open spec fn library_paths(library: LibraryIndexView, os: OS) -> Seq<Seq<char>> {
    (match library.artifact {
        Some(path) => seq![path],
        None => Seq::empty(),
    }) + (match library.natives(os) {
        Some(path) => seq![path],
        None => Seq::empty(),
    })
}

/// The downloads of `libraries` on which a plan for `os` depends, library by
/// library in their order.
pub open spec fn store_paths(libraries: Seq<LibraryIndexView>, os: OS) -> Seq<Seq<char>>
    decreases libraries.len(),
{
    if libraries.len() == 0 {
        Seq::empty()
    } else {
        store_paths(libraries.drop_last(), os) + library_paths(libraries.last(), os)
    }
}

/// Every artifact that the store holds has a file name, under which its copy
/// can be stored.
pub open spec fn artifacts_named(
    libraries: Seq<LibraryIndexView>,
    present: Seq<Seq<char>>,
) -> bool {
    forall|i: int|
        0 <= i < libraries.len() ==> ((#[trigger] libraries[i]).artifact matches Some(path)
            ==> present.contains(path) ==> file_name(path) is Some)
}

/// The native bundle of `entry` for `os`, where it has one.
pub fn select_natives(entry: &LibraryIndex, os: OS) -> (natives: Option<&DownloadIndex>)
    ensures
        natives.deep_view() == entry.deep_view().natives(os),
{
    match &entry.classifiers {
        Some(classifiers) => match os {
            OS::Linux => classifiers.linux.as_ref(),
            OS::Windows => classifiers.windows.as_ref(),
            OS::OSX => classifiers.osx.as_ref(),
        },
        None => None,
    }
}

/// The downloads on which a plan for `os` depends, each by its path below the
/// store's root: see [`store_paths`]. Of these, and of no other file, a
/// caller has to find out whether the store holds it.
pub fn wanted_paths(libraries: &Vec<LibraryIndex>, os: OS) -> (paths: Vec<String>)
    ensures
        paths.deep_view() == store_paths(libraries.deep_view(), os),
{
    let ghost all = libraries.deep_view();
    let mut paths: Vec<String> = Vec::new();
    let mut i: usize = 0;
    assert(paths.deep_view() =~= Seq::empty());
    while i < libraries.len()
        invariant
            i <= libraries.len(),
            all == libraries.deep_view(),
            paths.deep_view() == store_paths(all.take(i as int), os),
        decreases libraries.len() - i,
    {
        let library = &libraries[i];
        let ghost before = paths.deep_view();
        assert(all.take(i + 1).drop_last() =~= all.take(i as int));
        assert(all.take(i + 1).last() == library.deep_view());
        if let Some(artifact) = &library.artifact {
            paths.push(artifact.path.clone());
            assert(paths.deep_view() =~= before.push(artifact.path@));
        }
        let ghost middle = paths.deep_view();
        if let Some(natives) = select_natives(library, os) {
            paths.push(natives.path.clone());
            assert(paths.deep_view() =~= middle.push(natives.path@));
        }
        assert(paths.deep_view() =~= before + library_paths(library.deep_view(), os));
        i += 1;
    }
    assert(all.take(i as int) =~= all);
    paths
}

/// Whether `path` is among `present`.
pub fn is_present(present: &Vec<String>, path: &String) -> (found: bool)
    ensures
        found == present.deep_view().contains(path@),
{
    let mut i: usize = 0;
    while i < present.len()
        invariant
            i <= present.len(),
            forall|k: int| 0 <= k < i ==> present.deep_view()[k] != path@,
        decreases present.len() - i,
    {
        if present[i] == *path {
            assert(present.deep_view()[i as int] == path@);
            return true;
        }
        i += 1;
    }
    false
}

/// Whether every artifact that the store holds has a file name: see
/// [`artifacts_named`].
pub fn artifacts_are_named(
    libraries: &Vec<LibraryIndex>,
    present: &Vec<String>,
) -> (named: bool)
    ensures
        named == artifacts_named(libraries.deep_view(), present.deep_view()),
{
    let mut i: usize = 0;
    while i < libraries.len()
        invariant
            i <= libraries.len(),
            forall|k: int|
                0 <= k < i ==> ((#[trigger] libraries.deep_view()[k]).artifact matches Some(path)
                    ==> present.deep_view().contains(path) ==> file_name(path) is Some),
        decreases libraries.len() - i,
    {
        if let Some(artifact) = &libraries[i].artifact {
            if is_present(present, &artifact.path) && file_name_of(
                artifact.path.as_str(),
            ).is_none() {
                assert(libraries.deep_view()[i as int].artifact == Some(artifact.path@));
                return false;
            }
        }
        i += 1;
    }
    true
}

/// The steps that bring the libraries of a version from the store below
/// `source_libraries_root` into the directory `dest_libraries_root`.
///
/// `present` lists the downloads that the store holds, each by its path below
/// the store's root; a download that it does not list takes no step.
pub fn build_library_copy_plan(
    libraries: &Vec<LibraryIndex>,
    os: OS,
    source_libraries_root: &str,
    dest_libraries_root: &str,
    present: &Vec<String>,
) -> (plan: Vec<LibraryOp>)
    requires
        artifacts_named(libraries.deep_view(), present.deep_view()),
    ensures
        plan.deep_view() == library_copy_plan(
            libraries.deep_view(),
            os,
            source_libraries_root@,
            dest_libraries_root@,
            present.deep_view(),
        ),
{
    let ghost all = libraries.deep_view();
    let ghost source = source_libraries_root@;
    let ghost dest = dest_libraries_root@;
    let ghost held = present.deep_view();
    let mut plan: Vec<LibraryOp> = Vec::new();
    let mut i: usize = 0;
    assert(plan.deep_view() =~= Seq::empty());
    while i < libraries.len()
        invariant
            i <= libraries.len(),
            all == libraries.deep_view(),
            source == source_libraries_root@,
            dest == dest_libraries_root@,
            held == present.deep_view(),
            artifacts_named(all, held),
            plan.deep_view() == library_copy_plan(all.take(i as int), os, source, dest, held),
        decreases libraries.len() - i,
    {
        let library = &libraries[i];
        let ghost before = plan.deep_view();
        let ghost view = all[i as int];
        assert(view == library.deep_view());
        assert(all.take(i + 1).drop_last() =~= all.take(i as int));
        assert(all.take(i + 1).last() == view);
        if let Some(artifact) = &library.artifact {
            if is_present(present, &artifact.path) {
                let name = parse_file_name_from_path(&artifact.path);
                let op = LibraryOp::CopyFile {
                    from: join_path(source_libraries_root, artifact.path.as_str()),
                    to: join_path(dest_libraries_root, name.as_str()),
                };
                plan.push(op);
                assert(plan.deep_view() =~= before.push(op.deep_view()));
            }
        }
        let ghost copied = plan.deep_view();
        assert(copied =~= before + artifact_ops(view, source, dest, held));
        if let Some(natives) = select_natives(library, os) {
            if is_present(present, &natives.path) {
                let op = LibraryOp::ExtractArchive {
                    archive: join_path(source_libraries_root, natives.path.as_str()),
                    dest_dir: dest_libraries_root.to_owned(),
                };
                plan.push(op);
                assert(plan.deep_view() =~= copied.push(op.deep_view()));
            }
        }
        assert(plan.deep_view() =~= copied + natives_ops(view, os, source, dest, held));
        assert(plan.deep_view() =~= before + library_ops(view, os, source, dest, held));
        i += 1;
    }
    assert(all.take(i as int) =~= all);
    plan
}

/// The plan of [`build_library_copy_plan`], or `None` where an artifact that
/// the store holds has no file name.
pub fn try_build_library_copy_plan(
    libraries: &Vec<LibraryIndex>,
    os: OS,
    source_libraries_root: &str,
    dest_libraries_root: &str,
    present: &Vec<String>,
) -> (plan: Option<Vec<LibraryOp>>)
    ensures
        plan is Some <==> artifacts_named(libraries.deep_view(), present.deep_view()),
        plan matches Some(p) ==> p.deep_view() == library_copy_plan(
            libraries.deep_view(),
            os,
            source_libraries_root@,
            dest_libraries_root@,
            present.deep_view(),
        ),
{
    if artifacts_are_named(libraries, present) {
        Some(
            build_library_copy_plan(
                libraries,
                os,
                source_libraries_root,
                dest_libraries_root,
                present,
            ),
        )
    } else {
        None
    }
}

/// Reading a descriptor and planning its libraries is deterministic: two
/// readings of one descriptor, planned for one operating system over one
/// store, give the same steps in the same order.
pub proof fn lemma_library_plan_deterministic(
    document: DocumentView,
    os: OS,
    source_root: Seq<char>,
    dest_root: Seq<char>,
    present: Seq<Seq<char>>,
    first: VersionJSON,
    first_plan: Vec<LibraryOp>,
    second: VersionJSON,
    second_plan: Vec<LibraryOp>,
)
    requires
        version_of(document) == Ok::<VersionJSONView, Error>(first.deep_view()),
        version_of(document) == Ok::<VersionJSONView, Error>(second.deep_view()),
        first_plan.deep_view() == library_copy_plan(
            first.libraries.deep_view(),
            os,
            source_root,
            dest_root,
            present,
        ),
        second_plan.deep_view() == library_copy_plan(
            second.libraries.deep_view(),
            os,
            source_root,
            dest_root,
            present,
        ),
    ensures
        first.deep_view() == second.deep_view(),
        first_plan.deep_view() == second_plan.deep_view(),
{
}

/// A plan depends on the store only through the downloads of
/// [`store_paths`]: two stores that hold the same of these give the same
/// plan.
pub proof fn lemma_plan_depends_on_store_paths(
    libraries: Seq<LibraryIndexView>,
    os: OS,
    source_root: Seq<char>,
    dest_root: Seq<char>,
    first: Seq<Seq<char>>,
    second: Seq<Seq<char>>,
)
    requires
        forall|path: Seq<char>| #[trigger]
            store_paths(libraries, os).contains(path) ==> (first.contains(path)
                <==> second.contains(path)),
    ensures
        library_copy_plan(libraries, os, source_root, dest_root, first) == library_copy_plan(
            libraries,
            os,
            source_root,
            dest_root,
            second,
        ),
    decreases libraries.len(),
{
    if libraries.len() > 0 {
        let all = store_paths(libraries, os);
        let earlier = store_paths(libraries.drop_last(), os);
        let last = library_paths(libraries.last(), os);
        assert(all == earlier + last);
        assert forall|path: Seq<char>| #[trigger] earlier.contains(path) implies (first.contains(
            path,
        ) <==> second.contains(path)) by {
            let k = choose|k: int| 0 <= k < earlier.len() && earlier[k] == path;
            assert(all[k] == path);
            assert(all.contains(path));
        }
        lemma_plan_depends_on_store_paths(
            libraries.drop_last(),
            os,
            source_root,
            dest_root,
            first,
            second,
        );
        let library = libraries.last();
        if let Some(path) = library.artifact {
            assert(last[0] == path);
            assert(all[earlier.len() as int] == path);
            assert(all.contains(path));
        }
        if let Some(path) = library.natives(os) {
            assert(last[last.len() - 1] == path);
            assert(all[earlier.len() + last.len() - 1] == path);
            assert(all.contains(path));
        }
    }
}

/// The step `op` puts what it brings directly into `dest_root`: a copy under
/// a name that holds no separator, an archive by being unpacked there.
pub open spec fn lands_in(op: LibraryOpView, dest_root: Seq<char>) -> bool {
    match op {
        LibraryOpView::CopyFile { from, to } => exists|name: Seq<char>|
            name.len() > 0 && !name.contains('/') && to == #[trigger] join(dest_root, name),
        LibraryOpView::ExtractArchive { archive, dest_dir } => dest_dir == dest_root,
    }
}

/// Every step of a plan puts what it brings directly into the destination
/// directory, whatever directories the store keeps it in.
pub proof fn lemma_plan_lands_in_dest(
    libraries: Seq<LibraryIndexView>,
    os: OS,
    source_root: Seq<char>,
    dest_root: Seq<char>,
    present: Seq<Seq<char>>,
)
    requires
        artifacts_named(libraries, present),
    ensures
        forall|k: int|
            0 <= k < library_copy_plan(libraries, os, source_root, dest_root, present).len()
                ==> lands_in(
                #[trigger] library_copy_plan(libraries, os, source_root, dest_root, present)[k],
                dest_root,
            ),
    decreases libraries.len(),
{
    if libraries.len() > 0 {
        let earlier = libraries.drop_last();
        let library = libraries.last();
        assert forall|i: int| 0 <= i < earlier.len() implies ((#[trigger] earlier[i]).artifact
            matches Some(path) ==> present.contains(path) ==> file_name(path) is Some) by {
            assert(earlier[i] == libraries[i]);
        }
        lemma_plan_lands_in_dest(earlier, os, source_root, dest_root, present);
        let before = library_copy_plan(earlier, os, source_root, dest_root, present);
        let copies = artifact_ops(library, source_root, dest_root, present);
        let unpacks = natives_ops(library, os, source_root, dest_root, present);
        let plan = library_copy_plan(libraries, os, source_root, dest_root, present);
        assert(plan == before + (copies + unpacks));
        assert(libraries[libraries.len() - 1] == library);
        if let Some(path) = library.artifact {
            if present.contains(path) {
                lemma_file_name_has_no_separator(path);
                let name = file_name(path)->Some_0;
                assert(copies[0]->CopyFile_to == join(dest_root, name));
                assert(lands_in(copies[0], dest_root));
            }
        }
        assert forall|k: int| 0 <= k < plan.len() implies lands_in(
            #[trigger] plan[k],
            dest_root,
        ) by {
            if k < before.len() {
                assert(plan[k] == before[k]);
            } else if k < before.len() + copies.len() {
                assert(plan[k] == copies[k - before.len()]);
            } else {
                assert(plan[k] == unpacks[k - before.len() - copies.len()]);
            }
        }
    }
}

/// The step `op` takes what it brings from below `source_root`: from the
/// root joined with a path that stays below it.
pub open spec fn takes_from(op: LibraryOpView, source_root: Seq<char>) -> bool {
    exists|path: Seq<char>|
        is_contained(path) && #[trigger] join(source_root, path) == (match op {
            LibraryOpView::CopyFile { from, to } => from,
            LibraryOpView::ExtractArchive { archive, dest_dir } => archive,
        })
}

/// Every step of a plan for well-formed libraries takes what it brings from
/// below the store's root.
pub proof fn lemma_plan_takes_from_store(
    libraries: Seq<LibraryIndexView>,
    os: OS,
    source_root: Seq<char>,
    dest_root: Seq<char>,
    present: Seq<Seq<char>>,
)
    requires
        forall|i: int| 0 <= i < libraries.len() ==> (#[trigger] libraries[i]).wf(),
    ensures
        forall|k: int|
            0 <= k < library_copy_plan(libraries, os, source_root, dest_root, present).len()
                ==> takes_from(
                #[trigger] library_copy_plan(libraries, os, source_root, dest_root, present)[k],
                source_root,
            ),
    decreases libraries.len(),
{
    if libraries.len() > 0 {
        let earlier = libraries.drop_last();
        let library = libraries.last();
        assert forall|i: int| 0 <= i < earlier.len() implies (#[trigger] earlier[i]).wf() by {
            assert(earlier[i] == libraries[i]);
        }
        assert(libraries[libraries.len() - 1].wf());
        lemma_plan_takes_from_store(earlier, os, source_root, dest_root, present);
        let before = library_copy_plan(earlier, os, source_root, dest_root, present);
        let copies = artifact_ops(library, source_root, dest_root, present);
        let unpacks = natives_ops(library, os, source_root, dest_root, present);
        let plan = library_copy_plan(libraries, os, source_root, dest_root, present);
        assert(plan == before + (copies + unpacks));
        if copies.len() > 0 {
            let path = library.artifact->Some_0;
            assert(copies[0]->CopyFile_from == join(source_root, path));
            assert(takes_from(copies[0], source_root));
        }
        if unpacks.len() > 0 {
            let path = library.natives(os)->Some_0;
            assert(is_contained(path));
            assert(unpacks[0]->ExtractArchive_archive == join(source_root, path));
            assert(takes_from(unpacks[0], source_root));
        }
        assert forall|k: int| 0 <= k < plan.len() implies takes_from(
            #[trigger] plan[k],
            source_root,
        ) by {
            if k < before.len() {
                assert(plan[k] == before[k]);
            } else if k < before.len() + copies.len() {
                assert(plan[k] == copies[k - before.len()]);
            } else {
                assert(plan[k] == unpacks[k - before.len() - copies.len()]);
            }
        }
    }
}

/// A plan holds at most two steps for each library, and one at most for each
/// library that is well formed.
pub proof fn lemma_library_copy_plan_len(
    libraries: Seq<LibraryIndexView>,
    os: OS,
    source_root: Seq<char>,
    dest_root: Seq<char>,
    present: Seq<Seq<char>>,
)
    ensures
        library_copy_plan(libraries, os, source_root, dest_root, present).len() <= 2
            * libraries.len(),
        (forall|i: int| 0 <= i < libraries.len() ==> (#[trigger] libraries[i]).wf())
            ==> library_copy_plan(libraries, os, source_root, dest_root, present).len()
            <= libraries.len(),
    decreases libraries.len(),
{
    if libraries.len() > 0 {
        let earlier = libraries.drop_last();
        lemma_library_copy_plan_len(earlier, os, source_root, dest_root, present);
        if forall|i: int| 0 <= i < libraries.len() ==> (#[trigger] libraries[i]).wf() {
            assert forall|i: int| 0 <= i < earlier.len() implies (#[trigger] earlier[i]).wf() by {
                assert(earlier[i] == libraries[i]);
            }
            assert(libraries.last().wf());
        }
    }
}

} // verus!
