//! The asset index of a version, and the plan that copies its objects.

use vstd::prelude::*;
use crate::document::{
    find_member, has_member, member, members_view, Document, DocumentView, Member, Members,
};
use crate::error::{agrees, Error};
use crate::json::{json_document, read_document};
use crate::path::{join, join_path};
use crate::text::same_text;

verus! {

/// One stored asset, known by the hash of its content.
#[derive(Clone, Debug, PartialEq, Eq)]
pub struct AssetObject {
    pub hash: String,
}

/// The assets of a version: each logical name with the object that holds
/// it. In a well-formed index no name occurs twice.
#[derive(Clone, Debug, PartialEq, Eq)]
pub struct AssetIndexDocument {
    pub objects: Vec<(String, AssetObject)>,
}

/// The copy of one file, and the directory that must exist before it.
#[derive(Clone, Debug, PartialEq, Eq)]
pub struct CopyOp {
    pub from: String,
    pub to: String,
    pub ensure_dir: String,
}

/// The mathematical value of an [`AssetIndexDocument`]: each name with the
/// hash of its object.
pub struct AssetIndexView {
    pub objects: Seq<(Seq<char>, Seq<char>)>,
}

/// The mathematical value of a [`CopyOp`].
pub struct CopyOpView {
    pub from: Seq<char>,
    pub to: Seq<char>,
    pub ensure_dir: Seq<char>,
}

impl DeepView for AssetObject {
    type V = Seq<char>;

    open spec fn deep_view(&self) -> Seq<char> {
        self.hash@
    }
}

impl DeepView for AssetIndexDocument {
    type V = AssetIndexView;

    open spec fn deep_view(&self) -> AssetIndexView {
        AssetIndexView { objects: self.objects.deep_view() }
    }
}

impl DeepView for CopyOp {
    type V = CopyOpView;

    open spec fn deep_view(&self) -> CopyOpView {
        CopyOpView { from: self.from@, to: self.to@, ensure_dir: self.ensure_dir@ }
    }
}

/// A hash from which a bucket can be taken: an even number of characters,
/// two at least.
pub open spec fn valid_hash(hash: Seq<char>) -> bool {
    hash.len() >= 2 && hash.len() % 2 == 0
}

/// The bucket of a hash: its first two characters.
pub open spec fn bucket(hash: Seq<char>) -> Seq<char> {
    hash.subrange(0, 2)
}

/// Some asset of `assets` has the name `name`.
pub open spec fn names(assets: Seq<(Seq<char>, Seq<char>)>, name: Seq<char>) -> bool {
    exists|k: int| 0 <= k < assets.len() && (#[trigger] assets[k]).0 == name
}

impl AssetIndexView {
    /// The index is a mapping, and every hash is valid: no name occurs
    /// twice, and each hash has an even number of characters, two at least.
    pub open spec fn wf(self) -> bool {
        &&& forall|i: int|
            0 <= i < self.objects.len() ==> valid_hash((#[trigger] self.objects[i]).1)
        &&& forall|i: int, j: int|
            0 <= i < j < self.objects.len() ==> (#[trigger] self.objects[i]).0 != (
            #[trigger] self.objects[j]).0
    }
}

/// The hash of the asset that `value` describes: the `hash` string of an
/// object, where it is valid.
pub open spec fn asset_hash(value: DocumentView) -> Option<Seq<char>> {
    match value {
        DocumentView::Object(object) => match member(object, "hash"@) {
            Some(DocumentView::Text(hash)) if valid_hash(hash) => Some(hash),
            _ => None,
        },
        _ => None,
    }
}

/// The assets that an object with the members `objects` maps names to: for
/// each key the asset of the first member with that key, in the order in
/// which the keys first occur.
pub open spec fn first_assets(objects: Members) -> Seq<(Seq<char>, Seq<char>)>
    decreases objects.len(),
{
    if objects.len() == 0 {
        Seq::empty()
    } else {
        let earlier = first_assets(objects.drop_last());
        let last = objects.last();
        if has_member(objects.drop_last(), last.0) {
            earlier
        } else {
            earlier.push((last.0, asset_hash(last.1)->Some_0))
        }
    }
}

/// The assets that the members of `objects` describe, where every one of
/// them describes an asset: see [`first_assets`]. A member that describes
/// none fails the whole, also where an earlier member has its key.
pub open spec fn assets_of(objects: Members) -> Result<AssetIndexView, Error> {
    if forall|i: int| 0 <= i < objects.len() ==> asset_hash((#[trigger] objects[i]).1) is Some {
        Ok(AssetIndexView { objects: first_assets(objects) })
    } else {
        Err(Error::MalformedAssetIndex)
    }
}

/// What an asset index says, or that it is none: its `objects` must be an
/// object, and each of its members must describe an asset.
pub open spec fn asset_index_of(document: DocumentView) -> Result<AssetIndexView, Error> {
    match document {
        DocumentView::Object(index) => match member(index, "objects"@) {
            Some(DocumentView::Object(objects)) => assets_of(objects),
            _ => Err(Error::MalformedAssetIndex),
        },
        _ => Err(Error::MalformedAssetIndex),
    }
}

/// What the text of an asset index says. A text that is not JSON is no asset
/// index.
pub open spec fn asset_index_of_json(parsed: Option<DocumentView>) -> Result<
    AssetIndexView,
    Error,
> {
    match parsed {
        Some(document) => asset_index_of(document),
        None => Err(Error::MalformedAssetIndex),
    }
}

/// The copy that brings the object with this hash from the store below
/// `source_root` to the tree below `dest_root`, under its bucket in both.
pub open spec fn asset_copy(
    hash: Seq<char>,
    source_root: Seq<char>,
    dest_root: Seq<char>,
) -> CopyOpView {
    CopyOpView {
        from: join(join(source_root, bucket(hash)), hash),
        to: join(join(dest_root, bucket(hash)), hash),
        ensure_dir: join(dest_root, bucket(hash)),
    }
}

/// One copy for each object of `index`, in the order of the index.
pub open spec fn asset_copy_plan(
    index: AssetIndexView,
    source_root: Seq<char>,
    dest_root: Seq<char>,
) -> Seq<CopyOpView> {
    Seq::new(index.objects.len(), |i: int| asset_copy(index.objects[i].1, source_root, dest_root))
}

/// The bucket of `hash`: see [`bucket`].
pub fn bucket_of(hash: &str) -> (name: String)
    requires
        hash@.len() >= 2,
    ensures
        name@ == bucket(hash@),
{
    hash.substring_char(0, 2).to_owned()
}

fn parse_asset_object(value: &Document) -> (object: Option<AssetObject>)
    ensures
        object.deep_view() == asset_hash(value.deep_view()),
{
    match value {
        Document::Object(members) => match find_member(members, "hash") {
            Some(Document::Text(hash)) => {
                let len = hash.as_str().unicode_len();
                if len >= 2 && len % 2 == 0 {
                    Some(AssetObject { hash: hash.clone() })
                } else {
                    None
                }
            },
            _ => None,
        },
        _ => None,
    }
}

/// Whether some asset of `assets` has the name `name`.
fn is_named(assets: &Vec<(String, AssetObject)>, name: &str) -> (found: bool)
    ensures
        found == names(assets.deep_view(), name@),
{
    let mut k: usize = 0;
    while k < assets.len()
        invariant
            k <= assets.len(),
            forall|j: int| 0 <= j < k ==> (#[trigger] assets.deep_view()[j]).0 != name@,
        decreases assets.len() - k,
    {
        if same_text(assets[k].0.as_str(), name) {
            assert(assets.deep_view()[k as int].0 == name@);
            return true;
        }
        k += 1;
    }
    false
}

fn parse_assets(objects: &Vec<Member>) -> (parsed: Result<AssetIndexDocument, Error>)
    ensures
        agrees(parsed, assets_of(members_view(*objects))),
        parsed matches Ok(index) ==> index.deep_view().wf(),
{
    let ghost entries = members_view(*objects);
    let mut assets: Vec<(String, AssetObject)> = Vec::new();
    let mut i: usize = 0;
    assert(assets.deep_view() =~= Seq::empty());
    while i < objects.len()
        invariant
            i <= objects.len(),
            entries == members_view(*objects),
            forall|k: int| 0 <= k < i ==> asset_hash((#[trigger] entries[k]).1) is Some,
            assets.deep_view() == first_assets(entries.take(i as int)),
        decreases objects.len() - i,
    {
        let ghost earlier = entries.take(i as int);
        assert(entries.take(i + 1).drop_last() =~= earlier);
        assert(entries.take(i + 1).last() == entries[i as int]);
        match parse_asset_object(&objects[i].value) {
            None => {
                assert(asset_hash(entries[i as int].1) is None);
                return Err(Error::MalformedAssetIndex);
            },
            Some(object) => {
                proof {
                    lemma_first_assets_names(earlier, objects[i as int].key@);
                }
                if !is_named(&assets, objects[i].key.as_str()) {
                    let ghost before = assets.deep_view();
                    let name = objects[i].key.clone();
                    assets.push((name, object));
                    assert(assets.deep_view() =~= before.push((name@, object.deep_view())));
                }
            },
        }
        i += 1;
    }
    assert(entries.take(i as int) =~= entries);
    proof {
        lemma_first_assets_wf(entries);
    }
    Ok(AssetIndexDocument { objects: assets })
}

/// Reads an asset index: see [`asset_index_of`]. What it returns is well
/// formed.
pub fn parse_asset_index(raw: &Document) -> (parsed: Result<AssetIndexDocument, Error>)
    ensures
        agrees(parsed, asset_index_of(raw.deep_view())),
        parsed matches Ok(index) ==> index.deep_view().wf(),
{
    match raw {
        Document::Object(index) => match find_member(index, "objects") {
            Some(Document::Object(objects)) => parse_assets(objects),
            _ => Err(Error::MalformedAssetIndex),
        },
        _ => Err(Error::MalformedAssetIndex),
    }
}

impl AssetIndexDocument {
    /// Whether no name occurs twice and every hash is valid: see
    /// [`AssetIndexView::wf`].
    pub fn is_well_formed(&self) -> (well_formed: bool)
        ensures
            well_formed == self.deep_view().wf(),
    {
        let ghost assets = self.deep_view().objects;
        let mut i: usize = 0;
        while i < self.objects.len()
            invariant
                i <= self.objects.len(),
                assets == self.deep_view().objects,
                forall|k: int| 0 <= k < i ==> valid_hash((#[trigger] assets[k]).1),
                forall|k: int, j: int|
                    0 <= k < j < i ==> (#[trigger] assets[k]).0 != (#[trigger] assets[j]).0,
            decreases self.objects.len() - i,
        {
            let len = self.objects[i].1.hash.as_str().unicode_len();
            if len < 2 || len % 2 != 0 {
                assert(!valid_hash(assets[i as int].1));
                return false;
            }
            let mut k: usize = 0;
            while k < i
                invariant
                    k <= i < self.objects.len(),
                    assets == self.deep_view().objects,
                    forall|j: int| 0 <= j < k ==> (#[trigger] assets[j]).0 != assets[i as int].0,
                decreases i - k,
            {
                if same_text(self.objects[k].0.as_str(), self.objects[i].0.as_str()) {
                    assert(assets[k as int].0 == assets[i as int].0);
                    return false;
                }
                k += 1;
            }
            i += 1;
        }
        true
    }

    /// Reads the text of an asset index: the JSON that the text denotes, read
    /// as [`parse_asset_index`] reads it.
    pub fn new(json_string: &str) -> (parsed: Result<AssetIndexDocument, Error>)
        ensures
            agrees(parsed, asset_index_of_json(json_document(json_string@))),
            parsed matches Ok(index) ==> index.deep_view().wf(),
    {
        match read_document(json_string) {
            Some(document) => parse_asset_index(&document),
            None => Err(Error::MalformedAssetIndex),
        }
    }
}

/// The copies that bring every object of `index` from the store below
/// `source_objects_root` to the tree below `dest_objects_root`.
pub fn build_asset_copy_plan(
    index: &AssetIndexDocument,
    source_objects_root: &str,
    dest_objects_root: &str,
) -> (plan: Vec<CopyOp>)
    requires
        index.deep_view().wf(),
    ensures
        plan.deep_view() == asset_copy_plan(
            index.deep_view(),
            source_objects_root@,
            dest_objects_root@,
        ),
{
    let ghost wanted = asset_copy_plan(
        index.deep_view(),
        source_objects_root@,
        dest_objects_root@,
    );
    let mut plan: Vec<CopyOp> = Vec::new();
    let mut i: usize = 0;
    while i < index.objects.len()
        invariant
            i <= index.objects.len(),
            index.deep_view().wf(),
            plan.len() == i,
            wanted == asset_copy_plan(index.deep_view(), source_objects_root@, dest_objects_root@),
            forall|k: int| 0 <= k < i ==> (#[trigger] plan.deep_view()[k]) == wanted[k],
        decreases index.objects.len() - i,
    {
        let hash = &index.objects[i].1.hash;
        assert(index.deep_view().objects[i as int].1 == hash@);
        let name = bucket_of(hash.as_str());
        let source_dir = join_path(source_objects_root, name.as_str());
        let dest_dir = join_path(dest_objects_root, name.as_str());
        let op = CopyOp {
            from: join_path(source_dir.as_str(), hash.as_str()),
            to: join_path(dest_dir.as_str(), hash.as_str()),
            ensure_dir: dest_dir,
        };
        let ghost before = plan.deep_view();
        plan.push(op);
        assert(plan.deep_view() =~= before.push(op.deep_view()));
        i += 1;
    }
    assert(plan.deep_view() =~= wanted);
    plan
}

/// The bucket of a hash of two characters or more is its first two
/// characters, and the hash begins with it.
pub proof fn lemma_bucket_is_prefix(hash: Seq<char>)
    requires
        hash.len() >= 2,
    ensures
        bucket(hash) == seq![hash[0], hash[1]],
        bucket(hash) + hash.subrange(2, hash.len() as int) == hash,
{
    assert(bucket(hash) =~= seq![hash[0], hash[1]]);
    assert(bucket(hash) + hash.subrange(2, hash.len() as int) =~= hash);
}

/// Each copy of an asset plan takes its object from the bucket of its hash
/// and stores it in the bucket of the same name, in a directory that the
/// copy asks for.
pub proof fn lemma_asset_copy_plan_each(
    index: AssetIndexView,
    source_root: Seq<char>,
    dest_root: Seq<char>,
    i: int,
)
    requires
        0 <= i < index.objects.len(),
    ensures
        asset_copy_plan(index, source_root, dest_root).len() == index.objects.len(),
        asset_copy_plan(index, source_root, dest_root)[i] == asset_copy(
            index.objects[i].1,
            source_root,
            dest_root,
        ),
        asset_copy_plan(index, source_root, dest_root)[i].to == join(
            asset_copy_plan(index, source_root, dest_root)[i].ensure_dir,
            index.objects[i].1,
        ),
{
}

/// The names of the assets that are read of an object are its keys.
pub proof fn lemma_first_assets_names(objects: Members, name: Seq<char>)
    ensures
        names(first_assets(objects), name) <==> has_member(objects, name),
    decreases objects.len(),
{
    if objects.len() > 0 {
        let earlier = objects.drop_last();
        let last = objects.last();
        let assets = first_assets(objects);
        lemma_first_assets_names(earlier, name);
        lemma_first_assets_names(earlier, last.0);
        if has_member(objects, name) {
            let i = choose|i: int| 0 <= i < objects.len() && (#[trigger] objects[i]).0 == name;
            if i < earlier.len() {
                assert(earlier[i].0 == name);
            }
            if has_member(earlier, name) {
                let k = choose|k: int|
                    0 <= k < first_assets(earlier).len() && (#[trigger] first_assets(
                        earlier,
                    )[k]).0 == name;
                assert(assets[k].0 == name);
            } else {
                assert(assets[assets.len() - 1].0 == name);
            }
        }
        if names(assets, name) {
            let k = choose|k: int| 0 <= k < assets.len() && (#[trigger] assets[k]).0 == name;
            if k < first_assets(earlier).len() {
                assert(first_assets(earlier)[k].0 == name);
                let i = choose|i: int| 0 <= i < earlier.len() && (#[trigger] earlier[i]).0 == name;
                assert(objects[i].0 == name);
            } else {
                assert(objects[objects.len() - 1].0 == name);
            }
        }
    }
}

/// What is read of an object whose members all describe assets is a
/// mapping with valid hashes: no name occurs twice in it.
pub proof fn lemma_first_assets_wf(objects: Members)
    requires
        forall|i: int| 0 <= i < objects.len() ==> asset_hash((#[trigger] objects[i]).1) is Some,
    ensures
        (AssetIndexView { objects: first_assets(objects) }).wf(),
    decreases objects.len(),
{
    if objects.len() > 0 {
        let earlier = objects.drop_last();
        let last = objects.last();
        assert forall|i: int| 0 <= i < earlier.len() implies asset_hash(
            (#[trigger] earlier[i]).1,
        ) is Some by {
            assert(earlier[i] == objects[i]);
        }
        lemma_first_assets_wf(earlier);
        lemma_first_assets_names(earlier, last.0);
        assert(asset_hash(objects[objects.len() - 1].1) is Some);
        let before = first_assets(earlier);
        let assets = first_assets(objects);
        let read = AssetIndexView { objects: before };
        assert(read.wf());
        if !has_member(earlier, last.0) {
            let added = (last.0, asset_hash(last.1)->Some_0);
            assert(assets == before.push(added));
            assert(valid_hash(added.1));
            assert(!names(before, last.0));
            assert forall|i: int| 0 <= i < assets.len() implies valid_hash(
                (#[trigger] assets[i]).1,
            ) by {
                if i < before.len() {
                    assert(assets[i] == read.objects[i]);
                } else {
                    assert(assets[i] == added);
                }
            }
            assert forall|i: int, j: int| 0 <= i < j < assets.len() implies (
            #[trigger] assets[i]).0 != (#[trigger] assets[j]).0 by {
                assert(assets[i] == read.objects[i]);
                if j < before.len() {
                    assert(assets[j] == read.objects[j]);
                } else {
                    assert(assets[j] == added);
                    if before[i].0 == last.0 {
                        assert(names(before, last.0));
                    }
                }
            }
        }
    }
}

/// Whatever asset index is read, what is read of it is well formed.
pub proof fn lemma_asset_index_of_wf(document: DocumentView)
    ensures
        asset_index_of(document) matches Ok(index) ==> index.wf(),
{
    if let DocumentView::Object(index) = document {
        if let Some(DocumentView::Object(objects)) = member(index, "objects"@) {
            if assets_of(objects) is Ok {
                lemma_first_assets_wf(objects);
            }
        }
    }
}

} // verus!
