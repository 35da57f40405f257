//! Structured documents: what a descriptor or an index is before it is read.

use vstd::prelude::*;
use crate::text::same_text;

verus! {

/// One `key: value` pair of an object.
#[derive(Debug, PartialEq, Eq)]
pub struct Member {
    pub key: String,
    pub value: Document,
}

/// A structured document: an untyped tree of scalars, arrays and objects.
#[derive(Debug, PartialEq, Eq)]
pub enum Document {
    Null,
    Bool(bool),
    /// A number, held as an unsigned 64-bit integer where it is one.
    Number(Option<u64>),
    Text(String),
    Array(Vec<Document>),
    /// The members of an object, in the order in which it lists them.
    Object(Vec<Member>),
}

/// The mathematical value of a [`Document`].
pub enum DocumentView {
    Null,
    Bool(bool),
    Number(Option<u64>),
    Text(Seq<char>),
    Array(Seq<DocumentView>),
    Object(Members),
}

/// The members of an object: its keys with their values, in order.
pub type Members = Seq<(Seq<char>, DocumentView)>;

/// The values of `items`, in order.
pub open spec fn items_view(items: Vec<Document>) -> Seq<DocumentView>
    decreases items, 0nat,
{
    Seq::new(
        items.len() as nat,
        |i: int|
            if 0 <= i < items.len() {
                items[i].deep_view()
            } else {
                DocumentView::Null
            },
    )
}

/// The keys and values of `members`, in order.
pub open spec fn members_view(members: Vec<Member>) -> Members
    decreases members, 0nat,
{
    Seq::new(
        members.len() as nat,
        |i: int|
            if 0 <= i < members.len() {
                (members[i].key@, members[i].value.deep_view())
            } else {
                (Seq::empty(), DocumentView::Null)
            },
    )
}

impl DeepView for Document {
    type V = DocumentView;

    open spec fn deep_view(&self) -> DocumentView
        decreases self, 1nat,
    {
        match self {
            Document::Null => DocumentView::Null,
            Document::Bool(b) => DocumentView::Bool(*b),
            Document::Number(n) => DocumentView::Number(*n),
            Document::Text(s) => DocumentView::Text(s@),
            Document::Array(items) => DocumentView::Array(items_view(*items)),
            Document::Object(members) => DocumentView::Object(members_view(*members)),
        }
    }
}

/// The value of the first of `members` from index `from` on whose key is `key`.
pub open spec fn member_from(members: Members, key: Seq<char>, from: int) -> Option<DocumentView>
    decreases members.len() - from,
{
    if from < 0 || from >= members.len() {
        None
    } else if members[from].0 == key {
        Some(members[from].1)
    } else {
        member_from(members, key, from + 1)
    }
}

/// The value that an object with these members has under `key`: that of the
/// first member with that key.
pub open spec fn member(members: Members, key: Seq<char>) -> Option<DocumentView> {
    member_from(members, key, 0)
}

/// Some member of `members` has the key `key`.
pub open spec fn has_member(members: Members, key: Seq<char>) -> bool {
    exists|i: int| 0 <= i < members.len() && (#[trigger] members[i]).0 == key
}

/// The member of `members` that [`member`] speaks of.
pub fn find_member<'a>(members: &'a Vec<Member>, key: &str) -> (found: Option<&'a Document>)
    ensures
        match found {
            Some(value) => member(members_view(*members), key@) == Some(value.deep_view()),
            None => member(members_view(*members), key@) is None,
        },
{
    let mut i: usize = 0;
    while i < members.len()
        invariant
            i <= members.len(),
            member(members_view(*members), key@) == member_from(
                members_view(*members),
                key@,
                i as int,
            ),
        decreases members.len() - i,
    {
        if same_text(members[i].key.as_str(), key) {
            return Some(&members[i].value);
        }
        i += 1;
    }
    None
}

/// The value under a key is that of the first member with the key, and
/// there is none exactly where no member has the key.
pub proof fn lemma_member_is_first(members: Members, key: Seq<char>)
    ensures
        match member(members, key) {
            Some(value) => exists|i: int|
                0 <= i < members.len() && #[trigger] members[i] == (key, value) && forall|j: int|
                    0 <= j < i ==> (#[trigger] members[j]).0 != key,
            None => forall|i: int| 0 <= i < members.len() ==> (#[trigger] members[i]).0 != key,
        },
{
    lemma_member_from(members, key, 0);
}

proof fn lemma_member_from(members: Members, key: Seq<char>, from: int)
    requires
        0 <= from,
    ensures
        match member_from(members, key, from) {
            Some(value) => exists|i: int|
                from <= i < members.len() && #[trigger] members[i] == (key, value)
                    && forall|j: int| from <= j < i ==> (#[trigger] members[j]).0 != key,
            None => forall|i: int| from <= i < members.len() ==> (#[trigger] members[i]).0 != key,
        },
    decreases members.len() - from,
{
    if from < members.len() {
        if members[from].0 == key {
            assert(members[from] == (key, members[from].1));
        } else {
            lemma_member_from(members, key, from + 1);
            if let Some(value) = member_from(members, key, from + 1) {
                let i = choose|i: int|
                    from + 1 <= i < members.len() && #[trigger] members[i] == (key, value)
                        && forall|j: int| from + 1 <= j < i ==> (#[trigger] members[j]).0 != key;
                assert(from <= i < members.len() && members[i] == (key, value) && forall|j: int|
                    from <= j < i ==> (#[trigger] members[j]).0 != key);
            }
        }
    }
}

} // verus!
