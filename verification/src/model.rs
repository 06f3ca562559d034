//! The data that the client keeps: accounts, file metadata and the log of
//! local changes, with their abstract views and the path of a file.
use vstd::prelude::*;

use crate::keyed::Keyed;
use crate::symkey::AESKey;

verus! {

/// Whether a file holds content or other files.
#[derive(Clone, Copy, Debug, PartialEq, Eq, Structural)]
pub enum FileType {
    Document,
    Folder,
}

/// The user of this client.
#[derive(Clone, Debug, PartialEq)]
pub struct Account {
    pub username: String,
}

impl View for Account {
    type V = Seq<char>;

    open spec fn view(&self) -> Seq<char> {
        self.username@
    }
}

/// The metadata of one file of the tree.
///
/// The root folder is the one file that is its own parent.
#[derive(Clone, Debug, PartialEq)]
pub struct FileMetadata {
    pub id: u128,
    pub name: String,
    pub parent: u128,
    pub file_type: FileType,
    pub deleted: bool,
    /// The key that the file's content is encrypted with.
    pub access_key: AESKey,
}

/// The abstract view of a file's metadata.
pub struct FileMetaView {
    pub id: u128,
    pub name: Seq<char>,
    pub parent: u128,
    pub file_type: FileType,
    pub deleted: bool,
    pub access_key: AESKey,
}

impl View for FileMetadata {
    type V = FileMetaView;

    open spec fn view(&self) -> FileMetaView {
        FileMetaView {
            id: self.id,
            name: self.name@,
            parent: self.parent,
            file_type: self.file_type,
            deleted: self.deleted,
            access_key: self.access_key,
        }
    }
}

impl Keyed for FileMetadata {
    open spec fn key_of(v: FileMetaView) -> u128 {
        v.id
    }

    fn key(&self) -> (k: u128) {
        self.id
    }
}

impl FileMetadata {
    pub fn clone_metadata(&self) -> (r: FileMetadata)
        ensures
            r@ == self@,
    {
        FileMetadata {
            id: self.id,
            name: self.name.clone(),
            parent: self.parent,
            file_type: self.file_type,
            deleted: self.deleted,
            access_key: self.access_key,
        }
    }
}

/// The plain content of a document.
#[derive(Clone, Debug, PartialEq)]
pub struct DecryptedValue {
    pub secret: String,
}

impl DecryptedValue {
    pub fn from(secret: &str) -> (r: DecryptedValue)
        ensures
            r.secret@ == secret@,
    {
        DecryptedValue { secret: secret.to_owned() }
    }
}

/// The last part of a file's path: its name, with a `/` behind a folder's.
pub open spec fn path_segment(f: FileMetaView) -> Seq<char> {
    match f.file_type {
        FileType::Folder => f.name.push('/'),
        FileType::Document => f.name,
    }
}

/// The path of file `id`: the segments of its ancestors from the root down,
/// then its own, found by following parents at most `fuel` times. `None`
/// where an ancestor is missing or no root is reached.
pub open spec fn path_of(m: Map<u128, FileMetaView>, id: u128, fuel: nat) -> Option<Seq<char>>
    decreases fuel,
{
    if fuel == 0 || !m.contains_key(id) {
        None
    } else if m[id].parent == id {
        Some(path_segment(m[id]))
    } else {
        match path_of(m, m[id].parent, (fuel - 1) as nat) {
            Some(p) => Some(p + path_segment(m[id])),
            None => None,
        }
    }
}

/// `f` is a child of folder `p` (the root is not its own child).
pub open spec fn is_child_of(f: FileMetaView, p: u128) -> bool {
    f.parent == p && f.id != p
}

/// The children of `p`, in table order.
pub open spec fn children_of(records: Seq<FileMetaView>, p: u128) -> Seq<FileMetaView> {
    records.filter(|f: FileMetaView| is_child_of(f, p))
}

/// Some child of `p` is named `name`.
pub open spec fn child_named(records: Seq<FileMetaView>, p: u128, name: Seq<char>) -> bool {
    exists|i: int| 0 <= i < records.len() && is_child_of(#[trigger] records[i], p) && records[i].name == name
}

/// A child of `p` is named `name` exactly where one of `p`'s listed
/// children is.
pub proof fn lemma_child_named(records: Seq<FileMetaView>, p: u128, name: Seq<char>)
    ensures
        child_named(records, p, name) <==> exists|j: int|
            0 <= j < children_of(records, p).len() && (#[trigger] children_of(records, p)[j]).name
                == name,
{
    let pred = |f: FileMetaView| is_child_of(f, p);
    let kids = children_of(records, p);
    if child_named(records, p, name) {
        let i = choose|i: int| 0 <= i < records.len() && is_child_of(#[trigger] records[i], p) && records[i].name == name;
        records.lemma_filter_contains(pred, i);
        let j = choose|j: int| 0 <= j < kids.len() && kids[j] == records[i];
        assert(kids[j].name == name);
    }
    if exists|j: int| 0 <= j < kids.len() && (#[trigger] kids[j]).name == name {
        let j = choose|j: int| 0 <= j < kids.len() && (#[trigger] kids[j]).name == name;
        records.lemma_filter_pred(pred, j);
        assert(kids.contains(kids[j]));
        records.lemma_filter_contains_rev(pred, kids[j]);
        let i = choose|i: int| 0 <= i < records.len() && records[i] == kids[j];
        assert(is_child_of(records[i], p));
    }
}

/// No two files under one folder share a name (the root is under no
/// folder).
pub open spec fn sibling_names_unique(s: Seq<FileMetaView>) -> bool {
    forall|i: int, j: int|
        0 <= i < s.len() && 0 <= j < s.len() && i != j && #[trigger] s[i].parent == #[trigger] s[j].parent
            && s[i].parent != s[i].id && s[j].parent != s[j].id ==> s[i].name != s[j].name
}

/// Every file under another is under a folder.
pub open spec fn documents_are_leaves(s: Seq<FileMetaView>) -> bool {
    forall|i: int, j: int|
        0 <= i < s.len() && 0 <= j < s.len() && #[trigger] s[i].parent == #[trigger] s[j].id
            && s[i].id != s[j].id ==> s[j].file_type == FileType::Folder
}

/// No two records share an id.
pub open spec fn ids_unique(s: Seq<FileMetaView>) -> bool {
    forall|i: int, j: int| 0 <= i < s.len() && 0 <= j < s.len() && i != j ==> s[i].id != s[j].id
}

/// Adding a file whose name no child of its folder has keeps sibling names
/// unique.
pub proof fn lemma_push_keeps_names_unique(s: Seq<FileMetaView>, f: FileMetaView)
    requires
        sibling_names_unique(s),
        !child_named(s, f.parent, f.name),
    ensures
        sibling_names_unique(s.push(f)),
{
    let t = s.push(f);
    assert forall|i: int, j: int|
        0 <= i < t.len() && 0 <= j < t.len() && i != j && #[trigger] t[i].parent == #[trigger] t[j].parent
            && t[i].parent != t[i].id && t[j].parent != t[j].id implies t[i].name != t[j].name by {
        if i == s.len() {
            assert(is_child_of(s[j], f.parent));
        } else if j == s.len() {
            assert(is_child_of(s[i], f.parent));
        } else {
            assert(t[i] == s[i] && t[j] == s[j]);
        }
    }
}

/// Renaming a file to a name that no child of its folder has keeps sibling
/// names unique.
pub proof fn lemma_rename_keeps_names_unique(s: Seq<FileMetaView>, k: int, name: Seq<char>)
    requires
        sibling_names_unique(s),
        0 <= k < s.len(),
        !child_named(s, s[k].parent, name),
    ensures
        sibling_names_unique(s.update(k, FileMetaView { name, ..s[k] })),
{
    let t = s.update(k, FileMetaView { name, ..s[k] });
    assert forall|i: int, j: int|
        0 <= i < t.len() && 0 <= j < t.len() && i != j && #[trigger] t[i].parent == #[trigger] t[j].parent
            && t[i].parent != t[i].id && t[j].parent != t[j].id implies t[i].name != t[j].name by {
        if i == k {
            assert(is_child_of(s[j], s[k].parent));
        } else if j == k {
            assert(is_child_of(s[i], s[k].parent));
        } else {
            assert(t[i] == s[i] && t[j] == s[j]);
        }
    }
}

/// Moving a file into a folder that has no child of its name keeps sibling
/// names unique.
pub proof fn lemma_move_keeps_names_unique(s: Seq<FileMetaView>, k: int, p: u128)
    requires
        sibling_names_unique(s),
        0 <= k < s.len(),
        !child_named(s, p, s[k].name),
    ensures
        sibling_names_unique(s.update(k, FileMetaView { parent: p, ..s[k] })),
{
    let t = s.update(k, FileMetaView { parent: p, ..s[k] });
    assert forall|i: int, j: int|
        0 <= i < t.len() && 0 <= j < t.len() && i != j && #[trigger] t[i].parent == #[trigger] t[j].parent
            && t[i].parent != t[i].id && t[j].parent != t[j].id implies t[i].name != t[j].name by {
        if i == k {
            assert(is_child_of(s[j], p));
        } else if j == k {
            assert(is_child_of(s[i], p));
        } else {
            assert(t[i] == s[i] && t[j] == s[j]);
        }
    }
}

/// Adding a file under a folder, with an id that no file is under, keeps
/// every file under another under a folder.
pub proof fn lemma_push_keeps_leaves(s: Seq<FileMetaView>, f: FileMetaView, pk: int)
    requires
        documents_are_leaves(s),
        ids_unique(s),
        0 <= pk < s.len(),
        s[pk].id == f.parent,
        s[pk].file_type == FileType::Folder,
        forall|i: int| 0 <= i < s.len() ==> s[i].id != f.id,
        children_of(s, f.id).len() == 0,
    ensures
        documents_are_leaves(s.push(f)),
{
    let t = s.push(f);
    assert forall|i: int, j: int|
        0 <= i < t.len() && 0 <= j < t.len() && #[trigger] t[i].parent == #[trigger] t[j].id
            && t[i].id != t[j].id implies t[j].file_type == FileType::Folder by {
        if j == s.len() {
            if i < s.len() {
                assert(is_child_of(s[i], f.id));
                s.lemma_filter_contains(|g: FileMetaView| is_child_of(g, f.id), i);
            }
        } else if i == s.len() {
            if j != pk {
                assert(s[j].id != s[pk].id);
            }
        } else {
            assert(t[i] == s[i] && t[j] == s[j]);
        }
    }
}

/// Moving a file under a folder keeps every file under another under a
/// folder.
pub proof fn lemma_move_keeps_leaves(s: Seq<FileMetaView>, k: int, pk: int)
    requires
        documents_are_leaves(s),
        ids_unique(s),
        0 <= k < s.len(),
        0 <= pk < s.len(),
        s[pk].file_type == FileType::Folder,
    ensures
        documents_are_leaves(s.update(k, FileMetaView { parent: s[pk].id, ..s[k] })),
{
    let t = s.update(k, FileMetaView { parent: s[pk].id, ..s[k] });
    assert forall|i: int, j: int|
        0 <= i < t.len() && 0 <= j < t.len() && #[trigger] t[i].parent == #[trigger] t[j].id
            && t[i].id != t[j].id implies t[j].file_type == FileType::Folder by {
        if i == k {
            if j != pk && j != k {
                assert(s[j].id != s[pk].id);
            }
            if j == k && k != pk {
                assert(s[k].id != s[pk].id);
            }
        } else if j == k {
            assert(t[i] == s[i]);
        } else {
            assert(t[i] == s[i] && t[j] == s[j]);
        }
    }
}

/// Renaming a file keeps every file under another under a folder.
pub proof fn lemma_rename_keeps_leaves(s: Seq<FileMetaView>, k: int, name: Seq<char>)
    requires
        documents_are_leaves(s),
        0 <= k < s.len(),
    ensures
        documents_are_leaves(s.update(k, FileMetaView { name, ..s[k] })),
{
    let t = s.update(k, FileMetaView { name, ..s[k] });
    assert forall|i: int, j: int|
        0 <= i < t.len() && 0 <= j < t.len() && #[trigger] t[i].parent == #[trigger] t[j].id
            && t[i].id != t[j].id implies t[j].file_type == FileType::Folder by {
        assert(t[i].parent == s[i].parent && t[i].id == s[i].id && t[j].id == s[j].id && t[j].file_type == s[j].file_type);
    }
}

/// A recorded rename: the name the file had when the change began.
#[derive(Clone, Debug, PartialEq)]
pub struct Renamed {
    pub old_value: String,
}

/// A recorded move: the parent the file had when the change began.
#[derive(Clone, Copy, Debug, PartialEq, Eq, Structural)]
pub struct Moved {
    pub old_value: u128,
}

/// What has changed about one file since it was last synced.
#[derive(Clone, Debug, PartialEq)]
pub struct LocalChange {
    pub id: u128,
    pub renamed: Option<Renamed>,
    pub moved: Option<Moved>,
    pub new: bool,
    pub content_edited: bool,
    pub deleted: bool,
}

pub struct ChangeView {
    pub id: u128,
    pub renamed: Option<Seq<char>>,
    pub moved: Option<u128>,
    pub new: bool,
    pub content_edited: bool,
    pub deleted: bool,
}

impl View for LocalChange {
    type V = ChangeView;

    open spec fn view(&self) -> ChangeView {
        ChangeView {
            id: self.id,
            renamed: match self.renamed {
                Some(r) => Some(r.old_value@),
                None => None,
            },
            moved: match self.moved {
                Some(m) => Some(m.old_value),
                None => None,
            },
            new: self.new,
            content_edited: self.content_edited,
            deleted: self.deleted,
        }
    }
}

impl Keyed for LocalChange {
    open spec fn key_of(v: ChangeView) -> u128 {
        v.id
    }

    fn key(&self) -> (k: u128) {
        self.id
    }
}

/// A change that records nothing.
pub open spec fn no_change(id: u128) -> ChangeView {
    ChangeView {
        id,
        renamed: None,
        moved: None,
        new: false,
        content_edited: false,
        deleted: false,
    }
}

pub open spec fn change_is_empty(c: ChangeView) -> bool {
    c.renamed is None && c.moved is None && !c.new && !c.content_edited && !c.deleted
}

/// The recorded change of `id`, or one that records nothing.
pub open spec fn current_change(changes: Map<u128, ChangeView>, id: u128) -> ChangeView {
    if changes.contains_key(id) {
        changes[id]
    } else {
        no_change(id)
    }
}

/// The change log with `c` written for its file, or the file's entry
/// dropped where `c` records nothing.
pub open spec fn store_change(changes: Map<u128, ChangeView>, c: ChangeView) -> Map<
    u128,
    ChangeView,
> {
    if change_is_empty(c) {
        changes.remove(c.id)
    } else {
        changes.insert(c.id, c)
    }
}

/// The change after renaming from `old_name` to `new_name`: a first rename
/// remembers the old name; a rename back to the remembered name undoes it.
pub open spec fn renamed_change(c: ChangeView, old_name: Seq<char>, new_name: Seq<char>) -> ChangeView {
    ChangeView {
        renamed: match c.renamed {
            Some(orig) => if orig == new_name {
                None
            } else {
                Some(orig)
            },
            None => Some(old_name),
        },
        ..c
    }
}

/// The change after moving from `old_parent` to `new_parent`: a first move
/// remembers the old parent; a move back to it undoes it.
pub open spec fn moved_change(c: ChangeView, old_parent: u128, new_parent: u128) -> ChangeView {
    ChangeView {
        moved: match c.moved {
            Some(orig) => if orig == new_parent {
                None
            } else {
                Some(orig)
            },
            None => Some(old_parent),
        },
        ..c
    }
}

/// More fuel finds the same path.
pub proof fn lemma_path_fuel_mono(m: Map<u128, FileMetaView>, id: u128, f1: nat, f2: nat)
    requires
        f1 <= f2,
        path_of(m, id, f1) is Some,
    ensures
        path_of(m, id, f2) == path_of(m, id, f1),
    decreases f1,
{
    if m[id].parent != id {
        lemma_path_fuel_mono(m, m[id].parent, (f1 - 1) as nat, (f2 - 1) as nat);
    }
}

/// Adding a file that was not there keeps every path that was found.
pub proof fn lemma_path_insert_fresh(
    m: Map<u128, FileMetaView>,
    k: u128,
    v: FileMetaView,
    id: u128,
    fuel: nat,
)
    requires
        !m.contains_key(k),
        path_of(m, id, fuel) is Some,
    ensures
        path_of(m.insert(k, v), id, fuel) == path_of(m, id, fuel),
    decreases fuel,
{
    assert(id != k);
    assert(m.insert(k, v)[id] == m[id]);
    if m[id].parent != id {
        lemma_path_insert_fresh(m, k, v, m[id].parent, (fuel - 1) as nat);
    }
}

/// Changing the metadata of a file in place, keeping its parent, name and
/// type, keeps every path.
pub proof fn lemma_path_same_shape(
    m: Map<u128, FileMetaView>,
    k: u128,
    v: FileMetaView,
    id: u128,
    fuel: nat,
)
    requires
        m.contains_key(k),
        v.parent == m[k].parent,
        v.name == m[k].name,
        v.file_type == m[k].file_type,
    ensures
        path_of(m.insert(k, v), id, fuel) == path_of(m, id, fuel),
    decreases fuel,
{
    if fuel > 0 && m.contains_key(id) {
        assert(path_segment(m.insert(k, v)[id]) == path_segment(m[id]));
        if m[id].parent != id {
            lemma_path_same_shape(m, k, v, m[id].parent, (fuel - 1) as nat);
        }
    }
}

/// A new file under a folder with a path has the folder's path followed by
/// its own segment.
pub proof fn lemma_path_new_child(
    m: Map<u128, FileMetaView>,
    v: FileMetaView,
    fuel: nat,
)
    requires
        !m.contains_key(v.id),
        v.parent != v.id,
        path_of(m, v.parent, fuel) is Some,
    ensures
        path_of(m.insert(v.id, v), v.id, fuel + 1) == Some(
            path_of(m, v.parent, fuel)->Some_0 + path_segment(v),
        ),
{
    lemma_path_insert_fresh(m, v.id, v, v.parent, fuel);
}

/// Adding a record to the table adds it to its parent's children.
pub proof fn lemma_children_push(s: Seq<FileMetaView>, x: FileMetaView, p: u128)
    ensures
        children_of(s.push(x), p) == (if is_child_of(x, p) {
            children_of(s, p).push(x)
        } else {
            children_of(s, p)
        }),
{
    reveal_with_fuel(Seq::<_>::filter, 1);
    assert(s.push(x).drop_last() =~= s);
}

} // verus!
