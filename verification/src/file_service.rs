//! The file service: creating files and folders, writing and reading
//! documents, renaming and moving files, each recorded in the change log.
use vstd::prelude::*;

use crate::account_repo::{AccountRepoImpl, Error as AccountError};
use crate::db::{DocumentRepoError, FileDb};
use crate::keyed::views;
use crate::model::{
    child_named, children_of, current_change, documents_are_leaves, ids_unique,
    lemma_move_keeps_leaves, lemma_move_keeps_names_unique, lemma_push_keeps_leaves,
    lemma_push_keeps_names_unique, lemma_rename_keeps_leaves, lemma_rename_keeps_names_unique,
    sibling_names_unique, lemma_children_push, lemma_path_fuel_mono, lemma_path_insert_fresh, path_of, moved_change, renamed_change, lemma_child_named, lemma_path_new_child,
    path_segment, store_change, Account, ChangeView, DecryptedValue, FileMetaView, FileMetadata, FileType,
};
use crate::text::{contains_char, ends_with_char, string_of};
use crate::db::first_match;
use crate::path_walk::{
    folder_segments, full_path, is_folder_named, lemma_components_names, lemma_first_match,
    lemma_folder_segments_split, lemma_walk_path, path_components, split_path, walk,
};
use crate::symkey::{self, bincode_string, opened_string, sealed_string, seal_panics, AESDecryptError, AESEncryptError, KEYSTREAM_MAX};

verus! {

/// The ancestors of a file do not lead to the root.
#[derive(Clone, Copy, Debug, PartialEq, Eq, Structural)]
pub enum FindingParentsFailed {
    AncestorMissing,
}

#[derive(Debug)]
pub enum NewFileError {
    AccountRetrievalError(AccountError),
    CouldNotFindParents(FindingParentsFailed),
    FailedToWriteFileContent(DocumentUpdateError),
    FileIdTaken,
    FileNameNotAvailable,
    ParentIsADocument,
    FileNameContainsSlash,
}

#[derive(Debug)]
pub enum NewFileFromPathError {
    NoRoot,
    InvalidRootFolder,
    FailedToCreateChild(NewFileError),
    FileAlreadyExists,
}

#[derive(Debug)]
pub enum DocumentUpdateError {
    AccountRetrievalError(AccountError),
    CouldNotFindFile,
    CouldNotFindParents(FindingParentsFailed),
    ThisIsAFolderYouDummy,
    FileCryptoError(AESEncryptError),
}

#[derive(Debug)]
pub enum ReadDocumentError {
    AccountRetrievalError(AccountError),
    CouldNotFindFile,
    ThisIsAFolderYouDummy,
    DocumentReadError(DocumentRepoError),
    CouldNotFindParents(FindingParentsFailed),
    FileCryptoError(AESDecryptError),
}

#[derive(Debug)]
pub enum DocumentRenameError {
    FileDoesNotExist,
    FileNameContainsSlash,
    FileNameNotAvailable,
}

#[derive(Debug)]
pub enum DocumentMoveError {
    AccountRetrievalError(AccountError),
    TargetParentHasChildNamedThat,
    FileDoesntExist,
    NewParentDoesntExist,
    CouldNotFindParents(FindingParentsFailed),
}

/// Nothing that the store holds has changed.
pub open spec fn unchanged(a: FileDb, b: FileDb) -> bool {
    &&& a.records() == b.records()
    &&& a.metadata() == b.metadata()
    &&& a.file_count() == b.file_count()
    &&& a.documents() == b.documents()
    &&& a.changes() == b.changes()
    &&& a.change_records() == b.change_records()
    &&& a.account_view() == b.account_view()
}

/// Document `id` is stored, encrypted under its key, with content `s`.
pub open spec fn holds_content(db: FileDb, id: u128, s: Seq<char>) -> bool {
    &&& db.metadata().contains_key(id)
    &&& db.documents().contains_key(id)
    &&& db.documents()[id].value == sealed_string(
        db.metadata()[id].access_key,
        db.documents()[id].nonce,
        s,
    )
    &&& bincode_string(s).len() < KEYSTREAM_MAX
}

/// The change log after the content of `id` was edited.
pub open spec fn edited(changes: Map<u128, ChangeView>, id: u128) -> Map<u128, ChangeView> {
    store_change(changes, ChangeView { content_edited: true, ..current_change(changes, id) })
}

/// The change log after `id` was created.
pub open spec fn created(changes: Map<u128, ChangeView>, id: u128) -> Map<u128, ChangeView> {
    store_change(changes, ChangeView { new: true, ..current_change(changes, id) })
}

/// `write_document` stores `s` as the content of `id`.
pub open spec fn write_allowed(db: FileDb, id: u128, s: Seq<char>) -> bool {
    &&& db.account_view() is Some
    &&& db.metadata().contains_key(id)
    &&& db.metadata()[id].file_type == FileType::Document
    &&& db.path(id) is Some
    &&& bincode_string(s).len() < KEYSTREAM_MAX
}

/// `read_document` finds document `id` and its key.
pub open spec fn read_allowed(db: FileDb, id: u128) -> bool {
    &&& db.account_view() is Some
    &&& db.metadata().contains_key(id)
    &&& db.metadata()[id].file_type == FileType::Document
    &&& db.documents().contains_key(id)
    &&& db.path(id) is Some
}

/// The content that `read_document` gives for `id`, if any.
pub open spec fn readable_content(db: FileDb, id: u128) -> Option<Seq<char>> {
    if read_allowed(db, id) {
        opened_string(db.metadata()[id].access_key, db.documents()[id])
    } else {
        None
    }
}

/// `create` makes file `name` under `parent`, unless the random id it draws
/// is taken.
pub open spec fn create_allowed(db: FileDb, name: Seq<char>, parent: u128) -> bool {
    &&& !name.contains('/')
    &&& db.account_view() is Some
    &&& db.path(parent) is Some
    &&& db.metadata()[parent].file_type == FileType::Folder
    &&& !child_named(db.records(), parent, name)
}

/// `new` is `old` with file `f` added as a new child of `parent`: its
/// metadata, its path, its empty content where it is a document, and its
/// changes recorded.
pub open spec fn created_file(
    old: FileDb,
    new: FileDb,
    f: FileMetaView,
    name: Seq<char>,
    parent: u128,
    file_type: FileType,
) -> bool {
    &&& f.name == name
    &&& f.parent == parent
    &&& f.file_type == file_type
    &&& !f.deleted
    &&& f.id != parent
    &&& !old.metadata().contains_key(f.id)
    &&& children_of(old.records(), f.id).len() == 0
    &&& new.metadata() == old.metadata().insert(f.id, f)
    &&& new.records() == old.records().push(f)
    &&& new.file_count() == old.file_count() + 1
    &&& new.path(f.id) == Some(old.path(parent)->Some_0 + path_segment(f))
    &&& new.account_view() == old.account_view()
    &&& forall|k: u128| #[trigger] old.path(k) is Some ==> new.path(k) == old.path(k)
    &&& file_type == FileType::Folder ==> new.documents() == old.documents() && new.changes()
        == created(old.changes(), f.id)
    &&& file_type == FileType::Document ==> holds_content(new, f.id, Seq::<char>::empty())
        && new.documents() == old.documents().insert(f.id, new.documents()[f.id])
        && new.changes() == edited(created(old.changes(), f.id), f.id)
}

/// `id` already names a file of `db`, or is the parent of one.
pub open spec fn id_taken(db: FileDb, id: u128) -> bool {
    db.metadata().contains_key(id) || children_of(db.records(), id).len() > 0
}

/// A fresh random id: `uuid::Uuid::new_v4` as its 128-bit value
/// (`Uuid::as_u128`). Nothing is claimed of it: it is random.
#[verifier::external_body]
fn new_file_id() -> u128 {
    uuid::Uuid::new_v4().as_u128()
}

/// `rename_file` renames file `id` to `new_name`.
pub open spec fn rename_allowed(db: FileDb, id: u128, new_name: Seq<char>) -> bool {
    &&& !new_name.contains('/')
    &&& db.metadata().contains_key(id)
    &&& !child_named(db.records(), db.metadata()[id].parent, new_name)
}

/// `move_file` moves file `id` into `new_parent`.
pub open spec fn move_allowed(db: FileDb, id: u128, new_parent: u128) -> bool {
    &&& db.account_view() is Some
    &&& db.metadata().contains_key(id)
    &&& db.metadata().contains_key(new_parent)
    &&& !child_named(db.records(), new_parent, db.metadata()[id].name)
    &&& db.path(id) is Some
    &&& db.path(new_parent) is Some
}

/// `e` is the refusal that `create` gives for `name` under `parent`.
pub open spec fn create_refusal(e: NewFileError, db: FileDb, name: Seq<char>, parent: u128) -> bool {
    &&& (e is FileNameContainsSlash <==> name.contains('/'))
    &&& (e is AccountRetrievalError <==> !name.contains('/') && db.account_view() is None)
    &&& (e is CouldNotFindParents <==> !name.contains('/') && db.account_view() is Some && db.path(
        parent,
    ) is None)
    &&& (e is ParentIsADocument <==> !name.contains('/') && db.account_view() is Some && db.path(
        parent,
    ) is Some && db.metadata()[parent].file_type == FileType::Document)
    &&& (e is FileNameNotAvailable <==> !name.contains('/') && db.account_view() is Some
        && db.path(parent) is Some && db.metadata()[parent].file_type == FileType::Folder
        && child_named(db.records(), parent, name))
    &&& !(e is FileIdTaken)
    &&& !(e is FailedToWriteFileContent)
}

/// The root is there and carries the first name of the path.
pub open spec fn root_matches(db: FileDb, comps: Seq<Seq<char>>) -> bool {
    db.root() is Some && db.root()->Some_0.name == comps[0]
}

/// The name at which `create_at_path` begins to make files, and the folder
/// under which it makes the first; `None` where the path exists.
pub open spec fn path_plan(db: FileDb, comps: Seq<Seq<char>>) -> Option<(int, u128)> {
    walk(db.records(), db.root()->Some_0.id, comps, 1)
}

/// The type of the file that `create_at_path` makes for name `i`.
pub open spec fn at_path_type(comps: Seq<Seq<char>>, is_folder: bool, i: int) -> FileType {
    if is_folder || i != comps.len() - 1 {
        FileType::Folder
    } else {
        FileType::Document
    }
}

/// The part of the path that `create_at_path` makes, from name `i` on.
pub open spec fn made_path(comps: Seq<Seq<char>>, is_folder: bool, i: int) -> Seq<char> {
    if is_folder {
        folder_segments(comps, i, comps.len() as int)
    } else {
        folder_segments(comps, i, comps.len() - 1) + comps[comps.len() - 1]
    }
}

pub open spec fn ends_in_slash(s: Seq<char>) -> bool {
    s.len() > 0 && s.last() == '/'
}

/// The files that `create_at_path` makes for the names `cs[i..]` under
/// folder `c`: each named after its name in the path and under the one
/// before, all folders but a last document where the path names one.
pub open spec fn at_path_shape(
    cs: Seq<Seq<char>>,
    is_folder: bool,
    i: int,
    c: u128,
    fs: Seq<FileMetaView>,
) -> bool {
    &&& fs.len() == cs.len() - i
    &&& forall|t: int|
        #![trigger fs[t].parent]
        #![trigger fs[t].name]
        #![trigger fs[t].file_type]
        0 <= t < fs.len() ==> fs[t].name == cs[i + t] && fs[t].parent == (if t == 0 {
            c
        } else {
            fs[t - 1].id
        }) && fs[t].file_type == at_path_type(cs, is_folder, i + t) && !fs[t].deleted
}

/// The files of `at_path_shape` with ids `ids` and keys `keys`, in order.
pub open spec fn planned_files(
    cs: Seq<Seq<char>>,
    is_folder: bool,
    i: int,
    c: u128,
    ids: Seq<u128>,
    keys: Seq<symkey::AESKey>,
) -> Seq<FileMetaView> {
    Seq::new(
        (cs.len() - i) as nat,
        |t: int|
            FileMetaView {
                id: ids[t],
                name: cs[i + t],
                parent: if t == 0 {
                    c
                } else {
                    ids[t - 1]
                },
                file_type: at_path_type(cs, is_folder, i + t),
                deleted: false,
                access_key: keys[t],
            },
    )
}

/// The files that `create_at_path_with_ids` makes for `path` in `db`.
pub open spec fn planned_for(
    db: FileDb,
    path: Seq<char>,
    ids: Seq<u128>,
    keys: Seq<symkey::AESKey>,
) -> Seq<FileMetaView> {
    let cs = path_components(path);
    planned_files(
        cs,
        ends_in_slash(path),
        path_plan(db, cs)->Some_0.0,
        path_plan(db, cs)->Some_0.1,
        ids,
        keys,
    )
}

/// The first `count` ids are distinct and none is taken in `db`.
pub open spec fn ids_fresh(db: FileDb, ids: Seq<u128>, count: int) -> bool {
    &&& forall|t: int| 0 <= t < count ==> !id_taken(db, #[trigger] ids[t])
    &&& forall|s: int, t: int| 0 <= s < t < count ==> #[trigger] ids[s] != #[trigger] ids[t]
}

/// `m` with the files `fs` added in order.
pub open spec fn metas_with(m: Map<u128, FileMetaView>, fs: Seq<FileMetaView>) -> Map<
    u128,
    FileMetaView,
>
    decreases fs.len(),
{
    if fs.len() == 0 {
        m
    } else {
        metas_with(m, fs.drop_last()).insert(fs.last().id, fs.last())
    }
}

/// The change log after the files `fs` were created in order, a document's
/// empty content recorded as an edit.
pub open spec fn created_all(changes: Map<u128, ChangeView>, fs: Seq<FileMetaView>) -> Map<
    u128,
    ChangeView,
>
    decreases fs.len(),
{
    if fs.len() == 0 {
        changes
    } else {
        let c = created(created_all(changes, fs.drop_last()), fs.last().id);
        if fs.last().file_type == FileType::Document {
            edited(c, fs.last().id)
        } else {
            c
        }
    }
}

/// `new` is `old` after `create_at_path` made the files `fs` for `path`,
/// and nothing else.
pub open spec fn made_at_path(old: FileDb, new: FileDb, path: Seq<char>, fs: Seq<FileMetaView>) -> bool {
    let cs = path_components(path);
    &&& path_plan(old, cs) is Some
    &&& at_path_shape(
        cs,
        ends_in_slash(path),
        path_plan(old, cs)->Some_0.0,
        path_plan(old, cs)->Some_0.1,
        fs,
    )
    &&& fs.len() > 0
    &&& forall|t: int| 0 <= t < fs.len() ==> !id_taken(old, #[trigger] fs[t].id)
    &&& new.records() == old.records() + fs
    &&& new.metadata() == metas_with(old.metadata(), fs)
    &&& new.file_count() == old.file_count() + fs.len()
    &&& new.changes() == created_all(old.changes(), fs)
    &&& new.account_view() == old.account_view()
    &&& forall|k: u128| #[trigger] old.path(k) is Some ==> new.path(k) == old.path(k)
    &&& forall|t: int|
        0 <= t < fs.len() ==> new.path(#[trigger] fs[t].id) == Some(
            old.path(path_plan(old, cs)->Some_0.1)->Some_0 + folder_segments(
                cs,
                path_plan(old, cs)->Some_0.0,
                path_plan(old, cs)->Some_0.0 + t,
            ) + path_segment(fs[t]),
        )
    &&& fs.last().file_type == FileType::Folder ==> new.documents() == old.documents()
    &&& fs.last().file_type == FileType::Document ==> holds_content(
        new,
        fs.last().id,
        Seq::<char>::empty(),
    ) && new.documents() == old.documents().insert(fs.last().id, new.documents()[fs.last().id])
}

/// `create_at_path` makes the files for `path`, unless an id it draws is
/// taken: the root carries the path's first name, some name of the path is
/// missing, and the first missing one may be made.
pub open spec fn at_path_allowed(db: FileDb, path: Seq<char>) -> bool {
    let cs = path_components(path);
    &&& root_matches(db, cs)
    &&& cs.len() > 1
    &&& path_plan(db, cs) is Some
    &&& create_allowed(db, cs[path_plan(db, cs)->Some_0.0], path_plan(db, cs)->Some_0.1)
}

/// `create_at_path_with_ids` makes the files for `path` with ids `ids`.
pub open spec fn at_path_ok(db: FileDb, path: Seq<char>, ids: Seq<u128>) -> bool {
    let cs = path_components(path);
    &&& at_path_allowed(db, path)
    &&& ids_fresh(db, ids, cs.len() - path_plan(db, cs)->Some_0.0)
}

/// Whether the first `count` ids are distinct and none is taken in `db`.
fn ids_free(db: &FileDb, ids: &Vec<u128>, count: usize) -> (r: bool)
    requires
        db.wf(),
        count <= ids@.len(),
    ensures
        r == ids_fresh(*db, ids@, count as int),
{
    let mut t: usize = 0;
    while t < count
        invariant
            t <= count <= ids@.len(),
            db.wf(),
            ids_fresh(*db, ids@, t as int),
        decreases count - t,
    {
        if db.maybe_get(ids[t]).is_some() || !db.has_no_children(ids[t]) {
            assert(id_taken(*db, ids@[t as int]));
            return false;
        }
        let mut s: usize = 0;
        while s < t
            invariant
                s <= t < count <= ids@.len(),
                forall|q: int| 0 <= q < s ==> ids@[q] != ids@[t as int],
            decreases t - s,
        {
            if ids[s] == ids[t] {
                assert(ids@[s as int] == ids@[t as int]);
                return false;
            }
            s = s + 1;
        }
        t = t + 1;
    }
    true
}

/// The names that `comps` holds.
pub open spec fn names_of(comps: Seq<String>) -> Seq<Seq<char>> {
    comps.map_values(|c: String| c@)
}

/// What `scan_children` found among the children of a folder.
enum Scan {
    Exists,
    Folder(FileMetadata),
    Absent,
}

/// Looks through `children` for `name`: where it is the last name of the
/// path, any child so named means the path exists; otherwise the first
/// folder so named is where the walk goes on.
fn scan_children(children: &Vec<FileMetadata>, name: &String, last: bool) -> (r: Scan)
    ensures
        last ==> (r is Exists <==> exists|k: int|
            0 <= k < children@.len() && (#[trigger] children@[k]).name@ == name@),
        last ==> !(r is Folder),
        !last ==> !(r is Exists),
        !last ==> (r is Absent <==> first_match(
            views(children@),
            |f: FileMetaView| is_folder_named(f, name@),
        ) is None),
        !last ==> (r matches Scan::Folder(c) ==> first_match(
            views(children@),
            |f: FileMetaView| is_folder_named(f, name@),
        ) == Some(c@)),
{
    let ghost s = views(children@);
    let ghost pred = |f: FileMetaView| is_folder_named(f, name@);
    assert(s.skip(0) =~= s);
    let mut j: usize = 0;
    while j < children.len()
        invariant
            j <= children@.len(),
            s == views(children@),
            pred == (|f: FileMetaView| is_folder_named(f, name@)),
            first_match(s, pred) == first_match(s.skip(j as int), pred),
            forall|k: int| 0 <= k < j ==> last ==> (#[trigger] children@[k]).name@ != name@,
        decreases children@.len() - j,
    {
        assert(s.skip(j as int)[0] == s[j as int]);
        assert(s.skip(j as int).drop_first() =~= s.skip(j + 1));
        if children[j].name == *name {
            if last {
                return Scan::Exists;
            }
            if children[j].file_type == FileType::Folder {
                return Scan::Folder(children[j].clone_metadata());
            }
        }
        j = j + 1;
    }
    assert(s.skip(j as int) =~= Seq::<FileMetaView>::empty());
    Scan::Absent
}

/// Makes the metadata of files whose keys the service creates.
pub struct FileEncryptionService;

impl FileEncryptionService {
    /// The metadata of a new root folder for `account`: named after the
    /// user, its own parent, with a fresh random id and key.
    pub fn create_metadata_for_root_folder(account: &Account) -> (r: FileMetadata)
        ensures
            r.name@ == account.username@,
            r.parent == r.id,
            r.file_type == FileType::Folder,
            !r.deleted,
    {
        let id = new_file_id();
        FileMetadata {
            id,
            name: account.username.clone(),
            parent: id,
            file_type: FileType::Folder,
            deleted: false,
            access_key: symkey::generate_key(),
        }
    }
}

/// The operations of the file service on a local store.
pub struct FileServiceImpl;

impl FileServiceImpl {
    /// Whether `create` may make file `name` under `parent`, and if not, the
    /// refusal it gives.
    fn new_file_refusal(db: &FileDb, name: &str, parent: u128) -> (r: Result<(), NewFileError>)
        requires
            db.wf(),
        ensures
            r is Ok <==> create_allowed(*db, name@, parent),
            r matches Err(e) ==> create_refusal(e, *db, name@, parent),
    {
        if contains_char(name, '/') {
            return Err(NewFileError::FileNameContainsSlash);
        }
        let _account = match AccountRepoImpl::get_account(db) {
            Ok(a) => a,
            Err(e) => {
                return Err(NewFileError::AccountRetrievalError(e));
            },
        };
        if db.get_path(parent).is_none() {
            return Err(NewFileError::CouldNotFindParents(FindingParentsFailed::AncestorMissing));
        }
        let parent_meta = match db.maybe_get(parent) {
            Some(p) => p,
            None => {
                return Err(NewFileError::CouldNotFindParents(FindingParentsFailed::AncestorMissing));
            },
        };
        if parent_meta.file_type == FileType::Document {
            return Err(NewFileError::ParentIsADocument);
        }
        let name_s = string_of(name);
        let kids = db.get_children(parent);
        let mut i: usize = 0;
        #[verifier::loop_isolation(false)]
        while i < kids.len()
            invariant
                i <= kids@.len(),
                name_s@ == name@,
                forall|j: int| 0 <= j < i ==> (#[trigger] kids@[j]).name@ != name@,
            decreases kids@.len() - i,
        {
            if kids[i].name == name_s {
                proof {
                    lemma_child_named(db.records(), parent, name@);
                    assert(views(kids@)[i as int].name == name@);
                }
                return Err(NewFileError::FileNameNotAvailable);
            }
            i = i + 1;
        }
        proof {
            lemma_child_named(db.records(), parent, name@);
            assert forall|j: int| 0 <= j < children_of(db.records(), parent).len() implies (
            #[trigger] children_of(db.records(), parent)[j]).name != name@ by {
                assert(children_of(db.records(), parent)[j] == kids@[j]@);
            }
        }
        Ok(())
    }

    /// Creates file `name` of type `file_type` under folder `parent`, with a
    /// fresh random id and key; a document starts with empty content. What
    /// happens for each id that is drawn is the contract of `create_with_id`.
    pub fn create(db: &mut FileDb, name: &str, parent: u128, file_type: FileType) -> (r: Result<
        FileMetadata,
        NewFileError,
    >)
        requires
            old(db).wf(),
        ensures
            final(db).wf(),
            !create_allowed(*old(db), name@, parent) ==> (r matches Err(e) && create_refusal(
                e,
                *old(db),
                name@,
                parent,
            )),
            create_allowed(*old(db), name@, parent) ==> (r is Ok || (r matches Err(e)
                && e is FileIdTaken)),
            r is Err ==> unchanged(*final(db), *old(db)),
            r matches Ok(f) ==> created_file(*old(db), *final(db), f@, name@, parent, file_type),
            r is Ok ==> (sibling_names_unique(old(db).records()) ==> sibling_names_unique(
                final(db).records(),
            )),
            r is Ok ==> (documents_are_leaves(old(db).records()) ==> documents_are_leaves(
                final(db).records(),
            )),
    {
        let id = new_file_id();
        let key = symkey::generate_key();
        Self::create_with_id(db, name, parent, file_type, id, key)
    }

    /// Creates file `name` of type `file_type` under folder `parent` with id
    /// `id` and key `key`; a document starts with empty content. It fails
    /// with `FileIdTaken` where `id` already names a file or is the parent
    /// of one.
    pub fn create_with_id(
        db: &mut FileDb,
        name: &str,
        parent: u128,
        file_type: FileType,
        id: u128,
        key: symkey::AESKey,
    ) -> (r: Result<FileMetadata, NewFileError>)
        requires
            old(db).wf(),
        ensures
            final(db).wf(),
            !create_allowed(*old(db), name@, parent) ==> (r matches Err(e) && create_refusal(
                e,
                *old(db),
                name@,
                parent,
            )),
            create_allowed(*old(db), name@, parent) && id_taken(*old(db), id) ==> r matches Err(
                NewFileError::FileIdTaken,
            ),
            create_allowed(*old(db), name@, parent) && !id_taken(*old(db), id) ==> (r matches Ok(f)
                && f.id == id && f.access_key == key && created_file(
                *old(db),
                *final(db),
                f@,
                name@,
                parent,
                file_type,
            )),
            r is Err ==> unchanged(*final(db), *old(db)),
            r is Ok ==> (sibling_names_unique(old(db).records()) ==> sibling_names_unique(
                final(db).records(),
            )),
            r is Ok ==> (documents_are_leaves(old(db).records()) ==> documents_are_leaves(
                final(db).records(),
            )),
    {
        match Self::new_file_refusal(db, name, parent) {
            Ok(()) => {},
            Err(e) => {
                return Err(e);
            },
        }
        proof {
            lemma_child_named(db.records(), parent, name@);
            db.lemma_wf();
        }
        let name_s = string_of(name);
        if db.maybe_get(id).is_some() || !db.has_no_children(id) {
            return Err(NewFileError::FileIdTaken);
        }
        let meta = FileMetadata {
            id,
            name: name_s,
            parent,
            file_type,
            deleted: false,
            access_key: key,
        };
        let result = meta.clone_metadata();
        let ghost old_db = *db;
        let ghost fv = meta@;
        proof {
            old_db.lemma_wf();
            lemma_path_new_child(old_db.metadata(), fv, old_db.file_count());
        }
        db.insert(meta);
        db.track_new_file(id);
        let ghost mid_db = *db;
        if file_type == FileType::Document {
            proof {
                assert(vstd::utf8::encode_utf8(Seq::<char>::empty()) =~= Seq::<u8>::empty());
            }
            let empty = DecryptedValue { secret: String::new() };
            match Self::write_document(db, id, &empty) {
                Ok(()) => {},
                Err(e) => {
                    return Err(NewFileError::FailedToWriteFileContent(e));
                },
            }
        }
        proof {
            let s0 = old_db.records();
            if sibling_names_unique(s0) {
                lemma_push_keeps_names_unique(s0, fv);
            }
            if documents_are_leaves(s0) {
                assert(ids_unique(s0));
                assert forall|i: int| 0 <= i < s0.len() implies s0[i].id != fv.id by {
                    assert(old_db.metadata().contains_key(s0[i].id));
                }
                lemma_push_keeps_leaves(s0, fv, old_db.index_of(parent));
            }
            assert forall|k: u128| #[trigger] old_db.path(k) is Some implies db.path(k) == old_db.path(k) by {
                lemma_path_fuel_mono(old_db.metadata(), k, old_db.file_count(), old_db.file_count() + 1);
                lemma_path_insert_fresh(old_db.metadata(), id, fv, k, old_db.file_count() + 1);
            }
        }
        Ok(result)
    }

    /// Encrypts `content` under the key of document `id` and stores it.
    pub fn write_document(db: &mut FileDb, id: u128, content: &DecryptedValue) -> (r: Result<
        (),
        DocumentUpdateError,
    >)
        requires
            old(db).wf(),
            !seal_panics(bincode_string(content.secret@).len() as int),
        ensures
            final(db).wf(),
            r is Ok <==> write_allowed(*old(db), id, content.secret@),
            r matches Err(e) ==> (e is AccountRetrievalError <==> old(db).account_view() is None),
            r matches Err(e) ==> (e is CouldNotFindFile <==> old(db).account_view() is Some
                && !old(db).metadata().contains_key(id)),
            r matches Err(e) ==> (e is ThisIsAFolderYouDummy <==> old(db).account_view() is Some
                && old(db).metadata().contains_key(id) && old(db).metadata()[id].file_type
                == FileType::Folder),
            r matches Err(e) ==> (e is CouldNotFindParents <==> old(db).account_view() is Some
                && old(db).metadata().contains_key(id) && old(db).metadata()[id].file_type
                == FileType::Document && old(db).path(id) is None),
            r is Err ==> unchanged(*final(db), *old(db)),
            r is Ok ==> holds_content(*final(db), id, content.secret@),
            r is Ok ==> read_allowed(*final(db), id),
            r is Ok ==> final(db).documents() == old(db).documents().insert(
                id,
                final(db).documents()[id],
            ),
            r is Ok ==> final(db).changes() == edited(old(db).changes(), id),
            r is Ok ==> final(db).records() == old(db).records(),
            r is Ok ==> final(db).metadata() == old(db).metadata(),
            r is Ok ==> final(db).file_count() == old(db).file_count(),
            r is Ok ==> final(db).account_view() == old(db).account_view(),
    {
        let _account = match AccountRepoImpl::get_account(db) {
            Ok(a) => a,
            Err(e) => {
                return Err(DocumentUpdateError::AccountRetrievalError(e));
            },
        };
        let file_metadata = match db.maybe_get(id) {
            Some(f) => f,
            None => {
                return Err(DocumentUpdateError::CouldNotFindFile);
            },
        };
        if file_metadata.file_type == FileType::Folder {
            return Err(DocumentUpdateError::ThisIsAFolderYouDummy);
        }
        if db.get_path(id).is_none() {
            return Err(DocumentUpdateError::CouldNotFindParents(FindingParentsFailed::AncestorMissing));
        }
        let new_file = match symkey::encrypt(&file_metadata.access_key, &content.secret) {
            Ok(e) => e,
            Err(e) => {
                return Err(DocumentUpdateError::FileCryptoError(e));
            },
        };
        let ghost m0 = db.metadata();
        let ghost r0 = db.records();
        proof {
            db.lemma_wf();
        }
        db.insert(file_metadata);
        assert(db.metadata() =~= m0);
        assert(db.records() =~= r0);
        let ghost d0 = db.documents();
        let ghost ev = new_file@;
        db.insert_document(id, new_file);
        assert(db.documents()[id] == ev);
        db.track_edit(id);
        Ok(())
    }

    /// Decrypts and gives the content of document `id`.
    pub fn read_document(db: &FileDb, id: u128) -> (r: Result<DecryptedValue, ReadDocumentError>)
        requires
            db.wf(),
        ensures
            r is Ok <==> readable_content(*db, id) is Some,
            r matches Ok(v) ==> readable_content(*db, id) == Some(v.secret@),
            forall|s: Seq<char>|
                read_allowed(*db, id) && #[trigger] holds_content(*db, id, s) ==> (r matches Ok(v)
                    && v.secret@ == s),
            r matches Err(e) ==> (e is AccountRetrievalError <==> db.account_view() is None),
            r matches Err(e) ==> (e is CouldNotFindFile <==> db.account_view() is Some
                && !db.metadata().contains_key(id)),
            r matches Err(e) ==> (e is ThisIsAFolderYouDummy <==> db.account_view() is Some
                && db.metadata().contains_key(id) && db.metadata()[id].file_type
                == FileType::Folder),
            r matches Err(e) ==> (e is DocumentReadError <==> db.account_view() is Some
                && db.metadata().contains_key(id) && db.metadata()[id].file_type
                == FileType::Document && !db.documents().contains_key(id)),
            r matches Err(e) ==> (e is CouldNotFindParents <==> db.account_view() is Some
                && db.metadata().contains_key(id) && db.metadata()[id].file_type
                == FileType::Document && db.documents().contains_key(id) && db.path(id) is None),
            r matches Err(e) ==> (e is FileCryptoError <==> read_allowed(*db, id)),
    {
        let _account = match AccountRepoImpl::get_account(db) {
            Ok(a) => a,
            Err(e) => {
                return Err(ReadDocumentError::AccountRetrievalError(e));
            },
        };
        let file_metadata = match db.maybe_get(id) {
            Some(f) => f,
            None => {
                return Err(ReadDocumentError::CouldNotFindFile);
            },
        };
        if file_metadata.file_type == FileType::Folder {
            return Err(ReadDocumentError::ThisIsAFolderYouDummy);
        }
        let document = match db.get_document(id) {
            Some(d) => d,
            None => {
                return Err(ReadDocumentError::DocumentReadError(DocumentRepoError::NoDocument));
            },
        };
        if db.get_path(id).is_none() {
            return Err(ReadDocumentError::CouldNotFindParents(FindingParentsFailed::AncestorMissing));
        }
        proof {
            db.lemma_wf();
        }
        match symkey::decrypt(&file_metadata.access_key, &document) {
            Ok(secret) => Ok(DecryptedValue { secret }),
            Err(e) => Err(ReadDocumentError::FileCryptoError(e)),
        }
    }

    /// Renames file `id` to `new_name`.
    pub fn rename_file(db: &mut FileDb, id: u128, new_name: &str) -> (r: Result<
        (),
        DocumentRenameError,
    >)
        requires
            old(db).wf(),
        ensures
            final(db).wf(),
            r is Ok <==> rename_allowed(*old(db), id, new_name@),
            r matches Err(e) ==> (e is FileNameContainsSlash <==> new_name@.contains('/')),
            r matches Err(e) ==> (e is FileDoesNotExist <==> !new_name@.contains('/') && !old(db).metadata().contains_key(id)),
            r matches Err(e) ==> (e is FileNameNotAvailable <==> !new_name@.contains('/') && old(db).metadata().contains_key(id) && child_named(
                old(db).records(),
                old(db).metadata()[id].parent,
                new_name@,
            )),
            r is Err ==> unchanged(*final(db), *old(db)),
            r is Ok ==> final(db).metadata() == old(db).metadata().insert(
                id,
                FileMetaView { name: new_name@, ..old(db).metadata()[id] },
            ),
            r is Ok ==> final(db).records() == old(db).records().update(
                old(db).index_of(id),
                FileMetaView { name: new_name@, ..old(db).metadata()[id] },
            ),
            r is Ok ==> 0 <= old(db).index_of(id) < old(db).records().len() && old(db).records()[old(db).index_of(id)] == old(db).metadata()[id],
            r is Ok ==> final(db).changes() == store_change(
                old(db).changes(),
                renamed_change(
                    current_change(old(db).changes(), id),
                    old(db).metadata()[id].name,
                    new_name@,
                ),
            ),
            r is Ok ==> final(db).file_count() == old(db).file_count(),
            r is Ok ==> final(db).documents() == old(db).documents(),
            r is Ok ==> final(db).account_view() == old(db).account_view(),
            r is Ok ==> (sibling_names_unique(old(db).records()) ==> sibling_names_unique(
                final(db).records(),
            )),
            r is Ok ==> (documents_are_leaves(old(db).records()) ==> documents_are_leaves(
                final(db).records(),
            )),
    {
        let ghost old_db = *db;
        if contains_char(new_name, '/') {
            return Err(DocumentRenameError::FileNameContainsSlash);
        }
        let mut file = match db.maybe_get(id) {
            Some(f) => f,
            None => {
                return Err(DocumentRenameError::FileDoesNotExist);
            },
        };
        proof {
            db.lemma_wf();
        }
        let new_name_s = string_of(new_name);
        let siblings = db.get_children(file.parent);
        let ghost p = file.parent;
        let mut i: usize = 0;
        #[verifier::loop_isolation(false)]
        while i < siblings.len()
            invariant
                i <= siblings@.len(),
                forall|j: int| 0 <= j < i ==> (#[trigger] siblings@[j]).name@ != new_name@,
            decreases siblings@.len() - i,
        {
            if siblings[i].name == new_name_s {
                proof {
                    lemma_child_named(db.records(), p, new_name@);
                    assert(views(siblings@)[i as int].name == new_name@);
                }
                return Err(DocumentRenameError::FileNameNotAvailable);
            }
            i = i + 1;
        }
        proof {
            lemma_child_named(db.records(), p, new_name@);
            assert forall|j: int| 0 <= j < children_of(db.records(), p).len() implies (
            #[trigger] children_of(db.records(), p)[j]).name != new_name@ by {
                assert(children_of(db.records(), p)[j] == siblings@[j]@);
            }
        }
        db.track_rename(id, &file.name, &new_name_s);
        file.name = new_name_s;
        db.insert(file);
        proof {
            let s0 = old_db.records();
            let k = old_db.index_of(id);
            if sibling_names_unique(s0) {
                lemma_rename_keeps_names_unique(s0, k, new_name@);
            }
            if documents_are_leaves(s0) {
                lemma_rename_keeps_leaves(s0, k, new_name@);
            }
        }
        Ok(())
    }

    /// Moves file `id` into folder `new_parent`.
    pub fn move_file(db: &mut FileDb, id: u128, new_parent: u128) -> (r: Result<
        (),
        DocumentMoveError,
    >)
        requires
            old(db).wf(),
        ensures
            final(db).wf(),
            r is Ok <==> move_allowed(*old(db), id, new_parent),
            r matches Err(e) ==> (e is AccountRetrievalError <==> old(db).account_view() is None),
            r matches Err(e) ==> (e is FileDoesntExist <==> old(db).account_view() is Some && !old(db).metadata().contains_key(id)),
            r matches Err(e) ==> (e is NewParentDoesntExist <==> old(db).account_view() is Some
                && old(db).metadata().contains_key(id) && !old(db).metadata().contains_key(
                new_parent,
            )),
            r matches Err(e) ==> (e is TargetParentHasChildNamedThat <==> old(db).account_view() is Some
                && old(db).metadata().contains_key(id) && old(db).metadata().contains_key(
                new_parent,
            ) && child_named(old(db).records(), new_parent, old(db).metadata()[id].name)),
            r matches Err(e) ==> (e is CouldNotFindParents <==> old(db).account_view() is Some
                && old(db).metadata().contains_key(id) && old(db).metadata().contains_key(
                new_parent,
            ) && !child_named(old(db).records(), new_parent, old(db).metadata()[id].name) && (old(db).path(id) is None || old(db).path(new_parent) is None)),
            r is Err ==> unchanged(*final(db), *old(db)),
            r is Ok ==> final(db).metadata() == old(db).metadata().insert(
                id,
                FileMetaView { parent: new_parent, ..old(db).metadata()[id] },
            ),
            r is Ok ==> final(db).records() == old(db).records().update(
                old(db).index_of(id),
                FileMetaView { parent: new_parent, ..old(db).metadata()[id] },
            ),
            r is Ok ==> 0 <= old(db).index_of(id) < old(db).records().len() && old(db).records()[old(db).index_of(id)] == old(db).metadata()[id],
            r is Ok ==> final(db).changes() == store_change(
                old(db).changes(),
                moved_change(
                    current_change(old(db).changes(), id),
                    old(db).metadata()[id].parent,
                    new_parent,
                ),
            ),
            r is Ok ==> final(db).file_count() == old(db).file_count(),
            r is Ok ==> final(db).documents() == old(db).documents(),
            r is Ok ==> final(db).account_view() == old(db).account_view(),
            r is Ok ==> (sibling_names_unique(old(db).records()) ==> sibling_names_unique(
                final(db).records(),
            )),
            r is Ok ==> (documents_are_leaves(old(db).records()) && old(db).metadata()[new_parent].file_type
                == FileType::Folder ==> documents_are_leaves(final(db).records())),
    {
        let ghost old_db = *db;
        let _account = match AccountRepoImpl::get_account(db) {
            Ok(a) => a,
            Err(e) => {
                return Err(DocumentMoveError::AccountRetrievalError(e));
            },
        };
        let mut file = match db.maybe_get(id) {
            Some(f) => f,
            None => {
                return Err(DocumentMoveError::FileDoesntExist);
            },
        };
        let parent_metadata = match db.maybe_get(new_parent) {
            Some(p) => p,
            None => {
                return Err(DocumentMoveError::NewParentDoesntExist);
            },
        };
        proof {
            db.lemma_wf();
        }
        let siblings = db.get_children(parent_metadata.id);
        let mut i: usize = 0;
        #[verifier::loop_isolation(false)]
        while i < siblings.len()
            invariant
                i <= siblings@.len(),
                forall|j: int| 0 <= j < i ==> (#[trigger] siblings@[j]).name@ != file.name@,
            decreases siblings@.len() - i,
        {
            if siblings[i].name == file.name {
                proof {
                    lemma_child_named(db.records(), new_parent, file.name@);
                    assert(views(siblings@)[i as int].name == file.name@);
                }
                return Err(DocumentMoveError::TargetParentHasChildNamedThat);
            }
            i = i + 1;
        }
        proof {
            lemma_child_named(db.records(), new_parent, file.name@);
            assert forall|j: int| 0 <= j < children_of(db.records(), new_parent).len() implies (
            #[trigger] children_of(db.records(), new_parent)[j]).name != file.name@ by {
                assert(children_of(db.records(), new_parent)[j] == siblings@[j]@);
            }
        }
        if db.get_path(file.id).is_none() {
            return Err(DocumentMoveError::CouldNotFindParents(FindingParentsFailed::AncestorMissing));
        }
        if db.get_path(parent_metadata.id).is_none() {
            return Err(DocumentMoveError::CouldNotFindParents(FindingParentsFailed::AncestorMissing));
        }
        db.track_move(file.id, file.parent, parent_metadata.id);
        file.parent = parent_metadata.id;
        db.insert(file);
        proof {
            let s0 = old_db.records();
            let k = old_db.index_of(id);
            if sibling_names_unique(s0) {
                lemma_move_keeps_names_unique(s0, k, new_parent);
            }
            if documents_are_leaves(s0) && old_db.metadata()[new_parent].file_type == FileType::Folder {
                assert(ids_unique(s0));
                lemma_move_keeps_leaves(s0, k, old_db.index_of(new_parent));
            }
        }
        Ok(())
    }

    /// Walks the names `comps[1..]` down from `root`: `None` where the whole
    /// path exists, otherwise where the first missing name stands and the
    /// folder under which it is to be made.
    fn find_missing(db: &FileDb, comps: &Vec<String>, root: &FileMetadata) -> (r: Option<(usize, FileMetadata)>)
        requires
            db.wf(),
            names_of(comps@).len() > 1,
            forall|j: int| 0 <= j < comps@.len() ==> !(#[trigger] names_of(comps@)[j]).contains('/'),
            db.root() == Some(root@),
            root.name@ == names_of(comps@)[0],
        ensures
            r is None <==> walk(db.records(), root.id, names_of(comps@), 1) is None,
            r matches Some((index, c)) ==> index + 1 < comps@.len() && walk(
                db.records(),
                root.id,
                names_of(comps@),
                1,
            ) == Some(((index + 1) as int, c.id)) && db.metadata().contains_key(c.id)
                && db.metadata()[c.id] == c@,
            r matches Some((index, c)) ==> (root.file_type == FileType::Folder ==> forall|g: nat| #[trigger]
                path_of(db.metadata(), c.id, g) is Some ==> path_of(db.metadata(), c.id, g)
                    == Some(folder_segments(names_of(comps@), 0, index + 1))),
    {
        let ghost cs = names_of(comps@);
        let ghost m = db.metadata();
        let ghost records = db.records();
        let ghost root_folder = root.file_type == FileType::Folder;
        let n = comps.len();
        proof {
            db.lemma_wf();
            db.lemma_root();
            assert(m[root.id] == root@);
            assert forall|g: nat| #[trigger] path_of(m, root.id, g) is Some && root_folder implies path_of(
                m,
                root.id,
                g,
            ) == Some(folder_segments(cs, 0, 1)) by {
                assert(root.name@ == cs[0]);
                assert(path_of(m, root.id, g) == Some(path_segment(m[root.id])));
                assert(path_segment(m[root.id]) == cs[0].push('/'));
                assert(folder_segments(cs, 0, 0) =~= Seq::<char>::empty());
                assert(folder_segments(cs, 0, 1) == folder_segments(cs, 0, 0) + cs[0].push('/'));
                assert(cs[0].push('/') =~= Seq::<char>::empty() + cs[0].push('/'));
            }
        }
        let mut current = root.clone_metadata();
        let mut index: usize = 0;
        loop
            invariant
                n == cs.len(),
                n > 1,
                forall|j: int| 0 <= j < cs.len() ==> !(#[trigger] cs[j]).contains('/'),
                names_of(comps@) == cs,
                root_folder == (root.file_type == FileType::Folder),
                m == db.metadata(),
                records == db.records(),
                db.wf(),
                forall|k: u128| #[trigger] m.contains_key(k) ==> m[k].id == k,
                forall|i: int| 0 <= i < records.len() ==> #[trigger] m.contains_key(records[i].id)
                    && m[records[i].id] == records[i],
                0 <= index < n - 1,
                m.contains_key(current.id),
                m[current.id] == current@,
                walk(records, root.id, cs, 1) == walk(
                    records,
                    current.id,
                    cs,
                    index + 1,
                ),
                forall|g: nat| #[trigger]
                    path_of(m, current.id, g) is Some && root_folder ==> path_of(m, current.id, g)
                        == Some(folder_segments(cs, 0, index + 1)),
            ensures
                0 <= index < n - 1,
                m.contains_key(current.id),
                m[current.id] == current@,
                walk(records, root.id, cs, 1) == Some(((index + 1) as int, current.id)),
                forall|g: nat| #[trigger]
                    path_of(m, current.id, g) is Some && root_folder ==> path_of(m, current.id, g)
                        == Some(folder_segments(cs, 0, index + 1)),
            decreases n - 1 - index,
        {
            let children = db.get_children(current.id);
            let last = index == n - 2;
            let ghost kids = children_of(records, current.id);
            let ghost name = cs[index + 1];
            assert(comps@[index + 1]@ == name);
            match scan_children(&children, &comps[index + 1], last) {
                Scan::Exists => {
                    proof {
                        lemma_child_named(records, current.id, name);
                        let k = choose|k: int| 0 <= k < children@.len() && (#[trigger] children@[k]).name@ == name;
                        assert(kids[k] == children@[k]@);
                    }
                    return None;
                },
                Scan::Folder(c) => {
                    proof {
                        let pred = |f: FileMetaView| is_folder_named(f, name);
                        lemma_first_match(kids, pred);
                        let k = choose|k: int| 0 <= k < kids.len() && kids[k] == c@;
                        let cur_id = current.id;
                        records.lemma_filter_contains_rev(|f: FileMetaView| crate::model::is_child_of(f, cur_id), c@);
                        assert(kids.contains(c@));
                        assert(records.contains(c@));
                        let ri = choose|ri: int| 0 <= ri < records.len() && records[ri] == c@;
                        assert(m.contains_key(records[ri].id));
                        assert(m[c.id] == c@);
                        assert forall|g: nat| #[trigger]
                            path_of(m, c.id, g) is Some && root_folder implies path_of(m, c.id, g)
                                == Some(folder_segments(cs, 0, index + 2)) by {
                            lemma_walk_path(m, records, cur_id, c@, cs, index + 1, g);
                        }
                    }
                    current = c;
                    index = index + 1;
                },
                Scan::Absent => {
                    proof {
                        if last {
                            lemma_child_named(records, current.id, name);
                            assert forall|j: int| 0 <= j < kids.len() implies (#[trigger] kids[j]).name != name by {
                                assert(kids[j] == children@[j]@);
                            }
                        }
                    }
                    break;
                },
            }
        }
        Some((index, current))
    }

    /// Makes the files for the names `comps[start..]`, the first under
    /// `parent` and each under the one before, with the ids `ids` and keys
    /// `keys` in order; all are folders but a last document where
    /// `is_folder` is false. Gives the last.
    fn make_chain(
        db: &mut FileDb,
        comps: &Vec<String>,
        is_folder: bool,
        start: usize,
        parent: u128,
        ids: &Vec<u128>,
        keys: &Vec<symkey::AESKey>,
    ) -> (r: FileMetadata)
        requires
            old(db).wf(),
            forall|j: int| 0 <= j < comps@.len() ==> !(#[trigger] names_of(comps@)[j]).contains('/'),
            1 <= start < comps@.len(),
            ids@.len() >= comps@.len(),
            keys@.len() >= comps@.len(),
            create_allowed(*old(db), names_of(comps@)[start as int], parent),
            ids_fresh(*old(db), ids@, comps@.len() - start),
        ensures
            final(db).wf(),
            r@ == planned_files(names_of(comps@), is_folder, start as int, parent, ids@, keys@).last(),
            final(db).records() == old(db).records() + planned_files(names_of(comps@), is_folder, start as int, parent, ids@, keys@),
            final(db).metadata() == metas_with(old(db).metadata(), planned_files(names_of(comps@), is_folder, start as int, parent, ids@, keys@)),
            final(db).file_count() == old(db).file_count() + planned_files(names_of(comps@), is_folder, start as int, parent, ids@, keys@).len(),
            final(db).changes() == created_all(old(db).changes(), planned_files(names_of(comps@), is_folder, start as int, parent, ids@, keys@)),
            final(db).account_view() == old(db).account_view(),
            r.file_type == FileType::Folder ==> final(db).documents() == old(db).documents(),
            r.file_type == FileType::Document ==> holds_content(*final(db), r.id, Seq::<char>::empty())
                && final(db).documents() == old(db).documents().insert(r.id, final(db).documents()[r.id]),
            forall|u: int| 0 <= u < planned_files(names_of(comps@), is_folder, start as int, parent, ids@, keys@).len() ==> !id_taken(*old(db), #[trigger] planned_files(names_of(comps@), is_folder, start as int, parent, ids@, keys@)[u].id),
            final(db).path(r.id) == Some(old(db).path(parent)->Some_0 + folder_segments(names_of(comps@), start as int, comps@.len() - 1) + path_segment(r@)),
            forall|k: u128| #[trigger] old(db).path(k) is Some ==> final(db).path(k) == old(db).path(k),
            forall|u: int| 0 <= u < planned_files(names_of(comps@), is_folder, start as int, parent, ids@, keys@).len() ==> final(db).path(#[trigger] planned_files(names_of(comps@), is_folder, start as int, parent, ids@, keys@)[u].id) == Some(old(db).path(parent)->Some_0 + folder_segments(names_of(comps@), start as int, start + u) + path_segment(planned_files(names_of(comps@), is_folder, start as int, parent, ids@, keys@)[u])),
    {
        let ghost cs = comps@.map_values(|c: String| c@);
        let ghost old_db = *db;
        let ghost i0 = start as int;
        let ghost c0 = parent;
        let n = comps.len();
        let count = n - start;
        let ghost fs = planned_files(cs, is_folder, i0, c0, ids@, keys@);
        let mut parent_id: u128 = parent;
        let mut made: Option<FileMetadata> = None;
        let mut t: usize = 0;
        proof {
            assert(fs.take(0) =~= Seq::<FileMetaView>::empty());
            assert(old_db.records() + fs.take(0) =~= old_db.records());
            assert(old_db.path(c0) is Some);
        }
        while t < count
            invariant
                n == cs.len(),
                *old(db) == old_db,
                cs == comps@.map_values(|c: String| c@),
                i0 == start,
                c0 == parent,
                start + count == n,
                old_db.wf(),
                forall|j: int| 0 <= j < cs.len() ==> !(#[trigger] cs[j]).contains('/'),
                ids@.len() >= n,
                keys@.len() >= n,
                1 <= i0 < n,
                count == n - i0,
                create_allowed(old_db, cs[i0], c0),
                ids_fresh(old_db, ids@, count as int),
                old_db.path(c0) is Some,
                old_db.metadata().contains_key(c0),
                fs == planned_files(cs, is_folder, i0, c0, ids@, keys@),
                fs.len() == count,
                0 <= t <= count,
                t == 0 ==> *db == old_db,
                db.wf(),
                db.records() == old_db.records() + fs.take(t as int),
                db.metadata() == metas_with(old_db.metadata(), fs.take(t as int)),
                db.file_count() == old_db.file_count() + t,
                db.changes() == created_all(old_db.changes(), fs.take(t as int)),
                db.account_view() == old_db.account_view(),
                t < count ==> db.documents() == old_db.documents(),
                t > 0 ==> fs[t - 1].file_type == FileType::Folder ==> db.documents()
                    == old_db.documents(),
                t > 0 ==> fs[t - 1].file_type == FileType::Document ==> holds_content(
                    *db,
                    fs[t - 1].id,
                    Seq::<char>::empty(),
                ) && db.documents() == old_db.documents().insert(
                    fs[t - 1].id,
                    db.documents()[fs[t - 1].id],
                ),
                t == 0 ==> parent_id == c0,
                t > 0 ==> parent_id == ids@[t - 1],
                t > 0 ==> (made matches Some(f) && f@ == fs[t - 1]),
                t > 0 ==> children_of(db.records(), ids@[t - 1]).len() == 0,
                t > 0 ==> db.path(ids@[t - 1]) == Some(
                    old_db.path(c0)->Some_0 + folder_segments(cs, i0, i0 + t - 1) + path_segment(
                        fs[t - 1],
                    ),
                ),
                t > 0 ==> db.metadata().contains_key(ids@[t - 1]) && db.metadata()[ids@[t - 1]]
                    == fs[t - 1],
                forall|u: int| t <= u < count ==> !id_taken(*db, #[trigger] ids@[u]),
                forall|key: u128| #[trigger]
                    old_db.metadata().contains_key(key) ==> db.metadata().contains_key(key)
                        && db.metadata()[key] == old_db.metadata()[key],
                forall|k: u128| #[trigger] old_db.path(k) is Some ==> db.path(k) == old_db.path(k),
                forall|u: int| 0 <= u < t ==> db.path(#[trigger] fs[u].id) == Some(old_db.path(c0)->Some_0 + folder_segments(cs, i0, i0 + u) + path_segment(fs[u])),
            decreases count - t,
        {
            let k = start + t;
            let ty = if is_folder || k != n - 1 {
                FileType::Folder
            } else {
                FileType::Document
            };
            let ghost prev = *db;
            let ghost name = cs[k as int];
            proof {
                prev.lemma_wf();
                assert(fs[t as int].name == name);
                assert(ids@[t as int] == fs[t as int].id);
                if t > 0 {
                    lemma_child_named(prev.records(), parent_id, name);
                    assert(fs[t - 1].file_type == at_path_type(cs, is_folder, i0 + t - 1));
                    assert(i0 + t - 1 != n - 1);
                }
                assert(create_allowed(prev, name, parent_id));
                assert(!id_taken(prev, ids@[t as int]));
            }
            assert(comps@[k as int]@ == name);
            let f = Self::create_with_id(db, comps[k].as_str(), parent_id, ty, ids[t], keys[t]).unwrap();
            proof {
                let ft = fs[t as int];
                assert(f@ == ft);
                assert(fs.take(t + 1).drop_last() =~= fs.take(t as int));
                assert(fs.take(t + 1).last() == ft);
                assert(db.records() =~= old_db.records() + fs.take(t + 1));
                lemma_children_push(prev.records(), ft, ft.id);
                assert forall|u: int| t + 1 <= u < count implies !id_taken(*db, #[trigger] ids@[u]) by {
                    assert(!id_taken(prev, ids@[u]));
                    assert(ids@[u] != ids@[t as int]);
                    lemma_children_push(prev.records(), ft, ids@[u]);
                    if t > 0 {
                        assert(ids@[u] != ids@[t - 1]);
                    } else {
                        assert(!old_db.metadata().contains_key(ids@[u]));
                    }
                }
                if t > 0 {
                    assert(path_segment(fs[t - 1]) == cs[i0 + t - 1].push('/'));
                    assert(folder_segments(cs, i0, i0 + t) == folder_segments(cs, i0, i0 + t - 1) + cs[i0 + t - 1].push('/'));
                    assert(old_db.path(c0)->Some_0 + folder_segments(cs, i0, i0 + t - 1) + path_segment(fs[t - 1]) + path_segment(ft)
                        =~= old_db.path(c0)->Some_0 + folder_segments(cs, i0, i0 + t) + path_segment(ft));
                } else {
                    assert(folder_segments(cs, i0, i0) =~= Seq::<char>::empty());
                    assert(old_db.path(c0)->Some_0 + folder_segments(cs, i0, i0) + path_segment(ft) =~= old_db.path(c0)->Some_0 + path_segment(ft));
                }
            }
            parent_id = f.id;
            made = Some(f);
            t = t + 1;
        }
        let cur = made.unwrap();
        proof {
            assert(fs.take(count as int) =~= fs);
            assert(cur@ == fs[count - 1]);
            assert forall|u: int| 0 <= u < fs.len() implies !id_taken(old_db, #[trigger] fs[u].id) by {
                assert(fs[u].id == ids@[u]);
            }
        }
        cur
    }

    /// Makes the file that `path_and_name` names, with every missing folder
    /// on the way; a path that ends in `/` names a folder. Each file it makes
    /// gets a fresh random id and key; what happens for each drawn id is the
    /// contract of `create_at_path_with_ids`.
    pub fn create_at_path(db: &mut FileDb, path_and_name: &str) -> (r: Result<
        FileMetadata,
        NewFileFromPathError,
    >)
        requires
            old(db).wf(),
            old(db).root() is Some ==> path_components(path_and_name@).len() > 0,
        ensures
            final(db).wf(),
            r matches Err(e) ==> (e is NoRoot <==> old(db).root() is None),
            r matches Err(e) ==> (e is InvalidRootFolder <==> old(db).root() is Some && old(db).root()->Some_0.name != path_components(path_and_name@)[0]),
            r matches Err(e) ==> (e is FileAlreadyExists <==> root_matches(*old(db), path_components(path_and_name@))
                && (path_components(path_and_name@).len() == 1 || path_plan(*old(db), path_components(path_and_name@)) is None)),
            root_matches(*old(db), path_components(path_and_name@)) && path_components(path_and_name@).len() > 1 && path_plan(*old(db), path_components(path_and_name@)) is Some
                && !create_allowed(
                *old(db),
                path_components(path_and_name@)[path_plan(*old(db), path_components(path_and_name@))->Some_0.0],
                path_plan(*old(db), path_components(path_and_name@))->Some_0.1,
            ) ==> (r matches Err(NewFileFromPathError::FailedToCreateChild(e)) && create_refusal(
                e,
                *old(db),
                path_components(path_and_name@)[path_plan(*old(db), path_components(path_and_name@))->Some_0.0],
                path_plan(*old(db), path_components(path_and_name@))->Some_0.1,
            )),
            r is Err ==> unchanged(*final(db), *old(db)),
            r matches Ok(f) ==> final(db).path(f.id) == Some(
                old(db).path(path_plan(*old(db), path_components(path_and_name@))->Some_0.1)->Some_0 + made_path(
                    path_components(path_and_name@),
                    ends_in_slash(path_and_name@),
                    path_plan(*old(db), path_components(path_and_name@))->Some_0.0,
                ),
            ),
            r matches Ok(f) ==> (old(db).root()->Some_0.file_type == FileType::Folder ==> final(db).path(f.id) == Some(full_path(path_components(path_and_name@), ends_in_slash(path_and_name@)))),
            root_matches(*old(db), path_components(path_and_name@)) && path_components(path_and_name@).len() > 1 && path_plan(*old(db), path_components(path_and_name@)) is Some
                && create_allowed(
                *old(db),
                path_components(path_and_name@)[path_plan(*old(db), path_components(path_and_name@))->Some_0.0],
                path_plan(*old(db), path_components(path_and_name@))->Some_0.1,
            ) ==> (r is Ok || (r matches Err(NewFileFromPathError::FailedToCreateChild(e))
                && e is FileIdTaken)),
            r is Ok ==> at_path_allowed(*old(db), path_and_name@),
            r matches Ok(f) ==> exists|fs: Seq<FileMetaView>|
                #[trigger] made_at_path(*old(db), *final(db), path_and_name@, fs) && f@ == fs.last(),
    {
        let comps = split_path(path_and_name);
        let n = comps.len();
        let mut ids: Vec<u128> = Vec::new();
        let mut keys: Vec<symkey::AESKey> = Vec::new();
        let mut j: usize = 0;
        while j < n
            invariant
                j <= n,
                ids@.len() == j,
                keys@.len() == j,
            decreases n - j,
        {
            ids.push(new_file_id());
            keys.push(symkey::generate_key());
            j = j + 1;
        }
        proof {
            assert(comps@.map_values(|c: String| c@).len() == n);
        }
        let r = Self::create_at_path_with_ids(db, path_and_name, &ids, &keys);
        proof {
            if r is Ok {
                assert(made_at_path(*old(db), *db, path_and_name@, planned_for(*old(db), path_and_name@, ids@, keys@)));
            }
        }
        r
    }

    /// Makes the file that `path_and_name` names, with every missing folder
    /// on the way, the files it makes taking the ids `ids` and keys `keys` in
    /// order. It fails with `FileIdTaken`, changing nothing, where one of the
    /// ids it needs is taken or two of them are equal.
    #[verifier::rlimit(100)]
    #[verifier::spinoff_prover]
    pub fn create_at_path_with_ids(
        db: &mut FileDb,
        path_and_name: &str,
        ids: &Vec<u128>,
        keys: &Vec<symkey::AESKey>,
    ) -> (r: Result<FileMetadata, NewFileFromPathError>)
        requires
            old(db).wf(),
            old(db).root() is Some ==> path_components(path_and_name@).len() > 0,
            ids@.len() >= path_components(path_and_name@).len(),
            keys@.len() >= path_components(path_and_name@).len(),
        ensures
            final(db).wf(),
            r matches Err(e) ==> (e is NoRoot <==> old(db).root() is None),
            r matches Err(e) ==> (e is InvalidRootFolder <==> old(db).root() is Some && old(db).root()->Some_0.name != path_components(path_and_name@)[0]),
            r matches Err(e) ==> (e is FileAlreadyExists <==> root_matches(*old(db), path_components(path_and_name@))
                && (path_components(path_and_name@).len() == 1 || path_plan(*old(db), path_components(path_and_name@)) is None)),
            root_matches(*old(db), path_components(path_and_name@)) && path_components(path_and_name@).len() > 1 && path_plan(*old(db), path_components(path_and_name@)) is Some
                && !create_allowed(
                *old(db),
                path_components(path_and_name@)[path_plan(*old(db), path_components(path_and_name@))->Some_0.0],
                path_plan(*old(db), path_components(path_and_name@))->Some_0.1,
            ) ==> (r matches Err(NewFileFromPathError::FailedToCreateChild(e)) && create_refusal(
                e,
                *old(db),
                path_components(path_and_name@)[path_plan(*old(db), path_components(path_and_name@))->Some_0.0],
                path_plan(*old(db), path_components(path_and_name@))->Some_0.1,
            )),
            r is Err ==> unchanged(*final(db), *old(db)),
            r matches Ok(f) ==> final(db).path(f.id) == Some(
                old(db).path(path_plan(*old(db), path_components(path_and_name@))->Some_0.1)->Some_0 + made_path(
                    path_components(path_and_name@),
                    ends_in_slash(path_and_name@),
                    path_plan(*old(db), path_components(path_and_name@))->Some_0.0,
                ),
            ),
            r matches Ok(f) ==> (old(db).root()->Some_0.file_type == FileType::Folder ==> final(db).path(f.id) == Some(full_path(path_components(path_and_name@), ends_in_slash(path_and_name@)))),
            root_matches(*old(db), path_components(path_and_name@)) && path_components(path_and_name@).len() > 1 && path_plan(*old(db), path_components(path_and_name@)) is Some
                && create_allowed(
                *old(db),
                path_components(path_and_name@)[path_plan(*old(db), path_components(path_and_name@))->Some_0.0],
                path_plan(*old(db), path_components(path_and_name@))->Some_0.1,
            ) && !ids_fresh(
                *old(db),
                ids@,
                path_components(path_and_name@).len() - path_plan(*old(db), path_components(path_and_name@))->Some_0.0,
            ) ==> (r matches Err(NewFileFromPathError::FailedToCreateChild(e)) && e is FileIdTaken),
            at_path_ok(*old(db), path_and_name@, ids@) ==> (r matches Ok(f) && f@ == planned_for(
                *old(db),
                path_and_name@,
                ids@,
                keys@,
            ).last()),
            r is Ok ==> at_path_ok(*old(db), path_and_name@, ids@) && made_at_path(
                *old(db),
                *final(db),
                path_and_name@,
                planned_for(*old(db), path_and_name@, ids@, keys@),
            ),
    {
        let comps = split_path(path_and_name);
        let is_folder = ends_with_char(path_and_name, '/');
        let ghost cs = path_components(path_and_name@);
        let ghost old_db = *db;
        let ghost m = db.metadata();
        let ghost records = db.records();
        proof {
            lemma_components_names(path_and_name@);
            db.lemma_wf();
        }
        let n = comps.len();
        let root = match db.get_root() {
            Some(r) => r,
            None => {
                return Err(NewFileFromPathError::NoRoot);
            },
        };
        assert(comps@[0]@ == cs[0]);
        if !(root.name == comps[0]) {
            return Err(NewFileFromPathError::InvalidRootFolder);
        }
        if n == 1 {
            return Err(NewFileFromPathError::FileAlreadyExists);
        }
        let ghost root_folder = root.file_type == FileType::Folder;
        proof {
            old_db.lemma_root();
            assert(comps@.map_values(|c: String| c@) == names_of(comps@));
        }
        let (index, current) = match Self::find_missing(db, &comps, &root) {
            Some(p) => p,
            None => {
                return Err(NewFileFromPathError::FileAlreadyExists);
            },
        };
        let ghost i0 = (index + 1) as int;
        let ghost c0 = current.id;
        assert(comps@[index + 1]@ == cs[i0]);
        assert(names_of(comps@) == cs);
        assert(path_plan(old_db, cs) == Some((i0, c0)));
        match Self::new_file_refusal(db, comps[index + 1].as_str(), current.id) {
            Ok(()) => {},
            Err(e) => {
                return Err(NewFileFromPathError::FailedToCreateChild(e));
            },
        }
        let count = n - (index + 1);
        assert(create_allowed(old_db, cs[i0], c0));
        if !ids_free(db, ids, count) {
            return Err(NewFileFromPathError::FailedToCreateChild(NewFileError::FileIdTaken));
        }
        assert(ids_fresh(old_db, ids@, cs.len() - i0));
        assert(is_folder == ends_in_slash(path_and_name@));
        assert(planned_for(old_db, path_and_name@, ids@, keys@) == planned_files(cs, is_folder, i0, c0, ids@, keys@));
        assert(at_path_ok(old_db, path_and_name@, ids@));
        let cur = Self::make_chain(db, &comps, is_folder, index + 1, current.id, ids, keys);
        proof {
            let fs = planned_files(cs, is_folder, i0, c0, ids@, keys@);
            let last = cs.len() - 1;
            assert(folder_segments(cs, i0, cs.len() as int) == folder_segments(cs, i0, last) + cs[last].push('/'));
            assert(fs.last().file_type == at_path_type(cs, is_folder, last));
            assert(path_segment(cur@) == if is_folder { cs[last].push('/') } else { cs[last] });
            assert(old_db.path(c0)->Some_0 + folder_segments(cs, i0, last) + path_segment(cur@) =~= old_db.path(c0)->Some_0 + made_path(cs, is_folder, i0));
            if root_folder {
                assert(path_of(m, c0, old_db.file_count()) is Some);
                lemma_folder_segments_split(cs, 0, i0, last);
                lemma_folder_segments_split(cs, 0, i0, cs.len() as int);
                assert(folder_segments(cs, 0, i0) + made_path(cs, is_folder, i0) =~= full_path(cs, is_folder));
            }
            assert(at_path_shape(cs, is_folder, i0, c0, fs));
        }
        Ok(cur)
    }

    /// Marks the first file whose path is `path` as deleted; `None` where no
    /// file has that path.
    pub fn mark_deleted_at_path(db: &mut FileDb, path: &str) -> (r: Option<FileMetadata>)
        requires
            old(db).wf(),
        ensures
            final(db).wf(),
            r is None <==> first_match(
                old(db).records(),
                |f: FileMetaView| old(db).path(f.id) == Some(path@),
            ) is None,
            r is None ==> unchanged(*final(db), *old(db)),
            r matches Some(f) ==> (first_match(
                old(db).records(),
                |f: FileMetaView| old(db).path(f.id) == Some(path@),
            ) matches Some(g) && f@ == FileMetaView { deleted: true, ..g }),
            r matches Some(f) ==> f.deleted && final(db).metadata() == old(db).metadata().insert(f.id, f@),
            r matches Some(f) ==> old(db).metadata().contains_key(f.id),
            r matches Some(f) ==> final(db).records() == old(db).records().update(old(db).index_of(f.id), f@),
            final(db).documents() == old(db).documents(),
            final(db).changes() == old(db).changes(),
            final(db).account_view() == old(db).account_view(),
            final(db).file_count() == old(db).file_count(),
    {
        let mut file_metadata = match db.get_by_path(path) {
            Some(f) => f,
            None => {
                return None;
            },
        };
        proof {
            db.lemma_wf();
            crate::db::lemma_first_match_in(db.records(), |f: FileMetaView| db.path(f.id) == Some(path@));
        }
        file_metadata.deleted = true;
        let result = file_metadata.clone_metadata();
        db.insert(file_metadata);
        Some(result)
    }
}

} // verus!
