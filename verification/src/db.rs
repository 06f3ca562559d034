//! The client's local store: the account, the table of file metadata, the
//! encrypted documents and the log of local changes, with the lookups that
//! the file service makes on them.
use vstd::prelude::*;

use crate::keyed::{remove_key, find_key, has_key, key_index, keyed_view, keys_unique, lemma_key_index, upsert, views, Keyed};
use crate::model::{
    change_is_empty, children_of, current_change, is_child_of, moved_change, path_of, path_segment,
    renamed_change, store_change, Account, ChangeView, FileMetaView, FileMetadata, FileType,
    LocalChange, Moved, Renamed,
};
use crate::symkey::{open_panics, AESEncrypted, EncryptedView};

verus! {

/// A stored document: the encrypted content of one file.
#[derive(Clone, Debug, PartialEq)]
pub struct StoredDocument {
    pub id: u128,
    pub content: AESEncrypted,
}

impl View for StoredDocument {
    type V = (u128, EncryptedView);

    open spec fn view(&self) -> (u128, EncryptedView) {
        (self.id, self.content@)
    }
}

impl Keyed for StoredDocument {
    open spec fn key_of(v: (u128, EncryptedView)) -> u128 {
        v.0
    }

    fn key(&self) -> (k: u128) {
        self.id
    }
}

/// Which files `get_all_paths` lists.
#[derive(Clone, Copy, Debug, PartialEq, Eq, Structural)]
pub enum Filter {
    DocumentsOnly,
    FoldersOnly,
    LeafNodesOnly,
}

/// A document the store does not hold.
#[derive(Clone, Copy, Debug, PartialEq, Eq, Structural)]
pub enum DocumentRepoError {
    NoDocument,
}

/// A file the metadata table does not hold.
#[derive(Clone, Copy, Debug, PartialEq, Eq, Structural)]
pub enum FileMetadataRepoError {
    FileRowMissing,
}

/// A copy of a recorded change.
pub fn clone_change(c: &LocalChange) -> (r: LocalChange)
    ensures
        r@ == c@,
{
    LocalChange {
        id: c.id,
        renamed: match &c.renamed {
            Some(r) => Some(Renamed { old_value: r.old_value.clone() }),
            None => None,
        },
        moved: c.moved,
        new: c.new,
        content_edited: c.content_edited,
        deleted: c.deleted,
    }
}

/// The first record that `pred` holds of.
pub open spec fn first_match(s: Seq<FileMetaView>, pred: spec_fn(FileMetaView) -> bool) -> Option<
    FileMetaView,
>
    decreases s.len(),
{
    if s.len() == 0 {
        None
    } else if pred(s[0]) {
        Some(s[0])
    } else {
        first_match(s.drop_first(), pred)
    }
}

pub open spec fn is_root(f: FileMetaView) -> bool {
    f.parent == f.id
}

/// What `first_match` finds stands in the sequence and satisfies the
/// predicate.
pub proof fn lemma_first_match_in(s: Seq<FileMetaView>, pred: spec_fn(FileMetaView) -> bool)
    ensures
        first_match(s, pred) matches Some(x) ==> (exists|i: int| 0 <= i < s.len() && s[i] == x)
            && pred(x),
    decreases s.len(),
{
    if s.len() > 0 && !pred(s[0]) {
        lemma_first_match_in(s.drop_first(), pred);
        match first_match(s.drop_first(), pred) {
            Some(x) => {
                let k = choose|k: int| 0 <= k < s.drop_first().len() && s.drop_first()[k] == x;
                assert(s[k + 1] == x);
            },
            None => {},
        }
    } else if s.len() > 0 {
        assert(s[0] == s[0]);
    }
}

/// `p` followed by `a`, where there is a `p`.
pub open spec fn opt_append(p: Option<Seq<char>>, a: Seq<char>) -> Option<Seq<char>> {
    match p {
        Some(q) => Some(q + a),
        None => None,
    }
}

/// Whether `get_all_paths` lists file `f` under `filter`.
pub open spec fn filter_keeps(
    records: Seq<FileMetaView>,
    filter: Option<Filter>,
    f: FileMetaView,
) -> bool {
    match filter {
        None => true,
        Some(Filter::DocumentsOnly) => f.file_type == FileType::Document,
        Some(Filter::FoldersOnly) => f.file_type == FileType::Folder,
        Some(Filter::LeafNodesOnly) => children_of(records, f.id).len() == 0,
    }
}

/// The local store of one client.
pub struct FileDb {
    files: Vec<FileMetadata>,
    documents: Vec<StoredDocument>,
    changes: Vec<LocalChange>,
    account: Option<Account>,
}

impl FileDb {
    /// The store's tables each hold at most one record per id.
    pub closed spec fn wf(&self) -> bool {
        &&& keys_unique(self.files@)
        &&& keys_unique(self.documents@)
        &&& keys_unique(self.changes@)
        &&& forall|i: int|
            0 <= i < self.documents@.len() ==> (#[trigger] self.documents@[i]).content.nonce@.len()
                == 12 && !open_panics(self.documents@[i].content.value@.len() as int)
    }

    /// The metadata records in table order.
    pub closed spec fn records(&self) -> Seq<FileMetaView> {
        views(self.files@)
    }

    /// The metadata of each file, by id.
    pub closed spec fn metadata(&self) -> Map<u128, FileMetaView> {
        keyed_view(self.files@)
    }

    /// The encrypted content of each document, by id.
    pub closed spec fn documents(&self) -> Map<u128, EncryptedView> {
        Map::new(
            |k: u128| keyed_view(self.documents@).contains_key(k),
            |k: u128| keyed_view(self.documents@)[k].1,
        )
    }

    /// The recorded local changes in log order.
    pub closed spec fn change_records(&self) -> Seq<ChangeView> {
        views(self.changes@)
    }

    /// The recorded local change of each file, by id.
    pub closed spec fn changes(&self) -> Map<u128, ChangeView> {
        keyed_view(self.changes@)
    }

    pub closed spec fn account_view(&self) -> Option<Seq<char>> {
        match self.account {
            Some(a) => Some(a@),
            None => None,
        }
    }

    /// Where the record of file `id` stands in the table.
    pub open spec fn index_of(&self, id: u128) -> int {
        choose|i: int| 0 <= i < self.records().len() && #[trigger] self.records()[i].id == id
    }

    /// The number of metadata records.
    pub closed spec fn file_count(&self) -> nat {
        self.files@.len()
    }

    /// The path of file `id`, where its ancestors lead to the root.
    pub open spec fn path(&self, id: u128) -> Option<Seq<char>> {
        path_of(self.metadata(), id, self.file_count())
    }

    /// The root folder: the first file that is its own parent.
    pub open spec fn root(&self) -> Option<FileMetaView> {
        first_match(self.records(), |f: FileMetaView| is_root(f))
    }

    /// The paths that `get_all_paths` lists under `filter`, in table order.
    pub open spec fn listed_paths(&self, filter: Option<Filter>) -> Seq<Seq<char>> {
        self.records().filter_map(
            |f: FileMetaView|
                if filter_keeps(self.records(), filter, f) {
                    self.path(f.id)
                } else {
                    None
                },
        )
    }

    /// How records, maps and counts of a well-formed store relate.
    pub proof fn lemma_wf(&self)
        requires
            self.wf(),
        ensures
            self.records().len() == self.file_count(),
            forall|i: int|
                0 <= i < self.records().len() ==> #[trigger] self.metadata().contains_key(
                    self.records()[i].id,
                ) && self.metadata()[self.records()[i].id] == self.records()[i],
            forall|k: u128| #[trigger]
                self.metadata().contains_key(k) ==> self.metadata()[k].id == k && exists|i: int|
                    0 <= i < self.records().len() && self.records()[i].id == k,
            forall|i: int, j: int|
                0 <= i < self.records().len() && 0 <= j < self.records().len() && i != j
                    ==> self.records()[i].id != self.records()[j].id,
            forall|k: u128| #[trigger]
                self.changes().contains_key(k) ==> self.changes()[k].id == k,
            forall|k: u128| #[trigger]
                self.documents().contains_key(k) ==> self.documents()[k].nonce.len() == 12
                    && !open_panics(self.documents()[k].value.len() as int),
            forall|k: u128| #[trigger]
                self.metadata().contains_key(k) ==> 0 <= self.index_of(k) < self.records().len()
                    && self.records()[self.index_of(k)] == self.metadata()[k],
    {
        assert forall|k: u128| #[trigger] self.metadata().contains_key(k) implies 0 <= self.index_of(k) < self.records().len()
                    && self.records()[self.index_of(k)] == self.metadata()[k] by {
            let i = key_index(self.files@, k);
            assert(self.records()[i].id == k);
            let j = self.index_of(k);
            assert(FileMetadata::key_of(self.files@[j]@) == k);
            if i != j {
                assert(FileMetadata::key_of(self.files@[i]@) != FileMetadata::key_of(self.files@[j]@));
            }
        }
        assert forall|k: u128| #[trigger] self.documents().contains_key(k) implies self.documents()[k].nonce.len() == 12
            && !open_panics(self.documents()[k].value.len() as int) by {
            let i = key_index(self.documents@, k);
            assert(self.documents@[i].content.nonce@.len() == 12);
        }
        assert forall|i: int| 0 <= i < self.records().len() implies #[trigger] self.metadata().contains_key(
            self.records()[i].id,
        ) && self.metadata()[self.records()[i].id] == self.records()[i] by {
            lemma_key_index(self.files@, i);
        }
        assert forall|k: u128| #[trigger]
            self.metadata().contains_key(k) implies self.metadata()[k].id == k && exists|i: int|
                0 <= i < self.records().len() && self.records()[i].id == k by {
            let i = key_index(self.files@, k);
            assert(self.records()[i].id == k);
        }
        assert forall|i: int, j: int|
            0 <= i < self.records().len() && 0 <= j < self.records().len() && i != j implies self.records()[i].id
            != self.records()[j].id by {
            assert(FileMetadata::key_of(self.files@[i]@) != FileMetadata::key_of(self.files@[j]@));
        }
        assert forall|k: u128| #[trigger] self.changes().contains_key(k) implies self.changes()[k].id
            == k by {
            let i = key_index(self.changes@, k);
        }
    }

    /// The root is a record of the table, and its own parent.
    pub proof fn lemma_root(&self)
        requires
            self.wf(),
        ensures
            self.root() matches Some(r) ==> self.metadata().contains_key(r.id)
                && self.metadata()[r.id] == r && r.parent == r.id,
        decreases self.records().len(),
    {
        self.lemma_wf();
        lemma_first_match_in(self.records(), |f: FileMetaView| is_root(f));
        match self.root() {
            Some(r) => {
                let i = choose|i: int| 0 <= i < self.records().len() && self.records()[i] == r;
                assert(self.metadata().contains_key(self.records()[i].id));
            },
            None => {},
        }
    }

    /// An empty store.
    pub fn new() -> (db: FileDb)
        ensures
            db.wf(),
            db.records() == Seq::<FileMetaView>::empty(),
            db.metadata() == Map::<u128, FileMetaView>::empty(),
            db.documents() == Map::<u128, EncryptedView>::empty(),
            db.changes() == Map::<u128, ChangeView>::empty(),
            db.change_records() == Seq::<ChangeView>::empty(),
            db.account_view() is None,
    {
        let db = FileDb { files: Vec::new(), documents: Vec::new(), changes: Vec::new(), account: None };
        assert(db.records() =~= Seq::<FileMetaView>::empty());
        assert(db.change_records() =~= Seq::<ChangeView>::empty());
        assert(db.metadata() =~= Map::<u128, FileMetaView>::empty());
        assert(db.changes() =~= Map::<u128, ChangeView>::empty());
        assert(db.documents() =~= Map::<u128, EncryptedView>::empty());
        db
    }

    /// Stores the account of this client.
    pub fn set_account(&mut self, account: &Account)
        requires
            old(self).wf(),
        ensures
            final(self).wf(),
            final(self).account_view() == Some(account@),
            final(self).records() == old(self).records(),
            final(self).metadata() == old(self).metadata(),
            final(self).file_count() == old(self).file_count(),
            final(self).documents() == old(self).documents(),
            final(self).changes() == old(self).changes(),
            final(self).change_records() == old(self).change_records(),
    {
        self.account = Some(Account { username: account.username.clone() });
    }

    /// The account of this client, if one is stored.
    pub fn account(&self) -> (r: Option<Account>)
        ensures
            r matches Some(a) ==> self.account_view() == Some(a@),
            r is None ==> self.account_view() is None,
    {
        match &self.account {
            Some(a) => Some(Account { username: a.username.clone() }),
            None => None,
        }
    }

    /// Writes `meta` into the metadata table, replacing the record with the
    /// same id.
    pub fn insert(&mut self, meta: FileMetadata)
        requires
            old(self).wf(),
        ensures
            final(self).wf(),
            final(self).metadata() == old(self).metadata().insert(meta.id, meta@),
            old(self).metadata().contains_key(meta.id) ==> final(self).file_count() == old(
                self,
            ).file_count(),
            !old(self).metadata().contains_key(meta.id) ==> final(self).file_count() == old(
                self,
            ).file_count() + 1,
            !old(self).metadata().contains_key(meta.id) ==> final(self).records() == old(
                self,
            ).records().push(meta@),
            old(self).metadata().contains_key(meta.id) ==> final(self).records() == old(
                self,
            ).records().update(
                old(self).index_of(meta.id),
                meta@,
            ),
            old(self).metadata().contains_key(meta.id) ==> 0 <= old(self).index_of(meta.id)
                < old(self).records().len() && old(self).records()[old(self).index_of(meta.id)].id == meta.id,
            final(self).documents() == old(self).documents(),
            final(self).changes() == old(self).changes(),
            final(self).change_records() == old(self).change_records(),
            final(self).account_view() == old(self).account_view(),
    {
        let ghost old_files = self.files@;
        let ghost mv = meta@;
        proof {
            old(self).lemma_wf();
        }
        upsert(&mut self.files, meta);
        proof {
            if has_key(old_files, mv.id) {
                let i = key_index(old_files, mv.id);
                lemma_key_index(old_files, i);
                assert(views(self.files@) =~= views(old_files).update(i, mv));
            } else {
                assert(views(self.files@) =~= views(old_files).push(mv));
            }
        }
    }

    /// The metadata of file `id`, if the table holds it.
    pub fn maybe_get(&self, id: u128) -> (r: Option<FileMetadata>)
        requires
            self.wf(),
        ensures
            r is None <==> !self.metadata().contains_key(id),
            r matches Some(f) ==> self.metadata().contains_key(id) && self.metadata()[id] == f@,
    {
        match find_key(&self.files, id) {
            Some(i) => {
                proof {
                    lemma_key_index(self.files@, i as int);
                }
                Some(self.files[i].clone_metadata())
            },
            None => None,
        }
    }

    /// The metadata of file `id`.
    pub fn get(&self, id: u128) -> (r: Result<FileMetadata, FileMetadataRepoError>)
        requires
            self.wf(),
        ensures
            r is Err <==> !self.metadata().contains_key(id),
            r matches Ok(f) ==> self.metadata()[id] == f@,
    {
        match self.maybe_get(id) {
            Some(f) => Ok(f),
            None => Err(FileMetadataRepoError::FileRowMissing),
        }
    }

    /// The root folder, if there is one.
    pub fn get_root(&self) -> (r: Option<FileMetadata>)
        requires
            self.wf(),
        ensures
            r is None <==> self.root() is None,
            r matches Some(f) ==> self.root() == Some(f@),
    {
        let ghost s = self.records();
        let ghost pred = |f: FileMetaView| is_root(f);
        assert(s.skip(0) =~= s);
        let mut i: usize = 0;
        while i < self.files.len()
            invariant
                i <= self.files@.len(),
                s == self.records(),
                s.len() == self.files@.len(),
                pred == (|f: FileMetaView| is_root(f)),
                first_match(s, pred) == first_match(s.skip(i as int), pred),
            decreases self.files@.len() - i,
        {
            assert(s.skip(i as int)[0] == s[i as int]);
            assert(s.skip(i as int).drop_first() =~= s.skip(i + 1));
            if self.files[i].parent == self.files[i].id {
                return Some(self.files[i].clone_metadata());
            }
            i = i + 1;
        }
        None
    }

    /// The children of `parent`, in table order.
    pub fn get_children(&self, parent: u128) -> (r: Vec<FileMetadata>)
        requires
            self.wf(),
        ensures
            views(r@) == children_of(self.records(), parent),
    {
        let ghost s = self.records();
        let ghost pred = |f: FileMetaView| is_child_of(f, parent);
        let mut r: Vec<FileMetadata> = Vec::new();
        let mut i: usize = 0;
        while i < self.files.len()
            invariant
                i <= self.files@.len(),
                s == self.records(),
                s.len() == self.files@.len(),
                pred == (|f: FileMetaView| is_child_of(f, parent)),
                views(r@) == s.take(i as int).filter(pred),
            decreases self.files@.len() - i,
        {
            let ghost before = views(r@);
            assert(s.take(i + 1).drop_last() =~= s.take(i as int));
            assert(s.take(i + 1).last() == s[i as int]);
            reveal_with_fuel(Seq::<_>::filter, 1);
            if self.files[i].parent == parent && self.files[i].id != parent {
                r.push(self.files[i].clone_metadata());
                assert(views(r@) =~= before.push(s[i as int]));
            } else {
                assert(views(r@) =~= before);
            }
            i = i + 1;
        }
        assert(s.take(self.files@.len() as int) =~= s);
        r
    }

    /// Whether `parent` has no children.
    pub fn has_no_children(&self, parent: u128) -> (r: bool)
        requires
            self.wf(),
        ensures
            r == (children_of(self.records(), parent).len() == 0),
    {
        let c = self.get_children(parent);
        c.len() == 0
    }

    /// The path of file `id`, where its ancestors lead to the root.
    pub fn get_path(&self, id: u128) -> (r: Option<String>)
        requires
            self.wf(),
        ensures
            r is None <==> self.path(id) is None,
            r matches Some(p) ==> self.path(id) == Some(p@),
    {
        proof {
            reveal_strlit("/");
        }
        let fuel = self.files.len();
        let ghost m = self.metadata();
        let mut steps: usize = 0;
        let mut cur = id;
        let mut acc = String::new();
        while steps < fuel
            invariant
                steps <= fuel,
                fuel == self.file_count(),
                m == self.metadata(),
                self.wf(),
                self.path(id) == opt_append(path_of(m, cur, (fuel - steps) as nat), acc@),
            decreases fuel - steps,
        {
            match self.maybe_get(cur) {
                None => {
                    return None;
                },
                Some(f) => {
                    let mut seg = f.name.clone();
                    if f.file_type == FileType::Folder {
                        seg.append("/");
                        proof {
                            reveal_strlit("/");
                            assert("/"@ =~= seq!['/']);
                        }
                        assert(f.name@ + "/"@ =~= f.name@.push('/'));
                    }
                    assert(seg@ == path_segment(m[cur]));
                    if f.parent == cur {
                        seg.append(acc.as_str());
                        return Some(seg);
                    }
                    let ghost k = (fuel - steps) as nat;
                    assert(path_of(m, cur, k) == opt_append(path_of(m, f.parent, (k - 1) as nat), path_segment(m[cur])));
                    assert(opt_append(path_of(m, f.parent, (k - 1) as nat), path_segment(m[cur]) + acc@) == opt_append(path_of(m, cur, k), acc@)) by {
                        match path_of(m, f.parent, (k - 1) as nat) {
                            Some(q) => {
                                assert(q + path_segment(m[cur]) + acc@ =~= q + (path_segment(m[cur]) + acc@));
                            },
                            None => {},
                        }
                    }
                    seg.append(acc.as_str());
                    acc = seg;
                    cur = f.parent;
                    steps = steps + 1;
                },
            }
        }
        None
    }

    /// The paths of the files that `filter` keeps, in table order.
    pub fn get_all_paths(&self, filter: Option<Filter>) -> (r: Vec<String>)
        requires
            self.wf(),
        ensures
            r@.map_values(|p: String| p@) == self.listed_paths(filter),
    {
        let ghost s = self.records();
        let ghost f = |f: FileMetaView|
            if filter_keeps(self.records(), filter, f) {
                self.path(f.id)
            } else {
                None
            };
        let mut r: Vec<String> = Vec::new();
        let mut i: usize = 0;
        while i < self.files.len()
            invariant
                i <= self.files@.len(),
                self.wf(),
                s == self.records(),
                s.len() == self.files@.len(),
                f == (|f: FileMetaView|
                    if filter_keeps(self.records(), filter, f) {
                        self.path(f.id)
                    } else {
                        None
                    }),
                r@.map_values(|p: String| p@) == s.take(i as int).filter_map(f),
            decreases self.files@.len() - i,
        {
            let ghost before = r@.map_values(|p: String| p@);
            assert(s.take(i + 1).drop_last() =~= s.take(i as int));
            assert(s.take(i + 1).last() == s[i as int]);
            let file = &self.files[i];
            let keep = match filter {
                None => true,
                Some(Filter::DocumentsOnly) => file.file_type == FileType::Document,
                Some(Filter::FoldersOnly) => file.file_type == FileType::Folder,
                Some(Filter::LeafNodesOnly) => self.has_no_children(file.id),
            };
            assert(keep == filter_keeps(s, filter, s[i as int]));
            if keep {
                match self.get_path(file.id) {
                    Some(p) => {
                        r.push(p);
                        assert(r@.map_values(|p: String| p@) =~= before.push(self.path(s[i as int].id)->Some_0));
                    },
                    None => {
                        assert(r@.map_values(|p: String| p@) =~= before);
                    },
                }
            } else {
                assert(r@.map_values(|p: String| p@) =~= before);
            }
            i = i + 1;
        }
        assert(s.take(self.files@.len() as int) =~= s);
        r
    }

    /// The first file whose path is `path`.
    pub fn get_by_path(&self, path: &str) -> (r: Option<FileMetadata>)
        requires
            self.wf(),
        ensures
            r is None <==> first_match(
                self.records(),
                |f: FileMetaView| self.path(f.id) == Some(path@),
            ) is None,
            r matches Some(f) ==> first_match(
                self.records(),
                |f: FileMetaView| self.path(f.id) == Some(path@),
            ) == Some(f@),
    {
        let target = path.to_owned();
        let ghost s = self.records();
        let ghost pred = |f: FileMetaView| self.path(f.id) == Some(path@);
        assert(s.skip(0) =~= s);
        let mut i: usize = 0;
        while i < self.files.len()
            invariant
                i <= self.files@.len(),
                self.wf(),
                target@ == path@,
                s == self.records(),
                s.len() == self.files@.len(),
                pred == (|f: FileMetaView| self.path(f.id) == Some(path@)),
                first_match(s, pred) == first_match(s.skip(i as int), pred),
            decreases self.files@.len() - i,
        {
            assert(s.skip(i as int)[0] == s[i as int]);
            assert(s.skip(i as int).drop_first() =~= s.skip(i + 1));
            match self.get_path(self.files[i].id) {
                Some(p) => {
                    if p == target {
                        return Some(self.files[i].clone_metadata());
                    }
                },
                None => {},
            }
            i = i + 1;
        }
        None
    }

    /// Stores the encrypted content of document `id`.
    pub fn insert_document(&mut self, id: u128, content: AESEncrypted)
        requires
            old(self).wf(),
            content.nonce@.len() == 12,
            !open_panics(content.value@.len() as int),
        ensures
            final(self).wf(),
            final(self).documents() == old(self).documents().insert(id, content@),
            final(self).records() == old(self).records(),
            final(self).metadata() == old(self).metadata(),
            final(self).file_count() == old(self).file_count(),
            final(self).changes() == old(self).changes(),
            final(self).change_records() == old(self).change_records(),
            final(self).account_view() == old(self).account_view(),
    {
        let ghost cv = content@;
        upsert(&mut self.documents, StoredDocument { id, content });
        assert(self.documents() =~= old(self).documents().insert(id, cv));
    }

    /// The encrypted content of document `id`, if stored.
    pub fn get_document(&self, id: u128) -> (r: Option<AESEncrypted>)
        requires
            self.wf(),
        ensures
            r is None <==> !self.documents().contains_key(id),
            r matches Some(c) ==> self.documents().contains_key(id) && self.documents()[id] == c@,
    {
        match find_key(&self.documents, id) {
            Some(i) => {
                proof {
                    lemma_key_index(self.documents@, i as int);
                }
                Some(self.documents[i].content.clone_encrypted())
            },
            None => None,
        }
    }

    /// The recorded change of `id`, if any.
    pub fn get_local_changes(&self, id: u128) -> (r: Option<LocalChange>)
        requires
            self.wf(),
        ensures
            r is None <==> !self.changes().contains_key(id),
            r matches Some(c) ==> self.changes().contains_key(id) && self.changes()[id] == c@,
    {
        match find_key(&self.changes, id) {
            Some(i) => {
                proof {
                    lemma_key_index(self.changes@, i as int);
                }
                Some(clone_change(&self.changes[i]))
            },
            None => None,
        }
    }

    /// All recorded changes, in log order.
    pub fn get_all_local_changes(&self) -> (r: Vec<LocalChange>)
        ensures
            views(r@) == self.change_records(),
    {
        let mut r: Vec<LocalChange> = Vec::new();
        let mut i: usize = 0;
        while i < self.changes.len()
            invariant
                i <= self.changes@.len(),
                views(r@) == views(self.changes@).take(i as int),
            decreases self.changes@.len() - i,
        {
            let ghost before = views(r@);
            r.push(clone_change(&self.changes[i]));
            assert(views(r@) =~= before.push(self.changes@[i as int]@));
            i = i + 1;
            assert(views(r@) =~= views(self.changes@).take(i as int));
        }
        assert(views(self.changes@).take(i as int) =~= views(self.changes@));
        r
    }

    /// The recorded change of `id`, or one that records nothing.
    fn current_change_of(&self, id: u128) -> (r: LocalChange)
        requires
            self.wf(),
        ensures
            r@ == current_change(self.changes(), id),
    {
        match self.get_local_changes(id) {
            Some(c) => c,
            None => LocalChange {
                id,
                renamed: None,
                moved: None,
                new: false,
                content_edited: false,
                deleted: false,
            },
        }
    }

    /// Writes `c` into the change log, or drops its file's entry where `c`
    /// records nothing.
    fn store(&mut self, c: LocalChange)
        requires
            old(self).wf(),
        ensures
            final(self).wf(),
            final(self).changes() == store_change(old(self).changes(), c@),
            final(self).records() == old(self).records(),
            final(self).metadata() == old(self).metadata(),
            final(self).file_count() == old(self).file_count(),
            final(self).documents() == old(self).documents(),
            final(self).account_view() == old(self).account_view(),
    {
        let empty = c.renamed.is_none() && c.moved.is_none() && !c.new && !c.content_edited
            && !c.deleted;
        if empty {
            remove_key(&mut self.changes, c.id);
        } else {
            upsert(&mut self.changes, c);
        }
    }

    /// Records that file `id` is new.
    pub fn track_new_file(&mut self, id: u128)
        requires
            old(self).wf(),
        ensures
            final(self).wf(),
            final(self).changes() == store_change(
                old(self).changes(),
                ChangeView { new: true, ..current_change(old(self).changes(), id) },
            ),
            final(self).records() == old(self).records(),
            final(self).metadata() == old(self).metadata(),
            final(self).file_count() == old(self).file_count(),
            final(self).documents() == old(self).documents(),
            final(self).account_view() == old(self).account_view(),
    {
        let mut c = self.current_change_of(id);
        c.new = true;
        self.store(c);
    }

    /// Records that the content of file `id` was edited.
    pub fn track_edit(&mut self, id: u128)
        requires
            old(self).wf(),
        ensures
            final(self).wf(),
            final(self).changes() == store_change(
                old(self).changes(),
                ChangeView { content_edited: true, ..current_change(old(self).changes(), id) },
            ),
            final(self).records() == old(self).records(),
            final(self).metadata() == old(self).metadata(),
            final(self).file_count() == old(self).file_count(),
            final(self).documents() == old(self).documents(),
            final(self).account_view() == old(self).account_view(),
    {
        let mut c = self.current_change_of(id);
        c.content_edited = true;
        self.store(c);
    }

    /// Records that file `id` was renamed from `old_name` to `new_name`.
    pub fn track_rename(&mut self, id: u128, old_name: &String, new_name: &String)
        requires
            old(self).wf(),
        ensures
            final(self).wf(),
            final(self).changes() == store_change(
                old(self).changes(),
                renamed_change(current_change(old(self).changes(), id), old_name@, new_name@),
            ),
            final(self).records() == old(self).records(),
            final(self).metadata() == old(self).metadata(),
            final(self).file_count() == old(self).file_count(),
            final(self).documents() == old(self).documents(),
            final(self).account_view() == old(self).account_view(),
    {
        let mut c = self.current_change_of(id);
        let renamed = match &c.renamed {
            Some(orig) => {
                if orig.old_value == *new_name {
                    None
                } else {
                    Some(Renamed { old_value: orig.old_value.clone() })
                }
            },
            None => Some(Renamed { old_value: old_name.clone() }),
        };
        c.renamed = renamed;
        self.store(c);
    }

    /// Records that file `id` was moved from `old_parent` to `new_parent`.
    pub fn track_move(&mut self, id: u128, old_parent: u128, new_parent: u128)
        requires
            old(self).wf(),
        ensures
            final(self).wf(),
            final(self).changes() == store_change(
                old(self).changes(),
                moved_change(current_change(old(self).changes(), id), old_parent, new_parent),
            ),
            final(self).records() == old(self).records(),
            final(self).metadata() == old(self).metadata(),
            final(self).file_count() == old(self).file_count(),
            final(self).documents() == old(self).documents(),
            final(self).account_view() == old(self).account_view(),
    {
        let mut c = self.current_change_of(id);
        let moved = match c.moved {
            Some(orig) => {
                if orig.old_value == new_parent {
                    None
                } else {
                    Some(orig)
                }
            },
            None => Some(Moved { old_value: old_parent }),
        };
        c.moved = moved;
        self.store(c);
    }

    /// Forgets the changes of file `id` once the server holds it: where it
    /// was recorded as new, its whole entry is dropped.
    pub fn untrack_new_file(&mut self, id: u128)
        requires
            old(self).wf(),
        ensures
            final(self).wf(),
            final(self).changes() == (if old(self).changes().contains_key(id) && old(
                self,
            ).changes()[id].new {
                old(self).changes().remove(id)
            } else {
                old(self).changes()
            }),
            final(self).records() == old(self).records(),
            final(self).metadata() == old(self).metadata(),
            final(self).file_count() == old(self).file_count(),
            final(self).documents() == old(self).documents(),
            final(self).account_view() == old(self).account_view(),
    {
        match self.get_local_changes(id) {
            Some(c) => {
                if c.new {
                    remove_key(&mut self.changes, id);
                }
            },
            None => {},
        }
    }
}

} // verus!
