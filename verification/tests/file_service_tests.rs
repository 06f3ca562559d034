use lockbook::account_repo::AccountRepoImpl;
use lockbook::db::{FileDb, Filter};
use lockbook::file_service::{
    FileEncryptionService, FileServiceImpl, NewFileError, NewFileFromPathError,
};
use lockbook::model::{Account, DecryptedValue, FileMetadata, FileType};

fn setup(with_root: bool) -> (FileDb, Option<FileMetadata>) {
    let mut db = FileDb::new();
    let account = Account { username: String::from("username") };
    AccountRepoImpl::insert_account(&mut db, &account).unwrap();
    if with_root {
        let root = FileEncryptionService::create_metadata_for_root_folder(&account);
        db.insert(root.clone());
        (db, Some(root))
    } else {
        (db, None)
    }
}

fn random_id() -> u128 {
    uuid::Uuid::new_v4().as_u128()
}

#[test]
fn file_service_runthrough() {
    let (mut db, _) = setup(false);
    let account = AccountRepoImpl::get_account(&db).unwrap();

    assert!(db.get_root().is_none());
    let root = FileEncryptionService::create_metadata_for_root_folder(&account);
    db.insert(root.clone());
    assert!(db.get_root().is_some());

    let folder1 = FileServiceImpl::create(&mut db, "TestFolder1", root.id, FileType::Folder).unwrap();
    let folder2 = FileServiceImpl::create(&mut db, "TestFolder2", folder1.id, FileType::Folder).unwrap();
    let folder3 = FileServiceImpl::create(&mut db, "TestFolder3", folder2.id, FileType::Folder).unwrap();
    let folder4 = FileServiceImpl::create(&mut db, "TestFolder4", folder3.id, FileType::Folder).unwrap();
    let folder5 = FileServiceImpl::create(&mut db, "TestFolder5", folder4.id, FileType::Folder).unwrap();
    let file = FileServiceImpl::create(&mut db, "test.text", folder5.id, FileType::Document).unwrap();

    assert_eq!(db.get_all_paths(Some(Filter::FoldersOnly)).len(), 6);
    assert_eq!(db.get_all_paths(Some(Filter::LeafNodesOnly)).len(), 1);
    assert_eq!(db.get_all_paths(Some(Filter::DocumentsOnly)).len(), 1);

    FileServiceImpl::write_document(
        &mut db,
        file.id,
        &DecryptedValue { secret: "5 folders deep".to_string() },
    )
    .unwrap();

    assert_eq!(
        FileServiceImpl::read_document(&db, file.id).unwrap().secret,
        "5 folders deep".to_string()
    );
    assert!(FileServiceImpl::read_document(&db, folder4.id).is_err());
}

#[test]
fn path_calculations_runthrough() {
    let (mut db, _) = setup(false);
    let account = AccountRepoImpl::get_account(&db).unwrap();

    assert!(db.get_all_paths(None).is_empty());
    let root = FileEncryptionService::create_metadata_for_root_folder(&account);
    db.insert(root.clone());
    assert_eq!(db.get_all_paths(None).len(), 1);
    assert_eq!(db.get_all_paths(None).get(0).unwrap(), "username/");

    let folder1 = FileServiceImpl::create(&mut db, "TestFolder1", root.id, FileType::Folder).unwrap();
    assert_eq!(db.get_all_paths(None).len(), 2);
    assert!(db.get_all_paths(None).contains(&"username/".to_string()));
    assert!(db.get_all_paths(None).contains(&"username/TestFolder1/".to_string()));
    let folder2 = FileServiceImpl::create(&mut db, "TestFolder2", folder1.id, FileType::Folder).unwrap();
    let folder3 = FileServiceImpl::create(&mut db, "TestFolder3", folder2.id, FileType::Folder).unwrap();
    let folder4 = FileServiceImpl::create(&mut db, "TestFolder4", folder3.id, FileType::Folder).unwrap();

    FileServiceImpl::create(&mut db, "TestFolder5", folder4.id, FileType::Folder).unwrap();
    FileServiceImpl::create(&mut db, "test1.text", folder4.id, FileType::Document).unwrap();
    FileServiceImpl::create(&mut db, "test2.text", folder2.id, FileType::Document).unwrap();
    FileServiceImpl::create(&mut db, "test3.text", folder2.id, FileType::Document).unwrap();
    FileServiceImpl::create(&mut db, "test4.text", folder2.id, FileType::Document).unwrap();
    FileServiceImpl::create(&mut db, "test5.text", folder2.id, FileType::Document).unwrap();

    assert!(db
        .get_all_paths(None)
        .contains(&"username/TestFolder1/TestFolder2/test3.text".to_string()));
    assert!(db
        .get_all_paths(None)
        .contains(&"username/TestFolder1/TestFolder2/TestFolder3/TestFolder4/test1.text".to_string()));
}

#[test]
fn get_path_tests() {
    let (mut db, root) = setup(true);
    let root = root.unwrap();

    let folder1 = FileServiceImpl::create(&mut db, "TestFolder1", root.id, FileType::Folder).unwrap();
    let folder2 = FileServiceImpl::create(&mut db, "TestFolder2", folder1.id, FileType::Folder).unwrap();
    let folder3 = FileServiceImpl::create(&mut db, "TestFolder3", folder2.id, FileType::Folder).unwrap();
    let folder4 = FileServiceImpl::create(&mut db, "TestFolder4", folder3.id, FileType::Folder).unwrap();

    FileServiceImpl::create(&mut db, "TestFolder5", folder4.id, FileType::Folder).unwrap();
    FileServiceImpl::create(&mut db, "test1.text", folder4.id, FileType::Document).unwrap();
    FileServiceImpl::create(&mut db, "test2.text", folder2.id, FileType::Document).unwrap();
    let file = FileServiceImpl::create(&mut db, "test3.text", folder2.id, FileType::Document).unwrap();
    FileServiceImpl::create(&mut db, "test4.text", folder2.id, FileType::Document).unwrap();
    FileServiceImpl::create(&mut db, "test5.text", folder2.id, FileType::Document).unwrap();

    assert!(db.get_by_path("invalid").is_none());
    assert!(db.get_by_path("username/TestFolder1/TestFolder2/test3.text").is_some());
    assert_eq!(db.get_by_path("username/TestFolder1/TestFolder2/test3.text").unwrap(), file);

    for path in db.get_all_paths(None) {
        assert!(db.get_by_path(&path).is_some())
    }
}

#[test]
fn test_arbitrary_path_file_creation() {
    let (mut db, _) = setup(true);

    assert!(FileServiceImpl::create_at_path(&mut db, "garbage").is_err());
    assert!(FileServiceImpl::create_at_path(&mut db, "username/").is_err());
    assert!(FileServiceImpl::create_at_path(&mut db, "username/").is_err());
    assert_eq!(db.get_all_paths(None).len(), 1);
    assert_eq!(
        FileServiceImpl::create_at_path(&mut db, "username/test.txt").unwrap().name,
        "test.txt"
    );
    assert_eq!(db.get_all_paths(None).len(), 2);
    assert_eq!(db.get_all_paths(Some(Filter::DocumentsOnly)).len(), 1);
    assert_eq!(db.get_all_paths(Some(Filter::LeafNodesOnly)).len(), 1);
    assert_eq!(db.get_all_paths(Some(Filter::FoldersOnly)).len(), 1);

    assert_eq!(
        FileServiceImpl::create_at_path(&mut db, "username/folder1/folder2/folder3/test2.txt")
            .unwrap()
            .name,
        "test2.txt"
    );
    assert_eq!(db.get_all_paths(None).len(), 6);
    assert_eq!(db.get_all_paths(Some(Filter::DocumentsOnly)).len(), 2);
    assert_eq!(db.get_all_paths(Some(Filter::LeafNodesOnly)).len(), 2);
    println!("{:?}", db.get_all_paths(None));
    let file = FileServiceImpl::create_at_path(&mut db, "username/folder1/folder2/test3.txt").unwrap();
    println!("{:?}", db.get_all_paths(None));
    assert_eq!(db.get_all_paths(None).len(), 7);
    assert_eq!(file.name, "test3.txt");
    assert_eq!(db.get(file.parent).unwrap().name, "folder2");
    assert_eq!(db.get(file.parent).unwrap().file_type, FileType::Folder);
    assert_eq!(db.get_all_paths(Some(Filter::DocumentsOnly)).len(), 3);
    assert_eq!(db.get_all_paths(Some(Filter::LeafNodesOnly)).len(), 3);

    assert_eq!(
        FileServiceImpl::create_at_path(&mut db, "username/folder1/folder2/folder3/folder4/")
            .unwrap()
            .file_type,
        FileType::Folder
    );
    assert_eq!(db.get_all_paths(Some(Filter::DocumentsOnly)).len(), 3);
    assert_eq!(db.get_all_paths(Some(Filter::LeafNodesOnly)).len(), 4);
    assert_eq!(db.get_all_paths(Some(Filter::FoldersOnly)).len(), 5);
}

#[test]
fn ensure_no_duplicate_files_via_path() {
    let (mut db, _) = setup(true);
    FileServiceImpl::create_at_path(&mut db, "username/test.txt").unwrap();
    assert!(FileServiceImpl::create_at_path(&mut db, "username/test.txt").is_err());
}

#[test]
fn ensure_no_duplicate_files_via_create() {
    let (mut db, _) = setup(true);
    let file = FileServiceImpl::create_at_path(&mut db, "username/test.txt").unwrap();
    assert!(FileServiceImpl::create(&mut db, "test.txt", file.parent, FileType::Document).is_err());
}

#[test]
fn ensure_no_document_has_children_via_path() {
    let (mut db, _) = setup(true);
    FileServiceImpl::create_at_path(&mut db, "username/test.txt").unwrap();
    assert!(FileServiceImpl::create_at_path(&mut db, "username/test.txt/oops.txt").is_err());
}

#[test]
fn ensure_no_document_has_children() {
    let (mut db, _) = setup(true);
    let file = FileServiceImpl::create_at_path(&mut db, "username/test.txt").unwrap();
    assert!(FileServiceImpl::create(&mut db, "oops.txt", file.id, FileType::Document).is_err());
}

#[test]
fn ensure_no_bad_names() {
    let (mut db, root) = setup(true);
    let root = root.unwrap();
    assert!(FileServiceImpl::create(&mut db, "oops/txt", root.id, FileType::Document).is_err());
}

#[test]
fn rename_runthrough() {
    let (mut db, _) = setup(true);

    let file = FileServiceImpl::create_at_path(&mut db, "username/folder1/file1.txt").unwrap();
    assert!(db.get_local_changes(file.id).unwrap().new);
    assert!(db.get_local_changes(file.parent).unwrap().new);
    assert_eq!(db.get_all_local_changes().len(), 2);

    db.untrack_new_file(file.id);
    db.untrack_new_file(file.parent);
    assert_eq!(db.get_all_local_changes().len(), 0);

    FileServiceImpl::rename_file(&mut db, file.id, "file2.txt").unwrap();
    assert_eq!(
        db.get_local_changes(file.id).unwrap().renamed.unwrap().old_value,
        "file1.txt"
    );

    FileServiceImpl::rename_file(&mut db, file.id, "file23.txt").unwrap();
    assert_eq!(db.get_all_local_changes().len(), 1);
    assert_eq!(
        db.get_local_changes(file.id).unwrap().renamed.unwrap().old_value,
        "file1.txt"
    );
    assert_eq!(db.get_all_local_changes().len(), 1);

    FileServiceImpl::rename_file(&mut db, file.id, "file1.txt").unwrap();
    assert_eq!(db.get_all_local_changes().len(), 0);

    assert!(FileServiceImpl::rename_file(&mut db, random_id(), "not_used").is_err());
    assert!(FileServiceImpl::rename_file(&mut db, file.id, "file/1.txt").is_err());
    assert_eq!(db.get_all_local_changes().len(), 0);
    assert_eq!(db.get(file.id).unwrap().name, "file1.txt");

    let file2 = FileServiceImpl::create_at_path(&mut db, "username/folder1/file2.txt").unwrap();
    assert_eq!(db.get(file2.id).unwrap().name, "file2.txt");
    assert!(FileServiceImpl::rename_file(&mut db, file2.id, "file1.txt").is_err());
}

#[test]
fn move_runthrough() {
    let (mut db, _) = setup(true);

    let file1 = FileServiceImpl::create_at_path(&mut db, "username/folder1/file.txt").unwrap();
    let og_folder = file1.parent;
    let folder1 = FileServiceImpl::create_at_path(&mut db, "username/folder2/").unwrap();
    assert!(FileServiceImpl::write_document(
        &mut db,
        folder1.id,
        &DecryptedValue::from("should fail")
    )
    .is_err());

    FileServiceImpl::write_document(&mut db, file1.id, &DecryptedValue::from("nice doc ;)")).unwrap();

    assert_eq!(db.get_all_local_changes().len(), 3);

    db.untrack_new_file(file1.id);
    db.untrack_new_file(file1.parent);
    db.untrack_new_file(folder1.id);

    assert_eq!(db.get_all_local_changes().len(), 0);

    FileServiceImpl::move_file(&mut db, file1.id, folder1.id).unwrap();

    assert_eq!(
        FileServiceImpl::read_document(&db, file1.id).unwrap().secret,
        "nice doc ;)"
    );

    assert_eq!(db.get(file1.id).unwrap().parent, folder1.id);
    assert_eq!(db.get_all_local_changes().len(), 1);

    let file2 = FileServiceImpl::create_at_path(&mut db, "username/folder3/file.txt").unwrap();
    assert!(FileServiceImpl::move_file(&mut db, file1.id, file2.parent).is_err());
    assert!(FileServiceImpl::move_file(&mut db, random_id(), file2.parent).is_err());
    assert!(FileServiceImpl::move_file(&mut db, file1.id, random_id()).is_err());
    assert_eq!(db.get_all_local_changes().len(), 3);

    FileServiceImpl::move_file(&mut db, file1.id, og_folder).unwrap();
    assert_eq!(db.get_all_local_changes().len(), 2);
}

#[test]
fn create_refusals_name_their_cause() {
    let (mut db, root) = setup(true);
    let root = root.unwrap();
    let doc = FileServiceImpl::create(&mut db, "a.txt", root.id, FileType::Document).unwrap();
    assert!(matches!(
        FileServiceImpl::create(&mut db, "a/b", root.id, FileType::Document),
        Err(NewFileError::FileNameContainsSlash)
    ));
    assert!(matches!(
        FileServiceImpl::create(&mut db, "b.txt", doc.id, FileType::Document),
        Err(NewFileError::ParentIsADocument)
    ));
    assert!(matches!(
        FileServiceImpl::create(&mut db, "a.txt", root.id, FileType::Folder),
        Err(NewFileError::FileNameNotAvailable)
    ));
    assert!(matches!(
        FileServiceImpl::create(&mut db, "c.txt", random_id(), FileType::Document),
        Err(NewFileError::CouldNotFindParents(_))
    ));
    let mut empty = FileDb::new();
    assert!(matches!(
        FileServiceImpl::create(&mut empty, "c.txt", root.id, FileType::Document),
        Err(NewFileError::AccountRetrievalError(_))
    ));
}

#[test]
fn new_document_reads_empty() {
    let (mut db, root) = setup(true);
    let root = root.unwrap();
    let doc = FileServiceImpl::create(&mut db, "a.txt", root.id, FileType::Document).unwrap();
    assert_eq!(FileServiceImpl::read_document(&db, doc.id).unwrap().secret, "");
    assert_eq!(db.get_path(doc.id).unwrap(), "username/a.txt");
}

#[test]
fn rename_back_restores_changes() {
    let (mut db, root) = setup(true);
    let root = root.unwrap();
    let doc = FileServiceImpl::create(&mut db, "a.txt", root.id, FileType::Document).unwrap();
    db.untrack_new_file(doc.id);
    assert_eq!(db.get_all_local_changes().len(), 0);
    FileServiceImpl::rename_file(&mut db, doc.id, "b.txt").unwrap();
    assert_eq!(db.get_all_local_changes().len(), 1);
    FileServiceImpl::rename_file(&mut db, doc.id, "a.txt").unwrap();
    assert_eq!(db.get_all_local_changes().len(), 0);
    assert_eq!(db.get(doc.id).unwrap().name, "a.txt");
}

#[test]
fn path_errors() {
    let (mut db, _) = setup(false);
    assert!(matches!(
        FileServiceImpl::create_at_path(&mut db, "username/a.txt"),
        Err(lockbook::file_service::NewFileFromPathError::NoRoot)
    ));
    let (mut db, _) = setup(true);
    assert!(matches!(
        FileServiceImpl::create_at_path(&mut db, "someone/a.txt"),
        Err(lockbook::file_service::NewFileFromPathError::InvalidRootFolder)
    ));
    assert!(matches!(
        FileServiceImpl::create_at_path(&mut db, "username"),
        Err(lockbook::file_service::NewFileFromPathError::FileAlreadyExists)
    ));
    let f = FileServiceImpl::create_at_path(&mut db, "username/x/y/z.md").unwrap();
    assert_eq!(db.get_path(f.id).unwrap(), "username/x/y/z.md");
}

#[test]
fn mark_deleted_at_path_marks_the_file() {
    let (mut db, _) = setup(true);
    let f = FileServiceImpl::create_at_path(&mut db, "username/notes/a.md").unwrap();
    let marked = FileServiceImpl::mark_deleted_at_path(&mut db, "username/notes/a.md").unwrap();
    assert_eq!(marked.id, f.id);
    assert!(marked.deleted);
    assert!(db.get(f.id).unwrap().deleted);
    assert!(FileServiceImpl::mark_deleted_at_path(&mut db, "username/nothing").is_none());
}

#[test]
fn move_back_restores_changes() {
    let (mut db, root) = setup(true);
    let root = root.unwrap();
    let f1 = FileServiceImpl::create(&mut db, "f1", root.id, FileType::Folder).unwrap();
    let doc = FileServiceImpl::create(&mut db, "a.txt", root.id, FileType::Document).unwrap();
    db.untrack_new_file(f1.id);
    db.untrack_new_file(doc.id);
    assert_eq!(db.get_all_local_changes().len(), 0);
    FileServiceImpl::move_file(&mut db, doc.id, f1.id).unwrap();
    let changes = db.get_all_local_changes();
    assert_eq!(changes.len(), 1);
    assert_eq!(changes[0].moved.as_ref().unwrap().old_value, root.id);
    FileServiceImpl::move_file(&mut db, doc.id, root.id).unwrap();
    assert_eq!(db.get_all_local_changes().len(), 0);
    assert_eq!(db.get(doc.id).unwrap().parent, root.id);
}

#[test]
fn rename_and_move_keep_content() {
    let (mut db, root) = setup(true);
    let root = root.unwrap();
    let f1 = FileServiceImpl::create(&mut db, "f1", root.id, FileType::Folder).unwrap();
    let doc = FileServiceImpl::create(&mut db, "a.txt", root.id, FileType::Document).unwrap();
    FileServiceImpl::write_document(&mut db, doc.id, &DecryptedValue::from("kept")).unwrap();
    FileServiceImpl::rename_file(&mut db, doc.id, "b.txt").unwrap();
    FileServiceImpl::move_file(&mut db, doc.id, f1.id).unwrap();
    assert_eq!(FileServiceImpl::read_document(&db, doc.id).unwrap().secret, "kept");
    let other = FileServiceImpl::create(&mut db, "c.txt", f1.id, FileType::Document).unwrap();
    assert_eq!(FileServiceImpl::read_document(&db, doc.id).unwrap().secret, "kept");
    assert_eq!(FileServiceImpl::read_document(&db, other.id).unwrap().secret, "");
}

#[test]
fn change_log_holds_no_empty_entries() {
    let (mut db, root) = setup(true);
    let root = root.unwrap();
    let doc = FileServiceImpl::create(&mut db, "a.txt", root.id, FileType::Document).unwrap();
    FileServiceImpl::rename_file(&mut db, doc.id, "b.txt").unwrap();
    FileServiceImpl::rename_file(&mut db, doc.id, "a.txt").unwrap();
    let changes = db.get_all_local_changes();
    assert_eq!(changes.len(), 1);
    assert!(changes[0].new);
    assert!(changes[0].renamed.is_none());
    for c in db.get_all_local_changes() {
        assert!(c.new || c.content_edited || c.deleted || c.renamed.is_some() || c.moved.is_some());
    }
}

#[test]
fn create_with_id_uses_the_given_id_and_key() {
    let (mut db, root) = setup(true);
    let root = root.unwrap();
    let key = [7u8; 32];
    let f = FileServiceImpl::create_with_id(&mut db, "a.txt", root.id, FileType::Document, 42, key)
        .unwrap();
    assert_eq!(f.id, 42);
    assert_eq!(f.access_key, key);
    assert_eq!(db.get_path(42).unwrap(), "username/a.txt");
    assert_eq!(FileServiceImpl::read_document(&db, 42).unwrap().secret, "");
    assert!(matches!(
        FileServiceImpl::create_with_id(&mut db, "b.txt", root.id, FileType::Document, 42, key),
        Err(NewFileError::FileIdTaken)
    ));
    assert!(matches!(
        FileServiceImpl::create_with_id(&mut db, "b.txt", root.id, FileType::Document, root.id, key),
        Err(NewFileError::FileIdTaken)
    ));
    assert!(matches!(
        FileServiceImpl::create_with_id(&mut db, "a.txt", root.id, FileType::Document, 43, key),
        Err(NewFileError::FileNameNotAvailable)
    ));
    assert_eq!(db.get_all_paths(None).len(), 2);
}

#[test]
fn create_at_path_with_ids_makes_only_the_missing_files() {
    let (mut db, _) = setup(true);
    let keys = vec![[1u8; 32]; 5];
    let f = FileServiceImpl::create_at_path_with_ids(&mut db, "username/a/b.md", &vec![10, 11, 12], &keys)
        .unwrap();
    assert_eq!(f.id, 11);
    assert_eq!(db.get(10).unwrap().name, "a");
    assert_eq!(db.get(10).unwrap().file_type, FileType::Folder);
    assert_eq!(db.get(11).unwrap().parent, 10);
    assert_eq!(db.get_all_paths(None).len(), 3);
    let g = FileServiceImpl::create_at_path_with_ids(&mut db, "username/a/c/d/", &vec![20, 21, 22, 23], &keys)
        .unwrap();
    assert_eq!(g.id, 21);
    assert_eq!(db.get(20).unwrap().parent, 10);
    assert_eq!(g.file_type, FileType::Folder);
    assert_eq!(db.get_path(21).unwrap(), "username/a/c/d/");
    assert_eq!(db.get_all_paths(None).len(), 5);
    assert!(matches!(
        FileServiceImpl::create_at_path_with_ids(&mut db, "username/a/c/d/", &vec![30, 31, 32, 33], &keys),
        Err(NewFileFromPathError::FileAlreadyExists)
    ));
}

#[test]
fn create_at_path_with_ids_refuses_taken_ids_and_changes_nothing() {
    let (mut db, root) = setup(true);
    let root = root.unwrap();
    let keys = vec![[1u8; 32]; 5];
    assert!(matches!(
        FileServiceImpl::create_at_path_with_ids(&mut db, "username/x/y.md", &vec![5, 5, 0], &keys),
        Err(NewFileFromPathError::FailedToCreateChild(NewFileError::FileIdTaken))
    ));
    assert!(matches!(
        FileServiceImpl::create_at_path_with_ids(&mut db, "username/x/y.md", &vec![5, root.id, 0], &keys),
        Err(NewFileFromPathError::FailedToCreateChild(NewFileError::FileIdTaken))
    ));
    assert_eq!(db.get_all_paths(None).len(), 1);
    assert_eq!(db.get_all_local_changes().len(), 0);
}

#[test]
fn create_at_path_needs_a_root_for_an_empty_path() {
    let (mut db, _) = setup(false);
    assert!(matches!(
        FileServiceImpl::create_at_path(&mut db, "/"),
        Err(NewFileFromPathError::NoRoot)
    ));
}
