use lockbook::account_repo::{AccountRepoImpl, Error};
use lockbook::db::FileDb;
use lockbook::model::Account;

#[test]
fn insert_account() {
    let test_account = Account { username: "parth".to_string() };

    let mut db = FileDb::new();
    let res = AccountRepoImpl::get_account(&db);
    assert!(res.is_err());
    assert_eq!(res.unwrap_err(), Error::AccountMissing(()));

    AccountRepoImpl::insert_account(&mut db, &test_account).unwrap();

    let db_account = AccountRepoImpl::get_account(&db).unwrap();
    assert_eq!(test_account, db_account);
}
