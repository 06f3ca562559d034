//! The stored account of this client.
use vstd::prelude::*;

use crate::db::FileDb;
use crate::model::Account;

verus! {

/// Why no account could be read.
#[derive(Clone, Copy, Debug, PartialEq, Eq)]
pub enum Error {
    AccountMissing(()),
}

/// Reads and writes the account that the local store holds.
pub struct AccountRepoImpl;

impl AccountRepoImpl {
    /// Stores `account` as this client's account.
    pub fn insert_account(db: &mut FileDb, account: &Account) -> (r: Result<(), Error>)
        requires
            old(db).wf(),
        ensures
            r is Ok,
            final(db).wf(),
            final(db).account_view() == Some(account@),
            final(db).records() == old(db).records(),
            final(db).metadata() == old(db).metadata(),
            final(db).file_count() == old(db).file_count(),
            final(db).documents() == old(db).documents(),
            final(db).changes() == old(db).changes(),
            final(db).change_records() == old(db).change_records(),
    {
        db.set_account(account);
        Ok(())
    }

    /// This client's account; `AccountMissing` where none is stored.
    pub fn get_account(db: &FileDb) -> (r: Result<Account, Error>)
        ensures
            r is Err <==> db.account_view() is None,
            r matches Err(e) ==> e == Error::AccountMissing(()),
            r matches Ok(a) ==> db.account_view() == Some(a@),
    {
        match db.account() {
            Some(a) => Ok(a),
            None => Err(Error::AccountMissing(())),
        }
    }
}

} // verus!
