//! The store itself, as far as this library touches it: an open environment
//! and one scan of one table. Everything stated here is taken on trust from
//! `heed`; what is read depends on what other processes have written.

use crate::database_item::DatabaseItem;
use heed::types::ByteSlice;
use vstd::prelude::*;
use vstd::string::StringSliceAdditionalSpecFns;

verus! {

/// `heed::Env`, an open environment, held as it is.
#[verifier::external_type_specification]
#[verifier::external_body]
pub struct ExEnv(heed::Env);

/// `heed::Error`, a failure of the store, carried through as it is.
#[verifier::external_type_specification]
#[verifier::external_body]
pub struct ExStoreError(heed::Error);

/// The size of the memory map that an environment is opened with: 100 MiB.
pub const MAP_SIZE: usize = 100 * 1024 * 1024;

/// The number of named tables that an environment is opened for.
pub const MAX_DBS: u32 = 100;

/// `Env::clone`: a second handle on the environment. Nothing is stated of
/// it.
#[verifier::external_body]
pub(crate) fn share_env(env: &heed::Env) -> (shared: heed::Env) {
    env.clone()
}

/// `Env::open_database`, `Env::read_txn`, `Database::iter` and the cursor's
/// `next`, in one, so that table, transaction and cursor all stem from `env`
/// and end here: `Ok(None)` where the environment has no table of that name,
/// else the records that the cursor handed out before it ended, each copied,
/// or the first error. Nothing is stated of what comes back. A name with a
/// zero byte is kept out, as `heed` panics on one.
#[verifier::external_body]
pub(crate) fn read_table(env: &heed::Env, name: Option<&str>) -> (scan: Result<
    Option<Vec<DatabaseItem>>,
    heed::Error,
>)
    requires
        name matches Some(text) ==> !text.spec_bytes().contains(0u8),
{
    let table = match env.open_database::<ByteSlice, ByteSlice>(name)? {
        Some(table) => table,
        None => return Ok(None),
    };
    let txn = env.read_txn()?;
    let cursor = table.iter(&txn)?;
    let records: Result<Vec<DatabaseItem>, heed::Error> =
        cursor.map(|record| record.map(|(key, data)| DatabaseItem::new(key, data))).collect();
    records.map(Some)
}

/// `Display` for `heed::Error`: the store's own words for a failure.
/// Nothing is stated of them.
#[verifier::external_body]
pub(crate) fn store_error_text(error: &heed::Error) -> (text: String) {
    format!("{}", error)
}

} // verus!
