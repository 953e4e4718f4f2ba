//! The observable ordered collection: the current snapshot of one table,
//! read anew on demand, with a notification of what changed.

use crate::bytes::has_zero_byte;
use crate::change::{diff, lemma_diff_empty_iff_identical, Change};
use crate::database_item::DatabaseItem;
use crate::error::DatabaseError;
use crate::snapshot::{keys_distinct, records_of, snapshot_of, Snapshot};
use crate::store::{read_table, share_env};
use crate::text::{names_a_table, table_name};
use vstd::prelude::*;
use vstd::string::StringSliceAdditionalSpecFns;
use vstd::utf8::encode_utf8;

verus! {

/// Whether the store can be asked for a table of this name: the root table
/// (no name) always, a named one unless the name holds a zero byte.
pub open spec fn admissible_name(name: Option<Seq<char>>) -> bool {
    name matches Some(text) ==> !encode_utf8(text).contains(0u8)
}

/// The characters of a name, or none for the root table.
pub open spec fn name_chars(name: Option<&str>) -> Option<Seq<char>> {
    match name {
        Some(text) => Some(text@),
        None => None,
    }
}

/// One table of an environment, as it was when it was last read with
/// success.
pub struct Database {
    env: heed::Env,
    name: Option<String>,
    snapshot: Snapshot,
}

impl View for Database {
    type V = Seq<(Seq<u8>, Seq<u8>)>;

    closed spec fn view(&self) -> Seq<(Seq<u8>, Seq<u8>)> {
        self.snapshot@
    }
}

impl Database {
    #[verifier::type_invariant]
    spec fn name_can_be_asked_for(self) -> bool {
        admissible_name(self.name_view())
    }

    /// The name of the table, or none for the root table.
    pub closed spec fn name_view(&self) -> Option<Seq<char>> {
        match self.name {
            Some(text) => Some(text@),
            None => None,
        }
    }

    /// Reads the table `name` of `env`, or its root table where `name` is
    /// none. A name that no table can have is `NotFound` before the store is
    /// asked.
    pub fn load(env: &heed::Env, name: Option<&str>) -> (loaded: Result<Database, DatabaseError>)
        ensures
            !admissible_name(name_chars(name)) ==> loaded matches Err(DatabaseError::NotFound),
            loaded matches Ok(database) ==> database.name_view() == name_chars(name) && keys_distinct(
                database@,
            ),
            loaded matches Err(error) ==> error !is Open,
    {
        if let Some(text) = name {
            if has_zero_byte(text.as_bytes()) {
                return Err(DatabaseError::NotFound);
            }
        }
        let scan = read_table(env, name);
        Database::from_scan(env, name, scan)
    }

    /// What `load` makes of the outcome of one scan of the table: a
    /// database that holds the snapshot of the records, `NotFound` where the
    /// environment has no such table, `Transaction` where the store failed.
    pub fn from_scan(
        env: &heed::Env,
        name: Option<&str>,
        scan: Result<Option<Vec<DatabaseItem>>, heed::Error>,
    ) -> (loaded: Result<Database, DatabaseError>)
        ensures
            match loaded {
                Ok(database) => {
                    &&& admissible_name(name_chars(name))
                    &&& scan matches Ok(Some(records))
                    &&& database@ == snapshot_of(records_of(records@))
                    &&& database.name_view() == name_chars(name)
                    &&& keys_distinct(database@)
                },
                Err(DatabaseError::NotFound) => !admissible_name(name_chars(name)) || scan
                    matches Ok(None),
                Err(DatabaseError::Transaction(_)) => admissible_name(name_chars(name))
                    && scan is Err,
                Err(DatabaseError::Open(_)) => false,
            },
    {
        let owned_name = match name {
            Some(text) => {
                if has_zero_byte(text.as_bytes()) {
                    return Err(DatabaseError::NotFound);
                }
                Some(text.to_owned())
            },
            None => None,
        };
        match scan {
            Ok(Some(records)) => {
                let snapshot = Snapshot::from_records(records);
                Ok(Database { env: share_env(env), name: owned_name, snapshot })
            },
            Ok(None) => Err(DatabaseError::NotFound),
            Err(error) => Err(DatabaseError::from_read_failure(&error)),
        }
    }

    /// Reads the table again in a fresh transaction. On success the new
    /// snapshot takes the place of the old one and the notification says how
    /// the two differ; on failure the old snapshot stays as it is.
    pub fn reload(&mut self) -> (outcome: Result<Change, DatabaseError>)
        ensures
            final(self).name_view() == old(self).name_view(),
            match outcome {
                Ok(change) => {
                    &&& change.describes(old(self)@, final(self)@)
                    &&& change.removed == 0 && change.added == 0 <==> final(self)@ == old(self)@
                    &&& keys_distinct(final(self)@)
                },
                Err(error) => final(self)@ == old(self)@ && error !is Open,
            },
    {
        proof {
            use_type_invariant(&*self);
        }
        let scan = match &self.name {
            Some(text) => read_table(&self.env, Some(text.as_str())),
            None => read_table(&self.env, None),
        };
        self.apply_scan(scan)
    }

    /// What `reload` makes of the outcome of one scan of the table.
    pub fn apply_scan(&mut self, scan: Result<Option<Vec<DatabaseItem>>, heed::Error>) -> (outcome:
        Result<Change, DatabaseError>)
        ensures
            final(self).name_view() == old(self).name_view(),
            match scan {
                Ok(Some(records)) => {
                    &&& final(self)@ == snapshot_of(records_of(records@))
                    &&& keys_distinct(final(self)@)
                    &&& outcome matches Ok(change)
                    &&& change.describes(old(self)@, final(self)@)
                    &&& change.removed == 0 && change.added == 0 <==> final(self)@ == old(self)@
                },
                Ok(None) => final(self)@ == old(self)@ && outcome matches Err(
                    DatabaseError::NotFound,
                ),
                Err(_) => final(self)@ == old(self)@ && outcome matches Err(
                    DatabaseError::Transaction(_),
                ),
            },
    {
        proof {
            use_type_invariant(&*self);
        }
        match scan {
            Ok(Some(records)) => {
                let snapshot = Snapshot::from_records(records);
                let change = diff(&self.snapshot, &snapshot);
                proof {
                    lemma_diff_empty_iff_identical(self.snapshot@, snapshot@);
                }
                self.snapshot = snapshot;
                Ok(change)
            },
            Ok(None) => Err(DatabaseError::NotFound),
            Err(error) => Err(DatabaseError::from_read_failure(&error)),
        }
    }

    /// Reads the table that the key of entry `index` names: what choosing an
    /// entry of the root table does. A key that names no table is
    /// `NotFound`.
    pub fn select(&self, index: usize) -> (opened: Result<Database, DatabaseError>)
        requires
            index < self@.len(),
        ensures
            !names_a_table(self@[index as int].0) ==> opened matches Err(DatabaseError::NotFound),
            opened matches Ok(database) ==> {
                &&& database.name_view() matches Some(text)
                &&& encode_utf8(text) == self@[index as int].0
                &&& keys_distinct(database@)
            },
            opened matches Err(error) ==> error !is Open,
    {
        match table_name(self.snapshot.key_at(index)) {
            Ok(text) => Database::load(&self.env, Some(text)),
            Err(error) => Err(error),
        }
    }

    /// The current snapshot.
    pub fn snapshot(&self) -> (snapshot: &Snapshot)
        ensures
            snapshot@ == self@,
    {
        &self.snapshot
    }

    /// The number of entries in the current snapshot.
    pub fn len(&self) -> (len: usize)
        ensures
            len == self@.len(),
            keys_distinct(self@),
    {
        self.snapshot.len()
    }

    /// The entry at `index` of the current snapshot, copied out.
    pub fn get(&self, index: usize) -> (item: DatabaseItem)
        requires
            index < self@.len(),
        ensures
            item@ == self@[index as int],
    {
        self.snapshot.get(index)
    }

    /// The name of the table, or none for the root table.
    pub fn name(&self) -> (name: Option<&str>)
        ensures
            name_chars(name) == self.name_view(),
    {
        match &self.name {
            Some(text) => Some(text.as_str()),
            None => None,
        }
    }
}

} // verus!
