//! The writing side: two-column tables behind one SQLite connection.
//!
//! The connection stays with the store; a table handle only carries the
//! validated table name, and each batch names the store it writes through.

use crate::db::names::{check_safe_ident, clone_bytes, is_safe_ident};
use crate::db::sqlite::{sql_create_table, sql_insert_batch};
use crate::db::{StoreError, WriteError};
use rusqlite::Connection;
use vstd::prelude::*;
use vstd::utf8::encode_utf8;

verus! {

/// A destination store behind one SQLite connection.
pub struct SqliteDB(Connection);

/// One table, by validated name.
pub struct SqliteTable {
    name: Vec<u8>,
}

impl SqliteDB {
    pub fn new(conn: Connection) -> Self {
        Self(conn)
    }

    /// Releases the connection; the caller becomes responsible for it.
    pub fn into_connection(self) -> Connection {
        self.0
    }

    /// Opens or creates the named table.  The name must be a safe SQL
    /// identifier, since it stands in SQL statements; any other name is a
    /// store error before any engine call, and any engine failure is one
    /// too.
    pub fn table(&mut self, string: String) -> (r: Result<SqliteTable, StoreError>)
        ensures
            !is_safe_ident(encode_utf8(string@)) ==> r is Err,
            r is Ok ==> (r->Ok_0).name_of() == encode_utf8(string@) && is_safe_ident(
                (r->Ok_0).name_of(),
            ),
    {
        let name = string.as_str().as_bytes_vec();
        if !check_safe_ident(&name) {
            return Err(StoreError { segment: name });
        }
        match sql_create_table(&self.0, &name) {
            Ok(u) => u,
            Err(_) => {
                return Err(StoreError { segment: name });
            },
        };
        Ok(SqliteTable { name })
    }
}

impl SqliteTable {
    /// The table's name, as bytes.
    pub closed spec fn name_of(&self) -> Seq<u8> {
        self.name@
    }

    /// Writes one batch as a single transaction: either every row is
    /// committed, the last write to a key winning, or none is.
    pub fn batch_insert(&mut self, db: &mut SqliteDB, batch: &Vec<(Vec<u8>, Vec<u8>)>) -> (r:
        Result<(), WriteError>)
        requires
            is_safe_ident(old(self).name_of()),
        ensures
            final(self).name_of() == old(self).name_of(),
    {
        match sql_insert_batch(&mut db.0, &self.name, batch) {
            Ok(u) => Ok(u),
            Err(_) => Err(WriteError { segment: clone_bytes(&self.name) }),
        }
    }
}

} // verus!
