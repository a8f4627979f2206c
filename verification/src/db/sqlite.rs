//! The SQLite backend, over the `rusqlite` bindings: one table per segment,
//! with the fixed two-column schema `key BLOB PRIMARY KEY, value BLOB NOT
//! NULL`.  Any table with exactly the columns `key` and `value` counts as a
//! migratable segment; tables with any other column set are ignored by
//! enumeration.  Segment names must be safe SQL identifiers, since they
//! stand in SQL statements as table names; other names fail to open.
//!
//! What SQLite returns depends on the database file on disk, so this
//! adapter's store model is not exact (`Database::exact` is false) and the
//! trusted wrappers state only what holds of every outcome.  What the
//! adapter itself decides is verified: which names it attempts (`openable`
//! is exactly the safe identifiers), which column sets count as a segment
//! (`columns_are_key_value`), and the row-validation policy over the fetched
//! rows — once a `SELECT` has returned, the iterator's delivery and skip
//! record are pinned by `decode_rows`.

use crate::db::model::{RowView, SegView, StoreView};
use crate::db::names::{bytes_eq, check_safe_ident, clone_bytes, is_safe_ident, view_names};
use crate::db::rows::{decode_rows, decoded, row_ok, skips_of, view_stored, StoredRow};
use crate::db::{
    Config, Database, MigrationError, RowField, Segment, SegmentIter, SkippedRow, StoreError,
    WriteError,
};
use rusqlite::Connection;
use vstd::prelude::*;

verus! {

#[verifier::external_type_specification]
#[verifier::external_body]
pub struct ExConnection(Connection);

#[verifier::external_type_specification]
#[verifier::external_body]
pub struct ExError(rusqlite::Error);

/// Relies on rusqlite's `Connection::prepare` and `Statement::query_map`:
/// the names of every table in `sqlite_master`, as bytes.
#[verifier::external_body]
fn sql_table_names(conn: &Connection) -> (r: Result<Vec<Vec<u8>>, rusqlite::Error>) {
    let mut st = conn.prepare("SELECT name FROM sqlite_master WHERE type='table'")?;
    let names = st.query_map([], |row| row.get::<_, String>(0))?;
    let mut out: Vec<Vec<u8>> = Vec::new();
    for name in names {
        out.push(name?.into_bytes());
    }
    Ok(out)
}

/// Relies on rusqlite's `Connection::prepare` and `Statement::query_map`:
/// the column names of one table, from `pragma_table_info`, as bytes.
#[verifier::external_body]
fn sql_table_columns(conn: &Connection, table: &Vec<u8>) -> (r: Result<
    Vec<Vec<u8>>,
    rusqlite::Error,
>) {
    let name = String::from_utf8_lossy(table).into_owned();
    let mut st = conn.prepare("SELECT name FROM pragma_table_info(?)")?;
    let cols = st.query_map([&name], |row| row.get::<_, String>(0))?;
    let mut out: Vec<Vec<u8>> = Vec::new();
    for col in cols {
        out.push(col?.into_bytes());
    }
    Ok(out)
}

/// Relies on rusqlite's `Connection::execute`: creates the table with the
/// two-column schema if it does not exist.
#[verifier::external_body]
pub(crate) fn sql_create_table(conn: &Connection, table: &Vec<u8>) -> (r: Result<(), rusqlite::Error>)
    requires
        is_safe_ident(table@),
{
    let name = String::from_utf8_lossy(table).into_owned();
    let sql = format!(
        "CREATE TABLE IF NOT EXISTS {} ( \"key\" BLOB PRIMARY KEY, \"value\" BLOB NOT NULL )",
        name,
    );
    conn.execute(sql.as_str(), [])?;
    Ok(())
}

/// Relies on rusqlite's `Connection::transaction`, `Connection::execute` and
/// `Transaction::commit`: replaces every row of the batch within one
/// transaction, so either all rows are committed or none.
#[verifier::external_body]
pub(crate) fn sql_insert_batch(
    conn: &mut Connection,
    table: &Vec<u8>,
    rows: &Vec<(Vec<u8>, Vec<u8>)>,
) -> (r: Result<(), rusqlite::Error>)
    requires
        is_safe_ident(table@),
{
    let name = String::from_utf8_lossy(table).into_owned();
    let tx = conn.transaction()?;
    let sql = format!("REPLACE INTO {} (key, value) VALUES (?, ?)", name);
    for (k, v) in rows.iter() {
        tx.execute(sql.as_str(), (k, v))?;
    }
    tx.commit()
}

/// Relies on rusqlite's `Connection::prepare` and `Statement::query_map`:
/// every stored row of the table, each field decoded to bytes where SQLite
/// could, `None` where it could not.
#[verifier::external_body]
fn sql_select_rows(conn: &Connection, table: &Vec<u8>) -> (r: Result<
    Vec<StoredRow>,
    rusqlite::Error,
>)
    requires
        is_safe_ident(table@),
{
    let name = String::from_utf8_lossy(table).into_owned();
    let mut st = conn.prepare(format!("SELECT key, value FROM {}", name).as_str())?;
    let rows = st.query_map(
        [],
        |row| Ok((row.get::<_, Vec<u8>>(0).ok(), row.get::<_, Vec<u8>>(1).ok())),
    )?;
    let mut out: Vec<StoredRow> = Vec::new();
    for row in rows {
        out.push(row?);
    }
    Ok(out)
}

/// The fixed key column's name, as bytes.
pub open spec fn key_col() -> Seq<u8> {
    seq![107u8, 101u8, 121u8]
}

/// The fixed value column's name, as bytes.
pub open spec fn value_col() -> Seq<u8> {
    seq![118u8, 97u8, 108u8, 117u8, 101u8]
}

fn key_column() -> (r: Vec<u8>)
    ensures
        r@ == key_col(),
{
    let mut r: Vec<u8> = Vec::new();
    r.push(107);
    r.push(101);
    r.push(121);
    proof {
        assert(r@ =~= key_col());
    }
    r
}

fn value_column() -> (r: Vec<u8>)
    ensures
        r@ == value_col(),
{
    let mut r: Vec<u8> = Vec::new();
    r.push(118);
    r.push(97);
    r.push(108);
    r.push(117);
    r.push(101);
    proof {
        assert(r@ =~= value_col());
    }
    r
}

/// The compatibility contract for recognizing a migratable segment: a table
/// counts if and only if its column set is exactly the key column and the
/// value column, in either order.
pub fn columns_are_key_value(cols: &Vec<Vec<u8>>) -> (r: bool)
    ensures
        r == ({
            let cv = view_names(cols@);
            cv.len() == 2 && ((cv[0] == key_col() && cv[1] == value_col()) || (cv[0] == value_col()
                && cv[1] == key_col()))
        }),
{
    if cols.len() != 2 {
        return false;
    }
    let key = key_column();
    let value = value_column();
    proof {
        assert(view_names(cols@)[0] == cols@[0]@);
        assert(view_names(cols@)[1] == cols@[1]@);
    }
    (bytes_eq(&cols[0], &key) && bytes_eq(&cols[1], &value)) || (bytes_eq(&cols[0], &value)
        && bytes_eq(&cols[1], &key))
}

/// Name validation: this store attempts to open or create exactly the safe
/// SQL identifiers; any other name fails to open before any engine call,
/// never truncated or altered.
pub proof fn lemma_name_validation(db: &SqliteDB, n: Seq<u8>)
    ensures
        db.openable(n) == is_safe_ident(n),
{
}

/// A store of two-column tables behind one SQLite connection.
pub struct SqliteDB {
    conn: Option<Connection>,
    config: Config,
}

impl SqliteDB {
    /// A store over an open connection, carrying the row-validation policy.
    pub fn new(conn: Connection, config: Config) -> (r: Self)
        ensures
            r.ready(),
            r.config_of() == config,
    {
        Self { conn: Some(conn), config }
    }

    /// The row-validation policy in force.
    pub closed spec fn config_of(&self) -> Config {
        self.config
    }

    /// Releases the connection; the caller becomes responsible for it.
    pub fn into_connection(self) -> Connection
        requires
            self.ready(),
    {
        self.conn.unwrap()
    }

    fn table_is_segment(conn: &Connection, table: &Vec<u8>) -> bool {
        let cols = match sql_table_columns(conn, table) {
            Ok(cols) => cols,
            Err(_) => {
                return false;
            },
        };
        columns_are_key_value(&cols)
    }
}

/// One table, checked out of its store together with the connection.
pub struct SqliteSegment {
    conn: Connection,
    name: Vec<u8>,
    config: Config,
}

impl SqliteSegment {
    /// The row-validation policy this segment's iterations apply.
    pub closed spec fn config_of(&self) -> Config {
        self.config
    }
}

/// One SELECT over a table's rows, fetched eagerly, validated on demand.
pub struct SqliteSegmentIter {
    name: Vec<u8>,
    config: Config,
    fetched: Option<Vec<StoredRow>>,
}

impl SqliteSegmentIter {
    /// The name of the table this iteration reads.
    pub closed spec fn name_of(&self) -> Seq<u8> {
        self.name@
    }

    /// The row-validation policy this iteration applies.
    pub closed spec fn config_of(&self) -> Config {
        self.config
    }
}

impl SegmentIter for SqliteSegmentIter {
    closed spec fn rows(&self) -> Seq<RowView> {
        match self.fetched {
            Some(raw) => decoded(view_stored(raw@)),
            None => Seq::empty(),
        }
    }

    closed spec fn skips(&self) -> Seq<(int, RowField)> {
        match self.fetched {
            Some(raw) => skips_of(view_stored(raw@)),
            None => Seq::empty(),
        }
    }

    closed spec fn exact(&self) -> bool {
        match self.fetched {
            Some(raw) => self.config.ignore_broken_rows || (forall|i: int|
                0 <= i < view_stored(raw@).len() ==> row_ok(#[trigger] view_stored(raw@)[i])),
            None => false,
        }
    }

    fn iter(&mut self) -> (r: Result<
        (Vec<(Vec<u8>, Vec<u8>)>, Vec<SkippedRow>),
        MigrationError,
    >)
        ensures
            r is Ok ==> forall|j: int|
                0 <= j < (r->Ok_0).1@.len() ==> (#[trigger] (r->Ok_0).1@[j]).segment@ == old(
                    self,
                ).name_of(),
            r matches Err(MigrationError::MalformedRow(e)) ==> e.segment@ == old(self).name_of()
                && !old(self).config_of().ignore_broken_rows,
    {
        match &self.fetched {
            Some(raw) => match decode_rows(raw, &self.name, self.config) {
                Ok(pair) => Ok(pair),
                Err(e) => Err(MigrationError::MalformedRow(e)),
            },
            None => Err(MigrationError::Store(StoreError { segment: clone_bytes(&self.name) })),
        }
    }
}

impl Segment for SqliteSegment {
    type It = SqliteSegmentIter;

    closed spec fn content(&self) -> SegView {
        Map::empty()
    }

    closed spec fn exact(&self) -> bool {
        false
    }

    closed spec fn name(&self) -> Seq<u8> {
        self.name@
    }

    fn batch_insert(&mut self, batch: Vec<(Vec<u8>, Vec<u8>)>) -> (r: Result<(), WriteError>)
        ensures
            !is_safe_ident(old(self).name()) ==> r is Err,
            r is Err ==> (r->Err_0).segment@ == old(self).name(),
    {
        if !check_safe_ident(&self.name) {
            return Err(WriteError { segment: clone_bytes(&self.name) });
        }
        match sql_insert_batch(&mut self.conn, &self.name, &batch) {
            Ok(u) => Ok(u),
            Err(_) => Err(WriteError { segment: clone_bytes(&self.name) }),
        }
    }

    fn get_iter(&mut self) -> (it: SqliteSegmentIter)
        ensures
            it.name_of() == old(self).name(),
            it.config_of() == old(self).config_of(),
    {
        let fetched = if check_safe_ident(&self.name) {
            match sql_select_rows(&self.conn, &self.name) {
                Ok(raw) => Some(raw),
                Err(_) => None,
            }
        } else {
            None
        };
        SqliteSegmentIter { name: clone_bytes(&self.name), config: self.config, fetched }
    }
}

impl Database for SqliteDB {
    type Seg = SqliteSegment;

    closed spec fn view(&self) -> StoreView {
        Map::empty()
    }

    closed spec fn exact(&self) -> bool {
        false
    }

    closed spec fn ready(&self) -> bool {
        self.conn is Some
    }

    closed spec fn openable(&self, name: Seq<u8>) -> bool {
        is_safe_ident(name)
    }

    closed spec fn accepts(&self, name: Seq<u8>) -> bool {
        self.conn is None
    }

    proof fn lemma_dom_openable(&self) {
    }

    fn names(&self) -> (r: Result<Vec<Vec<u8>>, StoreError>) {
        let conn = self.conn.as_ref().unwrap();
        let tables = match sql_table_names(conn) {
            Ok(tables) => tables,
            Err(_) => {
                // An unenumerable store is an error, never an empty listing;
                // the empty name stands for the store itself.
                return Err(StoreError { segment: Vec::new() });
            },
        };
        let mut out: Vec<Vec<u8>> = Vec::new();
        let n = tables.len();
        let mut i: usize = 0;
        while i < n
            invariant
                i <= n,
                n == tables@.len(),
            decreases n - i,
        {
            if Self::table_is_segment(conn, &tables[i]) {
                out.push(clone_bytes(&tables[i]));
            }
            i = i + 1;
        }
        Ok(out)
    }

    fn segment(&mut self, name: Vec<u8>) -> (r: Option<SqliteSegment>)
        ensures
            r is Some ==> (r->Some_0).config_of() == old(self).config_of(),
    {
        if !check_safe_ident(&name) {
            return None;
        }
        match sql_create_table(self.conn.as_ref().unwrap(), &name) {
            Ok(u) => u,
            Err(_) => {
                return None;
            },
        };
        let conn = self.conn.take().unwrap();
        Some(SqliteSegment { conn, name, config: self.config })
    }

    fn absorb(&mut self, seg: SqliteSegment) {
        self.conn = Some(seg.conn);
    }

    fn flush(&mut self) {
    }
}

} // verus!
