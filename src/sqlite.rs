use vstd::prelude::*;

verus! {

/// `rusqlite::Connection`, an open SQLite database, carried through as it is.
#[verifier::external_type_specification]
#[verifier::external_body]
pub struct ExConnection(rusqlite::Connection);

/// `rusqlite::Error`, a failure of the SQLite database, carried through as it is.
#[verifier::external_type_specification]
#[verifier::external_body]
pub struct ExSqlError(rusqlite::Error);

/// A value bound to a positional `?` parameter of a statement.
#[derive(Clone, Debug)]
pub enum SqlParam {
    Text(String),
    Integer(i64),
}

/// One row of the join of notes with their categories: the note's columns,
/// and the category's id and label, which are NULL for a note without one.
#[derive(Clone, Debug)]
pub struct NoteRow {
    pub note_id: String,
    pub content: String,
    pub created: i64,
    pub modified: i64,
    pub category_id: Option<String>,
    pub category_label: Option<String>,
}

/// A statement with the values of its positional parameters.
#[derive(Clone, Debug)]
pub struct SqlStatement {
    pub sql: String,
    pub params: Vec<SqlParam>,
}

/// One row of the categories table.
#[derive(Clone, Debug)]
pub struct CategoryRow {
    pub id: String,
    pub label: String,
}

/// Relies on `rusqlite::Connection::open`: opens (or creates) the database
/// file at `path`.
#[verifier::external_body]
pub(crate) fn open_connection(path: &str) -> (r: Result<rusqlite::Connection, rusqlite::Error>) {
    rusqlite::Connection::open(path)
}

/// Relies on `rusqlite::Connection::execute`: runs one statement with the
/// parameters bound in order, and gives the number of rows it changed.
#[verifier::external_body]
pub(crate) fn execute(conn: &rusqlite::Connection, sql: &str, params: &Vec<SqlParam>) -> (r: Result<usize, rusqlite::Error>) {
    conn.execute(
        sql,
        rusqlite::params_from_iter(params.iter().map(|p| match p {
            SqlParam::Text(s) => rusqlite::types::Value::Text(s.clone()),
            SqlParam::Integer(i) => rusqlite::types::Value::Integer(*i),
        })),
    )
}

/// Relies on `rusqlite::Connection::prepare` and `Statement::query_map`: the
/// rows that the query returns, columns 0 to 5 read as a [`NoteRow`].
#[verifier::external_body]
pub(crate) fn query_note_rows(conn: &rusqlite::Connection, sql: &str, params: &Vec<SqlParam>) -> (r: Result<Vec<NoteRow>, rusqlite::Error>) {
    let mut stmt = conn.prepare(sql)?;
    let values = params.iter().map(|p| match p {
        SqlParam::Text(s) => rusqlite::types::Value::Text(s.clone()),
        SqlParam::Integer(i) => rusqlite::types::Value::Integer(*i),
    });
    let rows = stmt.query_map(rusqlite::params_from_iter(values), |row| {
        let (note_id, content, created, modified) = (row.get(0)?, row.get(1)?, row.get(2)?, row.get(3)?);
        Ok(NoteRow { note_id, content, created, modified, category_id: row.get(4)?, category_label: row.get(5)? })
    })?;
    rows.collect()
}

/// Relies on `rusqlite::Connection::prepare` and `Statement::query_map`, as
/// [`query_note_rows`] does, for the two-column rows of the categories table:
/// the rows that the query returns, columns 0 and 1 read as a [`CategoryRow`].
#[verifier::external_body]
pub(crate) fn query_category_rows(conn: &rusqlite::Connection, sql: &str, param: &str) -> (r: Result<Vec<CategoryRow>, rusqlite::Error>) {
    let mut stmt = conn.prepare(sql)?;
    let rows = stmt.query_map([param], |row| Ok(CategoryRow { id: row.get(0)?, label: row.get(1)? }))?;
    rows.collect()
}

/// Relies on the `Display` of `rusqlite::Error`: its message.
#[verifier::external_body]
pub(crate) fn error_message(e: &rusqlite::Error) -> (r: String) {
    e.to_string()
}

} // verus!
