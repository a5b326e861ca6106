//! The storage actor of a node: one SQLite connection, written by one
//! thread, with at most one two-phase transaction open at a time.
use vstd::prelude::*;
use crate::config::NodeRole;
use crate::text::{decimal, push_char, push_decimal, str_eq};

verus! {

/// The SQLite connection, carried through opaque.
#[verifier::external_type_specification]
#[verifier::external_body]
pub struct ExConnection(rusqlite::Connection);

/// A SQLite error, carried through opaque.
#[verifier::external_type_specification]
#[verifier::external_body]
pub struct ExSqlError(rusqlite::Error);

/// The statements and queries that a connection has been asked to run, in
/// order: each with its text, its text parameters and its integer
/// parameters.
pub uninterp spec fn sql_sent(conn: rusqlite::Connection) -> Seq<(Seq<char>, Seq<Seq<char>>, Seq<i32>)>;

/// For each of those, in the same order, whether the call returned `Ok`.
pub uninterp spec fn sql_outcomes(conn: rusqlite::Connection) -> Seq<bool>;

/// A statement without parameters.
pub open spec fn plain(sql: Seq<char>) -> (Seq<char>, Seq<Seq<char>>, Seq<i32>) {
    (sql, Seq::empty(), Seq::empty())
}

/// A statement with text parameters.
pub open spec fn with_texts(sql: Seq<char>, args: Seq<Seq<char>>) -> (Seq<char>, Seq<Seq<char>>, Seq<i32>) {
    (sql, args, Seq::empty())
}

/// A statement with one integer parameter.
pub open spec fn with_int(sql: Seq<char>, v: i32) -> (Seq<char>, Seq<Seq<char>>, Seq<i32>) {
    (sql, Seq::empty(), seq![v])
}

/// The texts of some strings.
pub open spec fn texts(v: Seq<String>) -> Seq<Seq<char>> {
    Seq::new(v.len(), |i: int| v[i]@)
}

/// `n` calls that all returned `Ok`.
pub open spec fn oks(n: nat) -> Seq<bool> {
    Seq::new(n, |_i: int| true)
}

/// Each of some statements, without parameters.
pub open spec fn plains(v: Seq<String>) -> Seq<(Seq<char>, Seq<Seq<char>>, Seq<i32>)> {
    Seq::new(v.len(), |i: int| plain(v[i]@))
}

/// Runs one statement without parameters (`rusqlite::Connection::execute`
/// with `[]`). The statement is recorded as sent, with whether it returned
/// `Ok`; which it returns depends on the database.
#[verifier::external_body]
fn sql_execute(conn: &mut rusqlite::Connection, sql: &str) -> (r: Result<usize, rusqlite::Error>)
    ensures
        sql_sent(*final(conn)) == sql_sent(*old(conn)).push(plain(sql@)),
        sql_outcomes(*final(conn)) == sql_outcomes(*old(conn)).push(r is Ok),
{
    conn.execute(sql, [])
}

/// Runs one statement with text parameters bound in order
/// (`rusqlite::Connection::execute` with `params_from_iter`).
#[verifier::external_body]
fn sql_execute_args(conn: &mut rusqlite::Connection, sql: &str, args: &[String]) -> (r: Result<
    usize,
    rusqlite::Error,
>)
    ensures
        sql_sent(*final(conn)) == sql_sent(*old(conn)).push(with_texts(sql@, texts(args@))),
        sql_outcomes(*final(conn)) == sql_outcomes(*old(conn)).push(r is Ok),
{
    conn.execute(sql, rusqlite::params_from_iter(args.iter()))
}

/// Runs one statement with one integer parameter.
#[verifier::external_body]
fn sql_execute_i32(conn: &mut rusqlite::Connection, sql: &str, v: i32) -> (r: Result<
    usize,
    rusqlite::Error,
>)
    ensures
        sql_sent(*final(conn)) == sql_sent(*old(conn)).push(with_int(sql@, v)),
        sql_outcomes(*final(conn)) == sql_outcomes(*old(conn)).push(r is Ok),
{
    conn.execute(sql, [v])
}

/// Reads an optional integer from the first column of the first row:
/// an error of `prepare` is returned, a failed row read gives `None`
/// (`Connection::prepare`, then `Statement::query_row`). The query is
/// recorded as sent, with whether it returned `Ok`.
#[verifier::external_body]
fn sql_query_optional_i32(conn: &mut rusqlite::Connection, sql: &str) -> (r: Result<
    Option<i32>,
    rusqlite::Error,
>)
    ensures
        sql_sent(*final(conn)) == sql_sent(*old(conn)).push(plain(sql@)),
        sql_outcomes(*final(conn)) == sql_outcomes(*old(conn)).push(r is Ok),
{
    let mut stmt = conn.prepare(sql)?;
    Ok(stmt.query_row([], |row| row.get(0)).unwrap_or(None))
}

/// A value read from SQLite: a real number comes as its display text.
#[derive(Debug, Clone, PartialEq)]
pub enum SqlScalar {
    Null,
    Integer(i64),
    Real(String),
    Text(String),
    Blob(Vec<u8>),
}

/// Reads the first column of the first row (`Connection::prepare`, then
/// `Statement::query_row` for a `types::Value`), each kind of value moved
/// into `SqlScalar`, a real number through its `Display`. The query is
/// recorded as sent, with whether it returned `Ok`; nothing is claimed of the
/// value: it depends on the database.
#[verifier::external_body]
fn sql_query_scalar(conn: &mut rusqlite::Connection, sql: &str) -> (r: Result<SqlScalar, rusqlite::Error>)
    ensures
        sql_sent(*final(conn)) == sql_sent(*old(conn)).push(plain(sql@)),
        sql_outcomes(*final(conn)) == sql_outcomes(*old(conn)).push(r is Ok),
{
    let mut stmt = conn.prepare(sql)?;
    let value: rusqlite::types::Value = stmt.query_row([], |row| row.get(0))?;
    Ok(match value {
        rusqlite::types::Value::Null => SqlScalar::Null,
        rusqlite::types::Value::Integer(v) => SqlScalar::Integer(v),
        rusqlite::types::Value::Real(v) => SqlScalar::Real(v.to_string()),
        rusqlite::types::Value::Text(v) => SqlScalar::Text(v),
        rusqlite::types::Value::Blob(v) => SqlScalar::Blob(v),
    })
}

/// The text `String::from_utf8_lossy` makes of some bytes.
pub uninterp spec fn utf8_lossy_text(b: Seq<u8>) -> Seq<char>;

/// Decodes bytes as UTF-8, each invalid sequence replaced by U+FFFD
/// (`String::from_utf8_lossy`, made owned). The result is named only.
#[verifier::external_body]
fn utf8_lossy(b: &[u8]) -> (r: String)
    ensures
        r@ == utf8_lossy_text(b@),
{
    String::from_utf8_lossy(b).to_string()
}

/// The decimal text of a signed integer.
pub open spec fn int_text(v: i64) -> Seq<char> {
    if v < 0 {
        seq!['-'] + decimal((0 - v) as nat)
    } else {
        decimal(v as nat)
    }
}

/// How a value read from SQLite is answered as text: NULL as empty text,
/// an integer in decimal, real numbers and text as they are, a blob as
/// UTF-8 with invalid bytes replaced.
pub open spec fn scalar_text(v: SqlScalar) -> Seq<char> {
    match v {
        SqlScalar::Null => Seq::empty(),
        SqlScalar::Integer(i) => int_text(i),
        SqlScalar::Real(t) => t@,
        SqlScalar::Text(t) => t@,
        SqlScalar::Blob(b) => utf8_lossy_text(b@),
    }
}

/// The text answer for a value read from SQLite.
pub fn render_scalar(v: &SqlScalar) -> (r: String)
    ensures
        r@ == scalar_text(*v),
{
    match v {
        SqlScalar::Null => String::new(),
        SqlScalar::Integer(i) => {
            let mut out = String::new();
            if *i < 0 {
                push_char(&mut out, '-');
                let a: u64 = (0i128 - (*i as i128)) as u64;
                push_decimal(&mut out, a);
            } else {
                push_decimal(&mut out, *i as u64);
            }
            out
        },
        SqlScalar::Real(t) => t.clone(),
        SqlScalar::Text(t) => t.clone(),
        SqlScalar::Blob(b) => utf8_lossy(b.as_slice()),
    }
}

/// The message of a SQLite error (its `Display`).
#[verifier::external_body]
fn sql_error_text(e: &rusqlite::Error) -> String {
    e.to_string()
}

/// Why a storage request failed.
#[derive(Debug, Clone, PartialEq)]
pub enum ActorError {
    /// A transaction is open: no other may begin.
    TransactionInProgress,
    /// The transaction named is not the open one.
    NoMatchingTransaction,
    BeginBatchFailed,
    CommitBatchFailed,
    /// SQLite refused a statement; its message.
    Sql(String),
}

impl ActorError {
    pub fn to_text(&self) -> (r: String)
        ensures
            r@ == match self {
                ActorError::TransactionInProgress => "Transaction already in progress"@,
                ActorError::NoMatchingTransaction => "No matching active transaction"@,
                ActorError::BeginBatchFailed => "Failed to begin batch transaction"@,
                ActorError::CommitBatchFailed => "Failed to commit batch transaction"@,
                ActorError::Sql(m) => m@,
            },
    {
        match self {
            ActorError::TransactionInProgress => String::from_str("Transaction already in progress"),
            ActorError::NoMatchingTransaction => String::from_str("No matching active transaction"),
            ActorError::BeginBatchFailed => String::from_str("Failed to begin batch transaction"),
            ActorError::CommitBatchFailed => String::from_str("Failed to commit batch transaction"),
            ActorError::Sql(m) => m.clone(),
        }
    }
}

fn sql_err(e: rusqlite::Error) -> (r: ActorError)
    ensures
        r is Sql,
{
    ActorError::Sql(sql_error_text(&e))
}

/// The answer to a read of the write counter: the integer read, zero where
/// the query found no row or no integer, the SQLite error otherwise.
pub fn version_answer(read: Result<Option<i32>, rusqlite::Error>) -> (r: Result<i32, ActorError>)
    ensures
        r is Ok <==> read is Ok,
        read matches Ok(Some(v)) ==> r == Ok::<i32, ActorError>(v),
        read matches Ok(None) ==> r == Ok::<i32, ActorError>(0),
        r matches Err(e) ==> e is Sql,
{
    match read {
        Ok(Some(v)) => Ok(v),
        Ok(None) => Ok(0),
        Err(e) => Err(sql_err(e)),
    }
}

/// The answer to a scalar query: the value read, as text (see
/// `scalar_text`), or the SQLite error.
pub fn scalar_answer(read: Result<SqlScalar, rusqlite::Error>) -> (r: Result<String, ActorError>)
    ensures
        r is Ok <==> read is Ok,
        read matches Ok(v) ==> r matches Ok(t) && t@ == scalar_text(v),
        r matches Err(e) ==> e is Sql,
{
    match read {
        Ok(v) => Ok(render_scalar(&v)),
        Err(e) => Err(sql_err(e)),
    }
}

/// The statements the actor issues besides the caller's.
pub const CREATE_META_SQL: &'static str = "CREATE TABLE IF NOT EXISTS _raft_meta (key TEXT PRIMARY KEY, value TEXT)";

pub const SEED_META_SQL: &'static str = "INSERT OR IGNORE INTO _raft_meta(key, value) VALUES
             ('last_write_at', '0'),
             ('last_snapshot_at', '0'),
             ('last_snapshot_index', '0'),
             ('last_write_seq', '0')";

pub const TOUCH_WRITE_SQL: &'static str = "INSERT INTO _raft_meta(key, value) VALUES ('last_write_at', strftime('%s','now'))
                         ON CONFLICT(key) DO UPDATE SET value=excluded.value";

pub const BUMP_SEQ_SQL: &'static str = "UPDATE _raft_meta SET value = CAST(value AS INTEGER) + ?1 WHERE key='last_write_seq'";

pub const MAX_VERSION_SQL: &'static str = "SELECT CAST(value AS INTEGER) FROM _raft_meta WHERE key='last_write_seq'";

pub const UPSERT_META_SQL: &'static str = "INSERT INTO _raft_meta(key, value) VALUES (?1, ?2)
                     ON CONFLICT(key) DO UPDATE SET value=excluded.value";

/// The storage actor: its connection, its role and the open transaction.
pub struct DbActor {
    conn: rusqlite::Connection,
    role: NodeRole,
    active_tx: Option<String>,
}

impl DbActor {
    /// The id of the open two-phase transaction.
    pub closed spec fn active(&self) -> Option<Seq<char>> {
        match self.active_tx {
            Some(t) => Some(t@),
            None => None,
        }
    }

    pub closed spec fn spec_role(&self) -> NodeRole {
        self.role
    }

    /// The statements and queries sent to the connection so far.
    pub closed spec fn sent(&self) -> Seq<(Seq<char>, Seq<Seq<char>>, Seq<i32>)> {
        sql_sent(self.conn)
    }

    /// For each of those, whether it returned `Ok`.
    pub closed spec fn outcomes(&self) -> Seq<bool> {
        sql_outcomes(self.conn)
    }

    /// An actor over `conn` with no transaction open.
    pub fn new(conn: rusqlite::Connection, role: NodeRole) -> (r: Self)
        ensures
            r.active() is None,
            r.spec_role() == role,
            r.sent() == sql_sent(conn),
    {
        DbActor { conn, role, active_tx: None }
    }

    pub fn role(&self) -> (r: NodeRole)
        ensures
            r == self.spec_role(),
    {
        self.role
    }

    /// The id of the open transaction, if any.
    pub fn active_tx(&self) -> (r: Option<String>)
        ensures
            match r {
                Some(t) => self.active() == Some(t@),
                None => self.active() is None,
            },
    {
        match &self.active_tx {
            Some(t) => Some(t.clone()),
            None => None,
        }
    }

    /// Creates the metadata table and its counters where missing: the
    /// table statement, then, if it succeeded, the seeding statement.
    pub fn init_meta(&mut self) -> (r: Result<(), ActorError>)
        ensures
            final(self).active() == old(self).active(),
            final(self).spec_role() == old(self).spec_role(),
            r matches Err(e) ==> e is Sql,
            r is Ok ==> final(self).sent() == old(self).sent() + seq![plain(CREATE_META_SQL@), plain(SEED_META_SQL@)]
                && final(self).outcomes() == old(self).outcomes() + seq![true, true],
            r is Err ==> (final(self).sent() == old(self).sent().push(plain(CREATE_META_SQL@))
                && final(self).outcomes() == old(self).outcomes().push(false)) || (final(self).sent()
                == old(self).sent() + seq![plain(CREATE_META_SQL@), plain(SEED_META_SQL@)]
                && final(self).outcomes() == old(self).outcomes() + seq![true, false]),
    {
        match sql_execute(&mut self.conn, CREATE_META_SQL) {
            Ok(_) => {},
            Err(e) => {
                return Err(sql_err(e));
            },
        }
        match sql_execute(&mut self.conn, SEED_META_SQL) {
            Ok(_) => Ok(()),
            Err(e) => Err(sql_err(e)),
        }
    }

    /// Adds `delta` to the write counter.
    fn bump_write_seq(&mut self, delta: i32) -> (r: Result<(), ActorError>)
        ensures
            final(self).active() == old(self).active(),
            final(self).spec_role() == old(self).spec_role(),
            r matches Err(e) ==> e is Sql,
            final(self).sent() == old(self).sent().push(with_int(BUMP_SEQ_SQL@, delta)),
            final(self).outcomes() == old(self).outcomes().push(r is Ok),
    {
        match sql_execute_i32(&mut self.conn, BUMP_SEQ_SQL, delta) {
            Ok(_) => Ok(()),
            Err(e) => Err(sql_err(e)),
        }
    }

    /// Runs a statement outside any two-phase transaction; after a success
    /// the time of the last write and the write counter (by one) are
    /// updated, whatever those two updates answer.
    pub fn execute(&mut self, sql: &str) -> (r: Result<usize, ActorError>)
        ensures
            final(self).active() == old(self).active(),
            final(self).spec_role() == old(self).spec_role(),
            r matches Err(e) ==> e is Sql,
            r is Err ==> final(self).sent() == old(self).sent().push(plain(sql@))
                && final(self).outcomes() == old(self).outcomes().push(false),
            r is Ok ==> final(self).sent() == old(self).sent() + seq![
                plain(sql@),
                plain(TOUCH_WRITE_SQL@),
                with_int(BUMP_SEQ_SQL@, 1),
            ] && final(self).outcomes().len() == old(self).outcomes().len() + 3
                && final(self).outcomes().subrange(0, (old(self).outcomes().len() + 1) as int) == old(self).outcomes().push(true),
    {
        let res = sql_execute(&mut self.conn, sql);
        match res {
            Ok(n) => {
                let _ = sql_execute(&mut self.conn, TOUCH_WRITE_SQL);
                let _ = self.bump_write_seq(1);
                Ok(n)
            },
            Err(e) => Err(sql_err(e)),
        }
    }

    /// Runs statements in one SQLite transaction, all or none; refused
    /// while a two-phase transaction is open. BEGIN, then the statements in
    /// order until one fails; ROLLBACK after a failure (or a failed COMMIT),
    /// else COMMIT, the write time and the counter raised by their number.
    /// The rows changed by each statement come back in order.
    pub fn execute_batch(&mut self, sqls: &[String]) -> (r: Result<Vec<usize>, ActorError>)
        ensures
            final(self).active() == old(self).active(),
            final(self).spec_role() == old(self).spec_role(),
            old(self).active() is Some ==> r == Err::<Vec<usize>, ActorError>(
                ActorError::TransactionInProgress,
            ) && final(self).sent() == old(self).sent() && final(self).outcomes() == old(self).outcomes(),
            r matches Err(e) ==> (e is TransactionInProgress && old(self).active() is Some) || (old(
                self,
            ).active() is None && (e is BeginBatchFailed || e is Sql || e is CommitBatchFailed)),
            r matches Ok(rows) ==> old(self).active() is None && rows@.len() == sqls@.len()
                && final(self).sent() == old(self).sent() + seq![plain("BEGIN"@)] + plains(sqls@) + seq![
                plain("COMMIT"@),
                plain(TOUCH_WRITE_SQL@),
                with_int(BUMP_SEQ_SQL@, sqls@.len() as i32),
            ] && final(self).outcomes().len() == old(self).outcomes().len() + sqls@.len() + 4
                && final(self).outcomes().subrange(0, (old(self).outcomes().len() + sqls@.len() as int) + 2)
                == old(self).outcomes() + oks(sqls@.len() + 2),
            r == Err::<Vec<usize>, ActorError>(ActorError::BeginBatchFailed) ==> final(self).sent()
                == old(self).sent().push(plain("BEGIN"@)) && final(self).outcomes() == old(self).outcomes().push(false),
            r matches Err(ActorError::Sql(_)) ==> exists|k: int|
                0 <= k < sqls@.len() && final(self).sent() == old(self).sent() + seq![plain("BEGIN"@)]
                    + #[trigger] plains(sqls@.subrange(0, k + 1)) + seq![plain("ROLLBACK"@)]
                    && final(self).outcomes().len() == old(self).outcomes().len() + k + 3
                    && final(self).outcomes().subrange(0, (old(self).outcomes().len() + k + 2) as int)
                    == old(self).outcomes() + oks((k + 1) as nat) + seq![false],
            r == Err::<Vec<usize>, ActorError>(ActorError::CommitBatchFailed) ==> final(self).sent()
                == old(self).sent() + seq![plain("BEGIN"@)] + plains(sqls@) + seq![
                plain("COMMIT"@),
                plain("ROLLBACK"@),
            ] && final(self).outcomes().len() == old(self).outcomes().len() + sqls@.len() + 3
                && final(self).outcomes().subrange(0, (old(self).outcomes().len() + sqls@.len() as int) + 2)
                == old(self).outcomes() + oks(sqls@.len() + 1) + seq![false],
    {
        if self.active_tx.is_some() {
            return Err(ActorError::TransactionInProgress);
        }
        let ghost s0 = self.sent();
        let ghost o0 = self.outcomes();
        if sql_execute(&mut self.conn, "BEGIN").is_err() {
            return Err(ActorError::BeginBatchFailed);
        }
        assert(self.outcomes() =~= o0 + oks(1));
        let mut rows: Vec<usize> = Vec::new();
        let mut failure: Option<ActorError> = None;
        let mut i: usize = 0;
        while i < sqls.len()
            invariant_except_break
                i <= sqls@.len(),
                rows@.len() == i,
                failure is None,
                self.sent() == s0 + seq![plain("BEGIN"@)] + plains(sqls@.subrange(0, i as int)),
                self.outcomes() == o0 + oks((i + 1) as nat),
            invariant
                self.active_tx is None,
                self.role == old(self).role,
            ensures
                failure is None ==> rows@.len() == sqls@.len() && self.sent() == s0 + seq![plain("BEGIN"@)]
                    + plains(sqls@) && self.outcomes() == o0 + oks(sqls@.len() + 1),
                failure matches Some(f) ==> f is Sql && i < sqls@.len() && self.sent() == s0 + seq![plain("BEGIN"@)]
                    + plains(sqls@.subrange(0, i + 1)) && self.outcomes() == o0 + oks((i + 1) as nat) + seq![false],
            decreases sqls.len() - i,
        {
            match sql_execute(&mut self.conn, sqls[i].as_str()) {
                Ok(count) => rows.push(count),
                Err(e) => {
                    failure = Some(sql_err(e));
                    assert(self.outcomes() =~= o0 + oks((i + 1) as nat) + seq![false]);
                    assert(plains(sqls@.subrange(0, i + 1)) =~= plains(sqls@.subrange(0, i as int)).push(plain(sqls@[i as int]@)));
                    assert(self.sent() =~= s0 + seq![plain("BEGIN"@)] + plains(sqls@.subrange(0, i + 1)));
                    break;
                },
            }
            assert(plains(sqls@.subrange(0, i + 1)) =~= plains(sqls@.subrange(0, i as int)).push(plain(sqls@[i as int]@)));
            assert(self.sent() =~= s0 + seq![plain("BEGIN"@)] + plains(sqls@.subrange(0, i + 1)));
            assert(self.outcomes() =~= o0 + oks((i + 2) as nat));
            i = i + 1;
            proof {
                if i == sqls@.len() {
                    assert(sqls@.subrange(0, i as int) =~= sqls@);
                }
            }
        }
        proof {
            if failure is None {
                assert(sqls@.subrange(0, sqls@.len() as int) =~= sqls@);
            }
        }
        if failure.is_none() && sql_execute(&mut self.conn, "COMMIT").is_err() {
            failure = Some(ActorError::CommitBatchFailed);
        }
        match failure {
            Some(err) => {
                let ghost before_rollback = self.outcomes();
                let _ = sql_execute(&mut self.conn, "ROLLBACK");
                proof {
                    if err is Sql {
                        let k = i as int;
                        assert(self.sent() =~= s0 + seq![plain("BEGIN"@)] + plains(sqls@.subrange(0, k + 1)) + seq![plain("ROLLBACK"@)]);
                        assert(self.outcomes().subrange(0, (o0.len() + k + 2) as int) =~= before_rollback);
                    } else {
                        assert(self.sent() =~= s0 + seq![plain("BEGIN"@)] + plains(sqls@) + seq![plain("COMMIT"@), plain("ROLLBACK"@)]);
                        assert(before_rollback =~= o0 + oks(sqls@.len() + 1) + seq![false]);
                        assert(self.outcomes().subrange(0, (o0.len() + sqls@.len() as int) + 2) =~= before_rollback);
                    }
                }
                Err(err)
            },
            None => {
                let ghost after_commit = self.outcomes();
                assert(after_commit =~= o0 + oks(sqls@.len() + 2));
                let _ = sql_execute(&mut self.conn, TOUCH_WRITE_SQL);
                let _ = self.bump_write_seq(#[verifier::truncate] (sqls.len() as i32));
                assert(self.sent() =~= s0 + seq![plain("BEGIN"@)] + plains(sqls@) + seq![
                    plain("COMMIT"@),
                    plain(TOUCH_WRITE_SQL@),
                    with_int(BUMP_SEQ_SQL@, sqls@.len() as i32),
                ]);
                assert(self.outcomes().subrange(0, (o0.len() + sqls@.len() as int) + 2) =~= after_commit);
                Ok(rows)
            },
        }
    }

    /// Phase one: begins transaction `tx_id` and runs `sql` with `args` in
    /// it; refused while another transaction is open. The transaction is
    /// open afterwards exactly when this succeeded.
    pub fn prepare(&mut self, tx_id: &str, sql: &str, args: &[String]) -> (r: Result<(), ActorError>)
        ensures
            final(self).spec_role() == old(self).spec_role(),
            old(self).active() is Some ==> r == Err::<(), ActorError>(
                ActorError::TransactionInProgress,
            ) && final(self).active() == old(self).active() && final(self).sent() == old(self).sent()
                && final(self).outcomes() == old(self).outcomes(),
            old(self).active() is None ==> (r is Ok ==> final(self).active() == Some(tx_id@)) && (
            r is Err ==> final(self).active() is None),
            old(self).active() is None ==> r matches Err(e) && e is Sql || r is Ok,
            old(self).active() is None && r is Ok ==> final(self).sent() == old(self).sent() + seq![
                plain("BEGIN"@),
                with_texts(sql@, texts(args@)),
            ] && final(self).outcomes() == old(self).outcomes() + seq![true, true],
            old(self).active() is None && r is Err ==> (final(self).sent() == old(self).sent().push(plain("BEGIN"@))
                && final(self).outcomes() == old(self).outcomes().push(false)) || (final(self).sent()
                == old(self).sent() + seq![plain("BEGIN"@), with_texts(sql@, texts(args@))]
                && final(self).outcomes() == old(self).outcomes() + seq![true, false]),
    {
        if self.active_tx.is_some() {
            return Err(ActorError::TransactionInProgress);
        }
        match sql_execute(&mut self.conn, "BEGIN") {
            Ok(_) => {},
            Err(e) => {
                return Err(sql_err(e));
            },
        }
        match sql_execute_args(&mut self.conn, sql, args) {
            Ok(_) => {},
            Err(e) => {
                return Err(sql_err(e));
            },
        }
        self.active_tx = Some(String::from_str(tx_id));
        Ok(())
    }

    /// Phase two: commits transaction `tx_id`, which must be the open one;
    /// the write time and the counter (by one) are updated inside it, then
    /// COMMIT; each step only after the one before succeeded.
    pub fn commit(&mut self, tx_id: &str) -> (r: Result<(), ActorError>)
        ensures
            final(self).spec_role() == old(self).spec_role(),
            old(self).active() != Some(tx_id@) ==> r == Err::<(), ActorError>(
                ActorError::NoMatchingTransaction,
            ) && final(self).active() == old(self).active() && final(self).sent() == old(self).sent()
                && final(self).outcomes() == old(self).outcomes(),
            old(self).active() == Some(tx_id@) ==> (r is Ok ==> final(self).active() is None) && (
            r is Err ==> final(self).active() == old(self).active()),
            old(self).active() == Some(tx_id@) ==> r matches Err(e) && e is Sql || r is Ok,
            old(self).active() == Some(tx_id@) && r is Ok ==> final(self).sent() == old(self).sent() + seq![
                plain(TOUCH_WRITE_SQL@),
                with_int(BUMP_SEQ_SQL@, 1),
                plain("COMMIT"@),
            ] && final(self).outcomes() == old(self).outcomes() + seq![true, true, true],
            old(self).active() == Some(tx_id@) && r is Err ==> (final(self).sent() == old(self).sent().push(
                plain(TOUCH_WRITE_SQL@),
            ) && final(self).outcomes() == old(self).outcomes().push(false)) || (final(self).sent() == old(
                self,
            ).sent() + seq![plain(TOUCH_WRITE_SQL@), with_int(BUMP_SEQ_SQL@, 1)] && final(self).outcomes() == old(
                self,
            ).outcomes() + seq![true, false]) || (final(self).sent() == old(self).sent() + seq![
                plain(TOUCH_WRITE_SQL@),
                with_int(BUMP_SEQ_SQL@, 1),
                plain("COMMIT"@),
            ] && final(self).outcomes() == old(self).outcomes() + seq![true, true, false]),
    {
        let matches = match &self.active_tx {
            Some(t) => str_eq(t.as_str(), tx_id),
            None => false,
        };
        if !matches {
            return Err(ActorError::NoMatchingTransaction);
        }
        match sql_execute(&mut self.conn, TOUCH_WRITE_SQL) {
            Ok(_) => {},
            Err(e) => {
                return Err(sql_err(e));
            },
        }
        self.bump_write_seq(1)?;
        match sql_execute(&mut self.conn, "COMMIT") {
            Ok(_) => {},
            Err(e) => {
                return Err(sql_err(e));
            },
        }
        self.active_tx = None;
        Ok(())
    }

    /// Rolls back transaction `tx_id` if it is the open one; for any other
    /// id nothing is sent and the answer is success.
    pub fn rollback(&mut self, tx_id: &str) -> (r: Result<(), ActorError>)
        ensures
            final(self).spec_role() == old(self).spec_role(),
            old(self).active() != Some(tx_id@) ==> r is Ok && final(self).active() == old(
                self,
            ).active() && final(self).sent() == old(self).sent() && final(self).outcomes() == old(
                self,
            ).outcomes(),
            old(self).active() == Some(tx_id@) ==> (r is Ok ==> final(self).active() is None) && (
            r is Err ==> final(self).active() == old(self).active()) && (r matches Err(e) ==> e is Sql)
                && final(self).sent() == old(self).sent().push(plain("ROLLBACK"@))
                && final(self).outcomes() == old(self).outcomes().push(r is Ok),
    {
        let matches = match &self.active_tx {
            Some(t) => str_eq(t.as_str(), tx_id),
            None => false,
        };
        if !matches {
            return Ok(());
        }
        match sql_execute(&mut self.conn, "ROLLBACK") {
            Ok(_) => {},
            Err(e) => {
                return Err(sql_err(e));
            },
        }
        self.active_tx = None;
        Ok(())
    }

    /// The write counter, zero when the query finds no row or no integer
    /// (see `version_answer`).
    pub fn get_max_version(&mut self) -> (r: Result<i32, ActorError>)
        ensures
            final(self).active() == old(self).active(),
            final(self).spec_role() == old(self).spec_role(),
            final(self).sent() == old(self).sent().push(plain(MAX_VERSION_SQL@)),
            final(self).outcomes() == old(self).outcomes().push(r is Ok),
            r matches Err(e) ==> e is Sql,
    {
        version_answer(sql_query_optional_i32(&mut self.conn, MAX_VERSION_SQL))
    }

    /// Sets metadata `key` to `value`.
    pub fn update_meta(&mut self, key: &str, value: &str) -> (r: Result<(), ActorError>)
        ensures
            final(self).active() == old(self).active(),
            final(self).spec_role() == old(self).spec_role(),
            r matches Err(e) ==> e is Sql,
            final(self).sent() == old(self).sent().push(with_texts(UPSERT_META_SQL@, seq![key@, value@])),
            final(self).outcomes() == old(self).outcomes().push(r is Ok),
    {
        let args = vec![String::from_str(key), String::from_str(value)];
        assert(texts(args@) =~= seq![key@, value@]);
        match sql_execute_args(&mut self.conn, UPSERT_META_SQL, args.as_slice()) {
            Ok(_) => Ok(()),
            Err(e) => Err(sql_err(e)),
        }
    }

    /// The first value that `sql` selects, as text (see `scalar_answer`).
    pub fn query_scalar(&mut self, sql: &str) -> (r: Result<String, ActorError>)
        ensures
            final(self).active() == old(self).active(),
            final(self).spec_role() == old(self).spec_role(),
            final(self).sent() == old(self).sent().push(plain(sql@)),
            final(self).outcomes() == old(self).outcomes().push(r is Ok),
            r matches Err(e) ==> e is Sql,
    {
        scalar_answer(sql_query_scalar(&mut self.conn, sql))
    }

    /// The actor answers: always healthy while it runs.
    pub fn check_health(&self) -> (r: Result<(), ActorError>)
        ensures
            r is Ok,
    {
        Ok(())
    }
}

} // verus!
