use vstd::prelude::*;

verus! {

/// A handle to the SQLite database that backs the message log. Only the
/// trusted items below touch the database itself.
#[verifier::external_type_specification]
#[verifier::external_body]
pub struct ExConnection(rusqlite::Connection);

/// The error type of the SQLite bindings; the library does not inspect it.
#[verifier::external_type_specification]
#[verifier::external_body]
pub struct ExSqliteError(rusqlite::Error);

/// A failure of the persistence layer. Callers only learn that persistence
/// failed, matching the best-effort durability of the message path.
#[derive(Clone, Copy, Debug, PartialEq, Eq, Structural)]
pub struct StoreError;

/// One stored row: `(room_id, room_name, message)`. A room-creation marker
/// is a row whose message is empty.
pub type StoredRow = (Seq<char>, Seq<char>, Seq<char>);

/// The message texts of the rows tagged with `room`, in storage order.
pub open spec fn messages_of(rows: Seq<StoredRow>, room: Seq<char>) -> Seq<Seq<char>>
    decreases rows.len(),
{
    if rows.len() == 0 {
        Seq::<Seq<char>>::empty()
    } else {
        let rest = messages_of(rows.drop_last(), room);
        if rows.last().0 == room {
            rest.push(rows.last().2)
        } else {
            rest
        }
    }
}

/// Whether some row carries this `(room_id, room_name)` pair.
pub open spec fn has_room_pair(rows: Seq<StoredRow>, room_id: Seq<char>, room_name: Seq<char>) -> bool {
    exists|i: int| 0 <= i < rows.len() && (#[trigger] rows[i]).0 == room_id && rows[i].1 == room_name
}

/// Appending a row adds its message to exactly its own room's messages.
pub proof fn lemma_messages_of_push(rows: Seq<StoredRow>, r: StoredRow, room: Seq<char>)
    ensures
        r.0 == room ==> messages_of(rows.push(r), room) == messages_of(rows, room).push(r.2),
        r.0 != room ==> messages_of(rows.push(r), room) == messages_of(rows, room),
{
    assert(rows.push(r).drop_last() =~= rows);
}

/// Relies on rusqlite::Connection::open: opens the database file at `path`,
/// creating it when missing; rows already in the file are preserved.
#[verifier::external_body]
fn open_db(path: &str) -> Result<rusqlite::Connection, rusqlite::Error> {
    rusqlite::Connection::open(path)
}

/// Relies on rusqlite::Connection::open_in_memory: opens a fresh, private
/// in-memory database, which holds no tables and no rows yet.
#[verifier::external_body]
fn open_db_in_memory() -> Result<rusqlite::Connection, rusqlite::Error> {
    rusqlite::Connection::open_in_memory()
}

/// Relies on rusqlite::Connection::execute: runs one parameterless SQL
/// statement and reports how many rows it changed.
#[verifier::external_body]
fn exec_sql(conn: &rusqlite::Connection, sql: &str) -> Result<usize, rusqlite::Error> {
    conn.execute(sql, ())
}

/// Relies on rusqlite::Connection::execute: runs one SQL statement with three
/// textual parameters bound to ?1, ?2 and ?3.
#[verifier::external_body]
fn exec_sql3(
    conn: &rusqlite::Connection,
    sql: &str,
    p1: &str,
    p2: &str,
    p3: &str,
) -> Result<usize, rusqlite::Error> {
    conn.execute(sql, (p1, p2, p3))
}

/// The durable, append-only log of `(room_id, room_name, message)` rows.
/// Chat messages and room-creation markers share the row shape; a marker is
/// a row whose message is empty.
///
/// The handle carries a model: `rows()` is the sequence of rows appended
/// through it, in order, and `fresh()` says the database held nothing else
/// when it was opened (true for an in-memory store, unknown for a file that
/// may carry rows from earlier runs). While a fresh handle is the database's
/// only writer, the database's contents are exactly `rows()`, and the read
/// contracts below say so.
pub struct MessageStore {
    conn: rusqlite::Connection,
    appended: Ghost<Seq<StoredRow>>,
    opened_empty: Ghost<bool>,
}

impl MessageStore {
    /// The rows appended through this handle, in order.
    pub closed spec fn rows(self) -> Seq<StoredRow> {
        self.appended@
    }

    /// Whether the database held no rows when this handle opened it, so that
    /// its contents are exactly `rows()`.
    pub closed spec fn fresh(self) -> bool {
        self.opened_empty@
    }

    /// Opens (or creates) the on-disk database and ensures the message table
    /// exists; rows stored by earlier runs are preserved, so nothing is
    /// known of the database's prior contents.
    pub fn new() -> (r: Result<MessageStore, StoreError>)
        ensures
            r matches Ok(s) ==> s.rows() == Seq::<StoredRow>::empty(),
    {
        let conn = match open_db("chat.db") {
            Ok(c) => c,
            Err(_) => return Err(StoreError),
        };
        MessageStore::init(conn, Ghost(false))
    }

    /// Opens a fresh private in-memory store with the same schema: it starts
    /// with no rows at all, and its contents vanish when it is dropped.
    pub fn new_in_memory() -> (r: Result<MessageStore, StoreError>)
        ensures
            r matches Ok(s) ==> s.rows() == Seq::<StoredRow>::empty() && s.fresh(),
    {
        let conn = match open_db_in_memory() {
            Ok(c) => c,
            Err(_) => return Err(StoreError),
        };
        MessageStore::init(conn, Ghost(true))
    }

    fn init(conn: rusqlite::Connection, opened_empty: Ghost<bool>) -> (r: Result<
        MessageStore,
        StoreError,
    >)
        ensures
            r matches Ok(s) ==> s.rows() == Seq::<StoredRow>::empty() && s.fresh()
                == opened_empty@,
    {
        let made = exec_sql(
            &conn,
            "CREATE TABLE IF NOT EXISTS messages (
                id INTEGER PRIMARY KEY AUTOINCREMENT,
                room_id TEXT NOT NULL,
                room_name TEXT NOT NULL,
                message TEXT NOT NULL
            );",
        );
        match made {
            Ok(_) => Ok(
                MessageStore {
                    conn,
                    appended: Ghost(Seq::<StoredRow>::empty()),
                    opened_empty,
                },
            ),
            Err(_) => Err(StoreError),
        }
    }

    /// Appends one chat message row: on success the store holds exactly the
    /// old rows plus this one, fields verbatim; on failure it is unchanged.
    pub fn add_message(&mut self, room_id: String, room_name: String, message: String) -> (r:
        Result<(), StoreError>)
        ensures
            r matches Ok(_) ==> final(self).rows() == old(self).rows().push(
                (room_id@, room_name@, message@),
            ),
            r is Err ==> final(self).rows() == old(self).rows(),
            final(self).fresh() == old(self).fresh(),
    {
        let done = exec_sql3(
            &self.conn,
            "INSERT INTO messages (room_id, room_name, message) VALUES (?1, ?2, ?3)",
            room_id.as_str(),
            room_name.as_str(),
            message.as_str(),
        );
        match done {
            Ok(_) => {
                self.appended = Ghost(self.appended@.push((room_id@, room_name@, message@)));
                Ok(())
            },
            Err(_) => Err(StoreError),
        }
    }

    /// Relies on rusqlite::Connection::prepare and rusqlite::Statement::
    /// query_map running `SELECT message FROM messages WHERE room_id = ?1
    /// ORDER BY id`: for a fresh handle (the database holds exactly the
    /// appended rows) a successful result is exactly the message column of
    /// the rows tagged with this room, in insertion order (ascending
    /// auto-incremented id). For a file opened with prior contents the
    /// result may hold rows of earlier runs too, so nothing is promised.
    #[verifier::external_body]
    pub fn get_messages(&self, room_id: &str) -> (r: Result<Vec<String>, StoreError>)
        ensures
            self.fresh() ==> (r matches Ok(v) ==> v.deep_view() == messages_of(
                self.rows(),
                room_id@,
            )),
    {
        let mut stmt = match self.conn.prepare(
            "SELECT message FROM messages WHERE room_id = ?1 ORDER BY id",
        ) {
            Ok(s) => s,
            Err(_) => return Err(StoreError),
        };
        let rows = match stmt.query_map((room_id,), |row| row.get(0)) {
            Ok(r) => r,
            Err(_) => return Err(StoreError),
        };
        match rows.collect() {
            Ok(v) => Ok(v),
            Err(_) => Err(StoreError),
        }
    }

    /// Relies on rusqlite::Connection::prepare and rusqlite::Statement::
    /// query_map running `SELECT DISTINCT room_id, room_name FROM messages`:
    /// whatever the database holds, SELECT DISTINCT never returns the same
    /// pair twice; and for a fresh handle a successful result lists each
    /// appended `(room_id, room_name)` pair — whether from a chat message or
    /// a room-creation marker — exactly once, and nothing else.
    #[verifier::external_body]
    pub fn get_rooms(&self) -> (r: Result<Vec<(String, String)>, StoreError>)
        ensures
            r matches Ok(v) ==> forall|i: int, j: int|
                0 <= i < j < v@.len() ==> !((#[trigger] v@[i]).0@ == (#[trigger] v@[j]).0@
                    && v@[i].1@ == v@[j].1@),
            self.fresh() ==> (r matches Ok(v) ==> {
                &&& forall|i: int|
                    0 <= i < v@.len() ==> has_room_pair(
                        self.rows(),
                        (#[trigger] v@[i]).0@,
                        v@[i].1@,
                    )
                &&& forall|room_id: Seq<char>, room_name: Seq<char>|
                    #[trigger] has_room_pair(self.rows(), room_id, room_name) ==> exists|i: int|
                        0 <= i < v@.len() && (#[trigger] v@[i]).0@ == room_id && v@[i].1@
                            == room_name
            }),
    {
        let mut stmt = match self.conn.prepare("SELECT DISTINCT room_id, room_name FROM messages")
        {
            Ok(s) => s,
            Err(_) => return Err(StoreError),
        };
        let rows = match stmt.query_map((), |row| Ok((row.get(0)?, row.get(1)?))) {
            Ok(r) => r,
            Err(_) => return Err(StoreError),
        };
        match rows.collect() {
            Ok(v) => Ok(v),
            Err(_) => Err(StoreError),
        }
    }

    /// Appends a room-creation marker: on success the store holds exactly
    /// the old rows plus one row for the room with empty text; on failure it
    /// is unchanged.
    pub fn add_room(&mut self, room_id: String, room_name: String) -> (r: Result<(), StoreError>)
        ensures
            r matches Ok(_) ==> final(self).rows() == old(self).rows().push(
                (room_id@, room_name@, Seq::<char>::empty()),
            ),
            r is Err ==> final(self).rows() == old(self).rows(),
            final(self).fresh() == old(self).fresh(),
    {
        let done = exec_sql3(
            &self.conn,
            "INSERT INTO messages (room_id, room_name, message) VALUES (?1, ?2, ?3)",
            room_id.as_str(),
            room_name.as_str(),
            "",
        );
        match done {
            Ok(_) => {
                self.appended = Ghost(
                    self.appended@.push((room_id@, room_name@, Seq::<char>::empty())),
                );
                Ok(())
            },
            Err(_) => Err(StoreError),
        }
    }
}

} // verus!
