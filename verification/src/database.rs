//! Where conversations are kept: in a database, or in memory when there is none.
use vstd::prelude::*;

use crate::clock::Timestamp;
use crate::text::{contains, occurs, occurs_at, starts_with, text_of};

verus! {

/// The most connections that the pool of a database opens.
pub const MAX_CONNECTIONS: u32 = 5;

/// One exchange between a user and the model.
#[derive(Debug)]
pub struct ChatMessage {
    /// The number of the row, once the exchange is in the database.
    pub id: Option<i64>,
    pub session_id: String,
    pub user_message: String,
    pub bot_reply: String,
    pub timestamp: Timestamp,
}

/// One exchange with its texts.
pub struct MessageView {
    pub id: Option<i64>,
    pub session_id: Seq<char>,
    pub user_message: Seq<char>,
    pub bot_reply: Seq<char>,
    pub timestamp: Timestamp,
}

impl View for ChatMessage {
    type V = MessageView;

    open spec fn view(&self) -> MessageView {
        MessageView {
            id: self.id,
            session_id: self.session_id@,
            user_message: self.user_message@,
            bot_reply: self.bot_reply@,
            timestamp: self.timestamp,
        }
    }
}

/// A value for a `?` in a statement.
#[derive(Debug)]
pub enum SqlValue {
    Text(String),
    Time(Timestamp),
}

/// A value for a `?` in a statement, with its text.
pub enum SqlView {
    Text(Seq<char>),
    Time(Timestamp),
}

impl View for SqlValue {
    type V = SqlView;

    open spec fn view(&self) -> SqlView {
        match self {
            SqlValue::Text(s) => SqlView::Text(s@),
            SqlValue::Time(t) => SqlView::Time(*t),
        }
    }
}

/// A statement for the database, with the values for its `?` in order.
#[derive(Debug)]
pub struct Statement {
    pub sql: String,
    pub binds: Vec<SqlValue>,
}

/// A statement with its texts.
pub struct StatementView {
    pub sql: Seq<char>,
    pub binds: Seq<SqlView>,
}

impl View for Statement {
    type V = StatementView;

    open spec fn view(&self) -> StatementView {
        StatementView {
            sql: self.sql@,
            binds: self.binds@.map_values(|v: SqlValue| v@),
        }
    }
}

/// The statement that makes the table where it is missing.
pub open spec fn schema_statement() -> StatementView {
    StatementView {
        sql:
            "CREATE TABLE IF NOT EXISTS chat_messages (id INTEGER PRIMARY KEY AUTOINCREMENT, session_id TEXT NOT NULL, user_message TEXT NOT NULL, bot_reply TEXT NOT NULL, timestamp DATETIME NOT NULL)"@,
        binds: seq![],
    }
}

/// The statement that adds one exchange.
pub open spec fn insert_statement(message: MessageView) -> StatementView {
    StatementView {
        sql:
            "INSERT INTO chat_messages (session_id, user_message, bot_reply, timestamp) VALUES (?, ?, ?, ?)"@,
        binds: seq![
            SqlView::Text(message.session_id),
            SqlView::Text(message.user_message),
            SqlView::Text(message.bot_reply),
            SqlView::Time(message.timestamp),
        ],
    }
}

/// The statement that reads the exchanges of one session, the oldest first.
pub open spec fn history_statement(session_id: Seq<char>) -> StatementView {
    StatementView {
        sql:
            "SELECT id, session_id, user_message, bot_reply, timestamp FROM chat_messages WHERE session_id = ? ORDER BY timestamp ASC"@,
        binds: seq![SqlView::Text(session_id)],
    }
}

/// The statement that reads the sessions, each once.
pub open spec fn sessions_statement() -> StatementView {
    StatementView { sql: "SELECT DISTINCT session_id FROM chat_messages"@, binds: seq![] }
}

/// A path with the scheme that the database driver asks for.
pub open spec fn with_scheme(url: Seq<char>) -> Seq<char> {
    if has_scheme(url) {
        url
    } else {
        "sqlite:"@ + url
    }
}

/// The text names its scheme.
pub open spec fn has_scheme(url: Seq<char>) -> bool {
    "sqlite:"@.is_prefix_of(url) || "file:"@.is_prefix_of(url)
}

/// An url that says how the file is opened: created where it is missing, unless it says otherwise.
pub open spec fn with_mode(url: Seq<char>) -> Seq<char> {
    if occurs(url, "mode="@) {
        url
    } else if occurs(url, "?"@) {
        url + "&mode=rwc"@
    } else {
        url + "?mode=rwc"@
    }
}

/// The url under which the database is opened.
pub open spec fn connection_url(database_url: Seq<char>) -> Seq<char> {
    with_mode(with_scheme(database_url))
}

/// The way to one database.
#[derive(Debug)]
pub struct DatabaseManager {
    /// The url under which the database is opened.
    pub url: String,
    /// The path whose parent directory has to exist first, where a bare path was given.
    pub needs_parent_of: Option<String>,
}

/// The way to one database with its texts.
pub struct DatabaseView {
    pub url: Seq<char>,
    pub needs_parent_of: Option<Seq<char>>,
}

impl View for DatabaseManager {
    type V = DatabaseView;

    open spec fn view(&self) -> DatabaseView {
        DatabaseView { url: self.url@, needs_parent_of: text_of(self.needs_parent_of) }
    }
}

/// The way to the database of that url, or at that bare path.
pub open spec fn way_to(database_url: Seq<char>) -> DatabaseView {
    DatabaseView {
        url: connection_url(database_url),
        needs_parent_of: if has_scheme(database_url) {
            None
        } else {
            Some(database_url)
        },
    }
}

impl DatabaseManager {
    /// Works out how the database of that url, or at that bare path, is opened.
    pub fn new(database_url: &str) -> (r: DatabaseManager)
        ensures
            r@ == way_to(database_url@),
    {
        let bare: bool = !(starts_with(database_url, "sqlite:") || starts_with(
            database_url,
            "file:",
        ));
        let mut url: String = if bare {
            let mut scheme: String = "sqlite:".to_owned();
            scheme.append(database_url);
            scheme
        } else {
            database_url.to_owned()
        };
        if !contains(url.as_str(), "mode=") {
            if contains(url.as_str(), "?") {
                url.append("&mode=rwc");
            } else {
                url.append("?mode=rwc");
            }
        }
        DatabaseManager {
            url,
            needs_parent_of: if bare {
                Some(database_url.to_owned())
            } else {
                None
            },
        }
    }

    /// The statement that makes the table where it is missing.
    pub fn schema(&self) -> (r: Statement)
        ensures
            r@ == schema_statement(),
    {
        let binds: Vec<SqlValue> = Vec::new();
        assert(binds@.map_values(|v: SqlValue| v@) =~= seq![]);
        Statement {
            sql:
                "CREATE TABLE IF NOT EXISTS chat_messages (id INTEGER PRIMARY KEY AUTOINCREMENT, session_id TEXT NOT NULL, user_message TEXT NOT NULL, bot_reply TEXT NOT NULL, timestamp DATETIME NOT NULL)".to_owned(),
            binds,
        }
    }

    /// The statement that adds one exchange.
    pub fn save_message(&self, message: &ChatMessage) -> (r: Statement)
        ensures
            r@ == insert_statement(message@),
    {
        let mut binds: Vec<SqlValue> = Vec::new();
        binds.push(SqlValue::Text(message.session_id.clone()));
        binds.push(SqlValue::Text(message.user_message.clone()));
        binds.push(SqlValue::Text(message.bot_reply.clone()));
        binds.push(SqlValue::Time(message.timestamp));
        assert(binds@.map_values(|v: SqlValue| v@) =~= insert_statement(message@).binds);
        Statement {
            sql:
                "INSERT INTO chat_messages (session_id, user_message, bot_reply, timestamp) VALUES (?, ?, ?, ?)".to_owned(),
            binds,
        }
    }

    /// The statement that reads the exchanges of one session, the oldest first.
    pub fn get_session_history(&self, session_id: &str) -> (r: Statement)
        ensures
            r@ == history_statement(session_id@),
    {
        let mut binds: Vec<SqlValue> = Vec::new();
        binds.push(SqlValue::Text(session_id.to_owned()));
        assert(binds@.map_values(|v: SqlValue| v@) =~= history_statement(session_id@).binds);
        Statement {
            sql:
                "SELECT id, session_id, user_message, bot_reply, timestamp FROM chat_messages WHERE session_id = ? ORDER BY timestamp ASC".to_owned(),
            binds,
        }
    }

    /// The statement that reads the sessions, each once.
    pub fn get_all_sessions(&self) -> (r: Statement)
        ensures
            r@ == sessions_statement(),
    {
        let binds: Vec<SqlValue> = Vec::new();
        assert(binds@.map_values(|v: SqlValue| v@) =~= seq![]);
        Statement { sql: "SELECT DISTINCT session_id FROM chat_messages".to_owned(), binds }
    }
}

/// A needle in the later part of a text stands in the whole.
proof fn lemma_occurs_in_sum(a: Seq<char>, b: Seq<char>, needle: Seq<char>)
    requires
        occurs(b, needle),
    ensures
        occurs(a + b, needle),
{
    let at = choose|at: int| occurs_at(b, needle, at);
    assert((a + b).subrange(a.len() + at, a.len() + at + needle.len()) =~= b.subrange(
        at,
        at + needle.len(),
    ));
    assert(occurs_at(a + b, needle, a.len() + at));
}

/// The url under which a database is opened names a scheme and a mode, and working it out a second
/// time changes nothing.
pub proof fn law_connection_url_is_settled(database_url: Seq<char>)
    ensures
        has_scheme(connection_url(database_url)),
        occurs(connection_url(database_url), "mode="@),
        connection_url(connection_url(database_url)) == connection_url(database_url),
{
    let schemed = with_scheme(database_url);
    let url = connection_url(database_url);
    reveal_strlit("mode=");
    reveal_strlit("&mode=rwc");
    reveal_strlit("?mode=rwc");
    assert("sqlite:"@.is_prefix_of("sqlite:"@ + database_url)) by {
        assert(("sqlite:"@ + database_url).subrange(0, "sqlite:"@.len() as int) =~= "sqlite:"@);
    }
    assert(has_scheme(schemed));
    assert(occurs_at("&mode=rwc"@, "mode="@, 1)) by {
        assert("&mode=rwc"@.subrange(1, 6) =~= "mode="@);
    }
    assert(occurs_at("?mode=rwc"@, "mode="@, 1)) by {
        assert("?mode=rwc"@.subrange(1, 6) =~= "mode="@);
    }
    lemma_occurs_in_sum(schemed, "&mode=rwc"@, "mode="@);
    lemma_occurs_in_sum(schemed, "?mode=rwc"@, "mode="@);
    assert(schemed.is_prefix_of(url)) by {
        assert(url.subrange(0, schemed.len() as int) =~= schemed);
    }
    if "sqlite:"@.is_prefix_of(schemed) {
        assert(url.subrange(0, "sqlite:"@.len() as int) =~= schemed.subrange(
            0,
            "sqlite:"@.len() as int,
        ));
    } else {
        assert(url.subrange(0, "file:"@.len() as int) =~= schemed.subrange(
            0,
            "file:"@.len() as int,
        ));
    }
}

/// A column of the table of exchanges.
pub enum Column {
    Id,
    SessionId,
    UserMessage,
    BotReply,
    Timestamp,
}

/// The name of a column.
pub open spec fn column_name(column: Column) -> Seq<char> {
    match column {
        Column::Id => "id"@,
        Column::SessionId => "session_id"@,
        Column::UserMessage => "user_message"@,
        Column::BotReply => "bot_reply"@,
        Column::Timestamp => "timestamp"@,
    }
}

/// The names of columns with commas between them.
pub open spec fn column_list(columns: Seq<Column>) -> Seq<char>
    decreases columns.len(),
{
    if columns.len() == 0 {
        seq![]
    } else if columns.len() == 1 {
        column_name(columns[0])
    } else {
        column_name(columns[0]) + ", "@ + column_list(columns.drop_first())
    }
}

/// The text of a statement that adds a row with one value for each of four columns, in that order.
pub open spec fn insert_text(columns: Seq<Column>) -> Seq<char> {
    "INSERT INTO chat_messages ("@ + column_list(columns) + ") VALUES (?, ?, ?, ?)"@
}

/// The text of a statement that reads the columns, each under its own name, of the rows with the
/// bound value in one column, ordered by another.
pub open spec fn select_text(columns: Seq<Column>, by: Column, order: Column) -> Seq<char> {
    "SELECT "@ + column_list(columns) + " FROM chat_messages WHERE "@ + column_name(by)
        + " = ? ORDER BY "@ + column_name(order) + " ASC"@
}

/// The row that a statement for these columns adds with its values: each value goes to the column
/// at its place.
pub open spec fn row_added(columns: Seq<Column>, binds: Seq<SqlView>) -> MessageView {
    MessageView {
        id: None,
        session_id: text_for(columns, binds, Column::SessionId),
        user_message: text_for(columns, binds, Column::UserMessage),
        bot_reply: text_for(columns, binds, Column::BotReply),
        timestamp: time_for(columns, binds),
    }
}

/// The text that is bound at the place of the column.
pub open spec fn text_for(columns: Seq<Column>, binds: Seq<SqlView>, column: Column) -> Seq<char> {
    match binds[columns.index_of(column)] {
        SqlView::Text(s) => s,
        SqlView::Time(_) => seq![],
    }
}

/// The time that is bound at the place of its column.
pub open spec fn time_for(columns: Seq<Column>, binds: Seq<SqlView>) -> Timestamp {
    match binds[columns.index_of(Column::Timestamp)] {
        SqlView::Time(t) => t,
        SqlView::Text(_) => arbitrary(),
    }
}

/// The columns that an exchange is written to.
pub open spec fn written_columns() -> Seq<Column> {
    seq![Column::SessionId, Column::UserMessage, Column::BotReply, Column::Timestamp]
}

/// The columns that an exchange is read from.
pub open spec fn read_columns() -> Seq<Column> {
    seq![
        Column::Id,
        Column::SessionId,
        Column::UserMessage,
        Column::BotReply,
        Column::Timestamp,
    ]
}

proof fn lemma_column_lists()
    ensures
        column_list(written_columns()) == "session_id, user_message, bot_reply, timestamp"@,
        column_list(read_columns()) == "id, session_id, user_message, bot_reply, timestamp"@,
{
    reveal_with_fuel(column_list, 6);
    reveal_strlit("id");
    reveal_strlit("session_id");
    reveal_strlit("user_message");
    reveal_strlit("bot_reply");
    reveal_strlit("timestamp");
    reveal_strlit(", ");
    reveal_strlit("bot_reply, timestamp");
    reveal_strlit("user_message, bot_reply, timestamp");
    reveal_strlit("session_id, user_message, bot_reply, timestamp");
    reveal_strlit("id, session_id, user_message, bot_reply, timestamp");
    let one = seq![Column::Timestamp];
    let two = seq![Column::BotReply, Column::Timestamp];
    let three = seq![Column::UserMessage, Column::BotReply, Column::Timestamp];
    assert(two.drop_first() =~= one);
    assert(three.drop_first() =~= two);
    assert(written_columns().drop_first() =~= three);
    assert(read_columns().drop_first() =~= written_columns());
    assert(column_list(two) =~= "bot_reply, timestamp"@);
    assert(column_list(three) =~= "user_message, bot_reply, timestamp"@);
    assert(column_list(written_columns()) =~= "session_id, user_message, bot_reply, timestamp"@);
    assert(column_list(read_columns()) =~= "id, session_id, user_message, bot_reply, timestamp"@);
}

/// The statement that adds an exchange writes its texts and its time to the columns of those names.
pub proof fn law_insert_writes_each_column(message: MessageView)
    ensures
        insert_statement(message).sql == insert_text(written_columns()),
        insert_statement(message).sql
            == "INSERT INTO chat_messages (session_id, user_message, bot_reply, timestamp) VALUES (?, ?, ?, ?)"@,
        insert_statement(message).binds[0] == SqlView::Text(message.session_id),
        insert_statement(message).binds[1] == SqlView::Text(message.user_message),
        insert_statement(message).binds[2] == SqlView::Text(message.bot_reply),
        insert_statement(message).binds[3] == SqlView::Time(message.timestamp),
        insert_statement(message).binds.len() == 4,
        row_added(written_columns(), insert_statement(message).binds) == (MessageView {
            id: None,
            ..message
        }),
{
    let columns = written_columns();
    lemma_column_lists();
    reveal_strlit("INSERT INTO chat_messages (");
    reveal_strlit("session_id, user_message, bot_reply, timestamp");
    reveal_strlit(") VALUES (?, ?, ?, ?)");
    reveal_strlit(
        "INSERT INTO chat_messages (session_id, user_message, bot_reply, timestamp) VALUES (?, ?, ?, ?)",
    );
    assert(insert_text(columns) =~= insert_statement(message).sql);
    assert(columns[0] == Column::SessionId && columns[1] == Column::UserMessage && columns[2]
        == Column::BotReply && columns[3] == Column::Timestamp);
    assert(columns.index_of(Column::SessionId) == 0);
    assert(columns.index_of(Column::UserMessage) == 1);
    assert(columns.index_of(Column::BotReply) == 2);
    assert(columns.index_of(Column::Timestamp) == 3);
}

/// The statement that reads the history of a session reads every column under its own name, of the
/// rows of that session, the oldest first.
pub proof fn law_history_reads_each_column(session_id: Seq<char>)
    ensures
        history_statement(session_id).sql == select_text(
            read_columns(),
            Column::SessionId,
            Column::Timestamp,
        ),
        history_statement(session_id).sql
            == "SELECT id, session_id, user_message, bot_reply, timestamp FROM chat_messages WHERE session_id = ? ORDER BY timestamp ASC"@,
        history_statement(session_id).binds == seq![SqlView::Text(session_id)],
{
    lemma_column_lists();
    reveal_strlit("SELECT ");
    reveal_strlit("id, session_id, user_message, bot_reply, timestamp");
    reveal_strlit(" FROM chat_messages WHERE ");
    reveal_strlit("session_id");
    reveal_strlit(" = ? ORDER BY ");
    reveal_strlit("timestamp");
    reveal_strlit(" ASC");
    reveal_strlit(
        "SELECT id, session_id, user_message, bot_reply, timestamp FROM chat_messages WHERE session_id = ? ORDER BY timestamp ASC",
    );
    assert(select_text(read_columns(), Column::SessionId, Column::Timestamp)
        =~= history_statement(session_id).sql);
}

/// The table is made with the columns that are written and read, where there is none, and the
/// sessions are read each once from the column of that name; neither has values to bind.
pub proof fn law_statements_without_values()
    ensures
        schema_statement().sql
            == "CREATE TABLE IF NOT EXISTS chat_messages (id INTEGER PRIMARY KEY AUTOINCREMENT, session_id TEXT NOT NULL, user_message TEXT NOT NULL, bot_reply TEXT NOT NULL, timestamp DATETIME NOT NULL)"@,
        schema_statement().binds.len() == 0,
        sessions_statement().sql == "SELECT DISTINCT "@ + column_name(Column::SessionId)
            + " FROM chat_messages"@,
        sessions_statement().binds.len() == 0,
{
    reveal_strlit("SELECT DISTINCT ");
    reveal_strlit("session_id");
    reveal_strlit(" FROM chat_messages");
    reveal_strlit("SELECT DISTINCT session_id FROM chat_messages");
    assert("SELECT DISTINCT "@ + "session_id"@ + " FROM chat_messages"@
        =~= sessions_statement().sql);
}

/// A time as a number of nanoseconds.
pub open spec fn moment(t: Timestamp) -> int {
    t.seconds * 1_000_000_000 + t.nanos
}

/// The messages stand in the order of their times, no two at the same.
pub open spec fn in_order(messages: Seq<MessageView>) -> bool {
    forall|i: int, j: int|
        0 <= i < j < messages.len() ==> moment((#[trigger] messages[i]).timestamp) < moment(
            (#[trigger] messages[j]).timestamp,
        )
}

/// Two lists in order with the same messages are the same.
proof fn lemma_order_settles(a: Seq<MessageView>, b: Seq<MessageView>)
    requires
        in_order(a),
        in_order(b),
        forall|m: MessageView| #[trigger] a.contains(m) <==> b.contains(m),
    ensures
        a == b,
    decreases a.len(),
{
    if a.len() == 0 {
        if b.len() > 0 {
            assert(b.contains(b[0]));
            assert(a.contains(b[0]));
        }
        assert(a =~= b);
    } else {
        let x = a[a.len() - 1];
        assert(a.contains(x));
        assert(b.contains(x));
        let k = b.index_of(x);
        let y = b[b.len() - 1];
        assert(b.contains(y));
        assert(a.contains(y));
        let j = a.index_of(y);
        if k < b.len() - 1 {
            assert(moment(b[k].timestamp) < moment(b[b.len() - 1].timestamp));
            if j < a.len() - 1 {
                assert(moment(a[j].timestamp) < moment(a[a.len() - 1].timestamp));
            }
        }
        assert(x == y);
        let c = a.drop_last();
        let d = b.drop_last();
        assert forall|m: MessageView| #[trigger] c.contains(m) <==> d.contains(m) by {
            if c.contains(m) {
                let i = c.index_of(m);
                assert(a[i] == m);
                assert(a.contains(m));
                assert(b.contains(m));
                let l = b.index_of(m);
                assert(moment(a[i].timestamp) < moment(x.timestamp));
                assert(l != b.len() - 1);
                assert(d[l] == m);
            }
            if d.contains(m) {
                let i = d.index_of(m);
                assert(b[i] == m);
                assert(b.contains(m));
                assert(a.contains(m));
                let l = a.index_of(m);
                assert(moment(b[i].timestamp) < moment(y.timestamp));
                assert(l != a.len() - 1);
                assert(c[l] == m);
            }
        }
        assert forall|i: int, j: int| 0 <= i < j < c.len() implies moment(
            (#[trigger] c[i]).timestamp,
        ) < moment((#[trigger] c[j]).timestamp) by {
            assert(moment(a[i].timestamp) < moment(a[j].timestamp));
        }
        assert forall|i: int, j: int| 0 <= i < j < d.len() implies moment(
            (#[trigger] d[i]).timestamp,
        ) < moment((#[trigger] d[j]).timestamp) by {
            assert(moment(b[i].timestamp) < moment(b[j].timestamp));
        }
        lemma_order_settles(c, d);
        assert(a =~= c.push(x));
        assert(b =~= d.push(y));
    }
}

/// What was saved of a session is read back from the database. The table has the row that each
/// insert statement adds, in `table`; the history statement gives the rows of the session, ordered
/// by time, in `rows`. Those are the messages that were saved for the session, with the texts that
/// were saved, in the order in which they were, so long as the clock went forward.
pub proof fn law_history_gives_back_what_was_inserted(
    messages: Seq<MessageView>,
    table: Seq<MessageView>,
    rows: Seq<MessageView>,
    session_id: Seq<char>,
)
    requires
        in_order(messages),
        forall|i: int| 0 <= i < messages.len() ==> (#[trigger] messages[i]).id is None,
        table.len() == messages.len(),
        forall|i: int|
            0 <= i < messages.len() ==> #[trigger] table[i] == row_added(
                written_columns(),
                insert_statement(messages[i]).binds,
            ),
        in_order(rows),
        forall|row: MessageView| #[trigger]
            rows.contains(row) <==> table.contains(row) && history_statement(session_id).binds
                == seq![SqlView::Text(row.session_id)],
    ensures
        rows == messages.filter(|m: MessageView| m.session_id == session_id),
{
    let pred = |m: MessageView| m.session_id == session_id;
    let own = messages.filter(pred);
    assert forall|i: int| 0 <= i < messages.len() implies table[i] == messages[i] by {
        law_insert_writes_each_column(messages[i]);
        assert(messages[i].id is None);
        assert(table[i] == row_added(written_columns(), insert_statement(messages[i]).binds));
    }
    assert(table =~= messages);
    lemma_order_of_filter(messages, pred);
    assert forall|m: MessageView| #[trigger] rows.contains(m) <==> own.contains(m) by {
        law_history_reads_each_column(session_id);
        let bound = seq![SqlView::Text(session_id)];
        let wanted = seq![SqlView::Text(m.session_id)];
        if bound == wanted {
            assert(bound[0] == wanted[0]);
        }
        lemma_filter_holds(messages, pred, m);
    }
    lemma_order_settles(rows, own);
}

proof fn lemma_filter_holds(
    messages: Seq<MessageView>,
    pred: spec_fn(MessageView) -> bool,
    m: MessageView,
)
    ensures
        messages.filter(pred).contains(m) <==> messages.contains(m) && pred(m),
    decreases messages.len(),
{
    reveal(Seq::filter);
    if messages.len() > 0 {
        let rest = messages.drop_last();
        let last = messages.last();
        lemma_filter_holds(rest, pred, m);
        let kept = rest.filter(pred);
        if rest.contains(m) {
            let i = rest.index_of(m);
            assert(messages[i] == m);
        }
        if messages.contains(m) && m != last {
            let i = messages.index_of(m);
            assert(rest[i] == m);
        }
        if m == last {
            assert(messages[messages.len() - 1] == m);
        }
        if pred(last) {
            assert(kept.push(last)[kept.len() as int] == last);
            if kept.contains(m) {
                let i = kept.index_of(m);
                assert(kept.push(last)[i] == m);
            }
            if kept.push(last).contains(m) && m != last {
                let i = kept.push(last).index_of(m);
                assert(kept[i] == m);
            }
        }
    }
}

proof fn lemma_order_of_filter(messages: Seq<MessageView>, pred: spec_fn(MessageView) -> bool)
    requires
        in_order(messages),
    ensures
        in_order(messages.filter(pred)),
    decreases messages.len(),
{
    reveal(Seq::filter);
    if messages.len() > 0 {
        let rest = messages.drop_last();
        assert forall|i: int, j: int| 0 <= i < j < rest.len() implies moment(
            (#[trigger] rest[i]).timestamp,
        ) < moment((#[trigger] rest[j]).timestamp) by {
            assert(moment(messages[i].timestamp) < moment(messages[j].timestamp));
        }
        lemma_order_of_filter(rest, pred);
        let kept = rest.filter(pred);
        let all = messages.filter(pred);
        assert forall|i: int, j: int| 0 <= i < j < all.len() implies moment(
            (#[trigger] all[i]).timestamp,
        ) < moment((#[trigger] all[j]).timestamp) by {
            assert(all[i] == kept[i]);
            if j < kept.len() {
                assert(all[j] == kept[j]);
            } else {
                lemma_filter_holds(rest, pred, kept[i]);
                assert(kept.contains(kept[i]));
                let k = rest.index_of(kept[i]);
                assert(messages[k] == kept[i]);
                assert(all[j] == messages[messages.len() - 1]);
            }
        }
    }
}

/// An url with a scheme and a mode is used as it is; what is missing is added: in front the scheme
/// of the driver, at the end the mode that makes the file where it is missing, behind what the url
/// asks for already. Only of a bare path the directory has to exist first.
pub proof fn law_url_gets_what_is_missing(url: Seq<char>)
    ensures
        ({
            let named = "sqlite:"@.is_prefix_of(url) || "file:"@.is_prefix_of(url);
            let schemed = if named {
                url
            } else {
                "sqlite:"@ + url
            };
            &&& way_to(url).url == connection_url(url)
            &&& occurs(schemed, "mode="@) ==> connection_url(url) == schemed
            &&& !occurs(schemed, "mode="@) && occurs(schemed, "?"@) ==> connection_url(url)
                == schemed + "&mode=rwc"@
            &&& !occurs(schemed, "mode="@) && !occurs(schemed, "?"@) ==> connection_url(url)
                == schemed + "?mode=rwc"@
            &&& named ==> way_to(url).needs_parent_of is None
            &&& !named ==> way_to(url).needs_parent_of == Some(url)
        }),
{
}

/// What contracts say of a message, of a statement and of the way to a database is said of their
/// fields.
pub proof fn law_what_stands_for_a_statement(
    message: ChatMessage,
    statement: Statement,
    manager: DatabaseManager,
    i: int,
)
    ensures
        message@.id == message.id,
        message@.session_id == message.session_id@,
        message@.user_message == message.user_message@,
        message@.bot_reply == message.bot_reply@,
        message@.timestamp == message.timestamp,
        statement@.sql == statement.sql@,
        statement@.binds.len() == statement.binds@.len(),
        0 <= i < statement.binds@.len() ==> match statement.binds@[i] {
            SqlValue::Text(s) => statement@.binds[i] == SqlView::Text(s@),
            SqlValue::Time(t) => statement@.binds[i] == SqlView::Time(t),
        },
        manager@.url == manager.url@,
        manager@.needs_parent_of == match manager.needs_parent_of {
            Some(path) => Some(path@),
            None => None,
        },
{
}

} // verus!
