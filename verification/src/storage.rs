//! The record of conversations, by session.
use vstd::prelude::*;

use crate::clock::{utc_now, Timestamp};
use crate::database::{
    history_statement, insert_statement, sessions_statement, way_to, ChatMessage, DatabaseManager,
    DatabaseView, MessageView, Statement,
};
use crate::text::{equal, strip_prefix, texts};

verus! {

/// What a user said and what was answered.
pub type Exchange = (Seq<char>, Seq<char>);

/// `s` without `prefix` in front of it.
pub open spec fn unmarked(s: Seq<char>, prefix: Seq<char>) -> Seq<char> {
    if prefix.is_prefix_of(s) {
        s.skip(prefix.len() as int)
    } else {
        s
    }
}

/// The lines that stand for `pairs`: for each exchange a line of the user and a line of the bot.
pub open spec fn lines_of(pairs: Seq<Exchange>) -> Seq<Seq<char>> {
    Seq::new(
        2 * pairs.len(),
        |i: int|
            if i % 2 == 0 {
                "User: "@ + pairs[i / 2].0
            } else {
                "Bot: "@ + pairs[i / 2].1
            },
    )
}

/// The exchanges that two lines each stand for; a last single line stands for none.
pub open spec fn pairs_of(lines: Seq<Seq<char>>) -> Seq<Exchange> {
    Seq::new(
        lines.len() / 2,
        |i: int| (unmarked(lines[2 * i], "User: "@), unmarked(lines[2 * i + 1], "Bot: "@)),
    )
}

/// The texts of a list of pairs of strings.
pub open spec fn pair_texts(pairs: Seq<(String, String)>) -> Seq<Exchange> {
    pairs.map_values(|p: (String, String)| (p.0@, p.1@))
}

/// The exchanges of messages that came from the database.
pub open spec fn message_pairs(messages: Seq<ChatMessage>) -> Seq<Exchange> {
    messages.map_values(|m: ChatMessage| (m.user_message@, m.bot_reply@))
}

/// The lines of one session.
#[derive(Debug)]
struct Session {
    id: String,
    lines: Vec<String>,
}

/// What a read of the record comes to: an answer, or a statement whose rows hold the answer.
#[derive(Debug)]
pub enum Lookup<T> {
    Ready(T),
    Query(Statement),
}

/// The record of conversations, in a database or in memory.
#[derive(Debug)]
pub struct ChatStorage {
    database: Option<DatabaseManager>,
    sessions: Vec<Session>,
}

impl ChatStorage {
    /// The way to the database that holds the record, where one does.
    pub closed spec fn way(&self) -> Option<DatabaseView> {
        match self.database {
            Some(db) => Some(db@),
            None => None,
        }
    }

    /// Whether a database holds the record.
    pub open spec fn persistent(&self) -> bool {
        self.way() is Some
    }

    /// The sessions in memory, in the order of their first exchange.
    pub closed spec fn session_ids(&self) -> Seq<Seq<char>> {
        self.sessions@.map_values(|s: Session| s.id@)
    }

    /// The lines in memory of a session.
    pub closed spec fn lines(&self, session_id: Seq<char>) -> Seq<Seq<char>> {
        if self.session_ids().contains(session_id) {
            texts(self.sessions@[self.session_ids().index_of(session_id)].lines@)
        } else {
            seq![]
        }
    }

    /// The exchanges in memory of a session, the oldest first.
    pub open spec fn pairs(&self, session_id: Seq<char>) -> Seq<Exchange> {
        pairs_of(self.lines(session_id))
    }

    /// No session occurs twice, the lines of each stand for whole exchanges, and a session that
    /// does not occur has none.
    pub open spec fn wf(&self) -> bool {
        &&& self.session_ids().no_duplicates()
        &&& forall|id: Seq<char>| #[trigger] self.lines(id) == lines_of(self.pairs(id))
        &&& forall|id: Seq<char>|
            !self.session_ids().contains(id) ==> #[trigger] self.lines(id) == Seq::<
                Seq<char>,
            >::empty()
    }

    /// The two records hold the same in memory.
    pub open spec fn same_memory(&self, other: &ChatStorage) -> bool {
        &&& self.session_ids() == other.session_ids()
        &&& forall|id: Seq<char>| #[trigger] self.lines(id) == other.lines(id)
    }

    /// The record in memory has grown by one exchange of one session, which is the last of the
    /// sessions where it is new.
    pub open spec fn has_recorded(
        &self,
        before: &ChatStorage,
        session_id: Seq<char>,
        user_message: Seq<char>,
        bot_reply: Seq<char>,
    ) -> bool {
        &&& self.session_ids() == if before.session_ids().contains(session_id) {
            before.session_ids()
        } else {
            before.session_ids().push(session_id)
        }
        &&& self.pairs(session_id) == before.pairs(session_id).push((user_message, bot_reply))
        &&& self.lines(session_id) == before.lines(session_id).push(
            "User: "@ + user_message,
        ).push("Bot: "@ + bot_reply)
        &&& forall|id: Seq<char>|
            id != session_id ==> #[trigger] self.lines(id) == before.lines(id)
    }

    /// An empty record in memory.
    pub fn new_memory_only() -> (r: ChatStorage)
        ensures
            r.wf(),
            !r.persistent(),
            r.session_ids() == Seq::<Seq<char>>::empty(),
            forall|id: Seq<char>| r.lines(id) == Seq::<Seq<char>>::empty(),
    {
        let r = ChatStorage { database: None, sessions: Vec::new() };
        assert(r.session_ids() =~= seq![]);
        assert forall|id: Seq<char>| #[trigger] r.lines(id) == lines_of(r.pairs(id)) by {
            assert(lines_of(pairs_of(seq![])) =~= seq![]);
        }
        r
    }

    /// A record in the database of that url, or at that bare path.
    pub fn new_with_database(database_url: &str) -> (r: ChatStorage)
        ensures
            r.wf(),
            r.way() == Some(way_to(database_url@)),
            r.session_ids() == Seq::<Seq<char>>::empty(),
            forall|id: Seq<char>| r.lines(id) == Seq::<Seq<char>>::empty(),
    {
        let r = ChatStorage {
            database: Some(DatabaseManager::new(database_url)),
            sessions: Vec::new(),
        };
        assert(r.session_ids() =~= seq![]);
        assert forall|id: Seq<char>| #[trigger] r.lines(id) == lines_of(r.pairs(id)) by {
            assert(lines_of(pairs_of(seq![])) =~= seq![]);
        }
        r
    }

    /// The database that holds the record.
    pub fn database(&self) -> (r: Option<&DatabaseManager>)
        ensures
            match r {
                Some(db) => self.way() == Some(db@),
                None => self.way() is None,
            },
    {
        self.database.as_ref()
    }

    /// The position of a session in memory.
    fn position(&self, session_id: &str) -> (r: Option<usize>)
        ensures
            match r {
                Some(i) => i < self.sessions@.len() && self.session_ids()[i as int] == session_id@,
                None => !self.session_ids().contains(session_id@),
            },
    {
        let mut i: usize = 0;
        while i < self.sessions.len()
            invariant
                i <= self.sessions@.len(),
                forall|j: int| 0 <= j < i ==> #[trigger] self.session_ids()[j] != session_id@,
            decreases self.sessions@.len() - i,
        {
            if equal(self.sessions[i].id.as_str(), session_id) {
                return Some(i);
            }
            i += 1;
        }
        None
    }

    /// A session that stands at a position has the lines that stand there.
    proof fn lemma_lines_at(&self, i: int)
        requires
            self.session_ids().no_duplicates(),
            0 <= i < self.sessions@.len(),
        ensures
            self.lines(self.session_ids()[i]) == texts(self.sessions@[i].lines@),
    {
        let ids = self.session_ids();
        assert(ids.contains(ids[i]));
        let j = ids.index_of(ids[i]);
        assert(ids[j] == ids[i]);
    }

    /// Keeps one exchange, said at `timestamp`: with a database, the result is the statement that
    /// adds it; without one, it is kept in memory and there is nothing left to do.
    pub fn save_conversation_at(
        &mut self,
        session_id: &str,
        user_message: &str,
        bot_reply: &str,
        timestamp: Timestamp,
    ) -> (r: Option<Statement>)
        requires
            old(self).wf(),
        ensures
            final(self).wf(),
            final(self).way() == old(self).way(),
            match r {
                Some(statement) => {
                    &&& old(self).persistent()
                    &&& statement@ == insert_statement(
                        (MessageView {
                            id: None,
                            session_id: session_id@,
                            user_message: user_message@,
                            bot_reply: bot_reply@,
                            timestamp,
                        }),
                    )
                    &&& final(self).same_memory(old(self))
                },
                None => !old(self).persistent() && final(self).has_recorded(
                    old(self),
                    session_id@,
                    user_message@,
                    bot_reply@,
                ),
            },
    {
        if let Some(db) = &self.database {
            let message = ChatMessage {
                id: None,
                session_id: session_id.to_owned(),
                user_message: user_message.to_owned(),
                bot_reply: bot_reply.to_owned(),
                timestamp,
            };
            return Some(db.save_message(&message));
        }
        let mut user_line: String = "User: ".to_owned();
        user_line.append(user_message);
        let mut bot_line: String = "Bot: ".to_owned();
        bot_line.append(bot_reply);
        let i: usize = match self.position(session_id) {
            Some(i) => i,
            None => {
                let ghost before = *self;
                self.sessions.push(Session { id: session_id.to_owned(), lines: Vec::new() });
                proof {
                    assert(self.session_ids() =~= before.session_ids().push(session_id@));
                    assert(self.session_ids().no_duplicates());
                    assert forall|id: Seq<char>| self.lines(id) == before.lines(id) by {
                        if before.session_ids().contains(id) {
                            let k = before.session_ids().index_of(id);
                            assert(self.session_ids()[k] == id);
                            self.lemma_lines_at(k);
                        } else if id == session_id@ {
                            self.lemma_lines_at(self.sessions@.len() - 1);
                            assert(self.session_ids()[self.sessions@.len() - 1] == id);
                            assert(texts(self.sessions@[self.sessions@.len() - 1].lines@) =~= seq![]);
                        } else {
                            assert(!self.session_ids().contains(id));
                        }
                    }
                }
                self.sessions.len() - 1
            },
        };
        let ghost before = *self;
        assert forall|id: Seq<char>| before.lines(id) == old(self).lines(id) by {}
        self.sessions[i].lines.push(user_line);
        self.sessions[i].lines.push(bot_line);
        proof {
            assert(self.session_ids() =~= before.session_ids());
            before.lemma_lines_at(i as int);
            self.lemma_lines_at(i as int);
            assert(before.session_ids()[i as int] == session_id@);
            let lines = before.lines(session_id@);
            let grown = self.lines(session_id@);
            assert(grown =~= lines.push("User: "@ + user_message@).push("Bot: "@ + bot_reply@));
            assert forall|id: Seq<char>| id != session_id@ implies #[trigger] self.lines(id)
                == before.lines(id) by {
                if before.session_ids().contains(id) {
                    let k = before.session_ids().index_of(id);
                    assert(k != i);
                    self.lemma_lines_at(k);
                    before.lemma_lines_at(k);
                }
            }
            let pairs = pairs_of(lines);
            assert(lines == lines_of(pairs));
            lemma_pairs_grow(lines, user_message@, bot_reply@);
            assert forall|id: Seq<char>| #[trigger] self.lines(id) == lines_of(self.pairs(id)) by {
                if id != session_id@ {
                    assert(before.lines(id) == lines_of(before.pairs(id)));
                }
            }
        }
        None
    }

    /// Keeps one exchange, said now: as [`ChatStorage::save_conversation_at`] at some time.
    pub fn save_conversation(&mut self, session_id: &str, user_message: &str, bot_reply: &str) -> (r:
        Option<Statement>)
        requires
            old(self).wf(),
        ensures
            final(self).wf(),
            final(self).way() == old(self).way(),
            match r {
                Some(statement) => {
                    &&& old(self).persistent()
                    &&& exists|timestamp: Timestamp|
                        timestamp.nanos < 1_000_000_000 && #[trigger] insert_statement(
                            (MessageView {
                                id: None,
                                session_id: session_id@,
                                user_message: user_message@,
                                bot_reply: bot_reply@,
                                timestamp,
                            }),
                        ) == statement@
                    &&& final(self).same_memory(old(self))
                },
                None => !old(self).persistent() && final(self).has_recorded(
                    old(self),
                    session_id@,
                    user_message@,
                    bot_reply@,
                ),
            },
    {
        let timestamp = utc_now();
        self.save_conversation_at(session_id, user_message, bot_reply, timestamp)
    }

    /// The conversation of a session as lines.
    pub fn get_conversation_history(&self, session_id: &str) -> (r: Lookup<Vec<String>>)
        requires
            self.wf(),
        ensures
            match r {
                Lookup::Ready(lines) => !self.persistent() && texts(lines@) == self.lines(
                    session_id@,
                ),
                Lookup::Query(statement) => self.persistent() && statement@ == history_statement(
                    session_id@,
                ),
            },
    {
        if let Some(db) = &self.database {
            return Lookup::Query(db.get_session_history(session_id));
        }
        match self.position(session_id) {
            Some(i) => {
                proof {
                    self.lemma_lines_at(i as int);
                }
                Lookup::Ready(copy_texts(&self.sessions[i].lines))
            },
            None => {
                let lines: Vec<String> = Vec::new();
                assert(texts(lines@) =~= seq![]);
                Lookup::Ready(lines)
            },
        }
    }

    /// The conversation of a session as exchanges, the oldest first.
    pub fn get_session_pairs(&self, session_id: &str) -> (r: Lookup<Vec<(String, String)>>)
        requires
            self.wf(),
        ensures
            match r {
                Lookup::Ready(pairs) => !self.persistent() && pair_texts(pairs@) == self.pairs(
                    session_id@,
                ),
                Lookup::Query(statement) => self.persistent() && statement@ == history_statement(
                    session_id@,
                ),
            },
    {
        if let Some(db) = &self.database {
            return Lookup::Query(db.get_session_history(session_id));
        }
        match self.position(session_id) {
            Some(i) => {
                proof {
                    self.lemma_lines_at(i as int);
                }
                Lookup::Ready(pairs_from_lines(&self.sessions[i].lines))
            },
            None => {
                let pairs: Vec<(String, String)> = Vec::new();
                assert(pair_texts(pairs@) =~= pairs_of(seq![]));
                Lookup::Ready(pairs)
            },
        }
    }

    /// The sessions on record.
    pub fn get_all_sessions(&self) -> (r: Lookup<Vec<String>>)
        ensures
            match r {
                Lookup::Ready(ids) => !self.persistent() && texts(ids@) == self.session_ids(),
                Lookup::Query(statement) => self.persistent() && statement@
                    == sessions_statement(),
            },
    {
        if let Some(db) = &self.database {
            return Lookup::Query(db.get_all_sessions());
        }
        let mut ids: Vec<String> = Vec::new();
        let mut i: usize = 0;
        while i < self.sessions.len()
            invariant
                i <= self.sessions@.len(),
                ids@.len() == i,
                forall|j: int| 0 <= j < i ==> #[trigger] ids@[j]@ == self.session_ids()[j],
            decreases self.sessions@.len() - i,
        {
            ids.push(self.sessions[i].id.clone());
            i += 1;
        }
        assert(texts(ids@) =~= self.session_ids());
        Lookup::Ready(ids)
    }
}

/// A copy of a list of strings.
pub fn copy_texts(list: &Vec<String>) -> (r: Vec<String>)
    ensures
        texts(r@) == texts(list@),
{
    let mut out: Vec<String> = Vec::new();
    let mut i: usize = 0;
    while i < list.len()
        invariant
            i <= list@.len(),
            out@.len() == i,
            forall|j: int| 0 <= j < i ==> #[trigger] out@[j]@ == list@[j]@,
        decreases list@.len() - i,
    {
        out.push(list[i].clone());
        i += 1;
    }
    assert(texts(out@) =~= texts(list@));
    out
}

/// `line` without `prefix` in front of it.
fn unmark(line: &str, prefix: &str) -> (r: String)
    ensures
        r@ == unmarked(line@, prefix@),
{
    match strip_prefix(line, prefix) {
        Some(rest) => {
            proof {
                assert(line@.subrange(0, prefix@.len() as int) =~= prefix@);
                assert(line@.skip(prefix@.len() as int) =~= rest@);
            }
            rest
        },
        None => line.to_owned(),
    }
}

/// The exchanges that two lines each stand for; a last single line stands for none.
pub fn pairs_from_lines(lines: &Vec<String>) -> (r: Vec<(String, String)>)
    ensures
        pair_texts(r@) == pairs_of(texts(lines@)),
{
    let mut pairs: Vec<(String, String)> = Vec::new();
    let mut i: usize = 0;
    while lines.len() - i > 1
        invariant
            i <= lines@.len(),
            i == 2 * pairs@.len(),
            forall|j: int|
                0 <= j < pairs@.len() ==> (#[trigger] pairs@[j]).0@ == unmarked(
                    lines@[2 * j]@,
                    "User: "@,
                ) && pairs@[j].1@ == unmarked(lines@[2 * j + 1]@, "Bot: "@),
        decreases lines@.len() - i,
    {
        let user = unmark(lines[i].as_str(), "User: ");
        let bot = unmark(lines[i + 1].as_str(), "Bot: ");
        pairs.push((user, bot));
        i += 2;
    }
    assert(pair_texts(pairs@) =~= pairs_of(texts(lines@)));
    pairs
}

/// The conversation as lines, from the rows of the database.
pub fn history_from_messages(messages: &Vec<ChatMessage>) -> (r: Vec<String>)
    ensures
        texts(r@) == lines_of(message_pairs(messages@)),
{
    let mut out: Vec<String> = Vec::new();
    let mut i: usize = 0;
    while i < messages.len()
        invariant
            i <= messages@.len(),
            out@.len() == 2 * i,
            forall|j: int|
                0 <= j < 2 * i ==> #[trigger] out@[j]@ == lines_of(message_pairs(messages@))[j],
        decreases messages@.len() - i,
    {
        let mut user_line: String = "User: ".to_owned();
        user_line.append(messages[i].user_message.as_str());
        let mut bot_line: String = "Bot: ".to_owned();
        bot_line.append(messages[i].bot_reply.as_str());
        out.push(user_line);
        out.push(bot_line);
        i += 1;
    }
    assert(texts(out@) =~= lines_of(message_pairs(messages@)));
    out
}

/// The conversation as exchanges, from the rows of the database.
pub fn pairs_from_messages(messages: &Vec<ChatMessage>) -> (r: Vec<(String, String)>)
    ensures
        pair_texts(r@) == message_pairs(messages@),
{
    let mut out: Vec<(String, String)> = Vec::new();
    let mut i: usize = 0;
    while i < messages.len()
        invariant
            i <= messages@.len(),
            out@.len() == i,
            forall|j: int|
                0 <= j < i ==> (#[trigger] out@[j]).0@ == messages@[j].user_message@
                    && out@[j].1@ == messages@[j].bot_reply@,
        decreases messages@.len() - i,
    {
        out.push((messages[i].user_message.clone(), messages[i].bot_reply.clone()));
        i += 1;
    }
    assert(pair_texts(out@) =~= message_pairs(messages@));
    out
}

/// A mark in front of a text comes off again.
proof fn lemma_unmarked(prefix: Seq<char>, s: Seq<char>)
    ensures
        unmarked(prefix + s, prefix) == s,
{
    assert((prefix + s).subrange(0, prefix.len() as int) =~= prefix);
    assert((prefix + s).skip(prefix.len() as int) =~= s);
}

/// Exchanges come back out of the lines that stand for them, whatever was said: a conversation
/// reads the same whether it is taken from memory or from the database.
pub proof fn law_lines_stand_for_pairs(pairs: Seq<Exchange>)
    ensures
        pairs_of(lines_of(pairs)) == pairs,
{
    let lines = lines_of(pairs);
    assert forall|i: int| 0 <= i < pairs.len() implies pairs_of(lines)[i] == pairs[i] by {
        assert(lines[2 * i] == "User: "@ + pairs[i].0);
        assert(lines[2 * i + 1] == "Bot: "@ + pairs[i].1);
        lemma_unmarked("User: "@, pairs[i].0);
        lemma_unmarked("Bot: "@, pairs[i].1);
    }
    assert(pairs_of(lines) =~= pairs);
}

/// Each exchange has its two lines.
proof fn lemma_lines_at_pair(pairs: Seq<Exchange>, i: int)
    requires
        0 <= i < pairs.len(),
    ensures
        lines_of(pairs)[2 * i] == "User: "@ + pairs[i].0,
        lines_of(pairs)[2 * i + 1] == "Bot: "@ + pairs[i].1,
{
}

/// A session reads the same as lines and as exchanges: two lines for the exchange at each place
/// `i`, and nothing of either for a session that does not occur.
pub proof fn law_history_stands_for_pairs(storage: ChatStorage, session_id: Seq<char>, i: int)
    requires
        storage.wf(),
    ensures
        storage.lines(session_id).len() == 2 * storage.pairs(session_id).len(),
        0 <= i < storage.pairs(session_id).len() ==> storage.lines(session_id)[2 * i] == "User: "@
            + storage.pairs(session_id)[i].0 && storage.lines(session_id)[2 * i + 1] == "Bot: "@
            + storage.pairs(session_id)[i].1,
        !storage.session_ids().contains(session_id) ==> storage.lines(session_id) == Seq::<
            Seq<char>,
        >::empty() && storage.pairs(session_id) == Seq::<Exchange>::empty(),
{
    let lines = storage.lines(session_id);
    let pairs = storage.pairs(session_id);
    assert(lines == lines_of(pairs));
    if 0 <= i < pairs.len() {
        lemma_lines_at_pair(pairs, i);
    }
    if !storage.session_ids().contains(session_id) {
        assert(pairs =~= Seq::<Exchange>::empty());
    }
}

/// The messages of one session, in their order.
pub open spec fn of_session(messages: Seq<MessageView>, session_id: Seq<char>) -> Seq<MessageView> {
    messages.filter(|m: MessageView| m.session_id == session_id)
}

/// The exchanges of one session among the messages that were saved, in saving order.
pub open spec fn saved_pairs(messages: Seq<MessageView>, session_id: Seq<char>) -> Seq<Exchange> {
    of_session(messages, session_id).map_values(
        |m: MessageView| (m.user_message, m.bot_reply),
    )
}

/// One of the messages belongs to the session.
pub open spec fn was_saved(messages: Seq<MessageView>, session_id: Seq<char>) -> bool {
    exists|i: int| 0 <= i < messages.len() && (#[trigger] messages[i]).session_id == session_id
}

/// The records come about by saving the messages one after another, from an empty record in memory
/// on; what is read in between changes nothing.
pub open spec fn grown_by(records: Seq<ChatStorage>, messages: Seq<MessageView>) -> bool {
    &&& records.len() == messages.len() + 1
    &&& records[0].session_ids() == Seq::<Seq<char>>::empty()
    &&& forall|i: int| 0 <= i < records.len() ==> (#[trigger] records[i]).wf()
    &&& forall|i: int|
        0 <= i < messages.len() ==> records[i + 1].has_recorded(
            &records[i],
            (#[trigger] messages[i]).session_id,
            messages[i].user_message,
            messages[i].bot_reply,
        )
}

/// After any sequence of saves, mixed over the sessions in any way, the record in memory holds of
/// each session exactly the exchanges that were saved for it, in saving order, and knows exactly
/// the sessions that something was saved for, each once.
pub proof fn law_saves_are_read_back(
    records: Seq<ChatStorage>,
    messages: Seq<MessageView>,
    session_id: Seq<char>,
)
    requires
        grown_by(records, messages),
    ensures
        records.last().pairs(session_id) == saved_pairs(messages, session_id),
        records.last().lines(session_id) == lines_of(saved_pairs(messages, session_id)),
        records.last().session_ids().no_duplicates(),
        records.last().session_ids().contains(session_id) <==> was_saved(messages, session_id),
    decreases messages.len(),
{
    let pred = |m: MessageView| m.session_id == session_id;
    let record = records.last();
    reveal(Seq::filter);
    assert(records[records.len() - 1].wf());
    if messages.len() == 0 {
        assert(!record.session_ids().contains(session_id));
        assert(record.lines(session_id) == Seq::<Seq<char>>::empty());
        assert(record.pairs(session_id) =~= saved_pairs(messages, session_id));
    } else {
        let earlier = records.drop_last();
        let rest = messages.drop_last();
        let n = rest.len() as int;
        let last = messages[n];
        assert(grown_by(earlier, rest)) by {
            assert(earlier[0] == records[0]);
            assert forall|i: int| 0 <= i < earlier.len() implies (#[trigger] earlier[i]).wf() by {
                assert(records[i].wf());
            }
            assert forall|i: int| 0 <= i < rest.len() implies earlier[i + 1].has_recorded(
                &earlier[i],
                (#[trigger] rest[i]).session_id,
                rest[i].user_message,
                rest[i].bot_reply,
            ) by {
                assert(messages[i] == rest[i]);
                assert(earlier[i] == records[i] && earlier[i + 1] == records[i + 1]);
            }
        }
        law_saves_are_read_back(earlier, rest, session_id);
        let before = earlier.last();
        assert(before == records[n]);
        assert(record == records[n + 1]);
        assert(record.has_recorded(&before, last.session_id, last.user_message, last.bot_reply));
        let ids = before.session_ids();
        if last.session_id == session_id {
            assert(saved_pairs(messages, session_id) =~= saved_pairs(rest, session_id).push(
                (last.user_message, last.bot_reply),
            ));
            assert(messages[n].session_id == session_id);
            if !ids.contains(session_id) {
                assert(ids.push(session_id)[ids.len() as int] == session_id);
            }
        } else {
            assert(saved_pairs(messages, session_id) =~= saved_pairs(rest, session_id));
            assert(record.lines(session_id) == before.lines(session_id));
            if was_saved(rest, session_id) {
                let i = choose|i: int|
                    0 <= i < rest.len() && (#[trigger] rest[i]).session_id == session_id;
                assert(messages[i].session_id == session_id);
                let j = ids.index_of(session_id);
                assert(ids.push(last.session_id)[j] == session_id);
            }
            if was_saved(messages, session_id) {
                let i = choose|i: int|
                    0 <= i < messages.len() && (#[trigger] messages[i]).session_id == session_id;
                assert(rest[i].session_id == session_id);
            }
            if record.session_ids().contains(session_id) {
                let j = record.session_ids().index_of(session_id);
                assert(ids[j] == session_id);
            }
        }
        assert(record.lines(session_id) == lines_of(record.pairs(session_id)));
    }
}

/// The database and the memory give the same answer: where the rows of a session are the messages
/// that were saved for it, in saving order, they read as the record in memory reads after the same
/// saves.
pub proof fn law_rows_read_as_memory(
    records: Seq<ChatStorage>,
    messages: Seq<MessageView>,
    session_id: Seq<char>,
    rows: Seq<ChatMessage>,
)
    requires
        grown_by(records, messages),
        rows.map_values(|m: ChatMessage| m@) == of_session(messages, session_id),
    ensures
        message_pairs(rows) == records.last().pairs(session_id),
        lines_of(message_pairs(rows)) == records.last().lines(session_id),
{
    law_saves_are_read_back(records, messages, session_id);
    let views = rows.map_values(|m: ChatMessage| m@);
    assert forall|i: int| 0 <= i < rows.len() implies message_pairs(rows)[i] == saved_pairs(
        messages,
        session_id,
    )[i] by {
        assert(views[i] == rows[i]@);
    }
    assert(message_pairs(rows) =~= saved_pairs(messages, session_id));
}

/// Two more lines stand for one more exchange.
proof fn lemma_pairs_grow(lines: Seq<Seq<char>>, user: Seq<char>, bot: Seq<char>)
    requires
        lines == lines_of(pairs_of(lines)),
    ensures
        pairs_of(lines.push("User: "@ + user).push("Bot: "@ + bot)) == pairs_of(lines).push(
            (user, bot),
        ),
        lines.push("User: "@ + user).push("Bot: "@ + bot) == lines_of(
            pairs_of(lines).push((user, bot)),
        ),
{
    let pairs = pairs_of(lines);
    let grown = pairs.push((user, bot));
    let more = lines.push("User: "@ + user).push("Bot: "@ + bot);
    assert forall|i: int| 0 <= i < more.len() implies more[i] == lines_of(grown)[i] by {
        if i < lines.len() {
            assert(lines_of(pairs)[i] == lines[i]);
            assert(grown[i / 2] == pairs[i / 2]);
        }
    }
    assert(more =~= lines_of(grown));
    law_lines_stand_for_pairs(grown);
}

/// A prefix comes off where it is one, and nothing else does.
pub proof fn law_unmarked_of_the_prefix_only(prefix: Seq<char>, s: Seq<char>)
    ensures
        unmarked(prefix + s, prefix) == s,
        !prefix.is_prefix_of(s) ==> unmarked(s, prefix) == s,
{
    lemma_unmarked(prefix, s);
}

/// Exchanges come from lines two by two: the first without the mark of the user, the second without
/// that of the bot; rows and pairs give their own texts, in their order.
pub proof fn law_pairs_two_by_two(
    lines: Seq<Seq<char>>,
    pairs: Seq<(String, String)>,
    rows: Seq<ChatMessage>,
    i: int,
)
    ensures
        pairs_of(lines).len() == lines.len() / 2,
        0 <= i < lines.len() / 2 ==> pairs_of(lines)[i].0 == (if "User: "@.is_prefix_of(
            lines[2 * i],
        ) {
            lines[2 * i].skip("User: "@.len() as int)
        } else {
            lines[2 * i]
        }),
        0 <= i < lines.len() / 2 ==> pairs_of(lines)[i].1 == (if "Bot: "@.is_prefix_of(
            lines[2 * i + 1],
        ) {
            lines[2 * i + 1].skip("Bot: "@.len() as int)
        } else {
            lines[2 * i + 1]
        }),
        pair_texts(pairs).len() == pairs.len(),
        0 <= i < pairs.len() ==> pair_texts(pairs)[i] == (pairs[i].0@, pairs[i].1@),
        message_pairs(rows).len() == rows.len(),
        0 <= i < rows.len() ==> message_pairs(rows)[i] == (
            rows[i].user_message@,
            rows[i].bot_reply@,
        ),
{
}

/// Each exchange becomes two lines, what the user said behind `User: ` and what was answered behind
/// `Bot: `, in the order of the exchanges.
pub proof fn law_lines_of_each_exchange(pairs: Seq<Exchange>, i: int)
    ensures
        lines_of(pairs).len() == 2 * pairs.len(),
        0 <= i < pairs.len() ==> lines_of(pairs)[2 * i] == "User: "@ + pairs[i].0
            && lines_of(pairs)[2 * i + 1] == "Bot: "@ + pairs[i].1,
{
    if 0 <= i < pairs.len() {
        lemma_lines_at_pair(pairs, i);
    }
}

/// Saves count for their own session, each at the end, and for no other.
pub proof fn law_saved_pairs_one_by_one(
    messages: Seq<MessageView>,
    message: MessageView,
    session_id: Seq<char>,
)
    ensures
        saved_pairs(seq![], session_id) == Seq::<Exchange>::empty(),
        message.session_id == session_id ==> saved_pairs(messages.push(message), session_id)
            == saved_pairs(messages, session_id).push((message.user_message, message.bot_reply)),
        message.session_id != session_id ==> saved_pairs(messages.push(message), session_id)
            == saved_pairs(messages, session_id),
{
    reveal(Seq::filter);
    assert(messages.push(message).drop_last() =~= messages);
    let n = of_session(messages, session_id);
    assert(saved_pairs(seq![], session_id) =~= Seq::<Exchange>::empty());
    if message.session_id == session_id {
        assert(saved_pairs(messages.push(message), session_id) =~= saved_pairs(
            messages,
            session_id,
        ).push((message.user_message, message.bot_reply)));
    }
}

/// A record that has grown by an exchange has two lines and one exchange more in that session, has
/// the session among its sessions, and is the same of every other session.
pub proof fn law_recorded_in_its_session(
    before: ChatStorage,
    after: ChatStorage,
    session_id: Seq<char>,
    user_message: Seq<char>,
    bot_reply: Seq<char>,
    other: Seq<char>,
)
    requires
        after.has_recorded(&before, session_id, user_message, bot_reply),
    ensures
        after.lines(session_id) == before.lines(session_id) + seq![
            "User: "@ + user_message,
            "Bot: "@ + bot_reply,
        ],
        after.pairs(session_id) == before.pairs(session_id) + seq![(user_message, bot_reply)],
        after.session_ids().contains(session_id),
        other != session_id ==> after.lines(other) == before.lines(other) && after.pairs(other)
            == before.pairs(other) && after.session_ids().contains(other)
            == before.session_ids().contains(other),
{
    let ids = before.session_ids();
    assert(after.lines(session_id) =~= before.lines(session_id) + seq![
        "User: "@ + user_message,
        "Bot: "@ + bot_reply,
    ]);
    assert(after.pairs(session_id) =~= before.pairs(session_id) + seq![(user_message, bot_reply)]);
    if !ids.contains(session_id) {
        assert(ids.push(session_id)[ids.len() as int] == session_id);
        if ids.contains(other) {
            let i = ids.index_of(other);
            assert(ids.push(session_id)[i] == other);
        }
        if other != session_id && ids.push(session_id).contains(other) {
            let i = ids.push(session_id).index_of(other);
            assert(ids[i] == other);
        }
    }
}

/// Two records that hold the same in memory have the same sessions, and each with the same lines
/// and exchanges.
pub proof fn law_same_in_memory(a: ChatStorage, b: ChatStorage, session_id: Seq<char>)
    requires
        a.same_memory(&b),
    ensures
        a.session_ids() == b.session_ids(),
        a.lines(session_id) == b.lines(session_id),
        a.pairs(session_id) == b.pairs(session_id),
{
}

} // verus!
