use llama_nexus::clock::Timestamp;
use llama_nexus::database::{ChatMessage, DatabaseManager, SqlValue, Statement};
use llama_nexus::storage::{
    history_from_messages, pairs_from_lines, pairs_from_messages, ChatStorage, Lookup,
};

fn owned(list: &[&str]) -> Vec<String> {
    list.iter().map(|s| s.to_string()).collect()
}

fn ready<T>(lookup: Lookup<T>) -> T {
    match lookup {
        Lookup::Ready(value) => value,
        Lookup::Query(statement) => panic!("{}", statement.sql),
    }
}

fn query<T>(lookup: Lookup<T>) -> Statement {
    match lookup {
        Lookup::Ready(_) => panic!("an answer where a statement was due"),
        Lookup::Query(statement) => statement,
    }
}

fn texts(statement: &Statement) -> Vec<String> {
    statement
        .binds
        .iter()
        .map(|bind| match bind {
            SqlValue::Text(text) => text.clone(),
            SqlValue::Time(time) => format!("{}.{}", time.seconds, time.nanos),
        })
        .collect()
}

#[test]
fn urls_of_databases() {
    let cases = [
        ("chat.db", "sqlite:chat.db?mode=rwc", true),
        ("sqlite:chat.db", "sqlite:chat.db?mode=rwc", false),
        ("sqlite:chat.db?cache=shared", "sqlite:chat.db?cache=shared&mode=rwc", false),
        ("sqlite:chat.db?mode=ro", "sqlite:chat.db?mode=ro", false),
        ("file:chat.db", "file:chat.db?mode=rwc", false),
        ("data/mode=1.db", "sqlite:data/mode=1.db", true),
    ];
    for (given, url, bare) in cases {
        let manager = DatabaseManager::new(given);
        assert_eq!(manager.url, url);
        assert_eq!(manager.needs_parent_of, if bare { Some(given.to_string()) } else { None });
        assert_eq!(DatabaseManager::new(url).url, url);
    }
}

#[test]
fn statements_for_the_database() {
    let manager = DatabaseManager::new("chat.db");
    assert!(manager.schema().sql.starts_with("CREATE TABLE IF NOT EXISTS chat_messages ("));
    assert!(manager.schema().binds.is_empty());
    let message = ChatMessage {
        id: None,
        session_id: "s".to_string(),
        user_message: "u".to_string(),
        bot_reply: "b".to_string(),
        timestamp: Timestamp { seconds: 3, nanos: 4 },
    };
    let insert = manager.save_message(&message);
    assert_eq!(
        insert.sql,
        "INSERT INTO chat_messages (session_id, user_message, bot_reply, timestamp) VALUES (?, ?, ?, ?)"
    );
    assert_eq!(texts(&insert), vec!["s", "u", "b", "3.4"]);
    let history = manager.get_session_history("s");
    assert!(history.sql.ends_with("WHERE session_id = ? ORDER BY timestamp ASC"));
    assert_eq!(texts(&history), vec!["s"]);
    let sessions = manager.get_all_sessions();
    assert_eq!(sessions.sql, "SELECT DISTINCT session_id FROM chat_messages");
}

#[test]
fn what_is_kept_in_memory_is_read_back() {
    let mut storage = ChatStorage::new_memory_only();
    assert!(storage.database().is_none());
    assert!(ready(storage.get_session_pairs("a")).is_empty());
    assert!(storage.save_conversation("a", "hi", "hello").is_none());
    assert!(storage.save_conversation("b", "Bot: x", "User: y").is_none());
    assert!(storage.save_conversation("a", "and?", "").is_none());
    assert_eq!(
        ready(storage.get_conversation_history("a")),
        owned(&["User: hi", "Bot: hello", "User: and?", "Bot: "])
    );
    assert_eq!(
        ready(storage.get_session_pairs("b")),
        vec![("Bot: x".to_string(), "User: y".to_string())]
    );
    assert_eq!(ready(storage.get_all_sessions()), owned(&["a", "b"]));
    assert!(ready(storage.get_conversation_history("c")).is_empty());
}

#[test]
fn with_a_database_statements_come_back() {
    let mut storage = ChatStorage::new_with_database("chat.db");
    assert_eq!(storage.database().unwrap().url, "sqlite:chat.db?mode=rwc");
    let saved = storage.save_conversation("a", "hi", "hello").unwrap();
    assert_eq!(texts(&saved)[..3], owned(&["a", "hi", "hello"]));
    match saved.binds[3] {
        SqlValue::Time(time) => {
            assert!(time.seconds > 1_600_000_000);
            assert!(time.nanos < 1_000_000_000);
        }
        SqlValue::Text(_) => panic!("a text where a time was due"),
    }
    assert_eq!(texts(&query(storage.get_session_pairs("a"))), vec!["a"]);
    assert_eq!(texts(&query(storage.get_conversation_history("a"))), vec!["a"]);
    assert!(texts(&query(storage.get_all_sessions())).is_empty());
    let at = Timestamp { seconds: -1, nanos: 7 };
    let saved = storage.save_conversation_at("a", "hi", "hello", at).unwrap();
    assert_eq!(texts(&saved), owned(&["a", "hi", "hello", "-1.7"]));
}

#[test]
fn lines_stand_for_exchanges() {
    let lines = owned(&["User: a", "Bot: b", "User: User: c", "d", "User: alone"]);
    assert_eq!(
        pairs_from_lines(&lines),
        vec![("a".to_string(), "b".to_string()), ("User: c".to_string(), "d".to_string())]
    );
    let message = |user: &str, bot: &str| ChatMessage {
        id: Some(1),
        session_id: "s".to_string(),
        user_message: user.to_string(),
        bot_reply: bot.to_string(),
        timestamp: Timestamp { seconds: 0, nanos: 0 },
    };
    let rows = vec![message("a", "b"), message("Bot: c", "")];
    let history = history_from_messages(&rows);
    assert_eq!(history, owned(&["User: a", "Bot: b", "User: Bot: c", "Bot: "]));
    assert_eq!(pairs_from_lines(&history), pairs_from_messages(&rows));
}

#[test]
fn saves_mixed_over_sessions_are_read_back() {
    let mut storage = ChatStorage::new_memory_only();
    let saves = [("a", "1", "x"), ("b", "2", "y"), ("a", "3", ""), ("c", "4", "z"), ("a", "5", "w")];
    for (session, user, bot) in saves {
        let _ = ready(storage.get_session_pairs("never"));
        assert!(storage.save_conversation(session, user, bot).is_none());
    }
    for session in ["a", "b", "c", "never"] {
        let expected: Vec<(String, String)> = saves
            .iter()
            .filter(|save| save.0 == session)
            .map(|save| (save.1.to_string(), save.2.to_string()))
            .collect();
        assert_eq!(ready(storage.get_session_pairs(session)), expected);
        let lines = ready(storage.get_conversation_history(session));
        assert_eq!(lines.len(), 2 * expected.len());
        assert_eq!(pairs_from_lines(&lines), expected);
    }
    assert_eq!(ready(storage.get_all_sessions()), owned(&["a", "b", "c"]));
}
