use llama_nexus::api::{
    chat_history_from, get_all_sessions, get_chat_history, handle_response, sessions_from,
    ChatAction, ChatEvent, ChatExchange, ChatRequest,
};
use llama_nexus::clock::Timestamp;
use llama_nexus::config::Config;
use llama_nexus::database::ChatMessage;
use llama_nexus::json::{decode, reply_text, Json};
use llama_nexus::prompt::{build_prompt, encode_prompt, PromptMessage};
use llama_nexus::server::{Server, ServerKind};
use llama_nexus::state::{AppState, Model, ServerInfo};
use llama_nexus::storage::Lookup;
use llama_nexus::table::Table;

fn chat() -> ServerKind {
    ServerKind::from_str("chat").unwrap()
}

fn register(state: &mut AppState, url: &str, key: Option<&str>) {
    let server = Server::new(chat(), url.to_string(), key.map(|k| k.to_string()), url);
    state.register_downstream_server(server);
}

fn state() -> AppState {
    AppState::new(Config::default(), ServerInfo { servers: Table::new() })
}

fn database_state() -> AppState {
    AppState::new_with_database(
        Config::default(),
        ServerInfo { servers: Table::new() },
        "chat.db",
    )
}

fn request(session: &str, text: &str) -> ChatRequest {
    ChatRequest {
        session_id: session.to_string(),
        user_message: text.to_string(),
        model: Some("m".to_string()),
    }
}

fn begin(state: &mut AppState, session: &str, text: &str) -> (ChatExchange, ChatAction) {
    handle_response(state, None, request(session, text)).unwrap()
}

fn failure(action: ChatAction) -> String {
    match action {
        ChatAction::Failed(e) => e.message(),
        other => panic!("{other:?}"),
    }
}

fn reply(action: ChatAction) -> String {
    match action {
        ChatAction::Reply(response) => response.reply,
        other => panic!("{other:?}"),
    }
}

fn sent(action: ChatAction) -> (String, Option<String>, String) {
    match action {
        ChatAction::Send { url, authorization, body } => {
            (url, authorization, String::from_utf8(body).unwrap())
        }
        other => panic!("{other:?}"),
    }
}

fn answer(text: &str) -> ChatEvent {
    let document = format!("{{\"choices\":[{{\"message\":{{\"content\":\"{text}\"}}}}]}}");
    ChatEvent::Body(document.into_bytes())
}

fn history(state: &AppState, session: &str) -> Vec<String> {
    match get_chat_history(state, session.to_string()) {
        Lookup::Ready(response) => {
            assert_eq!(response.session_id, session);
            response.messages
        }
        Lookup::Query(statement) => panic!("{}", statement.sql),
    }
}

fn row(user: &str, bot: &str) -> ChatMessage {
    ChatMessage {
        id: Some(1),
        session_id: "s".to_string(),
        user_message: user.to_string(),
        bot_reply: bot.to_string(),
        timestamp: Timestamp { seconds: 0, nanos: 0 },
    }
}

#[test]
fn replies_in_documents() {
    let text = |document: &str| reply_text(&decode(document.as_bytes()).unwrap());
    assert_eq!(text("{\"choices\":[{\"message\":{\"content\":\"hi\\u00e9\"}}]}"), "hié");
    assert_eq!(text("{\"choices\":[{\"message\":{\"content\":\"\"}}]}"), "");
    assert_eq!(
        text("{\"id\":1,\"choices\":[{\"message\":{\"role\":\"x\",\"content\":\"a\"}},{\"message\":{\"content\":\"b\"}}]}"),
        "a"
    );
    for document in [
        "{}",
        "[]",
        "null",
        "true",
        "\"choices\"",
        "{\"choices\":[]}",
        "{\"choices\":{}}",
        "{\"choices\":[{}]}",
        "{\"choices\":[{\"message\":null}]}",
        "{\"choices\":[{\"message\":{\"content\":null}}]}",
        "{\"choices\":[{\"message\":{\"content\":1.5}}]}",
        "{\"choices\":[{\"message\":{\"content\":[\"x\"]}}]}",
    ] {
        assert_eq!(text(document), "(no content)");
    }
}

#[test]
fn documents_are_taken_apart() {
    assert!(decode(b"{").is_none());
    assert!(decode(b"").is_none());
    assert!(decode(&[0xff]).is_none());
    assert!(decode(b"{} x").is_none());
    assert!(matches!(decode(b"null"), Some(Json::Null)));
    assert!(matches!(decode(b" true "), Some(Json::Bool(true))));
    match decode(b"-12") {
        Some(Json::Number(n)) => assert_eq!(n, "-12"),
        other => panic!("{other:?}"),
    }
    match decode(b"[1,\"a\"]") {
        Some(Json::Array(items)) => {
            assert_eq!(items.len(), 2);
            assert_eq!(items[1].text(), Some("a".to_string()));
        }
        other => panic!("{other:?}"),
    }
    let document = decode(b"{\"a\":{\"b\":false}}").unwrap();
    assert!(matches!(document.field("a").unwrap().field("b"), Some(Json::Bool(false))));
    assert!(document.field("b").is_none());
    assert!(document.first().is_none());
    assert!(document.text().is_none());
}

#[test]
fn a_prompt_tells_asks_and_remembers() {
    let pairs = vec![("a".to_string(), "b".to_string()), ("c".to_string(), "d".to_string())];
    let prompt = build_prompt(&pairs, "e");
    let shown: Vec<String> = prompt
        .iter()
        .map(|message| match message {
            PromptMessage::System(s) => format!("system {s}"),
            PromptMessage::User(s) => format!("user {s}"),
            PromptMessage::Assistant(s) => format!("assistant {s}"),
        })
        .collect();
    assert_eq!(
        shown,
        vec![
            "system You are an AI assistant. Answer as helpfully and concisely as possible.",
            "user a",
            "assistant b",
            "user c",
            "assistant d",
            "user e",
        ]
    );
}

fn field<'a>(value: &'a serde_json::Value, key: &str) -> &'a serde_json::Value {
    value.get(key).unwrap()
}

#[test]
fn a_prompt_becomes_the_body_of_a_request() {
    let pairs = vec![("a".to_string(), "b \"x\"".to_string())];
    let body = encode_prompt("the model", &build_prompt(&pairs, "e")).unwrap();
    let value: serde_json::Value = serde_json::from_slice(&body).unwrap();
    assert_eq!(field(&value, "model").as_str(), Some("the model"));
    assert_eq!(field(&value, "stream").as_bool(), Some(false));
    let messages = field(&value, "messages").as_array().unwrap();
    let shown: Vec<(&str, &str)> = messages
        .iter()
        .map(|m| (field(m, "role").as_str().unwrap(), field(m, "content").as_str().unwrap()))
        .collect();
    assert_eq!(
        shown,
        vec![
            (
                "system",
                "You are an AI assistant. Answer as helpfully and concisely as possible."
            ),
            ("user", "a"),
            ("assistant", "b \"x\""),
            ("user", "e"),
        ]
    );
    let request: endpoints::chat::ChatCompletionRequest = serde_json::from_slice(&body).unwrap();
    assert_eq!(request.messages.len(), 4);
    assert_eq!(request.temperature, Some(0.8));
}

#[test]
fn the_model_of_a_conversation() {
    let mut state = state();
    register(&mut state, "http://a", None);
    let ask = |state: &mut AppState, model: Option<&str>| {
        let mut payload = request("s", "hi");
        payload.model = model.map(|m| m.to_string());
        handle_response(state, None, payload)
    };
    let refused = ask(&mut state, None).unwrap_err();
    assert_eq!(refused.message(), "No chat model registered");
    let model = |id: &str| Model {
        id: id.to_string(),
        created: 0,
        object: "model".to_string(),
        owned_by: "x".to_string(),
    };
    state.models.insert("first".to_string(), vec![]);
    state.models.insert("second".to_string(), vec![model("m1"), model("m2")]);
    state.models.insert("third".to_string(), vec![model("m3")]);
    assert_eq!(ask(&mut state, None).unwrap().0.model, "m1");
    assert_eq!(ask(&mut state, Some("other")).unwrap().0.model, "other");
}

#[test]
fn no_server_to_ask() {
    let mut state = state();
    let refused = handle_response(&mut state, None, request("s", "hi")).unwrap_err();
    assert_eq!(refused.message(), "No chat server available");
    register(&mut state, "http://a", None);
    assert!(state.unregister_downstream_server("chat-server-http://a").is_ok());
    let refused = handle_response(&mut state, None, request("s", "hi")).unwrap_err();
    assert_eq!(
        refused.message(),
        "Failed to acquire chat server: no server registered for chat"
    );
    assert!(history(&state, "s").is_empty());
}

#[test]
fn servers_take_turns_and_slashes_make_no_difference() {
    let mut state = state();
    register(&mut state, "http://a//", None);
    register(&mut state, "http://b", None);
    let urls: Vec<String> =
        (0..3).map(|_| sent(begin(&mut state, "s", "hi").1).0).collect();
    assert_eq!(
        urls,
        vec![
            "http://a/chat/completions",
            "http://b/chat/completions",
            "http://a/chat/completions",
        ]
    );
}

#[test]
fn the_authorization_of_a_request() {
    for (key, incoming, expected) in [
        (Some("Bearer k"), Some("i"), Some("Bearer k")),
        (Some(""), Some("i"), None),
        (None, Some("i"), Some("i")),
        (None, None, None),
    ] {
        let mut state = state();
        register(&mut state, "http://a", key);
        let incoming = incoming.map(|s: &str| s.to_string());
        let (_, action) = handle_response(&mut state, incoming, request("s", "hi")).unwrap();
        assert_eq!(sent(action).1, expected.map(|s: &str| s.to_string()));
    }
}

#[test]
fn a_conversation_in_memory_goes_on() {
    let mut state = state();
    register(&mut state, "http://a", None);
    let (mut exchange, action) = begin(&mut state, "s", "hi");
    let first = sent(action).2;
    assert!(matches!(exchange.advance(&mut state, ChatEvent::Responded(200)), ChatAction::ReadBody));
    assert_eq!(reply(exchange.advance(&mut state, answer("hello"))), "hello");
    assert_eq!(history(&state, "s"), vec!["User: hi", "Bot: hello"]);
    assert!(history(&state, "t").is_empty());
    let second = sent(begin(&mut state, "s", "and?").1).2;
    let count = |body: &str| {
        let value: serde_json::Value = serde_json::from_str(body).unwrap();
        field(&value, "messages").as_array().unwrap().len()
    };
    assert_eq!(count(&first), 2);
    assert_eq!(count(&second), 4);
    assert!(second.contains("\"hello\""));
    match get_all_sessions(&state) {
        Lookup::Ready(response) => assert_eq!(response.sessions, vec!["s"]),
        Lookup::Query(statement) => panic!("{}", statement.sql),
    }
    assert!(matches!(exchange.advance(&mut state, ChatEvent::Saved), ChatAction::Unexpected));
}

#[test]
fn a_conversation_in_a_database_goes_on() {
    let mut state = database_state();
    register(&mut state, "http://a", None);
    let (mut exchange, action) = begin(&mut state, "s", "hi");
    match action {
        ChatAction::Query(statement) => assert!(statement.sql.starts_with("SELECT id, ")),
        other => panic!("{other:?}"),
    }
    let action = exchange.advance(&mut state, ChatEvent::Rows(vec![row("before", "then")]));
    assert!(sent(action).2.contains("\"before\""));
    exchange.advance(&mut state, ChatEvent::Responded(201));
    match exchange.advance(&mut state, answer("hello")) {
        ChatAction::Save(statement) => assert!(statement.sql.starts_with("INSERT INTO ")),
        other => panic!("{other:?}"),
    }
    assert_eq!(reply(exchange.advance(&mut state, ChatEvent::NotSaved)), "hello");
    let (mut exchange, _) = begin(&mut state, "s", "hi");
    assert!(!sent(exchange.advance(&mut state, ChatEvent::NoRows)).2.contains("\"before\""));
    exchange.advance(&mut state, ChatEvent::Responded(200));
    exchange.advance(&mut state, answer("again"));
    assert_eq!(reply(exchange.advance(&mut state, ChatEvent::Saved)), "again");
}

#[test]
fn a_database_without_a_server() {
    let mut state = database_state();
    let (mut exchange, _) = begin(&mut state, "s", "hi");
    let action = exchange.advance(&mut state, ChatEvent::NoRows);
    assert_eq!(failure(action), "No chat server available");
}

#[test]
fn exchanges_that_fail_keep_nothing() {
    let mut state = state();
    register(&mut state, "http://a", None);

    let (mut exchange, _) = begin(&mut state, "s", "hi");
    let action = exchange.advance(&mut state, ChatEvent::SendFailed("refused".to_string()));
    assert_eq!(failure(action), "Downstream request failed: refused");

    let (mut exchange, _) = begin(&mut state, "s", "hi");
    assert!(matches!(exchange.advance(&mut state, ChatEvent::Responded(404)), ChatAction::ReadText));
    let action = exchange.advance(&mut state, ChatEvent::Text(Some("gone".to_string())));
    assert_eq!(failure(action), "Downstream chat error 404 Not Found: gone");

    for (status, text) in [
        (199, "199 <unknown status code>"),
        (300, "300 Multiple Choices"),
        (503, "503 Service Unavailable"),
        (999, "999 <unknown status code>"),
    ] {
        let (mut exchange, _) = begin(&mut state, "s", "hi");
        exchange.advance(&mut state, ChatEvent::Responded(status));
        let action = exchange.advance(&mut state, ChatEvent::Text(None));
        assert_eq!(failure(action), format!("Downstream chat error {text}: "));
    }

    let (mut exchange, _) = begin(&mut state, "s", "hi");
    exchange.advance(&mut state, ChatEvent::Responded(299));
    let action = exchange.advance(&mut state, ChatEvent::BodyFailed("cut".to_string()));
    assert_eq!(failure(action), "Failed to parse downstream response JSON: cut");

    let (mut exchange, _) = begin(&mut state, "s", "hi");
    exchange.advance(&mut state, ChatEvent::Responded(200));
    let action = exchange.advance(&mut state, ChatEvent::Body(b"{".to_vec()));
    assert_eq!(
        failure(action),
        "Failed to parse downstream response JSON: error decoding response body"
    );

    assert!(history(&state, "s").is_empty());
}

#[test]
fn an_event_out_of_turn_changes_nothing() {
    let mut state = state();
    register(&mut state, "http://a", None);
    let (mut exchange, _) = begin(&mut state, "s", "hi");
    for event in [
        ChatEvent::NoRows,
        ChatEvent::Rows(vec![]),
        ChatEvent::Text(None),
        answer("x"),
        ChatEvent::BodyFailed("x".to_string()),
        ChatEvent::Saved,
        ChatEvent::NotSaved,
    ] {
        assert!(matches!(exchange.advance(&mut state, event), ChatAction::Unexpected));
    }
    assert!(matches!(exchange.conclude(&mut state, None), ChatAction::Unexpected));
    exchange.advance(&mut state, ChatEvent::Responded(200));
    assert!(matches!(
        exchange.advance(&mut state, ChatEvent::Responded(200)),
        ChatAction::Unexpected
    ));
    assert_eq!(reply(exchange.advance(&mut state, ChatEvent::Body(b"{}".to_vec()))), "(no content)");
}

#[test]
fn looking_back_with_a_database() {
    let state = database_state();
    assert!(matches!(get_chat_history(&state, "s".to_string()), Lookup::Query(_)));
    assert!(matches!(get_all_sessions(&state), Lookup::Query(_)));
    let response = chat_history_from("s".to_string(), Some(vec![row("a", "b")])).unwrap();
    assert_eq!(response.session_id, "s");
    assert_eq!(response.messages, vec!["User: a", "Bot: b"]);
    assert_eq!(chat_history_from("s".to_string(), None).unwrap_err(), 500);
    assert_eq!(sessions_from(Some(vec!["s".to_string()])).unwrap().sessions, vec!["s"]);
    assert_eq!(sessions_from(None).unwrap_err(), 500);
}
