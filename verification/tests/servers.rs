use llama_nexus::config::{Config, InlineModelConfig, RagConfig};
use llama_nexus::health::{check_interval, unhealthy_ids, HealthTarget};
use llama_nexus::inline::bearer_key;
use llama_nexus::clock::Timestamp;
use llama_nexus::server::{kinds_of_id, Server, ServerGroup, ServerKind, ServiceKind};
use llama_nexus::state::{AppState, ServerInfo};
use llama_nexus::table::Table;

fn state() -> AppState {
    AppState::new(Config::default(), ServerInfo { servers: Table::new() })
}

fn kind(names: &[&str]) -> ServerKind {
    ServerKind {
        chat: names.contains(&"chat"),
        embeddings: names.contains(&"embeddings"),
        image: names.contains(&"image"),
        tts: names.contains(&"tts"),
        translate: names.contains(&"translate"),
        transcribe: names.contains(&"transcribe"),
    }
}

fn server(names: &[&str], url: &str, unique: &str) -> Server {
    Server::new(kind(names), url.to_string(), None, unique)
}

fn ids(state: &AppState, kind: ServiceKind) -> Vec<String> {
    state
        .list_downstream_servers()
        .iter()
        .filter(|entry| entry.0 == kind)
        .flat_map(|entry| entry.1.iter().map(|server| server.id.clone()))
        .collect()
}

#[test]
fn names_of_services() {
    for name in ["chat", "embeddings", "image", "tts", "translate", "transcribe"] {
        assert_eq!(ServiceKind::from_name(name).unwrap().name(), name);
        assert_eq!(ServerKind::from_str(name), Some(kind(&[name])));
    }
    assert_eq!(ServerKind::from_str("Chat"), None);
    assert_eq!(ServerKind::from_str(""), None);
}

#[test]
fn an_id_names_the_services() {
    let server = server(&["tts", "chat"], "http://a", "7-server-8");
    assert_eq!(server.id, "chat-tts-server-7-server-8");
    assert_eq!(kinds_of_id(&server.id), Some(vec![ServiceKind::Chat, ServiceKind::Tts]));
    assert_eq!(kinds_of_id("chat-video-server-1"), None);
    assert_eq!(kinds_of_id(""), None);
}

#[test]
fn servers_of_a_group_take_turns() {
    let mut group = ServerGroup::new(ServiceKind::Chat);
    let refused = group.next().unwrap_err();
    assert_eq!(refused.message(), "no server registered for chat");
    group.register(server(&["chat"], "http://a", "1"));
    group.register(server(&["chat"], "http://b", "2"));
    let urls: Vec<String> = (0..3).map(|_| group.next().unwrap().url).collect();
    assert_eq!(urls, vec!["http://a", "http://b", "http://a"]);
    group.unregister("chat-server-1");
    assert_eq!(group.ids(), vec!["chat-server-2"]);
    assert_eq!(group.next().unwrap().url, "http://b");
    assert_eq!(group.next().unwrap().url, "http://b");
}

#[test]
fn a_server_is_registered_behind_each_of_its_services() {
    let mut state = state();
    state.register_downstream_server(server(&["chat", "image"], "http://a", "1"));
    state.register_downstream_server(server(&["chat"], "http://b", "2"));
    assert_eq!(ids(&state, ServiceKind::Chat), vec!["chat-image-server-1", "chat-server-2"]);
    assert_eq!(ids(&state, ServiceKind::Image), vec!["chat-image-server-1"]);
    assert_eq!(state.list_downstream_servers().len(), 2);
}

#[test]
fn a_server_that_offers_everything() {
    let mut state = state();
    let all = ["chat", "embeddings", "image", "tts", "translate", "transcribe"];
    state.register_downstream_server(server(&all, "http://a", "1"));
    assert_eq!(state.list_downstream_servers().len(), 6);
    let id = "chat-embeddings-image-tts-translate-transcribe-server-1";
    assert!(state.unregister_downstream_server(id).is_ok());
    assert_eq!(state.list_downstream_servers().len(), 0);
}

#[test]
fn taking_a_server_out_undoes_registering_it() {
    let mut state = state();
    state.register_downstream_server(server(&["chat"], "http://b", "2"));
    state.register_downstream_server(server(&["chat", "image"], "http://a", "1"));
    state.server_info.servers.insert("chat-image-server-1".to_string(), "info".to_string());
    assert!(state.unregister_downstream_server("chat-image-server-1").is_ok());
    assert_eq!(ids(&state, ServiceKind::Chat), vec!["chat-server-2"]);
    assert!(ids(&state, ServiceKind::Image).is_empty());
    assert_eq!(state.server_info.servers.len(), 0);
}

#[test]
fn an_unknown_server_is_not_found() {
    let mut state = state();
    let refused = state.unregister_downstream_server("chat-server-1").unwrap_err();
    assert_eq!(refused.message(), "Server chat-server-1 not found");
    state.register_downstream_server(server(&["chat"], "http://b", "2"));
    // A group of the service is all that is asked for.
    assert!(state.unregister_downstream_server("chat-server-1").is_ok());
    assert_eq!(ids(&state, ServiceKind::Chat), vec!["chat-server-2"]);
}

#[test]
fn an_emptied_group_is_not_listed_but_still_known() {
    let mut state = state();
    state.register_downstream_server(server(&["tts"], "http://b", "2"));
    assert!(state.unregister_downstream_server("tts-server-2").is_ok());
    assert!(state.list_downstream_servers().is_empty());
    assert!(state.unregister_downstream_server("tts-server-2").is_ok());
}

fn names(targets: &[HealthTarget]) -> Vec<(&str, &str)> {
    targets.iter().map(|target| (target.id.as_str(), target.url.as_str())).collect()
}

#[test]
fn each_server_is_checked_once() {
    let mut state = state();
    assert!(state.health_targets().is_none());
    state.register_downstream_server(server(&["chat", "image"], "http://a", "1"));
    state.register_downstream_server(server(&["chat"], "http://b", "2"));
    state.register_downstream_server(server(&["tts"], "http://a", "3"));
    let targets = state.health_targets().unwrap();
    assert_eq!(
        names(&targets),
        vec![("chat-image-server-1", "http://a"), ("chat-server-2", "http://b")]
    );
}

fn checked(state: &AppState) -> Vec<String> {
    state.health_targets().unwrap().into_iter().map(|target| target.id).collect()
}

#[test]
fn an_url_that_reads_as_an_id_is_checked() {
    let mut state = state();
    state.register_downstream_server(server(&["chat"], "http://a", "1"));
    state.register_downstream_server(server(&["chat"], "chat-server-1", "2"));
    assert_eq!(checked(&state), vec!["chat-server-1", "chat-server-2"]);
}

#[test]
fn servers_of_one_service_at_one_url_are_all_checked() {
    let mut one = state();
    one.register_downstream_server(server(&["tts"], "http://a", "1"));
    one.register_downstream_server(server(&["chat"], "http://a", "2"));
    one.register_downstream_server(server(&["chat", "image"], "http://a", "3"));
    assert_eq!(checked(&one), vec!["chat-server-2", "chat-image-server-3"]);
    let mut two = state();
    two.register_downstream_server(server(&["tts"], "http://a", "1"));
    two.register_downstream_server(server(&["chat", "image"], "http://a", "2"));
    two.register_downstream_server(server(&["chat"], "http://b", "3"));
    assert_eq!(checked(&two), vec!["tts-server-1", "chat-server-3"]);
}

#[test]
fn bad_outcomes_name_the_servers_that_are_not_well() {
    let mut state = state();
    state.register_downstream_server(server(&["chat"], "http://a", "1"));
    state.register_downstream_server(server(&["chat"], "http://b", "2"));
    state.register_downstream_server(server(&["tts"], "http://c", "3"));
    let targets = state.health_targets().unwrap();
    let unwell = unhealthy_ids(&targets, &vec![false, true, false]);
    assert_eq!(unwell, vec!["chat-server-1", "tts-server-3"]);
    assert!(unhealthy_ids(&targets, &vec![true, true, true]).is_empty());
    assert!(state.drop_unhealthy(&unwell).is_ok());
    assert_eq!(ids(&state, ServiceKind::Chat), vec!["chat-server-2"]);
    assert!(ids(&state, ServiceKind::Tts).is_empty());
}

#[test]
fn seconds_between_health_checks() {
    assert_eq!(check_interval(None), 60);
    assert_eq!(check_interval(Some(5)), 5);
}

#[test]
fn registering_keeps_the_turn() {
    let mut state = state();
    state.register_downstream_server(server(&["chat"], "http://a", "1"));
    state.register_downstream_server(server(&["chat"], "http://b", "2"));
    assert_eq!(state.acquire_chat_server().unwrap().url, "http://a");
    state.register_downstream_server(server(&["chat", "tts"], "http://c", "3"));
    assert_eq!(state.acquire_chat_server().unwrap().url, "http://b");
    assert!(state.unregister_downstream_server("chat-server-1").is_ok());
    assert_eq!(state.server_group[0].cursor, 2);
}

#[test]
fn servers_that_are_not_well_are_taken_out_and_the_others_reported() {
    let mut state = state();
    state.config.server_health_push_url = Some("http://push".to_string());
    state.config.rag = Some(RagConfig::from_written(true, "system-message", 1).unwrap());
    state.register_downstream_server(server(&["chat", "image"], "http://a", "1"));
    state.register_downstream_server(server(&["chat"], "http://b", "2"));
    let unhealthy = vec!["chat-image-server-1".to_string()];
    let report = state.check_server_health(&unhealthy).unwrap().unwrap();
    assert_eq!(report.push_url, "http://push");
    assert!(report.rag);
    assert_eq!(report.servers.len(), 2);
    assert_eq!(report.servers[0], (ServiceKind::Chat, vec!["chat-server-2".to_string()]));
    assert_eq!(report.servers[1], (ServiceKind::Image, vec![]));
}

#[test]
fn a_health_check_without_servers_or_without_an_url() {
    let mut state = state();
    assert!(state.check_server_health(&vec![]).unwrap().is_none());
    state.register_downstream_server(server(&["chat"], "http://b", "2"));
    assert!(state.check_server_health(&vec![]).unwrap().is_none());
    let unhealthy = vec!["chat-server-2".to_string(), "tts-server-1".to_string()];
    let refused = state.check_server_health(&unhealthy).unwrap_err();
    assert_eq!(refused.message(), "Server tts-server-1 not found");
    assert!(ids(&state, ServiceKind::Chat).is_empty());
}

fn inline(id: &str, kind: &str, api_key: Option<&str>) -> InlineModelConfig {
    InlineModelConfig {
        id: id.to_string(),
        kind: kind.to_string(),
        url: "http://m".to_string(),
        api_key: api_key.map(|key| key.to_string()),
    }
}

#[test]
fn the_word_bearer_stands_once() {
    assert_eq!(bearer_key("abc"), "Bearer abc");
    assert_eq!(bearer_key("Bearer abc"), "Bearer abc");
    assert_eq!(bearer_key(&bearer_key("abc")), "Bearer abc");
    assert_eq!(bearer_key("Bearerabc"), "Bearer Bearerabc");
}

#[test]
fn a_model_of_the_settings_is_registered() {
    let mut state = state();
    let now = Timestamp { seconds: 1_700_000_000, nanos: 5 };
    let id = state.register_inline_model(&inline("m1", "chat", Some("abc")), "u", now);
    assert_eq!(id, Some("chat-server-u".to_string()));
    let listed = state.list_downstream_servers();
    assert_eq!(listed[0].1[0].url, "http://m");
    assert_eq!(listed[0].1[0].api_key, Some("Bearer abc".to_string()));
    let models = state.models.get("chat-server-u").unwrap();
    assert_eq!(models.len(), 1);
    assert_eq!(models[0].id, "m1");
    assert_eq!(models[0].created, 1_700_000_000);
    assert_eq!(models[0].object, "model");
    assert_eq!(models[0].owned_by, "inline");
}

#[test]
fn a_model_of_an_unknown_kind_is_passed_over() {
    let mut state = state();
    let now = Timestamp { seconds: 0, nanos: 0 };
    assert_eq!(state.register_inline_model(&inline("m1", "video", None), "u", now), None);
    assert!(state.list_downstream_servers().is_empty());
    assert_eq!(state.models.len(), 0);
}

#[test]
fn all_models_of_the_settings_are_registered_under_identifiers_of_their_own() {
    let mut state = state();
    state.config.models =
        vec![inline("m1", "chat", None), inline("x", "video", None), inline("m2", "chat", None)];
    state.register_inline_models();
    let ids = ids(&state, ServiceKind::Chat);
    assert_eq!(ids.len(), 2);
    assert_ne!(ids[0], ids[1]);
    assert_eq!(ids[0].len(), "chat-server-".len() + 36);
    let unique: Vec<char> = ids[0]["chat-server-".len()..].chars().collect();
    for (i, c) in unique.iter().enumerate() {
        if i == 8 || i == 13 || i == 18 || i == 23 {
            assert_eq!(*c, '-');
        } else {
            assert!(c.is_ascii_digit() || ('a'..='f').contains(c));
        }
    }
    assert_eq!(state.models.get(&ids[1]).unwrap()[0].id, "m2");
    assert!(state.models.get(&ids[1]).unwrap()[0].created > 1_600_000_000);
    assert!(state.unregister_downstream_server(&ids[0]).is_ok());
    assert!(state.models.get(&ids[0]).is_none());
}
