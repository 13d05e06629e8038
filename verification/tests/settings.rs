use llama_nexus::config::{
    load_failure, Config, ConfigSource, LoadProgress, McpConfig, McpServerConfig,
    MergeRagContextPolicy, RagConfig,
};
use llama_nexus::error::ServerError;
use llama_nexus::logging::{check_log_arguments, get_log_level, init_logging, LogLevel, LogPlan};
use llama_nexus::mcp::{
    McpCall, McpConnection, McpEvent, McpProgress, McpRegistry, McpTool, McpToolServerConfig,
    McpTransport, CALLBACK_PORT,
};

fn tool_server(name: &str, transport: McpTransport, url: &str) -> McpToolServerConfig {
    McpToolServerConfig {
        name: name.to_string(),
        transport,
        url: Some(url.to_string()),
        oauth_url: None,
        enable: true,
        tools: None,
        fallback_message: Some("busy".to_string()),
    }
}

fn oauth_server(transport: McpTransport) -> McpToolServerConfig {
    let mut server = tool_server("o", transport, "");
    server.url = None;
    server.oauth_url = Some("http://o/x//".to_string());
    server
}

fn tool(name: &str) -> McpTool {
    McpTool { name: name.to_string(), description: None, definition: "{}".to_string() }
}

fn config(servers: Vec<McpToolServerConfig>) -> Config {
    let mut config = Config::default();
    config.mcp = Some(McpConfig { server: McpServerConfig { tool_servers: servers } });
    config
}

fn message(e: ServerError) -> String {
    match e {
        ServerError::Operation(m) => format!("operation: {m}"),
        ServerError::McpOperation(m) => format!("mcp: {m}"),
        ServerError::FailedToLoadConfig(m) => format!("config: {m}"),
    }
}

fn refusal(server: &McpToolServerConfig) -> String {
    message(server.connect_mcp_server().unwrap_err())
}

fn begin(server: &McpToolServerConfig) -> (McpConnection, McpCall) {
    server.connect_mcp_server().unwrap().unwrap()
}

fn call(progress: McpProgress) -> McpCall {
    match progress {
        McpProgress::Call(call) => call,
        other => panic!("{other:?}"),
    }
}

fn failed(progress: McpProgress) -> String {
    match progress {
        McpProgress::Failed(e) => message(e),
        other => panic!("{other:?}"),
    }
}

fn printed(progress: McpProgress) -> String {
    match call(progress) {
        McpCall::Print(text) => text,
        other => panic!("{other:?}"),
    }
}

#[test]
fn settings_where_none_are_given() {
    let config = Config::default();
    assert_eq!(config.server.host, "127.0.0.1");
    assert_eq!(config.server.port, 8080);
    assert!(config.rag.is_none() && config.mcp.is_none() && config.models.is_empty());
    assert!(config.server_info_push_url.is_none() && config.server_health_push_url.is_none());
}

#[test]
fn settings_of_retrieval() {
    let rag = RagConfig::from_written(true, "System-MESSAGE", 3).unwrap();
    assert_eq!(rag.policy, MergeRagContextPolicy::SystemMessage);
    assert!(rag.enable && rag.prompt.is_none());
    assert_eq!(rag.context_window, 3);
    let rag = RagConfig::from_written(false, "last-user-message", 0).unwrap();
    assert_eq!(rag.policy, MergeRagContextPolicy::LastUserMessage);
    assert_eq!(RagConfig::from_written(true, "first", 1).unwrap_err(), "invalid variant: first");
    assert_eq!(
        RagConfig::from_written(true, "system_message", 1).unwrap_err(),
        "invalid variant: system_message"
    );
}

#[test]
fn a_file_that_cannot_be_read_or_holds_no_settings() {
    let e = Config::load(ConfigSource::Unreadable("gone".to_string())).unwrap_err();
    assert_eq!(
        message(load_failure(&e)),
        "config: Failed to load config: Failed to build config: gone"
    );
    assert_eq!(message(e), "operation: Failed to build config: gone");
    let e = Config::load(ConfigSource::Malformed("no server".to_string())).unwrap_err();
    assert_eq!(message(e), "operation: Failed to deserialize config: no server");
}

#[test]
fn settings_without_tool_servers_are_loaded_at_once() {
    let (load, progress) = Config::load(ConfigSource::Read(Config::default())).unwrap();
    assert!(matches!(progress, LoadProgress::Loaded));
    assert!(load.config.mcp.is_none());
    let mut disabled = tool_server("a", McpTransport::Stdio, "");
    disabled.enable = false;
    let (_, progress) = Config::load(ConfigSource::Read(config(vec![disabled]))).unwrap();
    assert!(matches!(progress, LoadProgress::Loaded));
}

#[test]
fn tool_servers_are_connected_one_after_another() {
    let mut disabled = tool_server("b", McpTransport::Sse, "nowhere");
    disabled.enable = false;
    let servers = vec![
        tool_server("a", McpTransport::StreamHttp, "http://a/mcp/"),
        disabled,
        tool_server("c", McpTransport::Sse, "http://c/sse"),
    ];
    let mut registry = McpRegistry::new();
    let (mut load, progress) = Config::load(ConfigSource::Read(config(servers))).unwrap();
    match progress {
        LoadProgress::Call(McpCall::Serve { transport, url, authorized }) => {
            assert_eq!(transport, McpTransport::StreamHttp);
            assert_eq!(url, "http://a/mcp");
            assert!(!authorized);
        }
        other => panic!("{other:?}"),
    }
    let progress = load.advance(McpEvent::Done, &mut registry);
    assert!(matches!(progress, LoadProgress::Call(McpCall::ListTools)));
    let progress = load.advance(McpEvent::Done, &mut registry);
    assert!(matches!(progress, LoadProgress::Unexpected));
    let progress = load.advance(McpEvent::Tools(vec![tool("x"), tool("y")]), &mut registry);
    match progress {
        LoadProgress::Call(McpCall::OpenStream { url, authorized }) => {
            assert_eq!(url, "http://c/sse");
            assert!(!authorized);
        }
        other => panic!("{other:?}"),
    }
    assert_eq!(registry.tools.get("x"), Some(&"a".to_string()));
    let progress = load.advance(McpEvent::Done, &mut registry);
    assert!(matches!(progress, LoadProgress::Call(McpCall::Serve { .. })));
    let progress = load.advance(McpEvent::Done, &mut registry);
    assert!(matches!(progress, LoadProgress::Call(McpCall::ListTools)));
    let progress = load.advance(McpEvent::Tools(vec![tool("y")]), &mut registry);
    assert!(matches!(progress, LoadProgress::Loaded));
    assert_eq!(registry.tools.get("x"), Some(&"a".to_string()));
    assert_eq!(registry.tools.get("y"), Some(&"c".to_string()));
    let service = registry.services.get("a").unwrap();
    assert_eq!(service.tools, vec!["x", "y"]);
    assert_eq!(service.fallback_message, Some("busy".to_string()));
    assert_eq!(registry.services.len(), 2);
    let servers = &load.config.mcp.as_ref().unwrap().server.tool_servers;
    assert_eq!(servers[0].tools.as_ref().unwrap().len(), 2);
    assert!(servers[1].tools.is_none());
    assert_eq!(servers[2].tools.as_ref().unwrap().len(), 1);
    let progress = load.advance(McpEvent::Done, &mut registry);
    assert!(matches!(progress, LoadProgress::Unexpected));
}

#[test]
fn a_later_tool_server_of_the_same_name_wins() {
    let mut later = tool_server("a", McpTransport::StreamHttp, "http://b/mcp");
    later.fallback_message = None;
    let servers = vec![tool_server("a", McpTransport::StreamHttp, "http://a/mcp"), later];
    let mut registry = McpRegistry::new();
    let (mut load, _) = Config::load(ConfigSource::Read(config(servers))).unwrap();
    load.advance(McpEvent::Done, &mut registry);
    // A failure leaves the connection where it is.
    load.advance(McpEvent::Failed("no".to_string()), &mut registry);
    load.advance(McpEvent::Tools(vec![tool("x")]), &mut registry);
    load.advance(McpEvent::Done, &mut registry);
    let progress = load.advance(McpEvent::Tools(vec![tool("y"), tool("z")]), &mut registry);
    assert!(matches!(progress, LoadProgress::Loaded));
    assert_eq!(registry.services.len(), 1);
    let service = registry.services.get("a").unwrap();
    assert_eq!(service.tools, vec!["y", "z"]);
    assert_eq!(service.fallback_message, None);
    assert_eq!(registry.tools.get("x"), Some(&"a".to_string()));
    let servers = &load.config.mcp.as_ref().unwrap().server.tool_servers;
    assert_eq!(servers[0].tools.as_ref().unwrap()[0].name, "x");
    assert_eq!(servers[1].tools.as_ref().unwrap().len(), 2);
}

#[test]
fn the_first_tool_server_that_fails_ends_the_loading() {
    let servers = vec![
        tool_server("a", McpTransport::StreamHttp, "http://a/mcp"),
        tool_server("c", McpTransport::Sse, "http://c/mcp"),
    ];
    let mut registry = McpRegistry::new();
    let (mut load, _) = Config::load(ConfigSource::Read(config(servers))).unwrap();
    load.advance(McpEvent::Done, &mut registry);
    match load.advance(McpEvent::Tools(vec![]), &mut registry) {
        LoadProgress::Failed(e) => assert_eq!(
            message(e),
            "operation: Invalid mcp tools sse URL: http://c/mcp. The correct format should end with `/sse`"
        ),
        other => panic!("{other:?}"),
    }
}

#[test]
fn addresses_of_tool_servers() {
    let mut both = tool_server("a", McpTransport::Sse, "http://a/sse");
    both.oauth_url = Some("http://b".to_string());
    assert_eq!(
        refusal(&both),
        "operation: Invalid configuration for mcp server 'a': Both url and oauth_url cannot be set at the same time"
    );
    let mut none = tool_server("a", McpTransport::Sse, "");
    none.url = None;
    assert_eq!(
        refusal(&none),
        "operation: Invalid configuration for mcp server 'a': Either url or oauth_url must be set"
    );
    assert_eq!(
        refusal(&tool_server("a", McpTransport::StreamHttp, "http://a/sse/")),
        "operation: Invalid mcp tools stream-http URL: http://a/sse. The correct format should end with `/mcp`"
    );
    assert_eq!(
        refusal(&tool_server("a", McpTransport::Stdio, "http://a/mcp")),
        "operation: Unsupported transport: stdio"
    );
    both.enable = false;
    assert!(both.connect_mcp_server().unwrap().is_none());
}

#[test]
fn failures_of_a_plain_connection() {
    let (mut sse, _) = begin(&tool_server("a", McpTransport::Sse, "http://a/sse/"));
    assert_eq!(
        failed(sse.advance(McpEvent::Failed("no".to_string()))),
        "mcp: Failed to create sse transport: no"
    );
    sse.advance(McpEvent::Done);
    assert_eq!(
        failed(sse.advance(McpEvent::Failed("no".to_string()))),
        "mcp: Failed to connect to mcp server (name: a, url: http://a/sse, transport: sse). no. Please check if the mcp server is running."
    );
    let (mut http, _) = begin(&tool_server("b", McpTransport::StreamHttp, "http://a/mcp/"));
    assert_eq!(
        failed(http.advance(McpEvent::Failed("no".to_string()))),
        "mcp: Failed to connect to mcp server (name: b, url: http://a/mcp/, transport: stream-http). no. Please check if the mcp server is running."
    );
    http.advance(McpEvent::Done);
    assert_eq!(
        failed(http.advance(McpEvent::Failed("no".to_string()))),
        "mcp: Failed to list tools: no"
    );
}

#[test]
fn a_connection_with_an_authorization() {
    let (mut c, first) = begin(&oauth_server(McpTransport::Sse));
    match first {
        McpCall::InitializeOauth { url, callback_port } => {
            assert_eq!(url, "http://o/x");
            assert_eq!(callback_port, CALLBACK_PORT);
            assert_eq!(callback_port, 8080);
        }
        other => panic!("{other:?}"),
    }
    let next = call(c.advance(McpEvent::Initialized { unauthorized: true }));
    assert!(matches!(next, McpCall::DiscoverMetadata));
    match call(c.advance(McpEvent::Scopes(Some(vec!["s".to_string()])))) {
        McpCall::StartAuthorization { scopes, redirect_uri } => {
            assert_eq!(scopes, vec!["s"]);
            assert_eq!(redirect_uri, "http://localhost:8080/callback");
        }
        other => panic!("{other:?}"),
    }
    assert_eq!(printed(c.advance(McpEvent::Done)), "\n=== MCP OAuth Client ===\n\n");
    assert_eq!(
        printed(c.advance(McpEvent::Done)),
        "Please open the following URL in your browser to authorize:\n\n"
    );
    assert!(matches!(call(c.advance(McpEvent::Done)), McpCall::GetAuthorizationUrl));
    assert_eq!(printed(c.advance(McpEvent::Text("http://login".to_string()))), "http://login");
    assert_eq!(
        printed(c.advance(McpEvent::Done)),
        "\n\nWaiting for browser callback, please do not close this window...\n"
    );
    assert!(matches!(call(c.advance(McpEvent::Done)), McpCall::Flush));
    assert!(matches!(call(c.advance(McpEvent::Done)), McpCall::AwaitCode));
    match call(c.advance(McpEvent::Text("code".to_string()))) {
        McpCall::HandleCallback { code } => assert_eq!(code, "code"),
        other => panic!("{other:?}"),
    }
    assert_eq!(
        printed(c.advance(McpEvent::Done)),
        "\nAuthorization successful! Access token obtained.\n\n"
    );
    assert!(matches!(call(c.advance(McpEvent::Done)), McpCall::Flush));
    assert!(matches!(call(c.advance(McpEvent::Done)), McpCall::TakeManager));
    assert_eq!(
        failed(c.advance(McpEvent::Failed("why".to_string()))),
        "mcp: Failed to get authorization manager"
    );
    match call(c.advance(McpEvent::Done)) {
        McpCall::OpenStream { url, authorized } => {
            assert_eq!(url, "http://o/x");
            assert!(authorized);
        }
        other => panic!("{other:?}"),
    }
    assert_eq!(
        failed(c.advance(McpEvent::Failed("no".to_string()))),
        "mcp: Failed to create authorized transport: no"
    );
    match call(c.advance(McpEvent::Done)) {
        McpCall::Serve { authorized, .. } => assert!(authorized),
        other => panic!("{other:?}"),
    }
}

#[test]
fn failures_of_an_authorization() {
    let (mut c, _) = begin(&oauth_server(McpTransport::StreamHttp));
    let no = || McpEvent::Failed("no".to_string());
    assert_eq!(failed(c.advance(no())), "mcp: Failed to initialize oauth state machine: no");
    c.advance(McpEvent::Initialized { unauthorized: true });
    assert_eq!(failed(c.advance(no())), "mcp: Failed to discover metadata: no");
    assert_eq!(
        failed(c.advance(McpEvent::Scopes(None))),
        "mcp: Failed to get supported scopes from mcp server"
    );
    c.advance(McpEvent::Scopes(Some(vec![])));
    assert_eq!(failed(c.advance(no())), "mcp: Failed to start authorization: no");
    c.advance(McpEvent::Done);
    assert_eq!(failed(c.advance(no())), "mcp: Failed to write to stdout: no");
    c.advance(McpEvent::Done);
    c.advance(McpEvent::Done);
    assert_eq!(failed(c.advance(no())), "mcp: Failed to get authorization url: no");
    c.advance(McpEvent::Text("u".to_string()));
    c.advance(McpEvent::Done);
    c.advance(McpEvent::Done);
    assert_eq!(failed(c.advance(no())), "mcp: Failed to flush stdout: no");
    c.advance(McpEvent::Done);
    assert_eq!(failed(c.advance(no())), "mcp: Failed to get authorization code: no");
    c.advance(McpEvent::Text("c".to_string()));
    assert_eq!(failed(c.advance(no())), "mcp: Failed to handle callback: no");
    c.advance(McpEvent::Done);
    c.advance(McpEvent::Done);
    c.advance(McpEvent::Done);
    match call(c.advance(McpEvent::Done)) {
        McpCall::Serve { transport, url, authorized } => {
            assert_eq!(transport, McpTransport::StreamHttp);
            assert_eq!(url, "http://o/x");
            assert!(authorized);
        }
        other => panic!("{other:?}"),
    }
    assert_eq!(
        failed(c.advance(no())),
        "mcp: Failed to connect to mcp server (name: o, url: http://o/x, transport: stream-http). no. Please check if the mcp server is running."
    );
}

#[test]
fn a_server_that_has_authorized_us_before() {
    let (mut c, _) = begin(&oauth_server(McpTransport::StreamHttp));
    let text = printed(c.advance(McpEvent::Initialized { unauthorized: false }));
    assert_eq!(text, "\n=== MCP OAuth Client ===\n\n");
    assert!(matches!(c.advance(McpEvent::Tools(vec![])), McpProgress::Unexpected));
}

fn planned(destination: &str, file: &Option<String>) -> Result<LogPlan, ServerError> {
    let mut set = None;
    let plan = init_logging(&mut set, destination, file);
    assert_eq!(set, Some(destination.to_string()));
    plan
}

#[test]
fn where_the_log_goes() {
    let file = Some("a/b.log".to_string());
    assert!(matches!(planned("stdout", &None), Ok(LogPlan::Stdout)));
    assert!(matches!(planned("stdout", &file), Ok(LogPlan::Stdout)));
    match planned("file", &file) {
        Ok(LogPlan::File(path)) => assert_eq!(path, "a/b.log"),
        other => panic!("{other:?}"),
    }
    match planned("both", &file) {
        Ok(LogPlan::Both(path)) => assert_eq!(path, "a/b.log"),
        other => panic!("{other:?}"),
    }
    for destination in ["file", "both"] {
        let checked = check_log_arguments(destination, &None).unwrap_err();
        assert_eq!(message(checked), "operation: Missing log file path");
        let refused = planned(destination, &None).unwrap_err();
        assert_eq!(message(refused), "operation: Missing log file path");
        assert!(check_log_arguments(destination, &file).is_ok());
    }
    assert!(check_log_arguments("syslog", &None).is_ok());
    assert_eq!(
        message(planned("syslog", &None).unwrap_err()),
        "operation: Invalid log destination: syslog. Valid values are 'stdout', 'file', or 'both'"
    );
}

#[test]
fn the_destination_of_the_log_is_set_once() {
    for first in ["stdout", "file", "syslog"] {
        let mut set = None;
        let _ = init_logging(&mut set, first, &None);
        for second in ["stdout", "file", "both", "syslog"] {
            let file = Some("x.log".to_string());
            let refused = init_logging(&mut set, second, &file).unwrap_err();
            assert_eq!(message(refused), "operation: Failed to set log destination");
            assert_eq!(set, Some(first.to_string()));
        }
    }
}

#[test]
fn how_much_is_logged() {
    assert_eq!(get_log_level(Some("trace")), LogLevel::Trace);
    assert_eq!(get_log_level(Some("debug")), LogLevel::Debug);
    assert_eq!(get_log_level(Some("info")), LogLevel::Info);
    assert_eq!(get_log_level(Some("warn")), LogLevel::Warn);
    assert_eq!(get_log_level(Some("error")), LogLevel::Error);
    assert_eq!(get_log_level(Some("WARN")), LogLevel::Info);
    assert_eq!(get_log_level(None), LogLevel::Info);
}
