//! The settings of the gateway, and how they are brought in.
use vstd::prelude::*;

use crate::error::{operation, ErrorView, ServerError};
use crate::mcp::{
    law_tools_are_kept_as_listed, opening, progress, CallView, ConnectionView, EventView, McpCall,
    McpConnection, McpEvent, McpPhase, McpProgress, McpRegistry, McpToolServerConfig, ProgressView,
};
use crate::text::same_but_for_case;

verus! {

/// A model that is set up in the configuration, with the server that serves it.
#[derive(Debug)]
pub struct InlineModelConfig {
    pub id: String,
    pub kind: String,
    pub url: String,
    pub api_key: Option<String>,
}

/// Where the gateway listens.
#[derive(Debug)]
pub struct ServerConfig {
    pub host: String,
    pub port: u16,
}

/// Into which message retrieved context is merged.
#[derive(Clone, Copy, Debug, PartialEq, Eq, Structural)]
pub enum MergeRagContextPolicy {
    SystemMessage,
    LastUserMessage,
}

/// The settings of retrieval.
#[derive(Debug)]
pub struct RagConfig {
    pub enable: bool,
    pub prompt: Option<String>,
    pub policy: MergeRagContextPolicy,
    pub context_window: u64,
}

/// The policy of a name, whatever its case.
pub open spec fn policy_named(name: Seq<char>) -> Option<MergeRagContextPolicy> {
    if same_but_for_case("system-message"@, name) {
        Some(MergeRagContextPolicy::SystemMessage)
    } else if same_but_for_case("last-user-message"@, name) {
        Some(MergeRagContextPolicy::LastUserMessage)
    } else {
        None
    }
}

/// Calls `from_str`, with the case ignored, of `clap::ValueEnum` on
/// `chat_prompts::MergeRagContextPolicy`. The two policies are found by their names in words with
/// hyphens; any other name is given back behind `invalid variant: `.
#[verifier::external_body]
fn parse_policy(name: &str) -> (r: Result<MergeRagContextPolicy, String>)
    ensures
        match r {
            Ok(policy) => policy_named(name@) == Some(policy),
            Err(message) => policy_named(name@) is None && message@ == "invalid variant: "@ + name@,
        },
{
    match <chat_prompts::MergeRagContextPolicy as clap::ValueEnum>::from_str(name, true)? {
        chat_prompts::MergeRagContextPolicy::SystemMessage => Ok(MergeRagContextPolicy::SystemMessage),
        chat_prompts::MergeRagContextPolicy::LastUserMessage => Ok(MergeRagContextPolicy::LastUserMessage),
    }
}

impl RagConfig {
    /// The settings of retrieval as they are written down; the prompt is not among them.
    pub fn from_written(enable: bool, policy: &str, context_window: u64) -> (r: Result<RagConfig, String>)
        ensures
            match r {
                Ok(rag) => policy_named(policy@) == Some(rag.policy) && rag.enable == enable
                    && rag.prompt is None && rag.context_window == context_window,
                Err(message) => policy_named(policy@) is None && message@ == "invalid variant: "@
                    + policy@,
            },
    {
        match parse_policy(policy) {
            Ok(policy) => Ok(RagConfig { enable, prompt: None, policy, context_window }),
            Err(message) => Err(message),
        }
    }
}

/// The tool servers.
#[derive(Debug)]
pub struct McpServerConfig {
    pub tool_servers: Vec<McpToolServerConfig>,
}

/// The settings of the model context protocol.
#[derive(Debug)]
pub struct McpConfig {
    pub server: McpServerConfig,
}

/// The settings of the gateway.
#[derive(Debug)]
pub struct Config {
    pub server: ServerConfig,
    pub rag: Option<RagConfig>,
    pub server_info_push_url: Option<String>,
    pub server_health_push_url: Option<String>,
    pub mcp: Option<McpConfig>,
    pub models: Vec<InlineModelConfig>,
}

impl Default for Config {
    /// The settings where none are given: listen on port 8080 of this machine, and no more.
    fn default() -> (r: Config)
        ensures
            r.server.host@ == "127.0.0.1"@,
            r.server.port == 8080,
            r.rag is None,
            r.server_info_push_url is None,
            r.server_health_push_url is None,
            r.mcp is None,
            r.models@ == Seq::<InlineModelConfig>::empty(),
    {
        Config {
            server: ServerConfig { host: "127.0.0.1".to_owned(), port: 8080 },
            rag: None,
            server_info_push_url: None,
            server_health_push_url: None,
            mcp: None,
            models: Vec::new(),
        }
    }
}

impl Config {
    /// The tool servers, in the order in which they are set up.
    pub open spec fn tool_servers(&self) -> Seq<McpToolServerConfig> {
        match self.mcp {
            Some(mcp) => mcp.server.tool_servers@,
            None => seq![],
        }
    }

    /// All but the tool servers is the same.
    pub open spec fn same_but_for_tools(&self, other: &Config) -> bool {
        &&& self.server == other.server
        &&& self.rag == other.rag
        &&& self.server_info_push_url == other.server_info_push_url
        &&& self.server_health_push_url == other.server_health_push_url
        &&& self.mcp is Some == other.mcp is Some
        &&& self.models == other.models
    }
}

/// What came of reading the configuration file.
#[derive(Debug)]
pub enum ConfigSource {
    /// The file could not be read.
    Unreadable(String),
    /// The file does not hold a configuration.
    Malformed(String),
    /// The file holds this configuration.
    Read(Config),
}

/// A configuration that is being loaded: its tool servers are connected one after another.
#[derive(Debug)]
pub struct ConfigLoad {
    pub config: Config,
    /// The tool server that is being connected.
    pub index: usize,
    pub connection: Option<McpConnection>,
}

/// How loading goes on.
#[derive(Debug)]
pub enum LoadProgress {
    /// The next call to a tool server.
    Call(McpCall),
    /// Every tool server that is enabled is connected.
    Loaded,
    /// A tool server could not be connected.
    Failed(ServerError),
    /// What came back is no answer to the call that was made last; nothing has changed.
    Unexpected,
}

/// How loading goes on, with its texts.
pub enum LoadView {
    Call(CallView),
    Loaded,
    Failed(ErrorView),
    Unexpected,
}

impl View for LoadProgress {
    type V = LoadView;

    open spec fn view(&self) -> LoadView {
        match self {
            LoadProgress::Call(call) => LoadView::Call(call@),
            LoadProgress::Loaded => LoadView::Loaded,
            LoadProgress::Failed(e) => LoadView::Failed(e@),
            LoadProgress::Unexpected => LoadView::Unexpected,
        }
    }
}

/// The first tool server, not before `from`, that is enabled; the number of servers where none is.
pub open spec fn next_enabled(servers: Seq<McpToolServerConfig>, from: int) -> int
    decreases servers.len() - from,
{
    if from >= servers.len() || servers[from].enable {
        from
    } else {
        next_enabled(servers, from + 1)
    }
}

/// Loading moves on to a server that is enabled, or past the last; the servers on the way there are
/// not enabled.
pub proof fn law_loading_passes_over_disabled(servers: Seq<McpToolServerConfig>, from: int)
    requires
        0 <= from <= servers.len(),
    ensures
        from <= next_enabled(servers, from) <= servers.len(),
        next_enabled(servers, from) < servers.len() ==> servers[next_enabled(servers, from)].enable,
        forall|i: int|
            from <= i < next_enabled(servers, from) ==> !(#[trigger] servers[i]).enable,
    decreases servers.len() - from,
{
    if from < servers.len() && !servers[from].enable {
        law_loading_passes_over_disabled(servers, from + 1);
    }
}

/// The connection that is made next, and how loading goes on with it, where the servers before
/// `from` are done with.
pub open spec fn seek(servers: Seq<McpToolServerConfig>, from: int) -> (
    Option<ConnectionView>,
    LoadView,
) {
    let at = next_enabled(servers, from);
    if at >= servers.len() {
        (None, LoadView::Loaded)
    } else {
        match opening(servers[at].settings()) {
            Err(e) => (None, LoadView::Failed(e)),
            Ok((connection, call)) => (Some(connection), LoadView::Call(call)),
        }
    }
}

/// The texts of a connection that may be missing.
pub open spec fn connection_of(connection: Option<McpConnection>) -> Option<ConnectionView> {
    match connection {
        Some(c) => Some(c@),
        None => None,
    }
}

/// Loading has begun with the first tool server of `config` that is enabled.
pub open spec fn has_begun(config: Config, load: ConfigLoad, reply: LoadView) -> bool {
    &&& load.wf()
    &&& load.config == config
    &&& load.index == next_enabled(config.tool_servers(), 0)
    &&& connection_of(load.connection) == seek(config.tool_servers(), 0).0
    &&& reply == seek(config.tool_servers(), 0).1
    &&& reply == LoadView::Loaded ==> load.connected_before(config.tool_servers().len() as int)
}

/// Loading has gone on with `event`. Once a server is connected, its tools are kept and entered in
/// the registry, and the next server has its turn; otherwise the connection goes on, and where
/// there is none nothing changes.
pub open spec fn has_advanced(
    before: ConfigLoad,
    registry: McpRegistry,
    event: EventView,
    after: ConfigLoad,
    entered: McpRegistry,
    reply: LoadView,
) -> bool {
    &&& after.config.same_but_for_tools(&before.config)
    &&& reply == LoadView::Loaded ==> after.connected_before(
        after.config.tool_servers().len() as int,
    )
    &&& match before.connection {
        None => reply == LoadView::Unexpected && after == before && entered == registry,
        Some(c) => match progress(c@, event).1 {
            ProgressView::Connected(tools) => {
                let done = before.index as int;
                let servers = before.config.tool_servers();
                let now = after.config.tool_servers();
                &&& now.len() == servers.len()
                &&& forall|i: int|
                    0 <= i < servers.len() && i != done ==> #[trigger] now[i] == servers[i]
                &&& now[done].settings() == servers[done].settings()
                &&& now[done].tools is Some
                &&& now[done].tools->0@ == tools
                &&& after.index == next_enabled(now, done + 1)
                &&& connection_of(after.connection) == seek(now, done + 1).0
                &&& reply == seek(now, done + 1).1
                &&& entered.has_entered(&registry, servers[done].settings(), tools)
            },
            outcome => {
                &&& after.config == before.config
                &&& after.index == before.index
                &&& entered == registry
                &&& after.connection is Some
                &&& after.connection->0@ == (ConnectionView {
                    phase: progress(c@, event).0,
                    ..c@
                })
                &&& reply == match outcome {
                    ProgressView::Call(call) => LoadView::Call(call),
                    ProgressView::Failed(e) => LoadView::Failed(e),
                    _ => LoadView::Unexpected,
                }
            },
        },
    }
}

impl ConfigLoad {
    /// A connection belongs to one of the servers, and every server before that is connected, if
    /// it is enabled.
    pub open spec fn wf(&self) -> bool {
        &&& self.connection is Some ==> self.index < self.config.tool_servers().len()
        &&& self.connected_before(self.index as int)
    }

    /// Every server before `end` is connected, if it is enabled.
    pub open spec fn connected_before(&self, end: int) -> bool {
        forall|i: int|
            0 <= i < end && i < self.config.tool_servers().len() && (
            #[trigger] self.config.tool_servers()[i]).enable
                ==> self.config.tool_servers()[i].tools is Some
    }

    /// Begins with the next tool server that is enabled.
    fn seek_next(&mut self) -> (r: LoadProgress)
        requires
            old(self).index <= old(self).config.tool_servers().len(),
            old(self).connected_before(old(self).index as int),
        ensures
            final(self).wf(),
            r@ == LoadView::Loaded ==> final(self).connected_before(
                final(self).config.tool_servers().len() as int,
            ),
            final(self).config == old(self).config,
            final(self).index == next_enabled(
                old(self).config.tool_servers(),
                old(self).index as int,
            ),
            connection_of(final(self).connection) == seek(
                old(self).config.tool_servers(),
                old(self).index as int,
            ).0,
            r@ == seek(old(self).config.tool_servers(), old(self).index as int).1,
    {
        self.connection = None;
        match &self.config.mcp {
            Some(mcp) => {
                let servers = &mcp.server.tool_servers;
                let mut i: usize = self.index;
                while i < servers.len() && !servers[i].enable
                    invariant
                        self.index <= i <= servers@.len(),
                        next_enabled(servers@, self.index as int) == next_enabled(
                            servers@,
                            i as int,
                        ),
                        forall|j: int| self.index <= j < i ==> !(#[trigger] servers@[j]).enable,
                    decreases servers@.len() - i,
                {
                    i += 1;
                }
                self.index = i;
                if i == servers.len() {
                    return LoadProgress::Loaded;
                }
                match servers[i].connect_mcp_server() {
                    Ok(Some((connection, call))) => {
                        self.connection = Some(connection);
                        LoadProgress::Call(call)
                    },
                    Ok(None) => LoadProgress::Loaded,
                    Err(e) => LoadProgress::Failed(e),
                }
            },
            None => LoadProgress::Loaded,
        }
    }

    /// Takes in what came of the last call to a tool server. Once that server is connected, its
    /// tools are kept and entered in the registry, and the next server has its turn.
    pub fn advance(&mut self, event: McpEvent, registry: &mut McpRegistry) -> (r: LoadProgress)
        requires
            old(self).wf(),
            old(registry).wf(),
        ensures
            final(self).wf(),
            final(registry).wf(),
            has_advanced(
                *old(self),
                *old(registry),
                event@,
                *final(self),
                *final(registry),
                r@,
            ),
            event matches McpEvent::Tools(tools) ==> (old(self).connection matches Some(c)
                ==> c.phase == McpPhase::Tools ==> {
                let servers = final(self).config.tool_servers();
                servers[old(self).index as int].tools matches Some(kept) && kept@ == tools@
            }),
    {
        proof {
            if self.connection is Some && event@ is Tools {
                law_tools_are_kept_as_listed(self.connection->0@, event@->Tools_0);
            }
        }
        let outcome = match &mut self.connection {
            None => {
                return LoadProgress::Unexpected;
            },
            Some(connection) => connection.advance(event),
        };
        match outcome {
            McpProgress::Call(call) => LoadProgress::Call(call),
            McpProgress::Failed(e) => LoadProgress::Failed(e),
            McpProgress::Unexpected => LoadProgress::Unexpected,
            McpProgress::Connected(tools) => {
                let i: usize = self.index;
                match &mut self.config.mcp {
                    Some(mcp) => {
                        assert(i < mcp.server.tool_servers.len());
                        mcp.server.tool_servers[i].accept_tools(tools, registry);
                        self.index = i + 1;
                    },
                    None => {},
                }
                self.seek_next()
            },
        }
    }
}

impl Config {
    /// Takes in what came of reading the file, and begins with the first tool server that is
    /// enabled.
    pub fn load(source: ConfigSource) -> (r: Result<(ConfigLoad, LoadProgress), ServerError>)
        ensures
            match (source, r) {
                (ConfigSource::Unreadable(e), Err(error)) => error@ == ErrorView::Operation(
                    "Failed to build config: "@ + e@,
                ),
                (ConfigSource::Malformed(e), Err(error)) => error@ == ErrorView::Operation(
                    "Failed to deserialize config: "@ + e@,
                ),
                (ConfigSource::Read(config), Ok((load, progress))) => has_begun(
                    config,
                    load,
                    progress@,
                ),
                _ => false,
            },
    {
        match source {
            ConfigSource::Unreadable(e) => Err(operation("Failed to build config: ", e.as_str())),
            ConfigSource::Malformed(e) => Err(
                operation("Failed to deserialize config: ", e.as_str()),
            ),
            ConfigSource::Read(config) => {
                let mut load = ConfigLoad { config, index: 0, connection: None };
                let progress = load.seek_next();
                Ok((load, progress))
            },
        }
    }
}

/// What the gateway ends with when the configuration could not be loaded.
pub fn load_failure(e: &ServerError) -> (r: ServerError)
    ensures
        r@ == ErrorView::FailedToLoadConfig("Failed to load config: "@ + e@.message()),
{
    let mut message: String = "Failed to load config: ".to_owned();
    message.append(e.message().as_str());
    ServerError::FailedToLoadConfig(message)
}

/// The next connection is that of the next server that is enabled; where its settings are refused
/// that is said, and where there is none the settings are loaded.
pub proof fn law_next_connection(servers: Seq<McpToolServerConfig>, from: int)
    requires
        0 <= from <= servers.len(),
    ensures
        (forall|i: int| from <= i < servers.len() ==> !(#[trigger] servers[i]).enable) ==> seek(
            servers,
            from,
        ) == (None::<ConnectionView>, LoadView::Loaded),
        forall|at: int|
            from <= at < servers.len() && (#[trigger] servers[at]).enable && (forall|i: int|
                from <= i < at ==> !(#[trigger] servers[i]).enable) ==> match opening(
                servers[at].settings(),
            ) {
                Ok((connection, call)) => seek(servers, from) == (
                    Some(connection),
                    LoadView::Call(call),
                ),
                Err(e) => seek(servers, from) == (None::<ConnectionView>, LoadView::Failed(e)),
            },
{
    law_loading_passes_over_disabled(servers, from);
    let next = next_enabled(servers, from);
    assert forall|at: int|
        from <= at < servers.len() && (#[trigger] servers[at]).enable && (forall|i: int|
            from <= i < at ==> !(#[trigger] servers[i]).enable) implies at == next by {
        if next < at {
            assert(!servers[next].enable);
        }
    }
    if forall|i: int| from <= i < servers.len() ==> !(#[trigger] servers[i]).enable {
        if next < servers.len() {
            assert(servers[next].enable);
        }
    }
}

/// While a server is being connected, loading passes on what its connection says: the next call as
/// it is, a failure as it is.
pub proof fn law_loading_passes_on_what_the_connection_says(
    before: ConfigLoad,
    registry: McpRegistry,
    event: EventView,
    after: ConfigLoad,
    entered: McpRegistry,
    reply: LoadView,
)
    requires
        has_advanced(before, registry, event, after, entered, reply),
    ensures
        before.connection is None ==> reply == LoadView::Unexpected && after == before && entered
            == registry,
        before.connection matches Some(c) ==> {
            &&& progress(c@, event).1 matches ProgressView::Call(call) ==> reply == LoadView::Call(
                call,
            )
            &&& progress(c@, event).1 matches ProgressView::Failed(e) ==> reply
                == LoadView::Failed(e)
            &&& progress(c@, event).1 is Unexpected ==> reply == LoadView::Unexpected
            &&& !(progress(c@, event).1 is Connected) ==> after.config == before.config && entered
                == registry && after.index == before.index
            &&& progress(c@, event).1 matches ProgressView::Connected(tools) ==> {
                let servers = after.config.tool_servers();
                &&& servers[before.index as int].tools matches Some(kept) && kept@ == tools
                &&& reply == seek(servers, before.index + 1).1
            }
        },
{
}

/// All but the tool servers is the same where each of these parts is.
pub proof fn law_what_stays_of_the_settings(a: Config, b: Config)
    ensures
        a.same_but_for_tools(&b) ==> a.server == b.server && a.rag == b.rag
            && a.server_info_push_url == b.server_info_push_url && a.server_health_push_url
            == b.server_health_push_url && a.models == b.models && (a.mcp is Some) == (b.mcp is Some),
        a.mcp matches Some(mcp) ==> a.tool_servers() == mcp.server.tool_servers@,
        a.mcp is None ==> a.tool_servers().len() == 0,
{
}

/// A policy is found by its name, whatever the case of its letters, and by no other name.
pub proof fn law_names_of_policies(name: Seq<char>)
    ensures
        policy_named(name) == Some(MergeRagContextPolicy::SystemMessage) <==> same_but_for_case(
            "system-message"@,
            name,
        ),
        policy_named(name) == Some(MergeRagContextPolicy::LastUserMessage) <==> same_but_for_case(
            "last-user-message"@,
            name,
        ),
{
    reveal_strlit("system-message");
    reveal_strlit("last-user-message");
    assert("system-message"@.len() == 14 && "last-user-message"@.len() == 17);
}

/// What contracts say of the progress of a load is said of what it holds.
pub proof fn law_what_stands_for_progress(
    call: McpCall,
    e: ServerError,
    connection: McpConnection,
)
    ensures
        LoadProgress::Call(call)@ == LoadView::Call(call@),
        LoadProgress::Failed(e)@ == LoadView::Failed(e@),
        LoadProgress::Loaded@ == LoadView::Loaded,
        LoadProgress::Unexpected@ == LoadView::Unexpected,
        connection_of(Some(connection)) == Some(connection@),
        connection_of(None) is None,
{
}

} // verus!
