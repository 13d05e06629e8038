//! Connecting to the servers that offer tools over the model context protocol.
//!
//! Connecting alternates decisions, which are made here, and calls to the other side, which the
//! caller makes: each [`McpCall`] is made, and what came of it goes back as an [`McpEvent`].
use vstd::prelude::*;

use crate::error::{mcp_operation, operation, ErrorView, ServerError};
use crate::table::Table;
use crate::text::{ends_with, text_of, texts, trim_end, trimmed};

verus! {

/// The port on which the browser hands in the authorization code.
pub const CALLBACK_PORT: u16 = 8080;

/// How a tool server is reached.
#[derive(Clone, Copy, Debug, PartialEq, Eq, Structural)]
pub enum McpTransport {
    Sse,
    StreamHttp,
    Stdio,
}

/// The name of a transport.
pub open spec fn transport_name(transport: McpTransport) -> Seq<char> {
    match transport {
        McpTransport::Sse => "sse"@,
        McpTransport::StreamHttp => "stream-http"@,
        McpTransport::Stdio => "stdio"@,
    }
}

impl McpTransport {
    /// The name of the transport.
    pub fn name(self) -> (r: &'static str)
        ensures
            r@ == transport_name(self),
    {
        match self {
            McpTransport::Sse => "sse",
            McpTransport::StreamHttp => "stream-http",
            McpTransport::Stdio => "stdio",
        }
    }
}

/// A tool that a server offers.
#[derive(Debug)]
pub struct McpTool {
    pub name: String,
    pub description: Option<String>,
    /// The tool as the server describes it, in JSON.
    pub definition: String,
}

/// The settings of one tool server, and the tools it offers once it is connected.
#[derive(Debug)]
pub struct McpToolServerConfig {
    pub name: String,
    pub transport: McpTransport,
    pub url: Option<String>,
    pub oauth_url: Option<String>,
    pub enable: bool,
    pub tools: Option<Vec<McpTool>>,
    pub fallback_message: Option<String>,
}

/// The settings of one tool server, with their texts.
pub struct SettingsView {
    pub name: Seq<char>,
    pub transport: McpTransport,
    pub url: Option<Seq<char>>,
    pub oauth_url: Option<Seq<char>>,
    pub enable: bool,
    pub fallback_message: Option<Seq<char>>,
}

impl McpToolServerConfig {
    /// The settings, without the tools.
    pub open spec fn settings(&self) -> SettingsView {
        SettingsView {
            name: self.name@,
            transport: self.transport,
            url: text_of(self.url),
            oauth_url: text_of(self.oauth_url),
            enable: self.enable,
            fallback_message: text_of(self.fallback_message),
        }
    }
}

/// How far a connection has come: the call that was made last.
#[derive(Clone, Copy, Debug, PartialEq, Eq, Structural)]
pub enum McpPhase {
    Initialize,
    Discover,
    Authorize,
    Banner,
    Instruction,
    Address,
    ShowAddress,
    Waiting,
    FlushPrompt,
    Code,
    Callback,
    Success,
    FlushSuccess,
    Manager,
    Transport,
    Serve,
    Tools,
}

/// A connection that is being made.
#[derive(Debug)]
pub struct McpConnection {
    pub name: String,
    pub transport: McpTransport,
    /// Whether the server asks for an authorization.
    pub oauth: bool,
    /// The address without slashes at its end.
    pub url: String,
    /// The address as it was set.
    pub server_url: String,
    pub phase: McpPhase,
}

/// A connection with its texts.
pub struct ConnectionView {
    pub name: Seq<char>,
    pub transport: McpTransport,
    pub oauth: bool,
    pub url: Seq<char>,
    pub server_url: Seq<char>,
    pub phase: McpPhase,
}

impl View for McpConnection {
    type V = ConnectionView;

    open spec fn view(&self) -> ConnectionView {
        ConnectionView {
            name: self.name@,
            transport: self.transport,
            oauth: self.oauth,
            url: self.url@,
            server_url: self.server_url@,
            phase: self.phase,
        }
    }
}

/// A call that the caller makes next.
#[derive(Debug)]
pub enum McpCall {
    /// Listen for the browser on the port, then begin an authorization with the server.
    InitializeOauth { url: String, callback_port: u16 },
    /// Ask the server what it supports.
    DiscoverMetadata,
    /// Begin to authorize for the scopes.
    StartAuthorization { scopes: Vec<String>, redirect_uri: String },
    /// Write to the standard output.
    Print(String),
    /// Ask for the address that the user has to open.
    GetAuthorizationUrl,
    /// Flush the standard output.
    Flush,
    /// Wait for the authorization code.
    AwaitCode,
    /// Change the code for an access token.
    HandleCallback { code: String },
    /// Take what holds the token; this fails where nothing does.
    TakeManager,
    /// Open an event stream to the server.
    OpenStream { url: String, authorized: bool },
    /// Greet the server: over the stream, or over plain requests to the address.
    Serve { transport: McpTransport, url: String, authorized: bool },
    /// Ask for the tools.
    ListTools,
}

/// A call with its texts.
pub enum CallView {
    InitializeOauth { url: Seq<char>, callback_port: u16 },
    DiscoverMetadata,
    StartAuthorization { scopes: Seq<Seq<char>>, redirect_uri: Seq<char> },
    Print(Seq<char>),
    GetAuthorizationUrl,
    Flush,
    AwaitCode,
    HandleCallback { code: Seq<char> },
    TakeManager,
    OpenStream { url: Seq<char>, authorized: bool },
    Serve { transport: McpTransport, url: Seq<char>, authorized: bool },
    ListTools,
}

impl View for McpCall {
    type V = CallView;

    open spec fn view(&self) -> CallView {
        match self {
            McpCall::InitializeOauth { url, callback_port } => CallView::InitializeOauth {
                url: url@,
                callback_port: *callback_port,
            },
            McpCall::DiscoverMetadata => CallView::DiscoverMetadata,
            McpCall::StartAuthorization { scopes, redirect_uri } => CallView::StartAuthorization {
                scopes: texts(scopes@),
                redirect_uri: redirect_uri@,
            },
            McpCall::Print(text) => CallView::Print(text@),
            McpCall::GetAuthorizationUrl => CallView::GetAuthorizationUrl,
            McpCall::Flush => CallView::Flush,
            McpCall::AwaitCode => CallView::AwaitCode,
            McpCall::HandleCallback { code } => CallView::HandleCallback { code: code@ },
            McpCall::TakeManager => CallView::TakeManager,
            McpCall::OpenStream { url, authorized } => CallView::OpenStream {
                url: url@,
                authorized: *authorized,
            },
            McpCall::Serve { transport, url, authorized } => CallView::Serve {
                transport: *transport,
                url: url@,
                authorized: *authorized,
            },
            McpCall::ListTools => CallView::ListTools,
        }
    }
}

/// What came of a call.
#[derive(Debug)]
pub enum McpEvent {
    /// The call succeeded and gave nothing back.
    Done,
    /// The call failed, with the reason.
    Failed(String),
    /// The authorization has begun; whether the server has not authorized us yet.
    Initialized { unauthorized: bool },
    /// The scopes that the server supports, where it says.
    Scopes(Option<Vec<String>>),
    /// The address or the code that was asked for.
    Text(String),
    /// The tools of the server.
    Tools(Vec<McpTool>),
}

/// What came of a call, with its texts.
pub enum EventView {
    Done,
    Failed(Seq<char>),
    Initialized { unauthorized: bool },
    Scopes(Option<Seq<Seq<char>>>),
    Text(Seq<char>),
    Tools(Seq<McpTool>),
}

impl View for McpEvent {
    type V = EventView;

    open spec fn view(&self) -> EventView {
        match self {
            McpEvent::Done => EventView::Done,
            McpEvent::Failed(reason) => EventView::Failed(reason@),
            McpEvent::Initialized { unauthorized } => EventView::Initialized {
                unauthorized: *unauthorized,
            },
            McpEvent::Scopes(scopes) => EventView::Scopes(
                match scopes {
                    Some(list) => Some(texts(list@)),
                    None => None,
                },
            ),
            McpEvent::Text(text) => EventView::Text(text@),
            McpEvent::Tools(tools) => EventView::Tools(tools@),
        }
    }
}

/// How a connection goes on.
#[derive(Debug)]
pub enum McpProgress {
    /// The next call.
    Call(McpCall),
    /// The server is connected and has these tools.
    Connected(Vec<McpTool>),
    /// The connection has failed.
    Failed(ServerError),
    /// What came back is no answer to the call that was made last; nothing has changed.
    Unexpected,
}

/// How a connection goes on, with its texts.
pub enum ProgressView {
    Call(CallView),
    Connected(Seq<McpTool>),
    Failed(ErrorView),
    Unexpected,
}

impl View for McpProgress {
    type V = ProgressView;

    open spec fn view(&self) -> ProgressView {
        match self {
            McpProgress::Call(call) => ProgressView::Call(call@),
            McpProgress::Connected(tools) => ProgressView::Connected(tools@),
            McpProgress::Failed(e) => ProgressView::Failed(e@),
            McpProgress::Unexpected => ProgressView::Unexpected,
        }
    }
}

/// The address of the server and whether it asks for an authorization: exactly one of the two
/// addresses has to be set.
pub open spec fn address(s: SettingsView) -> Result<(Seq<char>, bool), ErrorView> {
    match (s.url, s.oauth_url) {
        (Some(url), None) => Ok((url, false)),
        (None, Some(url)) => Ok((url, true)),
        (Some(_), Some(_)) => Err(
            ErrorView::Operation(
                "Invalid configuration for mcp server '"@ + s.name
                    + "': Both url and oauth_url cannot be set at the same time"@,
            ),
        ),
        (None, None) => Err(
            ErrorView::Operation(
                "Invalid configuration for mcp server '"@ + s.name
                    + "': Either url or oauth_url must be set"@,
            ),
        ),
    }
}

/// The ending that an address has to have which is called without an authorization.
pub open spec fn address_ending(transport: McpTransport) -> Seq<char> {
    match transport {
        McpTransport::Sse => "/sse"@,
        _ => "/mcp"@,
    }
}

/// What is said of an address without that ending.
pub open spec fn bad_address(transport: McpTransport, url: Seq<char>) -> ErrorView {
    match transport {
        McpTransport::Sse => ErrorView::Operation(
            "Invalid mcp tools sse URL: "@ + url
                + ". The correct format should end with `/sse`"@,
        ),
        _ => ErrorView::Operation(
            "Invalid mcp tools stream-http URL: "@ + url
                + ". The correct format should end with `/mcp`"@,
        ),
    }
}

/// The first call of a connection, and how far it then is: an authorization where one is asked
/// for; else the stream where there is one; else the greeting.
pub open spec fn first_call(transport: McpTransport, oauth: bool, url: Seq<char>) -> (
    McpPhase,
    CallView,
) {
    if oauth {
        (McpPhase::Initialize, CallView::InitializeOauth { url, callback_port: CALLBACK_PORT })
    } else if transport == McpTransport::Sse {
        (McpPhase::Transport, CallView::OpenStream { url, authorized: false })
    } else {
        (McpPhase::Serve, CallView::Serve { transport, url, authorized: false })
    }
}

/// The outcome of looking at the settings of a server that is enabled.
pub open spec fn opening(s: SettingsView) -> Result<(ConnectionView, CallView), ErrorView> {
    match address(s) {
        Err(e) => Err(e),
        Ok((server_url, oauth)) => {
            let url = trimmed(server_url, '/');
            if s.transport == McpTransport::Stdio {
                Err(
                    ErrorView::Operation(
                        "Unsupported transport: "@ + transport_name(s.transport),
                    ),
                )
            } else if !oauth && !address_ending(s.transport).is_suffix_of(url) {
                Err(bad_address(s.transport, url))
            } else {
                let (phase, call) = first_call(s.transport, oauth, url);
                Ok(
                    (
                        ConnectionView {
                            name: s.name,
                            transport: s.transport,
                            oauth,
                            url,
                            server_url,
                            phase,
                        },
                        call,
                    ),
                )
            }
        },
    }
}

/// What is said when the call of a phase fails for `reason`.
pub open spec fn failure(c: ConnectionView, reason: Seq<char>) -> ErrorView {
    match c.phase {
        McpPhase::Serve => ErrorView::McpOperation(
            "Failed to connect to mcp server (name: "@ + c.name + ", url: "@ + (if c.transport
                == McpTransport::StreamHttp && !c.oauth {
                c.server_url
            } else {
                c.url
            }) + ", transport: "@ + transport_name(c.transport) + "). "@ + reason
                + ". Please check if the mcp server is running."@,
        ),
        McpPhase::Manager => ErrorView::McpOperation("Failed to get authorization manager"@),
        _ => ErrorView::McpOperation(failure_prefix(c) + reason),
    }
}

/// How a failure of a phase is introduced.
pub open spec fn failure_prefix(c: ConnectionView) -> Seq<char> {
    match c.phase {
        McpPhase::Initialize => "Failed to initialize oauth state machine: "@,
        McpPhase::Discover => "Failed to discover metadata: "@,
        McpPhase::Authorize => "Failed to start authorization: "@,
        McpPhase::Address => "Failed to get authorization url: "@,
        McpPhase::Code => "Failed to get authorization code: "@,
        McpPhase::Callback => "Failed to handle callback: "@,
        McpPhase::FlushPrompt => "Failed to flush stdout: "@,
        McpPhase::FlushSuccess => "Failed to flush stdout: "@,
        McpPhase::Transport => if c.oauth {
            "Failed to create authorized transport: "@
        } else {
            "Failed to create sse transport: "@
        },
        McpPhase::Tools => "Failed to list tools: "@,
        _ => "Failed to write to stdout: "@,
    }
}

/// The phase and the call that follow a call which succeeded; `None` where `event` is no answer to
/// that call.
pub open spec fn next_call(c: ConnectionView, event: EventView) -> Option<(McpPhase, CallView)> {
    match (c.phase, event) {
        (McpPhase::Initialize, EventView::Initialized { unauthorized }) => if unauthorized {
            Some((McpPhase::Discover, CallView::DiscoverMetadata))
        } else {
            Some((McpPhase::Banner, CallView::Print("\n=== MCP OAuth Client ===\n\n"@)))
        },
        (McpPhase::Discover, EventView::Scopes(Some(scopes))) => Some(
            (
                McpPhase::Authorize,
                CallView::StartAuthorization {
                    scopes,
                    redirect_uri: "http://localhost:8080/callback"@,
                },
            ),
        ),
        (McpPhase::Authorize, EventView::Done) => Some(
            (McpPhase::Banner, CallView::Print("\n=== MCP OAuth Client ===\n\n"@)),
        ),
        (McpPhase::Banner, EventView::Done) => Some(
            (
                McpPhase::Instruction,
                CallView::Print(
                    "Please open the following URL in your browser to authorize:\n\n"@,
                ),
            ),
        ),
        (McpPhase::Instruction, EventView::Done) => Some(
            (McpPhase::Address, CallView::GetAuthorizationUrl),
        ),
        (McpPhase::Address, EventView::Text(url)) => Some(
            (McpPhase::ShowAddress, CallView::Print(url)),
        ),
        (McpPhase::ShowAddress, EventView::Done) => Some(
            (
                McpPhase::Waiting,
                CallView::Print(
                    "\n\nWaiting for browser callback, please do not close this window...\n"@,
                ),
            ),
        ),
        (McpPhase::Waiting, EventView::Done) => Some((McpPhase::FlushPrompt, CallView::Flush)),
        (McpPhase::FlushPrompt, EventView::Done) => Some((McpPhase::Code, CallView::AwaitCode)),
        (McpPhase::Code, EventView::Text(code)) => Some(
            (McpPhase::Callback, CallView::HandleCallback { code }),
        ),
        (McpPhase::Callback, EventView::Done) => Some(
            (
                McpPhase::Success,
                CallView::Print("\nAuthorization successful! Access token obtained.\n\n"@),
            ),
        ),
        (McpPhase::Success, EventView::Done) => Some((McpPhase::FlushSuccess, CallView::Flush)),
        (McpPhase::FlushSuccess, EventView::Done) => Some(
            (McpPhase::Manager, CallView::TakeManager),
        ),
        (McpPhase::Manager, EventView::Done) => if c.transport == McpTransport::Sse {
            Some((McpPhase::Transport, CallView::OpenStream { url: c.url, authorized: true }))
        } else {
            Some(
                (
                    McpPhase::Serve,
                    CallView::Serve { transport: c.transport, url: c.url, authorized: true },
                ),
            )
        },
        (McpPhase::Transport, EventView::Done) => Some(
            (
                McpPhase::Serve,
                CallView::Serve { transport: c.transport, url: c.url, authorized: c.oauth },
            ),
        ),
        (McpPhase::Serve, EventView::Done) => Some((McpPhase::Tools, CallView::ListTools)),
        _ => None,
    }
}

/// How a connection goes on after `event`, and how far it then is.
pub open spec fn progress(c: ConnectionView, event: EventView) -> (McpPhase, ProgressView) {
    match (c.phase, event) {
        (_, EventView::Failed(reason)) => (c.phase, ProgressView::Failed(failure(c, reason))),
        (McpPhase::Discover, EventView::Scopes(None)) => (
            c.phase,
            ProgressView::Failed(
                ErrorView::McpOperation("Failed to get supported scopes from mcp server"@),
            ),
        ),
        (McpPhase::Tools, EventView::Tools(tools)) => (c.phase, ProgressView::Connected(tools)),
        _ => match next_call(c, event) {
            Some((phase, call)) => (phase, ProgressView::Call(call)),
            None => (c.phase, ProgressView::Unexpected),
        },
    }
}

impl McpToolServerConfig {
    /// Looks at the settings and begins to connect: nothing is to be done where the server is not
    /// enabled, else there is a first call, or the settings are refused.
    pub fn connect_mcp_server(&self) -> (r: Result<Option<(McpConnection, McpCall)>, ServerError>)
        ensures
            match r {
                Ok(None) => !self.settings().enable,
                Ok(Some((connection, call))) => self.settings().enable && opening(self.settings())
                    == Ok::<(ConnectionView, CallView), ErrorView>((connection@, call@)),
                Err(e) => self.settings().enable && opening(self.settings()) == Err::<
                    (ConnectionView, CallView),
                    ErrorView,
                >(e@),
            },
    {
        if !self.enable {
            return Ok(None);
        }
        let server_url: String;
        let oauth: bool;
        match (&self.url, &self.oauth_url) {
            (Some(url), None) => {
                server_url = url.clone();
                oauth = false;
            },
            (None, Some(url)) => {
                server_url = url.clone();
                oauth = true;
            },
            (Some(_), Some(_)) => {
                let mut message: String = "Invalid configuration for mcp server '".to_owned();
                message.append(self.name.as_str());
                return Err(
                    operation(
                        message.as_str(),
                        "': Both url and oauth_url cannot be set at the same time",
                    ),
                );
            },
            (None, None) => {
                let mut message: String = "Invalid configuration for mcp server '".to_owned();
                message.append(self.name.as_str());
                return Err(
                    operation(message.as_str(), "': Either url or oauth_url must be set"),
                );
            },
        }
        let url = trim_end(server_url.as_str(), '/');
        match self.transport {
            McpTransport::Sse => {
                if !oauth && !ends_with(url.as_str(), "/sse") {
                    let mut message: String = "Invalid mcp tools sse URL: ".to_owned();
                    message.append(url.as_str());
                    return Err(
                        operation(
                            message.as_str(),
                            ". The correct format should end with `/sse`",
                        ),
                    );
                }
            },
            McpTransport::StreamHttp => {
                if !oauth && !ends_with(url.as_str(), "/mcp") {
                    let mut message: String = "Invalid mcp tools stream-http URL: ".to_owned();
                    message.append(url.as_str());
                    return Err(
                        operation(
                            message.as_str(),
                            ". The correct format should end with `/mcp`",
                        ),
                    );
                }
            },
            McpTransport::Stdio => {
                return Err(operation("Unsupported transport: ", self.transport.name()));
            },
        }
        let phase: McpPhase;
        let call: McpCall;
        if oauth {
            phase = McpPhase::Initialize;
            call = McpCall::InitializeOauth { url: url.clone(), callback_port: CALLBACK_PORT };
        } else if self.transport == McpTransport::Sse {
            phase = McpPhase::Transport;
            call = McpCall::OpenStream { url: url.clone(), authorized: false };
        } else {
            phase = McpPhase::Serve;
            call = McpCall::Serve {
                transport: self.transport,
                url: url.clone(),
                authorized: false,
            };
        }
        let connection = McpConnection {
            name: self.name.clone(),
            transport: self.transport,
            oauth,
            url,
            server_url,
            phase,
        };
        Ok(Some((connection, call)))
    }
}

impl McpConnection {
    /// What is said when the call of this phase fails for `reason`.
    fn failed(&self, reason: &str) -> (r: ServerError)
        ensures
            r@ == failure(self@, reason@),
    {
        let prefix: &str = match self.phase {
            McpPhase::Initialize => "Failed to initialize oauth state machine: ",
            McpPhase::Discover => "Failed to discover metadata: ",
            McpPhase::Authorize => "Failed to start authorization: ",
            McpPhase::Address => "Failed to get authorization url: ",
            McpPhase::Code => "Failed to get authorization code: ",
            McpPhase::Callback => "Failed to handle callback: ",
            McpPhase::FlushPrompt => "Failed to flush stdout: ",
            McpPhase::FlushSuccess => "Failed to flush stdout: ",
            McpPhase::Transport => if self.oauth {
                "Failed to create authorized transport: "
            } else {
                "Failed to create sse transport: "
            },
            McpPhase::Tools => "Failed to list tools: ",
            McpPhase::Manager => {
                return ServerError::McpOperation("Failed to get authorization manager".to_owned());
            },
            McpPhase::Serve => {
                let mut message: String = "Failed to connect to mcp server (name: ".to_owned();
                message.append(self.name.as_str());
                message.append(", url: ");
                if self.transport == McpTransport::StreamHttp && !self.oauth {
                    message.append(self.server_url.as_str());
                } else {
                    message.append(self.url.as_str());
                }
                message.append(", transport: ");
                message.append(self.transport.name());
                message.append("). ");
                message.append(reason);
                return mcp_operation(
                    message.as_str(),
                    ". Please check if the mcp server is running.",
                );
            },
            _ => "Failed to write to stdout: ",
        };
        mcp_operation(prefix, reason)
    }

    /// Takes in what came of the last call and says how the connection goes on.
    pub fn advance(&mut self, event: McpEvent) -> (r: McpProgress)
        ensures
            final(self)@ == (ConnectionView { phase: progress(old(self)@, event@).0, ..old(self)@ }),
            r@ == progress(old(self)@, event@).1,
            event matches McpEvent::Tools(tools) ==> old(self).phase == McpPhase::Tools ==> (
            r matches McpProgress::Connected(kept) && kept@ == tools@),
            r is Connected ==> event is Tools && old(self).phase == McpPhase::Tools,
            event is Failed ==> r is Failed,
    {
        proof {
            if let EventView::Tools(tools) = event@ {
                law_tools_are_kept_as_listed(self@, tools);
            }
        }
        match event {
            McpEvent::Failed(reason) => {
                return McpProgress::Failed(self.failed(reason.as_str()));
            },
            McpEvent::Initialized { unauthorized } => {
                if self.phase == McpPhase::Initialize {
                    if unauthorized {
                        self.phase = McpPhase::Discover;
                        return McpProgress::Call(McpCall::DiscoverMetadata);
                    }
                    self.phase = McpPhase::Banner;
                    return McpProgress::Call(
                        McpCall::Print("\n=== MCP OAuth Client ===\n\n".to_owned()),
                    );
                }
            },
            McpEvent::Scopes(scopes) => {
                if self.phase == McpPhase::Discover {
                    match scopes {
                        Some(scopes) => {
                            self.phase = McpPhase::Authorize;
                            return McpProgress::Call(
                                McpCall::StartAuthorization {
                                    scopes,
                                    redirect_uri: "http://localhost:8080/callback".to_owned(),
                                },
                            );
                        },
                        None => {
                            return McpProgress::Failed(
                                ServerError::McpOperation(
                                    "Failed to get supported scopes from mcp server".to_owned(),
                                ),
                            );
                        },
                    }
                }
            },
            McpEvent::Text(text) => {
                if self.phase == McpPhase::Address {
                    self.phase = McpPhase::ShowAddress;
                    return McpProgress::Call(McpCall::Print(text));
                }
                if self.phase == McpPhase::Code {
                    self.phase = McpPhase::Callback;
                    return McpProgress::Call(McpCall::HandleCallback { code: text });
                }
            },
            McpEvent::Tools(tools) => {
                if self.phase == McpPhase::Tools {
                    return McpProgress::Connected(tools);
                }
            },
            McpEvent::Done => {
                return self.done();
            },
        }
        McpProgress::Unexpected
    }

    /// Takes in that the last call succeeded and gave nothing back.
    fn done(&mut self) -> (r: McpProgress)
        ensures
            final(self)@ == (ConnectionView {
                phase: progress(old(self)@, EventView::Done).0,
                ..old(self)@
            }),
            r@ == progress(old(self)@, EventView::Done).1,
    {
        let (phase, call): (McpPhase, McpCall) = match self.phase {
            McpPhase::Authorize => (
                McpPhase::Banner,
                McpCall::Print("\n=== MCP OAuth Client ===\n\n".to_owned()),
            ),
            McpPhase::Banner => (
                McpPhase::Instruction,
                McpCall::Print(
                    "Please open the following URL in your browser to authorize:\n\n".to_owned(),
                ),
            ),
            McpPhase::Instruction => (McpPhase::Address, McpCall::GetAuthorizationUrl),
            McpPhase::ShowAddress => (
                McpPhase::Waiting,
                McpCall::Print(
                    "\n\nWaiting for browser callback, please do not close this window...\n".to_owned(),
                ),
            ),
            McpPhase::Waiting => (McpPhase::FlushPrompt, McpCall::Flush),
            McpPhase::FlushPrompt => (McpPhase::Code, McpCall::AwaitCode),
            McpPhase::Callback => (
                McpPhase::Success,
                McpCall::Print(
                    "\nAuthorization successful! Access token obtained.\n\n".to_owned(),
                ),
            ),
            McpPhase::Success => (McpPhase::FlushSuccess, McpCall::Flush),
            McpPhase::FlushSuccess => (McpPhase::Manager, McpCall::TakeManager),
            McpPhase::Manager => if self.transport == McpTransport::Sse {
                (
                    McpPhase::Transport,
                    McpCall::OpenStream { url: self.url.clone(), authorized: true },
                )
            } else {
                (
                    McpPhase::Serve,
                    McpCall::Serve {
                        transport: self.transport,
                        url: self.url.clone(),
                        authorized: true,
                    },
                )
            },
            McpPhase::Transport => (
                McpPhase::Serve,
                McpCall::Serve {
                    transport: self.transport,
                    url: self.url.clone(),
                    authorized: self.oauth,
                },
            ),
            McpPhase::Serve => (McpPhase::Tools, McpCall::ListTools),
            _ => {
                return McpProgress::Unexpected;
            },
        };
        self.phase = phase;
        McpProgress::Call(call)
    }
}

/// What the gateway knows of a connected tool server.
#[derive(Debug)]
pub struct McpService {
    pub name: String,
    /// The names of its tools.
    pub tools: Vec<String>,
    pub fallback_message: Option<String>,
}

/// The connected tool servers, and which of them offers a tool.
#[derive(Debug)]
pub struct McpRegistry {
    /// For each tool, the name of the server that offers it.
    pub tools: Table<String>,
    /// For each server name, the server.
    pub services: Table<McpService>,
}

/// The names of tools, in order.
pub open spec fn tool_names(tools: Seq<McpTool>) -> Seq<Seq<char>> {
    tools.map_values(|t: McpTool| t.name@)
}

impl McpRegistry {
    pub open spec fn wf(&self) -> bool {
        self.tools.wf() && self.services.wf()
    }

    /// The name of the server that offers a tool.
    pub open spec fn owner(&self, tool: Seq<char>) -> Option<Seq<char>> {
        if self.tools@.dom().contains(tool) {
            Some(self.tools@[tool]@)
        } else {
            None
        }
    }

    /// This registry is `before` with one server entered: the tools belong to that server now, and
    /// its name stands for it.
    pub open spec fn has_entered(
        &self,
        before: &McpRegistry,
        server: SettingsView,
        tools: Seq<McpTool>,
    ) -> bool {
        &&& forall|tool: Seq<char>|
            #[trigger] self.owner(tool) == if tool_names(tools).contains(tool) {
                Some(server.name)
            } else {
                before.owner(tool)
            }
        &&& self.services@.dom() == before.services@.dom().insert(server.name)
        &&& self.services@[server.name].name@ == server.name
        &&& texts(self.services@[server.name].tools@) == tool_names(tools)
        &&& text_of(self.services@[server.name].fallback_message) == server.fallback_message
        &&& forall|name: Seq<char>|
            name != server.name && before.services@.dom().contains(name)
                ==> #[trigger] self.services@[name] == before.services@[name]
    }

    /// A registry without servers.
    pub fn new() -> (r: McpRegistry)
        ensures
            r.wf(),
            forall|tool: Seq<char>| r.owner(tool) is None,
            r.services@ == Map::<Seq<char>, McpService>::empty(),
    {
        McpRegistry { tools: Table::new(), services: Table::new() }
    }
}

impl McpToolServerConfig {
    /// Keeps the tools that the server offers, and enters them and the server in the registry: a
    /// tool that another server had offered now belongs to this one.
    pub fn accept_tools(&mut self, tools: Vec<McpTool>, registry: &mut McpRegistry)
        requires
            old(registry).wf(),
        ensures
            final(self).settings() == old(self).settings(),
            final(self).tools == Some(tools),
            final(registry).wf(),
            final(registry).has_entered(old(registry), old(self).settings(), tools@),
    {
        let mut names: Vec<String> = Vec::new();
        let mut i: usize = 0;
        while i < tools.len()
            invariant
                i <= tools@.len(),
                names@.len() == i,
                registry.wf(),
                registry.services == old(registry).services,
                *self == *old(self),
                forall|j: int| 0 <= j < i ==> #[trigger] names@[j]@ == tools@[j].name@,
                forall|tool: Seq<char>|
                    #[trigger] registry.owner(tool) == if tool_names(tools@.take(i as int)).contains(
                        tool,
                    ) {
                        Some(self.name@)
                    } else {
                        old(registry).owner(tool)
                    },
            decreases tools@.len() - i,
        {
            let ghost before = *registry;
            names.push(tools[i].name.clone());
            registry.tools.insert(tools[i].name.clone(), self.name.clone());
            proof {
                let done = tool_names(tools@.take(i as int));
                let more = tool_names(tools@.take(i + 1));
                assert(more =~= done.push(tools@[i as int].name@));
                assert forall|tool: Seq<char>|
                    #[trigger] registry.owner(tool) == if more.contains(tool) {
                        Some(self.name@)
                    } else {
                        old(registry).owner(tool)
                    } by {
                    assert(before.owner(tool) == if done.contains(tool) {
                        Some(self.name@)
                    } else {
                        old(registry).owner(tool)
                    });
                    if tool == tools@[i as int].name@ {
                        assert(more[i as int] == tool);
                    } else {
                        if done.contains(tool) {
                            let k = done.index_of(tool);
                            assert(more[k] == tool);
                        }
                        if more.contains(tool) {
                            let k = more.index_of(tool);
                            assert(done[k] == tool);
                        }
                    }
                }
            }
            i += 1;
        }
        proof {
            assert(tools@.take(i as int) =~= tools@);
            assert(texts(names@) =~= tool_names(tools@));
        }
        let service = McpService {
            name: self.name.clone(),
            tools: names,
            fallback_message: match &self.fallback_message {
                Some(message) => Some(message.clone()),
                None => None,
            },
        };
        let ghost entered = *registry;
        registry.services.insert(self.name.clone(), service);
        assert(registry.services@.dom() =~= old(registry).services@.dom().insert(self.name@));
        assert forall|tool: Seq<char>|
            #[trigger] registry.owner(tool) == if tool_names(tools@).contains(tool) {
                Some(self.name@)
            } else {
                old(registry).owner(tool)
            } by {
            assert(registry.owner(tool) == entered.owner(tool));
        }
        self.tools = Some(tools);
    }
}

/// How many calls at most have been made when a phase is reached.
pub open spec fn rank(phase: McpPhase) -> nat {
    match phase {
        McpPhase::Initialize => 1,
        McpPhase::Discover => 2,
        McpPhase::Authorize => 3,
        McpPhase::Banner => 4,
        McpPhase::Instruction => 5,
        McpPhase::Address => 6,
        McpPhase::ShowAddress => 7,
        McpPhase::Waiting => 8,
        McpPhase::FlushPrompt => 9,
        McpPhase::Code => 10,
        McpPhase::Callback => 11,
        McpPhase::Success => 12,
        McpPhase::FlushSuccess => 13,
        McpPhase::Manager => 14,
        McpPhase::Transport => 15,
        McpPhase::Serve => 16,
        McpPhase::Tools => 17,
    }
}

/// Each call brings a connection further, so that a connection ends after at most seventeen calls,
/// with an error or with the tools; and it stays where it was when there is no further call.
pub proof fn law_connection_ends(c: ConnectionView, event: EventView)
    ensures
        1 <= rank(c.phase) <= 17,
        progress(c, event).1 is Call ==> rank(progress(c, event).0) > rank(c.phase),
        !(progress(c, event).1 is Call) ==> progress(c, event).0 == c.phase,
        progress(c, event).1 is Connected ==> c.phase == McpPhase::Tools,
{
}

/// A connection that [`McpToolServerConfig::connect_mcp_server`] can have begun.
pub open spec fn sound(c: ConnectionView) -> bool {
    &&& c.transport != McpTransport::Stdio
    &&& c.url == trimmed(c.server_url, '/')
    &&& rank(c.phase) < rank(McpPhase::Transport) ==> c.oauth
    &&& c.phase == McpPhase::Transport ==> c.transport == McpTransport::Sse
    &&& !c.oauth ==> address_ending(c.transport).is_suffix_of(c.url)
}

/// The call reaches out to the address of the connection, with a token exactly where the server
/// asks for one.
pub open spec fn fits(c: ConnectionView, call: CallView) -> bool {
    match call {
        CallView::OpenStream { url, authorized } => url == c.url && authorized == c.oauth
            && c.transport == McpTransport::Sse,
        CallView::Serve { transport, url, authorized } => url == c.url && authorized == c.oauth
            && transport == c.transport,
        CallView::InitializeOauth { url, .. } => url == c.url && c.oauth,
        _ => true,
    }
}

/// A connection begins sound, and its first call fits it.
pub proof fn law_connection_begins_sound(s: SettingsView)
    requires
        opening(s) is Ok,
    ensures
        sound(opening(s)->Ok_0.0),
        fits(opening(s)->Ok_0.0, opening(s)->Ok_0.1),
        s.url is Some != s.oauth_url is Some,
        opening(s)->Ok_0.0.oauth == s.oauth_url is Some,
{
}

/// A sound connection stays sound whatever comes back, and every call of it fits it: a server that
/// asks for an authorization is never greeted without a token, and no other is sent one.
pub proof fn law_connection_stays_sound(c: ConnectionView, event: EventView)
    requires
        sound(c),
    ensures
        sound(ConnectionView { phase: progress(c, event).0, ..c }),
        match progress(c, event).1 {
            ProgressView::Call(call) => fits(c, call),
            _ => true,
        },
{
}

/// The tools that a server lists are the tools it is connected with: all of them, in their order;
/// and nothing but a list of tools, asked for, connects.
pub proof fn law_tools_are_kept_as_listed(c: ConnectionView, tools: Seq<McpTool>)
    ensures
        c.phase == McpPhase::Tools ==> progress(c, EventView::Tools(tools)) == (
            McpPhase::Tools,
            ProgressView::Connected(tools),
        ),
        c.phase != McpPhase::Tools ==> progress(c, EventView::Tools(tools)).1
            == ProgressView::Unexpected,
        forall|event: EventView|
            (#[trigger] progress(c, event)).1 is Connected ==> event is Tools && c.phase
                == McpPhase::Tools,
{
}

/// A connection in a phase.
pub open spec fn at_phase(c: ConnectionView, phase: McpPhase) -> ConnectionView {
    ConnectionView {
        name: c.name,
        transport: c.transport,
        oauth: c.oauth,
        url: c.url,
        server_url: c.server_url,
        phase,
    }
}

/// The calls that make up an authorization, one after another: what comes back is used as it is,
/// the scopes for the authorization, the address to be shown, the code to be changed for a token.
pub proof fn law_calls_of_an_authorization(
    c: ConnectionView,
    scopes: Seq<Seq<char>>,
    text: Seq<char>,
)
    ensures
        progress(at_phase(c, McpPhase::Initialize), EventView::Initialized { unauthorized: true })
            == (McpPhase::Discover, ProgressView::Call(CallView::DiscoverMetadata)),
        progress(at_phase(c, McpPhase::Initialize), EventView::Initialized { unauthorized: false })
            == (
            McpPhase::Banner,
            ProgressView::Call(CallView::Print("\n=== MCP OAuth Client ===\n\n"@)),
        ),
        progress(at_phase(c, McpPhase::Discover), EventView::Scopes(Some(scopes))) == (
            McpPhase::Authorize,
            ProgressView::Call(
                CallView::StartAuthorization {
                    scopes,
                    redirect_uri: "http://localhost:8080/callback"@,
                },
            ),
        ),
        progress(at_phase(c, McpPhase::Discover), EventView::Scopes(None)).1
            == ProgressView::Failed(
            ErrorView::McpOperation("Failed to get supported scopes from mcp server"@),
        ),
        progress(at_phase(c, McpPhase::Authorize), EventView::Done) == (
            McpPhase::Banner,
            ProgressView::Call(CallView::Print("\n=== MCP OAuth Client ===\n\n"@)),
        ),
        progress(at_phase(c, McpPhase::Banner), EventView::Done) == (
            McpPhase::Instruction,
            ProgressView::Call(
                CallView::Print(
                    "Please open the following URL in your browser to authorize:\n\n"@,
                ),
            ),
        ),
        progress(at_phase(c, McpPhase::Instruction), EventView::Done) == (
            McpPhase::Address,
            ProgressView::Call(CallView::GetAuthorizationUrl),
        ),
        progress(at_phase(c, McpPhase::Address), EventView::Text(text)) == (
            McpPhase::ShowAddress,
            ProgressView::Call(CallView::Print(text)),
        ),
        progress(at_phase(c, McpPhase::ShowAddress), EventView::Done) == (
            McpPhase::Waiting,
            ProgressView::Call(
                CallView::Print(
                    "\n\nWaiting for browser callback, please do not close this window...\n"@,
                ),
            ),
        ),
        progress(at_phase(c, McpPhase::Waiting), EventView::Done) == (
            McpPhase::FlushPrompt,
            ProgressView::Call(CallView::Flush),
        ),
        progress(at_phase(c, McpPhase::FlushPrompt), EventView::Done) == (
            McpPhase::Code,
            ProgressView::Call(CallView::AwaitCode),
        ),
        progress(at_phase(c, McpPhase::Code), EventView::Text(text)) == (
            McpPhase::Callback,
            ProgressView::Call(CallView::HandleCallback { code: text }),
        ),
        progress(at_phase(c, McpPhase::Callback), EventView::Done) == (
            McpPhase::Success,
            ProgressView::Call(
                CallView::Print("\nAuthorization successful! Access token obtained.\n\n"@),
            ),
        ),
        progress(at_phase(c, McpPhase::Success), EventView::Done) == (
            McpPhase::FlushSuccess,
            ProgressView::Call(CallView::Flush),
        ),
        progress(at_phase(c, McpPhase::FlushSuccess), EventView::Done) == (
            McpPhase::Manager,
            ProgressView::Call(CallView::TakeManager),
        ),
{
}

/// Once there is a token, or none is asked for, the server is reached over its transport, at the
/// address of the connection, and then asked for its tools.
pub proof fn law_calls_that_reach_the_server(c: ConnectionView)
    ensures
        c.transport == McpTransport::Sse ==> progress(
            at_phase(c, McpPhase::Manager),
            EventView::Done,
        ) == (
            McpPhase::Transport,
            ProgressView::Call(CallView::OpenStream { url: c.url, authorized: true }),
        ),
        c.transport != McpTransport::Sse ==> progress(
            at_phase(c, McpPhase::Manager),
            EventView::Done,
        ) == (
            McpPhase::Serve,
            ProgressView::Call(
                CallView::Serve { transport: c.transport, url: c.url, authorized: true },
            ),
        ),
        progress(at_phase(c, McpPhase::Transport), EventView::Done) == (
            McpPhase::Serve,
            ProgressView::Call(
                CallView::Serve { transport: c.transport, url: c.url, authorized: c.oauth },
            ),
        ),
        progress(at_phase(c, McpPhase::Serve), EventView::Done) == (
            McpPhase::Tools,
            ProgressView::Call(CallView::ListTools),
        ),
        transport_name(McpTransport::Sse) == "sse"@,
        transport_name(McpTransport::StreamHttp) == "stream-http"@,
        transport_name(McpTransport::Stdio) == "stdio"@,
{
}

/// An event that does not answer the call that was made last changes nothing.
pub proof fn law_other_answers_change_nothing(c: ConnectionView, event: EventView)
    ensures
        ({
            ||| event is Failed
            ||| event is Tools && c.phase == McpPhase::Tools
            ||| event is Initialized && c.phase == McpPhase::Initialize
            ||| event is Scopes && c.phase == McpPhase::Discover
            ||| event is Text && (c.phase == McpPhase::Address || c.phase == McpPhase::Code)
            ||| event is Done && c.phase != McpPhase::Initialize && c.phase != McpPhase::Discover
                && c.phase != McpPhase::Address && c.phase != McpPhase::Code && c.phase
                != McpPhase::Tools
            ||| progress(c, event) == (c.phase, ProgressView::Unexpected)
        }),
{
}

/// A call that fails ends the connection, and what is said of it tells the step and gives the
/// reason.
pub proof fn law_failures_tell_step_and_reason(c: ConnectionView, reason: Seq<char>)
    ensures
        progress(c, EventView::Failed(reason)) == (
            c.phase,
            ProgressView::Failed(failure(c, reason)),
        ),
        failure(at_phase(c, McpPhase::Initialize), reason) == ErrorView::McpOperation(
            "Failed to initialize oauth state machine: "@ + reason,
        ),
        failure(at_phase(c, McpPhase::Discover), reason) == ErrorView::McpOperation(
            "Failed to discover metadata: "@ + reason,
        ),
        failure(at_phase(c, McpPhase::Authorize), reason) == ErrorView::McpOperation(
            "Failed to start authorization: "@ + reason,
        ),
        failure(at_phase(c, McpPhase::Banner), reason) == ErrorView::McpOperation(
            "Failed to write to stdout: "@ + reason,
        ),
        failure(at_phase(c, McpPhase::Instruction), reason) == ErrorView::McpOperation(
            "Failed to write to stdout: "@ + reason,
        ),
        failure(at_phase(c, McpPhase::Address), reason) == ErrorView::McpOperation(
            "Failed to get authorization url: "@ + reason,
        ),
        failure(at_phase(c, McpPhase::ShowAddress), reason) == ErrorView::McpOperation(
            "Failed to write to stdout: "@ + reason,
        ),
        failure(at_phase(c, McpPhase::Waiting), reason) == ErrorView::McpOperation(
            "Failed to write to stdout: "@ + reason,
        ),
        failure(at_phase(c, McpPhase::FlushPrompt), reason) == ErrorView::McpOperation(
            "Failed to flush stdout: "@ + reason,
        ),
        failure(at_phase(c, McpPhase::Code), reason) == ErrorView::McpOperation(
            "Failed to get authorization code: "@ + reason,
        ),
        failure(at_phase(c, McpPhase::Callback), reason) == ErrorView::McpOperation(
            "Failed to handle callback: "@ + reason,
        ),
        failure(at_phase(c, McpPhase::Success), reason) == ErrorView::McpOperation(
            "Failed to write to stdout: "@ + reason,
        ),
        failure(at_phase(c, McpPhase::FlushSuccess), reason) == ErrorView::McpOperation(
            "Failed to flush stdout: "@ + reason,
        ),
        failure(at_phase(c, McpPhase::Manager), reason) == ErrorView::McpOperation(
            "Failed to get authorization manager"@,
        ),
        failure(at_phase(c, McpPhase::Transport), reason) == ErrorView::McpOperation(
            (if c.oauth {
                "Failed to create authorized transport: "@
            } else {
                "Failed to create sse transport: "@
            }) + reason,
        ),
        failure(at_phase(c, McpPhase::Serve), reason) == ErrorView::McpOperation(
            "Failed to connect to mcp server (name: "@ + c.name + ", url: "@ + (if c.transport
                == McpTransport::StreamHttp && !c.oauth {
                c.server_url
            } else {
                c.url
            }) + ", transport: "@ + transport_name(c.transport) + "). "@ + reason
                + ". Please check if the mcp server is running."@,
        ),
        failure(at_phase(c, McpPhase::Tools), reason) == ErrorView::McpOperation(
            "Failed to list tools: "@ + reason,
        ),
{
}

/// Settings with both addresses or with none are refused, and so is a transport that is not served.
pub proof fn law_settings_that_are_refused(s: SettingsView)
    ensures
        s.url is Some && s.oauth_url is Some ==> opening(s) == Err::<
            (ConnectionView, CallView),
            ErrorView,
        >(
            ErrorView::Operation(
                "Invalid configuration for mcp server '"@ + s.name
                    + "': Both url and oauth_url cannot be set at the same time"@,
            ),
        ),
        s.url is None && s.oauth_url is None ==> opening(s) == Err::<
            (ConnectionView, CallView),
            ErrorView,
        >(
            ErrorView::Operation(
                "Invalid configuration for mcp server '"@ + s.name
                    + "': Either url or oauth_url must be set"@,
            ),
        ),
        (s.url is Some) != (s.oauth_url is Some) && s.transport == McpTransport::Stdio
            ==> opening(s) == Err::<(ConnectionView, CallView), ErrorView>(
            ErrorView::Operation("Unsupported transport: "@ + "stdio"@),
        ),
{
}

/// A server without an authorization has to have an address with the ending of its transport; then
/// it is called at that address, without slashes at its end.
pub proof fn law_opening_without_authorization(s: SettingsView, url: Seq<char>)
    requires
        s.url == Some(url),
        s.oauth_url is None,
    ensures
        s.transport == McpTransport::Sse && !"/sse"@.is_suffix_of(trimmed(url, '/')) ==> opening(s)
            == Err::<(ConnectionView, CallView), ErrorView>(
            ErrorView::Operation(
                "Invalid mcp tools sse URL: "@ + trimmed(url, '/')
                    + ". The correct format should end with `/sse`"@,
            ),
        ),
        s.transport == McpTransport::StreamHttp && !"/mcp"@.is_suffix_of(trimmed(url, '/'))
            ==> opening(s) == Err::<(ConnectionView, CallView), ErrorView>(
            ErrorView::Operation(
                "Invalid mcp tools stream-http URL: "@ + trimmed(url, '/')
                    + ". The correct format should end with `/mcp`"@,
            ),
        ),
        s.transport == McpTransport::Sse && "/sse"@.is_suffix_of(trimmed(url, '/')) ==> opening(s)
            == Ok::<(ConnectionView, CallView), ErrorView>(
            (
                ConnectionView {
                    name: s.name,
                    transport: McpTransport::Sse,
                    oauth: false,
                    url: trimmed(url, '/'),
                    server_url: url,
                    phase: McpPhase::Transport,
                },
                CallView::OpenStream { url: trimmed(url, '/'), authorized: false },
            ),
        ),
        s.transport == McpTransport::StreamHttp && "/mcp"@.is_suffix_of(trimmed(url, '/'))
            ==> opening(s) == Ok::<(ConnectionView, CallView), ErrorView>(
            (
                ConnectionView {
                    name: s.name,
                    transport: McpTransport::StreamHttp,
                    oauth: false,
                    url: trimmed(url, '/'),
                    server_url: url,
                    phase: McpPhase::Serve,
                },
                CallView::Serve {
                    transport: McpTransport::StreamHttp,
                    url: trimmed(url, '/'),
                    authorized: false,
                },
            ),
        ),
{
}

/// A server with an authorization may have any address; the authorization is begun with it, and
/// the browser is waited for on port 8080.
pub proof fn law_opening_with_authorization(s: SettingsView, url: Seq<char>)
    requires
        s.url is None,
        s.oauth_url == Some(url),
        s.transport != McpTransport::Stdio,
    ensures
        opening(s) == Ok::<(ConnectionView, CallView), ErrorView>(
            (
                ConnectionView {
                    name: s.name,
                    transport: s.transport,
                    oauth: true,
                    url: trimmed(url, '/'),
                    server_url: url,
                    phase: McpPhase::Initialize,
                },
                CallView::InitializeOauth { url: trimmed(url, '/'), callback_port: 8080 },
            ),
        ),
{
}

/// Entering a server gives it each of its tools, and takes no other tool from its owner; under its
/// name stands the server with its tools, in their order, and its own words for when it is busy;
/// under every other name stands what stood there.
pub proof fn law_entering_a_server(
    before: McpRegistry,
    after: McpRegistry,
    server: SettingsView,
    tools: Seq<McpTool>,
    tool: Seq<char>,
    other: Seq<char>,
)
    requires
        after.has_entered(&before, server, tools),
    ensures
        forall|i: int|
            0 <= i < tools.len() ==> after.owner((#[trigger] tools[i]).name@) == Some(server.name),
        (forall|i: int| 0 <= i < tools.len() ==> (#[trigger] tools[i]).name@ != tool)
            ==> after.owner(tool) == before.owner(tool),
        after.services@.dom().contains(server.name),
        after.services@[server.name].name@ == server.name,
        after.services@[server.name].tools@.len() == tools.len(),
        forall|i: int|
            0 <= i < tools.len() ==> after.services@[server.name].tools@[i]@ == (
            #[trigger] tools[i]).name@,
        match after.services@[server.name].fallback_message {
            Some(message) => server.fallback_message == Some(message@),
            None => server.fallback_message is None,
        },
        other != server.name ==> after.services@.dom().contains(other)
            == before.services@.dom().contains(other),
        other != server.name && before.services@.dom().contains(other) ==> after.services@[other]
            == before.services@[other],
{
    let names = tool_names(tools);
    assert forall|i: int| 0 <= i < tools.len() implies after.owner((#[trigger] tools[i]).name@)
        == Some(server.name) by {
        assert(names[i] == tools[i].name@);
        assert(names.contains(tools[i].name@));
    }
    if forall|i: int| 0 <= i < tools.len() ==> (#[trigger] tools[i]).name@ != tool {
        if names.contains(tool) {
            let i = names.index_of(tool);
            assert(tools[i].name@ == tool);
        }
    }
    let entered = after.services@[server.name].tools@;
    assert(texts(entered).len() == names.len());
    assert forall|i: int| 0 <= i < tools.len() implies entered[i]@ == (
    #[trigger] tools[i]).name@ by {
        assert(texts(entered)[i] == names[i]);
    }
}

/// What contracts say of settings, of calls and of events is said of what they hold.
pub proof fn law_what_stands_for_a_connection(
    settings: McpToolServerConfig,
    connection: McpConnection,
    registry: McpRegistry,
    tools: Vec<McpTool>,
    scopes: Vec<String>,
    text: String,
    flag: bool,
    port: u16,
)
    ensures
        settings.settings().name == settings.name@,
        settings.settings().transport == settings.transport,
        settings.settings().url == text_of(settings.url),
        settings.settings().oauth_url == text_of(settings.oauth_url),
        settings.settings().enable == settings.enable,
        settings.settings().fallback_message == text_of(settings.fallback_message),
        connection@.name == connection.name@,
        connection@.transport == connection.transport,
        connection@.oauth == connection.oauth,
        connection@.url == connection.url@,
        connection@.server_url == connection.server_url@,
        connection@.phase == connection.phase,
        McpEvent::Done@ == EventView::Done,
        McpEvent::Failed(text)@ == EventView::Failed(text@),
        (McpEvent::Initialized { unauthorized: flag })@ == (EventView::Initialized {
            unauthorized: flag,
        }),
        McpEvent::Scopes(Some(scopes))@ == EventView::Scopes(Some(texts(scopes@))),
        McpEvent::Scopes(None)@ == EventView::Scopes(None),
        McpEvent::Text(text)@ == EventView::Text(text@),
        McpEvent::Tools(tools)@ == EventView::Tools(tools@),
        McpProgress::Connected(tools)@ == ProgressView::Connected(tools@),
        (McpCall::InitializeOauth { url: text, callback_port: port })@ == (
        CallView::InitializeOauth { url: text@, callback_port: port }),
        (McpCall::StartAuthorization { scopes, redirect_uri: text })@ == (
        CallView::StartAuthorization { scopes: texts(scopes@), redirect_uri: text@ }),
        McpCall::Print(text)@ == CallView::Print(text@),
        (McpCall::HandleCallback { code: text })@ == (CallView::HandleCallback { code: text@ }),
        (McpCall::OpenStream { url: text, authorized: flag })@ == (CallView::OpenStream {
            url: text@,
            authorized: flag,
        }),
        (McpCall::Serve { transport: settings.transport, url: text, authorized: flag })@ == (
        CallView::Serve { transport: settings.transport, url: text@, authorized: flag }),
        registry.tools@.dom().contains(text@) ==> registry.owner(text@) == Some(
            registry.tools@[text@]@,
        ),
        !registry.tools@.dom().contains(text@) ==> registry.owner(text@) is None,
{
}

} // verus!
