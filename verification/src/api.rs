//! Answering the requests of users: one more exchange of a conversation, and looking back at what
//! was said.
//!
//! An exchange alternates decisions, which are made here, and outside work, which the caller does:
//! each [`ChatAction`] is carried out, and what came of it goes back as a [`ChatEvent`].
use vstd::prelude::*;

use crate::clock::Timestamp;
use crate::database::{
    history_statement, insert_statement, law_insert_writes_each_column, sessions_statement,
    ChatMessage, MessageView, SqlView, Statement, StatementView,
};
use crate::error::{operation, ErrorView, ServerError};
use crate::json::{decode, decoded_json, reply_of, reply_text, Json, JsonView};
use crate::prompt::{
    assistant_message_of, build_prompt, encode_prompt, law_body_encodes_each_message,
    law_prompt_grows, law_prompt_holds_every_exchange, message_of, prompt_of, request_body,
    request_json, system_message_of, system_prompt, user_message_of, PromptView,
};
use crate::routing::{chosen_model, chosen_server, law_model_of_a_conversation, list_views};
use crate::server::ServerView;
use crate::state::AppState;
use crate::status::{
    is_status, is_success, print_status, status_text, succeeded, INTERNAL_SERVER_ERROR,
};
use crate::storage::{
    history_from_messages, law_recorded_in_its_session, lines_of, message_pairs, pair_texts,
    pairs_from_messages, ChatStorage, Exchange, Lookup,
};
use crate::text::{law_trimmed_leaves_the_rest, text_of, texts, trim_end, trimmed};

verus! {

/// What a user says, in which session, and to which model.
#[derive(Debug)]
pub struct ChatRequest {
    pub session_id: String,
    pub user_message: String,
    /// The model, where the user asks for one.
    pub model: Option<String>,
}

/// What the model answered.
#[derive(Debug)]
pub struct ChatResponse {
    pub reply: String,
}

/// What was said in a session.
#[derive(Debug)]
pub struct ChatHistoryResponse {
    pub session_id: String,
    pub messages: Vec<String>,
}

/// The sessions on record.
#[derive(Debug)]
pub struct SessionsResponse {
    pub sessions: Vec<String>,
}

/// How far an exchange has come: what it waits for.
#[derive(Debug)]
pub enum ChatPhase {
    /// What was said so far.
    History,
    /// The answer of the chat server.
    Answer,
    /// The words of a chat server that refused, and with which status.
    Refusal(u16),
    /// The document that the chat server answered with.
    Body,
    /// That the exchange is kept; the reply.
    Save(String),
    /// Nothing more.
    Done,
}

/// How far an exchange has come, with its texts.
pub enum PhaseView {
    History,
    Answer,
    Refusal(u16),
    Body,
    Save(Seq<char>),
    Done,
}

impl View for ChatPhase {
    type V = PhaseView;

    open spec fn view(&self) -> PhaseView {
        match self {
            ChatPhase::History => PhaseView::History,
            ChatPhase::Answer => PhaseView::Answer,
            ChatPhase::Refusal(status) => PhaseView::Refusal(*status),
            ChatPhase::Body => PhaseView::Body,
            ChatPhase::Save(reply) => PhaseView::Save(reply@),
            ChatPhase::Done => PhaseView::Done,
        }
    }
}

/// An exchange under way.
#[derive(Debug)]
pub struct ChatExchange {
    pub session_id: String,
    pub user_message: String,
    pub model: String,
    /// The authorization that came with the request.
    pub authorization: Option<String>,
    pub phase: ChatPhase,
}

/// An exchange under way with its texts.
pub struct ExchangeView {
    pub session_id: Seq<char>,
    pub user_message: Seq<char>,
    pub model: Seq<char>,
    pub authorization: Option<Seq<char>>,
    pub phase: PhaseView,
}

impl View for ChatExchange {
    type V = ExchangeView;

    open spec fn view(&self) -> ExchangeView {
        ExchangeView {
            session_id: self.session_id@,
            user_message: self.user_message@,
            model: self.model@,
            authorization: text_of(self.authorization),
            phase: self.phase@,
        }
    }
}

/// What the caller does next.
#[derive(Debug)]
pub enum ChatAction {
    /// Ask the database for the exchanges of the session.
    Query(Statement),
    /// Post the body, which is JSON, to the url, under the authorization if there is one.
    Send { url: String, authorization: Option<String>, body: Vec<u8> },
    /// Read the answer as text.
    ReadText,
    /// Read the answer as bytes.
    ReadBody,
    /// Run the statement.
    Save(Statement),
    /// Answer the user.
    Reply(ChatResponse),
    /// Answer the user with an error.
    Failed(ServerError),
    /// Nothing: what came back is no answer to the action that was last, and nothing has changed.
    Unexpected,
}

/// What the caller does next, with its texts.
pub enum ActionView {
    Query(StatementView),
    Send { url: Seq<char>, authorization: Option<Seq<char>>, body: Seq<u8> },
    ReadText,
    ReadBody,
    Save(StatementView),
    Reply(Seq<char>),
    Failed(ErrorView),
    Unexpected,
}

impl View for ChatAction {
    type V = ActionView;

    open spec fn view(&self) -> ActionView {
        match self {
            ChatAction::Query(statement) => ActionView::Query(statement@),
            ChatAction::Send { url, authorization, body } => ActionView::Send {
                url: url@,
                authorization: text_of(*authorization),
                body: body@,
            },
            ChatAction::ReadText => ActionView::ReadText,
            ChatAction::ReadBody => ActionView::ReadBody,
            ChatAction::Save(statement) => ActionView::Save(statement@),
            ChatAction::Reply(response) => ActionView::Reply(response.reply@),
            ChatAction::Failed(e) => ActionView::Failed(e@),
            ChatAction::Unexpected => ActionView::Unexpected,
        }
    }
}

/// What came of an action.
#[derive(Debug)]
pub enum ChatEvent {
    /// The rows that the database gave.
    Rows(Vec<ChatMessage>),
    /// The database gave none, for a fault of its own.
    NoRows,
    /// The request did not reach the chat server, or no answer came, with the reason.
    SendFailed(String),
    /// The chat server has answered with this status.
    Responded(u16),
    /// The answer as text, where it could be read.
    Text(Option<String>),
    /// The answer as bytes.
    Body(Vec<u8>),
    /// The answer could not be read, with the reason.
    BodyFailed(String),
    /// The exchange is kept.
    Saved,
    /// The exchange could not be kept.
    NotSaved,
}

/// What came of an action, with its texts.
pub enum ChatEventView {
    Rows(Seq<Exchange>),
    NoRows,
    SendFailed(Seq<char>),
    Responded(u16),
    Text(Option<Seq<char>>),
    Body(Seq<u8>),
    BodyFailed(Seq<char>),
    Saved,
    NotSaved,
}

impl View for ChatEvent {
    type V = ChatEventView;

    open spec fn view(&self) -> ChatEventView {
        match self {
            ChatEvent::Rows(messages) => ChatEventView::Rows(message_pairs(messages@)),
            ChatEvent::NoRows => ChatEventView::NoRows,
            ChatEvent::SendFailed(reason) => ChatEventView::SendFailed(reason@),
            ChatEvent::Responded(status) => ChatEventView::Responded(*status),
            ChatEvent::Text(text) => ChatEventView::Text(text_of(*text)),
            ChatEvent::Body(body) => ChatEventView::Body(body@),
            ChatEvent::BodyFailed(reason) => ChatEventView::BodyFailed(reason@),
            ChatEvent::Saved => ChatEventView::Saved,
            ChatEvent::NotSaved => ChatEventView::NotSaved,
        }
    }
}

/// Where a chat server at `url` is asked.
pub open spec fn endpoint(url: Seq<char>) -> Seq<char> {
    trimmed(url, '/') + "/chat/completions"@
}

/// Slashes at the end of the url of a server make no difference.
pub proof fn law_endpoint_ignores_slashes(url: Seq<char>)
    ensures
        endpoint(url.push('/')) == endpoint(url),
{
    assert(url.push('/').drop_last() =~= url);
}

/// The authorization that a server is asked with: the key of the server, unless it is empty, or
/// where the server has none the one that came with the request.
pub open spec fn authorization_for(
    api_key: Option<Seq<char>>,
    incoming: Option<Seq<char>>,
) -> Option<Seq<char>> {
    match api_key {
        Some(key) => if key.len() > 0 {
            Some(key)
        } else {
            None
        },
        None => incoming,
    }
}

/// Asking the server: how far the exchange then is, and what is done.
pub open spec fn asking(
    x: ExchangeView,
    pairs: Seq<Exchange>,
    server: Result<ServerView, ErrorView>,
) -> (PhaseView, ActionView) {
    match server {
        Err(e) => (PhaseView::Done, ActionView::Failed(e)),
        Ok(server) => match request_body(x.model, prompt_of(pairs, x.user_message)) {
            None => (
                PhaseView::Done,
                ActionView::Failed(
                    ErrorView::Operation("Downstream request failed: builder error"@),
                ),
            ),
            Some(body) => (
                PhaseView::Answer,
                ActionView::Send {
                    url: endpoint(server.url),
                    authorization: authorization_for(server.api_key, x.authorization),
                    body,
                },
            ),
        },
    }
}

/// The two states differ at most in whose turn it is; where a chat server was taken, the turn has
/// moved on to the next.
pub open spec fn turned(before: &AppState, after: &AppState) -> bool {
    &&& after.wf()
    &&& after.same_but_for_chat_turn(before)
    &&& chosen_server(before.chat_group(), before.chat_turn()) is Ok ==> after.chat_turn() == (
    before.chat_turn() + 1) % (before.chat_group()->0.len() as int)
}

/// What follows an event that neither asks a server nor keeps anything: how far the exchange then
/// is, and what is done. `None` where the exchange does not wait for that event.
pub open spec fn answered(phase: PhaseView, event: ChatEventView) -> Option<
    (PhaseView, ActionView),
> {
    match (phase, event) {
        (PhaseView::Answer, ChatEventView::SendFailed(reason)) => Some(
            (
                PhaseView::Done,
                ActionView::Failed(
                    ErrorView::Operation("Downstream request failed: "@ + reason),
                ),
            ),
        ),
        (PhaseView::Answer, ChatEventView::Responded(status)) => if is_success(status) {
            Some((PhaseView::Body, ActionView::ReadBody))
        } else {
            Some((PhaseView::Refusal(status), ActionView::ReadText))
        },
        (PhaseView::Refusal(status), ChatEventView::Text(text)) => Some(
            (PhaseView::Done, ActionView::Failed(refusal(status, text))),
        ),
        (PhaseView::Body, ChatEventView::BodyFailed(reason)) => Some(
            (PhaseView::Done, ActionView::Failed(unreadable(reason))),
        ),
        (PhaseView::Save(reply), ChatEventView::Saved) => Some(
            (PhaseView::Done, ActionView::Reply(reply)),
        ),
        (PhaseView::Save(reply), ChatEventView::NotSaved) => Some(
            (PhaseView::Done, ActionView::Reply(reply)),
        ),
        _ => None,
    }
}

/// What is said of a chat server that refused.
pub open spec fn refusal(status: u16, text: Option<Seq<char>>) -> ErrorView {
    ErrorView::Operation(
        "Downstream chat error "@ + status_text(status) + ": "@ + match text {
            Some(text) => text,
            None => seq![],
        },
    )
}

/// What is said of an answer that could not be read.
pub open spec fn unreadable(reason: Seq<char>) -> ErrorView {
    ErrorView::Operation("Failed to parse downstream response JSON: "@ + reason)
}

/// Taking in the document that a chat server answered with, `None` where it sent none: the reply
/// in it is kept, with what the user said, and given to the user. With a database it is the caller
/// who keeps it first.
pub open spec fn concluded(
    x: ExchangeView,
    before: &AppState,
    document: Option<JsonView>,
    y: ExchangeView,
    after: &AppState,
    action: ActionView,
) -> bool {
    match document {
        None => {
            &&& *after == *before
            &&& y == (ExchangeView { phase: PhaseView::Done, ..x })
            &&& action == ActionView::Failed(unreadable("error decoding response body"@))
        },
        Some(document) => {
            let reply = reply_of(document);
            &&& after.wf()
            &&& after.server_group == before.server_group
            &&& after.config == before.config
            &&& after.server_info == before.server_info
            &&& after.models == before.models
            &&& after.chat_storage.way() == before.chat_storage.way()
            &&& if before.chat_storage.persistent() {
                &&& after.chat_storage.same_memory(&before.chat_storage)
                &&& y == (ExchangeView { phase: PhaseView::Save(reply), ..x })
                &&& exists|timestamp: Timestamp|
                    timestamp.nanos < 1_000_000_000 && action == ActionView::Save(
                        #[trigger] kept(x, reply, timestamp),
                    )
            } else {
                &&& after.chat_storage.has_recorded(
                    &before.chat_storage,
                    x.session_id,
                    x.user_message,
                    reply,
                )
                &&& y == (ExchangeView { phase: PhaseView::Done, ..x })
                &&& action == ActionView::Reply(reply)
            }
        },
    }
}

/// The statement that keeps an exchange.
pub open spec fn kept(x: ExchangeView, reply: Seq<char>, timestamp: Timestamp) -> StatementView {
    insert_statement(
        MessageView {
            id: None,
            session_id: x.session_id,
            user_message: x.user_message,
            bot_reply: reply,
            timestamp,
        },
    )
}

/// How many more steps an exchange can take, at the most.
pub open spec fn steps_left(phase: PhaseView) -> nat {
    match phase {
        PhaseView::History => 4,
        PhaseView::Answer => 3,
        PhaseView::Refusal(_) => 2,
        PhaseView::Body => 2,
        PhaseView::Save(_) => 1,
        PhaseView::Done => 0,
    }
}

/// The authorization that a server is asked with.
fn pick_authorization(api_key: &Option<String>, incoming: &Option<String>) -> (r: Option<String>)
    ensures
        text_of(r) == authorization_for(text_of(*api_key), text_of(*incoming)),
{
    match api_key {
        Some(key) => if key.as_str().unicode_len() > 0 {
            Some(key.clone())
        } else {
            None
        },
        None => match incoming {
            Some(authorization) => Some(authorization.clone()),
            None => None,
        },
    }
}

/// Begins an exchange: picks the model, looks up what was said so far, and asks a server; with a
/// database the caller looks it up first.
pub fn handle_response(
    state: &mut AppState,
    authorization: Option<String>,
    payload: ChatRequest,
) -> (r: Result<(ChatExchange, ChatAction), ServerError>)
    requires
        old(state).wf(),
    ensures
        final(state).wf(),
        match chosen_model(text_of(payload.model), list_views(old(state).models.values())) {
            Err(e) => *final(state) == *old(state) && r is Err && r->Err_0@ == e,
            Ok(model) => {
                let x = ExchangeView {
                    session_id: payload.session_id@,
                    user_message: payload.user_message@,
                    model,
                    authorization: text_of(authorization),
                    phase: PhaseView::History,
                };
                if old(state).chat_storage.persistent() {
                    &&& *final(state) == *old(state)
                    &&& r is Ok
                    &&& r->Ok_0.0@ == x
                    &&& r->Ok_0.1@ == ActionView::Query(history_statement(x.session_id))
                } else {
                    let (phase, action) = asking(
                        x,
                        old(state).chat_storage.pairs(x.session_id),
                        chosen_server(old(state).chat_group(), old(state).chat_turn()),
                    );
                    &&& turned(old(state), final(state))
                    &&& match r {
                        Ok((exchange, next)) => action !is Failed && exchange@ == (
                        ExchangeView { phase, ..x }) && next@ == action,
                        Err(e) => action == ActionView::Failed(e@),
                    }
                }
            },
        },
        r is Ok ==> r->Ok_0.0.wf(),
        r matches Ok((exchange, ChatAction::Send { url: _, authorization: _, body })) ==> {
            let said = old(state).chat_storage.pairs(payload.session_id@);
            exists|messages: Seq<endpoints::chat::ChatCompletionRequestMessage>|
                {
                    &&& #[trigger] request_json(exchange.model@, messages, false) == Some(body@)
                    &&& messages.len() == 2 * said.len() + 2
                    &&& messages[0] == system_message_of(
                        "You are an AI assistant. Answer as helpfully and concisely as possible."@,
                    )
                    &&& forall|i: int|
                        0 <= i < said.len() ==> messages[1 + 2 * i] == user_message_of(
                            (#[trigger] said[i]).0,
                        ) && messages[2 + 2 * i] == assistant_message_of(said[i].1)
                    &&& messages.last() == user_message_of(payload.user_message@)
                }
        },
        r matches Ok((exchange, _)) ==> (payload.model matches Some(model) ==> exchange.model@
            == model@),
{
    let model = match state.choose_model(&payload.model) {
        Ok(model) => model,
        Err(e) => {
            return Err(e);
        },
    };
    let mut exchange = ChatExchange {
        session_id: payload.session_id,
        user_message: payload.user_message,
        model,
        authorization,
        phase: ChatPhase::History,
    };
    match state.chat_storage.get_session_pairs(exchange.session_id.as_str()) {
        Lookup::Query(statement) => Ok((exchange, ChatAction::Query(statement))),
        Lookup::Ready(pairs) => {
            let ghost said = state.chat_storage.pairs(exchange.session_id@);
            let ghost server = chosen_server(state.chat_group(), state.chat_turn());
            let ghost x = exchange@;
            let action = exchange.ask(state, &pairs);
            proof {
                lemma_sent_body(x, said, server);
            }
            match action {
                ChatAction::Failed(e) => Err(e),
                action => Ok((exchange, action)),
            }
        },
    }
}

impl ChatExchange {
    /// The status that the exchange remembers is one.
    pub open spec fn wf(&self) -> bool {
        self@.phase matches PhaseView::Refusal(status) ==> is_status(status)
    }

    /// Asks the chat server whose turn it is.
    fn ask(&mut self, state: &mut AppState, pairs: &Vec<(String, String)>) -> (r: ChatAction)
        requires
            old(state).wf(),
        ensures
            turned(old(state), final(state)),
            ({
                let (phase, action) = asking(
                    old(self)@,
                    pair_texts(pairs@),
                    chosen_server(old(state).chat_group(), old(state).chat_turn()),
                );
                final(self)@ == (ExchangeView { phase, ..old(self)@ }) && r@ == action
            }),
    {
        let prompt = build_prompt(pairs, self.user_message.as_str());
        let server = match state.acquire_chat_server() {
            Ok(server) => server,
            Err(e) => {
                self.phase = ChatPhase::Done;
                return ChatAction::Failed(e);
            },
        };
        let mut url: String = trim_end(server.url.as_str(), '/');
        url.append("/chat/completions");
        match encode_prompt(self.model.as_str(), &prompt) {
            Some(body) => {
                self.phase = ChatPhase::Answer;
                ChatAction::Send {
                    url,
                    authorization: pick_authorization(&server.api_key, &self.authorization),
                    body,
                }
            },
            None => {
                self.phase = ChatPhase::Done;
                ChatAction::Failed(
                    ServerError::Operation("Downstream request failed: builder error".to_owned()),
                )
            },
        }
    }

    /// Takes in the document that the chat server answered with, `None` where it sent none.
    pub fn conclude(&mut self, state: &mut AppState, document: Option<&Json>) -> (r: ChatAction)
        requires
            old(state).wf(),
        ensures
            final(state).wf(),
            if old(self)@.phase is Body {
                concluded(
                    old(self)@,
                    old(state),
                    match document {
                        Some(document) => Some(document@),
                        None => None,
                    },
                    final(self)@,
                    final(state),
                    r@,
                )
            } else {
                *final(self) == *old(self) && *final(state) == *old(state) && r@
                    == ActionView::Unexpected
            },
    {
        match &self.phase {
            ChatPhase::Body => {},
            _ => {
                return ChatAction::Unexpected;
            },
        }
        match document {
            None => {
                self.phase = ChatPhase::Done;
                ChatAction::Failed(
                    operation(
                        "Failed to parse downstream response JSON: ",
                        "error decoding response body",
                    ),
                )
            },
            Some(document) => {
                let reply = reply_text(document);
                match state.chat_storage.save_conversation(
                    self.session_id.as_str(),
                    self.user_message.as_str(),
                    reply.as_str(),
                ) {
                    Some(statement) => {
                        proof {
                            let timestamp = choose|timestamp: Timestamp|
                                timestamp.nanos < 1_000_000_000 && #[trigger] insert_statement(
                                    MessageView {
                                        id: None,
                                        session_id: self.session_id@,
                                        user_message: self.user_message@,
                                        bot_reply: reply@,
                                        timestamp,
                                    },
                                ) == statement@;
                            assert(kept(old(self)@, reply@, timestamp) == statement@);
                        }
                        self.phase = ChatPhase::Save(reply);
                        ChatAction::Save(statement)
                    },
                    None => {
                        self.phase = ChatPhase::Done;
                        ChatAction::Reply(ChatResponse { reply })
                    },
                }
            },
        }
    }

    /// Takes in what came of the last action and says what is done next.
    pub fn advance(&mut self, state: &mut AppState, event: ChatEvent) -> (r: ChatAction)
        requires
            old(self).wf(),
            old(state).wf(),
            event@ matches ChatEventView::Responded(status) ==> is_status(status),
        ensures
            final(self).wf(),
            final(state).wf(),
            match (old(self)@.phase, event@) {
                (PhaseView::History, ChatEventView::Rows(pairs)) => has_asked(
                    old(self)@,
                    old(state),
                    pairs,
                    final(self)@,
                    final(state),
                    r@,
                ),
                (PhaseView::History, ChatEventView::NoRows) => has_asked(
                    old(self)@,
                    old(state),
                    seq![],
                    final(self)@,
                    final(state),
                    r@,
                ),
                (PhaseView::Body, ChatEventView::Body(body)) => concluded(
                    old(self)@,
                    old(state),
                    decoded_json(body),
                    final(self)@,
                    final(state),
                    r@,
                ),
                (phase, event) => {
                    &&& *final(state) == *old(state)
                    &&& match answered(phase, event) {
                        Some((phase, action)) => final(self)@ == (ExchangeView {
                            phase,
                            ..old(self)@
                        }) && r@ == action,
                        None => *final(self) == *old(self) && r@ == ActionView::Unexpected,
                    }
                },
            },
            r@ !is Unexpected ==> steps_left(final(self)@.phase) < steps_left(old(self)@.phase),
            r@ is Failed ==> final(state).chat_storage == old(state).chat_storage,
            event matches ChatEvent::Rows(rows) ==> (r matches ChatAction::Send {
                url: _,
                authorization: _,
                body,
            } ==> exists|messages: Seq<endpoints::chat::ChatCompletionRequestMessage>|
                {
                    &&& #[trigger] request_json(old(self).model@, messages, false) == Some(body@)
                    &&& messages.len() == 2 * rows@.len() + 2
                    &&& messages[0] == system_message_of(
                        "You are an AI assistant. Answer as helpfully and concisely as possible."@,
                    )
                    &&& forall|i: int|
                        0 <= i < rows@.len() ==> messages[1 + 2 * i] == user_message_of(
                            (#[trigger] rows@[i]).user_message@,
                        ) && messages[2 + 2 * i] == assistant_message_of(rows@[i].bot_reply@)
                    &&& messages.last() == user_message_of(old(self).user_message@)
                }),
            event matches ChatEvent::NoRows ==> (r matches ChatAction::Send {
                url: _,
                authorization: _,
                body,
            } ==> request_json(
                old(self).model@,
                seq![
                    system_message_of(
                        "You are an AI assistant. Answer as helpfully and concisely as possible."@,
                    ),
                    user_message_of(old(self).user_message@),
                ],
                false,
            ) == Some(body@)),
            !(event is Rows) && !(event is NoRows) ==> !(r is Send),
    {
        match event {
            ChatEvent::Rows(messages) => {
                if let ChatPhase::History = &self.phase {
                    let pairs = pairs_from_messages(&messages);
                    proof {
                        lemma_sent_rows(
                            self@,
                            messages@,
                            chosen_server(state.chat_group(), state.chat_turn()),
                        );
                    }
                    return self.ask(state, &pairs);
                }
            },
            ChatEvent::NoRows => {
                if let ChatPhase::History = &self.phase {
                    let pairs: Vec<(String, String)> = Vec::new();
                    assert(pair_texts(pairs@) =~= seq![]);
                    proof {
                        let sent = seq![
                            system_message_of(
                                "You are an AI assistant. Answer as helpfully and concisely as possible."@,
                            ),
                            user_message_of(self.user_message@),
                        ];
                        let server = chosen_server(state.chat_group(), state.chat_turn());
                        if let Ok(server) = server {
                            law_server_gets_the_whole_conversation(self@, seq![], server, sent);
                        }
                    }
                    return self.ask(state, &pairs);
                }
            },
            ChatEvent::SendFailed(reason) => {
                if let ChatPhase::Answer = &self.phase {
                    self.phase = ChatPhase::Done;
                    return ChatAction::Failed(
                        operation("Downstream request failed: ", reason.as_str()),
                    );
                }
            },
            ChatEvent::Responded(status) => {
                if let ChatPhase::Answer = &self.phase {
                    if succeeded(status) {
                        self.phase = ChatPhase::Body;
                        return ChatAction::ReadBody;
                    }
                    self.phase = ChatPhase::Refusal(status);
                    return ChatAction::ReadText;
                }
            },
            ChatEvent::Text(text) => {
                if let ChatPhase::Refusal(status) = &self.phase {
                    let mut message: String = "Downstream chat error ".to_owned();
                    message.append(print_status(*status).as_str());
                    message.append(": ");
                    self.phase = ChatPhase::Done;
                    return ChatAction::Failed(
                        match text {
                            Some(text) => operation(message.as_str(), text.as_str()),
                            None => {
                                assert(message@ + seq![] =~= message@);
                                ServerError::Operation(message)
                            },
                        },
                    );
                }
            },
            ChatEvent::Body(body) => {
                if let ChatPhase::Body = &self.phase {
                    return match decode(body.as_slice()) {
                        Some(document) => self.conclude(state, Some(&document)),
                        None => self.conclude(state, None),
                    };
                }
            },
            ChatEvent::BodyFailed(reason) => {
                if let ChatPhase::Body = &self.phase {
                    self.phase = ChatPhase::Done;
                    return ChatAction::Failed(
                        operation("Failed to parse downstream response JSON: ", reason.as_str()),
                    );
                }
            },
            ChatEvent::Saved => {
                return self.reply();
            },
            ChatEvent::NotSaved => {
                return self.reply();
            },
        }
        ChatAction::Unexpected
    }

    /// Gives the reply, once it is settled whether the exchange is kept.
    fn reply(&mut self) -> (r: ChatAction)
        ensures
            match old(self)@.phase {
                PhaseView::Save(reply) => final(self)@ == (ExchangeView {
                    phase: PhaseView::Done,
                    ..old(self)@
                }) && r@ == ActionView::Reply(reply),
                _ => *final(self) == *old(self) && r@ == ActionView::Unexpected,
            },
    {
        let reply = match &self.phase {
            ChatPhase::Save(reply) => reply.clone(),
            _ => {
                return ChatAction::Unexpected;
            },
        };
        self.phase = ChatPhase::Done;
        ChatAction::Reply(ChatResponse { reply })
    }
}

/// The server has been asked, with these exchanges before.
pub open spec fn has_asked(
    x: ExchangeView,
    before: &AppState,
    pairs: Seq<Exchange>,
    y: ExchangeView,
    after: &AppState,
    action: ActionView,
) -> bool {
    let next = asking(x, pairs, chosen_server(before.chat_group(), before.chat_turn()));
    &&& turned(before, after)
    &&& y == (ExchangeView { phase: next.0, ..x })
    &&& action == next.1
}

/// The first prompt of a session holds what the model is told and what the user says, and no more.
pub proof fn law_first_prompt_has_no_history(
    storage: ChatStorage,
    session_id: Seq<char>,
    user_message: Seq<char>,
)
    requires
        storage.wf(),
        !storage.session_ids().contains(session_id),
    ensures
        prompt_of(storage.pairs(session_id), user_message) == seq![
            PromptView::System(system_prompt()),
            PromptView::User(user_message),
        ],
{
    assert(storage.lines(session_id) == Seq::<Seq<char>>::empty());
    assert(prompt_of(storage.pairs(session_id), user_message) =~= seq![
        PromptView::System(system_prompt()),
        PromptView::User(user_message),
    ]);
}

/// A conversation in memory goes on: once a reply is given, the next prompt of the session is the
/// last one with the reply and what the user says next behind it, and the other sessions are as
/// they were.
pub proof fn law_reply_is_remembered(
    x: ExchangeView,
    before: AppState,
    document: JsonView,
    y: ExchangeView,
    after: AppState,
    action: ActionView,
    next: Seq<char>,
)
    requires
        concluded(x, &before, Some(document), y, &after, action),
        !before.chat_storage.persistent(),
    ensures
        action == ActionView::Reply(reply_of(document)),
        prompt_of(after.chat_storage.pairs(x.session_id), next) == prompt_of(
            before.chat_storage.pairs(x.session_id),
            x.user_message,
        ).push(PromptView::Assistant(reply_of(document))).push(PromptView::User(next)),
        forall|id: Seq<char>|
            id != x.session_id ==> #[trigger] after.chat_storage.pairs(id)
                == before.chat_storage.pairs(id),
{
    law_prompt_grows(
        before.chat_storage.pairs(x.session_id),
        x.user_message,
        reply_of(document),
        next,
    );
    assert forall|id: Seq<char>| id != x.session_id implies #[trigger] after.chat_storage.pairs(id)
        == before.chat_storage.pairs(id) by {
        assert(after.chat_storage.lines(id) == before.chat_storage.lines(id));
    }
}

/// Looks back at what was said in a session; with a database the caller runs the statement and
/// goes on with [`chat_history_from`].
pub fn get_chat_history(state: &AppState, session_id: String) -> (r: Lookup<ChatHistoryResponse>)
    requires
        state.wf(),
    ensures
        match r {
            Lookup::Ready(response) => {
                &&& !state.chat_storage.persistent()
                &&& response.session_id@ == session_id@
                &&& texts(response.messages@) == state.chat_storage.lines(session_id@)
                &&& !state.chat_storage.session_ids().contains(session_id@) ==> texts(
                    response.messages@,
                ) == Seq::<Seq<char>>::empty()
            },
            Lookup::Query(statement) => state.chat_storage.persistent() && statement@
                == history_statement(session_id@),
        },
{
    match state.chat_storage.get_conversation_history(session_id.as_str()) {
        Lookup::Ready(messages) => Lookup::Ready(ChatHistoryResponse { session_id, messages }),
        Lookup::Query(statement) => Lookup::Query(statement),
    }
}

/// What was said in a session, from the rows that the database gave; where it gave none for a
/// fault of its own, the status of the answer.
pub fn chat_history_from(session_id: String, rows: Option<Vec<ChatMessage>>) -> (r: Result<
    ChatHistoryResponse,
    u16,
>)
    ensures
        match (rows, r) {
            (Some(rows), Ok(response)) => response.session_id@ == session_id@ && texts(
                response.messages@,
            ) == lines_of(message_pairs(rows@)),
            (None, Err(status)) => status == 500,
            _ => false,
        },
{
    match rows {
        Some(rows) => Ok(
            ChatHistoryResponse { session_id, messages: history_from_messages(&rows) },
        ),
        None => Err(INTERNAL_SERVER_ERROR),
    }
}

/// The sessions on record; with a database the caller runs the statement and goes on with
/// [`sessions_from`].
pub fn get_all_sessions(state: &AppState) -> (r: Lookup<SessionsResponse>)
    ensures
        match r {
            Lookup::Ready(response) => !state.chat_storage.persistent() && texts(
                response.sessions@,
            ) == state.chat_storage.session_ids(),
            Lookup::Query(statement) => state.chat_storage.persistent() && statement@
                == sessions_statement(),
        },
{
    match state.chat_storage.get_all_sessions() {
        Lookup::Ready(sessions) => Lookup::Ready(SessionsResponse { sessions }),
        Lookup::Query(statement) => Lookup::Query(statement),
    }
}

/// The sessions that the database gave; where it gave none for a fault of its own, the status of
/// the answer.
pub fn sessions_from(rows: Option<Vec<String>>) -> (r: Result<SessionsResponse, u16>)
    ensures
        match (rows, r) {
            (Some(rows), Ok(response)) => response.sessions == rows,
            (None, Err(status)) => status == 500,
            _ => false,
        },
{
    match rows {
        Some(sessions) => Ok(SessionsResponse { sessions }),
        None => Err(INTERNAL_SERVER_ERROR),
    }
}

/// A chat server is sent the whole conversation: where `messages` are what the model is told, of
/// every exchange what the user said and what the model answered, in order, and what the user says
/// now, their encoding for the model of the exchange goes to the address of the server, under its
/// key or else under the authorization of the request. Where there is no encoding, or no server,
/// that is said.
pub proof fn law_server_gets_the_whole_conversation(
    x: ExchangeView,
    pairs: Seq<Exchange>,
    server: ServerView,
    messages: Seq<endpoints::chat::ChatCompletionRequestMessage>,
)
    requires
        messages.len() == 2 * pairs.len() + 2,
        messages[0] == system_message_of(
            "You are an AI assistant. Answer as helpfully and concisely as possible."@,
        ),
        forall|i: int|
            0 <= i < pairs.len() ==> messages[1 + 2 * i] == user_message_of((#[trigger] pairs[i]).0)
                && messages[2 + 2 * i] == assistant_message_of(pairs[i].1),
        messages.last() == user_message_of(x.user_message),
    ensures
        request_json(x.model, messages, false) matches Some(body) ==> {
            let asked = asking(x, pairs, Ok(server));
            &&& asked.0 == PhaseView::Answer
            &&& asked.1 matches ActionView::Send { url, authorization, body: sent } && sent == body
                && url == trimmed(server.url, '/') + "/chat/completions"@ && authorization == (
            match server.api_key {
                Some(key) => if key.len() > 0 {
                    Some(key)
                } else {
                    None
                },
                None => x.authorization,
            })
        },
        request_json(x.model, messages, false) is None ==> asking(x, pairs, Ok(server)) == (
            PhaseView::Done,
            ActionView::Failed(ErrorView::Operation("Downstream request failed: builder error"@)),
        ),
{
    let prompt = prompt_of(pairs, x.user_message);
    law_prompt_holds_every_exchange(pairs, x.user_message);
    assert forall|k: int| 0 <= k < prompt.len() implies match #[trigger] prompt[k] {
        PromptView::System(s) => messages[k] == system_message_of(s),
        PromptView::User(s) => messages[k] == user_message_of(s),
        PromptView::Assistant(s) => messages[k] == assistant_message_of(s),
    } by {
        if 0 < k < prompt.len() - 1 {
            let i = (k - 1) / 2;
            let pair = pairs[i];
            if k % 2 == 1 {
                assert(k == 1 + 2 * i);
            } else {
                assert(k == 2 + 2 * i);
            }
        }
    }
    law_body_encodes_each_message(x.model, prompt, messages);
}

/// Without a server nothing is sent, and what stood in the way is said.
pub proof fn law_no_server_no_request(x: ExchangeView, pairs: Seq<Exchange>, e: ErrorView)
    ensures
        asking(x, pairs, Err(e)) == (PhaseView::Done, ActionView::Failed(e)),
{
}

/// What is sent is the encoding of the whole conversation.
proof fn lemma_sent_body(
    x: ExchangeView,
    pairs: Seq<Exchange>,
    server: Result<ServerView, ErrorView>,
)
    ensures
        asking(x, pairs, server).1 matches ActionView::Send { url: _, authorization: _, body }
            ==> exists|messages: Seq<endpoints::chat::ChatCompletionRequestMessage>|
            {
                &&& #[trigger] request_json(x.model, messages, false) == Some(body)
                &&& messages.len() == 2 * pairs.len() + 2
                &&& messages[0] == system_message_of(
                    "You are an AI assistant. Answer as helpfully and concisely as possible."@,
                )
                &&& forall|i: int|
                    0 <= i < pairs.len() ==> messages[1 + 2 * i] == user_message_of(
                        (#[trigger] pairs[i]).0,
                    ) && messages[2 + 2 * i] == assistant_message_of(pairs[i].1)
                &&& messages.last() == user_message_of(x.user_message)
            },
{
    match server {
        Err(e) => {
            law_no_server_no_request(x, pairs, e);
        },
        Ok(server) => {
            let prompt = prompt_of(pairs, x.user_message);
            let messages = prompt.map_values(|m: PromptView| message_of(m));
            law_prompt_holds_every_exchange(pairs, x.user_message);
            assert forall|i: int| 0 <= i < pairs.len() implies messages[1 + 2 * i]
                == user_message_of((#[trigger] pairs[i]).0) && messages[2 + 2 * i]
                == assistant_message_of(pairs[i].1) by {
                assert(prompt[1 + 2 * i] == PromptView::User(pairs[i].0));
            }
            law_server_gets_the_whole_conversation(x, pairs, server, messages);
        },
    }
}

/// What is sent is the encoding of the whole conversation that the rows hold.
proof fn lemma_sent_rows(
    x: ExchangeView,
    rows: Seq<ChatMessage>,
    server: Result<ServerView, ErrorView>,
)
    ensures
        asking(x, message_pairs(rows), server).1 matches ActionView::Send {
            url: _,
            authorization: _,
            body,
        } ==> exists|messages: Seq<endpoints::chat::ChatCompletionRequestMessage>|
            {
                &&& #[trigger] request_json(x.model, messages, false) == Some(body)
                &&& messages.len() == 2 * rows.len() + 2
                &&& messages[0] == system_message_of(
                    "You are an AI assistant. Answer as helpfully and concisely as possible."@,
                )
                &&& forall|i: int|
                    0 <= i < rows.len() ==> messages[1 + 2 * i] == user_message_of(
                        (#[trigger] rows[i]).user_message@,
                    ) && messages[2 + 2 * i] == assistant_message_of(rows[i].bot_reply@)
                &&& messages.last() == user_message_of(x.user_message)
            },
{
    let said = message_pairs(rows);
    lemma_sent_body(x, said, server);
    if let ActionView::Send { url, authorization, body } = asking(x, said, server).1 {
        let messages = choose|messages: Seq<endpoints::chat::ChatCompletionRequestMessage>|
            {
                &&& #[trigger] request_json(x.model, messages, false) == Some(body)
                &&& messages.len() == 2 * said.len() + 2
                &&& messages[0] == system_message_of(
                    "You are an AI assistant. Answer as helpfully and concisely as possible."@,
                )
                &&& forall|i: int|
                    0 <= i < said.len() ==> messages[1 + 2 * i] == user_message_of(
                        (#[trigger] said[i]).0,
                    ) && messages[2 + 2 * i] == assistant_message_of(said[i].1)
                &&& messages.last() == user_message_of(x.user_message)
            };
        assert forall|i: int| 0 <= i < rows.len() implies messages[1 + 2 * i] == user_message_of(
            (#[trigger] rows[i]).user_message@,
        ) && messages[2 + 2 * i] == assistant_message_of(rows[i].bot_reply@) by {
            assert(said[i].0 == rows[i].user_message@);
        }
        assert(request_json(x.model, messages, false) == Some(body));
    }
}

/// A server is asked at its url, without slashes at its end, with the path behind it.
pub proof fn law_endpoint_of_a_server(url: Seq<char>, key: Seq<char>, incoming: Option<Seq<char>>)
    ensures
        url.len() == 0 || url.last() != '/' ==> endpoint(url) == url + "/chat/completions"@,
        key.len() > 0 ==> authorization_for(Some(key), incoming) == Some(key),
        key.len() == 0 ==> authorization_for(Some(key), incoming) is None,
        authorization_for(None, incoming) == incoming,
{
    law_trimmed_leaves_the_rest(url, '/');
}

/// What each answer of a chat server, and each failure on the way, leads to.
pub proof fn law_answers_and_failures(
    status: u16,
    reason: Seq<char>,
    text: Seq<char>,
    reply: Seq<char>,
)
    ensures
        answered(PhaseView::Answer, ChatEventView::SendFailed(reason)) == Some(
            (
                PhaseView::Done,
                ActionView::Failed(ErrorView::Operation("Downstream request failed: "@ + reason)),
            ),
        ),
        200 <= status <= 299 ==> answered(PhaseView::Answer, ChatEventView::Responded(status))
            == Some((PhaseView::Body, ActionView::ReadBody)),
        status < 200 || status > 299 ==> answered(
            PhaseView::Answer,
            ChatEventView::Responded(status),
        ) == Some((PhaseView::Refusal(status), ActionView::ReadText)),
        answered(PhaseView::Refusal(status), ChatEventView::Text(Some(text))) == Some(
            (
                PhaseView::Done,
                ActionView::Failed(
                    ErrorView::Operation(
                        "Downstream chat error "@ + status_text(status) + ": "@ + text,
                    ),
                ),
            ),
        ),
        answered(PhaseView::Refusal(status), ChatEventView::Text(None)) == Some(
            (
                PhaseView::Done,
                ActionView::Failed(
                    ErrorView::Operation("Downstream chat error "@ + status_text(status) + ": "@),
                ),
            ),
        ),
        answered(PhaseView::Body, ChatEventView::BodyFailed(reason)) == Some(
            (
                PhaseView::Done,
                ActionView::Failed(
                    ErrorView::Operation("Failed to parse downstream response JSON: "@ + reason),
                ),
            ),
        ),
        answered(PhaseView::Save(reply), ChatEventView::Saved) == Some(
            (PhaseView::Done, ActionView::Reply(reply)),
        ),
        answered(PhaseView::Save(reply), ChatEventView::NotSaved) == Some(
            (PhaseView::Done, ActionView::Reply(reply)),
        ),
{
    let said = "Downstream chat error "@ + status_text(status) + ": "@;
    assert(said + seq![] =~= said);
}

/// An event that the exchange does not wait for leads to nothing.
pub proof fn law_other_events_lead_nowhere(phase: PhaseView, event: ChatEventView)
    ensures
        answered(phase, event) is Some ==> {
            ||| phase is Answer && (event is SendFailed || event is Responded)
            ||| phase is Refusal && event is Text
            ||| phase is Body && event is BodyFailed
            ||| phase is Save && (event is Saved || event is NotSaved)
        },
{
}

/// With a database, a reply is handed over to be kept before it is given: with its session, what the
/// user said and the whole reply, for the columns of those names. A document that is none keeps
/// nothing and is said to be none.
pub proof fn law_reply_goes_to_the_database(
    x: ExchangeView,
    before: AppState,
    document: Option<JsonView>,
    y: ExchangeView,
    after: AppState,
    action: ActionView,
)
    requires
        concluded(x, &before, document, y, &after, action),
    ensures
        document matches Some(document) ==> before.chat_storage.persistent() ==> {
            &&& y.phase == PhaseView::Save(reply_of(document))
            &&& y.session_id == x.session_id && y.user_message == x.user_message && y.model
                == x.model
            &&& after.chat_storage.same_memory(&before.chat_storage)
            &&& action matches ActionView::Save(statement) && statement.sql
                == "INSERT INTO chat_messages (session_id, user_message, bot_reply, timestamp) VALUES (?, ?, ?, ?)"@
                && statement.binds.len() == 4 && statement.binds[0] == SqlView::Text(x.session_id)
                && statement.binds[1] == SqlView::Text(x.user_message) && statement.binds[2]
                == SqlView::Text(reply_of(document)) && statement.binds[3] is Time
        },
        document is None ==> {
            &&& after == before
            &&& y.phase == PhaseView::Done
            &&& action == ActionView::Failed(
                ErrorView::Operation(
                    "Failed to parse downstream response JSON: "@ + "error decoding response body"@,
                ),
            )
        },
{
    if document is Some && before.chat_storage.persistent() {
        let reply = reply_of(document->0);
        let timestamp = choose|timestamp: Timestamp|
            timestamp.nanos < 1_000_000_000 && action == ActionView::Save(
                #[trigger] kept(x, reply, timestamp),
            );
        law_insert_writes_each_column(
            MessageView {
                id: None,
                session_id: x.session_id,
                user_message: x.user_message,
                bot_reply: reply,
                timestamp,
            },
        );
    }
}

/// What contracts say of an exchange, of an action and of an event is said of what they hold.
pub proof fn law_what_stands_for_an_exchange(
    exchange: ChatExchange,
    url: String,
    authorization: Option<String>,
    body: Vec<u8>,
    reply: String,
    status: u16,
)
    ensures
        exchange@.session_id == exchange.session_id@,
        exchange@.user_message == exchange.user_message@,
        exchange@.model == exchange.model@,
        exchange@.authorization == text_of(exchange.authorization),
        exchange@.phase == exchange.phase@,
        (ChatAction::Send { url, authorization, body })@ == (ActionView::Send {
            url: url@,
            authorization: text_of(authorization),
            body: body@,
        }),
        ChatAction::Reply(ChatResponse { reply })@ == ActionView::Reply(reply@),
        ChatEvent::SendFailed(reply)@ == ChatEventView::SendFailed(reply@),
        ChatEvent::BodyFailed(reply)@ == ChatEventView::BodyFailed(reply@),
        ChatEvent::Text(Some(reply))@ == ChatEventView::Text(Some(reply@)),
        ChatEvent::Text(None)@ == ChatEventView::Text(None),
        ChatEvent::Body(body)@ == ChatEventView::Body(body@),
        ChatEvent::Responded(status)@ == ChatEventView::Responded(status),
        ChatEvent::Saved@ == ChatEventView::Saved,
        ChatEvent::NotSaved@ == ChatEventView::NotSaved,
        ChatEvent::NoRows@ == ChatEventView::NoRows,
        ChatPhase::Save(reply)@ == PhaseView::Save(reply@),
        ChatPhase::Refusal(status)@ == PhaseView::Refusal(status),
        ChatPhase::History@ == PhaseView::History,
        ChatPhase::Answer@ == PhaseView::Answer,
        ChatPhase::Body@ == PhaseView::Body,
        ChatPhase::Done@ == PhaseView::Done,
{
}

/// Once what was said so far is known, the exchange goes on to the chat server whose turn it is:
/// as [`asking`] says of that server, of those exchanges, and of the exchange as it stands; nothing
/// else of the state changes but whose turn is next.
pub proof fn law_exchange_goes_to_the_server_whose_turn_it_is(
    x: ExchangeView,
    before: AppState,
    pairs: Seq<Exchange>,
    y: ExchangeView,
    after: AppState,
    action: ActionView,
    servers: Seq<ServerView>,
)
    requires
        has_asked(x, &before, pairs, y, &after, action),
    ensures
        before.chat_group() == Some(servers) && 0 <= before.chat_turn() < servers.len() ==> action
            == asking(x, pairs, Ok(servers[before.chat_turn()])).1 && y.phase == asking(
            x,
            pairs,
            Ok(servers[before.chat_turn()]),
        ).0 && after.chat_turn() == (before.chat_turn() + 1) % (servers.len() as int),
        before.chat_group() is None ==> action == ActionView::Failed(
            ErrorView::Operation("No chat server available"@),
        ) && y.phase == PhaseView::Done,
        y.session_id == x.session_id,
        y.user_message == x.user_message,
        y.model == x.model,
        y.authorization == x.authorization,
        after.chat_storage == before.chat_storage,
        after.config == before.config,
        after.models == before.models,
        after.server_info == before.server_info,
        after.registered() == before.registered(),
{
    law_model_of_a_conversation(seq![], seq![], servers, before.chat_turn());
}

/// Taking in a document changes the record of conversations and nothing else of the state.
pub proof fn law_document_touches_the_record_only(
    x: ExchangeView,
    before: AppState,
    document: Option<JsonView>,
    y: ExchangeView,
    after: AppState,
    action: ActionView,
)
    requires
        concluded(x, &before, document, y, &after, action),
    ensures
        after.server_group == before.server_group,
        after.config == before.config,
        after.server_info == before.server_info,
        after.models == before.models,
        after.chat_storage.way() == before.chat_storage.way(),
        y.session_id == x.session_id,
        y.user_message == x.user_message,
        y.model == x.model,
        y.authorization == x.authorization,
        document is Some && !before.chat_storage.persistent() ==> {
            let lines = after.chat_storage.lines(x.session_id);
            &&& lines == before.chat_storage.lines(x.session_id) + seq![
                "User: "@ + x.user_message,
                "Bot: "@ + reply_of(document->0),
            ]
            &&& action == ActionView::Reply(reply_of(document->0))
            &&& y.phase == PhaseView::Done
        },
{
    if document is Some && !before.chat_storage.persistent() {
        law_recorded_in_its_session(
            before.chat_storage,
            after.chat_storage,
            x.session_id,
            x.user_message,
            reply_of(document->0),
            seq![],
        );
    }
}

} // verus!
