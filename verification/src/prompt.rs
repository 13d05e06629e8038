//! What a chat server is asked: the messages of a conversation, and the body of the request.
use vstd::prelude::*;

use crate::storage::{pair_texts, Exchange};

verus! {

/// One message to the model.
#[derive(Debug)]
pub enum PromptMessage {
    System(String),
    User(String),
    Assistant(String),
}

/// One message to the model with its text.
pub enum PromptView {
    System(Seq<char>),
    User(Seq<char>),
    Assistant(Seq<char>),
}

impl View for PromptMessage {
    type V = PromptView;

    open spec fn view(&self) -> PromptView {
        match self {
            PromptMessage::System(s) => PromptView::System(s@),
            PromptMessage::User(s) => PromptView::User(s@),
            PromptMessage::Assistant(s) => PromptView::Assistant(s@),
        }
    }
}

/// What the model is told before a conversation.
pub open spec fn system_prompt() -> Seq<char> {
    "You are an AI assistant. Answer as helpfully and concisely as possible."@
}

/// The messages of the exchanges: for each what the user said and what the model answered.
pub open spec fn history_messages(pairs: Seq<Exchange>) -> Seq<PromptView> {
    Seq::new(
        2 * pairs.len(),
        |i: int|
            if i % 2 == 0 {
                PromptView::User(pairs[i / 2].0)
            } else {
                PromptView::Assistant(pairs[i / 2].1)
            },
    )
}

/// The messages that a chat server gets: what it is told, what was said so far, and what the user
/// says now.
pub open spec fn prompt_of(pairs: Seq<Exchange>, user_message: Seq<char>) -> Seq<PromptView> {
    seq![PromptView::System(system_prompt())] + history_messages(pairs) + seq![
        PromptView::User(user_message),
    ]
}

/// The messages of a list with their texts.
pub open spec fn prompt_views(messages: Seq<PromptMessage>) -> Seq<PromptView> {
    messages.map_values(|m: PromptMessage| m@)
}

/// The messages that a chat server gets.
pub fn build_prompt(pairs: &Vec<(String, String)>, user_message: &str) -> (r: Vec<PromptMessage>)
    ensures
        prompt_views(r@) == prompt_of(pair_texts(pairs@), user_message@),
{
    let mut messages: Vec<PromptMessage> = Vec::new();
    messages.push(
        PromptMessage::System(
            "You are an AI assistant. Answer as helpfully and concisely as possible.".to_owned(),
        ),
    );
    let ghost said = history_messages(pair_texts(pairs@));
    let mut i: usize = 0;
    while i < pairs.len()
        invariant
            i <= pairs@.len(),
            said == history_messages(pair_texts(pairs@)),
            messages@.len() == 1 + 2 * i,
            messages@[0]@ == PromptView::System(system_prompt()),
            forall|j: int| 0 <= j < 2 * i ==> (#[trigger] messages@[j + 1])@ == said[j],
        decreases pairs@.len() - i,
    {
        let ghost before = messages@;
        messages.push(PromptMessage::User(pairs[i].0.clone()));
        messages.push(PromptMessage::Assistant(pairs[i].1.clone()));
        assert forall|j: int| 0 <= j < 2 * (i + 1) implies (#[trigger] messages@[j + 1])@
            == said[j] by {
            if j < 2 * i {
                assert(messages@[j + 1] == before[j + 1]);
            }
        }
        i += 1;
    }
    messages.push(PromptMessage::User(user_message.to_owned()));
    proof {
        let views = prompt_views(messages@);
        let whole = prompt_of(pair_texts(pairs@), user_message@);
        assert forall|k: int| 0 <= k < views.len() implies views[k] == whole[k] by {
            if 0 < k < views.len() - 1 {
                assert(messages@[(k - 1) + 1]@ == said[k - 1]);
            }
        }
        assert(views =~= whole);
    }
    messages
}

/// A conversation goes on: once the model has answered, the next prompt is the last one with that
/// answer and what the user says next behind it.
pub proof fn law_prompt_grows(
    pairs: Seq<Exchange>,
    user: Seq<char>,
    reply: Seq<char>,
    next: Seq<char>,
)
    ensures
        prompt_of(pairs.push((user, reply)), next) == prompt_of(pairs, user).push(
            PromptView::Assistant(reply),
        ).push(PromptView::User(next)),
{
    let grown = history_messages(pairs.push((user, reply)));
    assert(grown =~= history_messages(pairs).push(PromptView::User(user)).push(
        PromptView::Assistant(reply),
    ));
    assert(prompt_of(pairs.push((user, reply)), next) =~= prompt_of(pairs, user).push(
        PromptView::Assistant(reply),
    ).push(PromptView::User(next)));
}

/// A prompt begins with what the model is told; then the user and the model take turns, and the
/// user has the last word.
pub proof fn law_prompt_alternates(pairs: Seq<Exchange>, user: Seq<char>)
    ensures
        prompt_of(pairs, user).len() == 2 * pairs.len() + 2,
        prompt_of(pairs, user)[0] == PromptView::System(system_prompt()),
        forall|i: int|
            0 < i < prompt_of(pairs, user).len() ==> if i % 2 == 1 {
                (#[trigger] prompt_of(pairs, user)[i]) is User
            } else {
                prompt_of(pairs, user)[i] is Assistant
            },
        prompt_of(pairs, user).last() == PromptView::User(user),
{
}

/// A message as the `endpoints` crate holds it.
#[verifier::external_type_specification]
#[verifier::external_body]
pub struct ExMessage(endpoints::chat::ChatCompletionRequestMessage);

/// The message that `ChatCompletionRequestMessage::new_system_message` makes of a text without a
/// name.
pub uninterp spec fn system_message_of(
    content: Seq<char>,
) -> endpoints::chat::ChatCompletionRequestMessage;

/// The message that `ChatCompletionRequestMessage::new_user_message` makes of a text without a
/// name.
pub uninterp spec fn user_message_of(
    content: Seq<char>,
) -> endpoints::chat::ChatCompletionRequestMessage;

/// The message that `ChatCompletionRequestMessage::new_assistant_message` makes of a text without
/// a name and without calls of tools.
pub uninterp spec fn assistant_message_of(
    content: Seq<char>,
) -> endpoints::chat::ChatCompletionRequestMessage;

/// The bytes that `serde_json::to_vec` makes of a `ChatCompletionRequest` that has this model,
/// these messages and this flag, and is otherwise the default one; `None` where it fails.
pub uninterp spec fn request_json(
    model: Seq<char>,
    messages: Seq<endpoints::chat::ChatCompletionRequestMessage>,
    stream: bool,
) -> Option<Seq<u8>>;

/// Calls `ChatCompletionRequestMessage::new_system_message` without a name: the text alone decides
/// what comes back.
#[verifier::external_body]
fn system_message(content: &str) -> (r: endpoints::chat::ChatCompletionRequestMessage)
    ensures
        r == system_message_of(content@),
{
    endpoints::chat::ChatCompletionRequestMessage::new_system_message(content, None)
}

/// Calls `ChatCompletionRequestMessage::new_user_message` for a text without a name: the text alone
/// decides what comes back.
#[verifier::external_body]
fn user_message(content: &str) -> (r: endpoints::chat::ChatCompletionRequestMessage)
    ensures
        r == user_message_of(content@),
{
    endpoints::chat::ChatCompletionRequestMessage::new_user_message(
        endpoints::chat::ChatCompletionUserMessageContent::Text(content.to_owned()),
        None,
    )
}

/// Calls `ChatCompletionRequestMessage::new_assistant_message` for a text without a name and
/// without calls of tools: the text alone decides what comes back.
#[verifier::external_body]
fn assistant_message(content: &str) -> (r: endpoints::chat::ChatCompletionRequestMessage)
    ensures
        r == assistant_message_of(content@),
{
    endpoints::chat::ChatCompletionRequestMessage::new_assistant_message(
        Some(content.to_owned()),
        None,
        None,
    )
}

/// Calls `serde_json::to_vec` for a `ChatCompletionRequest` with the model, the messages and the
/// flag in it, and the defaults of the crate in its other fields: those three alone decide what
/// comes back.
#[verifier::external_body]
fn encode_request(
    model: &str,
    messages: Vec<endpoints::chat::ChatCompletionRequestMessage>,
    stream: bool,
) -> (r: Result<Vec<u8>, serde_json::Error>)
    ensures
        match r {
            Ok(body) => request_json(model@, messages@, stream) == Some(body@),
            Err(_) => request_json(model@, messages@, stream) is None,
        },
{
    serde_json::to_vec(
        &endpoints::chat::ChatCompletionRequest {
            model: Some(model.to_owned()),
            messages,
            stream: Some(stream),
            ..Default::default()
        },
    )
}

/// A message as the `endpoints` crate holds it.
pub open spec fn message_of(message: PromptView) -> endpoints::chat::ChatCompletionRequestMessage {
    match message {
        PromptView::System(s) => system_message_of(s),
        PromptView::User(s) => user_message_of(s),
        PromptView::Assistant(s) => assistant_message_of(s),
    }
}

/// The body of a request that is answered in one piece; `None` where it cannot be written.
pub open spec fn request_body(model: Seq<char>, prompt: Seq<PromptView>) -> Option<Seq<u8>> {
    request_json(model, prompt.map_values(|m: PromptView| message_of(m)), false)
}

/// The body of a request that is answered in one piece; `None` where it cannot be written.
pub fn encode_prompt(model: &str, prompt: &Vec<PromptMessage>) -> (r: Option<Vec<u8>>)
    ensures
        match r {
            Some(body) => request_body(model@, prompt_views(prompt@)) == Some(body@),
            None => request_body(model@, prompt_views(prompt@)) is None,
        },
{
    let mut messages: Vec<endpoints::chat::ChatCompletionRequestMessage> = Vec::new();
    let mut i: usize = 0;
    while i < prompt.len()
        invariant
            i <= prompt@.len(),
            messages@.len() == i,
            forall|j: int| 0 <= j < i ==> #[trigger] messages@[j] == message_of(prompt@[j]@),
        decreases prompt@.len() - i,
    {
        let message = match &prompt[i] {
            PromptMessage::System(s) => system_message(s.as_str()),
            PromptMessage::User(s) => user_message(s.as_str()),
            PromptMessage::Assistant(s) => assistant_message(s.as_str()),
        };
        messages.push(message);
        i += 1;
    }
    assert(messages@ =~= prompt_views(prompt@).map_values(|m: PromptView| message_of(m)));
    match encode_request(model, messages, false) {
        Ok(body) => Some(body),
        Err(_) => None,
    }
}

/// A prompt holds everything that was said: in front what the model is told, then of every exchange
/// what the user said and what the model answered, in order, and at the end what the user says now.
pub proof fn law_prompt_holds_every_exchange(pairs: Seq<Exchange>, user: Seq<char>)
    ensures
        prompt_of(pairs, user).len() == 2 * pairs.len() + 2,
        prompt_of(pairs, user)[0] == PromptView::System(
            "You are an AI assistant. Answer as helpfully and concisely as possible."@,
        ),
        forall|i: int|
            0 <= i < pairs.len() ==> {
                &&& prompt_of(pairs, user)[1 + 2 * i] == PromptView::User((#[trigger] pairs[i]).0)
                &&& prompt_of(pairs, user)[2 + 2 * i] == PromptView::Assistant(pairs[i].1)
            },
        prompt_of(pairs, user)[2 * (pairs.len() as int) + 1] == PromptView::User(user),
{
    let prompt = prompt_of(pairs, user);
    let said = history_messages(pairs);
    assert forall|i: int| 0 <= i < pairs.len() implies {
        &&& prompt[1 + 2 * i] == PromptView::User((#[trigger] pairs[i]).0)
        &&& prompt[2 + 2 * i] == PromptView::Assistant(pairs[i].1)
    } by {
        assert(prompt[1 + 2 * i] == said[2 * i]);
        assert(prompt[2 + 2 * i] == said[2 * i + 1]);
    }
}

/// The body of a request is the encoding, for the model and for an answer in one piece, of the
/// messages one by one, each in the role it has.
pub proof fn law_body_encodes_each_message(
    model: Seq<char>,
    prompt: Seq<PromptView>,
    messages: Seq<endpoints::chat::ChatCompletionRequestMessage>,
)
    requires
        messages.len() == prompt.len(),
        forall|i: int|
            0 <= i < prompt.len() ==> match #[trigger] prompt[i] {
                PromptView::System(s) => messages[i] == system_message_of(s),
                PromptView::User(s) => messages[i] == user_message_of(s),
                PromptView::Assistant(s) => messages[i] == assistant_message_of(s),
            },
    ensures
        request_body(model, prompt) == request_json(model, messages, false),
{
    assert(messages =~= prompt.map_values(|m: PromptView| message_of(m)));
}

/// What contracts say of a message is said of its role and its text.
pub proof fn law_what_stands_for_a_message(messages: Seq<PromptMessage>, i: int)
    requires
        0 <= i < messages.len(),
    ensures
        prompt_views(messages).len() == messages.len(),
        match messages[i] {
            PromptMessage::System(s) => prompt_views(messages)[i] == PromptView::System(s@),
            PromptMessage::User(s) => prompt_views(messages)[i] == PromptView::User(s@),
            PromptMessage::Assistant(s) => prompt_views(messages)[i] == PromptView::Assistant(s@),
        },
{
}

} // verus!
