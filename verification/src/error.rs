//! The errors that the gateway answers with.
use vstd::prelude::*;

verus! {

/// What went wrong, with a message for the person who reads the log or the reply.
#[derive(Debug)]
pub enum ServerError {
    /// A request or a setting that the gateway cannot serve.
    Operation(String),
    /// A failure while talking to an MCP server.
    McpOperation(String),
    /// The configuration could not be brought in.
    FailedToLoadConfig(String),
}

/// An error with its message as text.
pub enum ErrorView {
    Operation(Seq<char>),
    McpOperation(Seq<char>),
    FailedToLoadConfig(Seq<char>),
}

impl View for ServerError {
    type V = ErrorView;

    open spec fn view(&self) -> ErrorView {
        match self {
            ServerError::Operation(m) => ErrorView::Operation(m@),
            ServerError::McpOperation(m) => ErrorView::McpOperation(m@),
            ServerError::FailedToLoadConfig(m) => ErrorView::FailedToLoadConfig(m@),
        }
    }
}

impl ErrorView {
    /// The message, whatever the kind of error.
    pub open spec fn message(self) -> Seq<char> {
        match self {
            ErrorView::Operation(m) => m,
            ErrorView::McpOperation(m) => m,
            ErrorView::FailedToLoadConfig(m) => m,
        }
    }
}

impl ServerError {
    /// The message, whatever the kind of error.
    pub fn message(&self) -> (r: String)
        ensures
            r@ == self@.message(),
    {
        match self {
            ServerError::Operation(m) => m.clone(),
            ServerError::McpOperation(m) => m.clone(),
            ServerError::FailedToLoadConfig(m) => m.clone(),
        }
    }
}

/// An [`ServerError::Operation`] whose message is `prefix` followed by `detail`.
pub fn operation(prefix: &str, detail: &str) -> (r: ServerError)
    ensures
        r@ == ErrorView::Operation(prefix@ + detail@),
{
    let mut message: String = prefix.to_owned();
    message.append(detail);
    ServerError::Operation(message)
}

/// An [`ServerError::McpOperation`] whose message is `prefix` followed by `detail`.
pub fn mcp_operation(prefix: &str, detail: &str) -> (r: ServerError)
    ensures
        r@ == ErrorView::McpOperation(prefix@ + detail@),
{
    let mut message: String = prefix.to_owned();
    message.append(detail);
    ServerError::McpOperation(message)
}

/// The message of an error is the text that it holds, whatever its kind.
pub proof fn law_message_of_an_error(error: ServerError, text: String)
    ensures
        error == ServerError::Operation(text) ==> error@ == ErrorView::Operation(text@),
        error == ServerError::McpOperation(text) ==> error@ == ErrorView::McpOperation(text@),
        error == ServerError::FailedToLoadConfig(text) ==> error@ == ErrorView::FailedToLoadConfig(
            text@,
        ),
        ErrorView::Operation(text@).message() == text@,
        ErrorView::McpOperation(text@).message() == text@,
        ErrorView::FailedToLoadConfig(text@).message() == text@,
{
}

} // verus!
