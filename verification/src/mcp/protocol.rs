//! The values that the server exchanges with its client, and the routing
//! of requests by method name.

use vstd::prelude::*;
use vstd::std_specs::convert::IntoSpec;
use crate::text::same_text;

verus! {

/// Error code for a request that is not valid JSON.
pub const PARSE_ERROR: i64 = -32700;

/// Error code for a request whose method the server does not know.
pub const METHOD_NOT_FOUND: i64 = -32601;

pub struct ServerCapabilities {
    pub tools: ToolsCapability,
}

pub struct ToolsCapability {
    pub list_changed: bool,
}

pub struct InitializeResult {
    pub protocol_version: String,
    pub capabilities: ServerCapabilities,
    pub server_info: ServerInfo,
}

pub struct ServerInfo {
    pub name: String,
    pub version: String,
}

/// What a tool call returns: pieces of content, and whether they report
/// an error.
pub struct ToolCallResult {
    pub content: Vec<Content>,
    pub is_error: Option<bool>,
}

/// One piece of content of a tool result.
pub struct Content {
    pub content_type: String,
    pub text: String,
}

impl Content {
    /// Whether this is a piece of text content that reads `text`.
    pub open spec fn is_text(&self, text: Seq<char>) -> bool {
        self.content_type@ == "text"@ && self.text@ == text
    }

    /// A piece of text content.
    pub fn from_string(text: String) -> (r: Self)
        ensures
            r.is_text(text@),
            r.text == text,
    {
        Content { content_type: "text".to_string(), text }
    }

    /// A piece of text content.
    pub fn text<S: Into<String>>(s: S) -> (r: Self)
        ensures
            r.content_type@ == "text"@,
            S::obeys_into_spec() ==> r.text == s.into_spec(),
    {
        Content::from_string(s.into())
    }
}

impl ToolCallResult {
    /// Whether this result is the one text `text`, reported as an error
    /// or not.
    pub open spec fn is_message(&self, text: Seq<char>, error: bool) -> bool {
        &&& self.content@.len() == 1
        &&& self.content@[0].is_text(text)
        &&& self.is_error == (if error {
            Some(true)
        } else {
            None::<bool>
        })
    }

    /// The successful result that reads `text`.
    pub fn success_with(text: String) -> (r: Self)
        ensures
            r.is_message(text@, false),
    {
        let mut content: Vec<Content> = Vec::new();
        content.push(Content::from_string(text));
        ToolCallResult { content, is_error: None }
    }

    /// The error result that reads `text`.
    pub fn error_with(text: String) -> (r: Self)
        ensures
            r.is_message(text@, true),
    {
        let mut content: Vec<Content> = Vec::new();
        content.push(Content::from_string(text));
        ToolCallResult { content, is_error: Some(true) }
    }

    /// A successful result of one piece of text.
    pub fn success<S: Into<String>>(text: S) -> (r: Self)
        ensures
            r.content@.len() == 1,
            r.content@[0].content_type@ == "text"@,
            S::obeys_into_spec() ==> r.content@[0].text == text.into_spec(),
            r.is_error is None,
    {
        let mut content: Vec<Content> = Vec::new();
        content.push(Content::text(text));
        ToolCallResult { content, is_error: None }
    }

    /// An error result of one piece of text.
    pub fn error<S: Into<String>>(text: S) -> (r: Self)
        ensures
            r.content@.len() == 1,
            r.content@[0].content_type@ == "text"@,
            S::obeys_into_spec() ==> r.content@[0].text == text.into_spec(),
            r.is_error == Some(true),
    {
        let mut content: Vec<Content> = Vec::new();
        content.push(Content::text(text));
        ToolCallResult { content, is_error: Some(true) }
    }
}

/// What the server answers to `initialize`: the protocol version it
/// speaks, that its list of tools does not change, and its name and
/// version.
pub fn initialize_result(version: &str) -> (r: InitializeResult)
    ensures
        r.protocol_version@ == "2024-11-05"@,
        !r.capabilities.tools.list_changed,
        r.server_info.name@ == "zw-mcp-server"@,
        r.server_info.version@ == version@,
{
    InitializeResult {
        protocol_version: "2024-11-05".to_string(),
        capabilities: ServerCapabilities { tools: ToolsCapability { list_changed: false } },
        server_info: ServerInfo { name: "zw-mcp-server".to_string(), version: version.to_string() },
    }
}

/// What the server does with a request.
#[derive(Debug, Clone, Copy, PartialEq, Eq, Structural)]
pub enum Route {
    /// Answer with the result of `initialize`.
    Initialize,
    /// Answer nothing.
    Ignore,
    /// Answer with the list of tools.
    ListTools,
    /// Call a tool and answer with its result.
    CallTool,
    /// Answer with an empty object.
    Ping,
    /// Answer with the error `METHOD_NOT_FOUND`.
    MethodNotFound,
}

/// Where a request with the method `method` goes. A notification, that
/// is a request without an id, gets no answer if its method is unknown.
pub open spec fn spec_route(method: Seq<char>, has_id: bool) -> Route {
    if method == "initialize"@ {
        Route::Initialize
    } else if method == "notifications/initialized"@ {
        Route::Ignore
    } else if method == "tools/list"@ {
        Route::ListTools
    } else if method == "tools/call"@ {
        Route::CallTool
    } else if method == "ping"@ {
        Route::Ping
    } else if has_id {
        Route::MethodNotFound
    } else {
        Route::Ignore
    }
}

/// Where a request goes.
pub fn route(method: &str, has_id: bool) -> (r: Route)
    ensures
        r == spec_route(method@, has_id),
{
    if same_text(method, "initialize") {
        Route::Initialize
    } else if same_text(method, "notifications/initialized") {
        Route::Ignore
    } else if same_text(method, "tools/list") {
        Route::ListTools
    } else if same_text(method, "tools/call") {
        Route::CallTool
    } else if same_text(method, "ping") {
        Route::Ping
    } else if has_id {
        Route::MethodNotFound
    } else {
        Route::Ignore
    }
}

} // verus!
