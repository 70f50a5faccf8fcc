//! The client of a graph server, as decisions: the request each operation
//! sends (method, address, query and body) and how each response status
//! reads. Sending the requests is the caller's part.
use vstd::prelude::*;
use crate::json::{json_array, json_from_map, json_from_string, json_from_vec, json_map_insert, json_map_new, json_from_opt, json_from_option, json_object, json_string, JsonMap};
use crate::text::{decimal, push_str, to_owned_string};

verus! {

/// Authentication configuration for client
#[derive(Clone, Debug)]
pub enum AuthConfig {
    /// No authentication
    NoAuth,
    /// Bearer token authentication
    Token(String),
    /// API key authentication with custom header
    ApiKey {
        /// Header name for the API key
        header: String,
        /// API key value
        key: String,
    },
}

impl AuthConfig {
    /// A copy of the configuration.
    pub fn copy(&self) -> (a: Self)
        ensures
            a == *self,
    {
        match self {
            AuthConfig::NoAuth => AuthConfig::NoAuth,
            AuthConfig::Token(t) => AuthConfig::Token(t.clone()),
            AuthConfig::ApiKey { header, key } => AuthConfig::ApiKey { header: header.clone(), key: key.clone() },
        }
    }
}

/// The HTTP method of a request
#[derive(Clone, Copy, Debug, PartialEq, Eq, Structural)]
pub enum HttpMethod {
    /// `GET`
    Get,
    /// `POST`
    Post,
    /// `DELETE`
    Delete,
}

/// A request to send: method, address, optional `limit` query parameter
/// and optional JSON body
#[derive(Clone, Debug)]
pub struct RequestPlan {
    /// Method
    pub method: HttpMethod,
    /// Full address
    pub url: String,
    /// `limit` query parameter
    pub limit: Option<usize>,
    /// JSON body
    pub body: Option<serde_json::Value>,
}

/// What a `404 Not Found` answer means for a request
#[derive(Clone, Debug)]
pub enum NotFound {
    /// The thread with this id does not exist
    Thread(String),
    /// The run with this id does not exist
    Run(String),
    /// A plain server error
    Unmapped,
}

/// Client error types
#[derive(Clone, Debug)]
pub enum ClientError {
    /// Connection error
    Connection(String),
    /// Authentication failed
    Auth(String),
    /// Graph not found
    GraphNotFound(String),
    /// Thread not found
    ThreadNotFound(String),
    /// Run not found
    RunNotFound(String),
    /// Serialization error, with its message
    Serialize(String),
    /// HTTP request error, with its message
    RequestError(String),
    /// Server error
    Server {
        /// HTTP status code
        status: u16,
        /// Error message
        message: String,
    },
    /// Timeout
    Timeout,
    /// Other errors
    Other(String),
}

/// The message of a client error.
pub open spec fn client_error_text(e: ClientError) -> Seq<char> {
    match e {
        ClientError::Connection(m) => "connection error: "@ + m@,
        ClientError::Auth(m) => "authentication failed: "@ + m@,
        ClientError::GraphNotFound(m) => "graph not found: "@ + m@,
        ClientError::ThreadNotFound(m) => "thread not found: "@ + m@,
        ClientError::RunNotFound(m) => "run not found: "@ + m@,
        ClientError::Serialize(m) => "serialization error: "@ + m@,
        ClientError::RequestError(m) => "HTTP request error: "@ + m@,
        ClientError::Server { status, message } => "server error ("@ + decimal(status as nat) + "): "@ + message@,
        ClientError::Timeout => "timeout"@,
        ClientError::Other(m) => "client error: "@ + m@,
    }
}

/// A text followed by a message.
fn prefixed(prefix: &str, m: &String) -> (s: String)
    ensures
        s@ == prefix@ + m@,
{
    let mut s = to_owned_string(prefix);
    push_str(&mut s, m.as_str());
    s
}

impl ClientError {
    /// The error message.
    pub fn to_string(&self) -> (s: String)
        ensures
            s@ == client_error_text(*self),
    {
        match self {
            ClientError::Connection(m) => prefixed("connection error: ", m),
            ClientError::Auth(m) => prefixed("authentication failed: ", m),
            ClientError::GraphNotFound(m) => prefixed("graph not found: ", m),
            ClientError::ThreadNotFound(m) => prefixed("thread not found: ", m),
            ClientError::RunNotFound(m) => prefixed("run not found: ", m),
            ClientError::Serialize(m) => prefixed("serialization error: ", m),
            ClientError::RequestError(m) => prefixed("HTTP request error: ", m),
            ClientError::Server { status, message } => {
                let mut s = to_owned_string("server error (");
                let code = crate::text::decimal_string(*status as u64);
                push_str(&mut s, code.as_str());
                push_str(&mut s, "): ");
                push_str(&mut s, message.as_str());
                s
            },
            ClientError::Timeout => to_owned_string("timeout"),
            ClientError::Other(m) => prefixed("client error: ", m),
        }
    }
}

/// Whether a status reports success (200 to 299).
pub open spec fn is_success(status: u16) -> bool {
    200 <= status < 300
}

/// How an answer reads: a success status is fine; a 404 reads as the
/// request says when it says something; any other status is a server error
/// carrying the answer's text.
pub fn response_outcome(status: u16, body: String, not_found: NotFound) -> (r: Result<(), ClientError>)
    ensures
        is_success(status) ==> r is Ok,
        !is_success(status) && status != 404 ==> (r matches Err(ClientError::Server { status: s, message: m })
            && s == status && m@ == body@),
        status == 404 ==> match not_found {
            NotFound::Thread(id) => (r matches Err(ClientError::ThreadNotFound(x)) && x@ == id@),
            NotFound::Run(id) => (r matches Err(ClientError::RunNotFound(x)) && x@ == id@),
            NotFound::Unmapped => (r matches Err(ClientError::Server { status: s, message: m }) && s == status
                && m@ == body@),
        },
{
    if 200 <= status && status < 300 {
        return Ok(());
    }
    if status == 404 {
        match not_found {
            NotFound::Thread(id) => return Err(ClientError::ThreadNotFound(id)),
            NotFound::Run(id) => return Err(ClientError::RunNotFound(id)),
            NotFound::Unmapped => {},
        }
    }
    Err(ClientError::Server { status, message: body })
}

/// The text `a + b`.
fn concat2(a: &str, b: &str) -> (s: String)
    ensures
        s@ == a@ + b@,
{
    let mut s = to_owned_string(a);
    push_str(&mut s, b);
    s
}

/// The text `a + b + c`.
fn concat3(a: &str, b: &str, c: &str) -> (s: String)
    ensures
        s@ == a@ + b@ + c@,
{
    let mut s = concat2(a, b);
    push_str(&mut s, c);
    s
}

/// A request without query parameter or body.
fn plain_request(method: HttpMethod, url: String) -> (p: RequestPlan)
    ensures
        p.method == method,
        p.url == url,
        p.limit is None,
        p.body is None,
{
    RequestPlan { method, url, limit: None, body: None }
}

/// A request without query parameter or body.
pub open spec fn is_plain(p: RequestPlan, method: HttpMethod, url: Seq<char>) -> bool {
    p.method == method && p.url@ == url && p.limit is None && p.body is None
}

/// The JSON object holding the given entries, as a map.
pub open spec fn object_with2(k1: Seq<char>, v1: serde_json::Value, k2: Seq<char>, v2: serde_json::Value) -> serde_json::Value {
    json_object(Map::empty().insert(k1, v1).insert(k2, v2))
}

/// A value, or JSON `null` when absent.
pub open spec fn or_null(v: Option<serde_json::Value>) -> serde_json::Value {
    json_from_option(v)
}

/// A value, or JSON `null` when absent.
fn value_or_null(v: Option<serde_json::Value>) -> (r: serde_json::Value)
    ensures
        r == or_null(v),
{
    json_from_opt(v)
}

/// Juncture client for server interaction
#[derive(Clone, Debug)]
pub struct JunctureClient {
    endpoint: String,
    auth: AuthConfig,
}

impl JunctureClient {
    /// The server's base address.
    pub closed spec fn endpoint_view(&self) -> Seq<char> {
        self.endpoint@
    }

    /// The authentication in use.
    pub closed spec fn auth_view(&self) -> AuthConfig {
        self.auth
    }

    /// Create new client, without authentication
    pub fn new(endpoint: &str) -> (c: Self)
        ensures
            c.endpoint_view() == endpoint@,
            c.auth_view() is NoAuth,
    {
        JunctureClient { endpoint: to_owned_string(endpoint), auth: AuthConfig::NoAuth }
    }

    /// Set authentication
    pub fn with_auth(self, auth: AuthConfig) -> (c: Self)
        ensures
            c.endpoint_view() == self.endpoint_view(),
            c.auth_view() == auth,
    {
        JunctureClient { auth, ..self }
    }

    /// The server's base address.
    pub fn endpoint(&self) -> (e: &str)
        ensures
            e@ == self.endpoint_view(),
    {
        self.endpoint.as_str()
    }

    /// The authentication in use.
    pub fn auth(&self) -> (a: &AuthConfig)
        ensures
            *a == self.auth_view(),
    {
        &self.auth
    }

    /// The request listing all deployed graphs: `GET {endpoint}/graphs`.
    pub fn list_graphs_request(&self) -> (p: RequestPlan)
        ensures
            is_plain(p, HttpMethod::Get, self.endpoint_view() + "/graphs"@),
    {
        plain_request(HttpMethod::Get, concat2(self.endpoint.as_str(), "/graphs"))
    }

    /// The client of one graph, at `{endpoint}/graphs/{graph_id}`, with the
    /// same authentication.
    pub fn graph(&self, graph_id: &str) -> (g: GraphClient)
        ensures
            g.endpoint_view() == self.endpoint_view() + "/graphs/"@ + graph_id@,
            g.auth_view() == self.auth_view(),
    {
        GraphClient { endpoint: concat3(self.endpoint.as_str(), "/graphs/", graph_id), auth: self.auth.copy() }
    }

    /// The request creating a thread: `POST {endpoint}/threads` with the
    /// metadata (or `null`) under `metadata`.
    pub fn create_thread_request(&self, metadata: Option<JsonMap>) -> (p: RequestPlan)
        ensures
            p.method == HttpMethod::Post,
            p.url@ == self.endpoint_view() + "/threads"@,
            p.limit is None,
            p.body == Some(json_object(Map::empty().insert("metadata"@, match metadata {
                Some(m) => json_object(crate::json::json_map_entries(m)),
                None => json_from_option(None),
            }))),
    {
        let meta = match metadata {
            Some(m) => json_from_map(m),
            None => json_from_opt(None),
        };
        let mut body = json_map_new();
        json_map_insert(&mut body, to_owned_string("metadata"), meta);
        RequestPlan {
            method: HttpMethod::Post,
            url: concat2(self.endpoint.as_str(), "/threads"),
            limit: None,
            body: Some(json_from_map(body)),
        }
    }

    /// The request reading a thread: `GET {endpoint}/threads/{thread_id}`;
    /// a 404 means the thread does not exist.
    pub fn get_thread_request(&self, thread_id: &str) -> (r: (RequestPlan, NotFound))
        ensures
            is_plain(r.0, HttpMethod::Get, self.endpoint_view() + "/threads/"@ + thread_id@),
            r.1 matches NotFound::Thread(id) && id@ == thread_id@,
    {
        (
            plain_request(HttpMethod::Get, concat3(self.endpoint.as_str(), "/threads/", thread_id)),
            NotFound::Thread(to_owned_string(thread_id)),
        )
    }

    /// The request listing threads: `GET {endpoint}/threads`, with the
    /// limit as query parameter when given.
    pub fn list_threads_request(&self, limit: Option<usize>) -> (p: RequestPlan)
        ensures
            p.method == HttpMethod::Get,
            p.url@ == self.endpoint_view() + "/threads"@,
            p.limit == limit,
            p.body is None,
    {
        RequestPlan { method: HttpMethod::Get, url: concat2(self.endpoint.as_str(), "/threads"), limit, body: None }
    }

    /// The request deleting a thread: `DELETE {endpoint}/threads/{thread_id}`;
    /// a 404 means the thread does not exist.
    pub fn delete_thread_request(&self, thread_id: &str) -> (r: (RequestPlan, NotFound))
        ensures
            is_plain(r.0, HttpMethod::Delete, self.endpoint_view() + "/threads/"@ + thread_id@),
            r.1 matches NotFound::Thread(id) && id@ == thread_id@,
    {
        (
            plain_request(HttpMethod::Delete, concat3(self.endpoint.as_str(), "/threads/", thread_id)),
            NotFound::Thread(to_owned_string(thread_id)),
        )
    }
}

/// Client for one graph of a server
#[derive(Clone, Debug)]
pub struct GraphClient {
    endpoint: String,
    auth: AuthConfig,
}

impl GraphClient {
    /// The graph's base address.
    pub closed spec fn endpoint_view(&self) -> Seq<char> {
        self.endpoint@
    }

    /// The authentication in use.
    pub closed spec fn auth_view(&self) -> AuthConfig {
        self.auth
    }

    /// A client of the graph at this address.
    pub fn new(endpoint: String, auth: AuthConfig) -> (g: Self)
        ensures
            g.endpoint_view() == endpoint@,
            g.auth_view() == auth,
    {
        GraphClient { endpoint, auth }
    }

    /// The graph's base address.
    pub fn endpoint(&self) -> (e: &str)
        ensures
            e@ == self.endpoint_view(),
    {
        self.endpoint.as_str()
    }

    /// The authentication in use.
    pub fn auth(&self) -> (a: &AuthConfig)
        ensures
            *a == self.auth_view(),
    {
        &self.auth
    }

    /// The request running the graph: `POST {endpoint}/invoke` with the
    /// input and the configuration (or `null`).
    pub fn invoke_request(&self, input: serde_json::Value, config: Option<serde_json::Value>) -> (p: RequestPlan)
        ensures
            p.method == HttpMethod::Post,
            p.url@ == self.endpoint_view() + "/invoke"@,
            p.limit is None,
            p.body == Some(object_with2("input"@, input, "config"@, or_null(config))),
    {
        let mut body = json_map_new();
        json_map_insert(&mut body, to_owned_string("input"), input);
        json_map_insert(&mut body, to_owned_string("config"), value_or_null(config));
        RequestPlan {
            method: HttpMethod::Post,
            url: concat2(self.endpoint.as_str(), "/invoke"),
            limit: None,
            body: Some(json_from_map(body)),
        }
    }

    /// The request reading a thread's state:
    /// `GET {endpoint}/threads/{thread_id}/state`.
    pub fn get_state_request(&self, thread_id: &str) -> (r: (RequestPlan, NotFound))
        ensures
            is_plain(r.0, HttpMethod::Get, self.endpoint_view() + "/threads/"@ + thread_id@ + "/state"@),
            r.1 matches NotFound::Thread(id) && id@ == thread_id@,
    {
        let mut url = concat3(self.endpoint.as_str(), "/threads/", thread_id);
        push_str(&mut url, "/state");
        (plain_request(HttpMethod::Get, url), NotFound::Thread(to_owned_string(thread_id)))
    }

    /// The request reading a thread's state history:
    /// `GET {endpoint}/threads/{thread_id}/history`, with the limit.
    pub fn get_state_history_request(&self, thread_id: &str, limit: Option<usize>) -> (r: (RequestPlan, NotFound))
        ensures
            r.0.method == HttpMethod::Get,
            r.0.url@ == self.endpoint_view() + "/threads/"@ + thread_id@ + "/history"@,
            r.0.limit == limit,
            r.0.body is None,
            r.1 matches NotFound::Thread(id) && id@ == thread_id@,
    {
        let mut url = concat3(self.endpoint.as_str(), "/threads/", thread_id);
        push_str(&mut url, "/history");
        (RequestPlan { method: HttpMethod::Get, url, limit, body: None }, NotFound::Thread(to_owned_string(thread_id)))
    }

    /// The request updating a thread's state:
    /// `POST {endpoint}/threads/{thread_id}/state` with the update and the
    /// node it is credited to (or `null`).
    pub fn update_state_request(&self, thread_id: &str, update: serde_json::Value, as_node: Option<&str>) -> (r: (
        RequestPlan,
        NotFound,
    ))
        ensures
            r.0.method == HttpMethod::Post,
            r.0.url@ == self.endpoint_view() + "/threads/"@ + thread_id@ + "/state"@,
            r.0.limit is None,
            r.0.body == Some(object_with2("update"@, update, "as_node"@, match as_node {
                Some(n) => json_string(n@),
                None => json_from_option(None),
            })),
            r.1 matches NotFound::Thread(id) && id@ == thread_id@,
    {
        let mut url = concat3(self.endpoint.as_str(), "/threads/", thread_id);
        push_str(&mut url, "/state");
        let node = match as_node {
            Some(n) => json_from_string(to_owned_string(n)),
            None => json_from_opt(None),
        };
        let mut body = json_map_new();
        json_map_insert(&mut body, to_owned_string("update"), update);
        json_map_insert(&mut body, to_owned_string("as_node"), node);
        (
            RequestPlan { method: HttpMethod::Post, url, limit: None, body: Some(json_from_map(body)) },
            NotFound::Thread(to_owned_string(thread_id)),
        )
    }

    /// The request resuming a thread:
    /// `POST {endpoint}/threads/{thread_id}/resume` with the values.
    pub fn resume_request(&self, thread_id: &str, values: Vec<serde_json::Value>) -> (r: (RequestPlan, NotFound))
        ensures
            r.0.method == HttpMethod::Post,
            r.0.url@ == self.endpoint_view() + "/threads/"@ + thread_id@ + "/resume"@,
            r.0.limit is None,
            r.0.body == Some(json_object(Map::empty().insert("values"@, json_array(values@)))),
            r.1 matches NotFound::Thread(id) && id@ == thread_id@,
    {
        let mut url = concat3(self.endpoint.as_str(), "/threads/", thread_id);
        push_str(&mut url, "/resume");
        let mut body = json_map_new();
        json_map_insert(&mut body, to_owned_string("values"), json_from_vec(values));
        (
            RequestPlan { method: HttpMethod::Post, url, limit: None, body: Some(json_from_map(body)) },
            NotFound::Thread(to_owned_string(thread_id)),
        )
    }

    /// The request cancelling a run:
    /// `POST {endpoint}/threads/{thread_id}/runs/{run_id}/cancel`; a 404
    /// means the run does not exist.
    pub fn cancel_request(&self, thread_id: &str, run_id: &str) -> (r: (RequestPlan, NotFound))
        ensures
            is_plain(r.0, HttpMethod::Post, self.endpoint_view() + "/threads/"@ + thread_id@ + "/runs/"@ + run_id@ + "/cancel"@),
            r.1 matches NotFound::Run(id) && id@ == run_id@,
    {
        let mut url = concat3(self.endpoint.as_str(), "/threads/", thread_id);
        push_str(&mut url, "/runs/");
        push_str(&mut url, run_id);
        push_str(&mut url, "/cancel");
        (plain_request(HttpMethod::Post, url), NotFound::Run(to_owned_string(run_id)))
    }
}

/// A graph deployed on a remote server
#[derive(Clone, Debug)]
pub struct RemoteGraph {
    endpoint: String,
    graph_id: String,
    client: GraphClient,
}

impl RemoteGraph {
    /// The server's base address.
    pub closed spec fn endpoint_view(&self) -> Seq<char> {
        self.endpoint@
    }

    /// The graph's id.
    pub closed spec fn graph_id_view(&self) -> Seq<char> {
        self.graph_id@
    }

    /// The client of the graph.
    pub closed spec fn client_view(&self) -> GraphClient {
        self.client
    }

    /// The graph `graph_id` of the server at `endpoint`, reached without
    /// authentication at `{endpoint}/graphs/{graph_id}`.
    pub fn new(endpoint: &str, graph_id: &str) -> (g: Self)
        ensures
            g.endpoint_view() == endpoint@,
            g.graph_id_view() == graph_id@,
            g.client_view().endpoint_view() == endpoint@ + "/graphs/"@ + graph_id@,
            g.client_view().auth_view() is NoAuth,
    {
        RemoteGraph {
            endpoint: to_owned_string(endpoint),
            graph_id: to_owned_string(graph_id),
            client: GraphClient::new(concat3(endpoint, "/graphs/", graph_id), AuthConfig::NoAuth),
        }
    }

    /// A copy of this remote graph, with a client to the same address and
    /// the same authentication.
    pub fn copy(&self) -> (r: Self)
        ensures
            r.endpoint_view() == self.endpoint_view(),
            r.graph_id_view() == self.graph_id_view(),
            r.client_view().endpoint_view() == self.client_view().endpoint_view(),
            r.client_view().auth_view() == self.client_view().auth_view(),
    {
        RemoteGraph {
            endpoint: self.endpoint.clone(),
            graph_id: self.graph_id.clone(),
            client: GraphClient::new(to_owned_string(self.client.endpoint()), self.client.auth().copy()),
        }
    }

    /// The graph's id.
    pub fn graph_id(&self) -> (s: &str)
        ensures
            s@ == self.graph_id_view(),
    {
        self.graph_id.as_str()
    }

    /// The server's base address.
    pub fn endpoint(&self) -> (s: &str)
        ensures
            s@ == self.endpoint_view(),
    {
        self.endpoint.as_str()
    }

    /// The client of the graph.
    pub fn client(&self) -> (c: &GraphClient)
        ensures
            *c == self.client_view(),
    {
        &self.client
    }
}

} // verus!
