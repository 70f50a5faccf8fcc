use juncture_core::client::{
    response_outcome, AuthConfig, ClientError, GraphClient, HttpMethod, JunctureClient, NotFound, RemoteGraph,
};

#[test]
fn client_request_addresses() {
    let c = JunctureClient::new("http://h:1").with_auth(AuthConfig::Token("t".to_string()));
    let p = c.list_graphs_request();
    assert_eq!(p.method, HttpMethod::Get);
    assert_eq!(p.url, "http://h:1/graphs");
    let (p, nf) = c.get_thread_request("th");
    assert_eq!(p.url, "http://h:1/threads/th");
    assert!(matches!(nf, NotFound::Thread(ref id) if id == "th"));
    let p = c.list_threads_request(Some(5));
    assert_eq!(p.limit, Some(5));
    let (p, _) = c.delete_thread_request("th");
    assert_eq!(p.method, HttpMethod::Delete);
    let p = c.create_thread_request(None);
    assert!(p.body.unwrap()["metadata"].is_null());
    let g = c.graph("g1");
    assert_eq!(g.endpoint(), "http://h:1/graphs/g1");
    assert!(matches!(g.auth(), AuthConfig::Token(t) if t == "t"));
    let (p, nf) = g.cancel_request("th", "r1");
    assert_eq!(p.url, "http://h:1/graphs/g1/threads/th/runs/r1/cancel");
    assert!(matches!(nf, NotFound::Run(ref id) if id == "r1"));
    let (p, _) = g.update_state_request("th", serde_json::Value::Null, Some("n"));
    let body = p.body.unwrap();
    assert_eq!(body["as_node"], "n");
    assert!(body["update"].is_null());
    let (p, _) = g.resume_request("th", vec![serde_json::Value::Bool(true)]);
    assert_eq!(p.url, "http://h:1/graphs/g1/threads/th/resume");
    assert_eq!(p.body.unwrap()["values"][0], true);
    let p = g.invoke_request(serde_json::Value::Bool(false), None);
    let body = p.body.unwrap();
    assert_eq!(body["input"], false);
    assert!(body["config"].is_null());
    let (p, _) = g.get_state_history_request("th", None);
    assert_eq!(p.url, "http://h:1/graphs/g1/threads/th/history");
    let (p, _) = GraphClient::new("e".to_string(), AuthConfig::NoAuth).get_state_request("t");
    assert_eq!(p.url, "e/threads/t/state");
}

#[test]
fn client_response_outcomes() {
    assert!(response_outcome(204, String::new(), NotFound::Unmapped).is_ok());
    match response_outcome(404, "gone".to_string(), NotFound::Thread("t".to_string())) {
        Err(ClientError::ThreadNotFound(id)) => assert_eq!(id, "t"),
        other => panic!("unexpected {other:?}"),
    }
    match response_outcome(404, "gone".to_string(), NotFound::Run("r".to_string())) {
        Err(ClientError::RunNotFound(id)) => assert_eq!(id, "r"),
        other => panic!("unexpected {other:?}"),
    }
    match response_outcome(404, "gone".to_string(), NotFound::Unmapped) {
        Err(ClientError::Server { status, message }) => {
            assert_eq!(status, 404);
            assert_eq!(message, "gone");
        }
        other => panic!("unexpected {other:?}"),
    }
    match response_outcome(500, "boom".to_string(), NotFound::Thread("t".to_string())) {
        Err(e @ ClientError::Server { .. }) => assert_eq!(e.to_string(), "server error (500): boom"),
        other => panic!("unexpected {other:?}"),
    }
    assert_eq!(ClientError::Timeout.to_string(), "timeout");
    assert_eq!(ClientError::ThreadNotFound("x".to_string()).to_string(), "thread not found: x");
}

#[test]
fn remote_graph_addresses() {
    let r = RemoteGraph::new("http://s", "g");
    assert_eq!(r.graph_id(), "g");
    assert_eq!(r.endpoint(), "http://s");
    assert_eq!(r.client().endpoint(), "http://s/graphs/g");
    assert!(matches!(r.client().auth(), AuthConfig::NoAuth));
}

#[test]
fn remote_graph_copy_keeps_address_id_and_auth() {
    let r = RemoteGraph::new("http://s", "g");
    let c = r.copy();
    assert_eq!(c.graph_id(), "g");
    assert_eq!(c.endpoint(), r.endpoint());
    assert_eq!(c.client().endpoint(), "http://s/graphs/g");
}
