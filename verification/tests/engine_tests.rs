use neo4jrs::conn::{Connection, ConnectionState};
use neo4jrs::errors::Error;
use neo4jrs::frame::{frame_message, DEFAULT_CHUNK_CAPACITY};
use neo4jrs::graph::{Config, Graph};
use neo4jrs::message::{encode_response, Response};
use neo4jrs::query::Query;
use neo4jrs::transport::ScriptTransport;
use neo4jrs::txn::Txn;
use neo4jrs::conn::accept_version;
use neo4jrs::stream::{fields_of_metadata, bookmark_of_summary, RowStream, StreamPhase};
use neo4jrs::value::{BoltNode, Value};

const BUDGET: u64 = 32;

fn framed(r: &Response) -> Vec<u8> {
    frame_message(&encode_response(r), DEFAULT_CHUNK_CAPACITY)
}

fn success(md: Vec<(String, Value)>) -> Vec<u8> {
    framed(&Response::Success(md))
}

fn failure(code: &str, message: &str) -> Vec<u8> {
    framed(&Response::Failure(vec![
        ("code".to_string(), Value::Str(code.to_string())),
        ("message".to_string(), Value::Str(message.to_string())),
    ]))
}

fn record(vals: Vec<Value>) -> Vec<u8> {
    framed(&Response::Record(vals))
}

fn fields_md(names: &[&str]) -> Vec<(String, Value)> {
    vec![(
        "fields".to_string(),
        Value::List(names.iter().map(|n| Value::Str(n.to_string())).collect()),
    )]
}

fn handshake_reply() -> Vec<u8> {
    vec![0, 0, 4, 4]
}

fn config() -> Config {
    Config {
        user_agent: "neo4jrs-tests".to_string(),
        user: "neo4j".to_string(),
        password: "pass".to_string(),
        max_connections: 1,
        io_budget: BUDGET,
    }
}

fn graph_with_script(reads: Vec<Vec<u8>>) -> Graph<ScriptTransport> {
    let mut g = Graph::new(config());
    g.add_transport(ScriptTransport::new(reads));
    g
}

#[test]
fn simple_round_trip_yields_one_row() {
    // RETURN 1 AS n: one row whose n is the integer 1, then exhaustion.
    let mut g = graph_with_script(vec![
        handshake_reply(),
        success(vec![]),
        success(fields_md(&["n"])),
        record(vec![Value::Integer(1)]),
        success(vec![]),
        // reset before the connection returns to the pool
        success(vec![]),
    ]);
    let q = Query::new("RETURN 1 AS n".to_string());
    let mut rs = g.execute(q).expect("execute");
    let row = rs.next(BUDGET).expect("first pull").expect("one row");
    assert_eq!(row.get_int(&"n".to_string()), Some(1));
    assert!(rs.next(BUDGET).expect("second pull").is_none());
    g.finish(rs).expect("finish");
    assert_eq!(g.pool.idle.len(), 1);
    assert_eq!(g.pool.leased, 0);
    assert_eq!(g.pool.created, 1);
    assert_eq!(g.pool.discarded, 0);
}

#[test]
fn parameterized_write_then_match_yields_node() {
    // CREATE then MATCH on the same pooled connection: the second query
    // returns the node with the label and property that were written.
    let ada = BoltNode {
        id: 1,
        labels: vec!["Person".to_string()],
        properties: vec![("name".to_string(), Value::Str("Ada".to_string()))],
    };
    let mut g = graph_with_script(vec![
        handshake_reply(),
        success(vec![]),
        // run: CREATE
        success(fields_md(&[])),
        success(vec![]),
        // reset before the connection returns to the pool
        success(vec![]),
        // run: MATCH
        success(fields_md(&["a"])),
        record(vec![Value::Node(ada)]),
        success(vec![]),
        // reset before the connection returns to the pool
        success(vec![]),
    ]);
    let write = Query::new("CREATE (a:Person {name: $name})".to_string())
        .param("name".to_string(), Value::Str("Ada".to_string()));
    g.run(write).expect("write");
    assert_eq!(g.pool.idle.len(), 1);

    let read = Query::new("MATCH (a:Person {name: $name}) RETURN a".to_string())
        .param("name".to_string(), Value::Str("Ada".to_string()));
    let mut rs = g.execute(read).expect("execute");
    let row = rs.next(BUDGET).expect("pull").expect("one row");
    let node = row.get_node(&"a".to_string()).expect("a node under a");
    assert!(node.labels.iter().any(|l| l == "Person"));
    assert!(node
        .properties
        .iter()
        .any(|(k, v)| k == "name" && matches!(v, Value::Str(s) if s == "Ada")));
    assert!(rs.next(BUDGET).expect("pull").is_none());
    g.finish(rs).expect("finish");
    assert_eq!(g.pool.idle.len() + g.pool.leased, g.pool.created - g.pool.discarded);
}

#[test]
fn second_stream_on_busy_connection_is_refused() {
    let mut c: Connection<ScriptTransport> = Connection::new(ScriptTransport::new(vec![]));
    c.state = ConnectionState::Streaming;
    let q = Query::new("RETURN 1".to_string());
    let r = c.begin_stream(q, Vec::new());
    assert!(matches!(r, Err(Error::UsageError)));
    assert!(matches!(c.state, ConnectionState::Streaming));
}

#[test]
fn second_execute_while_transaction_stream_open_is_refused() {
    let mut g = graph_with_script(vec![
        handshake_reply(),
        success(vec![]),
        success(vec![]),               // begin
        success(fields_md(&["n"])),    // run
    ]);
    let mut txn = g.begin().expect("begin");
    let rs = txn.execute(Query::new("RETURN 1 AS n".to_string())).expect("first execute");
    let again = txn.execute(Query::new("RETURN 2".to_string()));
    assert!(matches!(again, Err(Error::UsageError)));
    txn.finish_stream(rs).expect("finish stream");
}

#[test]
fn rollback_discards_writes() {
    // A write inside the transaction, rolled back; the follow-up query
    // observes nothing.
    let mut g = graph_with_script(vec![
        handshake_reply(),
        success(vec![]),
        // begin
        success(vec![]),
        // run inside the transaction
        success(fields_md(&[])),
        success(vec![]),
        // rollback
        success(vec![]),
        // the follow-up MATCH: no records
        success(fields_md(&["n"])),
        success(vec![]),
        // reset before the connection returns to the pool
        success(vec![]),
    ]);
    let mut txn = g.begin().expect("begin");
    txn.run(Query::new("CREATE (a:Person {name: $name})".to_string())
        .param("name".to_string(), Value::Str("Ada".to_string())))
        .expect("write in txn");
    txn.rollback(&mut g).expect("rollback");
    assert_eq!(g.pool.leased, 0);

    let mut rs = g
        .execute(Query::new("MATCH (a:Person) RETURN a.name AS n".to_string()))
        .expect("execute after rollback");
    assert!(rs.next(BUDGET).expect("pull").is_none());
    g.finish(rs).expect("finish");
}

#[test]
fn commit_keeps_writes() {
    let mut g = graph_with_script(vec![
        handshake_reply(),
        success(vec![]),
        // begin
        success(vec![]),
        // run inside the transaction
        success(fields_md(&[])),
        success(vec![]),
        // commit
        success(vec![]),
        // the follow-up MATCH: one record
        success(fields_md(&["n"])),
        record(vec![Value::Str("Ada".to_string())]),
        success(vec![]),
        // reset before the connection returns to the pool
        success(vec![]),
    ]);
    let mut txn = g.begin().expect("begin");
    txn.run(Query::new("CREATE (a:Person {name: 'Ada'})".to_string())).expect("write in txn");
    txn.commit(&mut g).expect("commit");
    assert_eq!(g.pool.leased, 0);

    let mut rs = g
        .execute(Query::new("MATCH (a:Person) RETURN a.name AS n".to_string()))
        .expect("execute after commit");
    let row = rs.next(BUDGET).expect("pull").expect("one row");
    assert_eq!(row.get_str(&"n".to_string()).map(|s| s.as_str()), Some("Ada"));
    assert!(rs.next(BUDGET).expect("pull").is_none());
    g.finish(rs).expect("finish");
}

#[test]
fn server_failure_surfaces_and_connection_survives() {
    let mut g = graph_with_script(vec![
        handshake_reply(),
        success(vec![]),
        // the run request fails server-side
        failure("Neo.ClientError.Statement.SyntaxError", "bad statement"),
        // the pipelined pull is ignored, then the reset succeeds
        framed(&Response::Ignored),
        success(vec![]),
    ]);
    let r = g.execute(Query::new("RETRN 1".to_string()));
    match r {
        Err(Error::ServerFailure(sf)) => {
            assert_eq!(sf.code, "Neo.ClientError.Statement.SyntaxError");
            assert_eq!(sf.message, "bad statement");
        }
        other => panic!("expected a server failure, got {:?}", other.is_ok()),
    }
    // The query failed; the connection was reset and kept.
    assert_eq!(g.pool.idle.len(), 1);
    assert_eq!(g.pool.discarded, 0);
    assert_eq!(g.pool.leased, 0);
}

#[test]
fn transport_failure_mid_stream_discards_connection() {
    // The script ends right after the first record: the next read is a
    // transport error. The connection must never reappear in the idle set.
    let mut g = graph_with_script(vec![
        handshake_reply(),
        success(vec![]),
        success(fields_md(&["n"])),
        record(vec![Value::Integer(1)]),
    ]);
    let mut rs = g.execute(Query::new("RETURN 1 AS n".to_string())).expect("execute");
    assert!(rs.next(BUDGET).expect("first pull").is_some());
    assert!(matches!(rs.next(BUDGET), Err(Error::ConnectFailed)));
    g.finish(rs).expect("finish");
    assert_eq!(g.pool.idle.len(), 0);
    assert_eq!(g.pool.discarded, 1);
    assert_eq!(g.pool.leased, 0);
    assert_eq!(g.pool.idle.len() + g.pool.leased, g.pool.created - g.pool.discarded);
}

#[test]
fn exhausted_pool_fails_instead_of_double_leasing() {
    // One connection allowed, none idle, no spare links left: acquiring
    // must fail, not hand out anything twice.
    let mut g = graph_with_script(vec![
        handshake_reply(),
        success(vec![]),
        success(fields_md(&["n"])),
    ]);
    let rs = g.execute(Query::new("RETURN 1 AS n".to_string())).expect("execute");
    let second = g.execute(Query::new("RETURN 2".to_string()));
    assert!(matches!(second, Err(Error::PoolExhausted)));
    g.finish(rs).expect("finish");
    assert_eq!(g.pool.idle.len() + g.pool.leased, g.pool.created - g.pool.discarded);
}

#[test]
fn protocol_error_in_response_is_fatal_to_connection() {
    // An unknown structure signature in a response message.
    let bad_message = frame_message(&vec![0xB1, 0x42, 0xA0], DEFAULT_CHUNK_CAPACITY);
    let mut g = graph_with_script(vec![
        handshake_reply(),
        success(vec![]),
        bad_message,
    ]);
    let r = g.execute(Query::new("RETURN 1".to_string()));
    assert!(matches!(r, Err(Error::Protocol(_))));
    assert_eq!(g.pool.idle.len(), 0);
    assert_eq!(g.pool.leased, 0);
    assert_eq!(g.pool.discarded, 1);
}

#[test]
fn handshake_refuses_unoffered_version() {
    let mut g = graph_with_script(vec![vec![0, 0, 9, 9]]);
    let r = g.execute(Query::new("RETURN 1".to_string()));
    assert!(matches!(r, Err(Error::ConnectFailed)));
    assert_eq!(g.pool.created, 0);
    assert_eq!(g.pool.leased, 0);
}

#[test]
fn handshake_reply_split_across_reads() {
    let mut g = graph_with_script(vec![
        vec![0],
        vec![0, 4],
        vec![4],
        success(vec![]),
        success(fields_md(&["n"])),
        record(vec![Value::Integer(1)]),
        success(vec![]),
        // reset before the connection returns to the pool
        success(vec![]),
    ]);
    let mut rs = g.execute(Query::new("RETURN 1 AS n".to_string())).expect("execute");
    let row = rs.next(BUDGET).expect("pull").expect("row");
    assert_eq!(row.get_int(&"n".to_string()), Some(1));
    assert!(rs.next(BUDGET).expect("pull").is_none());
    g.finish(rs).expect("finish");
}

#[test]
fn bookmark_is_carried_into_the_next_begin() {
    // The commit's success carries a bookmark; the next transaction's
    // begin request must send it back for causal ordering.
    let mut g = graph_with_script(vec![
        handshake_reply(),
        success(vec![]),
        // begin (no bookmark yet)
        success(vec![]),
        // commit, with a bookmark in the summary
        success(vec![("bookmark".to_string(), Value::Str("bm-1".to_string()))]),
        // second begin
        success(vec![]),
        // rollback
        success(vec![]),
    ]);
    let txn = g.begin().expect("begin");
    txn.commit(&mut g).expect("commit");
    assert_eq!(g.bookmark.as_deref(), Some("bm-1"));

    let txn2 = g.begin().expect("second begin");
    txn2.rollback(&mut g).expect("rollback");

    // The second begin request on the wire carries the bookmark.
    let expected_begin = frame_message(
        &neo4jrs::message::encode_request(&neo4jrs::message::Request::Begin {
            extra: vec![(
                "bookmarks".to_string(),
                Value::List(vec![Value::Str("bm-1".to_string())]),
            )],
        }),
        DEFAULT_CHUNK_CAPACITY,
    );
    let sent = &g.pool.idle[0].transport.sent;
    let rollback_len = frame_message(
        &neo4jrs::message::encode_request(&neo4jrs::message::Request::Rollback),
        DEFAULT_CHUNK_CAPACITY,
    )
    .len();
    let before_rollback = &sent[..sent.len() - rollback_len];
    assert!(before_rollback.ends_with(&expected_begin));
}

#[test]
fn stream_summary_bookmark_reaches_the_graph() {
    let mut g = graph_with_script(vec![
        handshake_reply(),
        success(vec![]),
        success(fields_md(&["n"])),
        record(vec![Value::Integer(1)]),
        success(vec![("bookmark".to_string(), Value::Str("bm-2".to_string()))]),
        // reset before the connection returns to the pool
        success(vec![]),
    ]);
    g.run(Query::new("RETURN 1 AS n".to_string())).expect("run");
    assert_eq!(g.bookmark.as_deref(), Some("bm-2"));
}

#[test]
fn shutdown_closes_idle_connections() {
    let mut g = graph_with_script(vec![
        handshake_reply(),
        success(vec![]),
        success(fields_md(&["n"])),
        record(vec![Value::Integer(1)]),
        success(vec![]),
        // reset before the connection returns to the pool
        success(vec![]),
    ]);
    g.run(Query::new("RETURN 1 AS n".to_string())).expect("run");
    assert_eq!(g.pool.idle.len(), 1);
    g.shutdown();
    assert_eq!(g.pool.idle.len(), 0);
    assert_eq!(g.pool.leased, 0);
    assert_eq!(g.pool.created, 1);
    assert_eq!(g.pool.discarded, 1);
}

#[test]
fn ignored_mid_stream_is_a_protocol_error() {
    // An IGNORED response where records were expected is an out-of-place
    // message kind: fatal to the connection, which the pool then discards.
    let mut g = graph_with_script(vec![
        handshake_reply(),
        success(vec![]),
        success(fields_md(&["n"])),
        framed(&Response::Ignored),
    ]);
    let mut rs = g.execute(Query::new("RETURN 1 AS n".to_string())).expect("execute");
    assert!(matches!(rs.next(BUDGET), Err(Error::Protocol(_))));
    g.finish(rs).expect("finish");
    assert_eq!(g.pool.idle.len(), 0);
    assert_eq!(g.pool.discarded, 1);
}

#[test]
fn closing_a_transaction_with_a_stream_out_is_refused() {
    let mut g = graph_with_script(vec![
        handshake_reply(),
        success(vec![]),
        success(vec![]),               // begin
        success(fields_md(&["n"])),    // run
        success(vec![]),               // reset after the abandoned stream
        success(vec![]),               // rollback
    ]);
    let mut txn = g.begin().expect("begin");
    let rs = txn.execute(Query::new("RETURN 1 AS n".to_string())).expect("execute");
    let leased_before = g.pool.leased;
    let txn2 = Txn { conn: None, io_budget: BUDGET };
    assert!(matches!(txn2.commit(&mut g), Err(Error::UsageError)));
    assert_eq!(g.pool.leased, leased_before);
    txn.finish_stream(rs).expect("finish stream");
    txn.rollback(&mut g).expect("rollback is refused only without a connection");
}

#[test]
fn feed_maps_each_response_kind_to_its_outcome() {
    let mut rs: RowStream<ScriptTransport> = RowStream {
        conn: {
            let mut c = Connection::new(ScriptTransport::new(vec![]));
            c.state = ConnectionState::Streaming;
            c
        },
        fields: vec!["n".to_string()],
        phase: StreamPhase::Active,
        summary: Vec::new(),
    };
    // A record of matching arity becomes a row with exactly those values.
    let row = rs
        .feed(Response::Record(vec![Value::Integer(7)]))
        .expect("record")
        .expect("a row");
    assert_eq!(row.get_int(&"n".to_string()), Some(7));
    // The closing success becomes the summary and completes the stream.
    let md = vec![("bookmark".to_string(), Value::Str("bm".to_string()))];
    assert!(rs.feed(Response::Success(md)).expect("success").is_none());
    assert!(matches!(rs.phase, StreamPhase::Complete));
    assert_eq!(rs.summary().len(), 1);
    // A failure surfaces the server's code; a wrong-arity record and an
    // ignored response are protocol errors.
    let mut rs2: RowStream<ScriptTransport> = RowStream {
        conn: {
            let mut c = Connection::new(ScriptTransport::new(vec![]));
            c.state = ConnectionState::Streaming;
            c
        },
        fields: vec!["n".to_string()],
        phase: StreamPhase::Active,
        summary: Vec::new(),
    };
    match rs2.feed(Response::Failure(vec![(
        "code".to_string(),
        Value::Str("Neo.ClientError".to_string()),
    )])) {
        Err(Error::ServerFailure(sf)) => assert_eq!(sf.code, "Neo.ClientError"),
        _ => panic!("expected a server failure"),
    }
    let mut rs3: RowStream<ScriptTransport> = RowStream {
        conn: {
            let mut c = Connection::new(ScriptTransport::new(vec![]));
            c.state = ConnectionState::Streaming;
            c
        },
        fields: vec!["n".to_string()],
        phase: StreamPhase::Active,
        summary: Vec::new(),
    };
    assert!(matches!(
        rs3.feed(Response::Record(vec![Value::Integer(1), Value::Integer(2)])),
        Err(Error::Protocol(_))
    ));
}

#[test]
fn accept_version_takes_only_offered_versions() {
    assert_eq!(accept_version(&vec![0, 0, 4, 4]), Some(0x0404));
    assert_eq!(accept_version(&vec![0, 0, 4, 1]), Some(0x0401));
    assert_eq!(accept_version(&vec![0, 0, 9, 9]), None);
    assert_eq!(accept_version(&vec![0, 0, 0, 0]), None);
}

#[test]
fn metadata_extractors_fix_fields_and_bookmark()  {
    let md = fields_md(&["a", "b"]);
    assert_eq!(fields_of_metadata(&md), Some(vec!["a".to_string(), "b".to_string()]));
    assert_eq!(fields_of_metadata(&vec![]), None);
    assert_eq!(
        fields_of_metadata(&vec![("fields".to_string(), Value::Integer(1))]),
        None
    );
    let summary = vec![("bookmark".to_string(), Value::Str("bm-9".to_string()))];
    assert_eq!(bookmark_of_summary(&summary), Some("bm-9".to_string()));
    assert_eq!(bookmark_of_summary(&vec![]), None);
}
