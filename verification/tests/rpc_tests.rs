use rtcli::error::Error;
use rtcli::json::{Json, JsonNumber};
use rtcli::rpc::{
    add_torrent_call, download_list_call, files_call, list_torrents_call, peers_call, rehash_torrent_call,
    remove_torrent_call, request_envelope, resolve_hash_in, response_result, start_torrent_call, stop_torrent_call,
    torrents_from_result, files_from_result, peers_from_result, trackers_from_result, trackers_call, Client, RpcCall,
};
use rtcli::rpc::{after_resolve, chunk_size_call, chunk_size_from_result, Resolution};
use rtcli::torrent::Status;

fn s(x: &str) -> Json {
    Json::String(x.to_string())
}

fn n(x: u64) -> Json {
    Json::Number(JsonNumber::PosInt(x))
}

fn obj(members: Vec<(&str, Json)>) -> Json {
    Json::Object(members.into_iter().map(|(k, v)| (k.to_string(), v)).collect())
}

fn texts(params: &[Json]) -> Vec<String> {
    params
        .iter()
        .map(|p| match p {
            Json::String(x) => x.clone(),
            other => panic!("not a string: {other:?}"),
        })
        .collect()
}

fn torrent_row(hash: &str, name: &str, message: &str, complete: u64, active: u64, state: u64) -> Json {
    Json::Array(vec![
        s(hash), s(name), n(1000), n(500), n(10), n(20), n(1), n(2), n(3), n(4),
        n(state), n(active), n(1), n(complete), n(1500), s("/data"), s(message),
    ])
}

#[test]
fn client_keeps_its_address() {
    let c = Client::new("localhost:5000".to_string());
    assert_eq!(c.url(), "localhost:5000");
}

#[test]
fn envelope_members() {
    let call = RpcCall { method: "d.start".to_string(), params: vec![s("ABC")] };
    match request_envelope(call) {
        Json::Object(m) => {
            assert_eq!(m.len(), 4);
            assert_eq!(m[0].0, "jsonrpc");
            assert!(matches!(&m[0].1, Json::String(v) if v == "2.0"));
            assert_eq!(m[1].0, "id");
            assert!(matches!(m[1].1, Json::Number(JsonNumber::PosInt(1))));
            assert_eq!(m[2].0, "method");
            assert!(matches!(&m[2].1, Json::String(v) if v == "d.start"));
            assert_eq!(m[3].0, "params");
            assert!(matches!(&m[3].1, Json::Array(p) if p.len() == 1));
        }
        other => panic!("not an object: {other:?}"),
    }
}

#[test]
fn envelope_reads_back_with_get() {
    let env = request_envelope(RpcCall { method: "x.y".to_string(), params: vec![] });
    assert_eq!(env.get("method").and_then(|m| m.as_str()), Some("x.y"));
    assert_eq!(env.get("jsonrpc").and_then(|m| m.as_str()), Some("2.0"));
    assert!(env.get("params").and_then(|p| p.as_array()).is_some());
}

#[test]
fn response_result_gives_result() {
    let r = response_result(obj(vec![("id", n(1)), ("result", s("ok"))])).unwrap();
    assert!(matches!(r, Json::String(v) if v == "ok"));
}

#[test]
fn response_result_reports_rpc_error() {
    let err = obj(vec![("code", Json::Number(JsonNumber::NegInt(-506))), ("message", s("Method not defined"))]);
    match response_result(obj(vec![("error", err), ("result", s("ignored"))])) {
        Err(Error::Rpc { code, message }) => {
            assert_eq!(code, -506);
            assert_eq!(message, "Method not defined");
        }
        other => panic!("unexpected {other:?}"),
    }
}

#[test]
fn response_result_error_without_details() {
    match response_result(obj(vec![("error", Json::Null)])) {
        Err(Error::Rpc { code, message }) => {
            assert_eq!(code, -1);
            assert_eq!(message, "unknown error");
        }
        other => panic!("unexpected {other:?}"),
    }
    let err = obj(vec![("code", n(u64::MAX)), ("message", n(3))]);
    match response_result(obj(vec![("error", err)])) {
        Err(Error::Rpc { code, message }) => {
            assert_eq!(code, -1);
            assert_eq!(message, "unknown error");
        }
        other => panic!("unexpected {other:?}"),
    }
}

#[test]
fn response_result_missing_result() {
    match response_result(obj(vec![("id", n(1))])) {
        Err(Error::Scgi(m)) => assert_eq!(m, "missing 'result' in JSON-RPC response"),
        other => panic!("unexpected {other:?}"),
    }
    match response_result(Json::Array(vec![])) {
        Err(Error::Scgi(m)) => assert_eq!(m, "missing 'result' in JSON-RPC response"),
        other => panic!("unexpected {other:?}"),
    }
}

#[test]
fn call_parameters() {
    let list = list_torrents_call();
    assert_eq!(list.method, "d.multicall2");
    let p = texts(&list.params);
    assert_eq!(p.len(), 19);
    assert_eq!(p[0], "");
    assert_eq!(p[1], "main");
    assert_eq!(p[2], "d.hash=");
    assert_eq!(p[18], "d.message=");
    let cs = chunk_size_call("H");
    assert_eq!(cs.method, "d.chunk_size");
    assert_eq!(texts(&cs.params), vec!["H"]);
    let dl = download_list_call();
    assert_eq!(dl.method, "download_list");
    assert_eq!(texts(&dl.params), vec![""]);
    assert_eq!(start_torrent_call("H").method, "d.start");
    assert_eq!(stop_torrent_call("H").method, "d.stop");
    assert_eq!(remove_torrent_call("H").method, "d.erase");
    let rehash = rehash_torrent_call("H");
    assert_eq!(rehash.method, "d.check_hash");
    assert_eq!(texts(&rehash.params), vec!["H"]);
    let files = files_call("H");
    assert_eq!(files.method, "f.multicall");
    assert_eq!(texts(&files.params), vec!["H", "", "f.path=", "f.size_bytes=", "f.completed_chunks=", "f.size_chunks=", "f.priority="]);
    let peers = peers_call("H");
    assert_eq!(peers.method, "p.multicall");
    assert_eq!(texts(&peers.params).len(), 9);
    let trackers = trackers_call("H");
    assert_eq!(trackers.method, "t.multicall");
    assert_eq!(texts(&trackers.params)[2], "t.url=");
}

#[test]
fn add_torrent_call_variants() {
    let c = add_torrent_call(b"hello", None, false, false);
    assert_eq!(c.method, "load.raw_verbose");
    assert_eq!(texts(&c.params), vec!["", "data:application/octet-stream;base64,aGVsbG8="]);
    let c = add_torrent_call(b"hi!", Some("/downloads"), true, true);
    assert_eq!(c.method, "load.raw_start_verbose");
    assert_eq!(texts(&c.params), vec!["", "data:application/octet-stream;base64,aGkh", "d.directory.set=/downloads"]);
    let c = add_torrent_call(b"", None, false, true);
    assert_eq!(texts(&c.params), vec!["", "data:application/octet-stream;base64,", "d.check_hash="]);
    let c = add_torrent_call(&[0xfb, 0xff], None, false, false);
    assert_eq!(texts(&c.params)[1], "data:application/octet-stream;base64,+/8=");
}

#[test]
fn torrents_from_rows() {
    let result = Json::Array(vec![
        torrent_row("AAA", "one", "", 1, 1, 1),
        torrent_row("BBB", "two", "tracker down", 0, 1, 1),
        torrent_row("CCC", "three", "", 0, 0, 0),
        torrent_row("DDD", "four", "", 0, 1, 1),
    ]);
    let ts = torrents_from_result(&result).unwrap();
    assert_eq!(ts.len(), 4);
    assert_eq!(ts[0].hash, "AAA");
    assert_eq!(ts[0].name, "one");
    assert_eq!(ts[0].size_bytes, 1000);
    assert_eq!(ts[0].completed_bytes, 500);
    assert_eq!(ts[0].ratio, 1500);
    assert_eq!(ts[0].directory, "/data");
    assert_eq!(ts[0].status, Status::Seeding);
    assert_eq!(ts[1].status, Status::Error);
    assert_eq!(ts[2].status, Status::Stopped);
    assert_eq!(ts[3].status, Status::Downloading);
}

#[test]
fn torrents_from_result_errors() {
    match torrents_from_result(&s("nope")) {
        Err(Error::Scgi(m)) => assert_eq!(m, "expected array from d.multicall2"),
        other => panic!("unexpected {other:?}"),
    }
    match torrents_from_result(&Json::Array(vec![torrent_row("A", "a", "", 0, 0, 0), n(3)])) {
        Err(Error::Scgi(m)) => assert_eq!(m, "expected array row"),
        other => panic!("unexpected {other:?}"),
    }
    match torrents_from_result(&Json::Array(vec![Json::Array(vec![n(1)])])) {
        Err(Error::Scgi(m)) => assert_eq!(m, "expected string at index 0"),
        other => panic!("unexpected {other:?}"),
    }
    match torrents_from_result(&Json::Array(vec![Json::Array(vec![s("h"), s("n"), s("x")])])) {
        Err(Error::Scgi(m)) => assert_eq!(m, "expected integer at index 2"),
        other => panic!("unexpected {other:?}"),
    }
    assert_eq!(torrents_from_result(&Json::Array(vec![])).unwrap().len(), 0);
}

#[test]
fn other_rows() {
    let files = Json::Array(vec![Json::Array(vec![s("a/b"), n(10), n(1), n(2), n(0)])]);
    let fs = files_from_result(&files).unwrap();
    assert_eq!(fs[0].path, "a/b");
    assert_eq!(fs[0].size_chunks, 2);
    let peers = Json::Array(vec![Json::Array(vec![s("1.1.1.1"), s("cl"), n(50), n(1), n(2), n(1), n(0)])]);
    let ps = peers_from_result(&peers).unwrap();
    assert!(ps[0].is_encrypted);
    assert!(!ps[0].is_incoming);
    let trackers = Json::Array(vec![Json::Array(vec![s("http://t"), n(1), n(0), n(5), n(6)])]);
    let trs = trackers_from_result(&trackers).unwrap();
    assert!(trs[0].enabled);
    assert!(!trs[0].open);
    assert_eq!(trs[0].scrape_incomplete, 6);
    match files_from_result(&Json::Null) {
        Err(Error::Scgi(m)) => assert_eq!(m, "expected array from f.multicall"),
        other => panic!("unexpected {other:?}"),
    }
    match peers_from_result(&Json::Null) {
        Err(Error::Scgi(m)) => assert_eq!(m, "expected array from p.multicall"),
        other => panic!("unexpected {other:?}"),
    }
    match trackers_from_result(&Json::Null) {
        Err(Error::Scgi(m)) => assert_eq!(m, "expected array from t.multicall"),
        other => panic!("unexpected {other:?}"),
    }
}

#[test]
fn resolve_hash_cases() {
    let list = Json::Array(vec![s("ABCDEF"), s("abc999"), n(3), s("123456")]);
    assert_eq!(resolve_hash_in(&list, "12").unwrap(), "123456");
    assert_eq!(resolve_hash_in(&list, "abcd").unwrap(), "ABCDEF");
    assert_eq!(resolve_hash_in(&list, "ABC9").unwrap(), "abc999");
    match resolve_hash_in(&list, "abc") {
        Err(Error::AmbiguousMatch(p)) => assert_eq!(p, "abc"),
        other => panic!("unexpected {other:?}"),
    }
    match resolve_hash_in(&list, "zz") {
        Err(Error::NoMatch(p)) => assert_eq!(p, "zz"),
        other => panic!("unexpected {other:?}"),
    }
    match resolve_hash_in(&list, "") {
        Err(Error::AmbiguousMatch(p)) => assert_eq!(p, ""),
        other => panic!("unexpected {other:?}"),
    }
    match resolve_hash_in(&obj(vec![]), "a") {
        Err(Error::Scgi(m)) => assert_eq!(m, "expected array from download_list"),
        other => panic!("unexpected {other:?}"),
    }
}

#[test]
fn after_resolve_steps() {
    assert!(matches!(after_resolve(Ok("H".to_string())), Resolution::Use(h) if h == "H"));
    assert!(matches!(after_resolve(Err(Error::AmbiguousMatch("a".to_string()))), Resolution::ShowCandidates));
    assert!(matches!(after_resolve(Err(Error::NoMatch("a".to_string()))), Resolution::Fail(Error::NoMatch(p)) if p == "a"));
}

#[test]
fn piece_size_from_reply() {
    assert_eq!(chunk_size_from_result(&n(262144)).unwrap(), 262144);
    match chunk_size_from_result(&s("x")) {
        Err(Error::Scgi(m)) => assert_eq!(m, "expected integer from d.chunk_size"),
        other => panic!("unexpected {other:?}"),
    }
    assert!(chunk_size_from_result(&Json::Number(JsonNumber::NegInt(-1))).is_err());
}
