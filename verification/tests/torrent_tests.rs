use rtcli::config::{choose_url, Config};
use rtcli::error::Error;
use rtcli::json::{Json, JsonNumber};
use rtcli::torrent::{
    check_row, derive_status, global_stats, parse_file, parse_peer, parse_torrent, parse_tracker, val_str, val_u64,
    Field, Status, Torrent,
};

fn s(x: &str) -> Json {
    Json::String(x.to_string())
}

fn n(x: u64) -> Json {
    Json::Number(JsonNumber::PosInt(x))
}

fn scgi(e: Error) -> String {
    match e {
        Error::Scgi(m) => m,
        other => panic!("unexpected {other:?}"),
    }
}

fn torrent(status: Status, size: u64, up: u64, down: u64) -> Torrent {
    Torrent {
        hash: "H".to_string(),
        name: "N".to_string(),
        size_bytes: size,
        completed_bytes: 0,
        up_total: up,
        down_total: down,
        up_rate: 0,
        down_rate: 0,
        peers_connected: 0,
        peers_complete: 0,
        state: 0,
        is_active: 0,
        is_open: 0,
        complete: 0,
        ratio: 0,
        directory: String::new(),
        message: String::new(),
        status,
    }
}

#[test]
fn status_names() {
    assert_eq!(Status::Seeding.to_string(), "Seeding");
    assert_eq!(Status::Downloading.to_string(), "Downloading");
    assert_eq!(Status::Stopped.to_string(), "Stopped");
    assert_eq!(Status::Hashing.to_string(), "Hashing");
    assert_eq!(Status::Error.to_string(), "Error");
}

#[test]
fn derive_status_cases() {
    assert_eq!(derive_status("Tracker: timeout", 1, 1, 1), Status::Error);
    assert_eq!(derive_status("", 1, 0, 0), Status::Stopped);
    assert_eq!(derive_status("", 1, 1, 1), Status::Seeding);
    assert_eq!(derive_status("", 0, 1, 1), Status::Downloading);
    assert_eq!(derive_status("", 1, 0, 1), Status::Stopped);
    assert_eq!(derive_status("", 1, 2, 1), Status::Stopped);
}

#[test]
fn column_readers() {
    let row = vec![s("x"), n(7), Json::Number(JsonNumber::NegInt(-1)), Json::Number(JsonNumber::Float(0)), Json::Bool(true)];
    assert_eq!(val_str(&row, 0).unwrap(), "x");
    assert_eq!(scgi(val_str(&row, 1).unwrap_err()), "expected string at index 1");
    assert_eq!(scgi(val_str(&row, 9).unwrap_err()), "expected string at index 9");
    assert_eq!(val_u64(&row, 1).unwrap(), 7);
    assert_eq!(val_u64(&row, 2).unwrap(), u64::MAX);
    assert_eq!(scgi(val_u64(&row, 3).unwrap_err()), "expected integer at index 3");
    assert_eq!(scgi(val_u64(&row, 4).unwrap_err()), "expected integer at index 4");
    assert_eq!(scgi(val_u64(&row, 0).unwrap_err()), "expected integer at index 0");
}

#[test]
fn check_row_reports_first_misfit() {
    let row = vec![s("x"), s("y"), n(1)];
    assert!(check_row(&row, &[Field::Text, Field::Text, Field::Integer]).is_ok());
    assert_eq!(scgi(check_row(&row, &[Field::Text, Field::Integer, Field::Text]).unwrap_err()), "expected integer at index 1");
    assert_eq!(scgi(check_row(&row, &[Field::Text, Field::Text, Field::Integer, Field::Text]).unwrap_err()), "expected string at index 3");
}

#[test]
fn parse_torrent_reads_columns() {
    let row = vec![
        s("HASH"), s("Name"), n(100), n(50), n(5), n(6), n(7), n(8), n(9), n(10),
        n(1), n(1), n(1), n(0), n(1234), s("/dl"), s(""),
    ];
    let t = parse_torrent(&row).unwrap();
    assert_eq!(t.hash, "HASH");
    assert_eq!(t.name, "Name");
    assert_eq!((t.size_bytes, t.completed_bytes, t.up_total, t.down_total), (100, 50, 5, 6));
    assert_eq!((t.up_rate, t.down_rate, t.peers_connected, t.peers_complete), (7, 8, 9, 10));
    assert_eq!((t.state, t.is_active, t.is_open, t.complete, t.ratio), (1, 1, 1, 0, 1234));
    assert_eq!(t.directory, "/dl");
    assert_eq!(t.message, "");
    assert_eq!(t.status, Status::Downloading);
    let mut longer = row;
    longer.push(n(65536));
    longer.push(s("ignored"));
    assert_eq!(parse_torrent(&longer).unwrap().ratio, 1234);
    let mut shorter = longer;
    shorter.truncate(16);
    assert_eq!(scgi(parse_torrent(&shorter).unwrap_err()), "expected string at index 16");
    let short = vec![s("HASH"), s("Name"), n(100)];
    assert_eq!(scgi(parse_torrent(&short).unwrap_err()), "expected integer at index 3");
}

#[test]
fn parse_other_rows() {
    let f = parse_file(&[s("p"), n(1), n(2), n(3), n(4)]).unwrap();
    assert_eq!((f.path.as_str(), f.size_bytes, f.completed_chunks, f.size_chunks, f.priority), ("p", 1, 2, 3, 4));
    assert_eq!(scgi(parse_file(&[s("p")]).unwrap_err()), "expected integer at index 1");
    let p = parse_peer(&[s("a"), s("c"), n(1), n(2), n(3), n(0), n(5)]).unwrap();
    assert!(!p.is_encrypted);
    assert!(p.is_incoming);
    assert_eq!(scgi(parse_peer(&[s("a"), n(1)]).unwrap_err()), "expected string at index 1");
    let tr = parse_tracker(&[s("u"), n(0), n(2), n(3), n(4)]).unwrap();
    assert!(!tr.enabled);
    assert!(tr.open);
    assert_eq!(scgi(parse_tracker(&[]).unwrap_err()), "expected string at index 0");
}

#[test]
fn stats_totals() {
    let ts = vec![
        torrent(Status::Seeding, 100, 10, 1),
        torrent(Status::Stopped, 200, 20, 2),
        torrent(Status::Seeding, 300, 30, 3),
    ];
    let st = global_stats(&ts);
    assert_eq!(st.total, 3);
    assert_eq!(st.uploaded, 60);
    assert_eq!(st.downloaded, 6);
    assert_eq!(st.seeding_size, 400);
    let big = vec![torrent(Status::Seeding, u64::MAX, u64::MAX, 0), torrent(Status::Seeding, 1, 1, 0)];
    let st = global_stats(&big);
    assert_eq!(st.uploaded, u64::MAX);
    assert_eq!(st.seeding_size, u64::MAX);
    assert_eq!(global_stats(&[]).total, 0);
}

#[test]
fn url_choice() {
    let cfg = Config { url: Some("/run/rt.sock".to_string()) };
    assert_eq!(choose_url(Some("host:1".to_string()), cfg), Some("host:1".to_string()));
    let cfg = Config { url: Some("/run/rt.sock".to_string()) };
    assert_eq!(choose_url(None, cfg), Some("/run/rt.sock".to_string()));
    assert_eq!(choose_url(None, Config::empty()), None);
}

#[test]
fn parse_torrent_seventeen_columns() {
    let row = vec![
        s("ABC"), s("n"), n(2048), n(1024), n(10), n(20), n(3), n(4), n(5), n(6),
        n(1), n(1), n(1), n(1), n(1500), s("/d"), s(""),
    ];
    let t = parse_torrent(&row).unwrap();
    assert_eq!((t.hash.as_str(), t.name.as_str()), ("ABC", "n"));
    assert_eq!((t.size_bytes, t.completed_bytes, t.up_total, t.down_total), (2048, 1024, 10, 20));
    assert_eq!((t.up_rate, t.down_rate, t.peers_connected, t.peers_complete), (3, 4, 5, 6));
    assert_eq!((t.state, t.is_active, t.is_open, t.complete, t.ratio), (1, 1, 1, 1, 1500));
    assert_eq!((t.directory.as_str(), t.message.as_str()), ("/d", ""));
    assert_eq!(t.status, Status::Seeding);
}
