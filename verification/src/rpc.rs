//! The JSON-RPC conversation with rtorrent: the calls the client makes, the
//! envelope they travel in, and how replies are read.
use vstd::prelude::*;
use vstd::string::*;
use base64::Engine;
use crate::error::{Error, ErrorView};
use crate::text::{is_prefix_of, uppercase, ascii_uppercase, to_uppercase, starts_with};
use crate::json::{Json, JsonNumber, json_get, json_as_i64, json_as_u64, json_as_str, json_as_array, is_json_str, member_value};
use crate::torrent::{
    Field, Torrent, TorrentView, TorrentFile, TorrentFileView, Peer, PeerView, Tracker, TrackerView,
    row_check, torrent_layout, file_layout, peer_layout, tracker_layout, torrent_of_row, file_of_row,
    peer_of_row, tracker_of_row, parse_torrent, parse_file, parse_peer, parse_tracker,
    text_at, integer_at, status_of, field_ok, lemma_row_fits,
};

verus! {

/// A client of one rtorrent instance, reached at an SCGI address (a Unix socket
/// path or `host:port`).
pub struct Client {
    url: String,
}

impl Client {
    /// The address the client talks to.
    pub closed spec fn address(&self) -> Seq<char> {
        self.url@
    }

    /// A client for the rtorrent instance at `url`.
    pub fn new(url: String) -> (c: Client)
        ensures
            c.address() == url@,
    {
        Client { url }
    }

    /// The address the client talks to.
    pub fn url(&self) -> (u: &str)
        ensures
            u@ == self.address(),
    {
        self.url.as_str()
    }
}

/// A remote call: the method's name and its positional parameters.
pub struct RpcCall {
    pub method: String,
    pub params: Vec<Json>,
}

/// The parameters are JSON strings holding exactly `texts`, in order.
pub open spec fn text_params(params: Seq<Json>, texts: Seq<Seq<char>>) -> bool {
    &&& params.len() == texts.len()
    &&& forall|i: int| 0 <= i < params.len() ==> is_json_str(#[trigger] params[i], texts[i])
}

/// Appends a JSON string to a parameter list.
fn push_text(params: &mut Vec<Json>, s: &str)
    ensures
        final(params)@.len() == old(params)@.len() + 1,
        final(params)@.take(old(params)@.len() as int) == old(params)@,
        is_json_str(final(params)@[old(params)@.len() as int], s@),
{
    params.push(Json::from_str(s));
    assert(params@.take(old(params)@.len() as int) =~= old(params)@);
}

/// Appends a JSON string to a parameter list known to hold `texts`.
fn push_text_param(params: &mut Vec<Json>, Ghost(texts): Ghost<Seq<Seq<char>>>, s: &str)
    requires
        text_params(old(params)@, texts),
    ensures
        text_params(final(params)@, texts.push(s@)),
{
    let ghost before = params@;
    push_text(params, s);
    assert forall|k: int| 0 <= k < params@.len() implies is_json_str(#[trigger] params@[k], texts.push(s@)[k]) by {
        if k < before.len() {
            assert(params@[k] == params@.take(before.len() as int)[k]);
        }
    }
}

/// Builds a parameter list of JSON strings.
fn text_param_list(texts: Vec<&str>) -> (params: Vec<Json>)
    ensures
        text_params(params@, texts@.map_values(|t: &str| t@)),
{
    let mut params: Vec<Json> = Vec::new();
    let mut i: usize = 0;
    while i < texts.len()
        invariant
            0 <= i <= texts.len(),
            text_params(params@, texts@.take(i as int).map_values(|t: &str| t@)),
        decreases texts.len() - i,
    {
        let ghost before = params@;
        push_text(&mut params, texts[i]);
        proof {
            assert forall|k: int| 0 <= k < params@.len() implies is_json_str(
                #[trigger] params@[k],
                texts@.take(i + 1).map_values(|t: &str| t@)[k],
            ) by {
                if k < before.len() {
                    assert(params@[k] == params@.take(before.len() as int)[k]);
                }
            }
        }
        i = i + 1;
    }
    assert(texts@.take(texts.len() as int) =~= texts@);
    params
}

/// The JSON-RPC 2.0 request object for a call, with id 1: members `jsonrpc`,
/// `id`, `method` and `params`, in that order.
pub open spec fn is_envelope(j: Json, method: Seq<char>, params: Vec<Json>) -> bool {
    &&& j matches Json::Object(m)
    &&& m@.len() == 4
    &&& m@[0].0@ == "jsonrpc"@ && is_json_str(m@[0].1, "2.0"@)
    &&& m@[1].0@ == "id"@ && m@[1].1 == Json::Number(JsonNumber::PosInt(1))
    &&& m@[2].0@ == "method"@ && is_json_str(m@[2].1, method)
    &&& m@[3].0@ == "params"@ && m@[3].1 == Json::Array(params)
}

/// Wraps a call in its JSON-RPC 2.0 request object.
pub fn request_envelope(call: RpcCall) -> (j: Json)
    ensures
        is_envelope(j, call.method@, call.params),
{
    let RpcCall { method, params } = call;
    let mut members: Vec<(String, Json)> = Vec::new();
    members.push((String::from_str("jsonrpc"), Json::from_str("2.0")));
    members.push((String::from_str("id"), Json::Number(JsonNumber::PosInt(1))));
    members.push((String::from_str("method"), Json::String(method)));
    members.push((String::from_str("params"), Json::Array(params)));
    Json::Object(members)
}

/// The integer code of a JSON-RPC error object, or -1 where it has none.
pub open spec fn error_code(err: Json) -> i64 {
    match json_get(err, "code"@) {
        Some(c) => match json_as_i64(c) {
            Some(i) => i,
            None => -1i64,
        },
        None => -1i64,
    }
}

/// The message of a JSON-RPC error object, or "unknown error" where it has none.
pub open spec fn error_message(err: Json) -> Seq<char> {
    match json_get(err, "message"@) {
        Some(m) => match json_as_str(m) {
            Some(s) => s,
            None => "unknown error"@,
        },
        None => "unknown error"@,
    }
}

/// What a JSON-RPC reply means: an `error` member is reported as an RPC error;
/// otherwise the `result` member is the answer, and a reply without one is malformed.
pub open spec fn rpc_outcome(response: Json) -> Result<Json, ErrorView> {
    match json_get(response, "error"@) {
        Some(err) => Err(ErrorView::Rpc { code: error_code(err), message: error_message(err) }),
        None => match json_get(response, "result"@) {
            Some(r) => Ok(r),
            None => Err(ErrorView::Scgi("missing 'result' in JSON-RPC response"@)),
        },
    }
}

/// The index of the first member named `key`.
fn member_index(members: &Vec<(String, Json)>, key: &str) -> (r: Option<usize>)
    ensures
        match r {
            Some(i) => i < members.len() && member_value(members@, key@) == Some(members@[i as int].1),
            None => member_value(members@, key@) is None,
        },
{
    let k = String::from_str(key);
    let mut i: usize = 0;
    assert(members@.skip(0) =~= members@);
    while i < members.len()
        invariant
            0 <= i <= members.len(),
            k@ == key@,
            member_value(members@, key@) == member_value(members@.skip(i as int), key@),
        decreases members.len() - i,
    {
        proof {
            assert(members@.skip(i as int).drop_first() =~= members@.skip(i + 1));
            assert(members@.skip(i as int)[0] == members@[i as int]);
        }
        if members[i].0 == k {
            return Some(i);
        }
        i = i + 1;
    }
    None
}

/// Reads a JSON-RPC reply: its result, or the error it reports.
pub fn response_result(response: Json) -> (r: Result<Json, Error>)
    ensures
        match rpc_outcome(response) {
            Ok(v) => r matches Ok(x) && x == v,
            Err(e) => r matches Err(x) && x@ == e,
        },
{
    match response {
        Json::Object(mut members) => {
            let ghost original = Json::Object(members);
            if let Some(i) = member_index(&members, "error") {
                let err = &members[i].1;
                let code = match err.get("code") {
                    Some(c) => match c.as_i64() {
                        Some(v) => v,
                        None => -1,
                    },
                    None => -1,
                };
                let message = match err.get("message") {
                    Some(m) => match m.as_str() {
                        Some(s) => String::from_str(s),
                        None => String::from_str("unknown error"),
                    },
                    None => String::from_str("unknown error"),
                };
                return Err(Error::Rpc { code, message });
            }
            match member_index(&members, "result") {
                Some(i) => {
                    let (_name, value) = members.remove(i);
                    Ok(value)
                },
                None => Err(Error::Scgi(String::from_str("missing 'result' in JSON-RPC response"))),
            }
        },
        _ => Err(Error::Scgi(String::from_str("missing 'result' in JSON-RPC response"))),
    }
}


/// The parameters of the `d.multicall2` call that lists every torrent: the
/// empty target, the `main` view, then one command per torrent column.
pub open spec fn list_torrents_texts() -> Seq<Seq<char>> {
    seq![
        ""@, "main"@, "d.hash="@, "d.name="@, "d.size_bytes="@, "d.completed_bytes="@,
        "d.up.total="@, "d.down.total="@, "d.up.rate="@, "d.down.rate="@,
        "d.peers_connected="@, "d.peers_complete="@, "d.state="@, "d.is_active="@,
        "d.is_open="@, "d.complete="@, "d.ratio="@, "d.directory="@, "d.message="@,
    ]
}

/// The call that lists every torrent with the columns a [`crate::torrent::Torrent`] is read from.
pub fn list_torrents_call() -> (c: RpcCall)
    ensures
        c.method@ == "d.multicall2"@,
        text_params(c.params@, list_torrents_texts()),
{
    let texts = vec![
        "", "main", "d.hash=", "d.name=", "d.size_bytes=", "d.completed_bytes=",
        "d.up.total=", "d.down.total=", "d.up.rate=", "d.down.rate=",
        "d.peers_connected=", "d.peers_complete=", "d.state=", "d.is_active=",
        "d.is_open=", "d.complete=", "d.ratio=", "d.directory=", "d.message=",
    ];
    let params = text_param_list(texts);
    assert(texts@.map_values(|t: &str| t@) =~= list_torrents_texts());
    RpcCall { method: String::from_str("d.multicall2"), params }
}

/// The call that lists the hashes of every torrent.
pub fn download_list_call() -> (c: RpcCall)
    ensures
        c.method@ == "download_list"@,
        text_params(c.params@, seq![""@]),
{
    let texts = vec![""];
    let params = text_param_list(texts);
    assert(texts@.map_values(|t: &str| t@) =~= seq![""@]);
    RpcCall { method: String::from_str("download_list"), params }
}

/// A call on one torrent that takes only its hash.
fn hash_call(method: &str, hash: &str) -> (c: RpcCall)
    ensures
        c.method@ == method@,
        text_params(c.params@, seq![hash@]),
{
    let texts = vec![hash];
    let params = text_param_list(texts);
    assert(texts@.map_values(|t: &str| t@) =~= seq![hash@]);
    RpcCall { method: String::from_str(method), params }
}

/// The call that starts a torrent.
pub fn start_torrent_call(hash: &str) -> (c: RpcCall)
    ensures
        c.method@ == "d.start"@,
        text_params(c.params@, seq![hash@]),
{
    hash_call("d.start", hash)
}

/// The call that stops a torrent.
pub fn stop_torrent_call(hash: &str) -> (c: RpcCall)
    ensures
        c.method@ == "d.stop"@,
        text_params(c.params@, seq![hash@]),
{
    hash_call("d.stop", hash)
}

/// The call that removes a torrent from rtorrent.
pub fn remove_torrent_call(hash: &str) -> (c: RpcCall)
    ensures
        c.method@ == "d.erase"@,
        text_params(c.params@, seq![hash@]),
{
    hash_call("d.erase", hash)
}

/// The call that makes rtorrent check a torrent's data again.
pub fn rehash_torrent_call(hash: &str) -> (c: RpcCall)
    ensures
        c.method@ == "d.check_hash"@,
        text_params(c.params@, seq![hash@]),
{
    hash_call("d.check_hash", hash)
}

/// The call that asks for a torrent's piece size.
pub fn chunk_size_call(hash: &str) -> (c: RpcCall)
    ensures
        c.method@ == "d.chunk_size"@,
        text_params(c.params@, seq![hash@]),
{
    hash_call("d.chunk_size", hash)
}

/// What a `d.chunk_size` reply gives: the piece size, or an error when the
/// result is not a non-negative integer.
pub open spec fn chunk_size_outcome(result: Json) -> Result<u64, ErrorView> {
    match json_as_u64(result) {
        Some(n) => Ok(n),
        None => Err(ErrorView::Scgi("expected integer from d.chunk_size"@)),
    }
}

/// Reads the piece size from a `d.chunk_size` result.
pub fn chunk_size_from_result(result: &Json) -> (r: Result<u64, Error>)
    ensures
        match chunk_size_outcome(*result) {
            Ok(n) => r == Ok::<u64, Error>(n),
            Err(e) => r matches Err(x) && x@ == e,
        },
{
    match result.as_u64() {
        Some(n) => Ok(n),
        None => Err(Error::Scgi(String::from_str("expected integer from d.chunk_size"))),
    }
}

/// The parameters of the `f.multicall` call that lists a torrent's files.
pub open spec fn files_texts(hash: Seq<char>) -> Seq<Seq<char>> {
    seq![hash, ""@, "f.path="@, "f.size_bytes="@, "f.completed_chunks="@, "f.size_chunks="@, "f.priority="@]
}

/// The parameters of the `p.multicall` call that lists a torrent's peers.
pub open spec fn peers_texts(hash: Seq<char>) -> Seq<Seq<char>> {
    seq![
        hash, ""@, "p.address="@, "p.client_version="@, "p.completed_percent="@,
        "p.down_rate="@, "p.up_rate="@, "p.is_encrypted="@, "p.is_incoming="@,
    ]
}

/// The parameters of the `t.multicall` call that lists a torrent's trackers.
pub open spec fn trackers_texts(hash: Seq<char>) -> Seq<Seq<char>> {
    seq![hash, ""@, "t.url="@, "t.is_enabled="@, "t.is_open="@, "t.scrape_complete="@, "t.scrape_incomplete="@]
}

/// The call that lists a torrent's files.
pub fn files_call(hash: &str) -> (c: RpcCall)
    ensures
        c.method@ == "f.multicall"@,
        text_params(c.params@, files_texts(hash@)),
{
    let texts = vec![hash, "", "f.path=", "f.size_bytes=", "f.completed_chunks=", "f.size_chunks=", "f.priority="];
    let params = text_param_list(texts);
    assert(texts@.map_values(|t: &str| t@) =~= files_texts(hash@));
    RpcCall { method: String::from_str("f.multicall"), params }
}

/// The call that lists a torrent's peers.
pub fn peers_call(hash: &str) -> (c: RpcCall)
    ensures
        c.method@ == "p.multicall"@,
        text_params(c.params@, peers_texts(hash@)),
{
    let texts = vec![
        hash, "", "p.address=", "p.client_version=", "p.completed_percent=",
        "p.down_rate=", "p.up_rate=", "p.is_encrypted=", "p.is_incoming=",
    ];
    let params = text_param_list(texts);
    assert(texts@.map_values(|t: &str| t@) =~= peers_texts(hash@));
    RpcCall { method: String::from_str("p.multicall"), params }
}

/// The call that lists a torrent's trackers.
pub fn trackers_call(hash: &str) -> (c: RpcCall)
    ensures
        c.method@ == "t.multicall"@,
        text_params(c.params@, trackers_texts(hash@)),
{
    let texts = vec![hash, "", "t.url=", "t.is_enabled=", "t.is_open=", "t.scrape_complete=", "t.scrape_incomplete="];
    let params = text_param_list(texts);
    assert(texts@.map_values(|t: &str| t@) =~= trackers_texts(hash@));
    RpcCall { method: String::from_str("t.multicall"), params }
}


/// What reading the rows of a multicall result gives: every row must be an
/// array whose columns fit the layout; the first row that is not an array, or
/// the first misfit column in the first bad row, is the error; otherwise each
/// row is read with `of_row`, in order.
pub open spec fn rows_outcome<T>(
    rows: Seq<Json>,
    layout: Seq<Field>,
    of_row: spec_fn(Seq<Json>) -> T,
) -> Result<Seq<T>, ErrorView>
    decreases rows.len(),
{
    if rows.len() == 0 {
        Ok(Seq::empty())
    } else {
        match rows_outcome(rows.drop_last(), layout, of_row) {
            Err(e) => Err(e),
            Ok(prefix) => match json_as_array(rows.last()) {
                None => Err(ErrorView::Scgi("expected array row"@)),
                Some(row) => match row_check(row, layout) {
                    Some(e) => Err(e),
                    None => Ok(prefix.push(of_row(row))),
                },
            },
        }
    }
}

/// Once a prefix of the rows fails, the whole list fails the same way.
proof fn lemma_rows_error_persists<T>(
    rows: Seq<Json>,
    layout: Seq<Field>,
    of_row: spec_fn(Seq<Json>) -> T,
    j: int,
)
    requires
        0 <= j <= rows.len(),
        rows_outcome(rows.take(j), layout, of_row) is Err,
    ensures
        rows_outcome(rows, layout, of_row) == rows_outcome(rows.take(j), layout, of_row),
    decreases rows.len() - j,
{
    if j < rows.len() {
        assert(rows.take(j + 1).drop_last() =~= rows.take(j));
        lemma_rows_error_persists(rows, layout, of_row, j + 1);
    } else {
        assert(rows.take(j) =~= rows);
    }
}

/// What reading a multicall result gives: it must be an array of rows
/// (`not_array` is the error otherwise), read as [`rows_outcome`] says.
pub open spec fn result_rows_outcome<T>(
    result: Json,
    not_array: Seq<char>,
    layout: Seq<Field>,
    of_row: spec_fn(Seq<Json>) -> T,
) -> Result<Seq<T>, ErrorView> {
    match json_as_array(result) {
        None => Err(ErrorView::Scgi(not_array)),
        Some(rows) => rows_outcome(rows, layout, of_row),
    }
}

/// Reads a `d.multicall2` row as a torrent.
pub open spec fn torrent_reader() -> spec_fn(Seq<Json>) -> TorrentView {
    |row: Seq<Json>| torrent_of_row(row)
}

/// Reads an `f.multicall` row as a file.
pub open spec fn file_reader() -> spec_fn(Seq<Json>) -> TorrentFileView {
    |row: Seq<Json>| file_of_row(row)
}

/// Reads a `p.multicall` row as a peer.
pub open spec fn peer_reader() -> spec_fn(Seq<Json>) -> PeerView {
    |row: Seq<Json>| peer_of_row(row)
}

/// Reads a `t.multicall` row as a tracker.
pub open spec fn tracker_reader() -> spec_fn(Seq<Json>) -> TrackerView {
    |row: Seq<Json>| tracker_of_row(row)
}

/// Reads the rows of a multicall result with `parse`, which reads a row as
/// `of_row` says when its columns fit `layout` and reports the first misfit
/// column otherwise.
fn read_rows<T: View, F: Fn(&[Json]) -> Result<T, Error>>(
    result: &Json,
    not_array: &str,
    parse: F,
    Ghost(layout): Ghost<Seq<Field>>,
    Ghost(of_row): Ghost<spec_fn(Seq<Json>) -> T::V>,
) -> (r: Result<Vec<T>, Error>)
    requires
        forall|row: &[Json]| #[trigger] call_requires(parse, (row,)),
        forall|row: &[Json], res: Result<T, Error>| #[trigger] call_ensures(parse, (row,), res) ==>
            match row_check(row@, layout) {
                Some(e) => res matches Err(x) && x@ == e,
                None => res matches Ok(v) && v@ == of_row(row@),
            },
    ensures
        match result_rows_outcome(*result, not_array@, layout, of_row) {
            Ok(vs) => r matches Ok(v) && v@.map_values(|t: T| t@) == vs,
            Err(e) => r matches Err(x) && x@ == e,
        },
{
    let rows = match result.as_array() {
        Some(rows) => rows,
        None => return Err(Error::Scgi(String::from_str(not_array))),
    };
    let mut out: Vec<T> = Vec::new();
    let mut i: usize = 0;
    assert(rows@.take(0) =~= Seq::<Json>::empty());
    assert(out@.map_values(|t: T| t@) =~= Seq::<T::V>::empty());
    while i < rows.len()
        invariant
            0 <= i <= rows.len(),
            json_as_array(*result) == Some(rows@),
            forall|row: &[Json]| #[trigger] call_requires(parse, (row,)),
            forall|row: &[Json], res: Result<T, Error>| #[trigger] call_ensures(parse, (row,), res) ==>
                match row_check(row@, layout) {
                    Some(e) => res matches Err(x) && x@ == e,
                    None => res matches Ok(v) && v@ == of_row(row@),
                },
            rows_outcome(rows@.take(i as int), layout, of_row)
                == Ok::<Seq<T::V>, ErrorView>(out@.map_values(|t: T| t@)),
        decreases rows.len() - i,
    {
        assert(rows@.take(i + 1).drop_last() =~= rows@.take(i as int));
        assert(rows@.take(i + 1).last() == rows@[i as int]);
        let row = match rows[i].as_array() {
            Some(row) => row,
            None => {
                proof {
                    assert(rows_outcome(rows@.take(i + 1), layout, of_row)
                        == Err::<Seq<T::V>, ErrorView>(ErrorView::Scgi("expected array row"@)));
                    lemma_rows_error_persists(rows@, layout, of_row, i + 1);
                }
                return Err(Error::Scgi(String::from_str("expected array row")));
            },
        };
        let ghost before = out@.map_values(|t: T| t@);
        match parse(row.as_slice()) {
            Ok(t) => {
                out.push(t);
                assert(out@.map_values(|t: T| t@) =~= before.push(of_row(row@)));
            },
            Err(e) => {
                proof { lemma_rows_error_persists(rows@, layout, of_row, i + 1); }
                return Err(e);
            },
        }
        i = i + 1;
    }
    assert(rows@.take(rows.len() as int) =~= rows@);
    Ok(out)
}

/// Reads the torrents of a `d.multicall2` result.
pub fn torrents_from_result(result: &Json) -> (r: Result<Vec<Torrent>, Error>)
    ensures
        match result_rows_outcome(*result, "expected array from d.multicall2"@, torrent_layout(), torrent_reader()) {
            Ok(vs) => r matches Ok(v) && v@.map_values(|t: Torrent| t@) == vs,
            Err(e) => r matches Err(x) && x@ == e,
        },
{
    read_rows(result, "expected array from d.multicall2", parse_torrent, Ghost(torrent_layout()), Ghost(torrent_reader()))
}

/// Reads the files of an `f.multicall` result.
pub fn files_from_result(result: &Json) -> (r: Result<Vec<TorrentFile>, Error>)
    ensures
        match result_rows_outcome(*result, "expected array from f.multicall"@, file_layout(), file_reader()) {
            Ok(vs) => r matches Ok(v) && v@.map_values(|t: TorrentFile| t@) == vs,
            Err(e) => r matches Err(x) && x@ == e,
        },
{
    read_rows(result, "expected array from f.multicall", parse_file, Ghost(file_layout()), Ghost(file_reader()))
}

/// Reads the peers of a `p.multicall` result.
pub fn peers_from_result(result: &Json) -> (r: Result<Vec<Peer>, Error>)
    ensures
        match result_rows_outcome(*result, "expected array from p.multicall"@, peer_layout(), peer_reader()) {
            Ok(vs) => r matches Ok(v) && v@.map_values(|t: Peer| t@) == vs,
            Err(e) => r matches Err(x) && x@ == e,
        },
{
    read_rows(result, "expected array from p.multicall", parse_peer, Ghost(peer_layout()), Ghost(peer_reader()))
}

/// Reads the trackers of a `t.multicall` result.
pub fn trackers_from_result(result: &Json) -> (r: Result<Vec<Tracker>, Error>)
    ensures
        match result_rows_outcome(*result, "expected array from t.multicall"@, tracker_layout(), tracker_reader()) {
            Ok(vs) => r matches Ok(v) && v@.map_values(|t: Tracker| t@) == vs,
            Err(e) => r matches Err(x) && x@ == e,
        },
{
    read_rows(result, "expected array from t.multicall", parse_tracker, Ghost(tracker_layout()), Ghost(tracker_reader()))
}


/// Each field of a torrent comes from the column that `d.multicall2` asks
/// for it: the call's commands, after the target and the view, name the
/// columns in order.
pub proof fn lemma_torrent_columns(row: Seq<Json>)
    requires
        row_check(row, torrent_layout()) is None,
    ensures
        ({
            let c = list_torrents_texts();
            let t = torrent_of_row(row);
            &&& c[2] == "d.hash="@ && text_at(row, 0) == Some(t.hash)
            &&& c[3] == "d.name="@ && text_at(row, 1) == Some(t.name)
            &&& c[4] == "d.size_bytes="@ && integer_at(row, 2) == Some(t.size_bytes)
            &&& c[5] == "d.completed_bytes="@ && integer_at(row, 3) == Some(t.completed_bytes)
            &&& c[6] == "d.up.total="@ && integer_at(row, 4) == Some(t.up_total)
            &&& c[7] == "d.down.total="@ && integer_at(row, 5) == Some(t.down_total)
            &&& c[8] == "d.up.rate="@ && integer_at(row, 6) == Some(t.up_rate)
            &&& c[9] == "d.down.rate="@ && integer_at(row, 7) == Some(t.down_rate)
            &&& c[10] == "d.peers_connected="@ && integer_at(row, 8) == Some(t.peers_connected)
            &&& c[11] == "d.peers_complete="@ && integer_at(row, 9) == Some(t.peers_complete)
            &&& c[12] == "d.state="@ && integer_at(row, 10) == Some(t.state)
            &&& c[13] == "d.is_active="@ && integer_at(row, 11) == Some(t.is_active)
            &&& c[14] == "d.is_open="@ && integer_at(row, 12) == Some(t.is_open)
            &&& c[15] == "d.complete="@ && integer_at(row, 13) == Some(t.complete)
            &&& c[16] == "d.ratio="@ && integer_at(row, 14) == Some(t.ratio)
            &&& c[17] == "d.directory="@ && text_at(row, 15) == Some(t.directory)
            &&& c[18] == "d.message="@ && text_at(row, 16) == Some(t.message) && t.status == status_of(t.message, t.complete, t.is_active, t.state)
        }),
{
    lemma_row_fits(row, torrent_layout());
    assert(field_ok(row, 0, torrent_layout()[0]));
    assert(field_ok(row, 1, torrent_layout()[1]));
    assert(field_ok(row, 2, torrent_layout()[2]));
    assert(field_ok(row, 3, torrent_layout()[3]));
    assert(field_ok(row, 4, torrent_layout()[4]));
    assert(field_ok(row, 5, torrent_layout()[5]));
    assert(field_ok(row, 6, torrent_layout()[6]));
    assert(field_ok(row, 7, torrent_layout()[7]));
    assert(field_ok(row, 8, torrent_layout()[8]));
    assert(field_ok(row, 9, torrent_layout()[9]));
    assert(field_ok(row, 10, torrent_layout()[10]));
    assert(field_ok(row, 11, torrent_layout()[11]));
    assert(field_ok(row, 12, torrent_layout()[12]));
    assert(field_ok(row, 13, torrent_layout()[13]));
    assert(field_ok(row, 14, torrent_layout()[14]));
    assert(field_ok(row, 15, torrent_layout()[15]));
    assert(field_ok(row, 16, torrent_layout()[16]));
}

/// Each field of a file comes from the column that `f.multicall` asks for it:
/// the call's commands, after the hash and the empty pattern, name the
/// columns in order.
pub proof fn lemma_file_columns(hash: Seq<char>, row: Seq<Json>)
    requires
        row_check(row, file_layout()) is None,
    ensures
        ({
            let c = files_texts(hash);
            let f = file_of_row(row);
            &&& c[2] == "f.path="@ && text_at(row, 0) == Some(f.path)
            &&& c[3] == "f.size_bytes="@ && integer_at(row, 1) == Some(f.size_bytes)
            &&& c[4] == "f.completed_chunks="@ && integer_at(row, 2) == Some(f.completed_chunks)
            &&& c[5] == "f.size_chunks="@ && integer_at(row, 3) == Some(f.size_chunks)
            &&& c[6] == "f.priority="@ && integer_at(row, 4) == Some(f.priority)
        }),
{
    lemma_row_fits(row, file_layout());
    assert(field_ok(row, 0, file_layout()[0]));
    assert(field_ok(row, 1, file_layout()[1]));
    assert(field_ok(row, 2, file_layout()[2]));
    assert(field_ok(row, 3, file_layout()[3]));
    assert(field_ok(row, 4, file_layout()[4]));
}

/// Each field of a peer comes from the column that `p.multicall` asks for it
/// (a flag is set when its column is non-zero): the call's commands, after
/// the hash and the empty pattern, name the columns in order.
pub proof fn lemma_peer_columns(hash: Seq<char>, row: Seq<Json>)
    requires
        row_check(row, peer_layout()) is None,
    ensures
        ({
            let c = peers_texts(hash);
            let p = peer_of_row(row);
            &&& c[2] == "p.address="@ && text_at(row, 0) == Some(p.address)
            &&& c[3] == "p.client_version="@ && text_at(row, 1) == Some(p.client_version)
            &&& c[4] == "p.completed_percent="@ && integer_at(row, 2) == Some(p.completed_percent)
            &&& c[5] == "p.down_rate="@ && integer_at(row, 3) == Some(p.down_rate)
            &&& c[6] == "p.up_rate="@ && integer_at(row, 4) == Some(p.up_rate)
            &&& c[7] == "p.is_encrypted="@ && (integer_at(row, 5) matches Some(v) && p.is_encrypted == (v != 0))
            &&& c[8] == "p.is_incoming="@ && (integer_at(row, 6) matches Some(v) && p.is_incoming == (v != 0))
        }),
{
    lemma_row_fits(row, peer_layout());
    assert(field_ok(row, 0, peer_layout()[0]));
    assert(field_ok(row, 1, peer_layout()[1]));
    assert(field_ok(row, 2, peer_layout()[2]));
    assert(field_ok(row, 3, peer_layout()[3]));
    assert(field_ok(row, 4, peer_layout()[4]));
    assert(field_ok(row, 5, peer_layout()[5]));
    assert(field_ok(row, 6, peer_layout()[6]));
}

/// Each field of a tracker comes from the column that `t.multicall` asks for
/// it (a flag is set when its column is non-zero): the call's commands, after
/// the hash and the empty pattern, name the columns in order.
pub proof fn lemma_tracker_columns(hash: Seq<char>, row: Seq<Json>)
    requires
        row_check(row, tracker_layout()) is None,
    ensures
        ({
            let c = trackers_texts(hash);
            let tr = tracker_of_row(row);
            &&& c[2] == "t.url="@ && text_at(row, 0) == Some(tr.url)
            &&& c[3] == "t.is_enabled="@ && (integer_at(row, 1) matches Some(v) && tr.enabled == (v != 0))
            &&& c[4] == "t.is_open="@ && (integer_at(row, 2) matches Some(v) && tr.open == (v != 0))
            &&& c[5] == "t.scrape_complete="@ && integer_at(row, 3) == Some(tr.scrape_complete)
            &&& c[6] == "t.scrape_incomplete="@ && integer_at(row, 4) == Some(tr.scrape_incomplete)
        }),
{
    lemma_row_fits(row, tracker_layout());
    assert(field_ok(row, 0, tracker_layout()[0]));
    assert(field_ok(row, 1, tracker_layout()[1]));
    assert(field_ok(row, 2, tracker_layout()[2]));
    assert(field_ok(row, 3, tracker_layout()[3]));
    assert(field_ok(row, 4, tracker_layout()[4]));
}

/// The hashes in a `download_list` reply that start, ignoring case, with a
/// prefix already mapped to uppercase; entries that are not strings are skipped.
pub open spec fn hash_matches(hashes: Seq<Json>, prefix_upper: Seq<char>) -> Seq<Seq<char>>
    decreases hashes.len(),
{
    if hashes.len() == 0 {
        Seq::empty()
    } else {
        let before = hash_matches(hashes.drop_last(), prefix_upper);
        match json_as_str(hashes.last()) {
            Some(h) => if is_prefix_of(prefix_upper, uppercase(h)) { before.push(h) } else { before },
            None => before,
        }
    }
}

/// Every string in a `download_list` reply is ASCII (as hexadecimal hashes are).
pub open spec fn ascii_hashes(hashes: Seq<Json>) -> bool {
    forall|i: int| 0 <= i < hashes.len() ==> match json_as_str(#[trigger] hashes[i]) {
        Some(h) => vstd::utf8::is_ascii_chars(h),
        None => true,
    }
}

/// [`hash_matches`] with ASCII case folding: the hashes that, their small
/// letters taken to capitals, start with `prefix_upper`.
pub open spec fn ascii_hash_matches(hashes: Seq<Json>, prefix_upper: Seq<char>) -> Seq<Seq<char>>
    decreases hashes.len(),
{
    if hashes.len() == 0 {
        Seq::empty()
    } else {
        let before = ascii_hash_matches(hashes.drop_last(), prefix_upper);
        match json_as_str(hashes.last()) {
            Some(h) => if is_prefix_of(prefix_upper, ascii_uppercase(h)) { before.push(h) } else { before },
            None => before,
        }
    }
}

/// [`resolve_outcome`] for an ASCII prefix and ASCII hashes, where ignoring
/// case means taking `a`..`z` to `A`..`Z`.
pub open spec fn ascii_resolve_outcome(list: Json, prefix: Seq<char>) -> Result<Seq<char>, ErrorView> {
    match json_as_array(list) {
        None => Err(ErrorView::Scgi("expected array from download_list"@)),
        Some(hashes) => {
            let m = ascii_hash_matches(hashes, ascii_uppercase(prefix));
            if m.len() == 0 {
                Err(ErrorView::NoMatch(prefix))
            } else if m.len() == 1 {
                Ok(m[0])
            } else {
                Err(ErrorView::AmbiguousMatch(prefix))
            }
        },
    }
}

/// Which torrent a hash prefix names: the one hash that starts with it
/// (ignoring case), or no match, or an ambiguous match.
pub open spec fn resolve_outcome(list: Json, prefix: Seq<char>) -> Result<Seq<char>, ErrorView> {
    match json_as_array(list) {
        None => Err(ErrorView::Scgi("expected array from download_list"@)),
        Some(hashes) => {
            let m = hash_matches(hashes, uppercase(prefix));
            if m.len() == 0 {
                Err(ErrorView::NoMatch(prefix))
            } else if m.len() == 1 {
                Ok(m[0])
            } else {
                Err(ErrorView::AmbiguousMatch(prefix))
            }
        },
    }
}

/// Resolves a hash prefix against the result of a `download_list` call.
pub fn resolve_hash_in(list: &Json, prefix: &str) -> (r: Result<String, Error>)
    ensures
        match resolve_outcome(*list, prefix@) {
            Ok(h) => r matches Ok(s) && s@ == h,
            Err(e) => r matches Err(x) && x@ == e,
        },
        vstd::utf8::is_ascii_chars(prefix@) && (json_as_array(*list) matches Some(hs) && ascii_hashes(hs))
            ==> resolve_outcome(*list, prefix@) == ascii_resolve_outcome(*list, prefix@),
{
    let hashes = match list.as_array() {
        Some(h) => h,
        None => return Err(Error::Scgi(String::from_str("expected array from download_list"))),
    };
    let prefix_upper = to_uppercase(prefix);
    let mut matches: Vec<String> = Vec::new();
    let mut i: usize = 0;
    assert(hashes@.take(0) =~= Seq::<Json>::empty());
    assert(matches@.map_values(|s: String| s@) =~= Seq::<Seq<char>>::empty());
    while i < hashes.len()
        invariant
            0 <= i <= hashes.len(),
            prefix_upper@ == uppercase(prefix@),
            vstd::utf8::is_ascii_chars(prefix@) ==> prefix_upper@ == ascii_uppercase(prefix@),
            json_as_array(*list) == Some(hashes@),
            matches@.map_values(|s: String| s@) == hash_matches(hashes@.take(i as int), prefix_upper@),
            vstd::utf8::is_ascii_chars(prefix@) && ascii_hashes(hashes@) ==> hash_matches(
                hashes@.take(i as int),
                prefix_upper@,
            ) == ascii_hash_matches(hashes@.take(i as int), prefix_upper@),
        decreases hashes.len() - i,
    {
        assert(hashes@.take(i + 1).drop_last() =~= hashes@.take(i as int));
        assert(hashes@.take(i + 1).last() == hashes@[i as int]);
        if let Some(h) = hashes[i].as_str() {
            let hu = to_uppercase(h);
            assert(ascii_hashes(hashes@) ==> vstd::utf8::is_ascii_chars(h@)) by {
                if ascii_hashes(hashes@) {
                    assert(json_as_str(hashes@[i as int]) == Some(h@));
                }
            }
            if starts_with(hu.as_str(), prefix_upper.as_str()) {
                let ghost before = matches@.map_values(|s: String| s@);
                matches.push(String::from_str(h));
                assert(matches@.map_values(|s: String| s@) =~= before.push(h@));
            }
        }
        i = i + 1;
    }
    assert(hashes@.take(hashes.len() as int) =~= hashes@);
    if matches.len() == 0 {
        Err(Error::NoMatch(String::from_str(prefix)))
    } else if matches.len() == 1 {
        let h = matches.pop().unwrap();
        Ok(h)
    } else {
        Err(Error::AmbiguousMatch(String::from_str(prefix)))
    }
}


/// What a command on one torrent does once rtorrent has been asked which
/// torrent a hash prefix names.
#[derive(Debug)]
pub enum Resolution {
    /// Act on the torrent with this hash.
    Use(String),
    /// The prefix is ambiguous: list the torrents it could mean, then report
    /// the ambiguity.
    ShowCandidates,
    /// Report this error.
    Fail(Error),
}

/// Decides what a command does with the outcome of resolving a hash prefix:
/// use a resolved hash, show the candidates of an ambiguous prefix, and
/// report any other error.
pub fn after_resolve(outcome: Result<String, Error>) -> (r: Resolution)
    ensures
        match outcome {
            Ok(h) => r matches Resolution::Use(x) && x@ == h@,
            Err(Error::AmbiguousMatch(_)) => r is ShowCandidates,
            Err(e) => r matches Resolution::Fail(x) && x@ == e@,
        },
{
    match outcome {
        Ok(h) => Resolution::Use(h),
        Err(Error::AmbiguousMatch(_)) => Resolution::ShowCandidates,
        Err(e) => Resolution::Fail(e),
    }
}

/// The character of the standard base64 alphabet (RFC 4648) for a six-bit value.
pub open spec fn base64_char(v: int) -> char {
    if v < 26 {
        (65 + v) as char
    } else if v < 52 {
        (97 + (v - 26)) as char
    } else if v < 62 {
        (48 + (v - 52)) as char
    } else if v == 62 {
        '+'
    } else {
        '/'
    }
}

/// Standard base64 with `=` padding (RFC 4648): each group of three bytes
/// becomes four characters; a final group of one or two bytes is padded.
pub open spec fn base64(d: Seq<u8>) -> Seq<char>
    decreases d.len(),
{
    if d.len() == 0 {
        Seq::empty()
    } else if d.len() == 1 {
        let b0 = d[0] as int;
        seq![base64_char(b0 / 4), base64_char((b0 % 4) * 16), '=', '=']
    } else if d.len() == 2 {
        let (b0, b1) = (d[0] as int, d[1] as int);
        seq![base64_char(b0 / 4), base64_char((b0 % 4) * 16 + b1 / 16), base64_char((b1 % 16) * 4), '=']
    } else {
        let (b0, b1, b2) = (d[0] as int, d[1] as int, d[2] as int);
        seq![
            base64_char(b0 / 4),
            base64_char((b0 % 4) * 16 + b1 / 16),
            base64_char((b1 % 16) * 4 + b2 / 64),
            base64_char(b2 % 64),
        ] + base64(d.skip(3))
    }
}

/// The length of the padded base64 text of `n` bytes.
pub open spec fn base64_len(n: nat) -> nat {
    (n / 3) * 4 + if n % 3 == 0 { 0nat } else { 4nat }
}

/// `base64::Engine::encode` with `base64::engine::general_purpose::STANDARD`:
/// standard alphabet with padding. The crate panics when the length of the
/// text would not fit in `usize`, so that input is left out.
#[verifier::external_body]
fn base64_encode(data: &[u8]) -> (s: String)
    requires
        base64_len(data@.len()) <= usize::MAX,
    ensures
        s@ == base64(data@),
{
    base64::engine::general_purpose::STANDARD.encode(data)
}

/// The parameters of a `load.raw_verbose` or `load.raw_start_verbose` call: the
/// empty target, the torrent as a base64 data URI, then the commands run on the
/// new download: setting its directory if one is given, and a hash check if
/// asked for and the torrent is not started.
pub open spec fn add_torrent_texts(
    data: Seq<u8>,
    download_location: Option<&str>,
    start: bool,
    rehash: bool,
) -> Seq<Seq<char>> {
    let base = seq![""@, "data:application/octet-stream;base64,"@ + base64(data)];
    let with_dir = match download_location {
        Some(dir) => base.push("d.directory.set="@ + dir@),
        None => base,
    };
    if rehash && !start { with_dir.push("d.check_hash="@) } else { with_dir }
}

/// The call that adds a torrent file's contents to rtorrent.
pub fn add_torrent_call(data: &[u8], download_location: Option<&str>, start: bool, rehash: bool) -> (c: RpcCall)
    requires
        base64_len(data@.len()) <= usize::MAX,
    ensures
        c.method@ == (if start { "load.raw_start_verbose"@ } else { "load.raw_verbose"@ }),
        text_params(
            c.params@,
            add_torrent_texts(data@, download_location, start, rehash),
        ),
{
    let mut data_uri = String::from_str("data:application/octet-stream;base64,");
    let encoded = base64_encode(data);
    data_uri.append(encoded.as_str());
    let method = if start { "load.raw_start_verbose" } else { "load.raw_verbose" };
    let mut params: Vec<Json> = Vec::new();
    let ghost mut texts: Seq<Seq<char>> = Seq::empty();
    push_text_param(&mut params, Ghost(texts), "");
    proof { texts = texts.push(""@); }
    push_text_param(&mut params, Ghost(texts), data_uri.as_str());
    proof { texts = texts.push(data_uri@); }
    if let Some(dir) = download_location {
        let mut cmd = String::from_str("d.directory.set=");
        cmd.append(dir);
        push_text_param(&mut params, Ghost(texts), cmd.as_str());
        proof { texts = texts.push(cmd@); }
    }
    if rehash && !start {
        push_text_param(&mut params, Ghost(texts), "d.check_hash=");
        proof { texts = texts.push("d.check_hash="@); }
    }
    assert(texts =~= add_torrent_texts(data@, download_location, start, rehash));
    RpcCall { method: String::from_str(method), params }
}


/// A request envelope gives back what it was built from: looking up `method`
/// finds the method's name and `params` the parameters.
pub proof fn lemma_envelope_reads_back(j: Json, method: Seq<char>, params: Vec<Json>)
    requires
        is_envelope(j, method, params),
    ensures
        json_get(j, "method"@) matches Some(m) && is_json_str(m, method),
        json_get(j, "params"@) == Some(Json::Array(params)),
        json_get(j, "jsonrpc"@) matches Some(v) && is_json_str(v, "2.0"@),
{
    reveal_strlit("jsonrpc");
    reveal_strlit("id");
    reveal_strlit("method");
    reveal_strlit("params");
    reveal_with_fuel(member_value, 4);
    let m = j->Object_0@;
    assert(m.drop_first()[0] == m[1]);
    assert(m.drop_first().drop_first()[0] == m[2]);
    assert(m.drop_first().drop_first().drop_first()[0] == m[3]);
    assert("jsonrpc"@[0] != "method"@[0]);
    assert("id"@[0] != "method"@[0]);
    assert("jsonrpc"@[0] != "params"@[0]);
    assert("id"@[0] != "params"@[0]);
    assert("method"@[0] != "params"@[0]);
}

/// A reply without an `error` member and with a `result` member gives back
/// that result; any reply with an `error` member is reported as an RPC error.
pub proof fn lemma_reply_result_read_back(response: Json)
    ensures
        json_get(response, "error"@) is None ==> match json_get(response, "result"@) {
            Some(v) => rpc_outcome(response) == Ok::<Json, ErrorView>(v),
            None => rpc_outcome(response) is Err,
        },
        json_get(response, "error"@) is Some ==> rpc_outcome(response) matches Err(ErrorView::Rpc { .. }),
{
}

/// A resolved hash is one of the listed hashes, and it starts with the prefix
/// when both are mapped to uppercase.
pub proof fn lemma_resolved_hash_is_listed(list: Json, prefix: Seq<char>)
    ensures
        resolve_outcome(list, prefix) matches Ok(h) ==> exists|i: int|
            0 <= i < list->Array_0@.len() && #[trigger] json_as_str(list->Array_0@[i]) == Some(h)
                && is_prefix_of(uppercase(prefix), uppercase(h)),
{
    if let Ok(h) = resolve_outcome(list, prefix) {
        let hashes = list->Array_0@;
        lemma_hash_matches_listed(hashes, uppercase(prefix));
        let m = hash_matches(hashes, uppercase(prefix));
        assert(m[0] == h);
    }
}

proof fn lemma_hash_matches_listed(hashes: Seq<Json>, prefix_upper: Seq<char>)
    ensures
        forall|k: int| 0 <= k < hash_matches(hashes, prefix_upper).len() ==> exists|i: int|
            0 <= i < hashes.len() && #[trigger] json_as_str(hashes[i]) == Some(
                #[trigger] hash_matches(hashes, prefix_upper)[k],
            ) && is_prefix_of(prefix_upper, uppercase(hash_matches(hashes, prefix_upper)[k])),
    decreases hashes.len(),
{
    if hashes.len() > 0 {
        let before = hashes.drop_last();
        lemma_hash_matches_listed(before, prefix_upper);
        assert forall|k: int| 0 <= k < hash_matches(hashes, prefix_upper).len() implies exists|i: int|
            0 <= i < hashes.len() && #[trigger] json_as_str(hashes[i]) == Some(
                #[trigger] hash_matches(hashes, prefix_upper)[k],
            ) && is_prefix_of(prefix_upper, uppercase(hash_matches(hashes, prefix_upper)[k])) by {
            let m = hash_matches(hashes, prefix_upper);
            let mb = hash_matches(before, prefix_upper);
            if k < mb.len() {
                assert(m[k] == mb[k]);
                let i = choose|i: int| 0 <= i < before.len() && #[trigger] json_as_str(before[i]) == Some(mb[k])
                    && is_prefix_of(prefix_upper, uppercase(mb[k]));
                assert(hashes[i] == before[i]);
            } else {
                assert(json_as_str(hashes[hashes.len() - 1]) == Some(m[k]));
            }
        }
    }
}

/// Reading rows keeps their number: one value per row.
pub proof fn lemma_rows_keep_count<T>(rows: Seq<Json>, layout: Seq<Field>, of_row: spec_fn(Seq<Json>) -> T)
    ensures
        rows_outcome(rows, layout, of_row) matches Ok(vs) ==> vs.len() == rows.len(),
    decreases rows.len(),
{
    if rows.len() > 0 {
        lemma_rows_keep_count(rows.drop_last(), layout, of_row);
    }
}

/// The base64 text of `n` bytes has the padded length: four characters for
/// every started group of three bytes.
pub proof fn lemma_base64_length(d: Seq<u8>)
    ensures
        base64(d).len() == base64_len(d.len()),
    decreases d.len(),
{
    if d.len() >= 3 {
        lemma_base64_length(d.skip(3));
    }
}

/// The parameters of an added torrent: the empty target, the file as a base64
/// data URI, then the download directory whenever one is given (started or
/// not), then a hash check only when one is asked for and the torrent is not
/// started; nothing else.
pub proof fn lemma_add_torrent_params(data: Seq<u8>, download_location: Option<&str>, start: bool, rehash: bool)
    ensures
        ({
            let t = add_torrent_texts(data, download_location, start, rehash);
            let dirs: int = if download_location is Some { 1 } else { 0 };
            let checks: int = if rehash && !start { 1 } else { 0 };
            &&& t.len() == 2 + dirs + checks
            &&& t[0] == ""@
            &&& t[1] == "data:application/octet-stream;base64,"@ + base64(data)
            &&& download_location matches Some(dir) ==> t[2] == "d.directory.set="@ + dir@
            &&& rehash && !start ==> t[t.len() - 1] == "d.check_hash="@
        }),
{
}

/// Asking for a hash check is ignored when the torrent is started: the call
/// is the same as without it.
pub proof fn lemma_rehash_ignored_when_started(data: Seq<u8>, download_location: Option<&str>)
    ensures
        add_torrent_texts(data, download_location, true, true) == add_torrent_texts(data, download_location, true, false),
{
}

} // verus!
