//! Torrents, files, peers and trackers as rtorrent reports them, read from the
//! rows of its multicall replies.
use vstd::prelude::*;
use vstd::string::*;
use crate::error::{Error, ErrorView};
use crate::json::{Json, JsonNumber, json_as_str};
use crate::text::{decimal, push_decimal};

verus! {

/// The state of a torrent as shown to the user.
#[derive(Clone, Copy, Debug, PartialEq, Eq, Structural)]
pub enum Status {
    Seeding,
    Downloading,
    Stopped,
    Hashing,
    Error,
}

/// The name under which a status is shown.
pub open spec fn status_name(s: Status) -> Seq<char> {
    match s {
        Status::Seeding => "Seeding"@,
        Status::Downloading => "Downloading"@,
        Status::Stopped => "Stopped"@,
        Status::Hashing => "Hashing"@,
        Status::Error => "Error"@,
    }
}

impl Status {
    /// The name under which the status is shown.
    pub fn to_string(&self) -> (s: String)
        ensures
            s@ == status_name(*self),
    {
        match self {
            Status::Seeding => String::from_str("Seeding"),
            Status::Downloading => String::from_str("Downloading"),
            Status::Stopped => String::from_str("Stopped"),
            Status::Hashing => String::from_str("Hashing"),
            Status::Error => String::from_str("Error"),
        }
    }
}

/// A torrent and its counters.
#[derive(Debug)]
pub struct Torrent {
    pub hash: String,
    pub name: String,
    pub size_bytes: u64,
    pub completed_bytes: u64,
    pub up_total: u64,
    pub down_total: u64,
    pub up_rate: u64,
    pub down_rate: u64,
    pub peers_connected: u64,
    pub peers_complete: u64,
    pub state: u64,
    pub is_active: u64,
    pub is_open: u64,
    pub complete: u64,
    pub ratio: u64,
    pub directory: String,
    pub message: String,
    pub status: Status,
}

/// A file of a torrent.
#[derive(Debug)]
pub struct TorrentFile {
    pub path: String,
    pub size_bytes: u64,
    pub completed_chunks: u64,
    pub size_chunks: u64,
    pub priority: u64,
}

/// A peer of a torrent.
#[derive(Debug)]
pub struct Peer {
    pub address: String,
    pub client_version: String,
    pub completed_percent: u64,
    pub down_rate: u64,
    pub up_rate: u64,
    pub is_encrypted: bool,
    pub is_incoming: bool,
}

/// A tracker of a torrent.
#[derive(Debug)]
pub struct Tracker {
    pub url: String,
    pub enabled: bool,
    pub open: bool,
    pub scrape_complete: u64,
    pub scrape_incomplete: u64,
}

/// A [`Torrent`] with its texts taken as character sequences.
pub struct TorrentView {
    pub hash: Seq<char>,
    pub name: Seq<char>,
    pub size_bytes: u64,
    pub completed_bytes: u64,
    pub up_total: u64,
    pub down_total: u64,
    pub up_rate: u64,
    pub down_rate: u64,
    pub peers_connected: u64,
    pub peers_complete: u64,
    pub state: u64,
    pub is_active: u64,
    pub is_open: u64,
    pub complete: u64,
    pub ratio: u64,
    pub directory: Seq<char>,
    pub message: Seq<char>,
    pub status: Status,
}

/// A [`TorrentFile`] with its path taken as a character sequence.
pub struct TorrentFileView {
    pub path: Seq<char>,
    pub size_bytes: u64,
    pub completed_chunks: u64,
    pub size_chunks: u64,
    pub priority: u64,
}

/// A [`Peer`] with its texts taken as character sequences.
pub struct PeerView {
    pub address: Seq<char>,
    pub client_version: Seq<char>,
    pub completed_percent: u64,
    pub down_rate: u64,
    pub up_rate: u64,
    pub is_encrypted: bool,
    pub is_incoming: bool,
}

/// A [`Tracker`] with its URL taken as a character sequence.
pub struct TrackerView {
    pub url: Seq<char>,
    pub enabled: bool,
    pub open: bool,
    pub scrape_complete: u64,
    pub scrape_incomplete: u64,
}

impl View for Torrent {
    type V = TorrentView;

    open spec fn view(&self) -> TorrentView {
        TorrentView {
            hash: self.hash@,
            name: self.name@,
            size_bytes: self.size_bytes,
            completed_bytes: self.completed_bytes,
            up_total: self.up_total,
            down_total: self.down_total,
            up_rate: self.up_rate,
            down_rate: self.down_rate,
            peers_connected: self.peers_connected,
            peers_complete: self.peers_complete,
            state: self.state,
            is_active: self.is_active,
            is_open: self.is_open,
            complete: self.complete,
            ratio: self.ratio,
            directory: self.directory@,
            message: self.message@,
            status: self.status,
        }
    }
}

impl View for TorrentFile {
    type V = TorrentFileView;

    open spec fn view(&self) -> TorrentFileView {
        TorrentFileView {
            path: self.path@,
            size_bytes: self.size_bytes,
            completed_chunks: self.completed_chunks,
            size_chunks: self.size_chunks,
            priority: self.priority,
        }
    }
}

impl View for Peer {
    type V = PeerView;

    open spec fn view(&self) -> PeerView {
        PeerView {
            address: self.address@,
            client_version: self.client_version@,
            completed_percent: self.completed_percent,
            down_rate: self.down_rate,
            up_rate: self.up_rate,
            is_encrypted: self.is_encrypted,
            is_incoming: self.is_incoming,
        }
    }
}

impl View for Tracker {
    type V = TrackerView;

    open spec fn view(&self) -> TrackerView {
        TrackerView {
            url: self.url@,
            enabled: self.enabled,
            open: self.open,
            scrape_complete: self.scrape_complete,
            scrape_incomplete: self.scrape_incomplete,
        }
    }
}

/// The kind of value a column of a multicall row holds.
#[derive(Clone, Copy, Debug, PartialEq, Eq, Structural)]
pub enum Field {
    Text,
    Integer,
}

/// A cell read as an integer: an unsigned value as it is, a negative one
/// reinterpreted as its 64-bit two's complement.
pub open spec fn json_integer(j: Json) -> Option<u64> {
    match j {
        Json::Number(JsonNumber::PosInt(u)) => Some(u),
        Json::Number(JsonNumber::NegInt(i)) => Some(i as u64),
        _ => None,
    }
}

/// The text in column `i` of a row, if there is such a column and it holds a string.
pub open spec fn text_at(row: Seq<Json>, i: int) -> Option<Seq<char>> {
    if 0 <= i < row.len() { json_as_str(row[i]) } else { None }
}

/// The integer in column `i` of a row, if there is such a column and it holds one.
pub open spec fn integer_at(row: Seq<Json>, i: int) -> Option<u64> {
    if 0 <= i < row.len() { json_integer(row[i]) } else { None }
}

/// Column `i` of the row holds a value of kind `f`.
pub open spec fn field_ok(row: Seq<Json>, i: int, f: Field) -> bool {
    match f {
        Field::Text => text_at(row, i) is Some,
        Field::Integer => integer_at(row, i) is Some,
    }
}

/// The error reported for column `i` when it does not hold a value of kind `f`.
pub open spec fn field_error(i: nat, f: Field) -> ErrorView {
    match f {
        Field::Text => ErrorView::Scgi("expected string at index "@ + decimal(i)),
        Field::Integer => ErrorView::Scgi("expected integer at index "@ + decimal(i)),
    }
}

/// The first column, from `from` on, whose value is not of the kind the layout asks for.
pub open spec fn first_bad_field(row: Seq<Json>, layout: Seq<Field>, from: int) -> Option<int>
    decreases layout.len() - from,
{
    if from < 0 || from >= layout.len() {
        None
    } else if !field_ok(row, from, layout[from]) {
        Some(from)
    } else {
        first_bad_field(row, layout, from + 1)
    }
}

/// What reading a row against a layout reports: nothing when every column fits,
/// else the error for the first column that does not.
pub open spec fn row_check(row: Seq<Json>, layout: Seq<Field>) -> Option<ErrorView> {
    match first_bad_field(row, layout, 0) {
        Some(k) => Some(field_error(k as nat, layout[k])),
        None => None,
    }
}

proof fn lemma_first_bad_field(row: Seq<Json>, layout: Seq<Field>, from: int, k: int)
    requires
        0 <= from <= k <= layout.len(),
        forall|j: int| from <= j < k ==> field_ok(row, j, #[trigger] layout[j]),
    ensures
        first_bad_field(row, layout, from) == first_bad_field(row, layout, k),
    decreases k - from,
{
    if from < k {
        lemma_first_bad_field(row, layout, from + 1, k);
    }
}

/// Reads the string in column `idx` of a row.
pub fn val_str(arr: &[Json], idx: usize) -> (r: Result<String, Error>)
    ensures
        match text_at(arr@, idx as int) {
            Some(s) => r matches Ok(v) && v@ == s,
            None => r matches Err(e) && e@ == field_error(idx as nat, Field::Text),
        },
{
    if idx < arr.len() {
        if let Some(s) = arr[idx].as_str() {
            return Ok(String::from_str(s));
        }
    }
    let mut msg = String::from_str("expected string at index ");
    push_decimal(&mut msg, idx as u128);
    Err(Error::Scgi(msg))
}

/// Reads the integer in column `idx` of a row; a negative value is taken as its
/// 64-bit two's complement.
pub fn val_u64(arr: &[Json], idx: usize) -> (r: Result<u64, Error>)
    ensures
        match integer_at(arr@, idx as int) {
            Some(u) => r == Ok::<u64, Error>(u),
            None => r matches Err(e) && e@ == field_error(idx as nat, Field::Integer),
        },
{
    if idx < arr.len() {
        match &arr[idx] {
            Json::Number(JsonNumber::PosInt(u)) => return Ok(*u),
            Json::Number(JsonNumber::NegInt(i)) => return Ok(*i as u64),
            _ => {},
        }
    }
    let mut msg = String::from_str("expected integer at index ");
    push_decimal(&mut msg, idx as u128);
    Err(Error::Scgi(msg))
}

/// Checks every column of a row against a layout, in order.
pub fn check_row(arr: &[Json], layout: &[Field]) -> (r: Result<(), Error>)
    ensures
        match row_check(arr@, layout@) {
            Some(e) => r matches Err(err) && err@ == e,
            None => r is Ok,
        },
{
    let mut i: usize = 0;
    while i < layout.len()
        invariant
            0 <= i <= layout.len(),
            forall|j: int| 0 <= j < i ==> field_ok(arr@, j, #[trigger] layout@[j]),
        decreases layout.len() - i,
    {
        let ok = match layout[i] {
            Field::Text => i < arr.len() && arr[i].as_str().is_some(),
            Field::Integer => i < arr.len() && match &arr[i] {
                Json::Number(JsonNumber::PosInt(_)) => true,
                Json::Number(JsonNumber::NegInt(_)) => true,
                _ => false,
            },
        };
        if !ok {
            proof {
                lemma_first_bad_field(arr@, layout@, 0, i as int);
            }
            return match layout[i] {
                Field::Text => val_str(arr, i).map(|_s: String| ()),
                Field::Integer => val_u64(arr, i).map(|_u: u64| ()),
            };
        }
        i = i + 1;
    }
    proof {
        lemma_first_bad_field(arr@, layout@, 0, layout.len() as int);
    }
    Ok(())
}


/// How a torrent's state is shown: any tracker or storage message makes it an
/// error; otherwise it is seeding when complete and active, downloading when
/// active, and stopped when inactive.
pub open spec fn status_of(message: Seq<char>, complete: u64, is_active: u64, state: u64) -> Status {
    if message.len() != 0 {
        Status::Error
    } else if state == 0 && is_active == 0 {
        Status::Stopped
    } else if complete == 1 && is_active == 1 {
        Status::Seeding
    } else if is_active == 1 {
        Status::Downloading
    } else {
        Status::Stopped
    }
}

/// Derives the shown status from a torrent's message and flags.
pub fn derive_status(message: &str, complete: u64, is_active: u64, state: u64) -> (s: Status)
    ensures
        s == status_of(message@, complete, is_active, state),
{
    if !message.is_empty() {
        return Status::Error;
    }
    if state == 0 && is_active == 0 {
        return Status::Stopped;
    }
    if complete == 1 && is_active == 1 {
        return Status::Seeding;
    }
    if is_active == 1 {
        return Status::Downloading;
    }
    Status::Stopped
}

/// Columns of a `d.multicall2` row: hash, name, thirteen counters and flags,
/// directory and message.
pub open spec fn torrent_layout() -> Seq<Field> {
    seq![
        Field::Text, Field::Text,
        Field::Integer, Field::Integer, Field::Integer, Field::Integer, Field::Integer,
        Field::Integer, Field::Integer, Field::Integer, Field::Integer, Field::Integer,
        Field::Integer, Field::Integer, Field::Integer,
        Field::Text, Field::Text,
    ]
}

/// Columns of an `f.multicall` row: path, size, completed chunks, chunks, priority.
pub open spec fn file_layout() -> Seq<Field> {
    seq![Field::Text, Field::Integer, Field::Integer, Field::Integer, Field::Integer]
}

/// Columns of a `p.multicall` row: address, client, completion, rates and two flags.
pub open spec fn peer_layout() -> Seq<Field> {
    seq![
        Field::Text, Field::Text, Field::Integer, Field::Integer, Field::Integer,
        Field::Integer, Field::Integer,
    ]
}

/// Columns of a `t.multicall` row: URL, two flags and two scrape counts.
pub open spec fn tracker_layout() -> Seq<Field> {
    seq![Field::Text, Field::Integer, Field::Integer, Field::Integer, Field::Integer]
}

/// The torrent that a well-formed `d.multicall2` row describes.
pub open spec fn torrent_of_row(row: Seq<Json>) -> TorrentView {
    let message = text_at(row, 16).unwrap();
    let state = integer_at(row, 10).unwrap();
    let is_active = integer_at(row, 11).unwrap();
    let complete = integer_at(row, 13).unwrap();
    TorrentView {
        hash: text_at(row, 0).unwrap(),
        name: text_at(row, 1).unwrap(),
        size_bytes: integer_at(row, 2).unwrap(),
        completed_bytes: integer_at(row, 3).unwrap(),
        up_total: integer_at(row, 4).unwrap(),
        down_total: integer_at(row, 5).unwrap(),
        up_rate: integer_at(row, 6).unwrap(),
        down_rate: integer_at(row, 7).unwrap(),
        peers_connected: integer_at(row, 8).unwrap(),
        peers_complete: integer_at(row, 9).unwrap(),
        state,
        is_active,
        is_open: integer_at(row, 12).unwrap(),
        complete,
        ratio: integer_at(row, 14).unwrap(),
        directory: text_at(row, 15).unwrap(),
        message,
        status: status_of(message, complete, is_active, state),
    }
}

/// The file that a well-formed `f.multicall` row describes.
pub open spec fn file_of_row(row: Seq<Json>) -> TorrentFileView {
    TorrentFileView {
        path: text_at(row, 0).unwrap(),
        size_bytes: integer_at(row, 1).unwrap(),
        completed_chunks: integer_at(row, 2).unwrap(),
        size_chunks: integer_at(row, 3).unwrap(),
        priority: integer_at(row, 4).unwrap(),
    }
}

/// The peer that a well-formed `p.multicall` row describes; a flag is set when
/// its column is non-zero.
pub open spec fn peer_of_row(row: Seq<Json>) -> PeerView {
    PeerView {
        address: text_at(row, 0).unwrap(),
        client_version: text_at(row, 1).unwrap(),
        completed_percent: integer_at(row, 2).unwrap(),
        down_rate: integer_at(row, 3).unwrap(),
        up_rate: integer_at(row, 4).unwrap(),
        is_encrypted: integer_at(row, 5).unwrap() != 0,
        is_incoming: integer_at(row, 6).unwrap() != 0,
    }
}

/// The tracker that a well-formed `t.multicall` row describes; a flag is set
/// when its column is non-zero.
pub open spec fn tracker_of_row(row: Seq<Json>) -> TrackerView {
    TrackerView {
        url: text_at(row, 0).unwrap(),
        enabled: integer_at(row, 1).unwrap() != 0,
        open: integer_at(row, 2).unwrap() != 0,
        scrape_complete: integer_at(row, 3).unwrap(),
        scrape_incomplete: integer_at(row, 4).unwrap(),
    }
}

fn text_field(arr: &[Json], idx: usize) -> (s: String)
    requires
        text_at(arr@, idx as int) is Some,
    ensures
        s@ == text_at(arr@, idx as int).unwrap(),
{
    match val_str(arr, idx) {
        Ok(s) => s,
        Err(_) => String::new(),
    }
}

fn integer_field(arr: &[Json], idx: usize) -> (u: u64)
    requires
        integer_at(arr@, idx as int) is Some,
    ensures
        u == integer_at(arr@, idx as int).unwrap(),
{
    match val_u64(arr, idx) {
        Ok(u) => u,
        Err(_) => 0,
    }
}

/// Reads a torrent from a `d.multicall2` row.
pub fn parse_torrent(arr: &[Json]) -> (r: Result<Torrent, Error>)
    ensures
        match row_check(arr@, torrent_layout()) {
            Some(e) => r matches Err(err) && err@ == e,
            None => r matches Ok(t) && t@ == torrent_of_row(arr@),
        },
{
    let layout = vec![
        Field::Text, Field::Text,
        Field::Integer, Field::Integer, Field::Integer, Field::Integer, Field::Integer,
        Field::Integer, Field::Integer, Field::Integer, Field::Integer, Field::Integer,
        Field::Integer, Field::Integer, Field::Integer,
        Field::Text, Field::Text,
    ];
    assert(layout@ =~= torrent_layout());
    match check_row(arr, layout.as_slice()) {
        Err(e) => return Err(e),
        Ok(()) => {},
    }
    proof {
        lemma_row_fits(arr@, torrent_layout());
    }
    let hash = text_field(arr, 0);
    let name = text_field(arr, 1);
    let size_bytes = integer_field(arr, 2);
    let completed_bytes = integer_field(arr, 3);
    let up_total = integer_field(arr, 4);
    let down_total = integer_field(arr, 5);
    let up_rate = integer_field(arr, 6);
    let down_rate = integer_field(arr, 7);
    let peers_connected = integer_field(arr, 8);
    let peers_complete = integer_field(arr, 9);
    let state = integer_field(arr, 10);
    let is_active = integer_field(arr, 11);
    let is_open = integer_field(arr, 12);
    let complete = integer_field(arr, 13);
    let ratio = integer_field(arr, 14);
    let directory = text_field(arr, 15);
    let message = text_field(arr, 16);
    let status = derive_status(message.as_str(), complete, is_active, state);
    Ok(Torrent {
        hash,
        name,
        size_bytes,
        completed_bytes,
        up_total,
        down_total,
        up_rate,
        down_rate,
        peers_connected,
        peers_complete,
        state,
        is_active,
        is_open,
        complete,
        ratio,
        directory,
        message,
        status,
    })
}

/// Reads a file from an `f.multicall` row.
pub fn parse_file(arr: &[Json]) -> (r: Result<TorrentFile, Error>)
    ensures
        match row_check(arr@, file_layout()) {
            Some(e) => r matches Err(err) && err@ == e,
            None => r matches Ok(f) && f@ == file_of_row(arr@),
        },
{
    let layout = vec![Field::Text, Field::Integer, Field::Integer, Field::Integer, Field::Integer];
    assert(layout@ =~= file_layout());
    match check_row(arr, layout.as_slice()) {
        Err(e) => return Err(e),
        Ok(()) => {},
    }
    proof {
        lemma_row_fits(arr@, file_layout());
    }
    Ok(TorrentFile {
        path: text_field(arr, 0),
        size_bytes: integer_field(arr, 1),
        completed_chunks: integer_field(arr, 2),
        size_chunks: integer_field(arr, 3),
        priority: integer_field(arr, 4),
    })
}

/// Reads a peer from a `p.multicall` row.
pub fn parse_peer(arr: &[Json]) -> (r: Result<Peer, Error>)
    ensures
        match row_check(arr@, peer_layout()) {
            Some(e) => r matches Err(err) && err@ == e,
            None => r matches Ok(p) && p@ == peer_of_row(arr@),
        },
{
    let layout = vec![
        Field::Text, Field::Text, Field::Integer, Field::Integer, Field::Integer,
        Field::Integer, Field::Integer,
    ];
    assert(layout@ =~= peer_layout());
    match check_row(arr, layout.as_slice()) {
        Err(e) => return Err(e),
        Ok(()) => {},
    }
    proof {
        lemma_row_fits(arr@, peer_layout());
    }
    Ok(Peer {
        address: text_field(arr, 0),
        client_version: text_field(arr, 1),
        completed_percent: integer_field(arr, 2),
        down_rate: integer_field(arr, 3),
        up_rate: integer_field(arr, 4),
        is_encrypted: integer_field(arr, 5) != 0,
        is_incoming: integer_field(arr, 6) != 0,
    })
}

/// Reads a tracker from a `t.multicall` row.
pub fn parse_tracker(arr: &[Json]) -> (r: Result<Tracker, Error>)
    ensures
        match row_check(arr@, tracker_layout()) {
            Some(e) => r matches Err(err) && err@ == e,
            None => r matches Ok(t) && t@ == tracker_of_row(arr@),
        },
{
    let layout = vec![Field::Text, Field::Integer, Field::Integer, Field::Integer, Field::Integer];
    assert(layout@ =~= tracker_layout());
    match check_row(arr, layout.as_slice()) {
        Err(e) => return Err(e),
        Ok(()) => {},
    }
    proof {
        lemma_row_fits(arr@, tracker_layout());
    }
    Ok(Tracker {
        url: text_field(arr, 0),
        enabled: integer_field(arr, 1) != 0,
        open: integer_field(arr, 2) != 0,
        scrape_complete: integer_field(arr, 3),
        scrape_incomplete: integer_field(arr, 4),
    })
}

/// When no column of a row is out of place, every column fits its kind.
pub(crate) proof fn lemma_row_fits(row: Seq<Json>, layout: Seq<Field>)
    requires
        row_check(row, layout) is None,
    ensures
        forall|j: int| 0 <= j < layout.len() ==> field_ok(row, j, #[trigger] layout[j]),
{
    assert forall|j: int| 0 <= j < layout.len() implies field_ok(row, j, #[trigger] layout[j]) by {
        lemma_no_bad_field(row, layout, 0, j);
    }
}

proof fn lemma_no_bad_field(row: Seq<Json>, layout: Seq<Field>, from: int, j: int)
    requires
        0 <= from <= j < layout.len(),
        first_bad_field(row, layout, from) is None,
    ensures
        field_ok(row, j, layout[j]),
    decreases j - from,
{
    if from < j {
        lemma_no_bad_field(row, layout, from + 1, j);
    }
}


/// Totals over all torrents for the statistics view.
#[derive(Debug)]
pub struct Stats {
    pub total: usize,
    pub uploaded: u64,
    pub downloaded: u64,
    pub seeding_size: u64,
}

/// The sum of a counter over torrents.
pub open spec fn sum_of(ts: Seq<Torrent>, counter: spec_fn(Torrent) -> u64) -> nat
    decreases ts.len(),
{
    if ts.len() == 0 { 0 } else { sum_of(ts.drop_last(), counter) + counter(ts.last()) as nat }
}

/// A sum held in 64 bits: the sum, or the largest value where it does not fit.
pub open spec fn capped(n: nat) -> u64 {
    if n <= u64::MAX { n as u64 } else { u64::MAX }
}

/// Bytes uploaded.
pub open spec fn uploaded_of() -> spec_fn(Torrent) -> u64 { |t: Torrent| t.up_total }

/// Bytes downloaded.
pub open spec fn downloaded_of() -> spec_fn(Torrent) -> u64 { |t: Torrent| t.down_total }

/// Size of a torrent that is seeding, 0 for any other.
pub open spec fn seeding_size_of() -> spec_fn(Torrent) -> u64 {
    |t: Torrent| if t.status == Status::Seeding { t.size_bytes } else { 0 }
}

/// Counts the torrents and adds up what they uploaded, what they downloaded and
/// the size of those seeding; a sum too large for 64 bits stays at the largest value.
pub fn global_stats(torrents: &[Torrent]) -> (s: Stats)
    ensures
        s.total == torrents@.len(),
        s.uploaded == capped(sum_of(torrents@, uploaded_of())),
        s.downloaded == capped(sum_of(torrents@, downloaded_of())),
        s.seeding_size == capped(sum_of(torrents@, seeding_size_of())),
{
    let mut up: u64 = 0;
    let mut down: u64 = 0;
    let mut seeding: u64 = 0;
    let mut i: usize = 0;
    assert(torrents@.take(0) =~= Seq::<Torrent>::empty());
    while i < torrents.len()
        invariant
            0 <= i <= torrents.len(),
            up == capped(sum_of(torrents@.take(i as int), uploaded_of())),
            down == capped(sum_of(torrents@.take(i as int), downloaded_of())),
            seeding == capped(sum_of(torrents@.take(i as int), seeding_size_of())),
        decreases torrents.len() - i,
    {
        assert(torrents@.take(i + 1).drop_last() =~= torrents@.take(i as int));
        assert(torrents@.take(i + 1).last() == torrents@[i as int]);
        let t = &torrents[i];
        up = up.saturating_add(t.up_total);
        down = down.saturating_add(t.down_total);
        let size = if status_is_seeding(&t.status) { t.size_bytes } else { 0 };
        seeding = seeding.saturating_add(size);
        i = i + 1;
    }
    assert(torrents@.take(torrents.len() as int) =~= torrents@);
    Stats { total: torrents.len(), uploaded: up, downloaded: down, seeding_size: seeding }
}

fn status_is_seeding(s: &Status) -> (r: bool)
    ensures
        r == (*s == Status::Seeding),
{
    match s {
        Status::Seeding => true,
        _ => false,
    }
}


/// A status derived from rtorrent's flags is never `Hashing`, and it is
/// `Error` exactly when there is a message.
pub proof fn lemma_derived_status(message: Seq<char>, complete: u64, is_active: u64, state: u64)
    ensures
        status_of(message, complete, is_active, state) != Status::Hashing,
        (status_of(message, complete, is_active, state) == Status::Error) == (message.len() != 0),
{
}

/// Without a message, an active torrent (flag 1) is seeding when complete
/// (flag 1) and downloading otherwise, and any other torrent is stopped: the
/// `state` flag never changes the outcome.
pub proof fn lemma_status_without_message(complete: u64, is_active: u64, state: u64)
    ensures
        (status_of(Seq::empty(), complete, is_active, state) == Status::Seeding) == (is_active == 1 && complete == 1),
        (status_of(Seq::empty(), complete, is_active, state) == Status::Downloading) == (is_active == 1 && complete != 1),
        (status_of(Seq::empty(), complete, is_active, state) == Status::Stopped) == (is_active != 1),
{
}

/// An inactive torrent without a message is stopped, whatever its other flags.
pub proof fn lemma_inactive_is_stopped(complete: u64, state: u64)
    ensures
        status_of(Seq::empty(), complete, 0, state) == Status::Stopped,
{
}

} // verus!
