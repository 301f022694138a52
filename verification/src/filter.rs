//! Choosing which torrents the list shows: by name, and by `KEY=VALUE` filters.
use vstd::prelude::*;
use vstd::string::*;
use crate::error::{Error, ErrorView};
use crate::text::{
    str_eq, split_once, split_once_at, lowercase, to_lowercase, ascii_lowercase, uppercase, to_uppercase, contains,
    occurs_in, is_prefix_of, starts_with,
};
use crate::torrent::{Status, Torrent, status_name};

verus! {

/// The truth value a filter's value names: `true`, `1`, `yes` or `false`, `0`, `no`.
pub open spec fn bool_filter_value(s: Seq<char>) -> Option<bool> {
    if s == "true"@ || s == "1"@ || s == "yes"@ {
        Some(true)
    } else if s == "false"@ || s == "0"@ || s == "no"@ {
        Some(false)
    } else {
        None
    }
}

/// Reads a filter's truth value.
pub fn parse_bool_filter(s: &str) -> (r: Option<bool>)
    ensures
        r == bool_filter_value(s@),
{
    if str_eq(s, "true") || str_eq(s, "1") || str_eq(s, "yes") {
        Some(true)
    } else if str_eq(s, "false") || str_eq(s, "0") || str_eq(s, "no") {
        Some(false)
    } else {
        None
    }
}

/// The status a `state` filter's value names, in lowercase.
pub open spec fn status_filter_value(s: Seq<char>) -> Option<Status> {
    if s == "stopped"@ {
        Some(Status::Stopped)
    } else if s == "seeding"@ {
        Some(Status::Seeding)
    } else if s == "downloading"@ {
        Some(Status::Downloading)
    } else if s == "hashing"@ {
        Some(Status::Hashing)
    } else if s == "error"@ {
        Some(Status::Error)
    } else {
        None
    }
}

/// Reads the status a `state` filter names.
pub fn parse_status_filter(s: &str) -> (r: Option<Status>)
    ensures
        r == status_filter_value(s@),
{
    if str_eq(s, "stopped") {
        Some(Status::Stopped)
    } else if str_eq(s, "seeding") {
        Some(Status::Seeding)
    } else if str_eq(s, "downloading") {
        Some(Status::Downloading)
    } else if str_eq(s, "hashing") {
        Some(Status::Hashing)
    } else if str_eq(s, "error") {
        Some(Status::Error)
    } else {
        None
    }
}

/// Whether two statuses are the same.
pub fn status_eq(a: &Status, b: &Status) -> (r: bool)
    ensures
        r == (*a == *b),
{
    match (a, b) {
        (Status::Stopped, Status::Stopped) => true,
        (Status::Seeding, Status::Seeding) => true,
        (Status::Downloading, Status::Downloading) => true,
        (Status::Hashing, Status::Hashing) => true,
        (Status::Error, Status::Error) => true,
        _ => false,
    }
}

/// One `KEY=VALUE` filter.
#[derive(Debug)]
pub struct FilterBy {
    pub key: String,
    pub value: String,
}

/// A key and value where the value means something for the key (any value
/// does for `directory` and for keys no filter knows).
pub open spec fn pair_valid(kv: (Seq<char>, Seq<char>)) -> bool {
    if kv.0 == "state"@ {
        status_filter_value(kv.1) is Some
    } else if kv.0 == "active"@ || kv.0 == "complete"@ {
        bool_filter_value(kv.1) is Some
    } else {
        true
    }
}

/// A filter whose value means something for its key.
pub open spec fn filter_valid(f: FilterBy) -> bool {
    pair_valid(filter_pair(f))
}

/// What one `--filter-by` entry gives: its key and value, split at the first
/// `=`, or the error that explains why it is refused.
pub open spec fn filter_entry_outcome(entry: Seq<char>) -> Result<(Seq<char>, Seq<char>), ErrorView> {
    match split_once_at(entry, '=') {
        None => Err(ErrorView::Scgi("invalid --filter-by value '"@ + entry + "': expected KEY=VALUE"@)),
        Some((k, v)) => if k == "state"@ {
            if status_filter_value(v) is None {
                Err(ErrorView::Scgi(
                    "invalid state '"@ + v + "': expected one of stopped, seeding, downloading, hashing, error"@,
                ))
            } else {
                Ok((k, v))
            }
        } else if k == "active"@ || k == "complete"@ {
            if bool_filter_value(v) is None {
                Err(ErrorView::Scgi("invalid boolean '"@ + v + "': expected true/false, 1/0, or yes/no"@))
            } else {
                Ok((k, v))
            }
        } else if k == "directory"@ {
            Ok((k, v))
        } else {
            Err(ErrorView::Scgi(
                "unknown filter key '"@ + k + "': supported keys are state, active, complete, directory"@,
            ))
        },
    }
}

/// What a list of `--filter-by` entries gives: the first refused entry's
/// error, or every entry's key and value, in order.
pub open spec fn filters_outcome(entries: Seq<Seq<char>>) -> Result<Seq<(Seq<char>, Seq<char>)>, ErrorView>
    decreases entries.len(),
{
    if entries.len() == 0 {
        Ok(Seq::empty())
    } else {
        match filters_outcome(entries.drop_last()) {
            Err(e) => Err(e),
            Ok(prefix) => match filter_entry_outcome(entries.last()) {
                Err(e) => Err(e),
                Ok(kv) => Ok(prefix.push(kv)),
            },
        }
    }
}

/// A filter with its key and value as character sequences.
pub open spec fn filter_pair(f: FilterBy) -> (Seq<char>, Seq<char>) {
    (f.key@, f.value@)
}

fn refuse(prefix: &str, middle: &str, suffix: &str) -> (e: Error)
    ensures
        e@ == ErrorView::Scgi(prefix@ + middle@ + suffix@),
{
    let mut msg = String::from_str(prefix);
    msg.append(middle);
    msg.append(suffix);
    Error::Scgi(msg)
}

/// Reads one `--filter-by` entry.
fn parse_filter_entry(entry: &str) -> (r: Result<FilterBy, Error>)
    ensures
        match filter_entry_outcome(entry@) {
            Ok(kv) => r matches Ok(f) && filter_pair(f) == kv,
            Err(e) => r matches Err(x) && x@ == e,
        },
{
    let (k, v) = match split_once(entry, '=') {
        Some(kv) => kv,
        None => return Err(refuse("invalid --filter-by value '", entry, "': expected KEY=VALUE")),
    };
    if str_eq(k.as_str(), "state") {
        if parse_status_filter(v.as_str()).is_none() {
            return Err(refuse(
                "invalid state '",
                v.as_str(),
                "': expected one of stopped, seeding, downloading, hashing, error",
            ));
        }
    } else if str_eq(k.as_str(), "active") || str_eq(k.as_str(), "complete") {
        if parse_bool_filter(v.as_str()).is_none() {
            return Err(refuse("invalid boolean '", v.as_str(), "': expected true/false, 1/0, or yes/no"));
        }
    } else if str_eq(k.as_str(), "directory") {
    } else {
        return Err(refuse(
            "unknown filter key '",
            k.as_str(),
            "': supported keys are state, active, complete, directory",
        ));
    }
    Ok(FilterBy { key: k, value: v })
}

/// Reads the `--filter-by` entries; the first refused entry is reported.
pub fn parse_filter_by(entries: &[String]) -> (r: Result<Vec<FilterBy>, Error>)
    ensures
        match filters_outcome(entries@.map_values(|e: String| e@)) {
            Ok(kvs) => r matches Ok(fs) && fs@.map_values(|f: FilterBy| filter_pair(f)) == kvs,
            Err(e) => r matches Err(x) && x@ == e,
        },
        r matches Ok(fs) ==> forall|i: int| 0 <= i < fs@.len() ==> filter_valid(#[trigger] fs@[i]),
{
    let ghost views = entries@.map_values(|e: String| e@);
    let mut out: Vec<FilterBy> = Vec::new();
    let mut i: usize = 0;
    assert(views.take(0) =~= Seq::<Seq<char>>::empty());
    assert(out@.map_values(|f: FilterBy| filter_pair(f)) =~= Seq::<(Seq<char>, Seq<char>)>::empty());
    while i < entries.len()
        invariant
            0 <= i <= entries.len(),
            views == entries@.map_values(|e: String| e@),
            filters_outcome(views.take(i as int))
                == Ok::<Seq<(Seq<char>, Seq<char>)>, ErrorView>(out@.map_values(|f: FilterBy| filter_pair(f))),
        decreases entries.len() - i,
    {
        assert(views.take(i + 1).drop_last() =~= views.take(i as int));
        assert(views.take(i + 1).last() == entries@[i as int]@);
        let ghost before = out@.map_values(|f: FilterBy| filter_pair(f));
        match parse_filter_entry(entries[i].as_str()) {
            Ok(f) => {
                out.push(f);
                assert(out@.map_values(|f: FilterBy| filter_pair(f)) =~= before.push(filter_pair(out@.last())));
            },
            Err(e) => {
                proof { lemma_filters_error_persists(views, i + 1); }
                return Err(e);
            },
        }
        i = i + 1;
    }
    assert(views.take(entries.len() as int) =~= views);
    proof {
        let kvs = out@.map_values(|f: FilterBy| filter_pair(f));
        assert(filters_outcome(views) == Ok::<Seq<(Seq<char>, Seq<char>)>, ErrorView>(kvs));
        lemma_parsed_filters_valid(views, kvs);
        assert forall|k: int| 0 <= k < out@.len() implies filter_valid(#[trigger] out@[k]) by {
            assert(kvs[k] == filter_pair(out@[k]));
            assert(pair_valid(kvs[k]));
        }
    }
    Ok(out)
}

/// Every filter that the entries give is valid for its key.
proof fn lemma_parsed_filters_valid(entries: Seq<Seq<char>>, kvs: Seq<(Seq<char>, Seq<char>)>)
    requires
        filters_outcome(entries) == Ok::<Seq<(Seq<char>, Seq<char>)>, ErrorView>(kvs),
    ensures
        forall|i: int| 0 <= i < kvs.len() ==> pair_valid(#[trigger] kvs[i]),
    decreases entries.len(),
{
    if entries.len() > 0 {
        let prefix = filters_outcome(entries.drop_last())->Ok_0;
        lemma_parsed_filters_valid(entries.drop_last(), prefix);
        assert forall|i: int| 0 <= i < kvs.len() implies pair_valid(#[trigger] kvs[i]) by {
            if i < prefix.len() {
                assert(kvs[i] == prefix[i]);
            }
        }
    }
}

proof fn lemma_filters_error_persists(entries: Seq<Seq<char>>, j: int)
    requires
        0 <= j <= entries.len(),
        filters_outcome(entries.take(j)) is Err,
    ensures
        filters_outcome(entries) == filters_outcome(entries.take(j)),
    decreases entries.len() - j,
{
    if j < entries.len() {
        assert(entries.take(j + 1).drop_last() =~= entries.take(j));
        lemma_filters_error_persists(entries, j + 1);
    } else {
        assert(entries.take(j) =~= entries);
    }
}


/// Whether a torrent passes one filter: `state` compares its status, `active`
/// and `complete` compare whether the flag is 1, `directory` looks for the
/// value in the directory ignoring case, and other keys let everything pass.
pub open spec fn passes_filter(t: Torrent, f: FilterBy) -> bool {
    if f.key@ == "state"@ {
        t.status == status_filter_value(f.value@).unwrap()
    } else if f.key@ == "active"@ {
        (t.is_active == 1) == bool_filter_value(f.value@).unwrap()
    } else if f.key@ == "complete"@ {
        (t.complete == 1) == bool_filter_value(f.value@).unwrap()
    } else if f.key@ == "directory"@ {
        occurs_in(lowercase(f.value@), lowercase(t.directory@))
    } else {
        true
    }
}

/// Whether a torrent is shown: its name holds the name filter, if there is one,
/// ignoring case, and it passes every `KEY=VALUE` filter.
pub open spec fn shown(t: Torrent, filter: Option<Seq<char>>, filters: Seq<FilterBy>) -> bool {
    &&& match filter {
        Some(needle) => occurs_in(lowercase(needle), lowercase(t.name@)),
        None => true,
    }
    &&& forall|i: int| 0 <= i < filters.len() ==> passes_filter(t, #[trigger] filters[i])
}

fn passes_filter_exec(t: &Torrent, f: &FilterBy) -> (r: bool)
    requires
        filter_valid(*f),
    ensures
        r == passes_filter(*t, *f),
{
    if str_eq(f.key.as_str(), "state") {
        match parse_status_filter(f.value.as_str()) {
            Some(wanted) => status_eq(&t.status, &wanted),
            None => false,
        }
    } else if str_eq(f.key.as_str(), "active") {
        match parse_bool_filter(f.value.as_str()) {
            Some(wanted) => (t.is_active == 1) == wanted,
            None => false,
        }
    } else if str_eq(f.key.as_str(), "complete") {
        match parse_bool_filter(f.value.as_str()) {
            Some(wanted) => (t.complete == 1) == wanted,
            None => false,
        }
    } else if str_eq(f.key.as_str(), "directory") {
        let dir = to_lowercase(t.directory.as_str());
        let needle = to_lowercase(f.value.as_str());
        contains(dir.as_str(), needle.as_str())
    } else {
        true
    }
}

fn is_shown(t: &Torrent, filter: Option<&str>, filters: &[FilterBy]) -> (r: bool)
    requires
        forall|i: int| 0 <= i < filters@.len() ==> filter_valid(#[trigger] filters@[i]),
    ensures
        r == shown(*t, filter_text(filter), filters@),
{
    if let Some(needle) = filter {
        let name = to_lowercase(t.name.as_str());
        let n = to_lowercase(needle);
        if !contains(name.as_str(), n.as_str()) {
            return false;
        }
    }
    let mut i: usize = 0;
    while i < filters.len()
        invariant
            0 <= i <= filters.len(),
            forall|k: int| 0 <= k < filters@.len() ==> filter_valid(#[trigger] filters@[k]),
            forall|k: int| 0 <= k < i ==> passes_filter(*t, #[trigger] filters@[k]),
        decreases filters.len() - i,
    {
        if !passes_filter_exec(t, &filters[i]) {
            return false;
        }
        i = i + 1;
    }
    true
}

/// The test that decides which torrents are shown.
pub open spec fn shown_by(filter: Option<Seq<char>>, filters: Seq<FilterBy>) -> spec_fn(Torrent) -> bool {
    |t: Torrent| shown(t, filter, filters)
}

/// The name filter as a character sequence.
pub open spec fn filter_text(filter: Option<&str>) -> Option<Seq<char>> {
    match filter {
        Some(s) => Some(s@),
        None => None,
    }
}

/// The torrents to show, in their order.
pub fn apply_filters(torrents: Vec<Torrent>, filter: Option<&str>, filters: &[FilterBy]) -> (r: Vec<Torrent>)
    requires
        forall|i: int| 0 <= i < filters@.len() ==> filter_valid(#[trigger] filters@[i]),
    ensures
        r@ == torrents@.filter(shown_by(filter_text(filter), filters@)),
{
    let ghost pred = shown_by(filter_text(filter), filters@);
    let ghost all = torrents@;
    let mut out: Vec<Torrent> = Vec::new();
    for t in it: torrents.into_iter()
        invariant
            it.seq() == all,
            forall|i: int| 0 <= i < filters@.len() ==> filter_valid(#[trigger] filters@[i]),
            pred == shown_by(filter_text(filter), filters@),
            out@ == all.take(it.index() as int).filter(pred),
    {
        proof {
            reveal_with_fuel(Seq::<_>::filter, 1);
            assert(all.take(it.index() + 1).drop_last() =~= all.take(it.index() as int));
        }
        if is_shown(&t, filter, filters) {
            out.push(t);
        }
    }
    assert(all.take(all.len() as int) =~= all);
    out
}


/// A torrent's hash starts with the prefix, ignoring case.
pub open spec fn hash_has_prefix(t: Torrent, prefix: Seq<char>) -> bool {
    is_prefix_of(uppercase(prefix), uppercase(t.hash@))
}

/// The torrents whose hash starts with `prefix` (ignoring case), in order:
/// those an ambiguous prefix could mean.
pub fn torrents_with_hash_prefix(torrents: Vec<Torrent>, prefix: &str) -> (r: Vec<Torrent>)
    ensures
        r@ == torrents@.filter(|t: Torrent| hash_has_prefix(t, prefix@)),
{
    let ghost pred = |t: Torrent| hash_has_prefix(t, prefix@);
    let ghost all = torrents@;
    let prefix_upper = to_uppercase(prefix);
    let mut out: Vec<Torrent> = Vec::new();
    for t in it: torrents.into_iter()
        invariant
            it.seq() == all,
            prefix_upper@ == uppercase(prefix@),
            pred == (|t: Torrent| hash_has_prefix(t, prefix@)),
            out@ == all.take(it.index() as int).filter(pred),
    {
        proof {
            reveal_with_fuel(Seq::<_>::filter, 1);
            assert(all.take(it.index() + 1).drop_last() =~= all.take(it.index() as int));
        }
        let hash_upper = to_uppercase(t.hash.as_str());
        if starts_with(hash_upper.as_str(), prefix_upper.as_str()) {
            out.push(t);
        }
    }
    assert(all.take(all.len() as int) =~= all);
    out
}

/// The index of the first torrent whose hash is exactly `hash`.
pub open spec fn first_with_hash(ts: Seq<Torrent>, hash: Seq<char>, from: int) -> Option<int>
    decreases ts.len() - from,
{
    if from < 0 || from >= ts.len() {
        None
    } else if ts[from].hash@ == hash {
        Some(from)
    } else {
        first_with_hash(ts, hash, from + 1)
    }
}

/// The first torrent whose hash is exactly `hash`.
pub fn find_by_hash(torrents: Vec<Torrent>, hash: &str) -> (r: Option<Torrent>)
    ensures
        match first_with_hash(torrents@, hash@, 0) {
            Some(i) => r == Some(torrents@[i]),
            None => r is None,
        },
{
    let ghost all = torrents@;
    let wanted = String::from_str(hash);
    for t in it: torrents.into_iter()
        invariant
            it.seq() == all,
            wanted@ == hash@,
            first_with_hash(all, hash@, 0) == first_with_hash(all, hash@, it.index() as int),
    {
        if t.hash == wanted {
            return Some(t);
        }
    }
    None
}


/// The lowercase name a `state` filter uses for each status.
pub open spec fn status_filter_name(s: Status) -> Seq<char> {
    match s {
        Status::Stopped => "stopped"@,
        Status::Seeding => "seeding"@,
        Status::Downloading => "downloading"@,
        Status::Hashing => "hashing"@,
        Status::Error => "error"@,
    }
}

/// Every status can be asked for by its lowercase name, and that name is read
/// back as the same status.
pub proof fn lemma_status_filter_round_trip(s: Status)
    ensures
        status_filter_value(status_filter_name(s)) == Some(s),
{
    reveal_strlit("stopped");
    reveal_strlit("seeding");
    reveal_strlit("downloading");
    reveal_strlit("hashing");
    reveal_strlit("error");
    assert("seeding"@[1] != "stopped"@[1]);
    assert("downloading"@[0] != "stopped"@[0]);
    assert("downloading"@[0] != "seeding"@[0]);
    assert("hashing"@[0] != "stopped"@[0]);
    assert("hashing"@[0] != "seeding"@[0]);
    assert("hashing"@[0] != "downloading"@[0]);
    assert("error"@[0] != "stopped"@[0]);
    assert("error"@[0] != "seeding"@[0]);
    assert("error"@[0] != "downloading"@[0]);
    assert("error"@[0] != "hashing"@[0]);
}

/// The name a status is shown under is ASCII, and taken to small letters it is
/// the name a `state` filter reads back as that same status.
pub proof fn lemma_shown_status_name_filters_back(s: Status)
    ensures
        vstd::utf8::is_ascii_chars(status_name(s)),
        ascii_lowercase(status_name(s)) == status_filter_name(s),
        status_filter_value(ascii_lowercase(status_name(s))) == Some(s),
{
    reveal_strlit("Stopped");
    reveal_strlit("Seeding");
    reveal_strlit("Downloading");
    reveal_strlit("Hashing");
    reveal_strlit("Error");
    reveal_strlit("stopped");
    reveal_strlit("seeding");
    reveal_strlit("downloading");
    reveal_strlit("hashing");
    reveal_strlit("error");
    assert(ascii_lowercase(status_name(s)) =~= status_filter_name(s));
    lemma_status_filter_round_trip(s);
}

/// Without a name filter and without `KEY=VALUE` filters every torrent is shown.
pub proof fn lemma_no_filter_shows_all(ts: Seq<Torrent>)
    ensures
        ts.filter(shown_by(None, Seq::<FilterBy>::empty())) == ts,
    decreases ts.len(),
{
    reveal_with_fuel(Seq::<_>::filter, 1);
    if ts.len() > 0 {
        lemma_no_filter_shows_all(ts.drop_last());
        assert(ts.drop_last().push(ts.last()) =~= ts);
    }
}

/// Every shown torrent passes the filters, and every torrent of the list that
/// passes them is shown.
pub proof fn lemma_shown_are_those_passing(ts: Seq<Torrent>, filter: Option<Seq<char>>, filters: Seq<FilterBy>)
    ensures
        forall|i: int| 0 <= i < ts.filter(shown_by(filter, filters)).len()
            ==> shown(#[trigger] ts.filter(shown_by(filter, filters))[i], filter, filters),
        forall|i: int| 0 <= i < ts.len() && shown(ts[i], filter, filters)
            ==> #[trigger] ts.filter(shown_by(filter, filters)).contains(ts[i]),
{
    broadcast use vstd::seq_lib::group_filter_ensures;

}

/// Filtering what was already filtered the same way changes nothing.
pub proof fn lemma_filtering_twice(ts: Seq<Torrent>, filter: Option<Seq<char>>, filters: Seq<FilterBy>)
    ensures
        ts.filter(shown_by(filter, filters)).filter(shown_by(filter, filters))
            == ts.filter(shown_by(filter, filters)),
    decreases ts.len(),
{
    reveal_with_fuel(Seq::<_>::filter, 1);
    let p = shown_by(filter, filters);
    if ts.len() > 0 {
        lemma_filtering_twice(ts.drop_last(), filter, filters);
        let f = ts.drop_last().filter(p);
        if p(ts.last()) {
            assert(f.push(ts.last()).drop_last() =~= f);
        }
    }
}


/// `r` is `s` with some items left out: each item of `r` stands in `s`, and
/// they come in the order they have there.
pub open spec fn is_subsequence_of<A>(r: Seq<A>, s: Seq<A>) -> bool {
    exists|idx: Seq<int>| {
        &&& idx.len() == r.len()
        &&& forall|k: int| 0 <= k < idx.len() ==> 0 <= #[trigger] idx[k] < s.len() && r[k] == s[idx[k]]
        &&& forall|k: int, l: int| 0 <= k < l < idx.len() ==> #[trigger] idx[k] < #[trigger] idx[l]
    }
}

proof fn lemma_filter_is_subsequence<A>(s: Seq<A>, p: spec_fn(A) -> bool)
    ensures
        is_subsequence_of(s.filter(p), s),
    decreases s.len(),
{
    reveal_with_fuel(Seq::<_>::filter, 1);
    if s.len() == 0 {
        let idx = Seq::<int>::empty();
        assert(idx.len() == s.filter(p).len());
    } else {
        let init = s.drop_last();
        lemma_filter_is_subsequence(init, p);
        let f = init.filter(p);
        let idx0: Seq<int> = choose|idx: Seq<int>| {
            &&& idx.len() == f.len()
            &&& forall|k: int| 0 <= k < idx.len() ==> 0 <= #[trigger] idx[k] < init.len() && f[k] == init[idx[k]]
            &&& forall|k: int, l: int| 0 <= k < l < idx.len() ==> #[trigger] idx[k] < #[trigger] idx[l]
        };
        if p(s.last()) {
            let idx = idx0.push(s.len() - 1);
            let r = f.push(s.last());
            assert(s.filter(p) == r);
            assert forall|k: int| 0 <= k < idx.len() implies 0 <= #[trigger] idx[k] < s.len() && r[k] == s[idx[k]] by {
                if k < idx0.len() {
                    assert(idx[k] == idx0[k]);
                    assert(init[idx0[k]] == s[idx0[k]]);
                }
            }
            assert forall|k: int, l: int| 0 <= k < l < idx.len() implies #[trigger] idx[k] < #[trigger] idx[l] by {
                if l < idx0.len() {
                    assert(idx[k] == idx0[k] && idx[l] == idx0[l]);
                } else {
                    assert(idx[k] == idx0[k]);
                }
            }
        } else {
            assert forall|k: int| 0 <= k < idx0.len() implies 0 <= #[trigger] idx0[k] < s.len() && f[k] == s[idx0[k]] by {
                assert(init[idx0[k]] == s[idx0[k]]);
            }
            assert(s.filter(p) == f);
        }
    }
}

/// Filtering keeps the list's order: what is shown is the list with the other
/// torrents left out.
pub proof fn lemma_shown_keep_their_order(ts: Seq<Torrent>, filter: Option<Seq<char>>, filters: Seq<FilterBy>)
    ensures
        is_subsequence_of(ts.filter(shown_by(filter, filters)), ts),
{
    lemma_filter_is_subsequence(ts, shown_by(filter, filters));
}

proof fn lemma_filter_both<A>(s: Seq<A>, p: spec_fn(A) -> bool, q: spec_fn(A) -> bool, both: spec_fn(A) -> bool)
    requires
        forall|x: A| #[trigger] both(x) == (p(x) && q(x)),
    ensures
        s.filter(both) == s.filter(p).filter(q),
    decreases s.len(),
{
    reveal_with_fuel(Seq::<_>::filter, 1);
    if s.len() > 0 {
        lemma_filter_both(s.drop_last(), p, q, both);
        let f = s.drop_last().filter(p);
        if p(s.last()) {
            assert(f.push(s.last()).drop_last() =~= f);
        }
    }
}

/// Filters given together show what the first of them show, filtered again by
/// the rest (without the name filter, which the first pass applied).
pub proof fn lemma_filters_in_two_passes(
    ts: Seq<Torrent>,
    filter: Option<Seq<char>>,
    first: Seq<FilterBy>,
    rest: Seq<FilterBy>,
)
    ensures
        ts.filter(shown_by(filter, first + rest))
            == ts.filter(shown_by(filter, first)).filter(shown_by(None, rest)),
{
    let all = first + rest;
    assert forall|t: Torrent| #[trigger] shown_by(filter, all)(t)
        == (shown_by(filter, first)(t) && shown_by(None, rest)(t)) by {
        if shown(t, filter, all) {
            assert forall|i: int| 0 <= i < first.len() implies passes_filter(t, #[trigger] first[i]) by {
                assert(all[i] == first[i]);
            }
            assert forall|i: int| 0 <= i < rest.len() implies passes_filter(t, #[trigger] rest[i]) by {
                assert(all[first.len() + i] == rest[i]);
            }
        }
        if shown(t, filter, first) && shown(t, None, rest) {
            assert forall|i: int| 0 <= i < all.len() implies passes_filter(t, #[trigger] all[i]) by {
                if i < first.len() {
                    assert(all[i] == first[i]);
                } else {
                    assert(all[i] == rest[i - first.len()]);
                }
            }
        }
    }
    lemma_filter_both(ts, shown_by(filter, first), shown_by(None, rest), shown_by(filter, all));
}

/// The order of the `KEY=VALUE` filters does not matter, nor does giving one
/// twice: two lists that hold the same filters show the same torrents.
pub proof fn lemma_filter_order_does_not_matter(
    ts: Seq<Torrent>,
    filter: Option<Seq<char>>,
    a: Seq<FilterBy>,
    b: Seq<FilterBy>,
)
    requires
        forall|f: FilterBy| a.contains(f) <==> b.contains(f),
    ensures
        ts.filter(shown_by(filter, a)) == ts.filter(shown_by(filter, b)),
{
    assert forall|t: Torrent| shown(t, filter, a) implies shown(t, filter, b) by {
        assert forall|j: int| 0 <= j < b.len() implies passes_filter(t, #[trigger] b[j]) by {
            assert(b.contains(b[j]));
            let i = choose|i: int| 0 <= i < a.len() && a[i] == b[j];
            assert(passes_filter(t, a[i]));
        }
    }
    assert forall|t: Torrent| shown(t, filter, b) implies shown(t, filter, a) by {
        assert forall|j: int| 0 <= j < a.len() implies passes_filter(t, #[trigger] a[j]) by {
            assert(a.contains(a[j]));
            let i = choose|i: int| 0 <= i < b.len() && b[i] == a[j];
            assert(passes_filter(t, b[i]));
        }
    }
    assert(shown_by(filter, a) =~= shown_by(filter, b));
}

/// What one `KEY=VALUE` filter lets through, on its own and with no name
/// filter: `state` the torrents with that status, `active` and `complete` the
/// torrents whose flag is 1 exactly when the value is true (whatever their
/// status), `directory` those whose directory holds the value ignoring case,
/// and any other key every torrent.
pub proof fn lemma_each_filter_key(t: Torrent, f: FilterBy)
    ensures
        f.key@ == "state"@ ==> match status_filter_value(f.value@) {
            Some(s) => shown(t, None, seq![f]) <==> t.status == s,
            None => true,
        },
        f.key@ == "active"@ ==> match bool_filter_value(f.value@) {
            Some(b) => shown(t, None, seq![f]) <==> ((t.is_active == 1) == b),
            None => true,
        },
        f.key@ == "complete"@ ==> match bool_filter_value(f.value@) {
            Some(b) => shown(t, None, seq![f]) <==> ((t.complete == 1) == b),
            None => true,
        },
        f.key@ == "directory"@ ==> (shown(t, None, seq![f])
            <==> occurs_in(lowercase(f.value@), lowercase(t.directory@))),
        f.key@ != "state"@ && f.key@ != "active"@ && f.key@ != "complete"@ && f.key@ != "directory"@
            ==> shown(t, None, seq![f]),
{
    reveal_strlit("state");
    reveal_strlit("active");
    reveal_strlit("complete");
    reveal_strlit("directory");
    assert("state"@[0] != "active"@[0]);
    assert("state"@[0] != "complete"@[0]);
    assert("state"@[0] != "directory"@[0]);
    assert("active"@[0] != "complete"@[0]);
    assert("active"@[0] != "directory"@[0]);
    assert("complete"@[0] != "directory"@[0]);
    assert(seq![f][0] == f);
}

/// The name filter on its own shows the torrents whose name holds it,
/// ignoring case.
pub proof fn lemma_name_filter(t: Torrent, needle: Seq<char>)
    ensures
        shown(t, Some(needle), Seq::<FilterBy>::empty()) <==> occurs_in(lowercase(needle), lowercase(t.name@)),
{
}

/// Whether a filter's value means something for its key (what
/// [`apply_filters`] needs of every filter it is given).
pub fn filter_is_valid(f: &FilterBy) -> (r: bool)
    ensures
        r == filter_valid(*f),
{
    if str_eq(f.key.as_str(), "state") {
        parse_status_filter(f.value.as_str()).is_some()
    } else if str_eq(f.key.as_str(), "active") || str_eq(f.key.as_str(), "complete") {
        parse_bool_filter(f.value.as_str()).is_some()
    } else {
        true
    }
}

} // verus!
