use rtcli::error::Error;
use rtcli::filter::{
    apply_filters, filter_is_valid, find_by_hash, parse_bool_filter, parse_filter_by, parse_status_filter, status_eq,
    torrents_with_hash_prefix, FilterBy,
};
use rtcli::torrent::{Status, Torrent};

fn torrent(hash: &str, name: &str, dir: &str, status: Status, active: u64, complete: u64) -> Torrent {
    Torrent {
        hash: hash.to_string(),
        name: name.to_string(),
        size_bytes: 0,
        completed_bytes: 0,
        up_total: 0,
        down_total: 0,
        up_rate: 0,
        down_rate: 0,
        peers_connected: 0,
        peers_complete: 0,
        state: 1,
        is_active: active,
        is_open: 1,
        complete,
        ratio: 0,
        directory: dir.to_string(),
        message: String::new(),
        status,
    }
}

fn sample() -> Vec<Torrent> {
    vec![
        torrent("AA11", "Ubuntu ISO", "/data/Linux", Status::Seeding, 1, 1),
        torrent("BB22", "Debian netinst", "/data/linux", Status::Downloading, 1, 0),
        torrent("CC33", "Movie", "/media/films", Status::Stopped, 0, 0),
    ]
}

fn names(ts: &[Torrent]) -> Vec<String> {
    ts.iter().map(|t| t.name.clone()).collect()
}

fn entries(xs: &[&str]) -> Vec<String> {
    xs.iter().map(|x| x.to_string()).collect()
}

fn scgi_message(r: Result<Vec<FilterBy>, Error>) -> String {
    match r {
        Err(Error::Scgi(m)) => m,
        other => panic!("unexpected {other:?}"),
    }
}

#[test]
fn bool_filter_values() {
    for t in ["true", "1", "yes"] {
        assert_eq!(parse_bool_filter(t), Some(true));
    }
    for f in ["false", "0", "no"] {
        assert_eq!(parse_bool_filter(f), Some(false));
    }
    assert_eq!(parse_bool_filter("TRUE"), None);
    assert_eq!(parse_bool_filter(""), None);
}

#[test]
fn status_filter_values() {
    assert_eq!(parse_status_filter("stopped"), Some(Status::Stopped));
    assert_eq!(parse_status_filter("seeding"), Some(Status::Seeding));
    assert_eq!(parse_status_filter("downloading"), Some(Status::Downloading));
    assert_eq!(parse_status_filter("hashing"), Some(Status::Hashing));
    assert_eq!(parse_status_filter("error"), Some(Status::Error));
    assert_eq!(parse_status_filter("Seeding"), None);
}

#[test]
fn status_equality() {
    assert!(status_eq(&Status::Error, &Status::Error));
    assert!(!status_eq(&Status::Error, &Status::Stopped));
}

#[test]
fn parse_filter_by_accepts_known_keys() {
    let fs = parse_filter_by(&entries(&["state=seeding", "active=yes", "complete=0", "directory=a=b"])).unwrap();
    assert_eq!(fs.len(), 4);
    assert_eq!(fs[3].key, "directory");
    assert_eq!(fs[3].value, "a=b");
    assert!(fs.iter().all(filter_is_valid));
    assert_eq!(parse_filter_by(&[]).unwrap().len(), 0);
}

#[test]
fn parse_filter_by_errors() {
    assert_eq!(
        scgi_message(parse_filter_by(&entries(&["state"]))),
        "invalid --filter-by value 'state': expected KEY=VALUE"
    );
    assert_eq!(
        scgi_message(parse_filter_by(&entries(&["state=paused"]))),
        "invalid state 'paused': expected one of stopped, seeding, downloading, hashing, error"
    );
    assert_eq!(
        scgi_message(parse_filter_by(&entries(&["active=maybe"]))),
        "invalid boolean 'maybe': expected true/false, 1/0, or yes/no"
    );
    assert_eq!(
        scgi_message(parse_filter_by(&entries(&["complete=2"]))),
        "invalid boolean '2': expected true/false, 1/0, or yes/no"
    );
    assert_eq!(
        scgi_message(parse_filter_by(&entries(&["label=x"]))),
        "unknown filter key 'label': supported keys are state, active, complete, directory"
    );
    // The first refused entry is the one reported.
    assert_eq!(
        scgi_message(parse_filter_by(&entries(&["active=1", "size=3", "state=x"]))),
        "unknown filter key 'size': supported keys are state, active, complete, directory"
    );
}

#[test]
fn filter_validity() {
    let bad = FilterBy { key: "state".to_string(), value: "x".to_string() };
    assert!(!filter_is_valid(&bad));
    let other = FilterBy { key: "label".to_string(), value: "x".to_string() };
    assert!(filter_is_valid(&other));
}

#[test]
fn apply_filters_without_filters_keeps_all() {
    assert_eq!(names(&apply_filters(sample(), None, &[])), vec!["Ubuntu ISO", "Debian netinst", "Movie"]);
}

#[test]
fn apply_filters_by_name_ignores_case() {
    assert_eq!(names(&apply_filters(sample(), Some("iso"), &[])), vec!["Ubuntu ISO"]);
    assert_eq!(names(&apply_filters(sample(), Some("E"), &[])), vec!["Debian netinst", "Movie"]);
    assert_eq!(names(&apply_filters(sample(), Some("zzz"), &[])), Vec::<String>::new());
}

#[test]
fn apply_filters_by_attributes() {
    let f = parse_filter_by(&entries(&["state=seeding"])).unwrap();
    assert_eq!(names(&apply_filters(sample(), None, &f)), vec!["Ubuntu ISO"]);
    let f = parse_filter_by(&entries(&["active=no"])).unwrap();
    assert_eq!(names(&apply_filters(sample(), None, &f)), vec!["Movie"]);
    let f = parse_filter_by(&entries(&["complete=false", "active=1"])).unwrap();
    assert_eq!(names(&apply_filters(sample(), None, &f)), vec!["Debian netinst"]);
    let f = parse_filter_by(&entries(&["directory=LINUX"])).unwrap();
    assert_eq!(names(&apply_filters(sample(), None, &f)), vec!["Ubuntu ISO", "Debian netinst"]);
    let f = parse_filter_by(&entries(&["directory=linux"])).unwrap();
    assert_eq!(names(&apply_filters(sample(), Some("deb"), &f)), vec!["Debian netinst"]);
}

#[test]
fn apply_filters_twice_changes_nothing() {
    let f = parse_filter_by(&entries(&["directory=data"])).unwrap();
    let once = apply_filters(sample(), Some("n"), &f);
    let once_names = names(&once);
    let twice = apply_filters(once, Some("n"), &f);
    assert_eq!(names(&twice), once_names);
}

#[test]
fn hash_prefix_selection() {
    let ts = vec![
        torrent("ABC1", "a", "", Status::Stopped, 0, 0),
        torrent("abd2", "b", "", Status::Stopped, 0, 0),
        torrent("XBC3", "c", "", Status::Stopped, 0, 0),
    ];
    assert_eq!(names(&torrents_with_hash_prefix(ts, "ab")), vec!["a", "b"]);
}

#[test]
fn find_by_exact_hash() {
    let found = find_by_hash(sample(), "BB22").unwrap();
    assert_eq!(found.name, "Debian netinst");
    assert!(find_by_hash(sample(), "bb22").is_none());
    assert!(find_by_hash(Vec::new(), "A").is_none());
}

fn filters(xs: &[&str]) -> Vec<FilterBy> {
    parse_filter_by(&entries(xs)).unwrap()
}

#[test]
fn filters_given_together_or_in_two_passes() {
    let both = filters(&["directory=linux", "active=yes", "complete=0"]);
    let first = filters(&["directory=linux"]);
    let rest = filters(&["active=yes", "complete=0"]);
    let together = apply_filters(sample(), Some("e"), &both);
    let passes = apply_filters(apply_filters(sample(), Some("e"), &first), None, &rest);
    assert_eq!(names(&together), vec!["Debian netinst"]);
    assert_eq!(names(&together), names(&passes));
}

#[test]
fn filter_order_does_not_matter() {
    let ab = filters(&["directory=DATA", "state=seeding"]);
    let ba = filters(&["state=seeding", "directory=DATA", "state=seeding"]);
    let one = apply_filters(sample(), None, &ab);
    let other = apply_filters(sample(), None, &ba);
    assert_eq!(names(&one), vec!["Ubuntu ISO"]);
    assert_eq!(names(&one), names(&other));
}

#[test]
fn shown_torrents_keep_their_order() {
    let fs = filters(&["directory=/"]);
    let shown = apply_filters(sample(), Some("i"), &fs);
    assert_eq!(names(&shown), vec!["Ubuntu ISO", "Debian netinst", "Movie"]);
    let shown = apply_filters(sample(), None, &filters(&["complete=no"]));
    assert_eq!(names(&shown), vec!["Debian netinst", "Movie"]);
}

#[test]
fn shown_status_names_filter_back() {
    for s in [Status::Seeding, Status::Downloading, Status::Stopped, Status::Hashing, Status::Error] {
        let back = parse_status_filter(&s.to_string().to_lowercase()).unwrap();
        assert!(status_eq(&s, &back));
    }
    assert_eq!(parse_status_filter("Seeding"), None);
}
