use rtcli::format::{
    done_percent, effective_width, file_row, format_bytes, format_peers, format_rate, list_row, list_rows,
    name_column_limit, peer_row, status_color, tracker_row, truncate_name, StatusColor,
};
use rtcli::torrent::{Peer, Status, Torrent, TorrentFile, Tracker};

fn torrent(hash: &str, name: &str) -> Torrent {
    Torrent {
        hash: hash.to_string(),
        name: name.to_string(),
        size_bytes: 0,
        completed_bytes: 0,
        up_total: 0,
        down_total: 0,
        up_rate: 0,
        down_rate: 0,
        peers_connected: 0,
        peers_complete: 0,
        state: 0,
        is_active: 0,
        is_open: 0,
        complete: 0,
        ratio: 0,
        directory: String::new(),
        message: String::new(),
        status: Status::Stopped,
    }
}

// What the table printed before: the float computation, for comparison.
fn float_format_bytes(bytes: u64) -> String {
    const KIB: f64 = 1024.0;
    const MIB: f64 = KIB * 1024.0;
    const GIB: f64 = MIB * 1024.0;
    const TIB: f64 = GIB * 1024.0;
    let b = bytes as f64;
    if b >= TIB {
        format!("{:.1} TiB", b / TIB)
    } else if b >= GIB {
        format!("{:.1} GiB", b / GIB)
    } else if b >= MIB {
        format!("{:.1} MiB", b / MIB)
    } else if b >= KIB {
        format!("{:.1} KiB", b / KIB)
    } else {
        format!("{bytes} B")
    }
}

#[test]
fn format_bytes_small_counts_in_bytes() {
    assert_eq!(format_bytes(0), "0 B");
    assert_eq!(format_bytes(1), "1 B");
    assert_eq!(format_bytes(1023), "1023 B");
}

#[test]
fn format_bytes_units() {
    assert_eq!(format_bytes(1024), "1.0 KiB");
    assert_eq!(format_bytes(1536), "1.5 KiB");
    assert_eq!(format_bytes(1048576), "1.0 MiB");
    assert_eq!(format_bytes(1073741824), "1.0 GiB");
    assert_eq!(format_bytes(1099511627776), "1.0 TiB");
    assert_eq!(format_bytes(5 * 1099511627776 + 549755813888), "5.5 TiB");
}

#[test]
fn format_bytes_ties_round_to_even() {
    // 1280 bytes are exactly 1.25 KiB: the tenths tie and go to the even digit.
    assert_eq!(format_bytes(1280), "1.2 KiB");
    // 1.75 KiB rounds up to the even 1.8.
    assert_eq!(format_bytes(1792), "1.8 KiB");
}

#[test]
fn format_bytes_rounds_up_into_next_tenth() {
    // 1023.95 KiB is shown as 1024.0 KiB, not moved to MiB.
    assert_eq!(format_bytes(1048524), "1023.9 KiB");
    assert_eq!(format_bytes(1048575), "1024.0 KiB");
}

#[test]
fn format_bytes_large_values() {
    assert_eq!(format_bytes(u64::MAX), "16777216.0 TiB");
    assert_eq!(format_bytes(u64::MAX), float_format_bytes(u64::MAX));
    assert_eq!(format_bytes((1u64 << 53) + 1), float_format_bytes((1u64 << 53) + 1));
}

#[test]
fn format_bytes_matches_float_printing() {
    let mut values: Vec<u64> = Vec::new();
    for shift in 0..64 {
        let p = 1u64 << shift;
        values.push(p);
        values.push(p - 1);
        values.push(p.wrapping_add(1));
        values.push(p + p / 2);
        values.push(p.wrapping_mul(10) / 8);
    }
    let mut x: u64 = 0x1234_5678_9abc_def1;
    for _ in 0..20000 {
        x = x.wrapping_mul(6364136223846793005).wrapping_add(1442695040888963407);
        values.push(x);
        values.push(x >> (x % 64));
        values.push((x >> 20) % 100_000_000);
    }
    for k in 0..4000u64 {
        values.push(k * 1024 / 10);
        values.push(k * 1048576 / 20 + 52429);
    }
    for v in values {
        assert_eq!(format_bytes(v), float_format_bytes(v), "value {v}");
    }
}

#[test]
fn format_rate_idle_and_busy() {
    assert_eq!(format_rate(0), "0");
    assert_eq!(format_rate(2048), "2.0 KiB/s");
    assert_eq!(format_rate(512), "512 B/s");
}

#[test]
fn done_percent_values() {
    assert_eq!(done_percent(0, 0), "0%");
    assert_eq!(done_percent(5, 0), "0%");
    assert_eq!(done_percent(50, 200), "25%");
    assert_eq!(done_percent(199, 200), "99%");
    assert_eq!(done_percent(200, 200), "100%");
    assert_eq!(done_percent(u64::MAX, 1), "1844674407370955161500%");
}

#[test]
fn format_peers_writes_connected_over_complete() {
    assert_eq!(format_peers(3, 12), "3/12");
}

#[test]
fn truncate_name_leaves_fitting_names() {
    assert_eq!(truncate_name("abc", 10), "abc");
    assert_eq!(truncate_name("abcdefghij", 10), "abcdefghij");
}

#[test]
fn truncate_name_small_limits_leave_names_alone() {
    assert_eq!(truncate_name("abcdef", 3), "abcdef");
    assert_eq!(truncate_name("abcdef", 0), "abcdef");
}

#[test]
fn truncate_name_cuts_with_ellipsis() {
    assert_eq!(truncate_name("hello world", 8), "hello...");
    assert_eq!(truncate_name("abcdef", 4), "a...");
}

#[test]
fn truncate_name_counts_wide_characters() {
    // Each of these characters takes two columns.
    assert_eq!(truncate_name("日本語テキスト", 7), "日本...");
    assert_eq!(truncate_name("日本語テキスト", 8), "日本...");
    assert_eq!(truncate_name("日本語テキスト", 9), "日本語...");
}

#[test]
fn name_column_limit_none_when_everything_fits() {
    let ts = vec![torrent("ABCDEF0123", "short")];
    assert_eq!(name_column_limit(&ts, 200), None);
    assert_eq!(name_column_limit(&[], 200), None);
}

#[test]
fn name_column_limit_gives_remaining_room() {
    // Widths: hash 8, size 4, status 7, done 4, up 3, down 4, rates 7 and 7, peers 5: 49.
    let ts = vec![torrent("ABCDEF0123", &"n".repeat(60))];
    assert_eq!(name_column_limit(&ts, 100), Some(20));
    assert_eq!(name_column_limit(&ts, 85), Some(5));
}

#[test]
fn name_column_limit_none_when_too_narrow() {
    let ts = vec![torrent("ABCDEF0123", &"n".repeat(60))];
    assert_eq!(name_column_limit(&ts, 84), None);
    assert_eq!(name_column_limit(&ts, 10), None);
}

#[test]
fn effective_width_cases() {
    assert_eq!(effective_width(Some(0), Some(120)), None);
    assert_eq!(effective_width(Some(90), Some(120)), Some(90));
    assert_eq!(effective_width(None, Some(120)), Some(120));
    assert_eq!(effective_width(None, None), None);
}

#[test]
fn status_colors() {
    assert_eq!(status_color(&Status::Seeding), StatusColor::Green);
    assert_eq!(status_color(&Status::Downloading), StatusColor::Blue);
    assert_eq!(status_color(&Status::Stopped), StatusColor::DarkGrey);
    assert_eq!(status_color(&Status::Hashing), StatusColor::Yellow);
    assert_eq!(status_color(&Status::Error), StatusColor::Red);
}

#[test]
fn list_row_cells() {
    let mut t = torrent("0123456789ABCDEF", "Some Linux ISO");
    t.size_bytes = 2048;
    t.completed_bytes = 1024;
    t.up_total = 1536;
    t.down_total = 2048;
    t.up_rate = 0;
    t.down_rate = 1024;
    t.peers_connected = 2;
    t.peers_complete = 7;
    t.status = Status::Downloading;
    let row = list_row(&t, None);
    assert_eq!(
        row,
        vec!["01234567", "Some Linux ISO", "2.0 KiB", "Downloading", "50%", "1.5 KiB", "2.0 KiB", "0", "1.0 KiB/s", "2/7"]
    );
    let cut = list_row(&t, Some(8));
    assert_eq!(cut[1], "Some ...");
}

#[test]
fn list_row_short_hash() {
    let row = list_row(&torrent("ABC", "x"), None);
    assert_eq!(row[0], "ABC");
}

#[test]
fn list_rows_cut_names_to_terminal() {
    let ts = vec![torrent("0123456789", &"n".repeat(60)), torrent("FEDCBA9876", "short")];
    let rows = list_rows(&ts, None, Some(100));
    assert_eq!(rows.len(), 2);
    assert_eq!(rows[0][1], format!("{}...", "n".repeat(17)));
    assert_eq!(rows[1][1], "short");
    let unlimited = list_rows(&ts, Some(0), Some(100));
    assert_eq!(unlimited[0][1], "n".repeat(60));
}

#[test]
fn detail_rows() {
    let f = TorrentFile { path: "dir/a.bin".to_string(), size_bytes: 1024, completed_chunks: 3, size_chunks: 4, priority: 1 };
    assert_eq!(file_row(&f), vec!["dir/a.bin", "1.0 KiB", "75%", "1"]);
    let f0 = TorrentFile { path: "b".to_string(), size_bytes: 0, completed_chunks: 0, size_chunks: 0, priority: 0 };
    assert_eq!(file_row(&f0), vec!["b", "0 B", "0%", "0"]);
    let tr = Tracker { url: "udp://t".to_string(), enabled: true, open: false, scrape_complete: 10, scrape_incomplete: 2 };
    assert_eq!(tracker_row(&tr), vec!["udp://t", "yes", "10", "2"]);
    let p = Peer {
        address: "1.2.3.4".to_string(),
        client_version: "qB 4".to_string(),
        completed_percent: 42,
        down_rate: 0,
        up_rate: 4096,
        is_encrypted: false,
        is_incoming: true,
    };
    assert_eq!(peer_row(&p), vec!["1.2.3.4", "qB 4", "42%", "0", "4.0 KiB/s", "no"]);
}

fn float_format_ratio(ratio_thousandths: u64) -> String {
    format!("{:.3}", ratio_thousandths as f64 / 1000.0)
}

#[test]
fn format_ratio_values() {
    assert_eq!(rtcli::format::format_ratio(0), "0.000");
    assert_eq!(rtcli::format::format_ratio(1), "0.001");
    assert_eq!(rtcli::format::format_ratio(1500), "1.500");
    assert_eq!(rtcli::format::format_ratio(12345), "12.345");
    assert_eq!(rtcli::format::format_ratio(8796093022207999), "8796093022207.999");
}

#[test]
fn format_ratio_matches_float_printing() {
    let mut values: Vec<u64> = vec![u64::MAX, u64::MAX - 1, 9007199254740991, 9007199254740993, 8796093022208000];
    for shift in 0..64 {
        let p = 1u64 << shift;
        values.push(p);
        values.push(p - 1);
        values.push(p.wrapping_add(1));
        values.push(p.wrapping_add(p / 3));
    }
    let mut x: u64 = 0x0fed_cba9_8765_4321;
    for _ in 0..20000 {
        x = x.wrapping_mul(6364136223846793005).wrapping_add(1442695040888963407);
        values.push(x);
        values.push(x >> (x % 64));
        values.push(x % 100_000);
    }
    for v in values {
        assert_eq!(rtcli::format::format_ratio(v), float_format_ratio(v), "value {v}");
    }
}

#[test]
fn format_ratio_large_values_follow_the_float() {
    // Above 2^43 · 1000 thousandths the quotient's last digit can move.
    let v = 9007199254740991u64;
    assert_eq!(rtcli::format::format_ratio(v), float_format_ratio(v));
}

#[test]
fn detail_lines_for_a_torrent() {
    let mut t = torrent("ABCDEF", "Name");
    t.size_bytes = 1024;
    t.completed_bytes = 512;
    t.ratio = 2500;
    t.down_rate = 10;
    t.peers_connected = 1;
    t.peers_complete = 4;
    t.directory = "/dl".to_string();
    let lines = rtcli::format::detail_lines(&t, 262144);
    assert_eq!(
        lines,
        vec![
            "Hash:       ABCDEF",
            "Name:       Name",
            "Status:     Stopped",
            "Size:       1.0 KiB",
            "Piece size: 256.0 KiB",
            "Done:       50%",
            "Downloaded: 0 B",
            "Uploaded:   0 B",
            "Ratio:      2.500",
            "DL Rate:    10 B/s",
            "UL Rate:    0",
            "Peers:      1/4",
            "Directory:  /dl",
        ]
    );
    t.message = "Tracker: down".to_string();
    let lines = rtcli::format::detail_lines(&t, 262144);
    assert_eq!(lines.len(), 14);
    assert_eq!(lines[13], "Message:    Tracker: down");
}
