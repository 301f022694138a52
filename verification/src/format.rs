//! How sizes, rates, percentages and table cells are written for the user.
use vstd::prelude::*;
use vstd::string::*;
use crate::text::{decimal, digit, digit_char, push_char, push_decimal, u64_to_decimal, str_width, unicode_str_width, char_width, unicode_char_width, chars_of};
use crate::torrent::{Status, Torrent, TorrentFile, Tracker, Peer, status_name};
use vstd::utf8::*;
use vstd::arithmetic::power2::{pow2, lemma2_to64, lemma_pow2_unfold, lemma_pow2_strictly_increases, lemma_pow2_pos};
use vstd::arithmetic::div_mod::{lemma_fundamental_div_mod, lemma_fundamental_div_mod_converse};

verus! {

/// `a / d` rounded to the nearest integer, ties to the even neighbour.
pub open spec fn div_round_even(a: nat, d: nat) -> nat {
    let q = a / d;
    let r = a % d;
    if 2 * r > d || (2 * r == d && q % 2 == 1) { q + 1 } else { q }
}

/// The spacing of double-precision floats around `n`, for `n < 2^64`: 1 below
/// 2^53, doubling at each further power of two.
pub open spec fn f64_spacing(n: nat) -> nat {
    if n < 0x20_0000_0000_0000 { 1 }
    else if n < 0x40_0000_0000_0000 { 2 }
    else if n < 0x80_0000_0000_0000 { 4 }
    else if n < 0x100_0000_0000_0000 { 8 }
    else if n < 0x200_0000_0000_0000 { 16 }
    else if n < 0x400_0000_0000_0000 { 32 }
    else if n < 0x800_0000_0000_0000 { 64 }
    else if n < 0x1000_0000_0000_0000 { 128 }
    else if n < 0x2000_0000_0000_0000 { 256 }
    else if n < 0x4000_0000_0000_0000 { 512 }
    else if n < 0x8000_0000_0000_0000 { 1024 }
    else { 2048 }
}

/// The value of `n as f64`: the nearest double, ties to even.
pub open spec fn f64_value(n: nat) -> nat {
    div_round_even(n, f64_spacing(n)) * f64_spacing(n)
}

/// A value in tenths written with one decimal place.
pub open spec fn tenths_text(t: nat) -> Seq<char> {
    decimal(t / 10) + seq!['.'] + decimal(t % 10)
}

/// A byte count as the table shows it: below 1 KiB in bytes, otherwise in the
/// largest of KiB, MiB, GiB and TiB that it reaches, with one decimal. This is
/// what printing `bytes as f64` divided by the unit with `{:.1}` gives: the
/// conversion rounds to the nearest double, the division by a power of two is
/// exact, and the printing rounds the tenths half to even.
pub open spec fn format_bytes_text(bytes: u64) -> Seq<char> {
    let b = f64_value(bytes as nat);
    if b >= 0x100_0000_0000 {
        tenths_text(div_round_even(b * 10, 0x100_0000_0000)) + " TiB"@
    } else if b >= 0x4000_0000 {
        tenths_text(div_round_even(b * 10, 0x4000_0000)) + " GiB"@
    } else if b >= 0x10_0000 {
        tenths_text(div_round_even(b * 10, 0x10_0000)) + " MiB"@
    } else if b >= 0x400 {
        tenths_text(div_round_even(b * 10, 0x400)) + " KiB"@
    } else {
        decimal(bytes as nat) + " B"@
    }
}

fn div_round_even_exec(a: u128, d: u128) -> (r: u128)
    requires
        0 < d <= 0x1_0000_0000_0000_0000,
        a < 0x1_0000_0000_0000_0000_0000_0000,
    ensures
        r == div_round_even(a as nat, d as nat),
        r <= a / d + 1,
{
    let q = a / d;
    let rem = a % d;
    assert(q <= a) by (nonlinear_arith)
        requires
            q == a / d,
            d > 0,
    ;
    if 2 * rem > d || (2 * rem == d && q % 2 == 1) {
        q + 1
    } else {
        q
    }
}

fn f64_spacing_exec(n: u64) -> (s: u128)
    ensures
        s == f64_spacing(n as nat),
        1 <= s <= 2048,
        n < 0x20_0000_0000_0000 * s,
{
    if n < 0x20_0000_0000_0000 { 1 }
    else if n < 0x40_0000_0000_0000 { 2 }
    else if n < 0x80_0000_0000_0000 { 4 }
    else if n < 0x100_0000_0000_0000 { 8 }
    else if n < 0x200_0000_0000_0000 { 16 }
    else if n < 0x400_0000_0000_0000 { 32 }
    else if n < 0x800_0000_0000_0000 { 64 }
    else if n < 0x1000_0000_0000_0000 { 128 }
    else if n < 0x2000_0000_0000_0000 { 256 }
    else if n < 0x4000_0000_0000_0000 { 512 }
    else if n < 0x8000_0000_0000_0000 { 1024 }
    else { 2048 }
}

/// The value of `n as f64`, computed exactly.
fn f64_value_exec(n: u64) -> (v: u128)
    ensures
        v == f64_value(n as nat),
        v <= 0x1_0000_0000_0000_0000,
{
    let s = f64_spacing_exec(n);
    let m = div_round_even_exec(n as u128, s);
    assert((n as int) / (s as int) < 0x20_0000_0000_0000) by (nonlinear_arith)
        requires
            n < 0x20_0000_0000_0000 * s,
            s > 0,
    ;
    assert(m * s <= 0x1_0000_0000_0000_0000) by (nonlinear_arith)
        requires
            m <= 0x20_0000_0000_0000,
            1 <= s <= 2048,
    ;
    m * s
}

fn push_tenths(s: &mut String, t: u128)
    ensures
        final(s)@ == old(s)@ + tenths_text(t as nat),
{
    push_decimal(s, t / 10);
    push_char(s, '.');
    push_decimal(s, t % 10);
    assert(s@ =~= old(s)@ + tenths_text(t as nat));
}

/// Writes a byte count for the user (see [`format_bytes_text`]).
pub fn format_bytes(bytes: u64) -> (s: String)
    ensures
        s@ == format_bytes_text(bytes),
{
    let b = f64_value_exec(bytes);
    let mut s = String::new();
    if b >= 0x100_0000_0000 {
        let t = div_round_even_exec(b * 10, 0x100_0000_0000);
        push_tenths(&mut s, t);
        s.append(" TiB");
    } else if b >= 0x4000_0000 {
        let t = div_round_even_exec(b * 10, 0x4000_0000);
        push_tenths(&mut s, t);
        s.append(" GiB");
    } else if b >= 0x10_0000 {
        let t = div_round_even_exec(b * 10, 0x10_0000);
        push_tenths(&mut s, t);
        s.append(" MiB");
    } else if b >= 0x400 {
        let t = div_round_even_exec(b * 10, 0x400);
        push_tenths(&mut s, t);
        s.append(" KiB");
    } else {
        push_decimal(&mut s, bytes as u128);
        s.append(" B");
    }
    s
}


/// A transfer rate as the table shows it: `0` when idle, else the byte count per second.
pub open spec fn format_rate_text(bytes_per_sec: u64) -> Seq<char> {
    if bytes_per_sec == 0 { "0"@ } else { format_bytes_text(bytes_per_sec) + "/s"@ }
}

/// Writes a transfer rate for the user.
pub fn format_rate(bytes_per_sec: u64) -> (s: String)
    ensures
        s@ == format_rate_text(bytes_per_sec),
{
    if bytes_per_sec == 0 {
        return String::from_str("0");
    }
    let mut s = format_bytes(bytes_per_sec);
    s.append("/s");
    s
}

/// A completion percentage, rounded down; `0%` when there is nothing to complete.
pub open spec fn done_percent_text(completed: u64, total: u64) -> Seq<char> {
    if total == 0 { "0%"@ } else { decimal((completed as nat * 100) / total as nat) + "%"@ }
}

/// Writes how much of `total` is `completed`, as a whole percentage.
pub fn done_percent(completed: u64, total: u64) -> (s: String)
    ensures
        s@ == done_percent_text(completed, total),
{
    if total == 0 {
        return String::from_str("0%");
    }
    let mut s = String::new();
    push_decimal(&mut s, (completed as u128 * 100) / total as u128);
    s.append("%");
    s
}

/// The colours a status can be shown in.
#[derive(Clone, Copy, Debug, PartialEq, Eq, Structural)]
pub enum StatusColor {
    Green,
    Blue,
    DarkGrey,
    Yellow,
    Red,
}

/// The colour of each status: seeding green, downloading blue, stopped dark
/// grey, hashing yellow, error red.
pub open spec fn color_of(status: Status) -> StatusColor {
    match status {
        Status::Seeding => StatusColor::Green,
        Status::Downloading => StatusColor::Blue,
        Status::Stopped => StatusColor::DarkGrey,
        Status::Hashing => StatusColor::Yellow,
        Status::Error => StatusColor::Red,
    }
}

/// The colour a status is shown in.
pub fn status_color(status: &Status) -> (c: StatusColor)
    ensures
        c == color_of(*status),
{
    match status {
        Status::Seeding => StatusColor::Green,
        Status::Downloading => StatusColor::Blue,
        Status::Stopped => StatusColor::DarkGrey,
        Status::Hashing => StatusColor::Yellow,
        Status::Error => StatusColor::Red,
    }
}

/// The width the list is laid out for: a hint of 0 means unlimited, another
/// hint is taken as it is, and without a hint the terminal's width is used.
pub open spec fn effective_width_of(width_hint: Option<u16>, terminal_width: Option<u16>) -> Option<usize> {
    match width_hint {
        Some(w) => if w == 0 { None } else { Some(w as usize) },
        None => match terminal_width {
            Some(w) => Some(w as usize),
            None => None,
        },
    }
}

/// The width the list is laid out for.
pub fn effective_width(width_hint: Option<u16>, terminal_width: Option<u16>) -> (w: Option<usize>)
    ensures
        w == effective_width_of(width_hint, terminal_width),
{
    match width_hint {
        Some(w) => if w == 0 { None } else { Some(w as usize) },
        None => match terminal_width {
            Some(w) => Some(w as usize),
            None => None,
        },
    }
}


/// Connected over complete peers, as `connected/complete`.
pub open spec fn peers_text(connected: u64, complete: u64) -> Seq<char> {
    decimal(connected as nat) + seq!['/'] + decimal(complete as nat)
}

/// Writes connected over complete peers.
pub fn format_peers(connected: u64, complete: u64) -> (s: String)
    ensures
        s@ == peers_text(connected, complete),
{
    let mut s = String::new();
    push_decimal(&mut s, connected as u128);
    push_char(&mut s, '/');
    push_decimal(&mut s, complete as u128);
    s
}

/// The columns of the torrent list whose widths decide how much room the name gets.
#[derive(Clone, Copy, Debug, PartialEq, Eq, Structural)]
pub enum Column {
    Size,
    Status,
    Done,
    Up,
    Down,
    UlRate,
    DlRate,
    Peers,
    Name,
}

/// The width of a torrent's cell in a column: the byte length of its text
/// (what `str::len` gives), and the display width of the name.
pub open spec fn cell_width(t: Torrent, c: Column) -> nat {
    match c {
        Column::Size => utf8_len(format_bytes_text(t.size_bytes)),
        Column::Status => utf8_len(status_name(t.status)),
        Column::Done => utf8_len(done_percent_text(t.completed_bytes, t.size_bytes)),
        Column::Up => utf8_len(format_bytes_text(t.up_total)),
        Column::Down => utf8_len(format_bytes_text(t.down_total)),
        Column::UlRate => utf8_len(format_rate_text(t.up_rate)),
        Column::DlRate => utf8_len(format_rate_text(t.down_rate)),
        Column::Peers => utf8_len(peers_text(t.peers_connected, t.peers_complete)),
        Column::Name => unicode_str_width(t.name@) as nat,
    }
}

proof fn lemma_decimal_ascii(n: nat)
    ensures
        is_ascii_chars(decimal(n)),
    decreases n,
{
    if n >= 10 {
        lemma_decimal_ascii(n / 10);
    }
}

proof fn lemma_ascii_len(s: Seq<char>)
    requires
        is_ascii_chars(s),
    ensures
        utf8_len(s) == s.len(),
{
    is_ascii_chars_encode_utf8(s);
}

proof fn lemma_tenths_ascii(t: nat)
    ensures
        is_ascii_chars(tenths_text(t)),
{
    lemma_decimal_ascii(t / 10);
    lemma_decimal_ascii(t % 10);
}

/// A size's text is ASCII.
proof fn lemma_format_bytes_ascii(n: u64)
    ensures
        is_ascii_chars(format_bytes_text(n)),
{
    let b = f64_value(n as nat);
    if b >= 0x100_0000_0000 {
        reveal_strlit(" TiB");
        lemma_tenths_ascii(div_round_even(b * 10, 0x100_0000_0000));
    } else if b >= 0x4000_0000 {
        reveal_strlit(" GiB");
        lemma_tenths_ascii(div_round_even(b * 10, 0x4000_0000));
    } else if b >= 0x10_0000 {
        reveal_strlit(" MiB");
        lemma_tenths_ascii(div_round_even(b * 10, 0x10_0000));
    } else if b >= 0x400 {
        reveal_strlit(" KiB");
        lemma_tenths_ascii(div_round_even(b * 10, 0x400));
    } else {
        reveal_strlit(" B");
        lemma_decimal_ascii(n as nat);
    }
}

/// A rate's text is ASCII.
proof fn lemma_format_rate_ascii(n: u64)
    ensures
        is_ascii_chars(format_rate_text(n)),
{
    if n == 0 {
        reveal_strlit("0");
    } else {
        reveal_strlit("/s");
        lemma_format_bytes_ascii(n);
    }
}

/// A completion's text is ASCII.
proof fn lemma_done_percent_ascii(n: u64, m: u64)
    ensures
        is_ascii_chars(done_percent_text(n, m)),
{
    reveal_strlit("0%");
    reveal_strlit("%");
    if m != 0 {
        lemma_decimal_ascii((n as nat * 100) / m as nat);
    }
}

/// A peer count's text is ASCII.
proof fn lemma_peers_ascii(n: u64, m: u64)
    ensures
        is_ascii_chars(peers_text(n, m)),
{
    lemma_decimal_ascii(n as nat);
    lemma_decimal_ascii(m as nat);
}

/// A status name is ASCII.
proof fn lemma_status_name_ascii(s: Status)
    ensures
        is_ascii_chars(status_name(s)),
{
    reveal_strlit("Seeding");
    reveal_strlit("Downloading");
    reveal_strlit("Stopped");
    reveal_strlit("Hashing");
    reveal_strlit("Error");
}

/// The width of a column's header: "Size", "Status", "Done", "Up", "Down",
/// "UL Rate", "DL Rate", "Peers", "Name".
pub open spec fn header_width(c: Column) -> nat {
    match c {
        Column::Size => 4,
        Column::Status => 6,
        Column::Done => 4,
        Column::Up => 2,
        Column::Down => 4,
        Column::UlRate => 7,
        Column::DlRate => 7,
        Column::Peers => 5,
        Column::Name => 4,
    }
}

/// The widest cell of a column over a list of torrents (0 for no torrents).
pub open spec fn widest_cell(ts: Seq<Torrent>, c: Column) -> nat
    decreases ts.len(),
{
    if ts.len() == 0 {
        0
    } else {
        let w = cell_width(ts.last(), c);
        let rest = widest_cell(ts.drop_last(), c);
        if w > rest { w } else { rest }
    }
}

/// The width of a column: its widest cell or its header, whichever is wider.
pub open spec fn column_width(ts: Seq<Torrent>, c: Column) -> nat {
    let w = widest_cell(ts, c);
    if w > header_width(c) { w } else { header_width(c) }
}

/// The width of every column but the name and the hash, plus 8 for the hash.
pub open spec fn fixed_width(ts: Seq<Torrent>) -> nat {
    8 + column_width(ts, Column::Size) + column_width(ts, Column::Status)
        + column_width(ts, Column::Done) + column_width(ts, Column::Up)
        + column_width(ts, Column::Down) + column_width(ts, Column::UlRate)
        + column_width(ts, Column::DlRate) + column_width(ts, Column::Peers)
}

/// How wide the name column may be before names are cut: nothing when every
/// name fits the terminal as it is (the table's own borders and padding take
/// 31 columns), nothing when what is left would not even hold the header
/// "Name", otherwise what is left.
pub open spec fn name_limit_of(ts: Seq<Torrent>, term_width: usize) -> Option<usize> {
    let fixed = fixed_width(ts);
    if 31 + fixed + column_width(ts, Column::Name) <= term_width {
        None
    } else {
        let available: int = if 31 + fixed <= term_width { term_width - 31 - fixed } else { 0 };
        if available <= 4 { None } else { Some(available as usize) }
    }
}

fn cell_width_exec(t: &Torrent, c: Column) -> (w: usize)
    ensures
        w == cell_width(*t, c),
{
    match c {
        Column::Size => {
            proof { lemma_format_bytes_ascii(t.size_bytes); lemma_ascii_len(format_bytes_text(t.size_bytes)); }
            format_bytes(t.size_bytes).as_str().unicode_len()
        },
        Column::Status => {
            proof { lemma_status_name_ascii(t.status); lemma_ascii_len(status_name(t.status)); }
            t.status.to_string().as_str().unicode_len()
        },
        Column::Done => {
            proof {
                lemma_done_percent_ascii(t.completed_bytes, t.size_bytes);
                lemma_ascii_len(done_percent_text(t.completed_bytes, t.size_bytes));
            }
            done_percent(t.completed_bytes, t.size_bytes).as_str().unicode_len()
        },
        Column::Up => {
            proof { lemma_format_bytes_ascii(t.up_total); lemma_ascii_len(format_bytes_text(t.up_total)); }
            format_bytes(t.up_total).as_str().unicode_len()
        },
        Column::Down => {
            proof { lemma_format_bytes_ascii(t.down_total); lemma_ascii_len(format_bytes_text(t.down_total)); }
            format_bytes(t.down_total).as_str().unicode_len()
        },
        Column::UlRate => {
            proof { lemma_format_rate_ascii(t.up_rate); lemma_ascii_len(format_rate_text(t.up_rate)); }
            format_rate(t.up_rate).as_str().unicode_len()
        },
        Column::DlRate => {
            proof { lemma_format_rate_ascii(t.down_rate); lemma_ascii_len(format_rate_text(t.down_rate)); }
            format_rate(t.down_rate).as_str().unicode_len()
        },
        Column::Peers => {
            proof {
                lemma_peers_ascii(t.peers_connected, t.peers_complete);
                lemma_ascii_len(peers_text(t.peers_connected, t.peers_complete));
            }
            format_peers(t.peers_connected, t.peers_complete).as_str().unicode_len()
        },
        Column::Name => str_width(t.name.as_str()),
    }
}

fn header_width_exec(c: Column) -> (w: usize)
    ensures
        w == header_width(c),
{
    match c {
        Column::Size => 4,
        Column::Status => 6,
        Column::Done => 4,
        Column::Up => 2,
        Column::Down => 4,
        Column::UlRate => 7,
        Column::DlRate => 7,
        Column::Peers => 5,
        Column::Name => 4,
    }
}

/// The width of one column of the torrent list.
fn column_width_exec(ts: &[Torrent], c: Column) -> (w: usize)
    ensures
        w == column_width(ts@, c),
{
    let mut widest: usize = 0;
    let mut i: usize = 0;
    assert(ts@.take(0) =~= Seq::<Torrent>::empty());
    while i < ts.len()
        invariant
            0 <= i <= ts.len(),
            widest == widest_cell(ts@.take(i as int), c),
        decreases ts.len() - i,
    {
        assert(ts@.take(i + 1).drop_last() =~= ts@.take(i as int));
        assert(ts@.take(i + 1).last() == ts@[i as int]);
        let w = cell_width_exec(&ts[i], c);
        if w > widest {
            widest = w;
        }
        i = i + 1;
    }
    assert(ts@.take(ts.len() as int) =~= ts@);
    let h = header_width_exec(c);
    if widest > h { widest } else { h }
}

/// How wide the name column may be on a terminal `term_width` columns wide
/// before names are cut (see [`name_limit_of`]).
pub fn name_column_limit(torrents: &[Torrent], term_width: usize) -> (r: Option<usize>)
    ensures
        r == name_limit_of(torrents@, term_width),
{
    let fixed: u128 = 8 + column_width_exec(torrents, Column::Size) as u128
        + column_width_exec(torrents, Column::Status) as u128
        + column_width_exec(torrents, Column::Done) as u128
        + column_width_exec(torrents, Column::Up) as u128
        + column_width_exec(torrents, Column::Down) as u128
        + column_width_exec(torrents, Column::UlRate) as u128
        + column_width_exec(torrents, Column::DlRate) as u128
        + column_width_exec(torrents, Column::Peers) as u128;
    let natural = column_width_exec(torrents, Column::Name) as u128;
    if 31 + fixed + natural <= term_width as u128 {
        return None;
    }
    let available: u128 = if 31 + fixed <= term_width as u128 { term_width as u128 - 31 - fixed } else { 0 };
    if available <= 4 {
        None
    } else {
        Some(available as usize)
    }
}


/// The columns a character takes when names are cut: its display width, and
/// nothing for a control character.
pub open spec fn char_columns(c: char) -> nat {
    match unicode_char_width(c) {
        Some(w) => w as nat,
        None => 0,
    }
}

/// How many leading characters of `s`, from index `i` on with `cols` columns
/// already used, fit in `target` columns: characters are taken in order until
/// the next one would go past the target.
pub open spec fn fitting_len(s: Seq<char>, target: nat, i: nat, cols: nat) -> nat
    decreases s.len() - i,
{
    if i >= s.len() || cols + char_columns(s[i as int]) > target {
        i
    } else {
        fitting_len(s, target, i + 1, cols + char_columns(s[i as int]))
    }
}

/// A name cut to fit `max_width` columns: names that fit, and limits of three
/// columns or fewer, are left alone; otherwise the longest leading part that
/// fits in `max_width - 3` columns is kept and `...` appended.
pub open spec fn truncated_name(name: Seq<char>, max_width: usize) -> Seq<char> {
    if unicode_str_width(name) <= max_width || max_width <= 3 {
        name
    } else {
        name.take(fitting_len(name, (max_width - 3) as nat, 0, 0) as int) + "..."@
    }
}

/// Cuts a name to fit `max_width` columns (see [`truncated_name`]).
pub fn truncate_name(name: &str, max_width: usize) -> (s: String)
    ensures
        s@ == truncated_name(name@, max_width),
{
    if str_width(name) <= max_width || max_width <= 3 {
        return String::from_str(name);
    }
    let target = max_width - 3;
    let chars = chars_of(name);
    let mut cols: u128 = 0;
    let mut truncated = String::new();
    let mut i: usize = 0;
    while i < chars.len()
        invariant
            chars@ == name@,
            0 <= i <= chars.len(),
            cols <= target,
            truncated@ == name@.take(i as int),
            fitting_len(name@, target as nat, 0, 0) == fitting_len(name@, target as nat, i as nat, cols as nat),
        ensures
            truncated@ == name@.take(i as int),
            fitting_len(name@, target as nat, 0, 0) == i,
        decreases chars.len() - i,
    {
        let ch_w: u128 = match char_width(chars[i]) {
            Some(w) => w as u128,
            None => 0,
        };
        if cols + ch_w > target as u128 {
            break;
        }
        cols = cols + ch_w;
        push_char(&mut truncated, chars[i]);
        assert(name@.take(i + 1) =~= name@.take(i as int).push(chars@[i as int]));
        i = i + 1;
    }
    truncated.append("...");
    truncated
}


/// The byte length of a text's UTF-8 encoding (what `str::len` gives).
pub open spec fn utf8_len(s: Seq<char>) -> nat {
    encode_utf8(s).len()
}

/// The end of the short form of a hash: its first eight bytes, or all of it if shorter.
pub open spec fn short_hash_end(hash: Seq<char>) -> int {
    if utf8_len(hash) < 8 { utf8_len(hash) as int } else { 8 }
}

/// A hash can be shortened: its short form ends on a character boundary (and
/// its encoding, like that of any text in memory, fits in `usize`).
pub open spec fn short_hash_ok(hash: Seq<char>) -> bool {
    &&& utf8_len(hash) <= usize::MAX
    &&& is_char_boundary(encode_utf8(hash), short_hash_end(hash))
}

/// The short form of a hash: the text whose encoding is its first eight bytes.
pub fn short_hash(hash: &str) -> (s: String)
    requires
        short_hash_ok(hash@),
    ensures
        encode_utf8(s@) == encode_utf8(hash@).take(short_hash_end(hash@)),
{
    let n = if hash.len() < 8 { hash.len() } else { 8 };
    let (head, _tail) = hash.split_at(n);
    String::from_str(head)
}

/// The cells of a torrent's row in the list: short hash, name (cut to the
/// limit, if there is one), size, status, completion, uploaded, downloaded,
/// upload rate, download rate, peers.
pub open spec fn list_row_matches(row: Seq<String>, t: Torrent, name_limit: Option<usize>) -> bool {
    &&& row.len() == 10
    &&& encode_utf8(row[0]@) == encode_utf8(t.hash@).take(short_hash_end(t.hash@))
    &&& row[1]@ == match name_limit {
        Some(max_w) => truncated_name(t.name@, max_w),
        None => t.name@,
    }
    &&& row[2]@ == format_bytes_text(t.size_bytes)
    &&& row[3]@ == status_name(t.status)
    &&& row[4]@ == done_percent_text(t.completed_bytes, t.size_bytes)
    &&& row[5]@ == format_bytes_text(t.up_total)
    &&& row[6]@ == format_bytes_text(t.down_total)
    &&& row[7]@ == format_rate_text(t.up_rate)
    &&& row[8]@ == format_rate_text(t.down_rate)
    &&& row[9]@ == peers_text(t.peers_connected, t.peers_complete)
}

/// The cells of a torrent's row in the list.
pub fn list_row(t: &Torrent, name_limit: Option<usize>) -> (row: Vec<String>)
    requires
        short_hash_ok(t.hash@),
    ensures
        list_row_matches(row@, *t, name_limit),
{
    let mut row: Vec<String> = Vec::new();
    row.push(short_hash(t.hash.as_str()));
    row.push(match name_limit {
        Some(max_w) => truncate_name(t.name.as_str(), max_w),
        None => t.name.clone(),
    });
    row.push(format_bytes(t.size_bytes));
    row.push(t.status.to_string());
    row.push(done_percent(t.completed_bytes, t.size_bytes));
    row.push(format_bytes(t.up_total));
    row.push(format_bytes(t.down_total));
    row.push(format_rate(t.up_rate));
    row.push(format_rate(t.down_rate));
    row.push(format_peers(t.peers_connected, t.peers_complete));
    row
}

/// The limit on the name column when the list is laid out for a width hint
/// and a terminal width (see [`effective_width_of`] and [`name_limit_of`]).
pub open spec fn list_name_limit(ts: Seq<Torrent>, width_hint: Option<u16>, terminal_width: Option<u16>) -> Option<usize> {
    match effective_width_of(width_hint, terminal_width) {
        Some(w) => name_limit_of(ts, w),
        None => None,
    }
}

/// The rows of the torrent list, one per torrent, in order.
pub fn list_rows(torrents: &[Torrent], width_hint: Option<u16>, terminal_width: Option<u16>) -> (rows: Vec<Vec<String>>)
    requires
        forall|i: int| 0 <= i < torrents@.len() ==> short_hash_ok(#[trigger] torrents@[i].hash@),
    ensures
        rows@.len() == torrents@.len(),
        forall|i: int| 0 <= i < torrents@.len() ==> list_row_matches(
            #[trigger] rows@[i]@,
            torrents@[i],
            list_name_limit(torrents@, width_hint, terminal_width),
        ),
{
    let name_limit = match effective_width(width_hint, terminal_width) {
        Some(w) => name_column_limit(torrents, w),
        None => None,
    };
    let mut rows: Vec<Vec<String>> = Vec::new();
    let mut i: usize = 0;
    while i < torrents.len()
        invariant
            0 <= i <= torrents.len(),
            forall|k: int| 0 <= k < torrents@.len() ==> short_hash_ok(#[trigger] torrents@[k].hash@),
            name_limit == list_name_limit(torrents@, width_hint, terminal_width),
            rows@.len() == i,
            forall|k: int| 0 <= k < i ==> list_row_matches(#[trigger] rows@[k]@, torrents@[k], name_limit),
        decreases torrents.len() - i,
    {
        rows.push(list_row(&torrents[i], name_limit));
        i = i + 1;
    }
    rows
}

/// The cells of a file's row: path, size, completion by chunks, priority.
pub open spec fn file_row_matches(row: Seq<String>, f: TorrentFile) -> bool {
    &&& row.len() == 4
    &&& row[0]@ == f.path@
    &&& row[1]@ == format_bytes_text(f.size_bytes)
    &&& row[2]@ == done_percent_text(f.completed_chunks, f.size_chunks)
    &&& row[3]@ == decimal(f.priority as nat)
}

/// The cells of a file's row in a torrent's details.
pub fn file_row(f: &TorrentFile) -> (row: Vec<String>)
    ensures
        file_row_matches(row@, *f),
{
    let mut row: Vec<String> = Vec::new();
    row.push(f.path.clone());
    row.push(format_bytes(f.size_bytes));
    row.push(done_percent(f.completed_chunks, f.size_chunks));
    row.push(u64_to_decimal(f.priority));
    row
}

/// `yes` or `no`.
pub open spec fn yes_no(b: bool) -> Seq<char> {
    if b { "yes"@ } else { "no"@ }
}

fn yes_no_exec(b: bool) -> (s: String)
    ensures
        s@ == yes_no(b),
{
    if b { String::from_str("yes") } else { String::from_str("no") }
}

/// The cells of a tracker's row: URL, whether enabled, seeds, leeches.
pub open spec fn tracker_row_matches(row: Seq<String>, tr: Tracker) -> bool {
    &&& row.len() == 4
    &&& row[0]@ == tr.url@
    &&& row[1]@ == yes_no(tr.enabled)
    &&& row[2]@ == decimal(tr.scrape_complete as nat)
    &&& row[3]@ == decimal(tr.scrape_incomplete as nat)
}

/// The cells of a tracker's row in a torrent's details.
pub fn tracker_row(tr: &Tracker) -> (row: Vec<String>)
    ensures
        tracker_row_matches(row@, *tr),
{
    let mut row: Vec<String> = Vec::new();
    row.push(tr.url.clone());
    row.push(yes_no_exec(tr.enabled));
    row.push(u64_to_decimal(tr.scrape_complete));
    row.push(u64_to_decimal(tr.scrape_incomplete));
    row
}

/// The cells of a peer's row: address, client, completion, download rate,
/// upload rate, whether encrypted.
pub open spec fn peer_row_matches(row: Seq<String>, p: Peer) -> bool {
    &&& row.len() == 6
    &&& row[0]@ == p.address@
    &&& row[1]@ == p.client_version@
    &&& row[2]@ == decimal(p.completed_percent as nat) + "%"@
    &&& row[3]@ == format_rate_text(p.down_rate)
    &&& row[4]@ == format_rate_text(p.up_rate)
    &&& row[5]@ == yes_no(p.is_encrypted)
}

/// The cells of a peer's row in a torrent's details.
pub fn peer_row(p: &Peer) -> (row: Vec<String>)
    ensures
        peer_row_matches(row@, *p),
{
    let mut row: Vec<String> = Vec::new();
    row.push(p.address.clone());
    row.push(p.client_version.clone());
    let mut pct = u64_to_decimal(p.completed_percent);
    pct.append("%");
    row.push(pct);
    row.push(format_rate(p.down_rate));
    row.push(format_rate(p.up_rate));
    row.push(yes_no_exec(p.is_encrypted));
    row
}


/// Counts below 2^53 convert to `f64` exactly.
pub proof fn lemma_f64_exact_below_2_53(n: nat)
    requires
        n < 0x20_0000_0000_0000,
    ensures
        f64_value(n) == n,
{
}

/// A count below 1 KiB is written in bytes, as it is.
pub proof fn lemma_small_sizes_in_bytes(bytes: u64)
    requires
        bytes < 1024,
    ensures
        format_bytes_text(bytes) == decimal(bytes as nat) + " B"@,
{
}

/// The columns the first `n` characters of a text take.
pub open spec fn columns_of(s: Seq<char>, n: int) -> nat
    decreases n,
{
    if n <= 0 { 0 } else { columns_of(s, n - 1) + char_columns(s[n - 1]) }
}

proof fn lemma_fitting_len(s: Seq<char>, target: nat, i: nat, cols: nat)
    requires
        i <= s.len(),
        cols == columns_of(s, i as int),
        cols <= target,
    ensures
        i <= fitting_len(s, target, i, cols) <= s.len(),
        columns_of(s, fitting_len(s, target, i, cols) as int) <= target,
        fitting_len(s, target, i, cols) < s.len() ==> columns_of(s, (fitting_len(s, target, i, cols) + 1) as int) > target,
    decreases s.len() - i,
{
    if i < s.len() && cols + char_columns(s[i as int]) <= target {
        lemma_fitting_len(s, target, i + 1, cols + char_columns(s[i as int]));
    }
}

/// A cut name is a leading part of the name followed by `...`; that part takes
/// no more than `max_width - 3` columns, and it is the longest such part.
pub proof fn lemma_cut_name_fits(name: Seq<char>, max_width: usize)
    requires
        unicode_str_width(name) > max_width,
        max_width > 3,
    ensures
        ({
            let k = fitting_len(name, (max_width - 3) as nat, 0, 0);
            &&& k <= name.len()
            &&& truncated_name(name, max_width) == name.take(k as int) + "..."@
            &&& columns_of(name, k as int) <= max_width - 3
            &&& k < name.len() ==> columns_of(name, (k + 1) as int) > max_width - 3
        }),
{
    lemma_fitting_len(name, (max_width - 3) as nat, 0, 0);
}

/// Names are left whole exactly when the table as it stands (31 columns of
/// borders and padding, the other columns, the widest name) fits the terminal,
/// or when what the other columns leave is no wider than the header "Name";
/// otherwise the limit is what they leave, narrower than the widest name.
pub proof fn lemma_name_limit_cases(ts: Seq<Torrent>, term_width: usize)
    ensures
        name_limit_of(ts, term_width) is None <==> (
            31 + fixed_width(ts) + column_width(ts, Column::Name) <= term_width
            || term_width <= 31 + fixed_width(ts) + 4
        ),
        name_limit_of(ts, term_width) matches Some(a) ==> (
            a + 31 + fixed_width(ts) == term_width && a < column_width(ts, Column::Name)
        ),
{
}

/// When names must be cut, the limit leaves room for more than the header
/// "Name", and the table then fills the terminal exactly.
pub proof fn lemma_name_limit_fills_terminal(ts: Seq<Torrent>, term_width: usize)
    ensures
        name_limit_of(ts, term_width) matches Some(a) ==> a > 4 && 31 + fixed_width(ts) + a == term_width,
{
}


/// 2^52 · 1000: `x / 1000` is at least 2^52 exactly when `x` is at least this.
pub open spec fn ratio_low() -> nat {
    4503599627370496000
}

/// 2^53 · 1000.
pub open spec fn ratio_high() -> nat {
    9007199254740992000
}

/// The smallest power of two `s`, from the given one on (doubling at most
/// `fuel` times), with `x · s` at least 2^52 · 1000: then `x / 1000` scaled by
/// `s` has 53 significant bits in front of the point.
pub open spec fn up_scale(x: nat, s: nat, fuel: nat) -> nat
    decreases fuel,
{
    if fuel == 0 || x * s >= ratio_low() { s } else { up_scale(x, 2 * s, (fuel - 1) as nat) }
}

/// The smallest power of two `d`, from the given one on (doubling at most
/// `fuel` times), with `x` below 2^53 · 1000 · `d`.
pub open spec fn down_scale(x: nat, d: nat, fuel: nat) -> nat
    decreases fuel,
{
    if fuel == 0 || x < ratio_high() * d { d } else { down_scale(x, 2 * d, (fuel - 1) as nat) }
}

/// The thousandths that `{:.3}` prints for `(r as f64) / 1000.0`: the
/// conversion rounds `r` to the nearest double; the division rounds `x / 1000`
/// to the nearest double, a 53-bit significand scaled by a power of two (found
/// by `up_scale` for quotients below 2^53, by `down_scale` above), ties to
/// even; printing rounds the exact thousandths of that double, ties to even.
pub open spec fn ratio_thousandths(r: u64) -> nat {
    let x = f64_value(r as nat);
    if x == 0 {
        0
    } else if x >= ratio_high() {
        let d = down_scale(x, 1, 8);
        div_round_even(x, 1000 * d) * d * 1000
    } else {
        let s = up_scale(x, 1, 64);
        div_round_even(div_round_even(x * s, 1000) * 1000, s)
    }
}

/// Three decimal digits, with leading zeros, of a value below 1000.
pub open spec fn three_digits(n: nat) -> Seq<char> {
    seq![digit_char(n / 100), digit_char((n / 10) % 10), digit_char(n % 10)]
}

/// A share ratio, given in thousandths, as the details show it: with three
/// decimals, as `{:.3}` prints `(r as f64) / 1000.0`.
pub open spec fn format_ratio_text(r: u64) -> Seq<char> {
    let t = ratio_thousandths(r);
    decimal(t / 1000) + seq!['.'] + three_digits(t % 1000)
}

fn thousandths_exec(r: u64) -> (t: u128)
    ensures
        t == ratio_thousandths(r),
{
    let x = f64_value_exec(r);
    if x == 0 {
        return 0;
    }
    if x >= 9007199254740992000 {
        let mut d: u128 = 1;
        let mut fuel: u128 = 8;
        while fuel > 0 && x >= 9007199254740992000 * d
            invariant
                d == 1 || d == 2 || d == 4,
                fuel <= 8,
                x <= 0x1_0000_0000_0000_0000,
                down_scale(x as nat, 1, 8) == down_scale(x as nat, d as nat, fuel as nat),
            decreases fuel,
        {
            d = 2 * d;
            fuel = fuel - 1;
        }
        let m = div_round_even_exec(x, 1000 * d);
        let ghost q: int = x as int / (1000 * d) as int;
        assert(q * (1000 * d) <= x) by (nonlinear_arith)
            requires
                q == x as int / (1000 * d) as int,
                d >= 1,
        ;
        assert(m * d * 1000 <= x + 1000 * d) by (nonlinear_arith)
            requires
                m <= q + 1,
                q * (1000 * d) <= x,
                d >= 1,
        ;
        return m * d * 1000;
    }
    let mut s: u128 = 1;
    let mut fuel: u128 = 64;
    while fuel > 0 && x * s < 4503599627370496000
        invariant
            1 <= x < 9007199254740992000,
            1 <= s < 9007199254740992000,
            x * s < 9007199254740992000,
            fuel <= 64,
            up_scale(x as nat, 1, 64) == up_scale(x as nat, s as nat, fuel as nat),
        decreases fuel,
    {
        assert(s <= x * s) by (nonlinear_arith)
            requires
                x >= 1,
                s >= 1,
        ;
        assert(x * (2 * s) == 2 * (x * s)) by (nonlinear_arith);
        s = 2 * s;
        fuel = fuel - 1;
    }
    let m = div_round_even_exec(x * s, 1000);
    assert(m * 1000 <= x * s + 1000) by (nonlinear_arith)
        requires
            m <= (x * s) / 1000 + 1,
    ;
    div_round_even_exec(m * 1000, s)
}

fn push_three_digits(s: &mut String, n: u128)
    requires
        n < 1000,
    ensures
        final(s)@ == old(s)@ + three_digits(n as nat),
{
    push_char(s, digit(n / 100));
    push_char(s, digit((n / 10) % 10));
    push_char(s, digit(n % 10));
    assert(s@ =~= old(s)@ + three_digits(n as nat));
}

/// Writes a share ratio given in thousandths (see [`format_ratio_text`]).
pub fn format_ratio(ratio_thousandths: u64) -> (s: String)
    ensures
        s@ == format_ratio_text(ratio_thousandths),
{
    let t = thousandths_exec(ratio_thousandths);
    let mut s = String::new();
    push_decimal(&mut s, t / 1000);
    push_char(&mut s, '.');
    push_three_digits(&mut s, t % 1000);
    s
}


/// Rounding to the nearest multiple lands within half the divisor.
proof fn lemma_div_round_even_close(a: nat, d: nat)
    requires
        d > 0,
    ensures
        2 * (a - d * div_round_even(a, d)) <= d,
        2 * (d * div_round_even(a, d) - a) <= d,
{
    let q = a / d;
    let r = a % d;
    lemma_fundamental_div_mod(a as int, d as int);
    assert(a == d * q + r);
    assert(d * (q + 1) == d * q + d) by (nonlinear_arith);
}

/// A value within a third of `s` of `r · s` rounds back to `r` at `s`.
proof fn lemma_round_back(b: nat, r: nat, s: nat)
    requires
        s >= 1024,
        2 * (b - r * s) <= 1000,
        2 * (r * s - b) <= 1000,
    ensures
        div_round_even(b, s) == r,
{
    if b >= r * s {
        let e = (b - r * s) as nat;
        assert(b == r * s + e);
        lemma_fundamental_div_mod_converse(b as int, s as int, r as int, e as int);
    } else {
        let e = (r * s - b) as nat;
        assert(r >= 1) by (nonlinear_arith)
            requires
                b < r * s,
        ;
        assert(b == (r - 1) * s + (s - e)) by (nonlinear_arith)
            requires
                e == r * s - b,
                r >= 1,
        ;
        lemma_fundamental_div_mod_converse(b as int, s as int, (r - 1) as int, (s - e) as int);
    }
}

proof fn lemma_up_scale(x: nat, k: nat, fuel: nat) -> (j: nat)
    requires
        x >= 1,
        k + fuel == 64,
        x * pow2(k) < ratio_high(),
    ensures
        up_scale(x, pow2(k), fuel) == pow2(j),
        ratio_low() <= x * pow2(j) < ratio_high(),
    decreases fuel,
{
    if fuel == 0 {
        lemma2_to64();
        assert(x * pow2(k) >= pow2(k)) by (nonlinear_arith)
            requires
                x >= 1,
        ;
        k
    } else if x * pow2(k) >= ratio_low() {
        k
    } else {
        lemma_pow2_unfold(k + 1);
        assert(x * pow2(k + 1) == 2 * (x * pow2(k))) by (nonlinear_arith)
            requires
                pow2(k + 1) == 2 * pow2(k),
        ;
        lemma_up_scale(x, k + 1, (fuel - 1) as nat)
    }
}

/// A ratio below 2^43 · 1000 thousandths is printed exactly: its thousandths
/// with three decimals. (Above that the `f64` quotient is too coarse, and the
/// last digit can differ.)
pub proof fn lemma_ratio_exact(r: u64)
    requires
        r < 8796093022208000,
    ensures
        ratio_thousandths(r) == r,
{
    lemma_f64_exact_below_2_53(r as nat);
    let x = r as nat;
    if x > 0 {
        lemma2_to64();
        let j = lemma_up_scale(x, 0, 64);
        let s = pow2(j);
        lemma_pow2_pos(j);
        assert(s > 512) by (nonlinear_arith)
            requires
                x * s >= 4503599627370496000,
                x < 8796093022208000,
                s > 0,
        ;
        if j < 10 {
            if j < 9 {
                lemma_pow2_strictly_increases(j, 9);
            }
            assert(false);
        }
        if j > 10 {
            lemma_pow2_strictly_increases(10, j);
        }
        assert(s >= 1024);
        let a = x * s;
        let m = div_round_even(a, 1000);
        lemma_div_round_even_close(a, 1000);
        assert(m * 1000 == 1000 * m) by (nonlinear_arith);
        assert(2 * (m * 1000 - x * s) <= 1000);
        assert(2 * (x * s - m * 1000) <= 1000);
        lemma_round_back(m * 1000, x, s);
    }
}


/// The lines at the top of a torrent's details, given the piece size rtorrent
/// reports for it: hash, name, status, size, piece size, completion,
/// downloaded, uploaded, ratio, rates, peers and directory, each after a label
/// padded to twelve columns, then the message if there is one.
pub open spec fn detail_lines_text(t: Torrent, piece_size: u64) -> Seq<Seq<char>> {
    let lines = seq![
        "Hash:       "@ + t.hash@,
        "Name:       "@ + t.name@,
        "Status:     "@ + status_name(t.status),
        "Size:       "@ + format_bytes_text(t.size_bytes),
        "Piece size: "@ + format_bytes_text(piece_size),
        "Done:       "@ + done_percent_text(t.completed_bytes, t.size_bytes),
        "Downloaded: "@ + format_bytes_text(t.down_total),
        "Uploaded:   "@ + format_bytes_text(t.up_total),
        "Ratio:      "@ + format_ratio_text(t.ratio),
        "DL Rate:    "@ + format_rate_text(t.down_rate),
        "UL Rate:    "@ + format_rate_text(t.up_rate),
        "Peers:      "@ + peers_text(t.peers_connected, t.peers_complete),
        "Directory:  "@ + t.directory@,
    ];
    if t.message@.len() == 0 { lines } else { lines.push("Message:    "@ + t.message@) }
}

fn labelled(label: &str, value: String) -> (s: String)
    ensures
        s@ == label@ + value@,
{
    let mut s = String::from_str(label);
    s.append(value.as_str());
    s
}

/// The lines at the top of a torrent's details (see [`detail_lines_text`]).
pub fn detail_lines(t: &Torrent, piece_size: u64) -> (lines: Vec<String>)
    ensures
        lines@.map_values(|s: String| s@) == detail_lines_text(*t, piece_size),
{
    let mut lines: Vec<String> = Vec::new();
    lines.push(labelled("Hash:       ", t.hash.clone()));
    lines.push(labelled("Name:       ", t.name.clone()));
    lines.push(labelled("Status:     ", t.status.to_string()));
    lines.push(labelled("Size:       ", format_bytes(t.size_bytes)));
    lines.push(labelled("Piece size: ", format_bytes(piece_size)));
    lines.push(labelled("Done:       ", done_percent(t.completed_bytes, t.size_bytes)));
    lines.push(labelled("Downloaded: ", format_bytes(t.down_total)));
    lines.push(labelled("Uploaded:   ", format_bytes(t.up_total)));
    lines.push(labelled("Ratio:      ", format_ratio(t.ratio)));
    lines.push(labelled("DL Rate:    ", format_rate(t.down_rate)));
    lines.push(labelled("UL Rate:    ", format_rate(t.up_rate)));
    lines.push(labelled("Peers:      ", format_peers(t.peers_connected, t.peers_complete)));
    lines.push(labelled("Directory:  ", t.directory.clone()));
    if !t.message.as_str().is_empty() {
        lines.push(labelled("Message:    ", t.message.clone()));
    }
    assert(lines@.map_values(|s: String| s@) =~= detail_lines_text(*t, piece_size));
    lines
}

/// Each line of a torrent's details shows its label and the field it names:
/// the hash, the name, the status, the size and the given piece size in
/// bytes, the completion of the size, the downloaded total, the uploaded
/// total, the ratio, the download rate, the upload rate, the connected and
/// complete peers, the directory, then the message when there is one.
pub proof fn lemma_detail_lines_show_fields(t: Torrent, piece_size: u64)
    ensures
        ({
            let l = detail_lines_text(t, piece_size);
            &&& l.len() == if t.message@.len() == 0 { 13nat } else { 14nat }
            &&& l[0] == "Hash:       "@ + t.hash@
            &&& l[1] == "Name:       "@ + t.name@
            &&& l[2] == "Status:     "@ + status_name(t.status)
            &&& l[3] == "Size:       "@ + format_bytes_text(t.size_bytes)
            &&& l[4] == "Piece size: "@ + format_bytes_text(piece_size)
            &&& l[5] == "Done:       "@ + done_percent_text(t.completed_bytes, t.size_bytes)
            &&& l[6] == "Downloaded: "@ + format_bytes_text(t.down_total)
            &&& l[7] == "Uploaded:   "@ + format_bytes_text(t.up_total)
            &&& l[8] == "Ratio:      "@ + format_ratio_text(t.ratio)
            &&& l[9] == "DL Rate:    "@ + format_rate_text(t.down_rate)
            &&& l[10] == "UL Rate:    "@ + format_rate_text(t.up_rate)
            &&& l[11] == "Peers:      "@ + peers_text(t.peers_connected, t.peers_complete)
            &&& l[12] == "Directory:  "@ + t.directory@
            &&& t.message@.len() != 0 ==> l[13] == "Message:    "@ + t.message@
        }),
{
}

/// The details and the list agree: after its label, each line of the details
/// that the list also shows holds the same text as the list's cell for it
/// (size, status, completion, uploaded, downloaded, rates, peers).
pub proof fn lemma_detail_agrees_with_list(t: Torrent, piece_size: u64, row: Seq<String>, name_limit: Option<usize>)
    requires
        list_row_matches(row, t, name_limit),
    ensures
        ({
            let l = detail_lines_text(t, piece_size);
            &&& l[2] == "Status:     "@ + row[3]@
            &&& l[3] == "Size:       "@ + row[2]@
            &&& l[5] == "Done:       "@ + row[4]@
            &&& l[6] == "Downloaded: "@ + row[6]@
            &&& l[7] == "Uploaded:   "@ + row[5]@
            &&& l[9] == "DL Rate:    "@ + row[8]@
            &&& l[10] == "UL Rate:    "@ + row[7]@
            &&& l[11] == "Peers:      "@ + row[9]@
        }),
{
}

/// A torrent's row in the list shows, in order: the hash, the name, its size,
/// its status, how much of the size is done, the uploaded total, the
/// downloaded total, the upload rate, the download rate and the connected and
/// complete peers.
pub proof fn lemma_list_row_cells(t: Torrent, name_limit: Option<usize>, row: Seq<String>)
    requires
        list_row_matches(row, t, name_limit),
    ensures
        row.len() == 10,
        row[1]@ == (if name_limit is None { t.name@ } else { truncated_name(t.name@, name_limit->0) }),
        row[2]@ == format_bytes_text(t.size_bytes),
        row[3]@ == status_name(t.status),
        row[4]@ == done_percent_text(t.completed_bytes, t.size_bytes),
        row[5]@ == format_bytes_text(t.up_total),
        row[6]@ == format_bytes_text(t.down_total),
        row[7]@ == format_rate_text(t.up_rate),
        row[8]@ == format_rate_text(t.down_rate),
        row[9]@ == decimal(t.peers_connected as nat) + "/"@ + decimal(t.peers_complete as nat),
{
    reveal_strlit("/");
    assert("/"@ =~= seq!['/']);
}

/// A file's row shows its path, its size, how many of its chunks are done,
/// and its priority in decimal.
pub proof fn lemma_file_row_cells(f: TorrentFile, row: Seq<String>)
    requires
        file_row_matches(row, f),
    ensures
        row.len() == 4,
        row[0]@ == f.path@,
        row[1]@ == format_bytes_text(f.size_bytes),
        row[2]@ == done_percent_text(f.completed_chunks, f.size_chunks),
        row[3]@ == decimal(f.priority as nat),
{
}

/// A tracker's row shows its URL, `yes` or `no` for whether it is enabled,
/// then its seeds and its leeches in decimal.
pub proof fn lemma_tracker_row_cells(tr: Tracker, row: Seq<String>)
    requires
        tracker_row_matches(row, tr),
    ensures
        row.len() == 4,
        row[0]@ == tr.url@,
        row[1]@ == (if tr.enabled { "yes"@ } else { "no"@ }),
        row[2]@ == decimal(tr.scrape_complete as nat),
        row[3]@ == decimal(tr.scrape_incomplete as nat),
{
}

/// A peer's row shows its address, its client, its completion in percent, its
/// download rate, its upload rate, and `yes` or `no` for encryption.
pub proof fn lemma_peer_row_cells(p: Peer, row: Seq<String>)
    requires
        peer_row_matches(row, p),
    ensures
        row.len() == 6,
        row[0]@ == p.address@,
        row[1]@ == p.client_version@,
        row[2]@ == decimal(p.completed_percent as nat) + "%"@,
        row[3]@ == format_rate_text(p.down_rate),
        row[4]@ == format_rate_text(p.up_rate),
        row[5]@ == (if p.is_encrypted { "yes"@ } else { "no"@ }),
{
}

/// A width of 0 means unlimited: no name is cut, whatever the terminal.
pub proof fn lemma_zero_width_is_unlimited(ts: Seq<Torrent>, terminal_width: Option<u16>)
    ensures
        list_name_limit(ts, Some(0u16), terminal_width) is None,
{
}

} // verus!
