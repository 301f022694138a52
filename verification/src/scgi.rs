//! SCGI framing of requests to rtorrent and reading of its replies.
use vstd::prelude::*;
use vstd::string::*;
use vstd::utf8::*;
use vstd::slice::slice_subrange;
use crate::error::{Error, ErrorView};
use crate::text::{decimal, u64_to_decimal, contains, starts_with, occurs_in, is_prefix_of};

verus! {

/// The header block of a request carrying a body of `content_length` bytes:
/// each name and value followed by a NUL byte — `CONTENT_LENGTH`, `SCGI` = 1,
/// `REQUEST_METHOD` = POST, `REQUEST_URI` = /RPC2, `CONTENT_TYPE` = application/json.
pub open spec fn scgi_headers(content_length: nat) -> Seq<u8> {
    encode_utf8("CONTENT_LENGTH"@) + seq![0u8] + encode_utf8(decimal(content_length)) + seq![0u8]
        + encode_utf8("SCGI"@) + seq![0u8] + encode_utf8("1"@) + seq![0u8]
        + encode_utf8("REQUEST_METHOD"@) + seq![0u8] + encode_utf8("POST"@) + seq![0u8]
        + encode_utf8("REQUEST_URI"@) + seq![0u8] + encode_utf8("/RPC2"@) + seq![0u8]
        + encode_utf8("CONTENT_TYPE"@) + seq![0u8] + encode_utf8("application/json"@) + seq![0u8]
}

/// A whole SCGI request: the header block as a netstring (its length in
/// decimal, `:`, the block, `,`), then the body.
pub open spec fn scgi_request(body: Seq<u8>) -> Seq<u8> {
    let headers = scgi_headers(body.len());
    encode_utf8(decimal(headers.len())) + seq![58u8] + headers + seq![44u8] + body
}

fn append_bytes(v: &mut Vec<u8>, b: &[u8])
    ensures
        final(v)@ == old(v)@ + b@,
{
    let mut i: usize = 0;
    while i < b.len()
        invariant
            0 <= i <= b.len(),
            v@ == old(v)@ + b@.take(i as int),
        decreases b.len() - i,
    {
        v.push(b[i]);
        assert(b@.take(i + 1) =~= b@.take(i as int).push(b@[i as int]));
        i = i + 1;
    }
    assert(b@.take(b.len() as int) =~= b@);
}

fn append_text(v: &mut Vec<u8>, s: &str)
    ensures
        final(v)@ == old(v)@ + encode_utf8(s@),
{
    append_bytes(v, s.as_bytes());
}

fn append_header(v: &mut Vec<u8>, name: &str, value: &str)
    ensures
        final(v)@ == old(v)@ + encode_utf8(name@) + seq![0u8] + encode_utf8(value@) + seq![0u8],
{
    append_text(v, name);
    v.push(0);
    append_text(v, value);
    v.push(0);
    assert(v@ =~= old(v)@ + encode_utf8(name@) + seq![0u8] + encode_utf8(value@) + seq![0u8]);
}

/// Frames a request body for rtorrent's SCGI port.
pub fn encode_request(body: &[u8]) -> (request: Vec<u8>)
    ensures
        request@ == scgi_request(body@),
{
    let content_length = u64_to_decimal(body.len() as u64);
    let mut headers: Vec<u8> = Vec::new();
    append_header(&mut headers, "CONTENT_LENGTH", content_length.as_str());
    append_header(&mut headers, "SCGI", "1");
    append_header(&mut headers, "REQUEST_METHOD", "POST");
    append_header(&mut headers, "REQUEST_URI", "/RPC2");
    append_header(&mut headers, "CONTENT_TYPE", "application/json");
    assert(headers@ =~= scgi_headers(body@.len()));
    let header_length = u64_to_decimal(headers.len() as u64);
    let mut request: Vec<u8> = Vec::new();
    append_text(&mut request, header_length.as_str());
    request.push(58);
    append_bytes(&mut request, headers.as_slice());
    request.push(44);
    append_bytes(&mut request, body);
    assert(request@ =~= scgi_request(body@));
    request
}

/// An address is reached over TCP when it holds a `:` and does not start
/// with `/`; otherwise it is a Unix socket path.
pub open spec fn tcp_address(url: Seq<char>) -> bool {
    occurs_in(":"@, url) && !is_prefix_of("/"@, url)
}

/// Whether the address is reached over TCP rather than a Unix socket.
pub fn is_tcp_url(url: &str) -> (r: bool)
    ensures
        r == tcp_address(url@),
{
    contains(url, ":") && !starts_with(url, "/")
}


/// The text `String::from_utf8_lossy` makes of bytes: valid UTF-8 decoded,
/// each invalid sequence replaced by U+FFFD.
pub uninterp spec fn utf8_lossy(bytes: Seq<u8>) -> Seq<char>;

/// std `String::from_utf8_lossy`: its result is named `utf8_lossy` of the
/// bytes. As the documentation has it, valid UTF-8 comes through unchanged and
/// only invalid sequences are replaced: bytes that are valid UTF-8 are decoded
/// as they are, and a valid leading part is decoded as it is, followed by
/// what the rest of the bytes become on their own. What an invalid sequence
/// becomes is left to the name.
#[verifier::external_body]
fn lossy_text(bytes: &[u8]) -> (s: String)
    ensures
        s@ == utf8_lossy(bytes@),
        valid_utf8(bytes@) ==> s@ == decode_utf8(bytes@),
        forall|i: int| 0 <= i <= bytes@.len() && #[trigger] valid_utf8(bytes@.take(i))
            ==> s@ == decode_utf8(bytes@.take(i)) + utf8_lossy(bytes@.skip(i)),
{
    String::from_utf8_lossy(bytes).into_owned()
}

/// The first position, at or after `from`, where `\r\n\r\n` starts in `b`.
pub open spec fn blank_line_from(b: Seq<u8>, from: int) -> Option<int>
    decreases b.len() - from,
{
    if from < 0 || from + 4 > b.len() {
        None
    } else if b.subrange(from, from + 4) == seq![13u8, 10u8, 13u8, 10u8] {
        Some(from)
    } else {
        blank_line_from(b, from + 1)
    }
}

/// Where the reply's header ends: the byte position of the first `\r\n\r\n` in
/// the reply read as text, invalid UTF-8 replaced (as the reply is searched).
pub open spec fn header_end(response: Seq<u8>) -> Option<int> {
    blank_line_from(encode_utf8(utf8_lossy(response)), 0)
}

/// The body can be cut out: the position found in the text, taken as a byte
/// position in the reply, leaves the four delimiter bytes inside the reply
/// (always so when the header is valid UTF-8).
pub open spec fn body_in_reply(response: Seq<u8>) -> bool {
    match header_end(response) {
        Some(p) => p + 4 <= response.len(),
        None => true,
    }
}

/// What reading a reply gives: what follows the header, or the error for a
/// reply without one.
pub open spec fn body_outcome(response: Seq<u8>) -> Result<Seq<u8>, ErrorView> {
    match header_end(response) {
        Some(p) => Ok(response.skip(p + 4)),
        None => Err(ErrorView::Scgi("missing HTTP header delimiter in response"@)),
    }
}

/// What reading a reply gives when it is searched as raw bytes: what follows
/// the first `\r\n\r\n`, or the error for a reply without one.
pub open spec fn raw_body_outcome(response: Seq<u8>) -> Result<Seq<u8>, ErrorView> {
    match blank_line_from(response, 0) {
        Some(p) => Ok(response.skip(p + 4)),
        None => Err(ErrorView::Scgi("missing HTTP header delimiter in response"@)),
    }
}

/// The header of a reply is text: the bytes before its first raw `\r\n\r\n`
/// (all of it, when there is none) are valid UTF-8.
pub open spec fn header_is_text(response: Seq<u8>) -> bool {
    match blank_line_from(response, 0) {
        Some(p) => valid_utf8(response.take(p)),
        None => valid_utf8(response),
    }
}

proof fn lemma_blank_line_inside(b: Seq<u8>, from: int)
    ensures
        match blank_line_from(b, from) {
            Some(p) => from <= p && p + 4 <= b.len() && b.subrange(p, p + 4) == seq![13u8, 10u8, 13u8, 10u8],
            None => true,
        },
    decreases b.len() - from,
{
    if from < 0 || from + 4 > b.len() {
    } else if b.subrange(from, from + 4) == seq![13u8, 10u8, 13u8, 10u8] {
    } else {
        lemma_blank_line_inside(b, from + 1);
    }
}

/// Two byte sequences that agree on their first `n` bytes have the same first
/// `\r\n\r\n`, when it ends within those `n` bytes.
proof fn lemma_blank_line_same_start(a: Seq<u8>, b: Seq<u8>, n: int, from: int)
    requires
        0 <= from,
        n <= a.len(),
        n <= b.len(),
        forall|j: int| 0 <= j < n ==> a[j] == b[j],
        blank_line_from(a, from) matches Some(p) && p + 4 <= n,
    ensures
        blank_line_from(b, from) == blank_line_from(a, from),
    decreases a.len() - from,
{
    lemma_blank_line_inside(a, from);
    assert(a.subrange(from, from + 4) =~= b.subrange(from, from + 4));
    if a.subrange(from, from + 4) != seq![13u8, 10u8, 13u8, 10u8] {
        lemma_blank_line_same_start(a, b, n, from + 1);
    }
}

proof fn lemma_encode_concat(a: Seq<char>, b: Seq<char>)
    ensures
        encode_utf8(a + b) == encode_utf8(a) + encode_utf8(b),
    decreases a.len(),
{
    if a.len() == 0 {
        assert(a + b =~= b);
        assert(encode_utf8(a) + encode_utf8(b) =~= encode_utf8(b));
    } else {
        assert((a + b).drop_first() =~= a.drop_first() + b);
        lemma_encode_concat(a.drop_first(), b);
        assert(encode_utf8(a + b) =~= encode_utf8(a) + encode_utf8(b));
    }
}

/// For a reply whose header is text, the text searched finds the raw
/// delimiter, so the body is cut where the raw bytes say.
proof fn lemma_text_header(response: Seq<u8>, text: Seq<char>)
    requires
        text == utf8_lossy(response),
        valid_utf8(response) ==> text == decode_utf8(response),
        forall|i: int| 0 <= i <= response.len() && #[trigger] valid_utf8(response.take(i))
            ==> text == decode_utf8(response.take(i)) + utf8_lossy(response.skip(i)),
        header_is_text(response),
    ensures
        header_end(response) == blank_line_from(response, 0),
        body_in_reply(response),
        body_outcome(response) == raw_body_outcome(response),
{
    lemma_blank_line_inside(response, 0);
    match blank_line_from(response, 0) {
        None => {
            decode_utf8_encode_utf8(response);
        },
        Some(p) => {
            let delim = seq![13u8, 10u8, 13u8, 10u8];
            assert(valid_utf8(delim)) by {
                reveal_with_fuel(valid_utf8, 5);
                assert(delim.subrange(1, 4) =~= seq![10u8, 13u8, 10u8]);
            }
            let head = response.take(p + 4);
            assert(head =~= response.take(p) + delim);
            valid_utf8_concat(response.take(p), delim);
            assert(valid_utf8(response.take(p + 4)));
            let rest = utf8_lossy(response.skip(p + 4));
            assert(text == decode_utf8(head) + rest);
            lemma_encode_concat(decode_utf8(head), rest);
            decode_utf8_encode_utf8(head);
            let enc = encode_utf8(text);
            assert(enc == head + encode_utf8(rest));
            lemma_blank_line_same_start(response, enc, p + 4, 0);
        },
    }
}

fn find_blank_line(b: &[u8]) -> (r: Option<usize>)
    ensures
        match r {
            Some(i) => blank_line_from(b@, 0) == Some(i as int),
            None => blank_line_from(b@, 0) is None,
        },
{
    let mut i: usize = 0;
    while i < b.len() && b.len() - i >= 4
        invariant
            0 <= i <= b.len(),
            blank_line_from(b@, 0) == blank_line_from(b@, i as int),
        decreases b.len() - i,
    {
        if b[i] == 13 && b[i + 1] == 10 && b[i + 2] == 13 && b[i + 3] == 10 {
            assert(b@.subrange(i as int, i + 4) =~= seq![13u8, 10u8, 13u8, 10u8]);
            return Some(i);
        }
        assert(b@.subrange(i as int, i + 4)[0] == b@[i as int]);
        assert(b@.subrange(i as int, i + 4)[1] == b@[i + 1]);
        assert(b@.subrange(i as int, i + 4)[2] == b@[i + 2]);
        assert(b@.subrange(i as int, i + 4)[3] == b@[i + 3]);
        i = i + 1;
    }
    None
}

/// Cuts the body out of a reply from rtorrent.
pub fn response_body(response: &[u8]) -> (r: Result<Vec<u8>, Error>)
    requires
        body_in_reply(response@),
    ensures
        match body_outcome(response@) {
            Ok(b) => r matches Ok(v) && v@ == b,
            Err(e) => r matches Err(x) && x@ == e,
        },
        header_is_text(response@) ==> match raw_body_outcome(response@) {
            Ok(b) => r matches Ok(v) && v@ == b,
            Err(e) => r matches Err(x) && x@ == e,
        },
{
    let text = lossy_text(response);
    proof {
        if header_is_text(response@) {
            lemma_text_header(response@, text@);
        }
    }
    let bytes = text.as_str().as_bytes();
    assert(bytes@ == encode_utf8(utf8_lossy(response@)));
    match find_blank_line(bytes) {
        Some(pos) => {
            assert(header_end(response@) == Some(pos as int));
            let n = response.len();
            assert(pos + 4 <= n);
            let mut body: Vec<u8> = Vec::new();
            append_bytes(&mut body, slice_subrange(response, pos + 4, n));
            assert(response@.subrange(pos + 4, response@.len() as int) =~= response@.skip(pos + 4));
            Ok(body)
        },
        None => Err(Error::Scgi(String::from_str("missing HTTP header delimiter in response"))),
    }
}

/// Cuts the body out of a reply, or gives nothing where the delimiter's
/// position would fall outside the reply (the one case [`response_body`]
/// leaves out).
pub fn checked_response_body(response: &[u8]) -> (r: Option<Result<Vec<u8>, Error>>)
    ensures
        match r {
            Some(res) => body_in_reply(response@) && match body_outcome(response@) {
                Ok(b) => res matches Ok(v) && v@ == b,
                Err(e) => res matches Err(x) && x@ == e,
            },
            None => !body_in_reply(response@),
        },
        header_is_text(response@) ==> match raw_body_outcome(response@) {
            Ok(b) => r matches Some(Ok(v)) && v@ == b,
            Err(e) => r matches Some(Err(x)) && x@ == e,
        },
{
    let text = lossy_text(response);
    proof {
        if header_is_text(response@) {
            lemma_text_header(response@, text@);
        }
    }
    let bytes = text.as_str().as_bytes();
    assert(bytes@ == encode_utf8(utf8_lossy(response@)));
    match find_blank_line(bytes) {
        Some(pos) => if pos > response.len() || response.len() - pos < 4 {
            return None;
        },
        None => {},
    }
    Some(response_body(response))
}


/// A request ends with its body, right after the `,` that closes the header
/// netstring, and the header block states the body's length.
pub proof fn lemma_request_ends_with_body(body: Seq<u8>)
    ensures
        ({
            let r = scgi_request(body);
            let start = r.len() - body.len();
            &&& start >= 1
            &&& r[start - 1] == 44u8
            &&& r.skip(start) == body
        }),
{
    let r = scgi_request(body);
    let start = r.len() - body.len();
    assert(r.skip(start) =~= body);
}

} // verus!
