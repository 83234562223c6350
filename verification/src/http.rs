//! The moderation server's side of HTTP: reading requests, routing them, and
//! writing answers.
use vstd::prelude::*;
use vstd::utf8::{decode_utf8, encode_utf8, is_continuation_byte, valid_utf8};

use crate::auth::{
    login_role, logged_out, looked_up, normalized, opt_token, who_of, Auth, ModRole, Moderators,
    SessionView, is_token, SESSION_MAX_AGE_SECS,
};
use crate::hex::{hex_pair, hex_pair_of};
use crate::json::{err_json, error_body};
use crate::ledger::opt_text;
use crate::moderation::{bad_score, bad_score_text, HttpCmd, MAX_SCORE};
use crate::pages::{login_of, login_page, monitor_of, monitor_page};
use crate::text::{
    chars_of, decimal, decimal_of, eq_ignore_ascii_case, has_prefix, lines, lines_of, lower_of,
    parse_u32, parse_u64, parse_unsigned, parse_unsigned_of, same_chars, same_text, split,
    split_of, split_once, split_once_of, strip_prefix, strip_prefix_of, strip_suffix,
    strip_suffix_of, text_of, trim_chars, trim_of, views, words, words_of,
};
use crate::text::{
    blanks_are_white_space, decimal_reads_back, is_space, is_word, lacks, line_feeds_end_lines,
    numerals_are_digits, prefixes_and_suffixes_come_off, texts_are_parted_at_the_first,
    trimming_takes_the_blanks_off, white_space_parts_words, without_cr,
};

verus! {

/// The cookie that holds the session token.
pub const COOKIE_NAME: &'static str = "pong_mod";

/// A request head that is longer than this is not read on.
pub const MAX_HEAD: usize = 65_536;

// ---------------------------------------------------------------------------
// Answers
// ---------------------------------------------------------------------------

/// An answer.
pub struct HttpResp {
    pub status: u16,
    pub content_type: &'static str,
    pub body: String,
    pub headers: Vec<(String, String)>,
}

pub struct RespView {
    pub status: u16,
    pub content_type: Seq<char>,
    pub body: Seq<char>,
    pub headers: Seq<(Seq<char>, Seq<char>)>,
}

pub open spec fn header_views(v: Seq<(String, String)>) -> Seq<(Seq<char>, Seq<char>)> {
    Seq::new(v.len(), |i: int| (v[i].0@, v[i].1@))
}

impl View for HttpResp {
    type V = RespView;

    open spec fn view(&self) -> RespView {
        RespView {
            status: self.status,
            content_type: self.content_type@,
            body: self.body@,
            headers: header_views(self.headers@),
        }
    }
}

pub open spec fn html_of(status: u16, body: Seq<char>) -> RespView {
    RespView { status, content_type: "text/html; charset=utf-8"@, body, headers: Seq::empty() }
}

pub open spec fn json_of(status: u16, body: Seq<char>) -> RespView {
    RespView {
        status,
        content_type: "application/json; charset=utf-8"@,
        body,
        headers: Seq::empty(),
    }
}

pub open spec fn redirect_of(location: Seq<char>) -> RespView {
    RespView {
        status: 302,
        content_type: "text/plain; charset=utf-8"@,
        body: Seq::empty(),
        headers: seq![("Location"@, location)],
    }
}

pub open spec fn with_header(r: RespView, name: Seq<char>, value: Seq<char>) -> RespView {
    RespView { headers: r.headers.push((name, value)), ..r }
}

impl HttpResp {
    pub fn html(status: u16, body: String) -> (r: HttpResp)
        ensures
            r@ == html_of(status, body@),
    {
        let r = HttpResp {
            status,
            content_type: "text/html; charset=utf-8",
            body,
            headers: Vec::new(),
        };
        assert(r@.headers =~= Seq::empty());
        r
    }

    pub fn json(status: u16, body: String) -> (r: HttpResp)
        ensures
            r@ == json_of(status, body@),
    {
        let r = HttpResp {
            status,
            content_type: "application/json; charset=utf-8",
            body,
            headers: Vec::new(),
        };
        assert(r@.headers =~= Seq::empty());
        r
    }

    pub fn redirect(location: &str) -> (r: HttpResp)
        ensures
            r@ == redirect_of(location@),
    {
        let mut headers: Vec<(String, String)> = Vec::new();
        headers.push(("Location".to_owned(), location.to_owned()));
        let r = HttpResp {
            status: 302,
            content_type: "text/plain; charset=utf-8",
            body: String::new(),
            headers,
        };
        assert(r@.headers =~= seq![("Location"@, location@)]);
        r
    }

    /// Adds a header.
    pub fn add_header(&mut self, name: &str, value: String)
        ensures
            final(self)@ == with_header(old(self)@, name@, value@),
    {
        self.headers.push((name.to_owned(), value));
        assert(self@.headers =~= old(self)@.headers.push((name@, value@)));
    }

    /// The text of the answer as it goes over the wire.
    pub fn to_text(&self) -> (r: String)
        ensures
            r@ == wire_text(self@),
    {
        let mut out = String::new();
        out.append("HTTP/1.1 ");
        out.append(decimal(self.status as u64).as_str());
        out.append("\r\nContent-Type: ");
        out.append(self.content_type);
        out.append("\r\nContent-Length: ");
        out.append(decimal(self.body.as_str().as_bytes().len() as u64).as_str());
        out.append("\r\nCache-Control: no-store\r\nConnection: close");
        assert(out@ =~= wire_start(self@));
        let mut i: usize = 0;
        assert(self@.headers.take(0) =~= Seq::empty());
        assert(out@ =~= wire_start(self@) + wire_headers(self@.headers.take(0)));
        while i < self.headers.len()
            invariant
                0 <= i <= self.headers.len(),
                out@ == wire_start(self@) + wire_headers(self@.headers.take(i as int)),
            decreases self.headers.len() - i,
        {
            let ghost before = out@;
            out.append("\r\n");
            out.append(self.headers[i].0.as_str());
            out.append(": ");
            out.append(self.headers[i].1.as_str());
            let ghost h = self@.headers.take(i + 1);
            assert(h.drop_last() =~= self@.headers.take(i as int));
            assert(out@ =~= wire_start(self@) + wire_headers(h));
            i += 1;
        }
        assert(self@.headers.take(self@.headers.len() as int) =~= self@.headers);
        out.append("\r\n\r\n");
        out.append(self.body.as_str());
        assert(out@ =~= wire_text(self@));
        out
    }
}

/// The status line and the headers that every answer has.
pub open spec fn wire_start(r: RespView) -> Seq<char> {
    "HTTP/1.1 "@ + decimal_of(r.status as nat) + "\r\nContent-Type: "@ + r.content_type
        + "\r\nContent-Length: "@ + decimal_of(encode_utf8(r.body).len())
        + "\r\nCache-Control: no-store\r\nConnection: close"@
}

/// The further headers.
pub open spec fn wire_headers(h: Seq<(Seq<char>, Seq<char>)>) -> Seq<char>
    decreases h.len(),
{
    if h.len() == 0 {
        Seq::empty()
    } else {
        wire_headers(h.drop_last()) + "\r\n"@ + h.last().0 + ": "@ + h.last().1
    }
}

/// An answer as text.
pub open spec fn wire_text(r: RespView) -> Seq<char> {
    wire_start(r) + wire_headers(r.headers) + "\r\n\r\n"@ + r.body
}

// ---------------------------------------------------------------------------
// Cookies
// ---------------------------------------------------------------------------

/// The token in one of the pieces of a cookie header, from piece `i` on.
pub open spec fn token_from(pieces: Seq<Seq<char>>, i: int) -> Option<Seq<char>>
    decreases pieces.len() - i,
{
    if i < 0 || i >= pieces.len() {
        None
    } else {
        match split_once_of(trim_of(pieces[i]), '=') {
            Some((k, v)) => if lower_of(trim_of(k)) == lower_of(COOKIE_NAME@) {
                Some(trim_of(v))
            } else {
                token_from(pieces, i + 1)
            },
            None => token_from(pieces, i + 1),
        }
    }
}

/// The session token in a cookie header.
pub open spec fn cookie_token_of(value: Seq<char>) -> Option<Seq<char>> {
    token_from(split_of(value, ';'), 0)
}

/// Finds the session token in the value of a cookie header.
pub fn cookie_token(value: &str) -> (r: Option<String>)
    ensures
        opt_text(r) == cookie_token_of(value@),
{
    let v = chars_of(value);
    let pieces = split(&v, ';');
    let ghost ps = views(pieces@);
    let mut i: usize = 0;
    while i < pieces.len()
        invariant
            0 <= i <= pieces.len(),
            ps == views(pieces@),
            ps == split_of(value@, ';'),
            token_from(ps, 0) == token_from(ps, i as int),
        decreases pieces.len() - i,
    {
        assert(ps[i as int] == pieces@[i as int]@);
        let piece = trim_chars(&pieces[i]);
        match split_once(&piece, '=') {
            Some((k, val)) => {
                let name = trim_chars(&k);
                if eq_ignore_ascii_case(&name, COOKIE_NAME) {
                    let t = trim_chars(&val);
                    return Some(text_of(&t));
                }
            },
            None => {},
        }
        i += 1;
    }
    None
}

pub open spec fn set_cookie_of(token: Seq<char>) -> Seq<char> {
    COOKIE_NAME@ + "="@ + token + "; HttpOnly; SameSite=Strict; Path=/; Max-Age="@ + decimal_of(
        SESSION_MAX_AGE_SECS as nat,
    )
}

pub open spec fn clear_cookie_of() -> Seq<char> {
    COOKIE_NAME@ + "=; HttpOnly; SameSite=Strict; Path=/; Max-Age=0"@
}

/// The header that hands the token to the browser.
pub fn set_cookie_header(token: &str) -> (r: String)
    ensures
        r@ == set_cookie_of(token@),
{
    let mut out = COOKIE_NAME.to_owned();
    out.append("=");
    out.append(token);
    out.append("; HttpOnly; SameSite=Strict; Path=/; Max-Age=");
    out.append(decimal(SESSION_MAX_AGE_SECS).as_str());
    out
}

/// The header that makes the browser forget the token.
pub fn clear_cookie_header() -> (r: String)
    ensures
        r@ == clear_cookie_of(),
{
    let mut out = COOKIE_NAME.to_owned();
    out.append("=; HttpOnly; SameSite=Strict; Path=/; Max-Age=0");
    out
}

// ---------------------------------------------------------------------------
// Form fields
// ---------------------------------------------------------------------------

/// The text that bytes are taken for where they may not be UTF-8.
pub uninterp spec fn lossy_text(bytes: Seq<u8>) -> Seq<char>;

/// `String::from_utf8_lossy`: UTF-8 is decoded; what stands for other bytes is
/// left to that function, a function of the bytes alone.
#[verifier::external_body]
fn lossy(bytes: &[u8]) -> (r: String)
    ensures
        r@ == lossy_text(bytes@),
        valid_utf8(bytes@) ==> r@ == decode_utf8(bytes@),
{
    String::from_utf8_lossy(bytes).into_owned()
}

/// The bytes behind `+` for a space and `%XX` for any byte; a `%` that is not
/// followed by two digits stands for itself, as do the last two characters.
pub open spec fn unescaped(b: Seq<u8>) -> Seq<u8>
    decreases b.len(),
{
    if b.len() == 0 {
        b
    } else if b[0] == 0x2b {
        seq![0x20u8] + unescaped(b.skip(1))
    } else if b[0] == 0x25 && b.len() > 2 {
        match hex_pair_of(b[1], b[2]) {
            Some(v) => seq![v] + unescaped(b.skip(3)),
            None => seq![b[0]] + unescaped(b.skip(1)),
        }
    } else {
        seq![b[0]] + unescaped(b.skip(1))
    }
}

/// Whether no escape ends in the middle of a character.
pub open spec fn escapes_whole(b: Seq<u8>) -> bool
    decreases b.len(),
{
    if b.len() == 0 {
        true
    } else if b[0] == 0x25 && b.len() > 2 {
        &&& b.len() > 3 ==> !is_continuation_byte(b[3])
        &&& match hex_pair_of(b[1], b[2]) {
            Some(v) => escapes_whole(b.skip(3)),
            None => escapes_whole(b.skip(1)),
        }
    } else {
        escapes_whole(b.skip(1))
    }
}

/// Tells whether no escape in a text ends in the middle of a character.
pub fn decodable(s: &str) -> (r: bool)
    ensures
        r == escapes_whole(encode_utf8(s@)),
{
    let b = s.as_bytes();
    let mut i: usize = 0;
    assert(b@.skip(0) =~= b@);
    while i < b.len()
        invariant
            0 <= i <= b.len(),
            b@ == encode_utf8(s@),
            escapes_whole(b@) == escapes_whole(b@.skip(i as int)),
        decreases b.len() - i,
    {
        let ghost t = b@.skip(i as int);
        assert(t[0] == b@[i as int]);
        assert(t.skip(1) =~= b@.skip(i + 1));
        if b[i] == 0x25 && b.len() - i > 2 {
            assert(t[1] == b@[i + 1] && t[2] == b@[i + 2]);
            assert(t.skip(3) =~= b@.skip(i + 3));
            if b.len() - i > 3 {
                let c: u8 = b[i + 3];
                assert(t[3] == c);
                if 0x80 <= c && c <= 0xbf {
                    return false;
                }
            }
            match hex_pair(b[i + 1], b[i + 2]) {
                Some(_) => {
                    i += 3;
                },
                None => {
                    i += 1;
                },
            }
        } else {
            i += 1;
        }
    }
    true
}

/// The value of a form field: its escapes undone.
pub open spec fn url_decoded(s: Seq<char>) -> Seq<char> {
    lossy_text(unescaped(encode_utf8(s)))
}

/// Undoes the escapes of a form field.
pub fn url_decode(s: &str) -> (r: String)
    requires
        escapes_whole(encode_utf8(s@)),
    ensures
        r@ == url_decoded(s@),
        valid_utf8(unescaped(encode_utf8(s@))) ==> r@ == decode_utf8(unescaped(encode_utf8(s@))),
{
    let b = s.as_bytes();
    let mut out: Vec<u8> = Vec::new();
    let mut i: usize = 0;
    assert(b@.skip(0) =~= b@);
    assert(out@ + unescaped(b@) =~= unescaped(b@));
    while i < b.len()
        invariant
            0 <= i <= b.len(),
            b@ == encode_utf8(s@),
            out@ + unescaped(b@.skip(i as int)) == unescaped(b@),
        decreases b.len() - i,
    {
        let ghost t = b@.skip(i as int);
        let ghost before = out@;
        assert(t[0] == b@[i as int]);
        assert(t.skip(1) =~= b@.skip(i + 1));
        let c: u8 = b[i];
        let escape: Option<u8> = if c == 0x25 && b.len() - i > 2 {
            assert(t[1] == b@[i + 1] && t[2] == b@[i + 2]);
            assert(t.skip(3) =~= b@.skip(i + 3));
            hex_pair(b[i + 1], b[i + 2])
        } else {
            None
        };
        match escape {
            Some(v) => {
                out.push(v);
                assert(before.push(v) + unescaped(t.skip(3)) =~= before + (seq![v] + unescaped(
                    t.skip(3),
                )));
                i += 3;
            },
            None => {
                let v: u8 = if c == 0x2b {
                    0x20
                } else {
                    c
                };
                out.push(v);
                assert(before.push(v) + unescaped(t.skip(1)) =~= before + (seq![v] + unescaped(
                    t.skip(1),
                )));
                i += 1;
            },
        }
    }
    assert(out@ + unescaped(b@.skip(i as int)) =~= out@);
    lossy(out.as_slice())
}

/// The raw value of the first field with this name, from piece `i` on.
pub open spec fn field_from(pieces: Seq<Seq<char>>, key: Seq<char>, i: int) -> Option<Seq<char>>
    decreases pieces.len() - i,
{
    if i < 0 || i >= pieces.len() {
        None
    } else {
        match split_once_of(pieces[i], '=') {
            Some((k, v)) => if k == key {
                Some(v)
            } else {
                field_from(pieces, key, i + 1)
            },
            None => field_from(pieces, key, i + 1),
        }
    }
}

/// The raw value of the first field of a form with this name.
pub open spec fn raw_field_of(body: Seq<char>, key: Seq<char>) -> Option<Seq<char>> {
    field_from(split_of(body, '&'), key, 0)
}

/// The value of the first field of a form with this name.
pub open spec fn field_of(body: Seq<char>, key: Seq<char>) -> Option<Seq<char>> {
    match raw_field_of(body, key) {
        Some(v) => Some(url_decoded(v)),
        None => None,
    }
}

/// Whether a field can be decoded, if it is there.
pub open spec fn field_decodable(body: Seq<char>, key: Seq<char>) -> bool {
    raw_field_of(body, key) matches Some(v) ==> escapes_whole(encode_utf8(v))
}

/// The raw value of a form field.
pub fn raw_field(body: &str, key: &str) -> (r: Option<String>)
    ensures
        opt_text(r) == raw_field_of(body@, key@),
{
    let b = chars_of(body);
    let key_chars = chars_of(key);
    let pieces = split(&b, '&');
    let ghost ps = views(pieces@);
    let mut i: usize = 0;
    while i < pieces.len()
        invariant
            0 <= i <= pieces.len(),
            ps == views(pieces@),
            ps == split_of(body@, '&'),
            key_chars@ == key@,
            field_from(ps, key@, 0) == field_from(ps, key@, i as int),
        decreases pieces.len() - i,
    {
        assert(ps[i as int] == pieces@[i as int]@);
        match split_once(&pieces[i], '=') {
            Some((k, v)) => {
                if same_chars(&k, &key_chars) {
                    return Some(text_of(&v));
                }
            },
            None => {},
        }
        i += 1;
    }
    None
}

/// The value of a form field.
pub fn form_field(body: &str, key: &str) -> (r: Option<String>)
    requires
        field_decodable(body@, key@),
    ensures
        opt_text(r) == field_of(body@, key@),
        r matches Some(t) ==> ({
            let b = unescaped(encode_utf8(raw_field_of(body@, key@)->0));
            valid_utf8(b) ==> t@ == decode_utf8(b)
        }),
{
    match raw_field(body, key) {
        Some(v) => Some(url_decode(v.as_str())),
        None => None,
    }
}

fn can_decode(body: &str, key: &str) -> (r: bool)
    ensures
        r == field_decodable(body@, key@),
{
    match raw_field(body, key) {
        Some(v) => decodable(v.as_str()),
        None => true,
    }
}

// ---------------------------------------------------------------------------
// Paths
// ---------------------------------------------------------------------------

/// The number between `/api/matches/` and an ending.
pub open spec fn match_path(path: Seq<char>, suffix: Seq<char>) -> Option<int> {
    match strip_prefix_of(path, "/api/matches/"@) {
        Some(rest) => match strip_suffix_of(rest, suffix) {
            Some(id) => parse_unsigned_of(id, u64::MAX as int),
            None => None,
        },
        None => None,
    }
}

fn match_in_path(path: &str, suffix: &str) -> (r: Option<u64>)
    ensures
        match r {
            Some(id) => match_path(path@, suffix@) == Some(id as int),
            None => match_path(path@, suffix@) is None,
        },
{
    let p = chars_of(path);
    match strip_prefix(&p, "/api/matches/") {
        Some(rest) => match strip_suffix(&rest, suffix) {
            Some(id) => parse_u64(&id),
            None => None,
        },
        None => None,
    }
}

/// The match of a path that asks to take it back.
pub fn revoke_id(path: &str) -> (r: Option<u64>)
    ensures
        match r {
            Some(id) => match_path(path@, "/revoke"@) == Some(id as int),
            None => match_path(path@, "/revoke"@) is None,
        },
{
    match_in_path(path, "/revoke")
}

/// The match of a path that asks to correct its score.
pub fn score_path(path: &str) -> (r: Option<u64>)
    ensures
        match r {
            Some(id) => match_path(path@, "/score"@) == Some(id as int),
            None => match_path(path@, "/score"@) is None,
        },
{
    match_in_path(path, "/score")
}

// ---------------------------------------------------------------------------
// Request heads
// ---------------------------------------------------------------------------

/// Whether an empty line starts at index `i`.
pub open spec fn blank_at(buf: Seq<u8>, i: int) -> bool {
    &&& 0 <= i
    &&& i + 4 <= buf.len()
    &&& buf[i] == 0x0d
    &&& buf[i + 1] == 0x0a
    &&& buf[i + 2] == 0x0d
    &&& buf[i + 3] == 0x0a
}

/// What is known of a request that has been read so far.
#[derive(Clone, Copy, PartialEq, Eq, Structural, Debug)]
pub enum HeadState {
    /// The head ends here.
    Complete(usize),
    /// More has to be read.
    Partial,
    /// It is too long to go on.
    TooLong,
}

/// Where the head of a request ends, if it does.
pub fn head_state(buf: &Vec<u8>) -> (r: HeadState)
    ensures
        match r {
            HeadState::Complete(end) => blank_at(buf@, end as int) && forall|i: int|
                0 <= i < end ==> !blank_at(buf@, i),
            HeadState::TooLong => buf@.len() > MAX_HEAD && forall|i: int| !blank_at(buf@, i),
            HeadState::Partial => buf@.len() <= MAX_HEAD && forall|i: int| !blank_at(buf@, i),
        },
{
    let n: usize = buf.len();
    let mut i: usize = 0;
    while n - i >= 4
        invariant
            0 <= i <= n,
            n == buf.len(),
            forall|j: int| 0 <= j < i ==> !blank_at(buf@, j),
        decreases n - i,
    {
        if buf[i] == 0x0d && buf[i + 1] == 0x0a && buf[i + 2] == 0x0d && buf[i + 3] == 0x0a {
            return HeadState::Complete(i);
        }
        i += 1;
    }
    if n > MAX_HEAD {
        HeadState::TooLong
    } else {
        HeadState::Partial
    }
}

/// The trimmed value of the first header with this name, from line `i` on.
pub open spec fn header_from(ls: Seq<Seq<char>>, name: Seq<char>, i: int) -> Option<Seq<char>>
    decreases ls.len() - i,
{
    if i < 0 || i >= ls.len() {
        None
    } else {
        match split_once_of(ls[i], ':') {
            Some((k, v)) => if lower_of(k) == lower_of(name) {
                Some(trim_of(v))
            } else {
                header_from(ls, name, i + 1)
            },
            None => header_from(ls, name, i + 1),
        }
    }
}

fn find_header(ls: &Vec<Vec<char>>, name: &str, from: usize) -> (r: Option<Vec<char>>)
    ensures
        match r {
            Some(v) => header_from(views(ls@), name@, from as int) == Some(v@),
            None => header_from(views(ls@), name@, from as int) is None,
        },
{
    let mut i: usize = from;
    let ghost vs = views(ls@);
    while i < ls.len()
        invariant
            from <= i,
            vs == views(ls@),
            header_from(vs, name@, from as int) == header_from(vs, name@, i as int),
        decreases ls.len() - i,
    {
        assert(vs[i as int] == ls@[i as int]@);
        match split_once(&ls[i], ':') {
            Some((k, v)) => {
                if eq_ignore_ascii_case(&k, name) {
                    return Some(trim_chars(&v));
                }
            },
            None => {},
        }
        i += 1;
    }
    None
}

/// What the server reads in a request head.
pub struct Head {
    pub method: String,
    pub path: String,
    pub cookie: Option<String>,
    pub content_length: usize,
}

/// The words of the request line.
pub open spec fn request_words(head: Seq<char>) -> Seq<Seq<char>> {
    if lines_of(head).len() > 0 {
        words_of(lines_of(head)[0])
    } else {
        Seq::empty()
    }
}

pub open spec fn method_of(head: Seq<char>) -> Seq<char> {
    if request_words(head).len() > 0 {
        request_words(head)[0]
    } else {
        Seq::empty()
    }
}

pub open spec fn path_of(head: Seq<char>) -> Seq<char> {
    if request_words(head).len() > 1 {
        request_words(head)[1]
    } else {
        "/"@
    }
}

pub open spec fn cookie_of(head: Seq<char>) -> Option<Seq<char>> {
    match header_from(lines_of(head), "cookie"@, 0) {
        Some(v) => cookie_token_of(v),
        None => None,
    }
}

pub open spec fn length_of(head: Seq<char>) -> int {
    match header_from(lines_of(head), "content-length"@, 1) {
        Some(v) => match parse_unsigned_of(v, usize::MAX as int) {
            Some(n) => n,
            None => 0,
        },
        None => 0,
    }
}

/// Reads a request head: the request line, the session token and the length
/// of the body.
pub fn parse_head(head: &str) -> (r: Head)
    ensures
        r.method@ == method_of(head@),
        r.path@ == path_of(head@),
        opt_text(r.cookie) == cookie_of(head@),
        r.content_length == length_of(head@),
{
    let ls = lines(head);
    let content_length: usize = match find_header(&ls, "content-length", 1) {
        Some(v) => match parse_unsigned(&v, usize::MAX as u64) {
            Some(n) => n as usize,
            None => 0,
        },
        None => 0,
    };
    let cookie = match find_header(&ls, "cookie", 0) {
        Some(v) => {
            let value = text_of(&v);
            cookie_token(value.as_str())
        },
        None => None,
    };
    let mut method = String::new();
    let mut path = "/".to_owned();
    if ls.len() > 0 {
        assert(lines_of(head@)[0] == ls@[0]@);
        let line = text_of(&ls[0]);
        let ws = words(line.as_str());
        if ws.len() > 0 {
            method = text_of(&ws[0]);
        }
        if ws.len() > 1 {
            path = text_of(&ws[1]);
        }
    }
    assert(views(ls@).len() == ls@.len());
    Head { method, path, cookie, content_length }
}

/// The text of the head of what was read.
pub fn head_text(buf: &Vec<u8>, head_end: usize) -> (r: String)
    requires
        head_end <= buf@.len(),
    ensures
        r@ == lossy_text(buf@.take(head_end as int)),
{
    let part = vstd::slice::slice_subrange(buf.as_slice(), 0, head_end);
    assert(part@ =~= buf@.take(head_end as int));
    lossy(part)
}

/// The text of a body of which `content_length` bytes count, or all where
/// there are fewer.
pub fn body_text(body: &Vec<u8>, content_length: usize) -> (r: String)
    ensures
        r@ == lossy_text(
            body@.take(
                if content_length < body@.len() {
                    content_length as int
                } else {
                    body@.len() as int
                },
            ),
        ),
{
    let n: usize = if content_length < body.len() {
        content_length
    } else {
        body.len()
    };
    let part = vstd::slice::slice_subrange(body.as_slice(), 0, n);
    assert(part@ =~= body@.take(n as int));
    lossy(part)
}

// ---------------------------------------------------------------------------
// Routes
// ---------------------------------------------------------------------------

/// What becomes of a request.
pub enum Routed {
    /// It is answered.
    Respond(HttpResp),
    /// The gateway is asked first.
    Ask(HttpCmd),
    /// Somebody logs in; the accounts are needed.
    Login { username: String, password: String },
    /// The connection is dropped without an answer.
    Dropped,
}

pub enum RoutedView {
    Respond(RespView),
    Ask(HttpCmd),
    Login { username: Seq<char>, password: Seq<char> },
    Dropped,
}

impl View for Routed {
    type V = RoutedView;

    open spec fn view(&self) -> RoutedView {
        match *self {
            Routed::Respond(r) => RoutedView::Respond(r@),
            Routed::Ask(cmd) => RoutedView::Ask(cmd),
            Routed::Login { username, password } => RoutedView::Login {
                username: username@,
                password: password@,
            },
            Routed::Dropped => RoutedView::Dropped,
        }
    }
}

/// The path and what follows its question mark.
pub open spec fn path_parts(raw: Seq<char>) -> (Seq<char>, Seq<char>) {
    match split_once_of(raw, '?') {
        Some(p) => p,
        None => (raw, ""@),
    }
}

/// A field as text, empty where it is missing.
pub open spec fn field_or_empty(body: Seq<char>, key: Seq<char>) -> Seq<char> {
    match field_of(body, key) {
        Some(t) => t,
        None => Seq::empty(),
    }
}

/// A field as points, if it is that.
pub open spec fn score_field(body: Seq<char>, key: Seq<char>) -> Option<int> {
    match field_of(body, key) {
        Some(t) => parse_unsigned_of(t, u32::MAX as int),
        None => None,
    }
}

pub open spec fn bad_field(key: Seq<char>) -> RespView {
    json_of(400, error_body("campo '"@ + key + "' inválido"@))
}

pub open spec fn not_found() -> RoutedView {
    RoutedView::Respond(json_of(404, error_body("ruta no encontrada"@)))
}

pub open spec fn unauthorized() -> RoutedView {
    RoutedView::Respond(json_of(401, error_body("no autenticado"@)))
}

pub open spec fn forbidden() -> RoutedView {
    RoutedView::Respond(json_of(403, error_body("requiere el rol admin"@)))
}

/// What becomes of a correction of a score.
pub open spec fn score_route(id: u64, body: Seq<char>) -> RoutedView {
    if !field_decodable(body, "score_a"@) || !field_decodable(body, "score_b"@) {
        RoutedView::Dropped
    } else {
        match (score_field(body, "score_a"@), score_field(body, "score_b"@)) {
            (Some(a), Some(b)) => if a > MAX_SCORE || b > MAX_SCORE {
                RoutedView::Respond(json_of(400, error_body(bad_score_text())))
            } else {
                RoutedView::Ask(HttpCmd::Edit { id, score_a: a as u32, score_b: b as u32 })
            },
            (None, _) => RoutedView::Respond(bad_field("score_a"@)),
            (_, None) => RoutedView::Respond(bad_field("score_b"@)),
        }
    }
}

/// What becomes of a request of a logged-in moderator to change something.
pub open spec fn post_route(path: Seq<char>, body: Seq<char>) -> RoutedView {
    match match_path(path, "/score"@) {
        Some(id) => score_route(id as u64, body),
        None => match match_path(path, "/revoke"@) {
            Some(id) => RoutedView::Ask(HttpCmd::Revoke { id: id as u64 }),
            None => not_found(),
        },
    }
}

/// What a request is: the page or call that it asks for.
pub enum Route {
    LoginPage,
    Logout,
    LoginForm,
    Monitor,
    Matches,
    Accounts,
    Change,
    Unknown,
}

pub open spec fn route_kind(method: Seq<char>, path: Seq<char>) -> Route {
    if method == "GET"@ && path == "/login"@ {
        Route::LoginPage
    } else if method == "GET"@ && path == "/logout"@ {
        Route::Logout
    } else if method == "POST"@ && path == "/login"@ {
        Route::LoginForm
    } else if method == "GET"@ && (path == "/"@ || path == "/index.html"@) {
        Route::Monitor
    } else if method == "GET"@ && path == "/api/matches"@ {
        Route::Matches
    } else if has_prefix(path, "/api/moderators"@) {
        Route::Accounts
    } else if method == "POST"@ {
        Route::Change
    } else {
        Route::Unknown
    }
}

fn kind_of(method: &str, path: &str) -> (r: Route)
    ensures
        r == route_kind(method@, path@),
{
    let get = same_text(method, "GET");
    let post = same_text(method, "POST");
    if get && same_text(path, "/login") {
        Route::LoginPage
    } else if get && same_text(path, "/logout") {
        Route::Logout
    } else if post && same_text(path, "/login") {
        Route::LoginForm
    } else if get && (same_text(path, "/") || same_text(path, "/index.html")) {
        Route::Monitor
    } else if get && same_text(path, "/api/matches") {
        Route::Matches
    } else {
        let p = chars_of(path);
        match strip_prefix(&p, "/api/moderators") {
            Some(_) => Route::Accounts,
            None => if post {
                Route::Change
            } else {
                Route::Unknown
            },
        }
    }
}

/// What becomes of a request, given who sends it.
pub open spec fn route_of(
    method: Seq<char>,
    raw_path: Seq<char>,
    body: Seq<char>,
    who: Option<(Seq<char>, ModRole)>,
) -> RoutedView {
    let (path, query) = path_parts(raw_path);
    match route_kind(method, path) {
        Route::LoginPage => if who is Some {
            RoutedView::Respond(redirect_of("/"@))
        } else {
            RoutedView::Respond(html_of(200, login_of(query.len() > 0)))
        },
        Route::Logout => RoutedView::Respond(
            with_header(redirect_of("/login"@), "Set-Cookie"@, clear_cookie_of()),
        ),
        Route::LoginForm => if field_decodable(body, "username"@) && field_decodable(
            body,
            "password"@,
        ) {
            RoutedView::Login {
                username: field_or_empty(body, "username"@),
                password: field_or_empty(body, "password"@),
            }
        } else {
            RoutedView::Dropped
        },
        Route::Monitor => match who {
            Some((user, role)) => RoutedView::Respond(html_of(200, monitor_of(user))),
            None => RoutedView::Respond(redirect_of("/login"@)),
        },
        Route::Matches => if who is Some {
            RoutedView::Ask(HttpCmd::List)
        } else {
            unauthorized()
        },
        Route::Accounts => match who {
            None => unauthorized(),
            Some((user, ModRole::User)) => forbidden(),
            Some((user, ModRole::Admin)) => if method == "POST"@ {
                post_route(path, body)
            } else {
                not_found()
            },
        },
        Route::Change => if who is Some {
            post_route(path, body)
        } else {
            unauthorized()
        },
        Route::Unknown => not_found(),
    }
}

/// The sessions after a request: whoever it is for was looked up, or logged
/// out.
pub open spec fn routed_sessions(
    a: Map<Seq<char>, SessionView>,
    method: Seq<char>,
    raw_path: Seq<char>,
    cookie: Option<Seq<char>>,
    now: u64,
) -> Map<Seq<char>, SessionView> {
    match route_kind(method, path_parts(raw_path).0) {
        Route::Logout => logged_out(a, cookie),
        Route::LoginForm => a,
        Route::Unknown => a,
        _ => looked_up(a, cookie, now),
    }
}

fn json_error(status: u16, msg: &str) -> (r: HttpResp)
    ensures
        r@ == json_of(status, error_body(msg@)),
{
    HttpResp::json(status, err_json(msg))
}

fn missing_field(key: &str) -> (r: HttpResp)
    ensures
        r@ == bad_field(key@),
{
    let mut msg = "campo '".to_owned();
    msg.append(key);
    msg.append("' inválido");
    json_error(400, msg.as_str())
}

fn points_field(body: &str, key: &str) -> (r: Option<u32>)
    requires
        field_decodable(body@, key@),
    ensures
        match r {
            Some(n) => score_field(body@, key@) == Some(n as int),
            None => score_field(body@, key@) is None,
        },
{
    match form_field(body, key) {
        Some(t) => {
            let v = chars_of(t.as_str());
            parse_u32(&v)
        },
        None => None,
    }
}

fn route_score(id: u64, body: &str) -> (r: Routed)
    ensures
        r@ == score_route(id, body@),
{
    if !can_decode(body, "score_a") || !can_decode(body, "score_b") {
        return Routed::Dropped;
    }
    match (points_field(body, "score_a"), points_field(body, "score_b")) {
        (Some(score_a), Some(score_b)) => {
            if score_a > MAX_SCORE || score_b > MAX_SCORE {
                Routed::Respond(json_error(400, bad_score().as_str()))
            } else {
                Routed::Ask(HttpCmd::Edit { id, score_a, score_b })
            }
        },
        (None, _) => Routed::Respond(missing_field("score_a")),
        (_, None) => Routed::Respond(missing_field("score_b")),
    }
}

fn route_post(path: &str, body: &str) -> (r: Routed)
    ensures
        r@ == post_route(path@, body@),
{
    match score_path(path) {
        Some(id) => route_score(id, body),
        None => match revoke_id(path) {
            Some(id) => Routed::Ask(HttpCmd::Revoke { id }),
            None => Routed::Respond(json_error(404, "ruta no encontrada")),
        },
    }
}

/// Routes a request.
pub fn route_request(
    auth: &mut Auth,
    method: &str,
    raw_path: &str,
    cookie: Option<&String>,
    body: &str,
    now: u64,
) -> (r: Routed)
    requires
        old(auth).wf(),
    ensures
        final(auth).wf(),
        final(auth)@ == routed_sessions(old(auth)@, method@, raw_path@, opt_token(cookie), now),
        r@ == route_of(
            method@,
            raw_path@,
            body@,
            who_of(old(auth)@, opt_token(cookie), now),
        ),
{
    let raw = chars_of(raw_path);
    let (path, query_empty) = match split_once(&raw, '?') {
        Some((p, q)) => (text_of(&p), q.len() == 0),
        None => {
            assert(""@.len() == 0) by {
                reveal_strlit("");
            }
            (text_of(&raw), true)
        },
    };
    assert(path@ == path_parts(raw_path@).0);
    match kind_of(method, path.as_str()) {
        Route::LoginPage => {
            if auth.who(cookie, now).is_some() {
                Routed::Respond(HttpResp::redirect("/"))
            } else {
                Routed::Respond(HttpResp::html(200, login_page(!query_empty)))
            }
        },
        Route::Logout => {
            auth.logout(cookie);
            let mut resp = HttpResp::redirect("/login");
            resp.add_header("Set-Cookie", clear_cookie_header());
            Routed::Respond(resp)
        },
        Route::LoginForm => {
            if !can_decode(body, "username") || !can_decode(body, "password") {
                return Routed::Dropped;
            }
            let username = match form_field(body, "username") {
                Some(t) => t,
                None => String::new(),
            };
            let password = match form_field(body, "password") {
                Some(t) => t,
                None => String::new(),
            };
            Routed::Login { username, password }
        },
        Route::Monitor => match auth.who(cookie, now) {
            Some(m) => Routed::Respond(
                HttpResp::html(200, monitor_page(m.username.as_str())),
            ),
            None => Routed::Respond(HttpResp::redirect("/login")),
        },
        Route::Matches => {
            if auth.who(cookie, now).is_some() {
                Routed::Ask(HttpCmd::List)
            } else {
                Routed::Respond(json_error(401, "no autenticado"))
            }
        },
        Route::Accounts => match auth.who(cookie, now) {
            None => Routed::Respond(json_error(401, "no autenticado")),
            Some(m) => match m.role {
                ModRole::User => Routed::Respond(json_error(403, "requiere el rol admin")),
                ModRole::Admin => if same_text(method, "POST") {
                    route_post(path.as_str(), body)
                } else {
                    Routed::Respond(json_error(404, "ruta no encontrada"))
                },
            },
        },
        Route::Change => {
            if auth.who(cookie, now).is_some() {
                route_post(path.as_str(), body)
            } else {
                Routed::Respond(json_error(401, "no autenticado"))
            }
        },
        Route::Unknown => Routed::Respond(json_error(404, "ruta no encontrada")),
    }
}

/// The answer to a login: a session cookie, or the form again.
pub open spec fn login_answer(token: Option<Seq<char>>) -> RespView {
    match token {
        Some(t) => with_header(redirect_of("/"@), "Set-Cookie"@, set_cookie_of(t)),
        None => redirect_of("/login?error=1"@),
    }
}

/// Answers a login, given the token of the session that was opened.
pub fn login_response(token: Option<String>) -> (r: HttpResp)
    ensures
        r@ == login_answer(opt_text(token)),
{
    match token {
        Some(t) => {
            let mut resp = HttpResp::redirect("/");
            resp.add_header("Set-Cookie", set_cookie_header(t.as_str()));
            resp
        },
        None => HttpResp::redirect("/login?error=1"),
    }
}

/// Logs somebody in and answers.
pub fn answer_login(
    auth: &mut Auth,
    moderators: &Moderators,
    username: &str,
    password: &str,
    now: u64,
) -> (r: HttpResp)
    requires
        old(auth).wf(),
        moderators.wf(),
    ensures
        final(auth).wf(),
        match login_role(moderators@, username@, password@) {
            Some(role) => exists|t: Seq<char>| #[trigger]
                is_token(t) && r@ == login_answer(Some(t)) && final(auth)@ == old(auth)@.insert(
                    t,
                    SessionView { user: normalized(username@), role, used_at: now },
                ),
            None => r@ == login_answer(None) && final(auth)@ == old(auth)@,
        },
{
    let token = auth.login(moderators, username, password, now);
    login_response(token)
}

/// What came of asking the gateway.
pub enum Asked {
    /// It cannot be reached.
    Busy,
    /// It has answered.
    Answered(Result<String, String>),
    /// It has not answered in time.
    TimedOut,
}

/// The answer to a request that the gateway was asked about.
pub fn asked_response(asked: Asked) -> (r: HttpResp)
    ensures
        r@ == match asked {
            Asked::Busy => json_of(503, error_body("gateway ocupado"@)),
            Asked::Answered(Ok(body)) => json_of(200, body@),
            Asked::Answered(Err(e)) => json_of(409, error_body(e@)),
            Asked::TimedOut => json_of(504, error_body("el gateway no respondió"@)),
        },
{
    match asked {
        Asked::Busy => json_error(503, "gateway ocupado"),
        Asked::Answered(Ok(body)) => HttpResp::json(200, body),
        Asked::Answered(Err(e)) => json_error(409, e.as_str()),
        Asked::TimedOut => json_error(504, "el gateway no respondió"),
    }
}

// ---------------------------------------------------------------------------
// Laws
// ---------------------------------------------------------------------------

/// Without a live session nothing is shown of the matches and nothing can be
/// changed: no request reaches the gateway.
pub proof fn strangers_reach_nothing(method: Seq<char>, raw_path: Seq<char>, body: Seq<char>)
    ensures
        !(route_of(method, raw_path, body, None) is Ask),
{
}

/// A moderator who is no administrator is refused on every path of the
/// accounts, and whoever has no session must log in there first.
pub proof fn accounts_are_for_administrators(
    method: Seq<char>,
    raw_path: Seq<char>,
    body: Seq<char>,
    user: Seq<char>,
)
    requires
        route_kind(method, path_parts(raw_path).0) is Accounts,
    ensures
        route_of(method, raw_path, body, Some((user, ModRole::User))) == forbidden(),
        route_of(method, raw_path, body, None) == unauthorized(),
{
}

/// The headers of an answer are written one behind the other, before a blank
/// line and the body; the length that is told is that of the body in bytes.
pub proof fn answers_are_framed(r: RespView, name: Seq<char>, value: Seq<char>)
    ensures
        ({
            let start = "HTTP/1.1 "@ + decimal_of(r.status as nat) + "\r\nContent-Type: "@
                + r.content_type + "\r\nContent-Length: "@ + decimal_of(encode_utf8(r.body).len())
                + "\r\nCache-Control: no-store\r\nConnection: close"@;
            let head = start + wire_headers(r.headers);
            &&& wire_text(r) == head + "\r\n\r\n"@ + r.body
            &&& wire_text(with_header(r, name, value)) == head + "\r\n"@ + name + ": "@ + value
                + "\r\n\r\n"@ + r.body
            &&& r.headers.len() == 0 ==> wire_text(r) == start + "\r\n\r\n"@ + r.body
            &&& with_header(r, name, value).headers.len() == r.headers.len() + 1
        }),
{
    let h = r.headers.push((name, value));
    assert(h.drop_last() =~= r.headers);
    assert(h.last() == (name, value));
    let start = wire_start(r);
    assert(wire_start(with_header(r, name, value)) == start);
    assert(start + wire_headers(h) =~= start + wire_headers(r.headers) + "\r\n"@ + name + ": "@
        + value);
    if r.headers.len() == 0 {
        assert(start + wire_headers(r.headers) =~= start);
    }
}

/// Pages, data and redirections are what they say they are.
pub proof fn answers_carry_their_kind(status: u16, text: Seq<char>)
    ensures
        html_of(status, text).status == status && html_of(status, text).body == text,
        html_of(status, text).content_type == "text/html; charset=utf-8"@,
        json_of(status, text).status == status && json_of(status, text).body == text,
        json_of(status, text).content_type == "application/json; charset=utf-8"@,
        html_of(status, text).headers.len() == 0 && json_of(status, text).headers.len() == 0,
        redirect_of(text).status == 302,
        redirect_of(text).body.len() == 0,
        redirect_of(text).headers == seq![("Location"@, text)],
{
}

proof fn lemma_token_shift(a: Seq<char>, pieces: Seq<Seq<char>>, i: int)
    requires
        0 <= i,
    ensures
        token_from(seq![a] + pieces, i + 1) == token_from(pieces, i),
    decreases pieces.len() - i,
{
    let all = seq![a] + pieces;
    if i < pieces.len() {
        assert(all[i + 1] == pieces[i]);
        lemma_token_shift(a, pieces, i + 1);
    }
}

/// The session is what the first cookie of the right name holds, however the
/// name is written; cookies of other names are passed over.
pub proof fn the_first_session_cookie_counts(
    name: Seq<char>,
    value: Seq<char>,
    rest: Seq<char>,
)
    requires
        lacks(name, ';') && lacks(name, '='),
        lacks(value, ';'),
        name.len() > 0 && !is_space(name[0]) && !is_space(name.last()),
        value.len() > 0 && !is_space(value[0]) && !is_space(value.last()),
    ensures
        ({
            let cookie = name + seq!['='] + value;
            &&& lower_of(name) == "pong_mod"@ ==> {
                &&& cookie_token_of(cookie) == Some(value)
                &&& cookie_token_of(cookie + seq![';'] + rest) == Some(value)
                &&& cookie_token_of(seq![' '] + cookie + seq![';'] + rest) == Some(value)
            }
            &&& lower_of(name) != "pong_mod"@ ==> {
                &&& cookie_token_of(cookie) is None
                &&& cookie_token_of(cookie + seq![';'] + rest) == cookie_token_of(rest)
            }
            &&& lacks(name, '=') ==> cookie_token_of(name) is None
        }),
{
    let none = Seq::<char>::empty();
    let cookie = name + seq!['='] + value;
    let spaced = seq![' '] + cookie;
    reveal_strlit("pong_mod");
    assert(lower_of("pong_mod"@) =~= "pong_mod"@);
    assert(lacks(cookie, ';'));
    assert(lacks(spaced, ';'));
    assert(cookie[0] == name[0] && cookie.last() == value.last());
    texts_are_parted_at_the_first(name, '=', value);
    trimming_takes_the_blanks_off(none, cookie, none);
    assert(none + cookie + none =~= cookie);
    trimming_takes_the_blanks_off(none, name, none);
    assert(none + name + none =~= name);
    trimming_takes_the_blanks_off(none, value, none);
    assert(none + value + none =~= value);
    trimming_takes_the_blanks_off(seq![' '], cookie, none);
    assert(seq![' '] + cookie + none =~= spaced);
    texts_are_parted_at_the_first(cookie, ';', rest);
    texts_are_parted_at_the_first(spaced, ';', rest);
    texts_are_parted_at_the_first(name, ';', rest);
    lemma_token_shift(cookie, split_of(rest, ';'), 0);
    reveal_with_fuel(token_from, 2);
    assert((seq![cookie] + split_of(rest, ';'))[0] == cookie);
    assert((seq![spaced] + split_of(rest, ';'))[0] == spaced);
    assert(seq![cookie][0] == cookie);
}

/// The cookie that opens a session is the one in which its token is looked for;
/// it lasts eight hours, and the one that ends the session runs out at once.
pub proof fn cookies_carry_the_token(token: Seq<char>)
    ensures
        set_cookie_of(token) == "pong_mod"@ + seq!['='] + token
            + "; HttpOnly; SameSite=Strict; Path=/; Max-Age=28800"@,
        clear_cookie_of() == "pong_mod"@ + seq!['=']
            + "; HttpOnly; SameSite=Strict; Path=/; Max-Age=0"@,
{
    reveal_strlit("=");
    assert("="@ =~= seq!['=']);
    reveal_strlit("; HttpOnly; SameSite=Strict; Path=/; Max-Age=28800");
    reveal_strlit("; HttpOnly; SameSite=Strict; Path=/; Max-Age=");
    reveal_strlit("; HttpOnly; SameSite=Strict; Path=/; Max-Age=0");
    reveal_strlit("=; HttpOnly; SameSite=Strict; Path=/; Max-Age=0");
    reveal_with_fuel(decimal_of, 5);
    assert(decimal_of(28_800) =~= seq!['2', '8', '8', '0', '0']);
    assert("; HttpOnly; SameSite=Strict; Path=/; Max-Age="@ + seq!['2', '8', '8', '0', '0']
        =~= "; HttpOnly; SameSite=Strict; Path=/; Max-Age=28800"@);
    assert(seq!['='] + "; HttpOnly; SameSite=Strict; Path=/; Max-Age=0"@
        =~= "=; HttpOnly; SameSite=Strict; Path=/; Max-Age=0"@);
    assert(set_cookie_of(token) =~= "pong_mod"@ + seq!['='] + token
        + "; HttpOnly; SameSite=Strict; Path=/; Max-Age=28800"@);
    assert(clear_cookie_of() =~= "pong_mod"@ + seq!['=']
        + "; HttpOnly; SameSite=Strict; Path=/; Max-Age=0"@);
}

/// In a form a plus sign is a blank, a percent sign and two digits are a byte,
/// and every other byte is itself.
pub proof fn escapes_are_read(c: u8, h: u8, l: u8, rest: Seq<u8>)
    ensures
        unescaped(Seq::empty()).len() == 0,
        unescaped(seq![0x2bu8] + rest) == seq![0x20u8] + unescaped(rest),
        c != 0x2b && c != 0x25 ==> unescaped(seq![c] + rest) == seq![c] + unescaped(rest),
        hex_pair_of(h, l) matches Some(v) ==> unescaped(seq![0x25u8, h, l] + rest) == seq![v]
            + unescaped(rest),
        hex_pair_of(h, l) is None ==> unescaped(seq![0x25u8, h, l] + rest) == seq![0x25u8]
            + unescaped(seq![h, l] + rest),
{
    assert((seq![0x2bu8] + rest).skip(1) =~= rest);
    assert((seq![c] + rest).skip(1) =~= rest);
    let e = seq![0x25u8, h, l] + rest;
    assert(e.skip(3) =~= rest);
    assert(e.skip(1) =~= seq![h, l] + rest);
}

proof fn lemma_field_shift(a: Seq<char>, pieces: Seq<Seq<char>>, key: Seq<char>, i: int)
    requires
        0 <= i,
    ensures
        field_from(seq![a] + pieces, key, i + 1) == field_from(pieces, key, i),
    decreases pieces.len() - i,
{
    let all = seq![a] + pieces;
    if i < pieces.len() {
        assert(all[i + 1] == pieces[i]);
        lemma_field_shift(a, pieces, key, i + 1);
    }
}

/// A field of a form is what stands behind the first equals sign after its
/// name; the first field of a name counts, and fields of other names are passed
/// over.
pub proof fn the_first_field_counts(
    name: Seq<char>,
    value: Seq<char>,
    rest: Seq<char>,
    key: Seq<char>,
)
    requires
        lacks(name, '&') && lacks(name, '='),
        lacks(value, '&'),
    ensures
        ({
            let field = name + seq!['='] + value;
            &&& raw_field_of(field, name) == Some(value)
            &&& raw_field_of(field + seq!['&'] + rest, name) == Some(value)
            &&& key != name ==> raw_field_of(field, key) is None
            &&& key != name ==> raw_field_of(field + seq!['&'] + rest, key) == raw_field_of(
                rest,
                key,
            )
        }),
{
    let field = name + seq!['='] + value;
    assert(lacks(field, '&'));
    texts_are_parted_at_the_first(name, '=', value);
    texts_are_parted_at_the_first(field, '&', rest);
    lemma_field_shift(field, split_of(rest, '&'), key, 0);
    reveal_with_fuel(field_from, 2);
    assert((seq![field] + split_of(rest, '&'))[0] == field);
    assert(seq![field][0] == field);
}

/// A match is named by its number in the path, between the path of the matches
/// and what is to be done with it.
pub proof fn paths_name_matches(id: u64, suffix: Seq<char>)
    ensures
        match_path("/api/matches/"@ + (decimal_of(id as nat) + suffix), suffix) == Some(id as int),
{
    let number = decimal_of(id as nat);
    prefixes_and_suffixes_come_off(number + suffix, "/api/matches/"@);
    prefixes_and_suffixes_come_off(number, suffix);
    decimal_reads_back(id as nat, u64::MAX as int);
}

/// A moderator revokes the match that the path names.
pub proof fn revocations_are_asked_for(
    id: u64,
    body: Seq<char>,
)
    ensures
        post_route("/api/matches/"@ + (decimal_of(id as nat) + "/revoke"@), body)
            == RoutedView::Ask(HttpCmd::Revoke { id }),
{
    let path = "/api/matches/"@ + (decimal_of(id as nat) + "/revoke"@);
    paths_name_matches(id, "/revoke"@);
    let rest = decimal_of(id as nat) + "/revoke"@;
    prefixes_and_suffixes_come_off(rest, "/api/matches/"@);
    reveal_strlit("/revoke");
    reveal_strlit("/score");
    if let Some(t) = strip_suffix_of(rest, "/score"@) {
        prefixes_and_suffixes_come_off(rest, "/score"@);
        assert(rest[rest.len() - 2] == "/score"@[4]);
        assert(rest[rest.len() - 2] == "/revoke"@[5]);
    }
}

/// A moderator corrects the match that the path names to the points of the
/// form: `score_a` to those of the first player and `score_b` to those of the
/// second. More than twenty-five are refused, and so is what is no number.
pub proof fn corrections_are_asked_for(id: u64, body: Seq<char>, a: u32, b: u32)
    requires
        field_decodable(body, "score_a"@),
        field_decodable(body, "score_b"@),
    ensures
        ({
            let path = "/api/matches/"@ + (decimal_of(id as nat) + "/score"@);
            let given_a = field_of(body, "score_a"@);
            let given_b = field_of(body, "score_b"@);
            &&& given_a == Some(decimal_of(a as nat)) && given_b == Some(decimal_of(b as nat))
                ==> if a <= 25 && b <= 25 {
                post_route(path, body) == RoutedView::Ask(
                    HttpCmd::Edit { id, score_a: a, score_b: b },
                )
            } else {
                post_route(path, body) == RoutedView::Respond(
                    json_of(400, error_body(bad_score_text())),
                )
            }
            &&& given_a is None ==> post_route(path, body) == RoutedView::Respond(
                json_of(400, error_body("campo '"@ + "score_a"@ + "' inválido"@)),
            )
            &&& given_a == Some(decimal_of(a as nat)) && given_b is None ==> post_route(path, body)
                == RoutedView::Respond(
                json_of(400, error_body("campo '"@ + "score_b"@ + "' inválido"@)),
            )
        }),
{
    paths_name_matches(id, "/score"@);
    decimal_reads_back(a as nat, u32::MAX as int);
    decimal_reads_back(b as nat, u32::MAX as int);
}

proof fn lemma_header_shift(a: Seq<char>, ls: Seq<Seq<char>>, name: Seq<char>, i: int)
    requires
        0 <= i,
    ensures
        header_from(seq![a] + ls, name, i + 1) == header_from(ls, name, i),
    decreases ls.len() - i,
{
    let all = seq![a] + ls;
    if i < ls.len() {
        assert(all[i + 1] == ls[i]);
        lemma_header_shift(a, ls, name, i + 1);
    }
}

/// A header is found by its name in whatever case; what it says is the rest of
/// its line without the blanks around it, and the first of a name counts.
pub proof fn the_first_header_counts(
    k: Seq<char>,
    v: Seq<char>,
    ls: Seq<Seq<char>>,
    name: Seq<char>,
)
    requires
        lacks(k, ':'),
    ensures
        lower_of(k) == lower_of(name) ==> header_from(seq![k + seq![':'] + v] + ls, name, 0)
            == Some(trim_of(v)),
        lower_of(k) != lower_of(name) ==> header_from(seq![k + seq![':'] + v] + ls, name, 0)
            == header_from(ls, name, 0),
        header_from(seq![k] + ls, name, 0) == header_from(ls, name, 0),
{
    let line = k + seq![':'] + v;
    texts_are_parted_at_the_first(k, ':', v);
    lemma_header_shift(line, ls, name, 0);
    lemma_header_shift(k, ls, name, 0);
    assert((seq![line] + ls)[0] == line);
    assert((seq![k] + ls)[0] == k);
}

/// The request line is the first line: its first word is the method and its
/// second the path.
pub proof fn requests_begin_with_method_and_path(
    method: Seq<char>,
    path: Seq<char>,
    version: Seq<char>,
    rest: Seq<char>,
)
    requires
        method.len() > 0 && is_word(method),
        path.len() > 0 && is_word(path),
        version.len() > 0 && is_word(version),
    ensures
        ({
            let head = method + (seq![' '] + (path + (seq![' '] + version))) + seq!['\r'] + seq![
                '\n',
            ] + rest;
            &&& method_of(head) == method
            &&& path_of(head) == path
            &&& method_of(Seq::empty()).len() == 0
            &&& path_of(Seq::empty()) == "/"@
            &&& path_of(method) == "/"@
        }),
{
    let line = method + (seq![' '] + (path + (seq![' '] + version)));
    let ended = line + seq!['\r'];
    blanks_are_white_space(' ');
    assert forall|i: int| 0 <= i < ended.len() implies #[trigger] ended[i] != '\n' by {
        let a = method.len() as int;
        let b = a + 1 + path.len();
        if i < a {
            assert(ended[i] == method[i]);
        } else if i == a {
        } else if i < b {
            assert(ended[i] == path[i - a - 1]);
        } else if i == b {
        } else if i < line.len() {
            assert(ended[i] == version[i - b - 1]);
        }
    }
    line_feeds_end_lines(ended, rest);
    assert(ended.last() == '\r');
    assert(ended.drop_last() =~= line);
    assert((seq![line] + lines_of(rest))[0] == line);
    white_space_parts_words(version, ' ', version);
    white_space_parts_words(path, ' ', version);
    white_space_parts_words(method, ' ', path + (seq![' '] + version));
    let words = seq![method] + (seq![path] + seq![version]);
    assert(words_of(line) =~= words);
    assert(words[0] == method && words[1] == path);
    assert(lacks(method, '\n'));
    line_feeds_end_lines(method, rest);
}

/// The length of a body is what the header of that name says, and nothing
/// where there is none that is a number.
pub proof fn lengths_are_read(first: Seq<char>, k: Seq<char>, n: usize, rest: Seq<char>)
    requires
        lacks(first, '\n'),
        lacks(k, '\n') && lacks(k, ':'),
        lower_of(k) == "content-length"@,
    ensures
        length_of(
            first + seq!['\n'] + (k + seq![':'] + (seq![' '] + decimal_of(n as nat)) + seq!['\n']
                + rest),
        ) == n,
        length_of(first) == 0,
{
    let none = Seq::<char>::empty();
    let number = decimal_of(n as nat);
    let v = seq![' '] + number;
    let line = k + seq![':'] + v;
    let tail = line + seq!['\n'] + rest;
    numerals_are_digits(n as nat);
    blanks_are_white_space(' ');
    assert forall|i: int| 0 <= i < line.len() implies #[trigger] line[i] != '\n' by {
        if i < k.len() {
            assert(line[i] == k[i]);
        } else if i > k.len() + 1 {
            assert(line[i] == number[i - k.len() - 2]);
        }
    }
    assert(line.last() == number.last());
    line_feeds_end_lines(line, rest);
    line_feeds_end_lines(first, tail);
    let top = without_cr(first);
    assert(lines_of(first + seq!['\n'] + tail) == seq![top] + lines_of(tail));
    lemma_header_shift(top, lines_of(tail), "content-length"@, 0);
    reveal_strlit("content-length");
    assert(lower_of("content-length"@) =~= "content-length"@);
    the_first_header_counts(k, v, lines_of(rest), "content-length"@);
    trimming_takes_the_blanks_off(seq![' '], number, none);
    assert(seq![' '] + number + none =~= v);
    decimal_reads_back(n as nat, usize::MAX as int);
}

/// The pages: the monitor for moderators, the form for everybody else, and the
/// way from one to the other.
pub proof fn pages_depend_on_the_session(
    path: Seq<char>,
    query: Seq<char>,
    body: Seq<char>,
    user: Seq<char>,
    role: ModRole,
)
    requires
        lacks(path, '?'),
    ensures
        ({
            let get = "GET"@;
            let who = Some((user, role));
            &&& path == "/"@ || path == "/index.html"@ ==> {
                &&& route_of(get, path, body, who) == RoutedView::Respond(
                    html_of(200, monitor_of(user)),
                )
                &&& route_of(get, path, body, None) == RoutedView::Respond(redirect_of("/login"@))
            }
            &&& path == "/login"@ ==> {
                &&& route_of(get, path, body, who) == RoutedView::Respond(redirect_of("/"@))
                &&& route_of(get, path, body, None) == RoutedView::Respond(
                    html_of(200, login_of(false)),
                )
                &&& query.len() > 0 ==> route_of(get, path + seq!['?'] + query, body, None)
                    == RoutedView::Respond(html_of(200, login_of(true)))
            }
            &&& path == "/logout"@ ==> route_of(get, path, body, who) == RoutedView::Respond(
                with_header(redirect_of("/login"@), "Set-Cookie"@, clear_cookie_of()),
            )
            &&& path == "/api/matches"@ ==> {
                &&& route_of(get, path, body, who) == RoutedView::Ask(HttpCmd::List)
                &&& route_of(get, path, body, None) == RoutedView::Respond(
                    json_of(401, error_body("no autenticado"@)),
                )
            }
        }),
{
    texts_are_parted_at_the_first(path, '?', query);
    reveal_strlit("GET");
    reveal_strlit("POST");
    reveal_strlit("/");
    reveal_strlit("/index.html");
    reveal_strlit("/login");
    reveal_strlit("/logout");
    reveal_strlit("/api/matches");
    reveal_strlit("");
    assert("GET"@[0] != "POST"@[0]);
    assert("/index.html"@.len() != "/login"@.len());
    assert(path == "/login"@ ==> path[4] != "/logout"@[4]);
}

/// The form is read where it is sent to: name and password go to the login,
/// whoever sends them.
pub proof fn the_form_logs_in(body: Seq<char>, who: Option<(Seq<char>, ModRole)>)
    requires
        field_decodable(body, "username"@),
        field_decodable(body, "password"@),
    ensures
        route_of("POST"@, "/login"@, body, who) matches RoutedView::Login { username, password }
            && (field_of(body, "username"@) matches Some(t) ==> username == t) && (field_of(
            body,
            "password"@,
        ) matches Some(t) ==> password == t) && (field_of(body, "username"@) is None
            ==> username.len() == 0) && (field_of(body, "password"@) is None ==> password.len()
            == 0),
{
    reveal_strlit("GET");
    reveal_strlit("POST");
    reveal_strlit("/login");
    assert("GET"@[0] != "POST"@[0]);
    assert(lacks("/login"@, '?'));
    texts_are_parted_at_the_first("/login"@, '?', body);
}

/// What is changed is changed by posting, with a session, and by the path
/// alone; every other request is answered that there is no such page.
pub proof fn changes_are_posted(
    method: Seq<char>,
    path: Seq<char>,
    body: Seq<char>,
    user: Seq<char>,
    role: ModRole,
)
    requires
        lacks(path, '?'),
        !has_prefix(path, "/api/moderators"@),
        path != "/login"@,
    ensures
        route_of("POST"@, path, body, Some((user, role))) == post_route(path, body),
        route_of("POST"@, path, body, None) == RoutedView::Respond(
            json_of(401, error_body("no autenticado"@)),
        ),
        method != "POST"@ && method != "GET"@ ==> route_of(method, path, body, Some((user, role)))
            == RoutedView::Respond(json_of(404, error_body("ruta no encontrada"@))),
        path != "/"@ && path != "/index.html"@ && path != "/logout"@ && path != "/api/matches"@
            ==> route_of("GET"@, path, body, Some((user, role))) == RoutedView::Respond(
            json_of(404, error_body("ruta no encontrada"@)),
        ),
{
    texts_are_parted_at_the_first(path, '?', body);
    reveal_strlit("GET");
    reveal_strlit("POST");
    assert("GET"@[0] != "POST"@[0]);
}

/// Logging out ends the session of the cookie and no other; posting the form
/// touches none; every other page that asks who is there uses the session anew.
pub proof fn requests_touch_their_session(
    a: Map<Seq<char>, SessionView>,
    path: Seq<char>,
    t: Seq<char>,
    other: Seq<char>,
    now: u64,
)
    requires
        lacks(path, '?'),
        other != t,
    ensures
        ({
            let got = routed_sessions(a, "GET"@, path, Some(t), now);
            let posted = routed_sessions(a, "POST"@, path, Some(t), now);
            &&& path == "/logout"@ ==> !got.contains_key(t)
            &&& got.contains_key(other) == a.contains_key(other)
            &&& posted.contains_key(other) == a.contains_key(other)
            &&& a.contains_key(other) ==> got[other] == a[other] && posted[other] == a[other]
            &&& path == "/login"@ ==> posted == a
            &&& path == "/"@ || path == "/index.html"@ || path == "/login"@ || path
                == "/api/matches"@ ==> (a.contains_key(t) && now - a[t].used_at
                <= 28_800_000_000_000 ==> got.contains_key(t) && got[t].used_at == now
                && got[t].user == a[t].user && got[t].role == a[t].role)
            &&& path != "/login"@ ==> (a.contains_key(t) && now - a[t].used_at
                <= 28_800_000_000_000 ==> posted.contains_key(t) && posted[t].used_at == now)
        }),
{
    texts_are_parted_at_the_first(path, '?', path);
    reveal_strlit("GET");
    reveal_strlit("POST");
    reveal_strlit("/");
    reveal_strlit("/index.html");
    reveal_strlit("/login");
    reveal_strlit("/logout");
    reveal_strlit("/api/matches");
    assert("GET"@[0] != "POST"@[0]);
    assert("/login"@.len() != "/logout"@.len());
    assert("/logout"@.len() != "/index.html"@.len());
}

/// Whoever logs in is led to the monitor with their session; whoever is refused
/// gets back to the form, without one.
pub proof fn logins_are_answered(t: Seq<char>)
    ensures
        login_answer(Some(t)).status == 302,
        login_answer(Some(t)).headers == seq![
            ("Location"@, "/"@),
            ("Set-Cookie"@, set_cookie_of(t)),
        ],
        login_answer(None).status == 302,
        login_answer(None).headers == seq![("Location"@, "/login?error=1"@)],
{
}

} // verus!
