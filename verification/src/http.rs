//! HTTP framing and the pieces of request parsing the server and the client
//! share: response framing, bearer-token extraction, query strings and
//! percent-encoding.

use vstd::prelude::*;
use vstd::utf8::*;
use crate::text::{
    chars_eq, chars_of, dec, find, find_chars, find_chars_from, find_from, lemma_find_from_bounds,
    line_at, line_at_exec, lemma_line_at_advances, lower_all, lower_chars, pos_of, push_char,
    push_decimal, starts_with, string_of, sub_chars, trim, trim_chars, utf8_bytes,
};

verus! {

// ---------------------------------------------------------------------------
// Responses
// ---------------------------------------------------------------------------

/// The reason phrase the server sends with a status code.
pub open spec fn reason(status: u16) -> Seq<char> {
    if status == 200 {
        "OK"@
    } else if status == 201 {
        "Created"@
    } else if status == 400 {
        "Bad Request"@
    } else if status == 401 {
        "Unauthorized"@
    } else if status == 404 {
        "Not Found"@
    } else {
        "Error"@
    }
}

/// The head of a response with the given status and body length.
pub open spec fn response_head(status: u16, len: nat) -> Seq<char> {
    "HTTP/1.1 "@ + dec(status as nat) + " "@ + reason(status)
        + "\r\nContent-Type: application/json\r\nContent-Length: "@ + dec(len)
        + "\r\nConnection: close\r\n\r\n"@
}

/// Frames `body` as a complete `HTTP/1.1` JSON response that closes the
/// connection.
pub fn http_response(status: u16, body: Vec<u8>) -> (out: Vec<u8>)
    ensures
        out@ == encode_utf8(response_head(status, body@.len())) + body@,
{
    let reason = if status == 200 {
        "OK"
    } else if status == 201 {
        "Created"
    } else if status == 400 {
        "Bad Request"
    } else if status == 401 {
        "Unauthorized"
    } else if status == 404 {
        "Not Found"
    } else {
        "Error"
    };
    let mut head = String::new();
    head.append("HTTP/1.1 ");
    push_decimal(&mut head, status as u64);
    head.append(" ");
    head.append(reason);
    head.append("\r\nContent-Type: application/json\r\nContent-Length: ");
    push_decimal(&mut head, body.len() as u64);
    head.append("\r\nConnection: close\r\n\r\n");
    let mut out = utf8_bytes(head.as_str());
    let ghost head_bytes = out@;
    let mut i: usize = 0;
    while i < body.len()
        invariant
            i <= body@.len(),
            out@ == head_bytes + body@.subrange(0, i as int),
        decreases body.len() - i,
    {
        out.push(body[i]);
        assert(body@.subrange(0, i + 1) =~= body@.subrange(0, i as int).push(body@[i as int]));
        i = i + 1;
    }
    assert(body@.subrange(0, body@.len() as int) =~= body@);
    assert(head@ =~= response_head(status, body@.len()));
    out
}

// ---------------------------------------------------------------------------
// Byte search
// ---------------------------------------------------------------------------

/// Whether `pat` occurs in `s` at position `i`.
pub fn bytes_match_at(s: &[u8], pat: &[u8], i: usize) -> (b: bool)
    requires
        i + pat@.len() <= s@.len(),
    ensures
        b == (s@.subrange(i as int, i + pat@.len()) == pat@),
{
    let n = s.len();
    let mut k: usize = 0;
    while k < pat.len()
        invariant
            n == s@.len(),
            i + pat@.len() <= s@.len(),
            k <= pat@.len(),
            forall|j: int| 0 <= j < k ==> s@[i + j] == pat@[j],
        decreases pat.len() - k,
    {
        if s[i + k] != pat[k] {
            assert(s@.subrange(i as int, i + pat@.len())[k as int] != pat@[k as int]);
            return false;
        }
        k = k + 1;
    }
    assert(s@.subrange(i as int, i + pat@.len()) =~= pat@);
    true
}

/// The first position where a non-empty `needle` occurs in `haystack`;
/// `None` for an empty needle.
pub fn find_subseq(haystack: &[u8], needle: &[u8]) -> (r: Option<usize>)
    ensures
        pos_of(r) == if needle@.len() == 0 {
            None
        } else {
            find(haystack@, needle@)
        },
{
    let n = haystack.len();
    if needle.len() == 0 || needle.len() > n {
        return None;
    }
    let mut i: usize = 0;
    while i <= n - needle.len()
        invariant
            n == haystack@.len(),
            0 < needle@.len() <= n,
            find_from(haystack@, needle@, i as int) == find_from(haystack@, needle@, 0),
        decreases n - i,
    {
        if bytes_match_at(haystack, needle, i) {
            return Some(i);
        }
        i = i + 1;
    }
    None
}

// ---------------------------------------------------------------------------
// Percent-encoding
// ---------------------------------------------------------------------------

/// The value of an ASCII hexadecimal digit.
pub open spec fn hex_value(b: u8) -> Option<u8> {
    if 48 <= b <= 57 {
        Some((b - 48) as u8)
    } else if 97 <= b <= 102 {
        Some((b - 97 + 10) as u8)
    } else if 65 <= b <= 70 {
        Some((b - 65 + 10) as u8)
    } else {
        None
    }
}

/// Reads one hexadecimal digit (either case).
pub fn hex_digit(b: u8) -> (r: Option<u8>)
    ensures
        r == hex_value(b),
{
    if b >= 48 && b <= 57 {
        Some(b - 48)
    } else if b >= 97 && b <= 102 {
        Some(b - 97 + 10)
    } else if b >= 65 && b <= 70 {
        Some(b - 65 + 10)
    } else {
        None
    }
}

/// The character whose code point is the byte `b`.
pub open spec fn byte_char(b: int) -> char {
    b as char
}

/// Percent-decoding of the bytes `b` from position `i` on: `%` followed by two
/// hex digits is the byte they spell, `+` is a space, and every other byte is
/// taken as the character with that code point.
pub open spec fn url_decode_from(b: Seq<u8>, i: int) -> Seq<char>
    decreases b.len() - i,
{
    if i < 0 || i >= b.len() {
        Seq::empty()
    } else if b[i] == 37 && i + 2 < b.len() && hex_value(b[i + 1]) is Some && hex_value(
        b[i + 2],
    ) is Some {
        seq![byte_char(hex_value(b[i + 1])->0 * 16 + hex_value(b[i + 2])->0)] + url_decode_from(
            b,
            i + 3,
        )
    } else if b[i] == 43 {
        seq![' '] + url_decode_from(b, i + 1)
    } else {
        seq![byte_char(b[i] as int)] + url_decode_from(b, i + 1)
    }
}

/// Percent-decoding of the UTF-8 bytes of `s`.
pub open spec fn url_decoded(s: Seq<char>) -> Seq<char> {
    url_decode_from(encode_utf8(s), 0)
}

/// Decodes a percent-encoded query value.
pub fn url_decode(s: &str) -> (out: String)
    ensures
        out@ == url_decoded(s@),
{
    let bytes = s.as_bytes();
    let n = bytes.len();
    let mut out = String::new();
    let mut i: usize = 0;
    while i < n
        invariant
            n == bytes@.len(),
            bytes@ == encode_utf8(s@),
            i <= n,
            out@ + url_decode_from(bytes@, i as int) == url_decode_from(bytes@, 0),
        decreases n - i,
    {
        let b = bytes[i];
        if b == 37 && n >= 2 && i < n - 2 {
            let hi = hex_digit(bytes[i + 1]);
            let lo = hex_digit(bytes[i + 2]);
            if let (Some(h), Some(l)) = (hi, lo) {
                let ghost before = out@;
                push_char(&mut out, (h * 16 + l) as char);
                assert(out@ + url_decode_from(bytes@, i + 3) =~= before + url_decode_from(
                    bytes@,
                    i as int,
                ));
                i = i + 3;
                continue;
            }
        }
        let ghost before = out@;
        if b == 43 {
            push_char(&mut out, ' ');
        } else {
            push_char(&mut out, b as char);
        }
        assert(out@ + url_decode_from(bytes@, i + 1) =~= before + url_decode_from(
            bytes@,
            i as int,
        ));
        i = i + 1;
    }
    assert(url_decode_from(bytes@, i as int) =~= Seq::<char>::empty());
    assert(out@ =~= out@ + url_decode_from(bytes@, i as int));
    out
}

/// Bytes that percent-encoding leaves as they are.
pub open spec fn unreserved(b: u8) -> bool {
    ||| 48 <= b <= 57
    ||| 65 <= b <= 90
    ||| 97 <= b <= 122
    ||| b == 45
    ||| b == 46
    ||| b == 95
    ||| b == 126
}

/// The upper-case hexadecimal digit for `d` (`0 <= d < 16`).
pub open spec fn hex_upper(d: int) -> char {
    if d < 10 {
        (d + 48) as char
    } else {
        (d - 10 + 65) as char
    }
}

/// The encoding of one byte: itself when unreserved, else `%XX`.
pub open spec fn encode_byte(b: u8) -> Seq<char> {
    if unreserved(b) {
        seq![byte_char(b as int)]
    } else {
        seq!['%', hex_upper(b as int / 16), hex_upper(b as int % 16)]
    }
}

/// Percent-encoding of the bytes `b`.
pub open spec fn url_encode_bytes(b: Seq<u8>) -> Seq<char>
    decreases b.len(),
{
    if b.len() == 0 {
        Seq::empty()
    } else {
        encode_byte(b[0]) + url_encode_bytes(b.drop_first())
    }
}

/// Percent-encoding of the UTF-8 bytes of `s`.
pub open spec fn url_encoded(s: Seq<char>) -> Seq<char> {
    url_encode_bytes(encode_utf8(s))
}

fn hex_upper_char(d: u8) -> (c: char)
    requires
        d < 16,
    ensures
        c == hex_upper(d as int),
{
    if d < 10 {
        (d + 48) as char
    } else {
        (d - 10 + 65) as char
    }
}

/// Percent-encodes a query value, keeping only ASCII letters, digits and
/// `-._~` as they are.
pub fn url_encode(s: &str) -> (out: String)
    ensures
        out@ == url_encoded(s@),
{
    let bytes = s.as_bytes();
    let n = bytes.len();
    let mut out = String::new();
    let mut i: usize = 0;
    assert(bytes@.skip(0) =~= bytes@);
    assert(out@ + url_encode_bytes(bytes@.skip(0)) =~= url_encode_bytes(bytes@));
    while i < n
        invariant
            n == bytes@.len(),
            bytes@ == encode_utf8(s@),
            i <= n,
            out@ + url_encode_bytes(bytes@.skip(i as int)) == url_encode_bytes(bytes@),
        decreases n - i,
    {
        let byte = bytes[i];
        let ghost before = out@;
        let ok = (byte >= 48 && byte <= 57) || (byte >= 65 && byte <= 90) || (byte >= 97 && byte
            <= 122) || byte == 45 || byte == 46 || byte == 95 || byte == 126;
        if ok {
            push_char(&mut out, byte as char);
        } else {
            push_char(&mut out, '%');
            push_char(&mut out, hex_upper_char(byte / 16));
            push_char(&mut out, hex_upper_char(byte % 16));
        }
        assert(bytes@.skip(i as int).drop_first() =~= bytes@.skip(i + 1));
        assert(out@ =~= before + encode_byte(byte));
        assert(out@ + url_encode_bytes(bytes@.skip(i + 1)) =~= before + url_encode_bytes(
            bytes@.skip(i as int),
        ));
        i = i + 1;
    }
    assert(bytes@.skip(n as int) =~= Seq::<u8>::empty());
    assert(out@ =~= out@ + url_encode_bytes(bytes@.skip(n as int)));
    out
}

// ---------------------------------------------------------------------------
// Query strings
// ---------------------------------------------------------------------------

/// The view of an optional string.
pub open spec fn opt_view(o: Option<String>) -> Option<Seq<char>> {
    match o {
        Some(s) => Some(s@),
        None => None,
    }
}

/// The list filters after reading one `key=value` pair: `status` and
/// `assignee` set their filter to the decoded value, anything else (and a
/// pair without `=`) leaves both as they were.
pub open spec fn apply_pair(
    pair: Seq<char>,
    status: Option<Seq<char>>,
    assignee: Option<Seq<char>>,
) -> (Option<Seq<char>>, Option<Seq<char>>) {
    match find(pair, seq!['=']) {
        Some(k) => {
            let key = pair.subrange(0, k);
            let value = pair.subrange(k + 1, pair.len() as int);
            if key == "status"@ {
                (Some(url_decoded(value)), assignee)
            } else if key == "assignee"@ {
                (status, Some(url_decoded(value)))
            } else {
                (status, assignee)
            }
        },
        None => (status, assignee),
    }
}

/// The filters after reading the `&`-separated pairs of `q` that start at
/// position `i` or later.
pub open spec fn query_from(
    q: Seq<char>,
    i: int,
    status: Option<Seq<char>>,
    assignee: Option<Seq<char>>,
) -> (Option<Seq<char>>, Option<Seq<char>>)
    decreases q.len() + 1 - i,
{
    if i < 0 || i > q.len() {
        (status, assignee)
    } else {
        match find_from(q, seq!['&'], i) {
            Some(j) => {
                let (s2, a2) = apply_pair(q.subrange(i, j), status, assignee);
                if j < i || j >= q.len() {
                    (s2, a2)
                } else {
                    query_from(q, j + 1, s2, a2)
                }
            },
            None => apply_pair(q.subrange(i, q.len() as int), status, assignee),
        }
    }
}

/// The `(status, assignee)` filters a query string asks for; a later pair for
/// the same key wins.
pub open spec fn query_filters(q: Seq<char>) -> (Option<Seq<char>>, Option<Seq<char>>) {
    query_from(q, 0, None, None)
}

fn read_pair(pair: &[char], status: Option<String>, assignee: Option<String>) -> (r: (
    Option<String>,
    Option<String>,
))
    ensures
        (opt_view(r.0), opt_view(r.1)) == apply_pair(pair@, opt_view(status), opt_view(assignee)),
{
    let n = pair.len();
    let eq = ['='];
    assert(eq@ =~= seq!['=']);
    match find_chars(pair, &eq) {
        Some(k) => {
            proof {
                lemma_find_from_bounds(pair@, seq!['='], 0);
            }
            assert(k < n);
            let key = sub_chars(pair, 0, k);
            let value = sub_chars(pair, k + 1, n);
            let value_str = string_of(&value);
            let status_key = chars_of("status");
            let assignee_key = chars_of("assignee");
            if chars_eq(&key, &status_key) {
                (Some(url_decode(value_str.as_str())), assignee)
            } else if chars_eq(&key, &assignee_key) {
                (status, Some(url_decode(value_str.as_str())))
            } else {
                (status, assignee)
            }
        },
        None => (status, assignee),
    }
}

/// Reads the `status` and `assignee` filters of a list query.
pub fn parse_query(query: &str) -> (r: (Option<String>, Option<String>))
    ensures
        (opt_view(r.0), opt_view(r.1)) == query_filters(query@),
{
    let q = chars_of(query);
    let n = q.len();
    let amp = ['&'];
    assert(amp@ =~= seq!['&']);
    let mut status: Option<String> = None;
    let mut assignee: Option<String> = None;
    let mut i: usize = 0;
    loop
        invariant
            q@ == query@,
            n == q@.len(),
            amp@ == seq!['&'],
            i <= q@.len(),
            query_from(q@, i as int, opt_view(status), opt_view(assignee)) == query_filters(q@),
        decreases q@.len() + 1 - i,
    {
        match find_chars_from(&q, &amp, i) {
            Some(j) => {
                proof {
                    lemma_find_from_bounds(q@, seq!['&'], i as int);
                }
                assert(j < n);
                let pair = sub_chars(&q, i, j);
                let (s2, a2) = read_pair(&pair, status, assignee);
                status = s2;
                assignee = a2;
                i = j + 1;
            },
            None => {
                let pair = sub_chars(&q, i, q.len());
                return read_pair(&pair, status, assignee);
            },
        }
    }
}

// ---------------------------------------------------------------------------
// JSON strings
// ---------------------------------------------------------------------------

/// How one character appears inside a JSON string: `"` and `\` are
/// backslash-escaped, line feed, carriage return, tab, backspace and form
/// feed take their short escapes, other characters below U+0020 take
/// `\u00XX`, and every other character stands for itself.
pub open spec fn json_escape_char(c: char) -> Seq<char> {
    if c == '"' {
        seq!['\\', '"']
    } else if c == '\\' {
        seq!['\\', '\\']
    } else if c == '\n' {
        seq!['\\', 'n']
    } else if c == '\r' {
        seq!['\\', 'r']
    } else if c == '\t' {
        seq!['\\', 't']
    } else if c == '\x08' {
        seq!['\\', 'b']
    } else if c == '\x0c' {
        seq!['\\', 'f']
    } else if (c as u32) < 0x20 {
        seq!['\\', 'u', '0', '0', hex_upper((c as u32) as int / 16), hex_upper((c as u32) as int % 16)]
    } else {
        seq![c]
    }
}

/// The text of a JSON string holding `s`, without the surrounding quotes.
pub open spec fn json_escaped(s: Seq<char>) -> Seq<char>
    decreases s.len(),
{
    if s.len() == 0 {
        Seq::empty()
    } else {
        json_escaped(s.drop_last()) + json_escape_char(s.last())
    }
}

/// A JSON error body: an object whose `error` field is the string `msg`.
pub open spec fn error_body(msg: Seq<char>) -> Seq<char> {
    "{\"error\":\""@ + json_escaped(msg) + "\"}"@
}

fn push_json_char(r: &mut String, c: char)
    ensures
        final(r)@ == old(r)@ + json_escape_char(c),
{
    if c == '"' {
        r.append("\\\"");
    } else if c == '\\' {
        r.append("\\\\");
    } else if c == '\n' {
        r.append("\\n");
    } else if c == '\r' {
        r.append("\\r");
    } else if c == '\t' {
        r.append("\\t");
    } else if c == '\x08' {
        r.append("\\b");
    } else if c == '\x0c' {
        r.append("\\f");
    } else if (c as u32) < 0x20 {
        let v = c as u32;
        r.append("\\u00");
        push_char(r, hex_upper_char((v / 16) as u8));
        push_char(r, hex_upper_char((v % 16) as u8));
    } else {
        push_char(r, c);
    }
    proof {
        reveal_strlit("\\\"");
        reveal_strlit("\\\\");
        reveal_strlit("\\n");
        reveal_strlit("\\r");
        reveal_strlit("\\t");
        reveal_strlit("\\b");
        reveal_strlit("\\f");
        reveal_strlit("\\u00");
        assert(final(r)@ =~= old(r)@ + json_escape_char(c));
    }
}

/// The text of a JSON string holding `s`, without the surrounding quotes.
pub fn json_escape(s: &str) -> (r: String)
    ensures
        r@ == json_escaped(s@),
{
    let cs = chars_of(s);
    let mut r = String::new();
    let mut i: usize = 0;
    while i < cs.len()
        invariant
            i <= cs@.len(),
            cs@ == s@,
            r@ == json_escaped(cs@.subrange(0, i as int)),
        decreases cs.len() - i,
    {
        push_json_char(&mut r, cs[i]);
        assert(cs@.subrange(0, i + 1).drop_last() =~= cs@.subrange(0, i as int));
        i = i + 1;
    }
    assert(cs@.subrange(0, cs@.len() as int) =~= cs@);
    r
}

/// A JSON error body for the message `msg`.
pub fn error_body_exec(msg: &str) -> (r: String)
    ensures
        r@ == error_body(msg@),
{
    let mut r = String::from_str("{\"error\":\"");
    let e = json_escape(msg);
    r.append(e.as_str());
    r.append("\"}");
    r
}

// ---------------------------------------------------------------------------
// Authorization header
// ---------------------------------------------------------------------------

/// The bearer token a single header line carries: the line must start with
/// `authorization:` and what follows, trimmed, with `bearer ` (both without
/// regard to ASCII case); the token is the rest, as sent.
pub open spec fn bearer_of_line(line: Seq<char>) -> Option<Seq<char>> {
    let p = "authorization:"@;
    if p.len() <= line.len() && lower_all(line.subrange(0, p.len() as int)) == p {
        let rest = trim(line.subrange(p.len() as int, line.len() as int));
        let b = "bearer "@;
        if b.len() <= rest.len() && lower_all(rest.subrange(0, b.len() as int)) == b {
            Some(rest.subrange(b.len() as int, rest.len() as int))
        } else {
            None
        }
    } else {
        None
    }
}

/// The token of the first line, from position `i` on, that carries one.
pub open spec fn bearer_from(s: Seq<char>, i: int) -> Option<Seq<char>>
    decreases s.len() - i,
{
    if i < 0 || i >= s.len() {
        None
    } else {
        let (line, next) = line_at(s, i);
        match bearer_of_line(line) {
            Some(t) => Some(t),
            None => if next <= i || next > s.len() {
                None
            } else {
                bearer_from(s, next)
            },
        }
    }
}

/// The bearer token a request carries, if any line does.
pub open spec fn bearer_token(request: Seq<char>) -> Option<Seq<char>> {
    bearer_from(request, 0)
}

fn line_bearer(line: &[char]) -> (r: Option<String>)
    ensures
        opt_view(r) == bearer_of_line(line@),
{
    let low = lower_chars(line);
    let p = chars_of("authorization:");
    if starts_with(&low, &p) {
        assert(lower_all(line@).subrange(0, p@.len() as int) =~= lower_all(
            line@.subrange(0, p@.len() as int),
        ));
        let after = sub_chars(line, p.len(), line.len());
        let rest = trim_chars(&after);
        let b = chars_of("bearer ");
        let lrest = lower_chars(&rest);
        if starts_with(&lrest, &b) {
            assert(lower_all(rest@).subrange(0, b@.len() as int) =~= lower_all(
                rest@.subrange(0, b@.len() as int),
            ));
            let token = sub_chars(&rest, b.len(), rest.len());
            Some(string_of(&token))
        } else {
            proof {
                if b@.len() <= rest@.len() {
                    assert(lower_all(rest@).subrange(0, b@.len() as int) =~= lower_all(
                        rest@.subrange(0, b@.len() as int),
                    ));
                }
            }
            None
        }
    } else {
        proof {
            if p@.len() <= line@.len() {
                assert(lower_all(line@).subrange(0, p@.len() as int) =~= lower_all(
                    line@.subrange(0, p@.len() as int),
                ));
            }
        }
        None
    }
}

/// The bearer token, as sent, of the first `Authorization:` line whose value
/// starts with `bearer ` (name and scheme matched without regard to ASCII
/// case).
pub fn extract_bearer(request: &[char]) -> (r: Option<String>)
    ensures
        opt_view(r) == bearer_token(request@),
{
    let n = request.len();
    let mut i: usize = 0;
    while i < n
        invariant
            n == request@.len(),
            i <= n,
            bearer_from(request@, i as int) == bearer_token(request@),
        decreases n - i,
    {
        let (line, next) = line_at_exec(request, i);
        proof {
            lemma_line_at_advances(request@, i as int);
        }
        let t = line_bearer(&line);
        if t.is_some() {
            return t;
        }
        i = next;
    }
    None
}

// ---------------------------------------------------------------------------
// Percent-encoding round trip
// ---------------------------------------------------------------------------

/// The bytes of characters below 128.
pub open spec fn ascii_bytes(cs: Seq<char>) -> Seq<u8> {
    cs.map_values(|c: char| c as u8)
}

proof fn lemma_hex_roundtrip(d: int)
    requires
        0 <= d < 16,
    ensures
        hex_value(hex_upper(d) as u8) == Some(d as u8),
{
}

proof fn lemma_decode_shift(p: Seq<u8>, q: Seq<u8>, i: int)
    requires
        0 <= i,
    ensures
        url_decode_from(p + q, p.len() + i) == url_decode_from(q, i),
    decreases q.len() - i,
{
    let b = p + q;
    let k = p.len() + i;
    if i >= q.len() {
    } else {
        assert(b[k] == q[i]);
        if i + 1 < q.len() {
            assert(b[k + 1] == q[i + 1]);
        }
        if i + 2 < q.len() {
            assert(b[k + 2] == q[i + 2]);
        }
        lemma_decode_shift(p, q, i + 1);
        if i + 2 < q.len() {
            lemma_decode_shift(p, q, i + 3);
        }
    }
}

proof fn lemma_encoded_ascii(b: Seq<u8>)
    ensures
        is_ascii_chars(url_encode_bytes(b)),
    decreases b.len(),
{
    if b.len() > 0 {
        lemma_encoded_ascii(b.drop_first());
        let h = encode_byte(b[0]);
        let r = url_encode_bytes(b.drop_first());
        assert(is_ascii_chars(h));
        assert(url_encode_bytes(b) =~= h + r);
    }
}

proof fn lemma_roundtrip_bytes(b: Seq<u8>)
    requires
        forall|i: int| 0 <= i < b.len() ==> #[trigger] b[i] < 128,
    ensures
        url_decode_from(ascii_bytes(url_encode_bytes(b)), 0) == b.map_values(|x: u8| byte_char(x as int)),
    decreases b.len(),
{
    if b.len() == 0 {
        assert(ascii_bytes(url_encode_bytes(b)) =~= Seq::<u8>::empty());
        assert(b.map_values(|x: u8| byte_char(x as int)) =~= Seq::<char>::empty());
    } else {
        let x = b[0];
        let rest = b.drop_first();
        assert forall|i: int| 0 <= i < rest.len() implies #[trigger] rest[i] < 128 by {
            assert(rest[i] == b[i + 1]);
        }
        lemma_roundtrip_bytes(rest);
        let h = ascii_bytes(encode_byte(x));
        let q = ascii_bytes(url_encode_bytes(rest));
        assert(ascii_bytes(url_encode_bytes(b)) =~= h + q);
        lemma_decode_shift(h, q, 0);
        let whole = h + q;
        if unreserved(x) {
            assert(whole[0] == x);
            assert(url_decode_from(whole, 0) == seq![byte_char(x as int)] + url_decode_from(whole, 1));
        } else {
            lemma_hex_roundtrip(x as int / 16);
            lemma_hex_roundtrip(x as int % 16);
            assert(whole[0] == 37);
            assert(whole[1] == hex_upper(x as int / 16) as u8);
            assert(whole[2] == hex_upper(x as int % 16) as u8);
            assert(url_decode_from(whole, 0) == seq![byte_char(x as int)] + url_decode_from(whole, 3));
        }
        assert(b.map_values(|x: u8| byte_char(x as int)) =~= seq![byte_char(x as int)]
            + rest.map_values(|x: u8| byte_char(x as int)));
    }
}

/// Percent-decoding undoes percent-encoding for ASCII text: a list filter the
/// client encodes is read back unchanged by the server.
pub proof fn law_url_roundtrip(s: Seq<char>)
    requires
        is_ascii_chars(s),
    ensures
        url_decoded(url_encoded(s)) == s,
{
    is_ascii_chars_encode_utf8(s);
    let b = encode_utf8(s);
    assert forall|i: int| 0 <= i < b.len() implies #[trigger] b[i] < 128 by {
        assert(s[i] as u8 == b[i]);
    }
    lemma_roundtrip_bytes(b);
    let e = url_encode_bytes(b);
    lemma_encoded_ascii(b);
    is_ascii_chars_encode_utf8(e);
    assert(encode_utf8(e) =~= ascii_bytes(e));
    assert(b.map_values(|x: u8| byte_char(x as int)) =~= s) by {
        assert forall|i: int| 0 <= i < s.len() implies b.map_values(|x: u8| byte_char(x as int))[i]
            == s[i] by {
            assert(s[i] as u8 == b[i]);
        }
    }
}

/// The characters percent-encoding produces: letters, digits, `-._~` and `%`.
pub open spec fn url_safe(c: char) -> bool {
    ||| '0' <= c <= '9'
    ||| 'A' <= c <= 'Z'
    ||| 'a' <= c <= 'z'
    ||| c == '-'
    ||| c == '.'
    ||| c == '_'
    ||| c == '~'
    ||| c == '%'
}

/// Percent-encoded text consists of `url_safe` characters only.
pub proof fn lemma_encoded_safe(b: Seq<u8>)
    ensures
        forall|i: int| 0 <= i < url_encode_bytes(b).len() ==> url_safe(#[trigger] url_encode_bytes(b)[i]),
    decreases b.len(),
{
    if b.len() > 0 {
        lemma_encoded_safe(b.drop_first());
        let h = encode_byte(b[0]);
        let r = url_encode_bytes(b.drop_first());
        assert(url_encode_bytes(b) =~= h + r);
        assert forall|i: int| 0 <= i < url_encode_bytes(b).len() implies url_safe(
            #[trigger] url_encode_bytes(b)[i],
        ) by {
            if i >= h.len() {
                assert(url_encode_bytes(b)[i] == r[i - h.len()]);
            }
        }
    }
}

} // verus!
