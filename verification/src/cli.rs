//! The command-line client: which API call a command makes, the request it
//! sends, how the reply is read off the connection, and what is printed.

use vstd::prelude::*;
use vstd::utf8::*;
use crate::http::{
    apply_pair, find_subseq, law_url_roundtrip, lemma_encoded_safe, opt_view, query_filters,
    query_from,
    url_encode, url_encoded, url_safe,
};
use crate::ticket::{Comment, CommentView, Ticket, TicketView, tickets_view};
use crate::text::{
    chars_eq, chars_of, dec, find, find_chars, find_chars_from, find_from, first_line,
    lemma_find_char_at, lemma_find_char_none, lemma_find_from_bounds, line_at_exec, lower_all,
    lower_chars, nth_word, nth_word_of, parse_u64,
    parse_unsigned, push_decimal, push_padded_decimal, str_from_utf8, string_of, sub_chars, trim,
    trim_chars,
    utf8_bytes, zero_pad,
};

verus! {

// ---------------------------------------------------------------------------
// Terminal and runtime
// ---------------------------------------------------------------------------

/// A call on the client's host: write to a terminal stream, or shut down.
pub enum HostCall {
    WriteStdout(Vec<u8>),
    WriteStderr(Vec<u8>),
    Shutdown,
}

/// Writes `s` to standard output.
pub fn out(s: &str) -> (c: HostCall)
    ensures
        c matches HostCall::WriteStdout(b) && b@ == encode_utf8(s@),
{
    HostCall::WriteStdout(utf8_bytes(s))
}

/// Writes `s` to standard error.
pub fn err(s: &str) -> (c: HostCall)
    ensures
        c matches HostCall::WriteStderr(b) && b@ == encode_utf8(s@),
{
    HostCall::WriteStderr(utf8_bytes(s))
}

/// Stops the client.
pub fn shutdown_now() -> (c: HostCall)
    ensures
        c is Shutdown,
{
    HostCall::Shutdown
}

// ---------------------------------------------------------------------------
// Commands
// ---------------------------------------------------------------------------

/// The server address used when a command names none.
pub open spec fn default_api_address() -> Seq<char> {
    "127.0.0.1:8443"@
}

/// The server address used when a command names none.
pub fn default_api() -> (s: String)
    ensures
        s@ == default_api_address(),
{
    String::from_str("127.0.0.1:8443")
}

/// A command as the client is started with it.
pub struct CliCommand {
    pub cmd: String,
    pub api: String,
    pub token: String,
    pub id: Option<u64>,
    pub title: Option<String>,
    pub body: Option<String>,
    pub reporter: Option<String>,
    pub assignee: Option<String>,
    pub status: Option<String>,
    pub author: Option<String>,
}

/// A line the client prints on standard error.
pub open spec fn error_line(msg: Seq<char>) -> Seq<char> {
    "tickets-cli: "@ + msg + "\n"@
}

/// The error line for a failed command.
pub fn error_line_exec(msg: &str) -> (s: String)
    ensures
        s@ == error_line(msg@),
{
    let mut s = String::from_str("tickets-cli: ");
    s.append(msg);
    s.append("\n");
    s
}

/// The complaint when the start-up state is not a string.
pub fn bad_state_line() -> (s: String)
    ensures
        s@ == "tickets-cli: expected initial_state = JSON string with {cmd, ...}\n"@,
{
    String::from_str("tickets-cli: expected initial_state = JSON string with {cmd, ...}\n")
}

/// The complaint when the start-up state does not decode, with the decoder's
/// message.
pub fn parse_error_line(e: &str) -> (s: String)
    ensures
        s@ == "tickets-cli: parse error: "@ + e@ + "\n"@,
{
    let mut s = String::from_str("tickets-cli: parse error: ");
    s.append(e);
    s.append("\n");
    s
}

/// What is wrong with a decoded command before anything is sent: the command
/// and the token must be non-empty.
pub open spec fn command_problem(cmd: Seq<char>, token: Seq<char>) -> Option<Seq<char>> {
    if cmd.len() == 0 {
        Some("tickets-cli: missing 'cmd' field\n"@)
    } else if token.len() == 0 {
        Some("tickets-cli: missing 'token' field (set TICKETS_TOKEN)\n"@)
    } else {
        None
    }
}

/// Checks the command and token of a decoded command.
pub fn check_command(req: &CliCommand) -> (r: Option<String>)
    ensures
        opt_view(r) == command_problem(req.cmd@, req.token@),
{
    if req.cmd.as_str().is_empty() {
        Some(String::from_str("tickets-cli: missing 'cmd' field\n"))
    } else if req.token.as_str().is_empty() {
        Some(String::from_str("tickets-cli: missing 'token' field (set TICKETS_TOKEN)\n"))
    } else {
        None
    }
}

// ---------------------------------------------------------------------------
// The API call a command makes
// ---------------------------------------------------------------------------

/// The JSON body a command sends, as fields the caller encodes.
pub enum RequestBody {
    Create { title: String, body: String, reporter: String, assignee: String },
    Comment { author: String, body: String },
    Status { status: String },
}

/// The value of a request body.
pub enum RequestBodyView {
    Create { title: Seq<char>, body: Seq<char>, reporter: Seq<char>, assignee: Seq<char> },
    Comment { author: Seq<char>, body: Seq<char> },
    Status { status: Seq<char> },
}

impl View for RequestBody {
    type V = RequestBodyView;

    open spec fn view(&self) -> RequestBodyView {
        match self {
            RequestBody::Create { title, body, reporter, assignee } => RequestBodyView::Create {
                title: title@,
                body: body@,
                reporter: reporter@,
                assignee: assignee@,
            },
            RequestBody::Comment { author, body } => RequestBodyView::Comment {
                author: author@,
                body: body@,
            },
            RequestBody::Status { status } => RequestBodyView::Status { status: status@ },
        }
    }
}

/// Which command an API call serves, which decides how its reply is read.
#[derive(PartialEq, Eq, Structural, Clone, Copy)]
pub enum CallKind {
    List,
    New,
    Show,
    Comment,
    Status,
}

/// An API call: method, path, optional body, and what it is for.
pub struct ApiCall {
    pub method: String,
    pub path: String,
    pub body: Option<RequestBody>,
    pub kind: CallKind,
}

/// The value of an API call.
pub struct ApiCallView {
    pub method: Seq<char>,
    pub path: Seq<char>,
    pub body: Option<RequestBodyView>,
    pub kind: CallKind,
}

impl View for ApiCall {
    type V = ApiCallView;

    open spec fn view(&self) -> ApiCallView {
        ApiCallView {
            method: self.method@,
            path: self.path@,
            body: match self.body {
                Some(b) => Some(b@),
                None => None,
            },
            kind: self.kind,
        }
    }
}

/// The query string of a list command: `status=<s>` and `assignee=<a>`,
/// percent-encoded, joined by `&`, each only when given.
pub open spec fn list_query(status: Option<Seq<char>>, assignee: Option<Seq<char>>) -> Seq<char> {
    let s = match status {
        Some(v) => "status="@ + url_encoded(v),
        None => Seq::empty(),
    };
    match assignee {
        Some(a) => if s.len() == 0 {
            "assignee="@ + url_encoded(a)
        } else {
            s + "&"@ + "assignee="@ + url_encoded(a)
        },
        None => s,
    }
}

/// The path a list command asks for.
pub open spec fn list_path(status: Option<Seq<char>>, assignee: Option<Seq<char>>) -> Seq<char> {
    let q = list_query(status, assignee);
    if q.len() == 0 {
        "/v1/tickets"@
    } else {
        "/v1/tickets?"@ + q
    }
}

/// The API call a command makes, or why it makes none.
pub open spec fn plan(
    cmd: Seq<char>,
    id: Option<u64>,
    title: Option<Seq<char>>,
    body: Option<Seq<char>>,
    reporter: Option<Seq<char>>,
    assignee: Option<Seq<char>>,
    status: Option<Seq<char>>,
    author: Option<Seq<char>>,
) -> Result<ApiCallView, Seq<char>> {
    if cmd == "list"@ {
        Ok(ApiCallView {
            method: "GET"@,
            path: list_path(status, assignee),
            body: None,
            kind: CallKind::List,
        })
    } else if cmd == "new"@ {
        if title is None {
            Err("new: --title required"@)
        } else if reporter is None {
            Err("new: --reporter required"@)
        } else if assignee is None {
            Err("new: --assignee required"@)
        } else {
            Ok(ApiCallView {
                method: "POST"@,
                path: "/v1/tickets"@,
                body: Some(RequestBodyView::Create {
                    title: title->0,
                    body: match body {
                        Some(b) => b,
                        None => Seq::empty(),
                    },
                    reporter: reporter->0,
                    assignee: assignee->0,
                }),
                kind: CallKind::New,
            })
        }
    } else if cmd == "show"@ {
        match id {
            None => Err("show: --id required"@),
            Some(n) => Ok(ApiCallView {
                method: "GET"@,
                path: "/v1/tickets/"@ + dec(n as nat),
                body: None,
                kind: CallKind::Show,
            }),
        }
    } else if cmd == "status"@ {
        if id is None {
            Err("status: --id required"@)
        } else if status is None {
            Err("status: --status required"@)
        } else {
            Ok(ApiCallView {
                method: "POST"@,
                path: "/v1/tickets/"@ + dec(id->0 as nat) + "/status"@,
                body: Some(RequestBodyView::Status { status: status->0 }),
                kind: CallKind::Status,
            })
        }
    } else if cmd == "comment"@ {
        if id is None {
            Err("comment: --id required"@)
        } else if author is None {
            Err("comment: --author required"@)
        } else if body is None {
            Err("comment: --body required"@)
        } else {
            Ok(ApiCallView {
                method: "POST"@,
                path: "/v1/tickets/"@ + dec(id->0 as nat) + "/comment"@,
                body: Some(RequestBodyView::Comment { author: author->0, body: body->0 }),
                kind: CallKind::Comment,
            })
        }
    } else {
        Err("unknown cmd: "@ + cmd)
    }
}

/// The plan for a command's fields.
pub open spec fn command_plan(req: CliCommand) -> Result<ApiCallView, Seq<char>> {
    plan(
        req.cmd@,
        req.id,
        opt_view(req.title),
        opt_view(req.body),
        opt_view(req.reporter),
        opt_view(req.assignee),
        opt_view(req.status),
        opt_view(req.author),
    )
}

fn list_call(status: &Option<String>, assignee: &Option<String>) -> (c: ApiCall)
    ensures
        c@ == (ApiCallView {
            method: "GET"@,
            path: list_path(opt_view(*status), opt_view(*assignee)),
            body: None,
            kind: CallKind::List,
        }),
{
    let mut query = String::new();
    if let Some(s) = status {
        query.append("status=");
        let e = url_encode(s.as_str());
        query.append(e.as_str());
    }
    if let Some(a) = assignee {
        if !query.as_str().is_empty() {
            query.append("&");
        }
        query.append("assignee=");
        let e = url_encode(a.as_str());
        query.append(e.as_str());
    }
    let path = if query.as_str().is_empty() {
        String::from_str("/v1/tickets")
    } else {
        let mut p = String::from_str("/v1/tickets?");
        p.append(query.as_str());
        p
    };
    proof {
        let s = match opt_view(*status) {
            Some(v) => "status="@ + url_encoded(v),
            None => Seq::<char>::empty(),
        };
        if status is Some {
            assert(s.len() > 0) by {
                reveal_strlit("status=");
            }
        }
        if assignee is Some && status is Some {
            assert(query@ =~= list_query(opt_view(*status), opt_view(*assignee)));
        }
        assert(query@ =~= list_query(opt_view(*status), opt_view(*assignee)));
    }
    ApiCall { method: String::from_str("GET"), path, body: None, kind: CallKind::List }
}

fn id_path(id: u64, suffix: &str) -> (p: String)
    ensures
        p@ == "/v1/tickets/"@ + dec(id as nat) + suffix@,
{
    let mut p = String::from_str("/v1/tickets/");
    push_decimal(&mut p, id);
    p.append(suffix);
    p
}

/// The API call a command makes, or the message saying why it makes none:
/// `list`, `new`, `show`, `status` and `comment` each check their required
/// options in order; any other command is unknown.
pub fn run(req: &CliCommand) -> (r: Result<ApiCall, String>)
    ensures
        match r {
            Ok(c) => command_plan(*req) == Ok::<ApiCallView, Seq<char>>(c@),
            Err(e) => command_plan(*req) == Err::<ApiCallView, Seq<char>>(e@),
        },
{
    let cmd = req.cmd.as_str();
    let list = String::from_str("list");
    let new = String::from_str("new");
    let show = String::from_str("show");
    let status = String::from_str("status");
    let comment = String::from_str("comment");
    if req.cmd == list {
        Ok(list_call(&req.status, &req.assignee))
    } else if req.cmd == new {
        match (&req.title, &req.reporter, &req.assignee) {
            (None, _, _) => Err(String::from_str("new: --title required")),
            (Some(_), None, _) => Err(String::from_str("new: --reporter required")),
            (Some(_), Some(_), None) => Err(String::from_str("new: --assignee required")),
            (Some(t), Some(rp), Some(a)) => {
                let b = match &req.body {
                    Some(b) => b.clone(),
                    None => String::new(),
                };
                Ok(ApiCall {
                    method: String::from_str("POST"),
                    path: String::from_str("/v1/tickets"),
                    body: Some(RequestBody::Create {
                        title: t.clone(),
                        body: b,
                        reporter: rp.clone(),
                        assignee: a.clone(),
                    }),
                    kind: CallKind::New,
                })
            },
        }
    } else if req.cmd == show {
        match req.id {
            None => Err(String::from_str("show: --id required")),
            Some(n) => {
                let path = id_path(n, "");
                proof {
                    reveal_strlit("");
                    assert(path@ =~= "/v1/tickets/"@ + dec(n as nat));
                }
                Ok(ApiCall { method: String::from_str("GET"), path, body: None, kind: CallKind::Show })
            },
        }
    } else if req.cmd == status {
        match (req.id, &req.status) {
            (None, _) => Err(String::from_str("status: --id required")),
            (Some(_), None) => Err(String::from_str("status: --status required")),
            (Some(n), Some(st)) => Ok(ApiCall {
                method: String::from_str("POST"),
                path: id_path(n, "/status"),
                body: Some(RequestBody::Status { status: st.clone() }),
                kind: CallKind::Status,
            }),
        }
    } else if req.cmd == comment {
        match (req.id, &req.author, &req.body) {
            (None, _, _) => Err(String::from_str("comment: --id required")),
            (Some(_), None, _) => Err(String::from_str("comment: --author required")),
            (Some(_), Some(_), None) => Err(String::from_str("comment: --body required")),
            (Some(n), Some(a), Some(b)) => Ok(ApiCall {
                method: String::from_str("POST"),
                path: id_path(n, "/comment"),
                body: Some(RequestBody::Comment { author: a.clone(), body: b.clone() }),
                kind: CallKind::Comment,
            }),
        }
    } else {
        let mut m = String::from_str("unknown cmd: ");
        m.append(cmd);
        Err(m)
    }
}

// ---------------------------------------------------------------------------
// The request on the wire
// ---------------------------------------------------------------------------

/// The text of the request an API call sends: request line, `Host`,
/// `Authorization: Bearer <token>` and `Connection: close`, then either an
/// empty line, or a JSON content type, the byte length of the body, an empty
/// line and the body.
pub open spec fn request_text(
    method: Seq<char>,
    path: Seq<char>,
    api: Seq<char>,
    token: Seq<char>,
    body: Option<Seq<char>>,
) -> Seq<char> {
    method + " "@ + path + " HTTP/1.1\r\nHost: "@ + api + "\r\nAuthorization: Bearer "@ + token
        + "\r\nConnection: close\r\n"@ + match body {
        Some(b) => "Content-Type: application/json\r\nContent-Length: "@ + dec(
            encode_utf8(b).len(),
        ) + "\r\n\r\n"@ + b,
        None => "\r\n"@,
    }
}

/// Where to connect and what to send.
pub struct HttpCall {
    pub address: String,
    pub request: Vec<u8>,
}

/// The bytes of a request to the server at `api`, with bearer `token`.
pub fn request_bytes(api: &str, token: &str, method: &str, path: &str, body: Option<&str>) -> (b: Vec<
    u8,
>)
    ensures
        b@ == encode_utf8(
            request_text(
                method@,
                path@,
                api@,
                token@,
                match body {
                    Some(x) => Some(x@),
                    None => None,
                },
            ),
        ),
{
    let mut t = String::from_str(method);
    t.append(" ");
    t.append(path);
    t.append(" HTTP/1.1\r\nHost: ");
    t.append(api);
    t.append("\r\nAuthorization: Bearer ");
    t.append(token);
    t.append("\r\nConnection: close\r\n");
    match body {
        Some(b) => {
            t.append("Content-Type: application/json\r\nContent-Length: ");
            let encoded = utf8_bytes(b);
            push_decimal(&mut t, encoded.len() as u64);
            t.append("\r\n\r\n");
            t.append(b);
        },
        None => {
            t.append("\r\n");
        },
    }
    let ghost bv = match body {
        Some(b) => Some(b@),
        None => None,
    };
    assert(t@ =~= request_text(method@, path@, api@, token@, bv));
    utf8_bytes(t.as_str())
}

/// The connection and request for an API call to the command's server, with
/// the command's token.
pub fn http(req: &CliCommand, method: &str, path: &str, body: Option<&str>) -> (c: HttpCall)
    ensures
        c.address@ == req.api@,
        c.request@ == encode_utf8(
            request_text(
                method@,
                path@,
                req.api@,
                req.token@,
                match body {
                    Some(b) => Some(b@),
                    None => None,
                },
            ),
        ),
{
    let request = request_bytes(req.api.as_str(), req.token.as_str(), method, path, body);
    HttpCall { address: req.api.clone(), request }
}

/// The message for a failed connection attempt.
pub fn connect_failed(api: &str, e: &str) -> (m: String)
    ensures
        m@ == "connect to "@ + api@ + ": "@ + e@,
{
    let mut m = String::from_str("connect to ");
    m.append(api);
    m.append(": ");
    m.append(e);
    m
}

/// The message for a failed send.
pub fn send_failed(e: &str) -> (m: String)
    ensures
        m@ == "send: "@ + e@,
{
    let mut m = String::from_str("send: ");
    m.append(e);
    m
}

/// The message for a request body that could not be encoded.
pub fn encode_failed(e: &str) -> (m: String)
    ensures
        m@ == "encode body: "@ + e@,
{
    let mut m = String::from_str("encode body: ");
    m.append(e);
    m
}

// ---------------------------------------------------------------------------
// Reading the reply
// ---------------------------------------------------------------------------

/// The bytes of `\r\n\r\n`, which end the head of an HTTP message.
pub open spec fn head_end() -> Seq<u8> {
    seq![13u8, 10u8, 13u8, 10u8]
}

/// The `Content-Length` a header line sets, if it is one with a value that
/// reads as a `usize`: the name before the first `:`, trimmed, equals
/// `content-length` without regard to ASCII case; the value after it, trimmed,
/// is the number.
pub open spec fn line_content_length(line: Seq<char>, cur: Option<nat>) -> Option<nat> {
    match find(line, seq![':']) {
        Some(k) => if lower_all(trim(line.subrange(0, k))) == "content-length"@ {
            match parse_unsigned(trim(line.subrange(k + 1, line.len() as int)), usize::MAX as nat) {
                Some(n) => Some(n),
                None => cur,
            }
        } else {
            cur
        },
        None => cur,
    }
}

/// The `Content-Length` the `\r\n`-separated lines of `h` from position `i`
/// on set, the last one winning, starting from `cur`.
pub open spec fn content_length_from(h: Seq<char>, i: int, cur: Option<nat>) -> Option<nat>
    decreases h.len() + 1 - i,
{
    if i < 0 || i > h.len() {
        cur
    } else {
        match find_from(h, "\r\n"@, i) {
            Some(j) => if j < i || j + 2 > h.len() {
                cur
            } else {
                content_length_from(h, j + 2, line_content_length(h.subrange(i, j), cur))
            },
            None => line_content_length(h.subrange(i, h.len() as int), cur),
        }
    }
}

/// The `Content-Length` of a response head, if any line gives one.
pub open spec fn content_length_of(head: Seq<char>) -> Option<nat> {
    content_length_from(head, 0, None)
}

/// The text of the head bytes, or nothing when they are not UTF-8.
pub open spec fn head_text(bytes: Seq<u8>) -> Seq<char> {
    if valid_utf8(bytes) {
        decode_utf8(bytes)
    } else {
        Seq::empty()
    }
}

/// How much of a reply has been read: the bytes so far, where the body starts
/// once the end of the head has been seen, and the length the head announced
/// (`usize::MAX` when it announced none).
pub struct ResponseReader {
    pub received: Vec<u8>,
    pub body_start: Option<usize>,
    pub content_length: Option<usize>,
}

/// What a reader knows after one more chunk of bytes.
pub open spec fn after_chunk(
    received: Seq<u8>,
    body_start: Option<usize>,
    content_length: Option<usize>,
    chunk: Seq<u8>,
) -> (Seq<u8>, Option<usize>, Option<usize>) {
    let all = received + chunk;
    if body_start is Some {
        (all, body_start, content_length)
    } else {
        match find(all, head_end()) {
            None => (all, body_start, content_length),
            Some(idx) => (
                all,
                Some((idx + 4) as usize),
                Some(
                    match content_length_of(head_text(all.subrange(0, idx))) {
                        Some(n) => n as usize,
                        None => usize::MAX,
                    },
                ),
            ),
        }
    }
}

/// The range of the received bytes that the body occupies: from the end of
/// the head (or the start) to the announced length, cut short by what
/// arrived.
pub open spec fn body_range(
    received: Seq<u8>,
    body_start: Option<usize>,
    content_length: Option<usize>,
) -> (int, int) {
    let len = received.len() as int;
    let start: int = match body_start {
        Some(s) => s as int,
        None => match find(received, head_end()) {
            Some(i) => i + 4,
            None => 0,
        },
    };
    let end: int = match content_length {
        Some(n) => if n != usize::MAX {
            if n < len - start {
                start + n
            } else {
                len
            }
        } else {
            len
        },
        None => len,
    };
    (start, end)
}

/// What the reading loop does next.
pub enum ReadMove {
    /// The announced body has fully arrived: reading is over.
    Done,
    /// Receive another chunk.
    Receive,
}

/// A reply as read: a 2xx status with its body, or another status with its
/// body.
pub enum Reception {
    Success(String),
    Failure { code: u16, body: String },
}

/// The value of a `Reception`.
pub enum ReceptionView {
    Success(Seq<char>),
    Failure { code: u16, body: Seq<char> },
}

impl View for Reception {
    type V = ReceptionView;

    open spec fn view(&self) -> ReceptionView {
        match self {
            Reception::Success(b) => ReceptionView::Success(b@),
            Reception::Failure { code, body } => ReceptionView::Failure { code: *code, body: body@ },
        }
    }
}

/// The status code on the first line of a reply (0 when it does not read as
/// a `u16`).
pub open spec fn status_code(text: Seq<char>) -> u16 {
    match parse_unsigned(nth_word(first_line(text), 1), 65535) {
        Some(c) => c as u16,
        None => 0,
    }
}

/// What the received bytes amount to once reading is over: they must be
/// UTF-8; the body is the text of the body range, and the status code
/// decides between success (200 to 299) and failure.
pub open spec fn reception(
    received: Seq<u8>,
    body_start: Option<usize>,
    content_length: Option<usize>,
) -> Result<ReceptionView, Seq<char>> {
    if !valid_utf8(received) {
        Err("non-utf8 response"@)
    } else {
        let (start, end) = body_range(received, body_start, content_length);
        let body = decode_utf8(received.subrange(start, end));
        let code = status_code(decode_utf8(received));
        if 200 <= code < 300 {
            Ok(ReceptionView::Success(body))
        } else {
            Ok(ReceptionView::Failure { code, body })
        }
    }
}

impl ResponseReader {
    /// The body start never lies past the received bytes.
    pub open spec fn wf(&self) -> bool {
        self.body_start matches Some(s) ==> s <= self.received@.len()
    }

    /// Whether the body has fully arrived. A reply that announced no length
    /// is recorded with the length `usize::MAX`, which no reply reaches: its
    /// body runs to the end of the stream.
    pub open spec fn is_complete(&self) -> bool {
        &&& self.body_start is Some
        &&& self.content_length is Some
        &&& self.received@.len() >= self.body_start->0 + self.content_length->0
    }

    /// Cutting the body out of the text splits a character (the cut-out
    /// bytes do not decode while the whole does).
    pub open spec fn cut_splits_char(&self) -> bool {
        let (start, end) = body_range(self.received@, self.body_start, self.content_length);
        valid_utf8(self.received@) && !valid_utf8(self.received@.subrange(start, end))
    }

    /// A reader that has received nothing.
    pub fn new() -> (r: ResponseReader)
        ensures
            r.received@ == Seq::<u8>::empty(),
            r.body_start is None,
            r.content_length is None,
            r.wf(),
    {
        ResponseReader { received: Vec::new(), body_start: None, content_length: None }
    }

    /// Whether the body start lies within the received bytes.
    pub fn well_formed(&self) -> (b: bool)
        ensures
            b == self.wf(),
    {
        match self.body_start {
            Some(s) => s <= self.received.len(),
            None => true,
        }
    }

    /// The reading loop's next move: stop once the body is complete, else
    /// receive.
    pub fn next_move(&self) -> (m: ReadMove)
        ensures
            (m is Done) == self.is_complete(),
            (m is Receive) == !self.is_complete(),
    {
        if self.complete() {
            ReadMove::Done
        } else {
            ReadMove::Receive
        }
    }

    /// Whether the announced body has fully arrived.
    pub fn complete(&self) -> (b: bool)
        ensures
            b == self.is_complete(),
    {
        match (self.body_start, self.content_length) {
            (Some(hs), Some(cl)) => {
                let n = self.received.len();
                n >= hs && n - hs >= cl
            },
            _ => false,
        }
    }

    /// What a failed receive means: reading is over when the body has fully
    /// arrived, else the exchange fails with `recv: <e>`.
    pub fn receive_failed(&self, e: &str) -> (r: Result<(), String>)
        ensures
            self.is_complete() ==> r is Ok,
            !self.is_complete() ==> (r matches Err(m) && m@ == "recv: "@ + e@),
    {
        if self.complete() {
            Ok(())
        } else {
            let mut m = String::from_str("recv: ");
            m.append(e);
            Err(m)
        }
    }

    /// Takes in one chunk. An empty chunk means the peer is done: nothing
    /// changes and the answer is `false`. Otherwise the chunk is appended and,
    /// as soon as the end of the head is seen, the body start and announced
    /// length are recorded; the answer is `true`.
    pub fn receive(&mut self, chunk: Vec<u8>) -> (more: bool)
        requires
            old(self).wf(),
        ensures
            final(self).wf(),
            more == (chunk@.len() > 0),
            !more ==> *final(self) == *old(self),
            more ==> (final(self).received@, final(self).body_start, final(self).content_length)
                == after_chunk(
                old(self).received@,
                old(self).body_start,
                old(self).content_length,
                chunk@,
            ),
    {
        if chunk.len() == 0 {
            return false;
        }
        let mut i: usize = 0;
        let ghost start = self.received@;
        while i < chunk.len()
            invariant
                i <= chunk@.len(),
                self.received@ == start + chunk@.subrange(0, i as int),
                self.body_start == old(self).body_start,
                self.content_length == old(self).content_length,
                start == old(self).received@,
            decreases chunk.len() - i,
        {
            self.received.push(chunk[i]);
            assert(chunk@.subrange(0, i + 1) =~= chunk@.subrange(0, i as int).push(chunk@[i as int]));
            i = i + 1;
        }
        assert(chunk@.subrange(0, chunk@.len() as int) =~= chunk@);
        if self.body_start.is_none() {
            let sep: [u8; 4] = [13u8, 10u8, 13u8, 10u8];
            assert(sep@ =~= head_end());
            let found = find_subseq(self.received.as_slice(), &sep);
            match found {
                Some(idx) => {
                    proof {
                        lemma_find_from_bounds(self.received@, head_end(), 0);
                    }
                    let len = self.received.len();
                    assert(idx + 4 <= len);
                    let head = read_head(self.received.as_slice(), idx);
                    self.body_start = Some(idx + 4);
                    self.content_length = match content_length_exec(&head) {
                        Some(n) => Some(n),
                        None => Some(usize::MAX),
                    };
                },
                None => {},
            }
        }
        true
    }

    /// Where the body starts and ends in the received bytes.
    fn body_bounds(&self) -> (r: (usize, usize))
        requires
            self.wf(),
        ensures
            (r.0 as int, r.1 as int) == body_range(self.received@, self.body_start, self.content_length),
            r.0 <= r.1 <= self.received@.len(),
    {
        let all = self.received.as_slice();
        let n = all.len();
        let start: usize = match self.body_start {
            Some(s) => s,
            None => {
                let sep: [u8; 4] = [13u8, 10u8, 13u8, 10u8];
                assert(sep@ =~= head_end());
                match find_subseq(all, &sep) {
                    Some(i) => {
                        proof {
                            lemma_find_from_bounds(all@, head_end(), 0);
                        }
                        i + 4
                    },
                    None => 0,
                }
            },
        };
        let end: usize = match self.content_length {
            Some(cl) => if cl != usize::MAX {
                if cl < n - start {
                    start + cl
                } else {
                    n
                }
            } else {
                n
            },
            None => n,
        };
        (start, end)
    }

    /// Whether cutting the body out of the received text would split a
    /// character (see `cut_splits_char`).
    pub fn splits_char(&self) -> (b: bool)
        requires
            self.wf(),
        ensures
            b == self.cut_splits_char(),
    {
        let all = self.received.as_slice();
        if str_from_utf8(all).is_none() {
            return false;
        }
        let (start, end) = self.body_bounds();
        let cut = copy_range(all, start, end);
        str_from_utf8(cut.as_slice()).is_none()
    }

    /// Once reading is over: the body as text and the status it came with,
    /// or `non-utf8 response`.
    pub fn finish(&self) -> (r: Result<Reception, String>)
        requires
            self.wf(),
            !self.cut_splits_char(),
        ensures
            match r {
                Ok(x) => reception(self.received@, self.body_start, self.content_length) == Ok::<
                    ReceptionView,
                    Seq<char>,
                >(x@),
                Err(m) => reception(self.received@, self.body_start, self.content_length) == Err::<
                    ReceptionView,
                    Seq<char>,
                >(m@),
            },
    {
        let all = self.received.as_slice();
        let text = match str_from_utf8(all) {
            Some(t) => t,
            None => {
                return Err(String::from_str("non-utf8 response"));
            },
        };
        let (start, end) = self.body_bounds();
        let cut = copy_range(all, start, end);
        let body = match str_from_utf8(cut.as_slice()) {
            Some(b) => b.to_owned(),
            None => String::new(),
        };
        let chars = chars_of(text);
        let (line, _next) = line_at_exec(&chars, 0);
        let word = nth_word_of(&line, 1);
        let code: u16 = match parse_u64(&word) {
            Some(v) => if v <= 65535 {
                v as u16
            } else {
                0
            },
            None => 0,
        };
        if 200 <= code && code < 300 {
            Ok(Reception::Success(body))
        } else {
            Ok(Reception::Failure { code, body })
        }
    }
}

/// The bytes of `all` from `start` to `end`.
fn copy_range(all: &[u8], start: usize, end: usize) -> (v: Vec<u8>)
    requires
        start <= end <= all@.len(),
    ensures
        v@ == all@.subrange(start as int, end as int),
{
    let mut cut: Vec<u8> = Vec::new();
    let mut k = start;
    while k < end
        invariant
            start <= k <= end <= all@.len(),
            cut@ == all@.subrange(start as int, k as int),
        decreases end - k,
    {
        cut.push(all[k]);
        assert(all@.subrange(start as int, k + 1) =~= all@.subrange(start as int, k as int).push(
            all@[k as int],
        ));
        k = k + 1;
    }
    cut
}

/// The text of the head: the first `idx` received bytes, decoded, or nothing
/// when they are not UTF-8.
fn read_head(all: &[u8], idx: usize) -> (h: Vec<char>)
    requires
        idx <= all@.len(),
    ensures
        h@ == head_text(all@.subrange(0, idx as int)),
{
    let mut bytes: Vec<u8> = Vec::new();
    let mut k: usize = 0;
    while k < idx
        invariant
            k <= idx <= all@.len(),
            bytes@ == all@.subrange(0, k as int),
        decreases idx - k,
    {
        bytes.push(all[k]);
        assert(all@.subrange(0, k + 1) =~= all@.subrange(0, k as int).push(all@[k as int]));
        k = k + 1;
    }
    match str_from_utf8(bytes.as_slice()) {
        Some(t) => chars_of(t),
        None => Vec::new(),
    }
}

fn parse_usize(s: &[char]) -> (r: Option<usize>)
    ensures
        match r {
            Some(v) => parse_unsigned(s@, usize::MAX as nat) == Some(v as nat),
            None => parse_unsigned(s@, usize::MAX as nat) is None,
        },
{
    match parse_u64(s) {
        Some(v) => if v <= usize::MAX as u64 {
            Some(v as usize)
        } else {
            None
        },
        None => {
            proof {
                assert(usize::MAX as nat <= u64::MAX as nat);
            }
            None
        },
    }
}

fn line_content_length_exec(line: &[char], cur: Option<usize>) -> (r: Option<usize>)
    ensures
        match r {
            Some(v) => line_content_length(line@, match cur {
                Some(c) => Some(c as nat),
                None => None,
            }) == Some(v as nat),
            None => line_content_length(line@, match cur {
                Some(c) => Some(c as nat),
                None => None,
            }) is None,
        },
{
    let n = line.len();
    let colon = [':'];
    assert(colon@ =~= seq![':']);
    match find_chars(line, &colon) {
        Some(k) => {
            proof {
                lemma_find_from_bounds(line@, seq![':'], 0);
            }
            assert(k < n);
            let name = sub_chars(line, 0, k);
            let name_t = trim_chars(&name);
            let low = lower_chars(&name_t);
            let target = chars_of("content-length");
            if chars_eq(&low, &target) {
                let value = sub_chars(line, k + 1, n);
                let value_t = trim_chars(&value);
                match parse_usize(&value_t) {
                    Some(v) => Some(v),
                    None => cur,
                }
            } else {
                cur
            }
        },
        None => cur,
    }
}

/// The announced `Content-Length` of a response head.
fn content_length_exec(head: &[char]) -> (r: Option<usize>)
    ensures
        match r {
            Some(v) => content_length_of(head@) == Some(v as nat),
            None => content_length_of(head@) is None,
        },
{
    let n = head.len();
    let crlf = chars_of("\r\n");
    proof {
        reveal_strlit("\r\n");
    }
    assert(crlf@.len() == 2);
    let mut cur: Option<usize> = None;
    let mut i: usize = 0;
    loop
        invariant
            n == head@.len(),
            crlf@ == "\r\n"@,
            crlf@.len() == 2,
            i <= n,
            content_length_from(head@, i as int, match cur {
                Some(c) => Some(c as nat),
                None => None,
            }) == content_length_of(head@),
        decreases n + 1 - i,
    {
        match find_chars_from(head, &crlf, i) {
            Some(j) => {
                proof {
                    lemma_find_from_bounds(head@, crlf@, i as int);
                }
                let line = sub_chars(head, i, j);
                cur = line_content_length_exec(&line, cur);
                i = j + crlf.len();
            },
            None => {
                let line = sub_chars(head, i, n);
                return line_content_length_exec(&line, cur);
            },
        }
    }
}

// ---------------------------------------------------------------------------
// Errors from the server
// ---------------------------------------------------------------------------

/// The message for a reply with a status outside 200 to 299: the status and
/// the server's `error` field, or the whole body when it has none.
pub fn failure_message(code: u16, body: &str, error_field: Option<String>) -> (m: String)
    ensures
        m@ == "HTTP "@ + dec(code as nat) + ": "@ + match error_field {
            Some(e) => e@,
            None => body@,
        },
{
    let mut m = String::from_str("HTTP ");
    push_decimal(&mut m, code as u64);
    m.append(": ");
    match error_field {
        Some(e) => m.append(e.as_str()),
        None => m.append(body),
    }
    m
}

/// What the failure to decode a reply is reported as, by command.
pub open spec fn reply_parse_error(kind: CallKind, e: Seq<char>) -> Seq<char> {
    match kind {
        CallKind::List => "parse /v1/tickets response: "@ + e,
        CallKind::New => "parse create response: "@ + e,
        CallKind::Show => "parse show response: "@ + e,
        CallKind::Comment => "parse comment response: "@ + e,
        CallKind::Status => "parse status response: "@ + e,
    }
}

/// The message for a reply that does not decode.
pub fn reply_parse_failed(kind: CallKind, e: &str) -> (m: String)
    ensures
        m@ == reply_parse_error(kind, e@),
{
    let mut m = match kind {
        CallKind::List => String::from_str("parse /v1/tickets response: "),
        CallKind::New => String::from_str("parse create response: "),
        CallKind::Show => String::from_str("parse show response: "),
        CallKind::Comment => String::from_str("parse comment response: "),
        CallKind::Status => String::from_str("parse status response: "),
    };
    m.append(e);
    m
}

// ---------------------------------------------------------------------------
// Output
// ---------------------------------------------------------------------------

/// `#<id>  [<status>]  <title>  (reporter=<r>, assignee=<a>)` and a newline.
pub open spec fn summary(t: TicketView) -> Seq<char> {
    "#"@ + dec(t.id as nat) + "  ["@ + t.status + "]  "@ + t.title + "  (reporter="@ + t.reporter
        + ", assignee="@ + t.assignee + ")\n"@
}

fn summary_exec(t: &Ticket) -> (s: String)
    ensures
        s@ == summary(t@),
{
    let mut s = String::from_str("#");
    push_decimal(&mut s, t.id);
    s.append("  [");
    s.append(t.status.as_str());
    s.append("]  ");
    s.append(t.title.as_str());
    s.append("  (reporter=");
    s.append(t.reporter.as_str());
    s.append(", assignee=");
    s.append(t.assignee.as_str());
    s.append(")\n");
    s
}

/// The views of a list of strings.
pub open spec fn strings_view(v: Seq<String>) -> Seq<Seq<char>> {
    v.map_values(|s: String| s@)
}

/// What `list` prints: one summary per ticket, or `(no tickets)`.
pub open spec fn list_output(ts: Seq<TicketView>) -> Seq<Seq<char>> {
    if ts.len() == 0 {
        seq!["(no tickets)\n"@]
    } else {
        ts.map_values(|t: TicketView| summary(t))
    }
}

/// The pieces `list` prints, in order.
pub fn render_list(ts: &Vec<Ticket>) -> (r: Vec<String>)
    ensures
        strings_view(r@) == list_output(tickets_view(ts@)),
{
    let mut r: Vec<String> = Vec::new();
    if ts.len() == 0 {
        r.push(String::from_str("(no tickets)\n"));
        assert(strings_view(r@) =~= list_output(tickets_view(ts@)));
        return r;
    }
    let mut i: usize = 0;
    while i < ts.len()
        invariant
            i <= ts@.len(),
            strings_view(r@) =~= tickets_view(ts@).subrange(0, i as int).map_values(
                |t: TicketView| summary(t),
            ),
        decreases ts.len() - i,
    {
        let ghost before = r@;
        r.push(summary_exec(&ts[i]));
        assert(strings_view(r@) =~= strings_view(before).push(summary(ts@[i as int]@)));
        assert(tickets_view(ts@).subrange(0, i + 1).map_values(|t: TicketView| summary(t))
            =~= tickets_view(ts@).subrange(0, i as int).map_values(
            |t: TicketView| summary(t),
        ).push(summary(ts@[i as int]@)));
        i = i + 1;
    }
    assert(tickets_view(ts@).subrange(0, ts@.len() as int) =~= tickets_view(ts@));
    r
}

/// What `new` prints.
pub fn render_created(t: &Ticket) -> (s: String)
    ensures
        s@ == "created "@ + summary(t@),
{
    let mut s = String::from_str("created ");
    let rest = summary_exec(t);
    s.append(rest.as_str());
    s
}

/// What `status` prints.
pub fn render_updated(t: &Ticket) -> (s: String)
    ensures
        s@ == "updated "@ + summary(t@),
{
    let mut s = String::from_str("updated ");
    let rest = summary_exec(t);
    s.append(rest.as_str());
    s
}

/// What `comment` prints: the ticket and how many comments it now has.
pub fn render_commented(t: &Ticket) -> (s: String)
    ensures
        s@ == "commented on #"@ + dec(t.id as nat) + "  ["@ + t.status@ + "]  "@ + t.title@ + "  ("@
            + dec(t.comments@.len()) + " comments)\n"@,
{
    let mut s = String::from_str("commented on #");
    push_decimal(&mut s, t.id);
    s.append("  [");
    s.append(t.status.as_str());
    s.append("]  ");
    s.append(t.title.as_str());
    s.append("  (");
    push_decimal(&mut s, t.comments.len() as u64);
    s.append(" comments)\n");
    s
}

// ---------------------------------------------------------------------------
// Timestamps
// ---------------------------------------------------------------------------

/// The UTC calendar fields `(year, month, day, hour, minute, second)` of a
/// time given in milliseconds since the Unix epoch, by Howard Hinnant's
/// days-to-civil conversion: days are counted in 400-year eras of 146097 days
/// starting on 0000-03-01, and the year within an era, the day of the year
/// and a March-based month are read off the day within the era.
pub open spec fn civil_from_ms(ms: u64) -> (nat, nat, nat, nat, nat, nat) {
    let secs = ms as nat / 1000;
    let days = secs / 86400;
    let tod = secs % 86400;
    let z = days + 719468;
    let era = z / 146097;
    let doe = (z - era * 146097) as nat;
    let yoe = ((doe - doe / 1460 + doe / 36524 - doe / 146096) / 365) as nat;
    let doy = (doe - (365 * yoe + yoe / 4 - yoe / 100)) as nat;
    let mp = (5 * doy + 2) / 153;
    let day = (doy - (153 * mp + 2) / 5 + 1) as nat;
    let month = if mp < 10 {
        mp + 3
    } else {
        (mp - 9) as nat
    };
    let year = yoe + era * 400 + if month <= 2 {
        1nat
    } else {
        0nat
    };
    (year, month, day, tod / 3600, (tod % 3600) / 60, tod % 60)
}

/// `YYYY-MM-DDTHH:MM:SSZ` for the calendar fields of `ms`.
pub open spec fn iso8601(ms: u64) -> Seq<char> {
    let (y, mo, d, h, mi, s) = civil_from_ms(ms);
    zero_pad(dec(y), 4) + "-"@ + zero_pad(dec(mo), 2) + "-"@ + zero_pad(dec(d), 2) + "T"@
        + zero_pad(dec(h), 2) + ":"@ + zero_pad(dec(mi), 2) + ":"@ + zero_pad(dec(s), 2) + "Z"@
}

proof fn bv_month(doy: u64, mp: u64)
    by (bit_vector)
    requires
        doy <= 365,
        mp == ((5 * doy + 2) as u64) / 153,
    ensures
        mp <= 11,
        ((153 * mp + 2) as u64) / 5 <= doy,
        doy - ((153 * mp + 2) as u64) / 5 + 1 <= 31,
        mp < 11 ==> doy < ((153 * (mp + 1) + 2) as u64) / 5,
{
}

proof fn bv_year(doe: u64, yoe: u64)
    by (bit_vector)
    requires
        doe < 146097,
        yoe == ((doe - doe / 1460 + doe / 36524 - doe / 146096) as u64) / 365,
    ensures
        yoe <= 399,
        ((365 * yoe + yoe / 4 - yoe / 100) as u64) <= doe,
        doe - ((365 * yoe + yoe / 4 - yoe / 100) as u64) <= 365,
        doe - ((365 * yoe + yoe / 4 - yoe / 100) as u64) == 365 ==> (((yoe + 1) as u64) % 4 == 0
            && (((yoe + 1) as u64) % 100 != 0 || yoe == 399)),
{
}

/// Renders milliseconds since the Unix epoch as a UTC ISO-8601 timestamp:
/// the calendar date as many days after 1970-01-01 as the time holds whole
/// days (a valid date from 1970 on), and the time of day of the rest.
pub fn epoch_ms_to_iso8601(ms: u64) -> (s: String)
    ensures
        s@ == iso8601(ms),
        ({
            let (y, mo, d, h, mi, sec) = civil_from_ms(ms);
            let secs = ms as nat / 1000;
            &&& 1970 <= y
            &&& 1 <= mo <= 12
            &&& 1 <= d <= days_in_month(y, mo)
            &&& day_number(y, mo, d) == secs / 86400
            &&& h < 24
            &&& mi < 60
            &&& sec < 60
            &&& h * 3600 + mi * 60 + sec == secs % 86400
        }),
{
    proof {
        law_timestamp_is_calendar_date(ms);
    }
    let secs = ms / 1000;
    let days = secs / 86400;
    let tod = secs % 86400;
    let hour = tod / 3600;
    let minute = (tod % 3600) / 60;
    let second = tod % 60;
    let z: u64 = days + 719468;
    let era = z / 146097;
    let doe = z - era * 146097;
    let yoe = (doe - doe / 1460 + doe / 36524 - doe / 146096) / 365;
    proof {
        bv_year(doe, yoe);
    }
    let doy = doe - (365 * yoe + yoe / 4 - yoe / 100);
    let mp = (5 * doy + 2) / 153;
    proof {
        bv_month(doy, mp);
    }
    let day = doy - (153 * mp + 2) / 5 + 1;
    let month = if mp < 10 {
        mp + 3
    } else {
        mp - 9
    };
    let mut year = yoe + era * 400;
    if month <= 2 {
        year = year + 1;
    }
    let mut s = String::new();
    push_padded_decimal(&mut s, year, 4);
    s.append("-");
    push_padded_decimal(&mut s, month, 2);
    s.append("-");
    push_padded_decimal(&mut s, day, 2);
    s.append("T");
    push_padded_decimal(&mut s, hour, 2);
    s.append(":");
    push_padded_decimal(&mut s, minute, 2);
    s.append(":");
    push_padded_decimal(&mut s, second, 2);
    s.append("Z");
    s
}

// ---------------------------------------------------------------------------
// The Gregorian calendar
// ---------------------------------------------------------------------------

/// Whether `y` is a leap year: divisible by 4, and by 400 if by 100.
pub open spec fn is_leap(y: nat) -> bool {
    y % 4 == 0 && (y % 100 != 0 || y % 400 == 0)
}

/// The number of days of month `m` (1 to 12) of year `y`.
pub open spec fn days_in_month(y: nat, m: nat) -> nat {
    if m == 2 {
        if is_leap(y) {
            29
        } else {
            28
        }
    } else if m == 4 || m == 6 || m == 9 || m == 11 {
        30
    } else {
        31
    }
}

/// The number of days of year `y`.
pub open spec fn days_in_year(y: nat) -> nat {
    if is_leap(y) {
        366
    } else {
        365
    }
}

/// The days from 1970-01-01 to the first of January of year `y` (from 1970
/// on).
pub open spec fn days_before_year(y: nat) -> nat
    decreases y,
{
    if y <= 1970 {
        0
    } else {
        days_before_year((y - 1) as nat) + days_in_year((y - 1) as nat)
    }
}

/// The days from the first of January of year `y` to the first of month `m`.
pub open spec fn days_before_month(y: nat, m: nat) -> nat
    decreases m,
{
    if m <= 1 {
        0
    } else {
        days_before_month(y, (m - 1) as nat) + days_in_month(y, (m - 1) as nat)
    }
}

/// How many days after 1970-01-01 the date `y`-`m`-`d` falls.
pub open spec fn day_number(y: nat, m: nat, d: nat) -> int {
    days_before_year(y) + days_before_month(y, m) + d - 1
}

/// The days from 0000-03-01 to the first of March of year `y`.
spec fn days_to_march(y: nat) -> int {
    365 * y + y / 4 - y / 100 + y / 400
}

proof fn lemma_div4_step(y: nat)
    ensures
        (y + 1) / 4 == y / 4 + if (y + 1) % 4 == 0 { 1int } else { 0 },
{
}

proof fn lemma_div100_step(y: nat)
    ensures
        (y + 1) / 100 == y / 100 + if (y + 1) % 100 == 0 { 1int } else { 0 },
        (y + 1) % 100 == 0 ==> (y + 1) % 4 == 0,
{
}

proof fn lemma_div400_step(y: nat)
    ensures
        (y + 1) / 400 == y / 400 + if (y + 1) % 400 == 0 { 1int } else { 0 },
        (y + 1) % 400 == 0 ==> (y + 1) % 100 == 0,
{
}

proof fn lemma_march_step(y: nat)
    ensures
        days_to_march(y + 1) == days_to_march(y) + days_in_year(y + 1),
{
    lemma_div4_step(y);
    lemma_div100_step(y);
    lemma_div400_step(y);
}

/// The first of March of year `y` is `days_to_march(y)` days after
/// 0000-03-01, and 1970-01-01 is 719468 days after it.
proof fn lemma_days_before_year(y: nat)
    requires
        y >= 1970,
    ensures
        days_before_year(y) + 719468 + 59 + (if is_leap(y) { 1int } else { 0 }) == days_to_march(y),
    decreases y,
{
    if y > 1970 {
        lemma_days_before_year((y - 1) as nat);
        lemma_march_step((y - 1) as nat);
    }
}

/// The days before each month: none before January, 31 before February, and
/// from March on 59 (60 in a leap year) plus `(153 * (m - 3) + 2) / 5`.
proof fn lemma_days_before_month(y: nat, m: nat)
    requires
        1 <= m <= 12,
    ensures
        days_before_month(y, m) == if m == 1 {
            0int
        } else if m == 2 {
            31int
        } else {
            59 + (if is_leap(y) { 1int } else { 0 }) + (153 * (m - 3) + 2) / 5
        },
{
    let l: int = if is_leap(y) { 1 } else { 0 };
    assert(days_before_month(y, 1) == 0);
    assert(days_before_month(y, 2) == 31);
    assert(days_before_month(y, 3) == 59 + l);
    assert(days_before_month(y, 4) == 90 + l);
    assert(days_before_month(y, 5) == 120 + l);
    assert(days_before_month(y, 6) == 151 + l);
    assert(days_before_month(y, 7) == 181 + l);
    assert(days_before_month(y, 8) == 212 + l);
    assert(days_before_month(y, 9) == 243 + l);
    assert(days_before_month(y, 10) == 273 + l);
    assert(days_before_month(y, 11) == 304 + l);
    assert(days_before_month(y, 12) == 334 + l);
}

/// A timestamp shows the UTC calendar date and time it stands for: a valid
/// date (month 1 to 12, day within its month, leap years included) as many
/// days after 1970-01-01 as the timestamp holds whole days, and the hour,
/// minute and second of what remains.
#[verifier::spinoff_prover]
#[verifier::rlimit(40)]
pub proof fn law_timestamp_is_calendar_date(ms: u64)
    ensures
        ({
            let (y, mo, d, h, mi, sec) = civil_from_ms(ms);
            let secs = ms as nat / 1000;
            &&& 1970 <= y
            &&& 1 <= mo <= 12
            &&& 1 <= d <= days_in_month(y, mo)
            &&& day_number(y, mo, d) == secs / 86400
            &&& h < 24 && mi < 60 && sec < 60
            &&& h * 3600 + mi * 60 + sec == secs % 86400
        }),
{
    let secs = ms as nat / 1000;
    let days = secs / 86400;
    let tod = secs % 86400;
    let z = days + 719468;
    let era = z / 146097;
    let doe = (z - era * 146097) as nat;
    let yoe = ((doe - doe / 1460 + doe / 36524 - doe / 146096) / 365) as nat;
    let doy = (doe - (365 * yoe + yoe / 4 - yoe / 100)) as nat;
    let mp = (5 * doy + 2) / 153;
    let day = (doy - (153 * mp + 2) / 5 + 1) as nat;
    let big_y = yoe + era * 400;
    assert(doe < 146097);
    bv_year(doe as u64, yoe as u64);
    assert(doy <= 365);
    bv_month(doy as u64, mp as u64);
    assert(z == days_to_march(big_y) + doy) by {
        assert(big_y / 4 == era * 100 + yoe / 4);
        assert(big_y / 100 == era * 4 + yoe / 100);
        assert(big_y / 400 == era);
    }
    let (y, mo, d, h, mi, sec) = civil_from_ms(ms);
    assert(d == day);
    assert(h * 3600 + mi * 60 + sec == tod);
    if mp < 10 {
        assert(y == big_y && mo == mp + 3);
        assert(big_y >= 1970);
        lemma_days_before_year(big_y);
        lemma_days_before_month(big_y, mo);
        assert(day_number(y, mo, d) == days);
        assert(d <= days_in_month(y, mo)) by {
            assert(doy < (153 * (mp + 1) + 2) / 5);
            assert(mp == 0 || mp == 1 || mp == 2 || mp == 3 || mp == 4 || mp == 5 || mp == 6 || mp
                == 7 || mp == 8 || mp == 9);
        }
    } else {
        assert(y == big_y + 1 && mo == mp - 9);
        lemma_days_before_year(big_y + 1);
        lemma_march_step(big_y);
        lemma_days_before_month(big_y + 1, mo);
        assert(day_number(y, mo, d) == days);
        assert(d <= days_in_month(y, mo)) by {
            if mp == 11 && d == 29 {
                assert(doy == 365);
                assert((yoe + 1) % 4 == 0 && ((yoe + 1) % 100 != 0 || yoe == 399));
                assert((big_y + 1) % 4 == (yoe + 1) % 4);
                assert((big_y + 1) % 100 == (yoe + 1) % 100);
                assert(yoe == 399 ==> (big_y + 1) % 400 == 0);
            }
        }
    }
}

// ---------------------------------------------------------------------------
// Showing one ticket
// ---------------------------------------------------------------------------

/// The `\n`-separated pieces of `s` from position `i` on, as `str::split`
/// yields them (a trailing newline gives a last, empty piece).
pub open spec fn pieces_from(s: Seq<char>, i: int) -> Seq<Seq<char>>
    decreases s.len() + 1 - i,
{
    if i < 0 || i > s.len() {
        Seq::empty()
    } else {
        match find_from(s, seq!['\n'], i) {
            Some(j) => if j < i || j >= s.len() {
                Seq::empty()
            } else {
                seq![s.subrange(i, j)] + pieces_from(s, j + 1)
            },
            None => seq![s.subrange(i, s.len() as int)],
        }
    }
}

/// A comment body line as printed: indented by two spaces.
pub open spec fn indented(line: Seq<char>) -> Seq<char> {
    "  "@ + line + "\n"@
}

/// What is printed for one comment: its time and author, its body line by
/// line, indented, and an empty line.
pub open spec fn comment_output(c: CommentView) -> Seq<Seq<char>> {
    seq![iso8601(c.created_at) + "  "@ + c.author + "\n"@] + pieces_from(c.body, 0).map_values(
        |l: Seq<char>| indented(l),
    ) + seq!["\n"@]
}

/// What is printed for a list of comments, one after the other.
pub open spec fn comments_output(cs: Seq<CommentView>) -> Seq<Seq<char>>
    decreases cs.len(),
{
    if cs.len() == 0 {
        Seq::empty()
    } else {
        comments_output(cs.drop_last()) + comment_output(cs.last())
    }
}

/// What `show` prints: the fields, the body, and the comment thread when
/// there is one.
pub open spec fn show_output(t: TicketView) -> Seq<Seq<char>> {
    seq![
        "#"@ + dec(t.id as nat) + "\n"@,
        "status:   "@ + t.status + "\n"@,
        "title:    "@ + t.title + "\n"@,
        "reporter: "@ + t.reporter + "\n"@,
        "assignee: "@ + t.assignee + "\n"@,
        "created:  "@ + iso8601(t.created_at) + "\n"@,
        "\n"@,
        t.body,
        "\n"@,
    ] + if t.comments.len() == 0 {
        Seq::empty()
    } else {
        seq!["\n--- comments ---\n"@] + comments_output(t.comments)
    }
}

/// Lines joined back together, with a `\n` between neighbours.
pub open spec fn joined_lines(ls: Seq<Seq<char>>) -> Seq<char>
    decreases ls.len(),
{
    if ls.len() == 0 {
        Seq::empty()
    } else if ls.len() == 1 {
        ls[0]
    } else {
        ls[0] + seq!['\n'] + joined_lines(ls.drop_first())
    }
}

proof fn lemma_find_char_first(s: Seq<char>, c: char, i: int)
    requires
        0 <= i,
    ensures
        match find_from(s, seq![c], i) {
            Some(j) => i <= j < s.len() && s[j] == c && forall|k: int| i <= k < j ==> s[k] != c,
            None => forall|k: int| i <= k < s.len() ==> s[k] != c,
        },
    decreases s.len() + 1 - i,
{
    if i + 1 > s.len() {
    } else if s.subrange(i, i + 1) == seq![c] {
        assert(s.subrange(i, i + 1)[0] == s[i]);
    } else {
        if s[i] == c {
            assert(s.subrange(i, i + 1) =~= seq![c]);
        }
        lemma_find_char_first(s, c, i + 1);
    }
}

proof fn lemma_pieces_from(s: Seq<char>, i: int)
    requires
        0 <= i <= s.len(),
    ensures
        pieces_from(s, i).len() >= 1,
        forall|k: int| 0 <= k < pieces_from(s, i).len() ==> !(#[trigger] pieces_from(s, i)[k]).contains('\n'),
        joined_lines(pieces_from(s, i)) == s.subrange(i, s.len() as int),
    decreases s.len() + 1 - i,
{
    lemma_find_char_first(s, '\n', i);
    let ps = pieces_from(s, i);
    match find_from(s, seq!['\n'], i) {
        Some(j) => {
            lemma_pieces_from(s, j + 1);
            let piece = s.subrange(i, j);
            let rest = pieces_from(s, j + 1);
            assert(ps == seq![piece] + rest);
            assert(ps.drop_first() =~= rest);
            assert(ps[0] == piece);
            assert forall|k: int| 0 <= k < ps.len() implies !(#[trigger] ps[k]).contains('\n') by {
                if k == 0 {
                    if piece.contains('\n') {
                        let m = choose|m: int| 0 <= m < piece.len() && piece[m] == '\n';
                        assert(s[i + m] == '\n');
                    }
                } else {
                    assert(ps[k] == rest[k - 1]);
                }
            }
            assert(piece + seq!['\n'] + s.subrange(j + 1, s.len() as int) =~= s.subrange(
                i,
                s.len() as int,
            ));
        },
        None => {
            let piece = s.subrange(i, s.len() as int);
            assert(ps == seq![piece]);
            if piece.contains('\n') {
                let m = choose|m: int| 0 <= m < piece.len() && piece[m] == '\n';
                assert(s[i + m] == '\n');
            }
        },
    }
}

/// The lines printed under a comment are the body's `\n`-separated lines,
/// each indented by two spaces and ended by a line break: between the
/// heading and the closing empty line stands one printed line per body line,
/// no body line holds a `\n`, and joining the body lines with `\n` gives the
/// body back.
pub proof fn law_comment_lines_are_the_body_lines(c: CommentView)
    ensures
        ({
            let out = comment_output(c);
            let ls = pieces_from(c.body, 0);
            &&& ls.len() >= 1
            &&& out.len() == ls.len() + 2
            &&& out[0] == iso8601(c.created_at) + "  "@ + c.author + "\n"@
            &&& out.last() == "\n"@
            &&& forall|k: int| 0 <= k < ls.len() ==> out[k + 1] == "  "@ + #[trigger] ls[k] + "\n"@
            &&& forall|k: int| 0 <= k < ls.len() ==> !(#[trigger] ls[k]).contains('\n')
            &&& joined_lines(ls) == c.body
        }),
{
    lemma_pieces_from(c.body, 0);
    let out = comment_output(c);
    let ls = pieces_from(c.body, 0);
    let f = |l: Seq<char>| indented(l);
    let head = seq![iso8601(c.created_at) + "  "@ + c.author + "\n"@];
    assert(out == head + ls.map_values(f) + seq!["\n"@]);
    assert forall|k: int| 0 <= k < ls.len() implies out[k + 1] == "  "@ + #[trigger] ls[k] + "\n"@ by {
        assert(ls.map_values(f)[k] == indented(ls[k]));
    }
    assert(c.body.subrange(0, c.body.len() as int) =~= c.body);
}

fn line_with(prefix: &str, middle: &str) -> (s: String)
    ensures
        s@ == prefix@ + middle@ + "\n"@,
{
    let mut s = String::from_str(prefix);
    s.append(middle);
    s.append("\n");
    s
}

fn push_comment(out: &mut Vec<String>, c: &Comment)
    ensures
        strings_view(final(out)@) == strings_view(old(out)@) + comment_output(c@),
{
    let when = epoch_ms_to_iso8601(c.created_at);
    let mut head = when;
    head.append("  ");
    head.append(c.author.as_str());
    head.append("\n");
    let ghost start = strings_view(out@);
    out.push(head);
    let body = chars_of(c.body.as_str());
    let n = body.len();
    let nl = ['\n'];
    assert(nl@ =~= seq!['\n']);
    let ghost first = seq![iso8601(c.created_at) + "  "@ + c.author@ + "\n"@];
    assert(strings_view(out@) =~= start + first);
    let mut i: usize = 0;
    loop
        invariant_except_break
            strings_view(out@) + pieces_from(body@, i as int).map_values(|l: Seq<char>| indented(l))
                == start + first + pieces_from(body@, 0).map_values(|l: Seq<char>| indented(l)),
        invariant
            n == body@.len(),
            body@ == c.body@,
            nl@ == seq!['\n'],
            i <= n,
        ensures
            strings_view(out@) == start + first + pieces_from(body@, 0).map_values(
                |l: Seq<char>| indented(l),
            ),
        decreases n + 1 - i,
    {
        let ghost before = strings_view(out@);
        match find_chars_from(&body, &nl, i) {
            Some(j) => {
                proof {
                    lemma_find_from_bounds(body@, seq!['\n'], i as int);
                }
                let piece = sub_chars(&body, i, j);
                let ps = string_of(&piece);
                out.push(line_with("  ", ps.as_str()));
                proof {
                    let f = |l: Seq<char>| indented(l);
                    let rest = pieces_from(body@, j + 1);
                    assert(pieces_from(body@, i as int) == seq![piece@] + rest);
                    assert((seq![piece@] + rest).map_values(f) =~= seq![indented(piece@)]
                        + rest.map_values(f));
                    assert(strings_view(out@) =~= before.push(indented(piece@)));
                }
                i = j + 1;
            },
            None => {
                let piece = sub_chars(&body, i, n);
                let ps = string_of(&piece);
                out.push(line_with("  ", ps.as_str()));
                proof {
                    let f = |l: Seq<char>| indented(l);
                    assert(pieces_from(body@, i as int) == seq![piece@]);
                    assert(seq![piece@].map_values(f) =~= seq![indented(piece@)]);
                    assert(strings_view(out@) =~= before.push(indented(piece@)));
                    assert(strings_view(out@) =~= before + pieces_from(body@, i as int).map_values(f));
                }
                break;
            },
        }
    }
    let ghost before = strings_view(out@);
    out.push(String::from_str("\n"));
    assert(strings_view(out@) =~= before.push("\n"@));
    assert(strings_view(out@) =~= strings_view(old(out)@) + comment_output(c@));
}

/// The pieces `show` prints, in order.
pub fn render_show(t: &Ticket) -> (r: Vec<String>)
    ensures
        strings_view(r@) == show_output(t@),
{
    let mut r: Vec<String> = Vec::new();
    let mut head = String::from_str("#");
    push_decimal(&mut head, t.id);
    head.append("\n");
    r.push(head);
    r.push(line_with("status:   ", t.status.as_str()));
    r.push(line_with("title:    ", t.title.as_str()));
    r.push(line_with("reporter: ", t.reporter.as_str()));
    r.push(line_with("assignee: ", t.assignee.as_str()));
    let when = epoch_ms_to_iso8601(t.created_at);
    r.push(line_with("created:  ", when.as_str()));
    r.push(String::from_str("\n"));
    r.push(t.body.clone());
    r.push(String::from_str("\n"));
    let ghost fixed = strings_view(r@);
    assert(fixed =~= show_output(t@).subrange(0, 9));
    if t.comments.len() > 0 {
        r.push(String::from_str("\n--- comments ---\n"));
        let mut i: usize = 0;
        while i < t.comments.len()
            invariant
                i <= t.comments@.len(),
                strings_view(r@) == fixed + seq!["\n--- comments ---\n"@] + comments_output(
                    t@.comments.subrange(0, i as int),
                ),
            decreases t.comments.len() - i,
        {
            let ghost before = strings_view(r@);
            push_comment(&mut r, &t.comments[i]);
            assert(t@.comments.subrange(0, i + 1).drop_last() =~= t@.comments.subrange(0, i as int));
            assert(t@.comments.subrange(0, i + 1).last() == t.comments@[i as int]@);
            assert(strings_view(r@) =~= fixed + seq!["\n--- comments ---\n"@] + comments_output(
                t@.comments.subrange(0, i + 1),
            ));
            i = i + 1;
        }
        assert(t@.comments.subrange(0, t@.comments.len() as int) =~= t@.comments);
    }
    assert(strings_view(r@) =~= show_output(t@));
    r
}

// ---------------------------------------------------------------------------
// Laws linking the client's requests to the server's reading of them
// ---------------------------------------------------------------------------

proof fn lemma_split_pair(key: Seq<char>, e: Seq<char>)
    requires
        forall|k: int| 0 <= k < key.len() ==> key[k] != '=' && key[k] != '&',
        forall|k: int| 0 <= k < e.len() ==> url_safe(#[trigger] e[k]),
    ensures
        ({
            let p = key + "="@ + e;
            &&& find(p, seq!['=']) == Some(key.len() as int)
            &&& p.subrange(0, key.len() as int) == key
            &&& p.subrange(key.len() as int + 1, p.len() as int) == e
            &&& forall|k: int| 0 <= k < p.len() ==> p[k] != '&'
        }),
{
    reveal_strlit("=");
    let p = key + "="@ + e;
    assert(p[key.len() as int] == '=');
    assert forall|k: int| 0 <= k < key.len() implies p[k] != '=' by {
        assert(p[k] == key[k]);
    }
    lemma_find_char_at(p, '=', 0, key.len() as int);
    assert(p.subrange(0, key.len() as int) =~= key);
    assert(p.subrange(key.len() as int + 1, p.len() as int) =~= e);
    assert forall|k: int| 0 <= k < p.len() implies p[k] != '&' by {
        if k < key.len() {
            assert(p[k] == key[k]);
        } else if k > key.len() {
            assert(p[k] == e[k - key.len() - 1]);
        }
    }
}

proof fn lemma_status_pair(v: Seq<char>)
    requires
        is_ascii_chars(v),
    ensures
        ({
            let p = "status="@ + url_encoded(v);
            &&& forall|k: int| 0 <= k < p.len() ==> p[k] != '&'
            &&& forall|st: Option<Seq<char>>, asg: Option<Seq<char>>|
                #[trigger] apply_pair(p, st, asg) == (Some(v), asg)
        }),
{
    reveal_strlit("status=");
    reveal_strlit("status");
    let key = "status"@;
    assert("status="@ =~= key + "="@) by {
        reveal_strlit("=");
    }
    lemma_encoded_safe(encode_utf8(v));
    lemma_split_pair(key, url_encoded(v));
    law_url_roundtrip(v);
    assert(key + "="@ + url_encoded(v) =~= "status="@ + url_encoded(v));
}

proof fn lemma_assignee_pair(v: Seq<char>)
    requires
        is_ascii_chars(v),
    ensures
        ({
            let p = "assignee="@ + url_encoded(v);
            &&& forall|k: int| 0 <= k < p.len() ==> p[k] != '&'
            &&& forall|st: Option<Seq<char>>, asg: Option<Seq<char>>|
                #[trigger] apply_pair(p, st, asg) == (st, Some(v))
        }),
{
    reveal_strlit("assignee=");
    reveal_strlit("assignee");
    reveal_strlit("status");
    let key = "assignee"@;
    assert("assignee="@ =~= key + "="@) by {
        reveal_strlit("=");
    }
    lemma_encoded_safe(encode_utf8(v));
    lemma_split_pair(key, url_encoded(v));
    law_url_roundtrip(v);
    assert(key + "="@ + url_encoded(v) =~= "assignee="@ + url_encoded(v));
    assert(key != "status"@) by {
        assert(key.len() != "status"@.len());
    }
}

/// The filters a `list` command puts in its query are exactly the ones the
/// server reads back from it (for ASCII filter values).
pub proof fn law_list_filters_roundtrip(status: Option<Seq<char>>, assignee: Option<Seq<char>>)
    requires
        status matches Some(s) ==> is_ascii_chars(s),
        assignee matches Some(a) ==> is_ascii_chars(a),
    ensures
        query_filters(list_query(status, assignee)) == (status, assignee),
{
    let q = list_query(status, assignee);
    match (status, assignee) {
        (None, None) => {
            assert(q =~= Seq::<char>::empty());
            lemma_find_char_none(q, '&', 0);
            lemma_find_char_none(q, '=', 0);
            assert(q.subrange(0, 0) =~= q);
            assert(query_filters(q) == apply_pair(q, None, None));
            assert(query_filters(q) == (status, assignee));
        },
        (Some(s), None) => {
            lemma_status_pair(s);
            lemma_find_char_none(q, '&', 0);
            assert(q.subrange(0, q.len() as int) =~= q);
            assert(apply_pair(q, None, None) == (Some(s), None::<Seq<char>>));
            assert(query_filters(q) == apply_pair(q.subrange(0, q.len() as int), None, None));
        },
        (None, Some(a)) => {
            lemma_assignee_pair(a);
            reveal_strlit("status=");
            lemma_find_char_none(q, '&', 0);
            assert(q.subrange(0, q.len() as int) =~= q);
            assert(apply_pair(q, None, None) == (None::<Seq<char>>, Some(a)));
            assert(query_filters(q) == apply_pair(q.subrange(0, q.len() as int), None, None));
        },
        (Some(s), Some(a)) => {
            lemma_status_pair(s);
            lemma_assignee_pair(a);
            reveal_strlit("&");
            reveal_strlit("status=");
            let p1 = "status="@ + url_encoded(s);
            let p2 = "assignee="@ + url_encoded(a);
            assert(q =~= p1 + "&"@ + p2);
            let j = p1.len() as int;
            assert(q[j] == '&');
            assert forall|k: int| 0 <= k < j implies q[k] != '&' by {
                assert(q[k] == p1[k]);
            }
            lemma_find_char_at(q, '&', 0, j);
            assert(q.subrange(0, j) =~= p1);
            assert forall|k: int| j + 1 <= k < q.len() implies q[k] != '&' by {
                assert(q[k] == p2[k - j - 1]);
            }
            lemma_find_char_none(q, '&', j + 1);
            assert(q.subrange(j + 1, q.len() as int) =~= p2);
            assert(apply_pair(p1, None, None) == (Some(s), None::<Seq<char>>));
            assert(apply_pair(p2, Some(s), None) == (Some(s), Some(a)));
            assert(query_from(q, j + 1, Some(s), None) == apply_pair(p2, Some(s), None));
            assert(query_filters(q) == query_from(q, j + 1, Some(s), None));
        },
    }
}

} // verus!
