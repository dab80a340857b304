//! The per-connection request handler of the ticket server.
//!
//! One request is handled as a sequence of steps. `route` reads the request
//! and asks for the stored API token; every later step takes the outcome of
//! the previous action (a loaded label, a parsed body, the clock, a finished
//! save) and decides the next action, until the handler answers with a reply.
//! The caller performs each action: store access, JSON decoding and encoding,
//! and reading the clock.

use vstd::prelude::*;
use vstd::utf8::*;
use crate::http::{
    bearer_token, error_body, error_body_exec, extract_bearer, opt_view, parse_query,
    query_filters, url_encode, url_encoded,
};
use crate::text::{
    chars_eq, chars_of, contains_char, dec, ends_with, find, find_chars, push_decimal,
    first_line, lemma_find_from_bounds, line_at_exec, nth_word, nth_word_of, parse_u64,
    parse_unsigned, starts_with, str_from_utf8, string_of, sub_chars, utf8_bytes,
};
use crate::ticket::{
    add_comment, create_ticket, filter_tickets, filtered, find_id, find_ticket, is_valid_status,
    lacks_required_fields, lemma_find_id_from, max_id, max_ticket_id, missing_required,
    new_comment, new_ticket, next_id, set_ticket_status, tickets_view, valid_status, with_comment,
    with_status, Comment, CommentRequest, CommentRequestView, CommentView, NewTicketRequest,
    NewTicketView, Ticket, TicketView,
};

verus! {

/// The state an actor instance of the handler keeps between calls (none).
pub struct HandlerState {}

/// The store that holds the server's data.
pub open spec fn store_name() -> Seq<char> {
    "tickets"@
}

/// The label under which the API bearer token is stored.
pub open spec fn token_label() -> Seq<char> {
    "api-bearer-token"@
}

/// The label under which the inbox API's address is stored.
pub open spec fn inbox_api_label() -> Seq<char> {
    "inbox-api"@
}

/// The label under which the inbox API's bearer token is stored.
pub open spec fn inbox_token_label() -> Seq<char> {
    "inbox-token"@
}

/// The label under which the JSON list of tickets is stored.
pub open spec fn tickets_label() -> Seq<char> {
    "tickets-list"@
}

/// The id of the store that holds the server's data.
pub fn store_id() -> (s: String)
    ensures
        s@ == store_name(),
{
    String::from_str("tickets")
}

/// The log line for a reply that could not be sent.
pub fn send_failed_log_line(e: &str) -> (s: String)
    ensures
        s@ == "[tickets-handler] send failed: "@ + e@,
{
    let mut s = String::from_str("[tickets-handler] send failed: ");
    s.append(e);
    s
}

// ---------------------------------------------------------------------------
// Which handler a request goes to
// ---------------------------------------------------------------------------

/// Whether `s` starts with `p`.
pub open spec fn has_prefix(s: Seq<char>, p: Seq<char>) -> bool {
    p.len() <= s.len() && s.subrange(0, p.len() as int) == p
}

/// Whether `s` ends with `p`.
pub open spec fn has_suffix(s: Seq<char>, p: Seq<char>) -> bool {
    p.len() <= s.len() && s.subrange(s.len() - p.len(), s.len() as int) == p
}

/// Where a request line sends a request.
pub enum TargetView {
    List { query: Seq<char> },
    Create,
    Show { id: Seq<char> },
    SetStatus { id: Seq<char> },
    Comment { id: Seq<char> },
    NotFound,
}

/// The path of the request target (before the first `?`) and its query.
pub open spec fn path_and_query(raw: Seq<char>) -> (Seq<char>, Seq<char>) {
    match find(raw, seq!['?']) {
        Some(k) => (raw.subrange(0, k), raw.subrange(k + 1, raw.len() as int)),
        None => (raw, Seq::empty()),
    }
}

/// The handler a request goes to, from the method and path of its first line:
/// `GET /v1/tickets` lists, `POST /v1/tickets` creates, `GET /v1/tickets/<id>`
/// shows, `POST /v1/tickets/<id>/status` sets a status and
/// `POST /v1/tickets/<id>/comment` adds a comment, where `<id>` must be
/// non-empty and free of `/`; everything else is not found.
pub open spec fn route_target(request: Seq<char>) -> TargetView {
    let line = first_line(request);
    let method = nth_word(line, 0);
    let (path, query) = path_and_query(nth_word(line, 1));
    let prefix = "/v1/tickets/"@;
    let suffix = "/status"@;
    if method == "GET"@ && path == "/v1/tickets"@ {
        TargetView::List { query }
    } else if method == "POST"@ && path == "/v1/tickets"@ {
        TargetView::Create
    } else if method == "GET"@ && has_prefix(path, prefix) {
        let rest = path.subrange(prefix.len() as int, path.len() as int);
        if rest.len() == 0 || rest.contains('/') {
            TargetView::NotFound
        } else {
            TargetView::Show { id: rest }
        }
    } else if method == "POST"@ && has_prefix(path, prefix) && has_suffix(path, suffix) {
        if path.len() < prefix.len() + suffix.len() {
            TargetView::NotFound
        } else {
            let id = path.subrange(prefix.len() as int, path.len() - suffix.len());
            if id.len() == 0 || id.contains('/') {
                TargetView::NotFound
            } else {
                TargetView::SetStatus { id }
            }
        }
    } else if method == "POST"@ && has_prefix(path, prefix) && has_suffix(path, "/comment"@)
        && path.len() >= prefix.len() + "/comment"@.len() {
        let id = path.subrange(prefix.len() as int, path.len() - "/comment"@.len());
        if id.len() == 0 || id.contains('/') {
            TargetView::NotFound
        } else {
            TargetView::Comment { id }
        }
    } else {
        TargetView::NotFound
    }
}

/// Where a request goes (the executable counterpart of `TargetView`).
pub enum Target {
    List { query: Vec<char> },
    Create,
    Show { id: Vec<char> },
    SetStatus { id: Vec<char> },
    Comment { id: Vec<char> },
    NotFound,
}

impl View for Target {
    type V = TargetView;

    open spec fn view(&self) -> TargetView {
        match self {
            Target::List { query } => TargetView::List { query: query@ },
            Target::Create => TargetView::Create,
            Target::Show { id } => TargetView::Show { id: id@ },
            Target::SetStatus { id } => TargetView::SetStatus { id: id@ },
            Target::Comment { id } => TargetView::Comment { id: id@ },
            Target::NotFound => TargetView::NotFound,
        }
    }
}

/// Decides where a request goes.
pub fn target_of(request: &[char]) -> (t: Target)
    ensures
        t@ == route_target(request@),
{
    let (line, _next) = line_at_exec(request, 0);
    let method = nth_word_of(&line, 0);
    let raw = nth_word_of(&line, 1);
    let q = ['?'];
    assert(q@ =~= seq!['?']);
    let n = raw.len();
    let (path, query) = match find_chars(&raw, &q) {
        Some(k) => {
            proof {
                lemma_find_from_bounds(raw@, seq!['?'], 0);
            }
            assert(k < n);
            (sub_chars(&raw, 0, k), sub_chars(&raw, k + 1, n))
        },
        None => (raw, Vec::new()),
    };
    assert((path@, query@) == path_and_query(nth_word(line@, 1)));
    let get = chars_of("GET");
    let post = chars_of("POST");
    let tickets = chars_of("/v1/tickets");
    let prefix = chars_of("/v1/tickets/");
    let suffix = chars_of("/status");
    let comment = chars_of("/comment");
    if chars_eq(&method, &get) && chars_eq(&path, &tickets) {
        Target::List { query }
    } else if chars_eq(&method, &post) && chars_eq(&path, &tickets) {
        Target::Create
    } else if chars_eq(&method, &get) && starts_with(&path, &prefix) {
        let rest = sub_chars(&path, prefix.len(), path.len());
        if rest.len() == 0 || contains_char(&rest, '/') {
            Target::NotFound
        } else {
            Target::Show { id: rest }
        }
    } else if chars_eq(&method, &post) && starts_with(&path, &prefix) && ends_with(&path, &suffix) {
        if path.len() - suffix.len() < prefix.len() {
            Target::NotFound
        } else {
            let id = sub_chars(&path, prefix.len(), path.len() - suffix.len());
            if id.len() == 0 || contains_char(&id, '/') {
                Target::NotFound
            } else {
                Target::SetStatus { id }
            }
        }
    } else if chars_eq(&method, &post) && starts_with(&path, &prefix) && ends_with(&path, &comment)
        && path.len() - comment.len() >= prefix.len() {
        let id = sub_chars(&path, prefix.len(), path.len() - comment.len());
        if id.len() == 0 || contains_char(&id, '/') {
            Target::NotFound
        } else {
            Target::Comment { id }
        }
    } else {
        Target::NotFound
    }
}

// ---------------------------------------------------------------------------
// Replies
// ---------------------------------------------------------------------------

/// The body of a reply: ready bytes, or tickets the caller encodes as JSON.
pub enum Payload {
    Raw(Vec<u8>),
    One(Ticket),
    Many(Vec<Ticket>),
}

/// The value of a reply body.
pub enum PayloadView {
    Raw(Seq<u8>),
    One(TicketView),
    Many(Seq<TicketView>),
}

/// A reply: a status code and a body.
pub struct Reply {
    pub status: u16,
    pub payload: Payload,
}

/// The value of a reply.
pub struct ReplyView {
    pub status: u16,
    pub payload: PayloadView,
}

impl View for Payload {
    type V = PayloadView;

    open spec fn view(&self) -> PayloadView {
        match self {
            Payload::Raw(b) => PayloadView::Raw(b@),
            Payload::One(t) => PayloadView::One(t@),
            Payload::Many(v) => PayloadView::Many(tickets_view(v@)),
        }
    }
}

impl View for Reply {
    type V = ReplyView;

    open spec fn view(&self) -> ReplyView {
        ReplyView { status: self.status, payload: self.payload@ }
    }
}

/// A reply whose body is the UTF-8 encoding of `msg`.
pub open spec fn text_reply(status: u16, msg: Seq<char>) -> ReplyView {
    ReplyView { status, payload: PayloadView::Raw(encode_utf8(msg)) }
}

/// The body of a 400 reply to a request body that does not decode: a JSON
/// error carrying the decoder's message.
pub open spec fn bad_body_message(err: Seq<char>) -> Seq<char> {
    error_body("bad request body: "@ + err)
}

/// The body of a 400 reply to an unknown status: a JSON error naming the
/// status, in quotes, and the valid ones.
pub open spec fn bad_status_message(status: Seq<char>) -> Seq<char> {
    error_body(
        "invalid status \""@ + status + "\"; valid values: open, in-progress, done, closed"@,
    )
}

fn text_reply_exec(status: u16, msg: &str) -> (r: Reply)
    ensures
        r@ == text_reply(status, msg@),
{
    Reply { status, payload: Payload::Raw(utf8_bytes(msg)) }
}

// ---------------------------------------------------------------------------
// Notifications
// ---------------------------------------------------------------------------

/// A notification mail: sender, recipient, subject and text.
pub struct Notice {
    pub from: String,
    pub to: String,
    pub subject: String,
    pub body: String,
}

/// The value of a notification mail.
pub struct NoticeView {
    pub from: Seq<char>,
    pub to: Seq<char>,
    pub subject: Seq<char>,
    pub body: Seq<char>,
}

impl View for Notice {
    type V = NoticeView;

    open spec fn view(&self) -> NoticeView {
        NoticeView { from: self.from@, to: self.to@, subject: self.subject@, body: self.body@ }
    }
}

/// The address notifications come from.
pub open spec fn notice_sender() -> Seq<char> {
    "tickets@colinrozzi.com"@
}

/// The part of a notification's text that carries its news: the first 200
/// characters of `s`.
pub open spec fn signal(s: Seq<char>) -> Seq<char> {
    if s.len() <= 200 {
        s
    } else {
        s.subrange(0, 200)
    }
}

/// `[ticket #<id>] `, which starts every notification subject.
pub open spec fn ticket_tag(t: TicketView) -> Seq<char> {
    "[ticket #"@ + dec(t.id as nat) + "] "@
}

/// The two context lines naming the reporter and the assignee.
pub open spec fn people_tail(t: TicketView) -> Seq<char> {
    "reporter: "@ + t.reporter + "\nassignee: "@ + t.assignee
}

/// The mail to the assignee of a newly created ticket.
pub open spec fn created_notice(t: TicketView) -> NoticeView {
    NoticeView {
        from: notice_sender(),
        to: t.assignee,
        subject: ticket_tag(t) + t.title,
        body: signal(t.body) + "\n\n"@ + people_tail(t),
    }
}

/// The mail to the assignee of ticket `t` when its status becomes
/// `new_status`.
pub open spec fn status_notice(t: TicketView, new_status: Seq<char>) -> NoticeView {
    NoticeView {
        from: notice_sender(),
        to: t.assignee,
        subject: ticket_tag(t) + "status: "@ + t.status + " -> "@ + new_status,
        body: signal(new_status) + "\n\n"@ + people_tail(t),
    }
}

/// The mail to the assignee of ticket `t` about the new comment `c`; none
/// when the assignee wrote it.
pub open spec fn comment_notice(t: TicketView, c: CommentView) -> Option<NoticeView> {
    if c.author == t.assignee {
        None
    } else {
        Some(
            NoticeView {
                from: notice_sender(),
                to: t.assignee,
                subject: ticket_tag(t) + "new comment from "@ + c.author,
                body: signal(c.body) + "\n\n"@ + "author: "@ + c.author + "\nticket: "@ + t.title,
            },
        )
    }
}

/// Where a notice to `to` is posted on the inbox API.
pub open spec fn mailbox_path_of(to: Seq<char>) -> Seq<char> {
    "/v1/mailboxes/"@ + url_encoded(to) + "/messages"@
}

/// The path a notice to `to` is posted to.
pub fn mailbox_path(to: &str) -> (p: String)
    ensures
        p@ == mailbox_path_of(to@),
{
    let mut p = String::from_str("/v1/mailboxes/");
    let e = url_encode(to);
    p.append(e.as_str());
    p.append("/messages");
    p
}

/// The value of an optional notice.
pub open spec fn opt_notice_view(n: Option<Notice>) -> Option<NoticeView> {
    match n {
        Some(x) => Some(x@),
        None => None,
    }
}

fn signal_exec(s: &str) -> (r: String)
    ensures
        r@ == signal(s@),
{
    let cs = chars_of(s);
    if cs.len() <= 200 {
        String::from_str(s)
    } else {
        let head = sub_chars(&cs, 0, 200);
        string_of(&head)
    }
}

fn ticket_tag_exec(t: &Ticket) -> (r: String)
    ensures
        r@ == ticket_tag(t@),
{
    let mut r = String::from_str("[ticket #");
    push_decimal(&mut r, t.id);
    r.append("] ");
    r
}

fn people_tail_exec(t: &Ticket) -> (r: String)
    ensures
        r@ == people_tail(t@),
{
    let mut r = String::from_str("reporter: ");
    r.append(t.reporter.as_str());
    r.append("\nassignee: ");
    r.append(t.assignee.as_str());
    r
}

/// The mail about a newly created ticket.
pub fn created_notice_exec(t: &Ticket) -> (n: Notice)
    ensures
        n@ == created_notice(t@),
{
    let mut subject = ticket_tag_exec(t);
    subject.append(t.title.as_str());
    let mut body = signal_exec(t.body.as_str());
    body.append("\n\n");
    let tail = people_tail_exec(t);
    body.append(tail.as_str());
    Notice {
        from: String::from_str("tickets@colinrozzi.com"),
        to: t.assignee.clone(),
        subject,
        body,
    }
}

/// The mail about ticket `t` changing to `new_status`.
pub fn status_notice_exec(t: &Ticket, new_status: &str) -> (n: Notice)
    ensures
        n@ == status_notice(t@, new_status@),
{
    let mut subject = ticket_tag_exec(t);
    subject.append("status: ");
    subject.append(t.status.as_str());
    subject.append(" -> ");
    subject.append(new_status);
    let mut body = signal_exec(new_status);
    body.append("\n\n");
    let tail = people_tail_exec(t);
    body.append(tail.as_str());
    Notice {
        from: String::from_str("tickets@colinrozzi.com"),
        to: t.assignee.clone(),
        subject,
        body,
    }
}

/// The mail about comment `c` on ticket `t`, unless the assignee wrote it.
pub fn comment_notice_exec(t: &Ticket, c: &Comment) -> (n: Option<Notice>)
    ensures
        opt_notice_view(n) == comment_notice(t@, c@),
{
    if c.author == t.assignee {
        return None;
    }
    let mut subject = ticket_tag_exec(t);
    subject.append("new comment from ");
    subject.append(c.author.as_str());
    let mut body = signal_exec(c.body.as_str());
    body.append("\n\nauthor: ");
    body.append(c.author.as_str());
    body.append("\nticket: ");
    body.append(t.title.as_str());
    proof {
        reveal_strlit("\n\nauthor: ");
        reveal_strlit("\n\n");
        reveal_strlit("author: ");
        assert("\n\nauthor: "@ =~= "\n\n"@ + "author: "@);
        assert(body@ =~= signal(c.body@) + "\n\n"@ + "author: "@ + c.author@ + "\nticket: "@
            + t.title@);
        assert(c.author@ != t.assignee@);
    }
    Some(
        Notice {
            from: String::from_str("tickets@colinrozzi.com"),
            to: t.assignee.clone(),
            subject,
            body,
        },
    )
}

// ---------------------------------------------------------------------------
// The steps of handling a request
// ---------------------------------------------------------------------------

/// What the handler does once the ticket list is loaded.
pub enum Pending {
    List { status: Option<String>, assignee: Option<String> },
    Show { id: u64 },
    Create { req: NewTicketRequest },
    SetStatus { id: u64, new_status: String },
    Comment { id: u64, comment: CommentRequest },
}

/// The value of a `Pending`.
pub enum PendingView {
    List { status: Option<Seq<char>>, assignee: Option<Seq<char>> },
    Show { id: u64 },
    Create { req: NewTicketView },
    SetStatus { id: u64, new_status: Seq<char> },
    Comment { id: u64, comment: CommentRequestView },
}

/// Where the handling of a request stands.
pub enum RouteState {
    /// Waiting for the stored API token.
    Authorizing { request: Vec<char> },
    /// Waiting for the decoded body of a create request.
    AwaitNewTicket,
    /// Waiting for the decoded body of a status request.
    AwaitStatusBody { id: u64 },
    /// Waiting for the stored ticket list.
    LoadingTickets { pending: Pending },
    /// Waiting for the decoded ticket list.
    ParsingTickets { pending: Pending },
    /// Waiting for the clock, to stamp a new ticket.
    AwaitClock { tickets: Vec<Ticket>, req: NewTicketRequest },
    /// Waiting for the decoded body of a comment request.
    AwaitCommentBody { id: u64 },
    /// Waiting for the clock, to stamp a new comment on ticket `id`.
    AwaitCommentClock { tickets: Vec<Ticket>, id: u64, comment: CommentRequest },
    /// Waiting for the updated list to be saved before replying.
    Saving { reply: Reply, notice: Option<Notice> },
    /// Waiting for the inbox address, to send `notice` before replying.
    LoadingInbox { reply: Reply, mail: Notice },
    /// Waiting for the inbox token, to send `notice` to `api`.
    LoadingInboxToken { reply: Reply, mail: Notice, api: String },
    /// Waiting for the notification to be sent (whatever came of it).
    Notifying { reply: Reply },
    /// The reply has been given.
    Finished,
}

/// The value of a `RouteState`.
pub enum StateView {
    Authorizing { request: Seq<char> },
    AwaitNewTicket,
    AwaitStatusBody { id: u64 },
    LoadingTickets { pending: PendingView },
    ParsingTickets { pending: PendingView },
    AwaitClock { tickets: Seq<TicketView>, req: NewTicketView },
    AwaitCommentBody { id: u64 },
    AwaitCommentClock { tickets: Seq<TicketView>, id: u64, comment: CommentRequestView },
    Saving { reply: ReplyView, notice: Option<NoticeView> },
    LoadingInbox { reply: ReplyView, mail: NoticeView },
    LoadingInboxToken { reply: ReplyView, mail: NoticeView, api: Seq<char> },
    Notifying { reply: ReplyView },
    Finished,
}

/// The outcome of an action, handed back to the handler.
pub enum HandlerEvent {
    /// A label was loaded from the store (see `load_label_as_string`).
    Label(Result<String, String>),
    /// The stored ticket list decoded (`None`: it did not).
    Tickets(Option<Vec<Ticket>>),
    /// A create body decoded, or the decoder's error message.
    NewTicket(Result<NewTicketRequest, String>),
    /// A status body decoded to its `status` field, or the decoder's error.
    StatusBody(Result<String, String>),
    /// A comment body decoded, or the decoder's error message.
    CommentBody(Result<CommentRequest, String>),
    /// The clock reading, in milliseconds.
    Clock(u64),
    /// The ticket list was written (whatever the store answered).
    Saved,
    /// The notification was sent, or sending it failed.
    Notified,
}

/// The value of a `HandlerEvent`.
pub enum EventView {
    Label(Result<Seq<char>, Seq<char>>),
    Tickets(Option<Seq<TicketView>>),
    NewTicket(Result<NewTicketView, Seq<char>>),
    StatusBody(Result<Seq<char>, Seq<char>>),
    CommentBody(Result<CommentRequestView, Seq<char>>),
    Clock(u64),
    Saved,
    Notified,
}

/// What the handler asks its caller to do next.
pub enum HandlerAction {
    /// Load the label from the server's store, as a string.
    LoadLabel { label: String },
    /// Decode a JSON array of tickets.
    ParseTickets { json: String },
    /// Decode a JSON create body.
    ParseNewTicket { body: String },
    /// Decode a JSON status body.
    ParseStatusBody { body: String },
    /// Decode a JSON comment body.
    ParseCommentBody { body: String },
    /// Read the clock.
    ReadClock,
    /// Encode the tickets as a JSON array and store it under the label.
    SaveTickets { store_id: String, label: String, tickets: Vec<Ticket> },
    /// Send `notice` to the inbox API at `api` with bearer `token`.
    Notify { api: String, token: String, notice: Notice },
    /// Send the reply and close the connection.
    Respond { reply: Reply },
}

/// The value of a `HandlerAction`.
pub enum ActionView {
    LoadLabel { label: Seq<char> },
    ParseTickets { json: Seq<char> },
    ParseNewTicket { body: Seq<char> },
    ParseStatusBody { body: Seq<char> },
    ParseCommentBody { body: Seq<char> },
    ReadClock,
    SaveTickets { store_id: Seq<char>, label: Seq<char>, tickets: Seq<TicketView> },
    Notify { api: Seq<char>, token: Seq<char>, notice: NoticeView },
    Respond { reply: ReplyView },
}

/// A step of the handler: its new state and the action it asks for.
pub struct Step {
    pub state: RouteState,
    pub action: HandlerAction,
}

/// The view of a string result.
pub open spec fn result_view(r: Result<String, String>) -> Result<Seq<char>, Seq<char>> {
    match r {
        Ok(s) => Ok(s@),
        Err(e) => Err(e@),
    }
}

pub open spec fn opt_tickets_view(o: Option<Vec<Ticket>>) -> Option<Seq<TicketView>> {
    match o {
        Some(v) => Some(tickets_view(v@)),
        None => None,
    }
}

impl View for Pending {
    type V = PendingView;

    open spec fn view(&self) -> PendingView {
        match self {
            Pending::List { status, assignee } => PendingView::List {
                status: opt_view(*status),
                assignee: opt_view(*assignee),
            },
            Pending::Show { id } => PendingView::Show { id: *id },
            Pending::Create { req } => PendingView::Create { req: req@ },
            Pending::SetStatus { id, new_status } => PendingView::SetStatus {
                id: *id,
                new_status: new_status@,
            },
            Pending::Comment { id, comment } => PendingView::Comment { id: *id, comment: comment@ },
        }
    }
}

impl View for RouteState {
    type V = StateView;

    open spec fn view(&self) -> StateView {
        match self {
            RouteState::Authorizing { request } => StateView::Authorizing { request: request@ },
            RouteState::AwaitNewTicket => StateView::AwaitNewTicket,
            RouteState::AwaitStatusBody { id } => StateView::AwaitStatusBody { id: *id },
            RouteState::LoadingTickets { pending } => StateView::LoadingTickets { pending: pending@ },
            RouteState::ParsingTickets { pending } => StateView::ParsingTickets { pending: pending@ },
            RouteState::AwaitClock { tickets, req } => StateView::AwaitClock {
                tickets: tickets_view(tickets@),
                req: req@,
            },
            RouteState::AwaitCommentBody { id } => StateView::AwaitCommentBody { id: *id },
            RouteState::AwaitCommentClock { tickets, id, comment } => StateView::AwaitCommentClock {
                tickets: tickets_view(tickets@),
                id: *id,
                comment: comment@,
            },
            RouteState::Saving { reply, notice } => StateView::Saving {
                reply: reply@,
                notice: opt_notice_view(*notice),
            },
            RouteState::LoadingInbox { reply, mail } => StateView::LoadingInbox {
                reply: reply@,
                mail: mail@,
            },
            RouteState::LoadingInboxToken { reply, mail, api } => StateView::LoadingInboxToken {
                reply: reply@,
                mail: mail@,
                api: api@,
            },
            RouteState::Notifying { reply } => StateView::Notifying { reply: reply@ },
            RouteState::Finished => StateView::Finished,
        }
    }
}

impl View for HandlerEvent {
    type V = EventView;

    open spec fn view(&self) -> EventView {
        match self {
            HandlerEvent::Label(r) => EventView::Label(result_view(*r)),
            HandlerEvent::Tickets(o) => EventView::Tickets(opt_tickets_view(*o)),
            HandlerEvent::NewTicket(r) => EventView::NewTicket(
                match r {
                    Ok(q) => Ok(q@),
                    Err(e) => Err(e@),
                },
            ),
            HandlerEvent::StatusBody(r) => EventView::StatusBody(result_view(*r)),
            HandlerEvent::CommentBody(r) => EventView::CommentBody(
                match r {
                    Ok(q) => Ok(q@),
                    Err(e) => Err(e@),
                },
            ),
            HandlerEvent::Clock(t) => EventView::Clock(*t),
            HandlerEvent::Saved => EventView::Saved,
            HandlerEvent::Notified => EventView::Notified,
        }
    }
}

impl View for HandlerAction {
    type V = ActionView;

    open spec fn view(&self) -> ActionView {
        match self {
            HandlerAction::LoadLabel { label } => ActionView::LoadLabel { label: label@ },
            HandlerAction::ParseTickets { json } => ActionView::ParseTickets { json: json@ },
            HandlerAction::ParseNewTicket { body } => ActionView::ParseNewTicket { body: body@ },
            HandlerAction::ParseStatusBody { body } => ActionView::ParseStatusBody { body: body@ },
            HandlerAction::ParseCommentBody { body } => ActionView::ParseCommentBody { body: body@ },
            HandlerAction::ReadClock => ActionView::ReadClock,
            HandlerAction::SaveTickets { store_id, label, tickets } => ActionView::SaveTickets {
                store_id: store_id@,
                label: label@,
                tickets: tickets_view(tickets@),
            },
            HandlerAction::Notify { api, token, notice } => ActionView::Notify {
                api: api@,
                token: token@,
                notice: notice@,
            },
            HandlerAction::Respond { reply } => ActionView::Respond { reply: reply@ },
        }
    }
}

// ---------------------------------------------------------------------------
// The transition relation
// ---------------------------------------------------------------------------

/// Answer with `reply` and stop.
pub open spec fn finish(reply: ReplyView) -> (StateView, ActionView) {
    (StateView::Finished, ActionView::Respond { reply })
}

/// Load the ticket list, then carry on with `pending`.
pub open spec fn load_tickets_then(pending: PendingView) -> (StateView, ActionView) {
    (StateView::LoadingTickets { pending }, ActionView::LoadLabel { label: tickets_label() })
}

/// The first step: a request that is not UTF-8 is refused; any other asks
/// for the stored API token.
pub open spec fn start(request: Seq<u8>) -> (StateView, ActionView) {
    if !valid_utf8(request) {
        finish(text_reply(400, "{\"error\":\"non-utf8 request\"}"@))
    } else {
        (
            StateView::Authorizing { request: decode_utf8(request) },
            ActionView::LoadLabel { label: token_label() },
        )
    }
}

/// Whether a request is authorized: the token could be loaded and the
/// request's bearer token equals it.
pub open spec fn authorized(stored: Result<Seq<char>, Seq<char>>, request: Seq<char>) -> bool {
    match stored {
        Ok(token) => bearer_token(request) == Some(token),
        Err(_) => false,
    }
}

/// The body of a request: what follows the first blank line.
pub open spec fn request_body(request: Seq<char>) -> Option<Seq<char>> {
    match find(request, "\r\n\r\n"@) {
        Some(i) => Some(request.subrange(i + "\r\n\r\n"@.len(), request.len() as int)),
        None => None,
    }
}

/// The step after an authorized request: dispatch on its target.
pub open spec fn dispatch(request: Seq<char>) -> (StateView, ActionView) {
    match route_target(request) {
        TargetView::List { query } => {
            let (status, assignee) = query_filters(query);
            load_tickets_then(PendingView::List { status, assignee })
        },
        TargetView::Create => match request_body(request) {
            Some(body) => (StateView::AwaitNewTicket, ActionView::ParseNewTicket { body }),
            None => finish(text_reply(400, "{\"error\":\"missing body\"}"@)),
        },
        TargetView::Show { id } => match parse_unsigned(id, u64::MAX as nat) {
            Some(n) => load_tickets_then(PendingView::Show { id: n as u64 }),
            None => finish(text_reply(400, "{\"error\":\"invalid ticket id\"}"@)),
        },
        TargetView::SetStatus { id } => match parse_unsigned(id, u64::MAX as nat) {
            Some(n) => match request_body(request) {
                Some(body) => (
                    StateView::AwaitStatusBody { id: n as u64 },
                    ActionView::ParseStatusBody { body },
                ),
                None => finish(text_reply(400, "{\"error\":\"missing body\"}"@)),
            },
            None => finish(text_reply(400, "{\"error\":\"invalid ticket id\"}"@)),
        },
        TargetView::Comment { id } => match parse_unsigned(id, u64::MAX as nat) {
            Some(n) => match request_body(request) {
                Some(body) => (
                    StateView::AwaitCommentBody { id: n as u64 },
                    ActionView::ParseCommentBody { body },
                ),
                None => finish(text_reply(400, "{\"error\":\"missing body\"}"@)),
            },
            None => finish(text_reply(400, "{\"error\":\"invalid ticket id\"}"@)),
        },
        _ => finish(text_reply(404, "{\"error\":\"not found\"}"@)),
    }
}

/// The step once the ticket list `ts` is known.
pub open spec fn proceed(pending: PendingView, ts: Seq<TicketView>) -> (StateView, ActionView) {
    match pending {
        PendingView::List { status, assignee } => finish(
            ReplyView { status: 200, payload: PayloadView::Many(filtered(ts, status, assignee)) },
        ),
        PendingView::Show { id } => match find_id(ts, id) {
            Some(i) => finish(ReplyView { status: 200, payload: PayloadView::One(ts[i]) }),
            None => finish(text_reply(404, "{\"error\":\"ticket not found\"}"@)),
        },
        PendingView::Create { req } => (
            StateView::AwaitClock { tickets: ts, req },
            ActionView::ReadClock,
        ),
        PendingView::SetStatus { id, new_status } => match find_id(ts, id) {
            Some(i) => {
                let t = with_status(ts[i], new_status);
                save_then(
                    ts.update(i, t),
                    ReplyView { status: 200, payload: PayloadView::One(t) },
                    Some(status_notice(ts[i], new_status)),
                )
            },
            None => finish(text_reply(404, "{\"error\":\"ticket not found\"}"@)),
        },
        PendingView::Comment { id, comment } => match find_id(ts, id) {
            Some(_) => (
                StateView::AwaitCommentClock { tickets: ts, id, comment },
                ActionView::ReadClock,
            ),
            None => finish(text_reply(404, "{\"error\":\"ticket not found\"}"@)),
        },
    }
}

/// Save `ts` as the ticket list, then answer with `reply`.
pub open spec fn save_then(ts: Seq<TicketView>, reply: ReplyView, notice: Option<NoticeView>) -> (
    StateView,
    ActionView,
) {
    (
        StateView::Saving { reply, notice },
        ActionView::SaveTickets { store_id: store_name(), label: tickets_label(), tickets: ts },
    )
}

/// Whether the handler expects this kind of outcome in this state.
pub open spec fn expects(s: StateView, e: EventView) -> bool {
    match s {
        StateView::Authorizing { .. } => e is Label,
        StateView::AwaitNewTicket => e is NewTicket,
        StateView::AwaitStatusBody { .. } => e is StatusBody,
        StateView::LoadingTickets { .. } => e is Label,
        StateView::ParsingTickets { .. } => e is Tickets,
        StateView::AwaitClock { .. } => e is Clock,
        StateView::AwaitCommentBody { .. } => e is CommentBody,
        StateView::AwaitCommentClock { .. } => e is Clock,
        StateView::Saving { .. } => e is Saved,
        StateView::LoadingInbox { .. } => e is Label,
        StateView::LoadingInboxToken { .. } => e is Label,
        StateView::Notifying { .. } => e is Notified,
        StateView::Finished => false,
    }
}

/// The tickets a loaded-label or decoded-list outcome leaves the handler
/// with, when the outcome completes the loading.
pub open spec fn tickets_from(e: EventView) -> Seq<TicketView> {
    match e {
        EventView::Tickets(Some(ts)) => ts,
        _ => Seq::empty(),
    }
}

/// The inputs on which the handler stops by a panic: computing the id for a
/// new ticket when the largest id in use is `u64::MAX`.
pub open spec fn traps(s: StateView, e: EventView) -> bool {
    match s {
        StateView::ParsingTickets { pending } => pending is Create && max_id(tickets_from(e))
            >= u64::MAX,
        StateView::AwaitClock { tickets, .. } => max_id(tickets) >= u64::MAX,
        _ => false,
    }
}

/// The next state and action after the outcome `e` in state `s`.
pub open spec fn next(s: StateView, e: EventView) -> (StateView, ActionView) {
    match (s, e) {
        (StateView::Authorizing { request }, EventView::Label(stored)) => {
            if authorized(stored, request) {
                dispatch(request)
            } else {
                finish(text_reply(401, "{\"error\":\"unauthorized\"}"@))
            }
        },
        (StateView::AwaitNewTicket, EventView::NewTicket(r)) => match r {
            Err(msg) => finish(text_reply(400, bad_body_message(msg))),
            Ok(req) => if missing_required(req) {
                finish(
                    text_reply(
                        400,
                        "{\"error\":\"title, reporter, and assignee are required\"}"@,
                    ),
                )
            } else {
                load_tickets_then(PendingView::Create { req })
            },
        },
        (StateView::AwaitStatusBody { id }, EventView::StatusBody(r)) => match r {
            Err(msg) => finish(text_reply(400, bad_body_message(msg))),
            Ok(status) => if !valid_status(status) {
                finish(text_reply(400, bad_status_message(status)))
            } else {
                load_tickets_then(PendingView::SetStatus { id, new_status: status })
            },
        },
        (StateView::LoadingTickets { pending }, EventView::Label(r)) => match r {
            Ok(json) => (StateView::ParsingTickets { pending }, ActionView::ParseTickets { json }),
            Err(_) => proceed(pending, Seq::empty()),
        },
        (StateView::ParsingTickets { pending }, EventView::Tickets(o)) => match o {
            Some(ts) => proceed(pending, ts),
            None => proceed(pending, Seq::empty()),
        },
        (StateView::AwaitClock { tickets, req }, EventView::Clock(now)) => {
            let t = new_ticket(next_id(tickets) as u64, req, now);
            save_then(
                tickets.push(t),
                ReplyView { status: 201, payload: PayloadView::One(t) },
                Some(created_notice(t)),
            )
        },
        (StateView::AwaitCommentBody { id }, EventView::CommentBody(r)) => match r {
            Err(msg) => finish(text_reply(400, bad_body_message(msg))),
            Ok(comment) => load_tickets_then(PendingView::Comment { id, comment }),
        },
        (StateView::AwaitCommentClock { tickets, id, comment }, EventView::Clock(now)) => match find_id(
            tickets,
            id,
        ) {
            Some(i) => {
                let c = new_comment(comment, now);
                let t = with_comment(tickets[i], c);
                save_then(
                    tickets.update(i, t),
                    ReplyView { status: 200, payload: PayloadView::One(t) },
                    comment_notice(t, c),
                )
            },
            None => finish(text_reply(404, "{\"error\":\"ticket not found\"}"@)),
        },
        (StateView::Saving { reply, notice }, EventView::Saved) => match notice {
            None => finish(reply),
            Some(n) => (
                StateView::LoadingInbox { reply, mail: n },
                ActionView::LoadLabel { label: inbox_api_label() },
            ),
        },
        (StateView::LoadingInbox { reply, mail }, EventView::Label(r)) => match r {
            Ok(api) => (
                StateView::LoadingInboxToken { reply, mail, api },
                ActionView::LoadLabel { label: inbox_token_label() },
            ),
            Err(_) => finish(reply),
        },
        (StateView::LoadingInboxToken { reply, mail, api }, EventView::Label(r)) => match r {
            Ok(token) => (
                StateView::Notifying { reply },
                ActionView::Notify { api, token, notice: mail },
            ),
            Err(_) => finish(reply),
        },
        (StateView::Notifying { reply }, EventView::Notified) => finish(reply),
        _ => (s, ActionView::Respond { reply: text_reply(404, Seq::empty()) }),
    }
}

// ---------------------------------------------------------------------------
// Loading labels
// ---------------------------------------------------------------------------

/// The outcome of looking a label up in the store.
pub enum LabelLoad {
    /// The label names stored content; fetch it.
    Fetch { store_id: String, content_ref: String },
    /// Loading is over, with the label's text or an error message.
    Done(Result<String, String>),
}

/// The value of a `LabelLoad`.
pub enum LabelLoadView {
    Fetch { store_id: Seq<char>, content_ref: Seq<char> },
    Done(Result<Seq<char>, Seq<char>>),
}

impl View for LabelLoad {
    type V = LabelLoadView;

    open spec fn view(&self) -> LabelLoadView {
        match self {
            LabelLoad::Fetch { store_id, content_ref } => LabelLoadView::Fetch {
                store_id: store_id@,
                content_ref: content_ref@,
            },
            LabelLoad::Done(r) => LabelLoadView::Done(
                match r {
                    Ok(s) => Ok(s@),
                    Err(e) => Err(e@),
                },
            ),
        }
    }
}

/// The first half of loading a label as a string: given what the store
/// answered to the lookup of `label`, either fetch the content it names or
/// fail with a message naming the label.
pub fn load_label_as_string(label: &str, lookup: Result<Option<String>, String>) -> (r: LabelLoad)
    ensures
        r@ == match lookup {
            Err(e) => LabelLoadView::Done(Err(label@ + " lookup failed: "@ + e@)),
            Ok(None) => LabelLoadView::Done(Err(label@ + " not set"@)),
            Ok(Some(c)) => LabelLoadView::Fetch { store_id: store_name(), content_ref: c@ },
        },
{
    match lookup {
        Err(e) => {
            let mut m = String::from_str(label);
            m.append(" lookup failed: ");
            m.append(e.as_str());
            LabelLoad::Done(Err(m))
        },
        Ok(None) => {
            let mut m = String::from_str(label);
            m.append(" not set");
            LabelLoad::Done(Err(m))
        },
        Ok(Some(c)) => LabelLoad::Fetch { store_id: store_id(), content_ref: c },
    }
}

/// What loading `label` as a string gives once its content was fetched:
/// the content's text when it is UTF-8.
pub open spec fn label_text(label: Seq<char>, fetched: Result<Seq<u8>, Seq<char>>) -> Result<
    Seq<char>,
    Seq<char>,
> {
    match fetched {
        Err(e) => Err(label + " get failed: "@ + e),
        Ok(bytes) => if valid_utf8(bytes) {
            Ok(decode_utf8(bytes))
        } else {
            Err(label + " is not valid UTF-8"@)
        },
    }
}

/// The second half of loading a label as a string: the fetched content must
/// be UTF-8.
pub fn finish_label_load(label: &str, fetched: Result<Vec<u8>, String>) -> (r: Result<
    String,
    String,
>)
    ensures
        match label_text(
            label@,
            match fetched {
                Ok(b) => Ok(b@),
                Err(e) => Err(e@),
            },
        ) {
            Ok(t) => r matches Ok(s) && s@ == t,
            Err(m) => r matches Err(x) && x@ == m,
        },
{
    match fetched {
        Err(e) => {
            let mut m = String::from_str(label);
            m.append(" get failed: ");
            m.append(e.as_str());
            Err(m)
        },
        Ok(bytes) => match str_from_utf8(bytes.as_slice()) {
            Some(text) => Ok(text.to_owned()),
            None => {
                let mut m = String::from_str(label);
                m.append(" is not valid UTF-8");
                Err(m)
            },
        },
    }
}

// ---------------------------------------------------------------------------
// Executing the steps
// ---------------------------------------------------------------------------

/// Whether the stored token authorizes the request.
pub fn check_auth(stored: &Result<String, String>, request: &[char]) -> (b: bool)
    ensures
        b == authorized(result_view(*stored), request@),
{
    match stored {
        Err(_) => false,
        Ok(token) => match extract_bearer(request) {
            None => false,
            Some(bearer) => bearer == *token,
        },
    }
}

fn finish_with(reply: Reply) -> (r: Step)
    ensures
        (r.state@, r.action@) == finish(reply@),
{
    Step { state: RouteState::Finished, action: HandlerAction::Respond { reply } }
}

fn load_tickets_step(pending: Pending) -> (r: Step)
    ensures
        (r.state@, r.action@) == load_tickets_then(pending@),
{
    Step {
        state: RouteState::LoadingTickets { pending },
        action: HandlerAction::LoadLabel { label: String::from_str("tickets-list") },
    }
}

fn save_step(tickets: Vec<Ticket>, reply: Reply, notice: Option<Notice>) -> (r: Step)
    ensures
        (r.state@, r.action@) == save_then(tickets_view(tickets@), reply@, opt_notice_view(notice)),
{
    Step {
        state: RouteState::Saving { reply, notice },
        action: HandlerAction::SaveTickets {
            store_id: store_id(),
            label: String::from_str("tickets-list"),
            tickets,
        },
    }
}

/// The first step of handling a request: refuse it when it is not UTF-8,
/// else ask for the stored API token.
pub fn route(request: &[u8]) -> (s: Step)
    ensures
        (s.state@, s.action@) == start(request@),
{
    match str_from_utf8(request) {
        None => finish_with(text_reply_exec(400, "{\"error\":\"non-utf8 request\"}")),
        Some(text) => Step {
            state: RouteState::Authorizing { request: chars_of(text) },
            action: HandlerAction::LoadLabel { label: String::from_str("api-bearer-token") },
        },
    }
}

fn body_of(request: &[char]) -> (r: Option<String>)
    ensures
        opt_view(r) == request_body(request@),
{
    let n = request.len();
    let sep = chars_of("\r\n\r\n");
    match find_chars(request, &sep) {
        Some(i) => {
            proof {
                lemma_find_from_bounds(request@, sep@, 0);
            }
            let body = sub_chars(request, i + sep.len(), n);
            Some(string_of(&body))
        },
        None => None,
    }
}

fn dispatch_step(request: Vec<char>) -> (r: Step)
    ensures
        (r.state@, r.action@) == dispatch(request@),
{
    match target_of(&request) {
        Target::List { query } => {
            let q = string_of(&query);
            let (status, assignee) = parse_query(q.as_str());
            load_tickets_step(Pending::List { status, assignee })
        },
        Target::Create => match body_of(&request) {
            Some(body) => Step {
                state: RouteState::AwaitNewTicket,
                action: HandlerAction::ParseNewTicket { body },
            },
            None => finish_with(text_reply_exec(400, "{\"error\":\"missing body\"}")),
        },
        Target::Show { id } => match parse_u64(&id) {
            Some(n) => load_tickets_step(Pending::Show { id: n }),
            None => finish_with(text_reply_exec(400, "{\"error\":\"invalid ticket id\"}")),
        },
        Target::SetStatus { id } => match parse_u64(&id) {
            Some(n) => match body_of(&request) {
                Some(body) => Step {
                    state: RouteState::AwaitStatusBody { id: n },
                    action: HandlerAction::ParseStatusBody { body },
                },
                None => finish_with(text_reply_exec(400, "{\"error\":\"missing body\"}")),
            },
            None => finish_with(text_reply_exec(400, "{\"error\":\"invalid ticket id\"}")),
        },
        Target::Comment { id } => match parse_u64(&id) {
            Some(n) => match body_of(&request) {
                Some(body) => Step {
                    state: RouteState::AwaitCommentBody { id: n },
                    action: HandlerAction::ParseCommentBody { body },
                },
                None => finish_with(text_reply_exec(400, "{\"error\":\"missing body\"}")),
            },
            None => finish_with(text_reply_exec(400, "{\"error\":\"invalid ticket id\"}")),
        },
        _ => finish_with(text_reply_exec(404, "{\"error\":\"not found\"}")),
    }
}

fn proceed_step(pending: Pending, tickets: Vec<Ticket>) -> (r: Step)
    ensures
        (r.state@, r.action@) == proceed(pending@, tickets_view(tickets@)),
{
    match pending {
        Pending::List { status, assignee } => {
            let shown = filter_tickets(tickets, &status, &assignee);
            finish_with(Reply { status: 200, payload: Payload::Many(shown) })
        },
        Pending::Show { id } => {
            let found = find_ticket(&tickets, id);
            proof {
                lemma_find_id_from(tickets_view(tickets@), id, 0);
            }
            match found {
                Some(i) => finish_with(Reply { status: 200, payload: Payload::One(tickets[i].clone()) }),
                None => finish_with(text_reply_exec(404, "{\"error\":\"ticket not found\"}")),
            }
        },
        Pending::Create { req } => Step {
            state: RouteState::AwaitClock { tickets, req },
            action: HandlerAction::ReadClock,
        },
        Pending::SetStatus { id, new_status } => {
            let found = find_ticket(&tickets, id);
            proof {
                lemma_find_id_from(tickets_view(tickets@), id, 0);
            }
            match found {
                Some(i) => {
                    let notice = status_notice_exec(&tickets[i], new_status.as_str());
                    let mut tickets = tickets;
                    match set_ticket_status(&mut tickets, id, new_status) {
                        Some(t) => save_step(
                            tickets,
                            Reply { status: 200, payload: Payload::One(t) },
                            Some(notice),
                        ),
                        None => finish_with(
                            text_reply_exec(404, "{\"error\":\"ticket not found\"}"),
                        ),
                    }
                },
                None => finish_with(text_reply_exec(404, "{\"error\":\"ticket not found\"}")),
            }
        },
        Pending::Comment { id, comment } => {
            let found = find_ticket(&tickets, id);
            match found {
                Some(_) => Step {
                    state: RouteState::AwaitCommentClock { tickets, id, comment },
                    action: HandlerAction::ReadClock,
                },
                None => finish_with(text_reply_exec(404, "{\"error\":\"ticket not found\"}")),
            }
        },
    }
}

fn bad_body_reply(msg: &String) -> (r: Reply)
    ensures
        r@ == text_reply(400, bad_body_message(msg@)),
{
    let mut m = String::from_str("bad request body: ");
    m.append(msg.as_str());
    let body = error_body_exec(m.as_str());
    text_reply_exec(400, body.as_str())
}

impl RouteState {
    /// Whether this outcome is the one the handler waits for in this state.
    pub fn expects_event(&self, event: &HandlerEvent) -> (b: bool)
        ensures
            b == expects(self@, event@),
    {
        match self {
            RouteState::Authorizing { .. } => matches!(event, HandlerEvent::Label(_)),
            RouteState::AwaitNewTicket => matches!(event, HandlerEvent::NewTicket(_)),
            RouteState::AwaitStatusBody { .. } => matches!(event, HandlerEvent::StatusBody(_)),
            RouteState::LoadingTickets { .. } => matches!(event, HandlerEvent::Label(_)),
            RouteState::ParsingTickets { .. } => matches!(event, HandlerEvent::Tickets(_)),
            RouteState::AwaitClock { .. } => matches!(event, HandlerEvent::Clock(_)),
            RouteState::AwaitCommentBody { .. } => matches!(event, HandlerEvent::CommentBody(_)),
            RouteState::AwaitCommentClock { .. } => matches!(event, HandlerEvent::Clock(_)),
            RouteState::Saving { .. } => matches!(event, HandlerEvent::Saved),
            RouteState::LoadingInbox { .. } => matches!(event, HandlerEvent::Label(_)),
            RouteState::LoadingInboxToken { .. } => matches!(event, HandlerEvent::Label(_)),
            RouteState::Notifying { .. } => matches!(event, HandlerEvent::Notified),
            RouteState::Finished => false,
        }
    }

    /// Whether handling this outcome stops the handler by a panic.
    pub fn traps_on(&self, event: &HandlerEvent) -> (b: bool)
        ensures
            b == traps(self@, event@),
    {
        match self {
            RouteState::ParsingTickets { pending } => match pending {
                Pending::Create { .. } => match event {
                    HandlerEvent::Tickets(Some(ts)) => max_ticket_id(ts) == u64::MAX,
                    _ => false,
                },
                _ => false,
            },
            RouteState::AwaitClock { tickets, .. } => max_ticket_id(tickets) == u64::MAX,
            _ => false,
        }
    }

    /// The next step after the outcome `event` of the previous action.
    pub fn step(self, event: HandlerEvent) -> (r: Step)
        requires
            expects(self@, event@),
            !traps(self@, event@),
        ensures
            (r.state@, r.action@) == next(self@, event@),
    {
        match self {
            RouteState::Authorizing { request } => step_authorizing(request, event),
            RouteState::AwaitNewTicket => step_new_ticket(event),
            RouteState::AwaitStatusBody { id } => step_status_body(id, event),
            RouteState::LoadingTickets { pending } => step_loading(pending, event),
            RouteState::ParsingTickets { pending } => step_parsing(pending, event),
            RouteState::AwaitClock { tickets, req } => step_clock(tickets, req, event),
            RouteState::AwaitCommentBody { id } => step_comment_body(id, event),
            RouteState::AwaitCommentClock { tickets, id, comment } => step_comment_clock(
                tickets,
                id,
                comment,
                event,
            ),
            RouteState::Saving { reply, notice } => match notice {
                None => finish_with(reply),
                Some(n) => Step {
                    state: RouteState::LoadingInbox { reply, mail: n },
                    action: HandlerAction::LoadLabel { label: String::from_str("inbox-api") },
                },
            },
            RouteState::LoadingInbox { reply, mail } => match event {
                HandlerEvent::Label(Ok(api)) => Step {
                    state: RouteState::LoadingInboxToken { reply, mail, api },
                    action: HandlerAction::LoadLabel { label: String::from_str("inbox-token") },
                },
                _ => finish_with(reply),
            },
            RouteState::LoadingInboxToken { reply, mail, api } => match event {
                HandlerEvent::Label(Ok(token)) => Step {
                    state: RouteState::Notifying { reply },
                    action: HandlerAction::Notify { api, token, notice: mail },
                },
                _ => finish_with(reply),
            },
            RouteState::Notifying { reply } => finish_with(reply),
            RouteState::Finished => finish_with(text_reply_exec(404, "")),
        }
    }
}

fn step_authorizing(request: Vec<char>, event: HandlerEvent) -> (r: Step)
    requires
        event is Label,
    ensures
        (r.state@, r.action@) == next(StateView::Authorizing { request: request@ }, event@),
{
    let stored = match event {
        HandlerEvent::Label(stored) => stored,
        _ => Err(String::new()),
    };
    if check_auth(&stored, &request) {
        dispatch_step(request)
    } else {
        finish_with(text_reply_exec(401, "{\"error\":\"unauthorized\"}"))
    }
}

fn step_new_ticket(event: HandlerEvent) -> (r: Step)
    requires
        event is NewTicket,
    ensures
        (r.state@, r.action@) == next(StateView::AwaitNewTicket, event@),
{
    match event {
        HandlerEvent::NewTicket(Err(msg)) => finish_with(bad_body_reply(&msg)),
        HandlerEvent::NewTicket(Ok(req)) => {
            if lacks_required_fields(&req) {
                finish_with(
                    text_reply_exec(
                        400,
                        "{\"error\":\"title, reporter, and assignee are required\"}",
                    ),
                )
            } else {
                load_tickets_step(Pending::Create { req })
            }
        },
        _ => finish_with(text_reply_exec(404, "")),
    }
}

fn step_status_body(id: u64, event: HandlerEvent) -> (r: Step)
    requires
        event is StatusBody,
    ensures
        (r.state@, r.action@) == next(StateView::AwaitStatusBody { id }, event@),
{
    match event {
        HandlerEvent::StatusBody(Err(msg)) => finish_with(bad_body_reply(&msg)),
        HandlerEvent::StatusBody(Ok(status)) => {
            if !is_valid_status(&status) {
                let mut m = String::from_str("invalid status \"");
                m.append(status.as_str());
                m.append("\"; valid values: open, in-progress, done, closed");
                let body = error_body_exec(m.as_str());
                finish_with(text_reply_exec(400, body.as_str()))
            } else {
                load_tickets_step(Pending::SetStatus { id, new_status: status })
            }
        },
        _ => finish_with(text_reply_exec(404, "")),
    }
}

fn step_loading(pending: Pending, event: HandlerEvent) -> (r: Step)
    requires
        event is Label,
    ensures
        (r.state@, r.action@) == next(StateView::LoadingTickets { pending: pending@ }, event@),
{
    match event {
        HandlerEvent::Label(Ok(json)) => Step {
            state: RouteState::ParsingTickets { pending },
            action: HandlerAction::ParseTickets { json },
        },
        _ => {
            let empty: Vec<Ticket> = Vec::new();
            assert(tickets_view(empty@) =~= Seq::<TicketView>::empty());
            proceed_step(pending, empty)
        },
    }
}

fn step_parsing(pending: Pending, event: HandlerEvent) -> (r: Step)
    requires
        event is Tickets,
    ensures
        (r.state@, r.action@) == next(StateView::ParsingTickets { pending: pending@ }, event@),
{
    match event {
        HandlerEvent::Tickets(Some(ts)) => proceed_step(pending, ts),
        _ => {
            let empty: Vec<Ticket> = Vec::new();
            assert(tickets_view(empty@) =~= Seq::<TicketView>::empty());
            proceed_step(pending, empty)
        },
    }
}

fn step_clock(tickets: Vec<Ticket>, req: NewTicketRequest, event: HandlerEvent) -> (r: Step)
    requires
        event is Clock,
        max_id(tickets_view(tickets@)) < u64::MAX,
    ensures
        (r.state@, r.action@) == next(
            StateView::AwaitClock { tickets: tickets_view(tickets@), req: req@ },
            event@,
        ),
{
    let now = match event {
        HandlerEvent::Clock(now) => now,
        _ => 0,
    };
    let mut tickets = tickets;
    let t = create_ticket(&mut tickets, req, now);
    let notice = created_notice_exec(&t);
    save_step(tickets, Reply { status: 201, payload: Payload::One(t) }, Some(notice))
}

fn step_comment_body(id: u64, event: HandlerEvent) -> (r: Step)
    requires
        event is CommentBody,
    ensures
        (r.state@, r.action@) == next(StateView::AwaitCommentBody { id }, event@),
{
    match event {
        HandlerEvent::CommentBody(Err(msg)) => finish_with(bad_body_reply(&msg)),
        HandlerEvent::CommentBody(Ok(comment)) => load_tickets_step(Pending::Comment { id, comment }),
        _ => finish_with(text_reply_exec(404, "")),
    }
}

fn step_comment_clock(
    tickets: Vec<Ticket>,
    id: u64,
    comment: CommentRequest,
    event: HandlerEvent,
) -> (r: Step)
    requires
        event is Clock,
    ensures
        (r.state@, r.action@) == next(
            StateView::AwaitCommentClock { tickets: tickets_view(tickets@), id, comment: comment@ },
            event@,
        ),
{
    let now = match event {
        HandlerEvent::Clock(now) => now,
        _ => 0,
    };
    let c = Comment {
        author: comment.author.clone(),
        body: comment.body.clone(),
        created_at: now,
    };
    let mut tickets = tickets;
    match add_comment(&mut tickets, id, comment, now) {
        Some(t) => {
            let notice = comment_notice_exec(&t, &c);
            save_step(tickets, Reply { status: 200, payload: Payload::One(t) }, notice)
        },
        None => finish_with(text_reply_exec(404, "{\"error\":\"ticket not found\"}")),
    }
}

// ---------------------------------------------------------------------------
// Laws of request handling
// ---------------------------------------------------------------------------

/// A request whose bearer token does not equal the stored token (or when no
/// token can be loaded) is answered `401` and nothing else happens: no
/// ticket is read or written.
pub proof fn law_unauthorized_is_refused(request: Seq<char>, stored: Result<Seq<char>, Seq<char>>)
    requires
        !authorized(stored, request),
    ensures
        next(StateView::Authorizing { request }, EventView::Label(stored)) == finish(
            text_reply(401, "{\"error\":\"unauthorized\"}"@),
        ),
{
}

/// Every reply ends the handling of the request, and a finished handler
/// expects nothing more.
pub proof fn law_reply_is_last(s: StateView, e: EventView)
    requires
        expects(s, e),
    ensures
        next(s, e).1 is Respond ==> next(s, e).0 is Finished,
        !expects(StateView::Finished, e),
{
    match s {
        StateView::Authorizing { request } => {
            match route_target(request) {
                TargetView::List { query } => {},
                _ => {},
            }
        },
        StateView::ParsingTickets { pending } => {},
        StateView::LoadingTickets { pending } => {},
        _ => {},
    }
}

/// The ticket list is written only after a create (with the new ticket
/// appended and answered `201`), a status change or a comment (answered
/// `200` with the changed ticket).
pub proof fn law_writes_come_from_changes(s: StateView, e: EventView)
    requires
        expects(s, e),
        next(s, e).1 is SaveTickets,
    ensures
        s is AwaitClock || s is AwaitCommentClock || (s matches StateView::LoadingTickets {
            pending,
        } && pending is SetStatus) || (s matches StateView::ParsingTickets { pending }
            && pending is SetStatus),
{
    match s {
        StateView::Authorizing { request } => {
            match route_target(request) {
                TargetView::List { query } => {},
                _ => {},
            }
        },
        _ => {},
    }
}

/// At most how many more outcomes the handler waits for before it replies.
pub open spec fn steps_left(s: StateView) -> nat {
    match s {
        StateView::Authorizing { .. } => 10,
        StateView::AwaitNewTicket => 9,
        StateView::AwaitStatusBody { .. } => 9,
        StateView::LoadingTickets { .. } => 8,
        StateView::ParsingTickets { .. } => 7,
        StateView::AwaitClock { .. } => 6,
        StateView::AwaitCommentBody { .. } => 9,
        StateView::AwaitCommentClock { .. } => 6,
        StateView::Saving { .. } => 5,
        StateView::LoadingInbox { .. } => 4,
        StateView::LoadingInboxToken { .. } => 3,
        StateView::Notifying { .. } => 2,
        StateView::Finished => 0,
    }
}

/// Handling a request always comes to an end: every outcome the handler
/// waits for brings it strictly closer to its reply, and a handler that has
/// not replied yet waits for some outcome.
pub proof fn law_handling_terminates(s: StateView, e: EventView)
    requires
        expects(s, e),
    ensures
        steps_left(next(s, e).0) < steps_left(s),
        !(next(s, e).0 is Finished) ==> exists|e2: EventView| expects(next(s, e).0, e2),
{
    match s {
        StateView::Authorizing { request } => {
            match route_target(request) {
                TargetView::List { query } => {},
                _ => {},
            }
        },
        _ => {},
    }
    let n = next(s, e).0;
    match n {
        StateView::Authorizing { .. } => assert(expects(n, EventView::Label(Err(Seq::empty())))),
        StateView::AwaitNewTicket => assert(expects(n, EventView::NewTicket(Err(Seq::empty())))),
        StateView::AwaitStatusBody { .. } => assert(expects(n, EventView::StatusBody(Err(Seq::empty())))),
        StateView::LoadingTickets { .. } => assert(expects(n, EventView::Label(Err(Seq::empty())))),
        StateView::ParsingTickets { .. } => assert(expects(n, EventView::Tickets(None))),
        StateView::AwaitClock { .. } => assert(expects(n, EventView::Clock(0))),
        StateView::AwaitCommentBody { .. } => assert(expects(n, EventView::CommentBody(Err(Seq::empty())))),
        StateView::AwaitCommentClock { .. } => assert(expects(n, EventView::Clock(0))),
        StateView::Saving { .. } => assert(expects(n, EventView::Saved)),
        StateView::LoadingInbox { .. } => assert(expects(n, EventView::Label(Err(Seq::empty())))),
        StateView::LoadingInboxToken { .. } => {
            assert(expects(n, EventView::Label(Err(Seq::empty()))));
        },
        StateView::Notifying { .. } => assert(expects(n, EventView::Notified)),
        StateView::Finished => {},
    }
}

/// An unknown status is refused with `400` before the ticket list is even
/// loaded.
pub proof fn law_invalid_status_is_refused(id: u64, status: Seq<char>)
    requires
        !valid_status(status),
    ensures
        next(StateView::AwaitStatusBody { id }, EventView::StatusBody(Ok(status))) == finish(
            text_reply(400, bad_status_message(status)),
        ),
{
}

/// Read after write, for creation: the list saved after creating a ticket
/// holds the old tickets followed by the new one, which has the next id and
/// status `open`, is what the create is answered with (its assignee then
/// gets `created_notice`), and is what showing its id from the saved list
/// answers.
pub proof fn law_created_then_shown(tickets: Seq<TicketView>, req: NewTicketView, now: u64)
    requires
        max_id(tickets) < u64::MAX,
    ensures
        ({
            let t = new_ticket(next_id(tickets) as u64, req, now);
            let saved = tickets.push(t);
            &&& next(StateView::AwaitClock { tickets, req }, EventView::Clock(now)) == save_then(
                saved,
                ReplyView { status: 201, payload: PayloadView::One(t) },
                Some(created_notice(t)),
            )
            &&& t.status == "open"@
            &&& proceed(PendingView::Show { id: t.id }, saved) == finish(
                ReplyView { status: 200, payload: PayloadView::One(t) },
            )
        }),
{
    crate::ticket::law_created_ticket_is_found(tickets, req, now);
}

/// On a fresh store (no ticket list stored yet, so the lookup fails) the
/// first ticket created gets id 1 and status `open`, the saved list holds it
/// alone, and a later request to show id 1 that reads that list back answers
/// with it.
pub proof fn law_first_ticket_on_fresh_store(
    req: NewTicketView,
    now: u64,
    lookup_error: Seq<char>,
    json: Seq<char>,
)
    ensures
        ({
            let t = new_ticket(1, req, now);
            let (s1, _a1) = next(
                StateView::LoadingTickets { pending: PendingView::Create { req } },
                EventView::Label(Err(lookup_error)),
            );
            let (s2, a2) = next(
                StateView::LoadingTickets { pending: PendingView::Show { id: 1 } },
                EventView::Label(Ok(json)),
            );
            &&& s1 == StateView::AwaitClock { tickets: Seq::empty(), req }
            &&& next(s1, EventView::Clock(now)) == save_then(
                seq![t],
                ReplyView { status: 201, payload: PayloadView::One(t) },
                Some(created_notice(t)),
            )
            &&& t.id == 1 && t.status == "open"@
            &&& a2 == ActionView::ParseTickets { json }
            &&& next(s2, EventView::Tickets(Some(seq![t]))) == finish(
                ReplyView { status: 200, payload: PayloadView::One(t) },
            )
        }),
{
    let t = new_ticket(1, req, now);
    assert(max_id(Seq::<TicketView>::empty()) == 0);
    assert(Seq::<TicketView>::empty().push(t) =~= seq![t]);
    crate::ticket::law_created_ticket_is_found(Seq::empty(), req, now);
}

/// Read after write, for a status change: the list saved after setting the
/// status of ticket `id` is what showing `id` reads back from, and it answers
/// with the ticket as changed, which is also the answer to the change (the
/// assignee then gets `status_notice` with the old and new status).
pub proof fn law_status_then_shown(tickets: Seq<TicketView>, id: u64, status: Seq<char>)
    requires
        find_id(tickets, id) is Some,
    ensures
        ({
            let i = find_id(tickets, id)->0;
            let t = with_status(tickets[i], status);
            let saved = tickets.update(i, t);
            &&& proceed(PendingView::SetStatus { id, new_status: status }, tickets) == save_then(
                saved,
                ReplyView { status: 200, payload: PayloadView::One(t) },
                Some(status_notice(tickets[i], status)),
            )
            &&& proceed(PendingView::Show { id }, saved) == finish(
                ReplyView { status: 200, payload: PayloadView::One(t) },
            )
        }),
{
    crate::ticket::law_status_change(tickets, id, status);
}

/// Read after write, for a comment: the list saved after commenting on
/// ticket `id` holds that ticket with the comment, stamped with the clock
/// reading, at the end of its thread; that ticket is what the comment is
/// answered with (its assignee then gets `comment_notice`, unless they wrote
/// it) and what showing `id` from the saved list answers.
pub proof fn law_comment_then_shown(
    tickets: Seq<TicketView>,
    id: u64,
    comment: CommentRequestView,
    now: u64,
)
    requires
        find_id(tickets, id) is Some,
    ensures
        ({
            let i = find_id(tickets, id)->0;
            let t = with_comment(tickets[i], new_comment(comment, now));
            let saved = tickets.update(i, t);
            &&& next(StateView::AwaitCommentClock { tickets, id, comment }, EventView::Clock(now))
                == save_then(
                saved,
                ReplyView { status: 200, payload: PayloadView::One(t) },
                comment_notice(t, new_comment(comment, now)),
            )
            &&& t.comments.last() == new_comment(comment, now)
            &&& proceed(PendingView::Show { id }, saved) == finish(
                ReplyView { status: 200, payload: PayloadView::One(t) },
            )
        }),
{
    crate::ticket::law_comment_added(tickets, id, new_comment(comment, now));
}

/// Notifications are best effort: once the ticket list is saved, the reply
/// it was saved with is the reply given, whatever the inbox lookups and the
/// send produce; when a notice was chosen and both lookups succeed, it is
/// sent to the stored inbox address with the stored inbox token.
pub proof fn law_notice_is_best_effort(
    reply: ReplyView,
    notice: Option<NoticeView>,
    api: Result<Seq<char>, Seq<char>>,
    token: Result<Seq<char>, Seq<char>>,
)
    ensures
        ({
            let (s1, a1) = next(StateView::Saving { reply, notice }, EventView::Saved);
            match notice {
                None => (s1, a1) == finish(reply),
                Some(n) => {
                    let (s2, a2) = next(s1, EventView::Label(api));
                    &&& a1 == ActionView::LoadLabel { label: inbox_api_label() }
                    &&& match api {
                        Err(_) => (s2, a2) == finish(reply),
                        Ok(ap) => {
                            let (s3, a3) = next(s2, EventView::Label(token));
                            &&& a2 == ActionView::LoadLabel { label: inbox_token_label() }
                            &&& match token {
                                Err(_) => (s3, a3) == finish(reply),
                                Ok(tk) => {
                                    &&& a3 == ActionView::Notify { api: ap, token: tk, notice: n }
                                    &&& next(s3, EventView::Notified) == finish(reply)
                                },
                            }
                        },
                    }
                },
            }
        }),
{
}

/// Setting a status twice is setting it once: repeating the change on the
/// list the first one saved answers with the same ticket and saves the same
/// list (the notice then reports the status as unchanged).
pub proof fn law_status_change_repeats(tickets: Seq<TicketView>, id: u64, status: Seq<char>)
    requires
        find_id(tickets, id) is Some,
    ensures
        ({
            let i = find_id(tickets, id)->0;
            let t = with_status(tickets[i], status);
            let saved = tickets.update(i, t);
            let reply = ReplyView { status: 200, payload: PayloadView::One(t) };
            &&& proceed(PendingView::SetStatus { id, new_status: status }, tickets) == save_then(
                saved,
                reply,
                Some(status_notice(tickets[i], status)),
            )
            &&& proceed(PendingView::SetStatus { id, new_status: status }, saved) == save_then(
                saved,
                reply,
                Some(status_notice(t, status)),
            )
        }),
{
    crate::ticket::law_status_change(tickets, id, status);
    lemma_find_id_from(tickets, id, 0);
    let i = find_id(tickets, id)->0;
    let t = with_status(tickets[i], status);
    let saved = tickets.update(i, t);
    assert(saved[i] == t);
    assert(with_status(t, status) == t);
    assert(saved.update(i, t) =~= saved);
}

/// A create request naming a title, a reporter and an assignee is never
/// refused, however long they are: the handler loads the ticket list, asks
/// for the clock, then saves the list with the new ticket appended and
/// answers 201 with it, open and carrying the requested fields.
pub proof fn law_complete_create_is_accepted(
    req: NewTicketView,
    ts: Seq<TicketView>,
    now: u64,
)
    requires
        req.title.len() > 0,
        req.reporter.len() > 0,
        req.assignee.len() > 0,
        max_id(ts) < u64::MAX,
    ensures
        next(StateView::AwaitNewTicket, EventView::NewTicket(Ok(req))) == (
            StateView::LoadingTickets { pending: PendingView::Create { req } },
            ActionView::LoadLabel { label: tickets_label() },
        ),
        next(
            StateView::ParsingTickets { pending: PendingView::Create { req } },
            EventView::Tickets(Some(ts)),
        ) == (StateView::AwaitClock { tickets: ts, req }, ActionView::ReadClock),
        ({
            let (s, a) = next(StateView::AwaitClock { tickets: ts, req }, EventView::Clock(now));
            &&& match s {
                StateView::Saving { reply, .. } => reply.status == 201 && match reply.payload {
                    PayloadView::One(t) => t.title == req.title && t.reporter == req.reporter
                        && t.assignee == req.assignee && t.body == req.body && t.status == "open"@
                        && t.created_at == now && t.id == max_id(ts) + 1,
                    _ => false,
                },
                _ => false,
            }
            &&& match a {
                ActionView::SaveTickets { tickets: saved, .. } => saved.len() == ts.len() + 1
                    && saved.subrange(0, ts.len() as int) == ts && saved.last().title == req.title
                    && saved.last().status == "open"@,
                _ => false,
            }
        }),
{
    let (s, a) = next(StateView::AwaitClock { tickets: ts, req }, EventView::Clock(now));
    crate::ticket::lemma_max_id(ts);
    assert(ts.push(new_ticket(next_id(ts) as u64, req, now)).subrange(0, ts.len() as int) =~= ts);
}

/// Each of the four statuses is accepted in a status body: the handler loads
/// the ticket list and, when the ticket exists, saves the list with that
/// ticket (and only it) now having exactly that status, and answers 200 with
/// it.
pub proof fn law_documented_statuses_are_accepted(id: u64, status: Seq<char>, ts: Seq<TicketView>)
    requires
        status == "open"@ || status == "in-progress"@ || status == "done"@ || status
            == "closed"@,
    ensures
        next(StateView::AwaitStatusBody { id }, EventView::StatusBody(Ok(status))) == (
            StateView::LoadingTickets { pending: PendingView::SetStatus { id, new_status: status } },
            ActionView::LoadLabel { label: tickets_label() },
        ),
        find_id(ts, id) matches Some(i) ==> {
            let (s, a) = next(
                StateView::ParsingTickets {
                    pending: PendingView::SetStatus { id, new_status: status },
                },
                EventView::Tickets(Some(ts)),
            );
            &&& match s {
                StateView::Saving { reply, .. } => reply.status == 200 && match reply.payload {
                    PayloadView::One(t) => t.id == id && t.status == status,
                    _ => false,
                },
                _ => false,
            }
            &&& match a {
                ActionView::SaveTickets { tickets: saved, .. } => saved.len() == ts.len()
                    && saved[i].id == id && saved[i].status == status && (forall|k: int|
                    0 <= k < ts.len() && k != i ==> #[trigger] saved[k] == ts[k]),
                _ => false,
            }
        },
{
    reveal_strlit("open");
    reveal_strlit("in-progress");
    reveal_strlit("done");
    reveal_strlit("closed");
    if find_id(ts, id) is Some {
        lemma_find_id_from(ts, id, 0);
    }
}

/// A comment is announced to the ticket's assignee whenever someone else
/// wrote it (the reporter included), from the tickets address, with the
/// subject `[ticket #<id>] new comment from <author>`; only the assignee's
/// own comments go unannounced.
pub proof fn law_comments_by_others_are_announced(
    ts: Seq<TicketView>,
    id: u64,
    comment: CommentRequestView,
    now: u64,
)
    requires
        find_id(ts, id) is Some,
    ensures
        ({
            let t = ts[find_id(ts, id)->0];
            let (s, _a) = next(
                StateView::AwaitCommentClock { tickets: ts, id, comment },
                EventView::Clock(now),
            );
            match s {
                StateView::Saving { notice, reply } => reply.status == 200 && (notice is Some
                    <==> comment.author != t.assignee) && match notice {
                    Some(n) => n.to == t.assignee && n.from == "tickets@colinrozzi.com"@
                        && n.subject == "[ticket #"@ + dec(id as nat) + "] new comment from "@
                        + comment.author,
                    None => true,
                },
                _ => false,
            }
        }),
{
    lemma_find_id_from(ts, id, 0);
    let i = find_id(ts, id)->0;
    let t = with_comment(ts[i], new_comment(comment, now));
    reveal_strlit("] ");
    reveal_strlit("new comment from ");
    reveal_strlit("] new comment from ");
    assert(ticket_tag(t) + "new comment from "@ + comment.author =~= "[ticket #"@ + dec(id as nat)
        + "] new comment from "@ + comment.author);
}

} // verus!
