//! Tickets and the rules of the ticket list: filtering, lookup by id, id
//! assignment on create, status changes and comments.

use vstd::prelude::*;
use crate::http::opt_view;

verus! {

/// A comment on a ticket: who wrote it, what it says, and when (in
/// milliseconds since the Unix epoch).
pub struct Comment {
    pub author: String,
    pub body: String,
    pub created_at: u64,
}

/// The mathematical value of a comment.
pub struct CommentView {
    pub author: Seq<char>,
    pub body: Seq<char>,
    pub created_at: u64,
}

impl View for Comment {
    type V = CommentView;

    open spec fn view(&self) -> CommentView {
        CommentView { author: self.author@, body: self.body@, created_at: self.created_at }
    }
}

impl Clone for Comment {
    fn clone(&self) -> (r: Self)
        ensures
            r@ == self@,
    {
        Comment { author: self.author.clone(), body: self.body.clone(), created_at: self.created_at }
    }
}

/// The values of a list of comments.
pub open spec fn comments_view(v: Seq<Comment>) -> Seq<CommentView> {
    v.map_values(|c: Comment| c@)
}

fn clone_comments(v: &Vec<Comment>) -> (r: Vec<Comment>)
    ensures
        comments_view(r@) == comments_view(v@),
{
    let mut r: Vec<Comment> = Vec::new();
    let mut i: usize = 0;
    while i < v.len()
        invariant
            i <= v@.len(),
            comments_view(r@) == comments_view(v@.subrange(0, i as int)),
        decreases v.len() - i,
    {
        let ghost before = r@;
        r.push(v[i].clone());
        assert(comments_view(r@) =~= comments_view(before).push(v@[i as int]@));
        assert(comments_view(v@.subrange(0, i + 1)) =~= comments_view(v@.subrange(0, i as int)).push(
            v@[i as int]@,
        ));
        i = i + 1;
    }
    assert(v@.subrange(0, v@.len() as int) =~= v@);
    r
}

/// A tracked work item, with its comment thread.
pub struct Ticket {
    pub id: u64,
    pub title: String,
    pub body: String,
    pub reporter: String,
    pub assignee: String,
    pub status: String,
    pub created_at: u64,
    pub comments: Vec<Comment>,
}

/// The mathematical value of a ticket.
pub struct TicketView {
    pub id: u64,
    pub title: Seq<char>,
    pub body: Seq<char>,
    pub reporter: Seq<char>,
    pub assignee: Seq<char>,
    pub status: Seq<char>,
    pub created_at: u64,
    pub comments: Seq<CommentView>,
}

impl View for Ticket {
    type V = TicketView;

    open spec fn view(&self) -> TicketView {
        TicketView {
            id: self.id,
            title: self.title@,
            body: self.body@,
            reporter: self.reporter@,
            assignee: self.assignee@,
            status: self.status@,
            created_at: self.created_at,
            comments: comments_view(self.comments@),
        }
    }
}

impl Clone for Ticket {
    fn clone(&self) -> (r: Self)
        ensures
            r@ == self@,
    {
        Ticket {
            id: self.id,
            title: self.title.clone(),
            body: self.body.clone(),
            reporter: self.reporter.clone(),
            assignee: self.assignee.clone(),
            status: self.status.clone(),
            created_at: self.created_at,
            comments: clone_comments(&self.comments),
        }
    }
}

/// The fields a client supplies to create a ticket.
pub struct NewTicketRequest {
    pub title: String,
    pub body: String,
    pub reporter: String,
    pub assignee: String,
}

/// The mathematical value of a create request.
pub struct NewTicketView {
    pub title: Seq<char>,
    pub body: Seq<char>,
    pub reporter: Seq<char>,
    pub assignee: Seq<char>,
}

impl View for NewTicketRequest {
    type V = NewTicketView;

    open spec fn view(&self) -> NewTicketView {
        NewTicketView {
            title: self.title@,
            body: self.body@,
            reporter: self.reporter@,
            assignee: self.assignee@,
        }
    }
}

/// The values of a list of tickets.
pub open spec fn tickets_view(v: Seq<Ticket>) -> Seq<TicketView> {
    v.map_values(|t: Ticket| t@)
}

// ---------------------------------------------------------------------------
// Statuses
// ---------------------------------------------------------------------------

/// The statuses a ticket may be set to.
pub open spec fn valid_status(s: Seq<char>) -> bool {
    s == "open"@ || s == "in-progress"@ || s == "done"@ || s == "closed"@
}

/// Whether `s` is one of `open`, `in-progress`, `done`, `closed`.
pub fn is_valid_status(s: &String) -> (b: bool)
    ensures
        b == valid_status(s@),
{
    let open = String::from_str("open");
    let in_progress = String::from_str("in-progress");
    let done = String::from_str("done");
    let closed = String::from_str("closed");
    *s == open || *s == in_progress || *s == done || *s == closed
}

// ---------------------------------------------------------------------------
// Filtering
// ---------------------------------------------------------------------------

/// Whether a ticket passes the optional status and assignee filters.
pub open spec fn passes(t: TicketView, status: Option<Seq<char>>, assignee: Option<Seq<char>>) -> bool {
    (match status {
        Some(s) => t.status == s,
        None => true,
    }) && (match assignee {
        Some(a) => t.assignee == a,
        None => true,
    })
}

/// The tickets of `ts` that pass the filters, in the order they have in `ts`.
pub open spec fn filtered(
    ts: Seq<TicketView>,
    status: Option<Seq<char>>,
    assignee: Option<Seq<char>>,
) -> Seq<TicketView>
    decreases ts.len(),
{
    if ts.len() == 0 {
        Seq::empty()
    } else {
        let rest = filtered(ts.drop_last(), status, assignee);
        if passes(ts.last(), status, assignee) {
            rest.push(ts.last())
        } else {
            rest
        }
    }
}

/// Keeps the tickets that pass the status and assignee filters, in order.
pub fn filter_tickets(
    all: Vec<Ticket>,
    status: &Option<String>,
    assignee: &Option<String>,
) -> (r: Vec<Ticket>)
    ensures
        tickets_view(r@) == filtered(tickets_view(all@), opt_view(*status), opt_view(*assignee)),
{
    let mut r: Vec<Ticket> = Vec::new();
    let mut i: usize = 0;
    let ghost st = opt_view(*status);
    let ghost asg = opt_view(*assignee);
    while i < all.len()
        invariant
            i <= all@.len(),
            st == opt_view(*status),
            asg == opt_view(*assignee),
            tickets_view(r@) == filtered(tickets_view(all@.subrange(0, i as int)), st, asg),
        decreases all.len() - i,
    {
        let t = &all[i];
        let keep_status = match status {
            Some(s) => t.status == *s,
            None => true,
        };
        let keep_assignee = match assignee {
            Some(a) => t.assignee == *a,
            None => true,
        };
        let ghost before = tickets_view(r@);
        assert(tickets_view(all@.subrange(0, i + 1)).drop_last() =~= tickets_view(
            all@.subrange(0, i as int),
        ));
        assert(tickets_view(all@.subrange(0, i + 1)).last() == all@[i as int]@);
        if keep_status && keep_assignee {
            r.push(t.clone());
            assert(tickets_view(r@) =~= before.push(all@[i as int]@));
        }
        i = i + 1;
    }
    assert(all@.subrange(0, all@.len() as int) =~= all@);
    r
}

// ---------------------------------------------------------------------------
// Lookup by id
// ---------------------------------------------------------------------------

/// The first position at or after `i` holding a ticket with the given id.
pub open spec fn find_id_from(ts: Seq<TicketView>, id: u64, i: int) -> Option<int>
    decreases ts.len() - i,
{
    if i < 0 || i >= ts.len() {
        None
    } else if ts[i].id == id {
        Some(i)
    } else {
        find_id_from(ts, id, i + 1)
    }
}

/// The first position holding a ticket with the given id.
pub open spec fn find_id(ts: Seq<TicketView>, id: u64) -> Option<int> {
    find_id_from(ts, id, 0)
}

pub proof fn lemma_find_id_from(ts: Seq<TicketView>, id: u64, i: int)
    requires
        0 <= i,
    ensures
        find_id_from(ts, id, i) matches Some(j) ==> i <= j < ts.len() && ts[j].id == id && forall|
            k: int,
        | i <= k < j ==> ts[k].id != id,
        find_id_from(ts, id, i) is None ==> forall|k: int| i <= k < ts.len() ==> ts[k].id != id,
    decreases ts.len() - i,
{
    if i < ts.len() && ts[i].id != id {
        lemma_find_id_from(ts, id, i + 1);
    }
}

/// The position of the first ticket with the given id.
pub fn find_ticket(all: &Vec<Ticket>, id: u64) -> (r: Option<usize>)
    ensures
        crate::text::pos_of(r) == find_id(tickets_view(all@), id),
{
    let mut i: usize = 0;
    while i < all.len()
        invariant
            i <= all@.len(),
            find_id_from(tickets_view(all@), id, i as int) == find_id(tickets_view(all@), id),
        decreases all.len() - i,
    {
        if all[i].id == id {
            return Some(i);
        }
        i = i + 1;
    }
    None
}

// ---------------------------------------------------------------------------
// Creating
// ---------------------------------------------------------------------------

/// The largest id in `ts`, or 0 for an empty list.
pub open spec fn max_id(ts: Seq<TicketView>) -> nat
    decreases ts.len(),
{
    if ts.len() == 0 {
        0
    } else {
        let m = max_id(ts.drop_last());
        if ts.last().id > m {
            ts.last().id as nat
        } else {
            m
        }
    }
}

pub proof fn lemma_max_id(ts: Seq<TicketView>)
    ensures
        forall|k: int| 0 <= k < ts.len() ==> ts[k].id <= max_id(ts),
        max_id(ts) <= u64::MAX,
    decreases ts.len(),
{
    if ts.len() > 0 {
        lemma_max_id(ts.drop_last());
        assert forall|k: int| 0 <= k < ts.len() implies ts[k].id <= max_id(ts) by {
            if k < ts.len() - 1 {
                assert(ts[k] == ts.drop_last()[k]);
            }
        }
    }
}

/// The id a newly created ticket gets: one more than the largest id in use.
pub open spec fn next_id(ts: Seq<TicketView>) -> nat {
    max_id(ts) + 1
}

/// The ticket a create request makes, given its id and creation time.
pub open spec fn new_ticket(id: u64, req: NewTicketView, now: u64) -> TicketView {
    TicketView {
        id,
        title: req.title,
        body: req.body,
        reporter: req.reporter,
        assignee: req.assignee,
        status: "open"@,
        created_at: now,
        comments: Seq::empty(),
    }
}

/// Whether a create request leaves out a required field.
pub open spec fn missing_required(req: NewTicketView) -> bool {
    req.title.len() == 0 || req.reporter.len() == 0 || req.assignee.len() == 0
}

/// Whether a create request lacks a title, reporter or assignee.
pub fn lacks_required_fields(req: &NewTicketRequest) -> (b: bool)
    ensures
        b == missing_required(req@),
{
    req.title.as_str().is_empty() || req.reporter.as_str().is_empty()
        || req.assignee.as_str().is_empty()
}

/// The largest id among the tickets (0 when there are none).
pub fn max_ticket_id(all: &Vec<Ticket>) -> (m: u64)
    ensures
        m as nat == max_id(tickets_view(all@)),
{
    let mut m: u64 = 0;
    let mut i: usize = 0;
    while i < all.len()
        invariant
            i <= all@.len(),
            m as nat == max_id(tickets_view(all@.subrange(0, i as int))),
        decreases all.len() - i,
    {
        assert(tickets_view(all@.subrange(0, i + 1)).drop_last() =~= tickets_view(
            all@.subrange(0, i as int),
        ));
        assert(tickets_view(all@.subrange(0, i + 1)).last() == all@[i as int]@);
        if all[i].id > m {
            m = all[i].id;
        }
        i = i + 1;
    }
    assert(all@.subrange(0, all@.len() as int) =~= all@);
    m
}

/// Appends a new `open` ticket for `req`, with the next free id and the
/// given creation time, and returns it.
pub fn create_ticket(all: &mut Vec<Ticket>, req: NewTicketRequest, now: u64) -> (t: Ticket)
    requires
        max_id(tickets_view(old(all)@)) < u64::MAX,
    ensures
        t@ == new_ticket(next_id(tickets_view(old(all)@)) as u64, req@, now),
        tickets_view(final(all)@) == tickets_view(old(all)@).push(t@),
{
    let id = max_ticket_id(all) + 1;
    let t = Ticket {
        id,
        title: req.title,
        body: req.body,
        reporter: req.reporter,
        assignee: req.assignee,
        status: String::from_str("open"),
        created_at: now,
        comments: Vec::new(),
    };
    assert(comments_view(t.comments@) =~= Seq::<CommentView>::empty());
    let ghost before = all@;
    all.push(t.clone());
    assert(tickets_view(all@) =~= tickets_view(before).push(t@));
    t
}

// ---------------------------------------------------------------------------
// Changing status
// ---------------------------------------------------------------------------

/// `t` with its status replaced.
pub open spec fn with_status(t: TicketView, status: Seq<char>) -> TicketView {
    TicketView { status, ..t }
}

/// Sets the status of the first ticket with the given id and returns the
/// updated ticket; leaves the list alone and returns `None` when no ticket
/// has that id.
pub fn set_ticket_status(all: &mut Vec<Ticket>, id: u64, status: String) -> (r: Option<Ticket>)
    ensures
        match find_id(tickets_view(old(all)@), id) {
            Some(i) => r matches Some(t) && t@ == with_status(tickets_view(old(all)@)[i], status@)
                && tickets_view(final(all)@) == tickets_view(old(all)@).update(i, t@),
            None => r is None && final(all)@ == old(all)@,
        },
{
    let found = find_ticket(all, id);
    proof {
        lemma_find_id_from(tickets_view(all@), id, 0);
    }
    match found {
        Some(idx) => {
            let mut t = all[idx].clone();
            t.status = status;
            let ghost before = all@;
            all.set(idx, t.clone());
            assert(tickets_view(all@) =~= tickets_view(before).update(idx as int, t@));
            Some(t)
        },
        None => None,
    }
}

// ---------------------------------------------------------------------------
// Commenting
// ---------------------------------------------------------------------------

/// The fields a client supplies to comment on a ticket.
pub struct CommentRequest {
    pub author: String,
    pub body: String,
}

/// The mathematical value of a comment request.
pub struct CommentRequestView {
    pub author: Seq<char>,
    pub body: Seq<char>,
}

impl View for CommentRequest {
    type V = CommentRequestView;

    open spec fn view(&self) -> CommentRequestView {
        CommentRequestView { author: self.author@, body: self.body@ }
    }
}

/// The comment a request makes, at the given time.
pub open spec fn new_comment(req: CommentRequestView, now: u64) -> CommentView {
    CommentView { author: req.author, body: req.body, created_at: now }
}

/// `t` with `c` appended to its comment thread.
pub open spec fn with_comment(t: TicketView, c: CommentView) -> TicketView {
    TicketView { comments: t.comments.push(c), ..t }
}

/// Appends the comment of `req`, made at `now`, to the thread of the first
/// ticket with the given id and returns the updated ticket; leaves the list
/// alone and returns `None` when no ticket has that id.
pub fn add_comment(all: &mut Vec<Ticket>, id: u64, req: CommentRequest, now: u64) -> (r: Option<
    Ticket,
>)
    ensures
        match find_id(tickets_view(old(all)@), id) {
            Some(i) => r matches Some(t) && t@ == with_comment(
                tickets_view(old(all)@)[i],
                new_comment(req@, now),
            ) && tickets_view(final(all)@) == tickets_view(old(all)@).update(i, t@),
            None => r is None && final(all)@ == old(all)@,
        },
{
    let found = find_ticket(all, id);
    proof {
        lemma_find_id_from(tickets_view(all@), id, 0);
    }
    match found {
        Some(idx) => {
            let mut t = all[idx].clone();
            let c = Comment { author: req.author, body: req.body, created_at: now };
            let ghost before_comments = t.comments@;
            t.comments.push(c);
            assert(comments_view(t.comments@) =~= comments_view(before_comments).push(c@));
            let ghost before = all@;
            all.set(idx, t.clone());
            assert(tickets_view(all@) =~= tickets_view(before).update(idx as int, t@));
            Some(t)
        },
        None => None,
    }
}

// ---------------------------------------------------------------------------
// Laws of the ticket list
// ---------------------------------------------------------------------------

/// No two tickets share an id.
pub open spec fn ids_unique(ts: Seq<TicketView>) -> bool {
    forall|i: int, j: int| 0 <= i < j < ts.len() ==> ts[i].id != ts[j].id
}

/// Every ticket has one of the valid statuses.
pub open spec fn statuses_valid(ts: Seq<TicketView>) -> bool {
    forall|i: int| 0 <= i < ts.len() ==> valid_status(#[trigger] ts[i].status)
}

proof fn lemma_find_id_absent_prefix(ts: Seq<TicketView>, id: u64, i: int)
    requires
        0 <= i < ts.len(),
        ts.last().id == id,
        forall|k: int| 0 <= k < ts.len() - 1 ==> ts[k].id != id,
    ensures
        find_id_from(ts, id, i) == Some(ts.len() - 1),
    decreases ts.len() - i,
{
    if i < ts.len() - 1 {
        lemma_find_id_absent_prefix(ts, id, i + 1);
    }
}

/// A newly created ticket gets an id no existing ticket has, so looking that
/// id up afterwards finds exactly the new ticket, at the end of the list.
pub proof fn law_created_ticket_is_found(ts: Seq<TicketView>, req: NewTicketView, now: u64)
    requires
        max_id(ts) < u64::MAX,
    ensures
        ({
            let t = new_ticket(next_id(ts) as u64, req, now);
            &&& forall|k: int| 0 <= k < ts.len() ==> ts[k].id != t.id
            &&& find_id(ts.push(t), t.id) == Some(ts.len() as int)
            &&& ts.push(t)[ts.len() as int] == t
        }),
{
    let t = new_ticket(next_id(ts) as u64, req, now);
    lemma_max_id(ts);
    let ts2 = ts.push(t);
    assert forall|k: int| 0 <= k < ts2.len() - 1 implies ts2[k].id != t.id by {
        assert(ts2[k] == ts[k]);
    }
    lemma_find_id_absent_prefix(ts2, t.id, 0);
}

/// Creating a ticket keeps ids unique and statuses valid.
pub proof fn law_create_keeps_invariants(ts: Seq<TicketView>, req: NewTicketView, now: u64)
    requires
        max_id(ts) < u64::MAX,
        ids_unique(ts),
        statuses_valid(ts),
    ensures
        ids_unique(ts.push(new_ticket(next_id(ts) as u64, req, now))),
        statuses_valid(ts.push(new_ticket(next_id(ts) as u64, req, now))),
{
    let t = new_ticket(next_id(ts) as u64, req, now);
    law_created_ticket_is_found(ts, req, now);
    let ts2 = ts.push(t);
    assert forall|i: int, j: int| 0 <= i < j < ts2.len() implies ts2[i].id != ts2[j].id by {
        assert(ts2[i] == ts[i]);
        if j < ts.len() {
            assert(ts2[j] == ts[j]);
        }
    }
    assert forall|i: int| 0 <= i < ts2.len() implies valid_status(#[trigger] ts2[i].status) by {
        if i < ts.len() {
            assert(ts2[i] == ts[i]);
        }
    }
}

/// After a status change on the ticket with id `id`, that id still leads to
/// the same position, the ticket there has the new status and otherwise its
/// old fields, and every other ticket is untouched. Ids stay unique, and
/// statuses stay valid when the new one is valid.
pub proof fn law_status_change(ts: Seq<TicketView>, id: u64, status: Seq<char>)
    requires
        find_id(ts, id) is Some,
    ensures
        ({
            let i = find_id(ts, id)->0;
            let ts2 = ts.update(i, with_status(ts[i], status));
            &&& find_id(ts2, id) == Some(i)
            &&& ts2[i].status == status
            &&& ts2[i] == TicketView { status, ..ts[i] }
            &&& forall|k: int| 0 <= k < ts.len() && k != i ==> ts2[k] == ts[k]
            &&& ids_unique(ts) ==> ids_unique(ts2)
            &&& statuses_valid(ts) && valid_status(status) ==> statuses_valid(ts2)
        }),
{
    let i = find_id(ts, id)->0;
    lemma_find_id_from(ts, id, 0);
    let ts2 = ts.update(i, with_status(ts[i], status));
    assert(ts2.len() == ts.len());
    lemma_find_id_from(ts2, id, 0);
    if find_id(ts2, id) != Some(i) {
        match find_id(ts2, id) {
            Some(j) => {
                assert(ts2[j].id == id);
                if j < i {
                    assert(ts2[j] == ts[j]);
                }
            },
            None => {
                assert(ts2[i].id == id);
            },
        }
    }
    if ids_unique(ts) {
        assert forall|a: int, b: int| 0 <= a < b < ts2.len() implies ts2[a].id != ts2[b].id by {
            assert(ts2[a].id == ts[a].id);
            assert(ts2[b].id == ts[b].id);
        }
    }
    if statuses_valid(ts) && valid_status(status) {
        assert forall|k: int| 0 <= k < ts2.len() implies valid_status(#[trigger] ts2[k].status) by {
            if k != i {
                assert(ts2[k] == ts[k]);
            }
        }
    }
}

/// After a comment is added to the ticket with id `id`, that id still leads
/// to the same position, the ticket there has the comment at the end of its
/// thread and otherwise its old fields, and every other ticket is untouched.
/// Ids stay unique and statuses valid.
pub proof fn law_comment_added(ts: Seq<TicketView>, id: u64, c: CommentView)
    requires
        find_id(ts, id) is Some,
    ensures
        ({
            let i = find_id(ts, id)->0;
            let ts2 = ts.update(i, with_comment(ts[i], c));
            &&& find_id(ts2, id) == Some(i)
            &&& ts2[i].comments == ts[i].comments.push(c)
            &&& ts2[i] == TicketView { comments: ts[i].comments.push(c), ..ts[i] }
            &&& forall|k: int| 0 <= k < ts.len() && k != i ==> ts2[k] == ts[k]
            &&& ids_unique(ts) ==> ids_unique(ts2)
            &&& statuses_valid(ts) ==> statuses_valid(ts2)
        }),
{
    let i = find_id(ts, id)->0;
    lemma_find_id_from(ts, id, 0);
    let ts2 = ts.update(i, with_comment(ts[i], c));
    assert(ts2.len() == ts.len());
    lemma_find_id_from(ts2, id, 0);
    if find_id(ts2, id) != Some(i) {
        match find_id(ts2, id) {
            Some(j) => {
                assert(ts2[j].id == id);
                if j < i {
                    assert(ts2[j] == ts[j]);
                }
            },
            None => {
                assert(ts2[i].id == id);
            },
        }
    }
    if ids_unique(ts) {
        assert forall|a: int, b: int| 0 <= a < b < ts2.len() implies ts2[a].id != ts2[b].id by {
            assert(ts2[a].id == ts[a].id);
            assert(ts2[b].id == ts[b].id);
        }
    }
    if statuses_valid(ts) {
        assert forall|k: int| 0 <= k < ts2.len() implies valid_status(#[trigger] ts2[k].status) by {
            assert(ts2[k].status == ts[k].status);
        }
    }
}

/// A filtered list holds exactly the tickets of the unfiltered list that pass
/// the filters.
pub proof fn law_filter_membership(
    ts: Seq<TicketView>,
    status: Option<Seq<char>>,
    assignee: Option<Seq<char>>,
)
    ensures
        forall|t: TicketView|
            #[trigger] filtered(ts, status, assignee).contains(t) <==> (ts.contains(t) && passes(
                t,
                status,
                assignee,
            )),
    decreases ts.len(),
{
    if ts.len() > 0 {
        law_filter_membership(ts.drop_last(), status, assignee);
        let rest = filtered(ts.drop_last(), status, assignee);
        assert forall|t: TicketView|
            #[trigger] filtered(ts, status, assignee).contains(t) <==> (ts.contains(t) && passes(
                t,
                status,
                assignee,
            )) by {
            if ts.contains(t) {
                let k = choose|k: int| 0 <= k < ts.len() && ts[k] == t;
                if k < ts.len() - 1 {
                    assert(ts.drop_last()[k] == t);
                    assert(ts.drop_last().contains(t));
                }
            }
            if ts.drop_last().contains(t) {
                let k = choose|k: int| 0 <= k < ts.drop_last().len() && ts.drop_last()[k] == t;
                assert(ts[k] == t);
            }
            if passes(ts.last(), status, assignee) {
                assert(rest.push(ts.last()).last() == ts.last());
                if rest.contains(t) {
                    let k = choose|k: int| 0 <= k < rest.len() && rest[k] == t;
                    assert(rest.push(ts.last())[k] == t);
                }
                if rest.push(ts.last()).contains(t) && t != ts.last() {
                    let k = choose|k: int| 0 <= k < rest.len() + 1 && rest.push(ts.last())[k] == t;
                    assert(rest[k] == t);
                }
            }
        }
    } else {
        assert forall|t: TicketView|
            #[trigger] filtered(ts, status, assignee).contains(t) <==> (ts.contains(t) && passes(
                t,
                status,
                assignee,
            )) by {}
    }
}

/// Each filter is applied on its own: every listed ticket has the requested
/// status when a status is asked for, and the requested assignee when an
/// assignee is asked for, whichever other filter is given; and every stored
/// ticket meeting both requests is listed.
pub proof fn law_filters_apply_separately(
    ts: Seq<TicketView>,
    status: Option<Seq<char>>,
    assignee: Option<Seq<char>>,
)
    ensures
        forall|k: int|
            0 <= k < filtered(ts, status, assignee).len() ==> {
                let t = #[trigger] filtered(ts, status, assignee)[k];
                &&& ts.contains(t)
                &&& status matches Some(s) ==> t.status == s
                &&& assignee matches Some(a) ==> t.assignee == a
            },
        forall|k: int|
            0 <= k < ts.len() && (status matches Some(s) ==> ts[k].status == s) && (
            assignee matches Some(a) ==> ts[k].assignee == a) ==> filtered(
                ts,
                status,
                assignee,
            ).contains(#[trigger] ts[k]),
{
    law_filter_membership(ts, status, assignee);
    let f = filtered(ts, status, assignee);
    assert forall|k: int| 0 <= k < f.len() implies {
        let t = #[trigger] f[k];
        &&& ts.contains(t)
        &&& status matches Some(s) ==> t.status == s
        &&& assignee matches Some(a) ==> t.assignee == a
    } by {
        assert(f.contains(f[k]));
    }
    assert forall|k: int|
        0 <= k < ts.len() && (status matches Some(s) ==> ts[k].status == s) && (
        assignee matches Some(a) ==> ts[k].assignee == a) implies f.contains(#[trigger] ts[k]) by {
        assert(ts.contains(ts[k]));
    }
}

} // verus!
