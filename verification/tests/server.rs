use tickets::handler::{
    finish_label_load, load_label_as_string, mailbox_path, route, send_failed_log_line, target_of,
    HandlerAction, HandlerEvent, LabelLoad, Notice, Payload, Reply, RouteState, Step, Target,
};
use tickets::ticket::{
    add_comment, create_ticket, filter_tickets, find_ticket, is_valid_status, set_ticket_status,
    Comment, CommentRequest, NewTicketRequest, Ticket,
};

fn ticket(id: u64, status: &str, assignee: &str) -> Ticket {
    Ticket {
        id,
        title: format!("t{}", id),
        body: String::from("b"),
        reporter: String::from("r@x"),
        assignee: assignee.to_string(),
        status: status.to_string(),
        created_at: 5,
        comments: Vec::new(),
    }
}

fn ids(v: &[Ticket]) -> Vec<u64> {
    v.iter().map(|t| t.id).collect()
}

fn raw_body(reply: &Reply) -> String {
    match &reply.payload {
        Payload::Raw(b) => String::from_utf8(b.clone()).unwrap(),
        _ => panic!("expected a raw body"),
    }
}

fn expect_reply(step: Step) -> Reply {
    assert!(matches!(step.state, RouteState::Finished));
    match step.action {
        HandlerAction::Respond { reply } => reply,
        _ => panic!("expected a reply"),
    }
}

fn expect_label(step: &Step, label: &str) {
    match &step.action {
        HandlerAction::LoadLabel { label: l } => assert_eq!(l, label),
        _ => panic!("expected a label load"),
    }
}

/// After the save: loads the inbox address and token, checks the notice is
/// sent there, and returns it with the reply.
fn notify_then_reply(saving: RouteState) -> (Notice, Reply) {
    let step = saving.step(HandlerEvent::Saved);
    expect_label(&step, "inbox-api");
    let step = step.state.step(HandlerEvent::Label(Ok("mail:443".to_string())));
    expect_label(&step, "inbox-token");
    let step = step.state.step(HandlerEvent::Label(Ok("itok".to_string())));
    let notice = match step.action {
        HandlerAction::Notify { api, token, notice } => {
            assert_eq!((api.as_str(), token.as_str()), ("mail:443", "itok"));
            notice
        }
        _ => panic!("expected a notice"),
    };
    (notice, expect_reply(step.state.step(HandlerEvent::Notified)))
}

fn authorize(request: &str) -> Step {
    let step = route(request.as_bytes());
    expect_label(&step, "api-bearer-token");
    step.state.step(HandlerEvent::Label(Ok("tok".to_string())))
}

#[test]
fn statuses_are_the_four_documented_ones() {
    for s in ["open", "in-progress", "done", "closed"] {
        assert!(is_valid_status(&s.to_string()));
    }
    for s in ["Open", "", "wontfix", "done "] {
        assert!(!is_valid_status(&s.to_string()));
    }
}

#[test]
fn filter_keeps_matching_tickets_in_order() {
    let all = vec![ticket(1, "open", "a"), ticket(2, "done", "a"), ticket(3, "open", "b"), ticket(4, "open", "a")];
    let r = filter_tickets(all.clone(), &Some("open".to_string()), &Some("a".to_string()));
    assert_eq!(ids(&r), vec![1, 4]);
    let r = filter_tickets(all.clone(), &None, &Some("b".to_string()));
    assert_eq!(ids(&r), vec![3]);
    let r = filter_tickets(all, &None, &None);
    assert_eq!(ids(&r), vec![1, 2, 3, 4]);
}

#[test]
fn find_returns_the_first_ticket_with_the_id() {
    let all = vec![ticket(3, "open", "a"), ticket(7, "done", "a"), ticket(7, "open", "b")];
    assert_eq!(find_ticket(&all, 7), Some(1));
    assert_eq!(find_ticket(&all, 9), None);
}

#[test]
fn create_assigns_one_more_than_the_largest_id() {
    let mut all = vec![ticket(3, "done", "a"), ticket(9, "open", "a"), ticket(4, "open", "a")];
    let req = NewTicketRequest {
        title: "T".to_string(),
        body: "B".to_string(),
        reporter: "R".to_string(),
        assignee: "A".to_string(),
    };
    let t = create_ticket(&mut all, req, 1234);
    assert_eq!(t.id, 10);
    assert_eq!(t.status, "open");
    assert_eq!(t.created_at, 1234);
    assert_eq!(ids(&all), vec![3, 9, 4, 10]);
    let mut empty: Vec<Ticket> = Vec::new();
    let t = create_ticket(
        &mut empty,
        NewTicketRequest {
            title: "x".into(),
            body: String::new(),
            reporter: "r".into(),
            assignee: "a".into(),
        },
        0,
    );
    assert_eq!(t.id, 1);
}

#[test]
fn created_ticket_is_found_by_its_id() {
    let mut all = vec![ticket(2, "open", "a"), ticket(5, "open", "a")];
    let t = create_ticket(
        &mut all,
        NewTicketRequest { title: "n".into(), body: "".into(), reporter: "r".into(), assignee: "a".into() },
        9,
    );
    let i = find_ticket(&all, t.id).unwrap();
    assert_eq!(i, 2);
    assert_eq!(all[i].title, "n");
}

#[test]
fn set_status_changes_only_the_matching_ticket() {
    let mut all = vec![ticket(1, "open", "a"), ticket(2, "open", "b")];
    let t = set_ticket_status(&mut all, 2, "done".to_string()).unwrap();
    assert_eq!(t.id, 2);
    assert_eq!(t.status, "done");
    assert_eq!(t.assignee, "b");
    assert_eq!(all[0].status, "open");
    assert_eq!(all[1].status, "done");
    assert!(set_ticket_status(&mut all, 3, "done".to_string()).is_none());
    assert_eq!(all.len(), 2);
}

#[test]
fn targets_follow_the_routes() {
    let t = |s: &str| target_of(&s.chars().collect::<Vec<char>>());
    assert!(matches!(t("GET /v1/tickets?status=open HTTP/1.1\r\n"), Target::List { query } if query.iter().collect::<String>() == "status=open"));
    assert!(matches!(t("POST /v1/tickets HTTP/1.1\r\n"), Target::Create));
    assert!(matches!(t("GET /v1/tickets/12 HTTP/1.1"), Target::Show { id } if id == vec!['1', '2']));
    assert!(matches!(t("POST /v1/tickets/12/status HTTP/1.1\r\n"), Target::SetStatus { id } if id == vec!['1', '2']));
    assert!(matches!(t("GET /v1/tickets/ HTTP/1.1"), Target::NotFound));
    assert!(matches!(t("GET /v1/tickets/1/x HTTP/1.1"), Target::NotFound));
    assert!(matches!(t("POST /v1/tickets//status HTTP/1.1"), Target::NotFound));
    assert!(matches!(t("POST /v1/tickets/status HTTP/1.1"), Target::NotFound));
    assert!(matches!(t("POST /v1/tickets/1/comment HTTP/1.1"), Target::Comment { id } if id == vec!['1']));
    assert!(matches!(t("POST /v1/tickets/comment HTTP/1.1"), Target::NotFound));
    assert!(matches!(t("POST /v1/tickets//comment HTTP/1.1"), Target::NotFound));
    assert!(matches!(t("GET /v1/tickets/1/comment HTTP/1.1"), Target::NotFound));
    assert!(matches!(t("DELETE /v1/tickets HTTP/1.1"), Target::NotFound));
    assert!(matches!(t(""), Target::NotFound));
}

#[test]
fn non_utf8_request_is_refused() {
    let reply = expect_reply(route(&[0x47, 0xff, 0x20]));
    assert_eq!(reply.status, 400);
    assert_eq!(raw_body(&reply), r#"{"error":"non-utf8 request"}"#);
}

#[test]
fn wrong_or_missing_token_is_unauthorized() {
    let step = route(b"GET /v1/tickets HTTP/1.1\r\nAuthorization: Bearer nope\r\n\r\n");
    let reply = expect_reply(step.state.step(HandlerEvent::Label(Ok("tok".to_string()))));
    assert_eq!(reply.status, 401);
    assert_eq!(raw_body(&reply), r#"{"error":"unauthorized"}"#);

    let step = route(b"GET /v1/tickets HTTP/1.1\r\nAuthorization: Bearer tok\r\n\r\n");
    let reply = expect_reply(step.state.step(HandlerEvent::Label(Err("not set".to_string()))));
    assert_eq!(reply.status, 401);

    let step = route(b"GET /v1/tickets HTTP/1.1\r\n\r\n");
    let reply = expect_reply(step.state.step(HandlerEvent::Label(Ok("tok".to_string()))));
    assert_eq!(reply.status, 401);
}

#[test]
fn tokens_are_compared_as_sent() {
    let step = route(b"GET /v1/tickets HTTP/1.1\r\nauthorization: BEARER AbC123\r\n\r\n");
    let step = step.state.step(HandlerEvent::Label(Ok("AbC123".to_string())));
    expect_label(&step, "tickets-list");
    let step = route(b"GET /v1/tickets HTTP/1.1\r\nAuthorization: Bearer AbC123\r\n\r\n");
    let reply = expect_reply(step.state.step(HandlerEvent::Label(Ok("abc123".to_string()))));
    assert_eq!(reply.status, 401);
}

#[test]
fn list_filters_the_stored_tickets() {
    let step = authorize("GET /v1/tickets?status=open&assignee=a HTTP/1.1\r\nAuthorization: Bearer tok\r\n\r\n");
    expect_label(&step, "tickets-list");
    let step = step.state.step(HandlerEvent::Label(Ok("[...]".to_string())));
    match &step.action {
        HandlerAction::ParseTickets { json } => assert_eq!(json, "[...]"),
        _ => panic!("expected a parse"),
    }
    let all = vec![ticket(1, "open", "a"), ticket(2, "done", "a"), ticket(3, "open", "b")];
    let reply = expect_reply(step.state.step(HandlerEvent::Tickets(Some(all))));
    assert_eq!(reply.status, 200);
    match reply.payload {
        Payload::Many(v) => assert_eq!(ids(&v), vec![1]),
        _ => panic!("expected a list"),
    }
}

#[test]
fn list_with_missing_or_broken_store_is_empty() {
    let step = authorize("GET /v1/tickets HTTP/1.1\r\nAuthorization: Bearer tok\r\n\r\n");
    let reply = expect_reply(step.state.step(HandlerEvent::Label(Err("tickets-list not set".to_string()))));
    assert!(matches!(reply.payload, Payload::Many(v) if v.is_empty()));

    let step = authorize("GET /v1/tickets HTTP/1.1\r\nAuthorization: Bearer tok\r\n\r\n");
    let step = step.state.step(HandlerEvent::Label(Ok("garbage".to_string())));
    let reply = expect_reply(step.state.step(HandlerEvent::Tickets(None)));
    assert!(matches!(reply.payload, Payload::Many(v) if v.is_empty()));
}

fn create_request(body: &str) -> String {
    format!("POST /v1/tickets HTTP/1.1\r\nAuthorization: Bearer tok\r\nContent-Type: application/json\r\n\r\n{}", body)
}

#[test]
fn create_stamps_saves_and_answers_the_new_ticket() {
    let step = authorize(&create_request(r#"{"title":"x"}"#));
    match &step.action {
        HandlerAction::ParseNewTicket { body } => assert_eq!(body, r#"{"title":"x"}"#),
        _ => panic!("expected a body to decode"),
    }
    let req = NewTicketRequest { title: "T".into(), body: "B".into(), reporter: "R".into(), assignee: "A".into() };
    let step = step.state.step(HandlerEvent::NewTicket(Ok(req)));
    expect_label(&step, "tickets-list");
    let step = step.state.step(HandlerEvent::Label(Ok("[]".to_string())));
    let step = step.state.step(HandlerEvent::Tickets(Some(vec![ticket(3, "done", "q")])));
    assert!(matches!(step.action, HandlerAction::ReadClock));
    let step = step.state.step(HandlerEvent::Clock(777));
    let saved = match step.action {
        HandlerAction::SaveTickets { store_id, label, tickets } => {
            assert_eq!(store_id, "tickets");
            assert_eq!(label, "tickets-list");
            tickets
        }
        _ => panic!("expected a save"),
    };
    assert_eq!(ids(&saved), vec![3, 4]);
    assert_eq!(saved[1].status, "open");
    assert_eq!(saved[1].created_at, 777);
    let (notice, reply) = notify_then_reply(step.state);
    assert_eq!(notice.from, "tickets@colinrozzi.com");
    assert_eq!(notice.to, "A");
    assert_eq!(notice.subject, "[ticket #4] T");
    assert_eq!(notice.body, "B\n\nreporter: R\nassignee: A");
    assert_eq!(reply.status, 201);
    match reply.payload {
        Payload::One(t) => {
            assert_eq!(t.id, 4);
            assert_eq!(t.title, "T");
            assert_eq!(t.assignee, "A");
        }
        _ => panic!("expected the ticket"),
    }
}

#[test]
fn create_refusals() {
    let step = authorize("POST /v1/tickets HTTP/1.1\r\nAuthorization: Bearer tok\r\n");
    let reply = expect_reply(step);
    assert_eq!(reply.status, 400);
    assert_eq!(raw_body(&reply), r#"{"error":"missing body"}"#);

    let step = authorize(&create_request("{"));
    let reply = expect_reply(step.state.step(HandlerEvent::NewTicket(Err("EOF while parsing".to_string()))));
    assert_eq!(reply.status, 400);
    assert_eq!(raw_body(&reply), r#"{"error":"bad request body: EOF while parsing"}"#);

    let step = authorize(&create_request("{}"));
    let req = NewTicketRequest { title: "T".into(), body: "".into(), reporter: "".into(), assignee: "A".into() };
    let reply = expect_reply(step.state.step(HandlerEvent::NewTicket(Ok(req))));
    assert_eq!(reply.status, 400);
    assert_eq!(raw_body(&reply), r#"{"error":"title, reporter, and assignee are required"}"#);
}

#[test]
fn show_answers_the_ticket_or_not_found() {
    let step = authorize("GET /v1/tickets/2 HTTP/1.1\r\nAuthorization: Bearer tok\r\n\r\n");
    let step = step.state.step(HandlerEvent::Label(Ok("[]".to_string())));
    let reply = expect_reply(step.state.step(HandlerEvent::Tickets(Some(vec![ticket(1, "open", "a"), ticket(2, "done", "b")]))));
    assert_eq!(reply.status, 200);
    assert!(matches!(reply.payload, Payload::One(t) if t.id == 2 && t.status == "done"));

    let step = authorize("GET /v1/tickets/9 HTTP/1.1\r\nAuthorization: Bearer tok\r\n\r\n");
    let reply = expect_reply(step.state.step(HandlerEvent::Label(Err("none".to_string()))));
    assert_eq!(reply.status, 404);
    assert_eq!(raw_body(&reply), r#"{"error":"ticket not found"}"#);

    let reply = expect_reply(authorize("GET /v1/tickets/abc HTTP/1.1\r\nAuthorization: Bearer tok\r\n\r\n"));
    assert_eq!(reply.status, 400);
    assert_eq!(raw_body(&reply), r#"{"error":"invalid ticket id"}"#);

    let reply = expect_reply(authorize("GET /v2/x HTTP/1.1\r\nAuthorization: Bearer tok\r\n\r\n"));
    assert_eq!(reply.status, 404);
    assert_eq!(raw_body(&reply), r#"{"error":"not found"}"#);
}

fn status_request(id: &str) -> String {
    format!("POST /v1/tickets/{}/status HTTP/1.1\r\nAuthorization: Bearer tok\r\n\r\n{{\"status\":\"done\"}}", id)
}

#[test]
fn set_status_saves_and_answers_the_changed_ticket() {
    let step = authorize(&status_request("2"));
    match &step.action {
        HandlerAction::ParseStatusBody { body } => assert_eq!(body, r#"{"status":"done"}"#),
        _ => panic!("expected a body to decode"),
    }
    let step = step.state.step(HandlerEvent::StatusBody(Ok("done".to_string())));
    let step = step.state.step(HandlerEvent::Label(Ok("[]".to_string())));
    let step = step.state.step(HandlerEvent::Tickets(Some(vec![ticket(1, "open", "a"), ticket(2, "open", "b")])));
    let saved = match step.action {
        HandlerAction::SaveTickets { tickets, .. } => tickets,
        _ => panic!("expected a save"),
    };
    assert_eq!(saved[0].status, "open");
    assert_eq!(saved[1].status, "done");
    let (notice, reply) = notify_then_reply(step.state);
    assert_eq!(notice.to, "b");
    assert_eq!(notice.subject, "[ticket #2] status: open -> done");
    assert_eq!(notice.body, "done\n\nreporter: r@x\nassignee: b");
    assert_eq!(reply.status, 200);
    assert!(matches!(reply.payload, Payload::One(t) if t.id == 2 && t.status == "done"));
}

fn summary(v: &[Ticket]) -> Vec<(u64, String, usize)> {
    v.iter().map(|t| (t.id, t.status.clone(), t.comments.len())).collect()
}

/// Runs `POST /v1/tickets/2/status` with `done` against the stored list and
/// returns the saved list and the reply.
fn change_status_on(stored: Vec<Ticket>) -> (Vec<Ticket>, Notice, Reply) {
    let step = authorize(&status_request("2"));
    let step = step.state.step(HandlerEvent::StatusBody(Ok("done".to_string())));
    let step = step.state.step(HandlerEvent::Label(Ok("[]".to_string())));
    let step = step.state.step(HandlerEvent::Tickets(Some(stored)));
    let saved = match &step.action {
        HandlerAction::SaveTickets { tickets, .. } => tickets.clone(),
        _ => panic!("expected a save"),
    };
    let (notice, reply) = notify_then_reply(step.state);
    (saved, notice, reply)
}

#[test]
fn repeating_a_status_change_changes_nothing_more() {
    let (first, notice1, reply1) = change_status_on(vec![ticket(1, "open", "a"), ticket(2, "open", "b")]);
    let (second, notice2, reply2) = change_status_on(first.clone());
    assert_eq!(summary(&first), summary(&second));
    assert_eq!(summary(&second), vec![(1, "open".to_string(), 0), (2, "done".to_string(), 0)]);
    assert_eq!(reply1.status, reply2.status);
    match (&reply1.payload, &reply2.payload) {
        (Payload::One(a), Payload::One(b)) => {
            assert_eq!((a.id, a.status.as_str()), (b.id, b.status.as_str()));
            assert_eq!((a.title.as_str(), a.assignee.as_str()), (b.title.as_str(), b.assignee.as_str()));
        }
        _ => panic!("expected the ticket in both replies"),
    }
    assert_eq!(notice1.subject, "[ticket #2] status: open -> done");
    assert_eq!(notice2.subject, "[ticket #2] status: done -> done");
}

#[test]
fn set_status_refusals() {
    let step = authorize(&status_request("2"));
    let reply = expect_reply(step.state.step(HandlerEvent::StatusBody(Ok("wontfix".to_string()))));
    assert_eq!(reply.status, 400);
    assert_eq!(
        raw_body(&reply),
        r#"{"error":"invalid status \"wontfix\"; valid values: open, in-progress, done, closed"}"#
    );
    let parsed: serde_json::Value = serde_json::from_str(&raw_body(&reply)).unwrap();
    assert_eq!(
        parsed["error"],
        "invalid status \"wontfix\"; valid values: open, in-progress, done, closed"
    );

    let step = authorize(&status_request("2"));
    let step = step.state.step(HandlerEvent::StatusBody(Ok("closed".to_string())));
    let step = step.state.step(HandlerEvent::Label(Ok("[]".to_string())));
    let reply = expect_reply(step.state.step(HandlerEvent::Tickets(Some(vec![ticket(1, "open", "a")]))));
    assert_eq!(reply.status, 404);

    let reply = expect_reply(authorize(&status_request("x")));
    assert_eq!(reply.status, 400);
    assert_eq!(raw_body(&reply), r#"{"error":"invalid ticket id"}"#);

    let reply = expect_reply(authorize("POST /v1/tickets/3/status HTTP/1.1\r\nAuthorization: Bearer tok\r\n"));
    assert_eq!(raw_body(&reply), r#"{"error":"missing body"}"#);
}

fn comment_request(id: &str) -> String {
    format!(
        "POST /v1/tickets/{}/comment HTTP/1.1\r\nAuthorization: Bearer tok\r\n\r\n{{\"author\":\"me\",\"body\":\"hi\"}}",
        id
    )
}

fn comment_by(author: &str, body: &str) -> CommentRequest {
    CommentRequest { author: author.to_string(), body: body.to_string() }
}

#[test]
fn add_comment_appends_to_the_thread() {
    let mut all = vec![ticket(1, "open", "a"), ticket(2, "done", "b")];
    let t = add_comment(&mut all, 2, comment_by("x", "first"), 10).unwrap();
    assert_eq!(t.comments.len(), 1);
    let t = add_comment(&mut all, 2, comment_by("y", "second"), 20).unwrap();
    let thread: Vec<(String, String, u64)> =
        t.comments.iter().map(|c| (c.author.clone(), c.body.clone(), c.created_at)).collect();
    assert_eq!(
        thread,
        vec![("x".to_string(), "first".to_string(), 10), ("y".to_string(), "second".to_string(), 20)]
    );
    assert_eq!(t.status, "done");
    assert_eq!(all[1].comments.len(), 2);
    assert!(all[0].comments.is_empty());
    assert!(add_comment(&mut all, 7, comment_by("z", "none"), 30).is_none());
    assert_eq!(all.len(), 2);
}

#[test]
fn comment_route_saves_and_answers_the_ticket() {
    let step = authorize(&comment_request("2"));
    match &step.action {
        HandlerAction::ParseCommentBody { body } => assert_eq!(body, r#"{"author":"me","body":"hi"}"#),
        _ => panic!("expected a comment body to decode"),
    }
    let step = step.state.step(HandlerEvent::CommentBody(Ok(comment_by("me", "hi"))));
    expect_label(&step, "tickets-list");
    let step = step.state.step(HandlerEvent::Label(Ok("[]".to_string())));
    let mut second = ticket(2, "open", "b");
    second.comments.push(Comment { author: "old".to_string(), body: "earlier".to_string(), created_at: 1 });
    let step = step.state.step(HandlerEvent::Tickets(Some(vec![ticket(1, "open", "a"), second])));
    assert!(matches!(step.action, HandlerAction::ReadClock));
    let step = step.state.step(HandlerEvent::Clock(99));
    let saved = match step.action {
        HandlerAction::SaveTickets { tickets, .. } => tickets,
        _ => panic!("expected a save"),
    };
    assert!(saved[0].comments.is_empty());
    assert_eq!(saved[1].comments.len(), 2);
    assert_eq!(saved[1].comments[1].author, "me");
    assert_eq!(saved[1].comments[1].created_at, 99);
    let (notice, reply) = notify_then_reply(step.state);
    assert_eq!(notice.to, "b");
    assert_eq!(notice.subject, "[ticket #2] new comment from me");
    assert_eq!(notice.body, "hi\n\nauthor: me\nticket: t2");
    assert_eq!(reply.status, 200);
    assert!(matches!(reply.payload, Payload::One(t) if t.id == 2 && t.comments.len() == 2));
}

#[test]
fn comment_route_refusals() {
    let step = authorize(&comment_request("5"));
    let step = step.state.step(HandlerEvent::CommentBody(Ok(comment_by("me", "hi"))));
    let step = step.state.step(HandlerEvent::Label(Err("tickets-list not set".to_string())));
    let reply = expect_reply(step);
    assert_eq!(reply.status, 404);
    assert_eq!(raw_body(&reply), r#"{"error":"ticket not found"}"#);

    let step = authorize(&comment_request("5"));
    let reply = expect_reply(step.state.step(HandlerEvent::CommentBody(Err("EOF".to_string()))));
    assert_eq!(reply.status, 400);
    assert_eq!(raw_body(&reply), r#"{"error":"bad request body: EOF"}"#);

    let reply = expect_reply(authorize(&comment_request("x")));
    assert_eq!(raw_body(&reply), r#"{"error":"invalid ticket id"}"#);

    let reply = expect_reply(authorize("POST /v1/tickets/3/comment HTTP/1.1\r\nAuthorization: Bearer tok\r\n"));
    assert_eq!(raw_body(&reply), r#"{"error":"missing body"}"#);
}

#[test]
fn status_path_without_an_id_is_not_found() {
    let step = route(b"POST /v1/tickets/status HTTP/1.1\r\nAuthorization: Bearer tok\r\n\r\n{}");
    let ok = HandlerEvent::Label(Ok("tok".to_string()));
    assert!(!step.state.traps_on(&ok));
    let reply = expect_reply(step.state.step(ok));
    assert_eq!(reply.status, 404);
    assert_eq!(raw_body(&reply), r#"{"error":"not found"}"#);
}

#[test]
fn label_loading_messages() {
    match load_label_as_string("tickets-list", Err("boom".to_string())) {
        LabelLoad::Done(Err(m)) => assert_eq!(m, "tickets-list lookup failed: boom"),
        _ => panic!(),
    }
    match load_label_as_string("tickets-list", Ok(None)) {
        LabelLoad::Done(Err(m)) => assert_eq!(m, "tickets-list not set"),
        _ => panic!(),
    }
    match load_label_as_string("tickets-list", Ok(Some("ref1".to_string()))) {
        LabelLoad::Fetch { store_id, content_ref } => {
            assert_eq!(store_id, "tickets");
            assert_eq!(content_ref, "ref1");
        }
        _ => panic!(),
    }
    assert_eq!(finish_label_load("l", Ok(b"abc".to_vec())), Ok("abc".to_string()));
    assert_eq!(finish_label_load("l", Ok(vec![0xff])), Err("l is not valid UTF-8".to_string()));
    assert_eq!(finish_label_load("l", Err("e".to_string())), Err("l get failed: e".to_string()));
}

#[test]
fn smoke_test_on_a_fresh_store() {
    let step = authorize(&create_request(r#"{"title":"prod smoke"}"#));
    let req = NewTicketRequest {
        title: "prod smoke".into(),
        body: "first ticket on prod".into(),
        reporter: "x@y".into(),
        assignee: "x@y".into(),
    };
    let step = step.state.step(HandlerEvent::NewTicket(Ok(req)));
    expect_label(&step, "tickets-list");
    let step = step.state.step(HandlerEvent::Label(Err("tickets-list not set".to_string())));
    assert!(matches!(step.action, HandlerAction::ReadClock));
    let step = step.state.step(HandlerEvent::Clock(1_700_000_000_000));
    let saved = match &step.action {
        HandlerAction::SaveTickets { tickets, .. } => tickets.clone(),
        _ => panic!("expected a save"),
    };
    assert_eq!(ids(&saved), vec![1]);
    let (_, reply) = notify_then_reply(step.state);
    assert_eq!(reply.status, 201);

    let step = authorize("GET /v1/tickets/1 HTTP/1.1\r\nAuthorization: Bearer tok\r\n\r\n");
    expect_label(&step, "tickets-list");
    let step = step.state.step(HandlerEvent::Label(Ok("[...]".to_string())));
    let step = step.state.step(HandlerEvent::Tickets(Some(saved)));
    let reply = expect_reply(step);
    assert_eq!(reply.status, 200);
    match reply.payload {
        Payload::One(t) => {
            assert_eq!((t.id, t.status.as_str(), t.title.as_str()), (1, "open", "prod smoke"));
            assert_eq!((t.body.as_str(), t.reporter.as_str()), ("first ticket on prod", "x@y"));
            assert_eq!(t.created_at, 1_700_000_000_000);
        }
        _ => panic!("expected the ticket"),
    }
}

#[test]
fn what_the_acceptor_records_the_handler_reads_back() {
    for (label, value) in [("api-bearer-token", "AbC123"), ("inbox-api", "mail:443"), ("inbox-token", "ß-tok")] {
        let w = tickets::acceptor::persist(label, value.to_string());
        assert_eq!(w.store_id, "tickets");
        assert_eq!(finish_label_load(&w.label, Ok(w.content)), Ok(value.to_string()));
    }
}

#[test]
fn send_failure_is_logged() {
    assert_eq!(send_failed_log_line("reset"), "[tickets-handler] send failed: reset");
}

#[test]
fn error_bodies_are_json_whatever_they_quote() {
    let step = authorize(&status_request("2"));
    let odd = "a\"b\\c\nd\u{1}é";
    let reply = expect_reply(step.state.step(HandlerEvent::StatusBody(Ok(odd.to_string()))));
    assert_eq!(
        raw_body(&reply),
        "{\"error\":\"invalid status \\\"a\\\"b\\\\c\\nd\\u0001é\\\"; valid values: open, in-progress, done, closed\"}"
    );
    let parsed: serde_json::Value = serde_json::from_str(&raw_body(&reply)).unwrap();
    assert_eq!(
        parsed["error"],
        format!("invalid status \"{}\"; valid values: open, in-progress, done, closed", odd)
    );
    let step = authorize(&status_request("2"));
    let reply = expect_reply(step.state.step(HandlerEvent::StatusBody(Err("expected `\"` at\tcol 3".to_string()))));
    let parsed: serde_json::Value = serde_json::from_str(&raw_body(&reply)).unwrap();
    assert_eq!(parsed["error"], "bad request body: expected `\"` at\tcol 3");
}

#[test]
fn no_mail_for_ones_own_comment_and_failed_lookups_still_reply() {
    let step = authorize(&comment_request("2"));
    let step = step.state.step(HandlerEvent::CommentBody(Ok(comment_by("b", "mine"))));
    let step = step.state.step(HandlerEvent::Label(Ok("[]".to_string())));
    let step = step.state.step(HandlerEvent::Tickets(Some(vec![ticket(2, "open", "b")])));
    let step = step.state.step(HandlerEvent::Clock(5));
    assert!(matches!(step.action, HandlerAction::SaveTickets { .. }));
    let reply = expect_reply(step.state.step(HandlerEvent::Saved));
    assert_eq!(reply.status, 200);

    let step = authorize(&status_request("2"));
    let step = step.state.step(HandlerEvent::StatusBody(Ok("done".to_string())));
    let step = step.state.step(HandlerEvent::Label(Ok("[]".to_string())));
    let step = step.state.step(HandlerEvent::Tickets(Some(vec![ticket(2, "open", "b")])));
    let step = step.state.step(HandlerEvent::Saved);
    expect_label(&step, "inbox-api");
    let reply = expect_reply(step.state.step(HandlerEvent::Label(Err("inbox-api not set".to_string()))));
    assert_eq!(reply.status, 200);
}

#[test]
fn long_texts_are_cut_to_200_characters_in_mail() {
    let step = authorize(&status_request("2"));
    let long: String = "é".repeat(250);
    let step = step.state.step(HandlerEvent::StatusBody(Ok("done".to_string())));
    let step = step.state.step(HandlerEvent::Label(Ok("[]".to_string())));
    let mut t = ticket(2, "open", "b");
    t.body = long.clone();
    let step = step.state.step(HandlerEvent::Tickets(Some(vec![t])));
    let (notice, _) = notify_then_reply(step.state);
    assert_eq!(notice.body, "done\n\nreporter: r@x\nassignee: b");
    let mut all = vec![ticket(1, "open", "a")];
    all[0].body = long;
    let req = NewTicketRequest { title: "T".into(), body: "é".repeat(250), reporter: "R".into(), assignee: "A".into() };
    let step = authorize(&create_request(r#"{}"#));
    let step = step.state.step(HandlerEvent::NewTicket(Ok(req)));
    let step = step.state.step(HandlerEvent::Label(Err("none".to_string())));
    let step = step.state.step(HandlerEvent::Clock(1));
    let (notice, _) = notify_then_reply(step.state);
    assert_eq!(notice.body, format!("{}\n\nreporter: R\nassignee: A", "é".repeat(200)));
    assert_eq!(mailbox_path("a b@x"), "/v1/mailboxes/a%20b%40x/messages");
}
