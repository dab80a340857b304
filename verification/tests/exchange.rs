use tickets::acceptor::{try_handle_connection, AcceptorState, ConnectionAction, ConnectionEvent, Handover};
use tickets::cli::{default_api, http, run, CliCommand, Reception, ResponseReader};
use tickets::handler::{route, HandlerAction, HandlerEvent, Payload, RouteState};
use tickets::http::{extract_bearer, http_response};
use tickets::ticket::{NewTicketRequest, Ticket};

fn client(token: &str) -> CliCommand {
    CliCommand {
        cmd: String::from("list"),
        api: default_api(),
        token: token.to_string(),
        id: None,
        title: None,
        body: None,
        reporter: None,
        assignee: None,
        status: None,
        author: None,
    }
}

fn first_reply_status(request: &[u8], stored: &str) -> Option<u16> {
    let step = route(request);
    let step = step.state.step(HandlerEvent::Label(Ok(stored.to_string())));
    match step.action {
        HandlerAction::Respond { reply } => Some(reply.status),
        _ => None,
    }
}

#[test]
fn the_server_reads_the_clients_token_as_sent() {
    let call = http(&client("AbC-9"), "GET", "/v1/tickets", None);
    let text: Vec<char> = String::from_utf8(call.request.clone()).unwrap().chars().collect();
    assert_eq!(extract_bearer(&text), Some("AbC-9".to_string()));
    assert_eq!(first_reply_status(&call.request, "AbC-9"), None);
    assert_eq!(first_reply_status(&call.request, "abc-9"), Some(401));
}

#[test]
fn inner_spaces_survive_but_trailing_ones_do_not() {
    let call = http(&client(" x Y"), "GET", "/v1/tickets", None);
    let text: Vec<char> = String::from_utf8(call.request).unwrap().chars().collect();
    assert_eq!(extract_bearer(&text), Some(" x Y".to_string()));
    let call = http(&client("ab "), "GET", "/v1/tickets", None);
    let text: Vec<char> = String::from_utf8(call.request).unwrap().chars().collect();
    assert_eq!(extract_bearer(&text), Some("ab".to_string()));
    let call = http(&client(""), "GET", "/v1/tickets", None);
    let text: Vec<char> = String::from_utf8(call.request).unwrap().chars().collect();
    assert_eq!(extract_bearer(&text), None);
}

#[test]
fn a_lower_case_token_is_accepted_as_sent() {
    let call = http(&client("secret"), "POST", "/v1/tickets", Some("{}"));
    assert_eq!(first_reply_status(&call.request, "secret"), None);
    assert_eq!(first_reply_status(&call.request, "other"), Some(401));
}

fn read_whole(bytes: Vec<u8>) -> Reception {
    let mut reader = ResponseReader::new();
    assert!(reader.receive(bytes));
    assert!(reader.complete());
    assert!(!reader.splits_char());
    reader.finish().unwrap()
}

#[test]
fn the_client_reads_back_what_the_server_frames() {
    for status in [200u16, 201, 204, 299] {
        match read_whole(http_response(status, "{\"é\":1}".as_bytes().to_vec())) {
            Reception::Success(body) => assert_eq!(body, "{\"é\":1}"),
            _ => panic!("expected a success for {}", status),
        }
    }
    for status in [0u16, 199, 300, 400, 401, 404, 65535] {
        match read_whole(http_response(status, b"{}".to_vec())) {
            Reception::Failure { code, body } => {
                assert_eq!(code, status);
                assert_eq!(body, "{}");
            },
            _ => panic!("expected a failure for {}", status),
        }
    }
    match read_whole(http_response(200, Vec::new())) {
        Reception::Success(body) => assert_eq!(body, ""),
        _ => panic!("expected a success"),
    }
}

#[test]
fn a_reader_with_a_split_character_is_told_apart() {
    let mut bytes = b"HTTP/1.1 200 OK\r\nContent-Length: 1\r\n\r\n".to_vec();
    bytes.extend_from_slice("é".as_bytes());
    let mut reader = ResponseReader::new();
    assert!(reader.receive(bytes));
    assert!(reader.well_formed());
    assert!(reader.splits_char());
}

fn new_ticket_body() -> String {
    String::from(r#"{"title":"t","body":"","reporter":"r","assignee":"a"}"#)
}

#[test]
fn a_create_is_answered_after_nine_outcomes() {
    let request = format!(
        "POST /v1/tickets HTTP/1.1\r\nAuthorization: Bearer tok\r\n\r\n{}",
        new_ticket_body()
    );
    let mut step = route(request.as_bytes());
    let mut outcomes = 0;
    loop {
        let event = match &step.action {
            HandlerAction::LoadLabel { label } if label == "api-bearer-token" => {
                HandlerEvent::Label(Ok("tok".to_string()))
            },
            HandlerAction::LoadLabel { .. } => HandlerEvent::Label(Ok("[]".to_string())),
            HandlerAction::ParseNewTicket { .. } => HandlerEvent::NewTicket(Ok(NewTicketRequest {
                title: "t".into(),
                body: "".into(),
                reporter: "r".into(),
                assignee: "a".into(),
            })),
            HandlerAction::ParseTickets { .. } => HandlerEvent::Tickets(Some(Vec::<Ticket>::new())),
            HandlerAction::ReadClock => HandlerEvent::Clock(77),
            HandlerAction::SaveTickets { tickets, .. } => {
                assert_eq!(tickets.len(), 1);
                HandlerEvent::Saved
            },
            HandlerAction::ParseStatusBody { .. } | HandlerAction::ParseCommentBody { .. } => {
                panic!("no status or comment body here")
            },
            HandlerAction::Notify { notice, .. } => {
                assert_eq!(notice.subject, "[ticket #1] t");
                HandlerEvent::Notified
            },
            HandlerAction::Respond { .. } => break,
        };
        assert!(step.state.expects_event(&event));
        step = step.state.step(event);
        outcomes += 1;
        assert!(outcomes <= 10);
    }
    assert_eq!(outcomes, 9);
    assert!(matches!(step.state, RouteState::Finished));
    match step.action {
        HandlerAction::Respond { reply } => {
            assert_eq!(reply.status, 201);
            assert!(matches!(reply.payload, Payload::One(t) if t.id == 1 && t.created_at == 77));
        },
        _ => unreachable!(),
    }
}

#[test]
fn a_hand_over_ends_within_four_outcomes() {
    let cfg = tickets::acceptor::Config {
        api_token: String::from("t"),
        inbox_api: String::from("mail:443"),
        inbox_token: String::from("i"),
        handler_manifest: Some(String::from("m.toml")),
    };
    let state = AcceptorState::new(String::from("L"), &cfg);
    let (mut h, mut action) = try_handle_connection(&state, "c");
    let mut outcomes = 0;
    loop {
        let event = match action {
            ConnectionAction::Spawn { .. } => ConnectionEvent::Spawned(Ok("H".to_string())),
            ConnectionAction::CallInit { .. } => ConnectionEvent::InitReturned,
            ConnectionAction::Transfer { .. } => ConnectionEvent::Transferred(Err("x".to_string())),
            ConnectionAction::StopChild { .. } => ConnectionEvent::Stopped,
            ConnectionAction::Finish(r) => {
                assert_eq!(r, Err("transfer failed: x".to_string()));
                break;
            },
        };
        let (next, next_action) = h.step(event);
        h = next;
        action = next_action;
        outcomes += 1;
    }
    assert_eq!(outcomes, 4);
    assert!(matches!(h, Handover::Done));
}

#[test]
fn every_split_of_a_reply_reads_the_same() {
    let reply = http_response(404, "{\"error\":\"ticket not found\"}".as_bytes().to_vec());
    for k in 0..=reply.len() {
        let mut reader = ResponseReader::new();
        reader.receive(reply[..k].to_vec());
        reader.receive(reply[k..].to_vec());
        assert_eq!(reader.received, reply);
        assert_eq!(reader.body_start, Some(reply.len() - 28));
        assert_eq!(reader.content_length, Some(28));
        match reader.finish() {
            Ok(Reception::Failure { code: 404, body }) => assert_eq!(body, "{\"error\":\"ticket not found\"}"),
            _ => panic!("expected the 404 reply at split {}", k),
        }
    }
}

#[test]
fn every_planned_call_reaches_its_handler() {
    let mut c = client("tok");
    c.cmd = String::from("comment");
    c.id = Some(42);
    c.author = Some(String::from("me"));
    c.body = Some(String::from("hi"));
    let call = run(&c).ok().unwrap();
    let sent = r#"{"author":"me","body":"hi"}"#;
    let request = http(&c, &call.method, &call.path, Some(sent)).request;
    let step = route(&request).state.step(HandlerEvent::Label(Ok("tok".to_string())));
    assert!(matches!(step.state, RouteState::AwaitCommentBody { id: 42 }));
    assert!(matches!(step.action, HandlerAction::ParseCommentBody { body } if body == sent));

    c.cmd = String::from("status");
    c.status = Some(String::from("done"));
    let call = run(&c).ok().unwrap();
    let request = http(&c, &call.method, &call.path, Some("{\"status\":\"done\"}")).request;
    let step = route(&request).state.step(HandlerEvent::Label(Ok("tok".to_string())));
    assert!(matches!(step.state, RouteState::AwaitStatusBody { id: 42 }));

    c.cmd = String::from("show");
    let call = run(&c).ok().unwrap();
    let request = http(&c, &call.method, &call.path, None).request;
    let step = route(&request).state.step(HandlerEvent::Label(Ok("tok".to_string())));
    assert!(matches!(step.action, HandlerAction::LoadLabel { label } if label == "tickets-list"));
}
