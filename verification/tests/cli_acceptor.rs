use tickets::acceptor::{
    bad_config_json, begin_startup, config_text, connection_failed_log_line, init_log_line,
    listen_addr, listen_failed, listening_log_line, persist, persist_outcome,
    try_handle_connection, AcceptorState, Config, ConnectionAction, ConnectionEvent, Handover,
    Startup, StartupAction, StartupEvent,
};
use tickets::cli::{
    bad_state_line, check_command, connect_failed, default_api, encode_failed, epoch_ms_to_iso8601,
    err, error_line_exec, failure_message, http, out, parse_error_line, render_commented,
    render_created, render_list, render_show, render_updated, reply_parse_failed, run,
    send_failed, shutdown_now, ApiCall, CallKind, CliCommand, HostCall, Reception, RequestBody,
    ResponseReader,
};
use tickets::ticket::{Comment, Ticket};
use tickets::http::{http_response, parse_query};

fn command(cmd: &str) -> CliCommand {
    CliCommand {
        cmd: cmd.to_string(),
        api: default_api(),
        token: String::from("tok"),
        id: None,
        title: None,
        body: None,
        reporter: None,
        assignee: None,
        status: None,
        author: None,
    }
}

fn some(s: &str) -> Option<String> {
    Some(s.to_string())
}

fn planned(c: &CliCommand) -> ApiCall {
    match run(c) {
        Ok(call) => call,
        Err(e) => panic!("unexpected refusal: {}", e),
    }
}

fn refused(c: &CliCommand) -> String {
    match run(c) {
        Ok(call) => panic!("unexpected call to {}", call.path),
        Err(e) => e,
    }
}

fn client_ticket(comments: Vec<Comment>) -> Ticket {
    Ticket {
        id: 12,
        title: String::from("fix it"),
        body: String::from("the body"),
        reporter: String::from("r@x"),
        assignee: String::from("a@x"),
        status: String::from("open"),
        created_at: 1700000000000,
        comments,
    }
}

fn read_all(chunks: &[&[u8]]) -> ResponseReader {
    let mut reader = ResponseReader::new();
    for c in chunks {
        assert!(reader.receive(c.to_vec()));
    }
    reader
}

#[test]
fn default_api_is_the_local_listener() {
    assert_eq!(default_api(), "127.0.0.1:8443");
}

#[test]
fn terminal_calls_carry_the_bytes() {
    assert!(matches!(out("héllo\n"), HostCall::WriteStdout(b) if b == "héllo\n".as_bytes()));
    assert!(matches!(err("bad\n"), HostCall::WriteStderr(b) if b == b"bad\n"));
    assert!(matches!(shutdown_now(), HostCall::Shutdown));
}

#[test]
fn start_up_complaints() {
    assert_eq!(bad_state_line(), "tickets-cli: expected initial_state = JSON string with {cmd, ...}\n");
    assert_eq!(parse_error_line("EOF"), "tickets-cli: parse error: EOF\n");
    assert_eq!(error_line_exec("unknown cmd: x"), "tickets-cli: unknown cmd: x\n");
}

#[test]
fn check_command_wants_cmd_then_token() {
    let mut c = command("");
    c.token = String::new();
    assert_eq!(check_command(&c), some("tickets-cli: missing 'cmd' field\n"));
    c.cmd = String::from("list");
    assert_eq!(
        check_command(&c),
        some("tickets-cli: missing 'token' field (set TICKETS_TOKEN)\n")
    );
    c.token = String::from("t");
    assert_eq!(check_command(&c), None);
}

#[test]
fn list_without_filters() {
    let call = planned(&command("list"));
    assert_eq!(call.method, "GET");
    assert_eq!(call.path, "/v1/tickets");
    assert!(call.body.is_none());
    assert!(call.kind == CallKind::List);
}

#[test]
fn list_with_filters_encodes_them() {
    let mut c = command("list");
    c.status = some("in progress");
    c.assignee = some("a@b.c");
    let call = planned(&c);
    assert_eq!(call.path, "/v1/tickets?status=in%20progress&assignee=a%40b.c");
    c.status = None;
    assert_eq!(planned(&c).path, "/v1/tickets?assignee=a%40b.c");
    c.status = some("done");
    c.assignee = None;
    assert_eq!(planned(&c).path, "/v1/tickets?status=done");
}

#[test]
fn list_filters_come_back_from_the_query() {
    let mut c = command("list");
    c.status = some("in-progress & more");
    c.assignee = some("x+y@z=w");
    let call = planned(&c);
    let query = call.path.split_once('?').unwrap().1.to_string();
    let (st, asg) = parse_query(&query);
    assert_eq!(st, some("in-progress & more"));
    assert_eq!(asg, some("x+y@z=w"));
}

#[test]
fn new_checks_its_options_in_order() {
    let mut c = command("new");
    assert_eq!(refused(&c), "new: --title required");
    c.title = some("T");
    assert_eq!(refused(&c), "new: --reporter required");
    c.reporter = some("R");
    assert_eq!(refused(&c), "new: --assignee required");
    c.assignee = some("A");
    let call = planned(&c);
    assert_eq!(call.method, "POST");
    assert_eq!(call.path, "/v1/tickets");
    assert!(call.kind == CallKind::New);
    match call.body {
        Some(RequestBody::Create { title, body, reporter, assignee }) => {
            assert_eq!((title.as_str(), body.as_str()), ("T", ""));
            assert_eq!((reporter.as_str(), assignee.as_str()), ("R", "A"));
        },
        _ => panic!("expected a create body"),
    }
    c.body = some("details");
    match planned(&c).body {
        Some(RequestBody::Create { body, .. }) => assert_eq!(body, "details"),
        _ => panic!("expected a create body"),
    }
}

#[test]
fn show_needs_an_id() {
    let mut c = command("show");
    assert_eq!(refused(&c), "show: --id required");
    c.id = Some(42);
    let call = planned(&c);
    assert_eq!(call.method, "GET");
    assert_eq!(call.path, "/v1/tickets/42");
    assert!(call.body.is_none());
    assert!(call.kind == CallKind::Show);
}

#[test]
fn status_needs_id_then_status() {
    let mut c = command("status");
    c.status = some("done");
    assert_eq!(refused(&c), "status: --id required");
    c.status = None;
    c.id = Some(3);
    assert_eq!(refused(&c), "status: --status required");
    c.status = some("done");
    let call = planned(&c);
    assert_eq!(call.method, "POST");
    assert_eq!(call.path, "/v1/tickets/3/status");
    assert!(call.kind == CallKind::Status);
    assert!(matches!(call.body, Some(RequestBody::Status { status }) if status == "done"));
}

#[test]
fn comment_needs_id_author_and_body() {
    let mut c = command("comment");
    assert_eq!(refused(&c), "comment: --id required");
    c.id = Some(18446744073709551615);
    assert_eq!(refused(&c), "comment: --author required");
    c.author = some("me");
    assert_eq!(refused(&c), "comment: --body required");
    c.body = some("hi");
    let call = planned(&c);
    assert_eq!(call.path, "/v1/tickets/18446744073709551615/comment");
    assert!(call.kind == CallKind::Comment);
    assert!(matches!(call.body, Some(RequestBody::Comment { author, body }) if author == "me" && body == "hi"));
}

#[test]
fn unknown_commands_are_named() {
    assert_eq!(refused(&command("frob")), "unknown cmd: frob");
    assert_eq!(refused(&command("List")), "unknown cmd: List");
}

#[test]
fn request_without_body() {
    let c = command("show");
    let call = http(&c, "GET", "/v1/tickets/1", None);
    assert_eq!(call.address, "127.0.0.1:8443");
    assert_eq!(
        String::from_utf8(call.request).unwrap(),
        "GET /v1/tickets/1 HTTP/1.1\r\nHost: 127.0.0.1:8443\r\nAuthorization: Bearer tok\r\nConnection: close\r\n\r\n"
    );
}

#[test]
fn request_with_body_counts_bytes() {
    let mut c = command("new");
    c.api = String::from("h:1");
    let call = http(&c, "POST", "/v1/tickets", Some("{\"t\":\"é\"}"));
    assert_eq!(call.address, "h:1");
    assert_eq!(
        String::from_utf8(call.request).unwrap(),
        "POST /v1/tickets HTTP/1.1\r\nHost: h:1\r\nAuthorization: Bearer tok\r\nConnection: close\r\nContent-Type: application/json\r\nContent-Length: 10\r\n\r\n{\"t\":\"é\"}"
    );
}

#[test]
fn exchange_messages() {
    assert_eq!(connect_failed("h:1", "refused"), "connect to h:1: refused");
    assert_eq!(send_failed("reset"), "send: reset");
    assert_eq!(encode_failed("bad"), "encode body: bad");
}

#[test]
fn reader_reads_a_server_reply_in_pieces() {
    let reply = http_response(200, b"{\"tickets\":[]}".to_vec());
    let (a, b) = reply.split_at(7);
    let (b, c) = b.split_at(b.len() - 3);
    let mut reader = ResponseReader::new();
    assert!(reader.receive(a.to_vec()));
    assert!(!reader.complete());
    assert!(reader.receive(b.to_vec()));
    assert!(!reader.complete());
    assert!(reader.receive(c.to_vec()));
    assert!(reader.complete());
    assert_eq!(reader.content_length, Some(14));
    assert!(matches!(reader.finish(), Ok(Reception::Success(body)) if body == "{\"tickets\":[]}"));
}

#[test]
fn reader_reports_non_2xx_with_body() {
    let reply = http_response(404, b"{\"error\":\"ticket not found\"}".to_vec());
    let reader = read_all(&[&reply]);
    match reader.finish() {
        Ok(Reception::Failure { code, body }) => {
            assert_eq!(code, 404);
            assert_eq!(body, "{\"error\":\"ticket not found\"}");
        },
        _ => panic!("expected a failure"),
    }
}

#[test]
fn reader_takes_the_last_content_length_any_case() {
    let reader = read_all(&[b"HTTP/1.1 201 Created\r\ncontent-LENGTH: 9\r\nContent-Length : 2 \r\n\r\nokEXTRA"]);
    assert_eq!(reader.body_start, Some(64));
    assert_eq!(reader.content_length, Some(2));
    assert!(matches!(reader.finish(), Ok(Reception::Success(b)) if b == "ok"));
}

#[test]
fn reader_without_length_takes_everything() {
    let reader = read_all(&[b"HTTP/1.1 200 OK\r\nX: y\r\n\r\nall ", b"of it"]);
    assert_eq!(reader.content_length, Some(usize::MAX));
    assert!(!reader.complete());
    assert!(matches!(reader.next_move(), tickets::cli::ReadMove::Receive));
    assert!(matches!(reader.finish(), Ok(Reception::Success(b)) if b == "all of it"));
}

#[test]
fn reader_short_body_and_missing_head() {
    let reader = read_all(&[b"HTTP/1.1 200 OK\r\nContent-Length: 50\r\n\r\nshort"]);
    assert!(!reader.complete());
    assert!(matches!(reader.receive_failed("gone"), Err(m) if m == "recv: gone"));
    assert!(matches!(reader.finish(), Ok(Reception::Success(b)) if b == "short"));
    let reader = read_all(&[b"garbage"]);
    assert_eq!(reader.body_start, None);
    assert!(matches!(reader.finish(), Ok(Reception::Failure { code: 0, body }) if body == "garbage"));
}

#[test]
fn reader_after_completion_accepts_a_failed_receive() {
    let reader = read_all(&[b"HTTP/1.1 200 OK\r\nContent-Length: 2\r\n\r\nok"]);
    assert!(reader.complete());
    assert!(reader.receive_failed("closed").is_ok());
}

#[test]
fn reader_ignores_an_empty_chunk_and_refuses_non_utf8() {
    let mut reader = ResponseReader::new();
    assert!(!reader.receive(Vec::new()));
    assert!(reader.received.is_empty());
    assert!(reader.receive(vec![0xff, 0xfe]));
    assert!(matches!(reader.finish(), Err(m) if m == "non-utf8 response"));
}

#[test]
fn failures_and_parse_errors_are_worded() {
    assert_eq!(failure_message(401, "{}", some("unauthorized")), "HTTP 401: unauthorized");
    assert_eq!(failure_message(0, "plain", None), "HTTP 0: plain");
    assert_eq!(reply_parse_failed(CallKind::List, "x"), "parse /v1/tickets response: x");
    assert_eq!(reply_parse_failed(CallKind::New, "x"), "parse create response: x");
    assert_eq!(reply_parse_failed(CallKind::Show, "x"), "parse show response: x");
    assert_eq!(reply_parse_failed(CallKind::Comment, "x"), "parse comment response: x");
    assert_eq!(reply_parse_failed(CallKind::Status, "x"), "parse status response: x");
}

#[test]
fn list_output() {
    assert_eq!(render_list(&Vec::new()), vec!["(no tickets)\n".to_string()]);
    let mut second = client_ticket(Vec::new());
    second.id = 13;
    second.status = String::from("done");
    let lines = render_list(&vec![client_ticket(Vec::new()), second]);
    assert_eq!(
        lines,
        vec![
            "#12  [open]  fix it  (reporter=r@x, assignee=a@x)\n".to_string(),
            "#13  [done]  fix it  (reporter=r@x, assignee=a@x)\n".to_string(),
        ]
    );
}

#[test]
fn one_line_outputs() {
    let t = client_ticket(vec![Comment { author: String::from("a"), body: String::new(), created_at: 0 }]);
    assert_eq!(render_created(&t), "created #12  [open]  fix it  (reporter=r@x, assignee=a@x)\n");
    assert_eq!(render_updated(&t), "updated #12  [open]  fix it  (reporter=r@x, assignee=a@x)\n");
    assert_eq!(render_commented(&t), "commented on #12  [open]  fix it  (1 comments)\n");
}

#[test]
fn timestamps_in_utc() {
    assert_eq!(epoch_ms_to_iso8601(0), "1970-01-01T00:00:00Z");
    assert_eq!(epoch_ms_to_iso8601(86399999), "1970-01-01T23:59:59Z");
    assert_eq!(epoch_ms_to_iso8601(951782400000), "2000-02-29T00:00:00Z");
    assert_eq!(epoch_ms_to_iso8601(1700000000000), "2023-11-14T22:13:20Z");
    assert_eq!(epoch_ms_to_iso8601(253402300799000), "9999-12-31T23:59:59Z");
    assert_eq!(epoch_ms_to_iso8601(253402300800000), "10000-01-01T00:00:00Z");
    assert_eq!(epoch_ms_to_iso8601(u64::MAX), "584556019-04-03T14:25:51Z");
}

#[test]
fn timestamps_follow_leap_years() {
    assert_eq!(epoch_ms_to_iso8601(4107456000000), "2100-02-28T00:00:00Z");
    assert_eq!(epoch_ms_to_iso8601(4107456000000 + 86400000), "2100-03-01T00:00:00Z");
    assert_eq!(epoch_ms_to_iso8601(3981312000000), "2096-02-29T00:00:00Z");
    assert_eq!(epoch_ms_to_iso8601(13574563200000), "2400-02-29T00:00:00Z");
    assert_eq!(epoch_ms_to_iso8601(94608000000 + 86399999), "1972-12-31T23:59:59Z");
}

#[test]
fn show_output_without_comments() {
    let lines = render_show(&client_ticket(Vec::new()));
    assert_eq!(
        lines.concat(),
        "#12\nstatus:   open\ntitle:    fix it\nreporter: r@x\nassignee: a@x\ncreated:  2023-11-14T22:13:20Z\n\nthe body\n"
    );
    assert_eq!(lines.len(), 9);
}

#[test]
fn show_output_indents_comment_lines() {
    let t = client_ticket(vec![
        Comment { author: String::from("x@y"), body: String::from("one\ntwo"), created_at: 0 },
        Comment { author: String::from("z"), body: String::new(), created_at: 1000 },
    ]);
    assert_eq!(
        render_show(&t).concat(),
        "#12\nstatus:   open\ntitle:    fix it\nreporter: r@x\nassignee: a@x\ncreated:  2023-11-14T22:13:20Z\n\nthe body\n\
         \n--- comments ---\n\
         1970-01-01T00:00:00Z  x@y\n  one\n  two\n\n\
         1970-01-01T00:00:01Z  z\n  \n\n"
    );
}

fn config(a: &str, b: &str, c: &str) -> Config {
    Config {
        api_token: a.to_string(),
        inbox_api: b.to_string(),
        inbox_token: c.to_string(),
        handler_manifest: None,
    }
}

const DEFAULT_MANIFEST: &str = "/home/colin/work/actors/tickets/ticket-handler/manifest.toml";

#[test]
fn acceptor_state_and_address() {
    let s = AcceptorState::new(String::from("L1"), &config("a", "b", "c"));
    assert_eq!(s.listener_id, "L1");
    assert_eq!(s.handler_manifest, DEFAULT_MANIFEST);
    let mut given = config("a", "b", "c");
    given.handler_manifest = Some(String::from("https://example.test/handler.toml"));
    assert_eq!(given.manifest(), "https://example.test/handler.toml");
    let s = AcceptorState::new(String::from("L2"), &given);
    assert_eq!(s.handler_manifest, "https://example.test/handler.toml");
    given.handler_manifest = Some(String::new());
    assert_eq!(given.manifest(), DEFAULT_MANIFEST);
    assert_eq!(listen_addr(), "127.0.0.1:8443");
}

#[test]
fn start_up_state_must_be_a_non_empty_string() {
    let msg = "acceptor: initial_state must be a JSON config string with {api_token, inbox_api, inbox_token}";
    assert_eq!(config_text(None), Err(msg.to_string()));
    assert_eq!(config_text(Some(String::new())), Err(msg.to_string()));
    assert_eq!(config_text(some("{}")), Ok("{}".to_string()));
    assert_eq!(bad_config_json("eof"), "acceptor: bad initial_state JSON: eof");
}

#[test]
fn config_fields_must_be_non_empty_in_order() {
    assert_eq!(config("", "", "").validate(), Err("acceptor: api_token must be non-empty".to_string()));
    assert_eq!(config("a", "", "").validate(), Err("acceptor: inbox_api must be non-empty".to_string()));
    assert_eq!(config("a", "b", "").validate(), Err("acceptor: inbox_token must be non-empty".to_string()));
    let mut empty_manifest = config("a", "b", "c");
    empty_manifest.handler_manifest = Some(String::new());
    assert_eq!(empty_manifest.validate(), Ok(()));
    assert_eq!(config("a", "b", "c").validate(), Ok(()));
}

#[test]
fn configuration_is_persisted_under_three_labels() {
    let w = persist("inbox-api", String::from("mail:443"));
    assert_eq!((w.store_id.as_str(), w.label.as_str()), ("tickets", "inbox-api"));
    assert_eq!(w.content, b"mail:443".to_vec());
    let (mut st, mut action) = begin_startup(config("tok", "mail:443", "itok"));
    let mut got: Vec<(String, String, Vec<u8>)> = Vec::new();
    while let StartupAction::Store { write } = action {
        got.push((write.store_id, write.label, write.content));
        let ev = StartupEvent::Stored(Ok("h".to_string()));
        assert!(st.expects_event(&ev));
        let next = st.step(ev);
        st = next.0;
        action = next.1;
    }
    assert_eq!(
        got,
        vec![
            ("tickets".to_string(), "api-bearer-token".to_string(), b"tok".to_vec()),
            ("tickets".to_string(), "inbox-api".to_string(), b"mail:443".to_vec()),
            ("tickets".to_string(), "inbox-token".to_string(), b"itok".to_vec()),
        ]
    );
    assert!(matches!(action, StartupAction::Listen { ref address } if address == "127.0.0.1:8443"));
    assert_eq!(persist_outcome("inbox-token", Ok("h".to_string())), Ok(()));
    assert_eq!(
        persist_outcome("inbox-token", Err("full".to_string())),
        Err("persist inbox-token failed: full".to_string())
    );
}

fn stored(st: Startup, ok: bool) -> (Startup, StartupAction) {
    let ev = if ok {
        StartupEvent::Stored(Ok("h".to_string()))
    } else {
        StartupEvent::Stored(Err("full".to_string()))
    };
    assert!(st.expects_event(&ev));
    st.step(ev)
}

#[test]
fn start_up_stops_at_the_first_failed_write() {
    let (st, _) = begin_startup(config("tok", "mail:443", "itok"));
    let (st, _) = stored(st, true);
    let (st, a) = stored(st, false);
    assert!(matches!(a, StartupAction::Finish(Err(ref e)) if e == "persist inbox-api failed: full"));
    assert!(!st.expects_event(&StartupEvent::Stored(Ok("h".to_string()))));
}

#[test]
fn start_up_refuses_an_incomplete_configuration() {
    let (st, a) = begin_startup(config("tok", "", "itok"));
    assert!(matches!(a, StartupAction::Finish(Err(ref e)) if e == "acceptor: inbox_api must be non-empty"));
    assert!(!st.expects_event(&StartupEvent::Listened(Ok("L".to_string()))));
}

#[test]
fn start_up_listens_and_keeps_the_handler_manifest() {
    let mut cfg = config("tok", "mail:443", "itok");
    cfg.handler_manifest = Some(String::from("/srv/handler/manifest.toml"));
    let (st, _) = begin_startup(cfg);
    let (st, _) = stored(st, true);
    let (st, _) = stored(st, true);
    let (st, a) = stored(st, true);
    assert!(matches!(a, StartupAction::Listen { .. }));
    assert!(!st.expects_event(&StartupEvent::Stored(Ok("h".to_string()))));
    let ev = StartupEvent::Listened(Ok("L5".to_string()));
    assert!(st.expects_event(&ev));
    let (_, a) = st.step(ev);
    match a {
        StartupAction::Finish(Ok(s)) => {
            assert_eq!(s.listener_id, "L5");
            assert_eq!(s.handler_manifest, "/srv/handler/manifest.toml");
        }
        _ => panic!("start-up did not finish with a state"),
    }
}

#[test]
fn three_field_configuration_starts_handlers_from_the_default_manifest() {
    let (st, _) = begin_startup(config("tok", "mail:443", "itok"));
    let (st, _) = stored(st, true);
    let (st, _) = stored(st, true);
    let (st, _) = stored(st, true);
    let (_, a) = st.step(StartupEvent::Listened(Ok("L6".to_string())));
    match a {
        StartupAction::Finish(Ok(s)) => {
            assert_eq!(s.listener_id, "L6");
            assert_eq!(s.handler_manifest, DEFAULT_MANIFEST);
        }
        _ => panic!("start-up did not finish with a state"),
    }
}

#[test]
fn start_up_reports_a_failed_listen() {
    let (st, _) = begin_startup(config("tok", "mail:443", "itok"));
    let (st, _) = stored(st, true);
    let (st, _) = stored(st, true);
    let (st, _) = stored(st, true);
    let (_, a) = st.step(StartupEvent::Listened(Err("busy".to_string())));
    assert!(matches!(a, StartupAction::Finish(Err(ref e)) if e == "listen failed: busy"));
}

#[test]
fn acceptor_messages() {
    assert_eq!(listen_failed("busy"), "listen failed: busy");
    assert_eq!(init_log_line(), "[tickets-acceptor] init");
    assert_eq!(listening_log_line("L9"), "[tickets-acceptor] HTTP listening on 127.0.0.1:8443 (id=L9)");
    assert_eq!(
        connection_failed_log_line("c1", "spawn handler failed: x"),
        "[tickets-acceptor] handle-connection failed (conn=c1): spawn handler failed: x"
    );
}

fn start_handover() -> Handover {
    let state = AcceptorState::new(String::from("L"), &config("a", "b", "c"));
    let (h, a) = try_handle_connection(&state, "conn-7");
    assert!(matches!(a, ConnectionAction::Spawn { manifest } if manifest == state.handler_manifest));
    h
}

#[test]
fn handover_success() {
    let h = start_handover();
    assert!(h.expects_event(&ConnectionEvent::Spawned(Ok("H".to_string()))));
    assert!(!h.expects_event(&ConnectionEvent::Stopped));
    let (h, a) = h.step(ConnectionEvent::Spawned(Ok("H".to_string())));
    assert!(matches!(a, ConnectionAction::CallInit { handler_id, function }
        if handler_id == "H" && function == "theater:simple/actor.init"));
    let (h, a) = h.step(ConnectionEvent::InitReturned);
    assert!(matches!(a, ConnectionAction::Transfer { connection_id, handler_id }
        if connection_id == "conn-7" && handler_id == "H"));
    let (h, a) = h.step(ConnectionEvent::Transferred(Ok(())));
    assert!(matches!(a, ConnectionAction::Finish(Ok(()))));
    assert!(matches!(h, Handover::Done));
    assert!(!h.expects_event(&ConnectionEvent::InitReturned));
}

#[test]
fn handover_failed_spawn() {
    let (h, a) = start_handover().step(ConnectionEvent::Spawned(Err("no room".to_string())));
    assert!(matches!(h, Handover::Done));
    assert!(matches!(a, ConnectionAction::Finish(Err(m)) if m == "spawn handler failed: no room"));
}

#[test]
fn handover_failed_transfer_stops_the_handler() {
    let (h, _) = start_handover().step(ConnectionEvent::Spawned(Ok("H".to_string())));
    let (h, _) = h.step(ConnectionEvent::InitReturned);
    let (h, a) = h.step(ConnectionEvent::Transferred(Err("closed".to_string())));
    assert!(matches!(a, ConnectionAction::StopChild { handler_id } if handler_id == "H"));
    let (h, a) = h.step(ConnectionEvent::Stopped);
    assert!(matches!(h, Handover::Done));
    assert!(matches!(a, ConnectionAction::Finish(Err(m)) if m == "transfer failed: closed"));
}
