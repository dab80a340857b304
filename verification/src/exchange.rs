//! Laws of the exchange between client and server: what one side writes is
//! what the other reads back.

use vstd::prelude::*;
use vstd::utf8::*;
use crate::cli::{
    after_chunk, body_range, content_length_from, content_length_of, head_end, head_text,
    law_list_filters_roundtrip, line_content_length, list_query, plan, reception, request_text,
    status_code, CallKind, ReceptionView,
};
use crate::handler::{
    authorized, load_tickets_then, next, path_and_query, request_body, route_target,
    ActionView, EventView, PendingView, StateView, TargetView,
};
use crate::http::{
    bearer_from, bearer_of_line, bearer_token, lemma_encoded_safe, reason, response_head,
    url_encoded, url_safe,
};
use crate::text::{
    dec, find, find_from, first_line, is_digit, is_ws, lemma_dec_parses, lemma_find_at,
    lemma_find_char_at, lemma_find_char_none, lemma_find_from_extend, lemma_find_shift,
    lemma_find_skip, lemma_skip_ws_at, lemma_skip_ws_bounds, lemma_trim_end_bounds,
    lemma_word_end_at, line_at, lower, lower_all, nth_word, parse_unsigned, trim, word_span_from,
};

verus! {

// ---------------------------------------------------------------------------
// The parts of a response head
// ---------------------------------------------------------------------------

/// The status line of a response.
pub open spec fn status_line(status: u16) -> Seq<char> {
    "HTTP/1.1 "@ + dec(status as nat) + " "@ + reason(status)
}

/// The header line announcing the body's length.
pub open spec fn length_line(len: nat) -> Seq<char> {
    "Content-Length: "@ + dec(len)
}

/// The head of a response without its final blank line: the status line and
/// the three header lines, separated by `\r\n`.
pub open spec fn head_lines(status: u16, len: nat) -> Seq<char> {
    status_line(status) + "\r\n"@ + "Content-Type: application/json"@ + "\r\n"@ + length_line(len)
        + "\r\n"@ + "Connection: close"@
}

/// Whether `c` occurs nowhere in `s`.
pub open spec fn lacks(s: Seq<char>, c: char) -> bool {
    forall|k: int| 0 <= k < s.len() ==> #[trigger] s[k] != c
}

proof fn lemma_dec_plain(n: nat)
    ensures
        lacks(dec(n), '\r'),
        lacks(dec(n), '\n'),
        lacks(dec(n), ':'),
        lacks(dec(n), ' '),
        is_ascii_chars(dec(n)),
        dec(n).len() > 0,
{
    crate::text::lemma_dec_parses(n);
    assert forall|k: int| 0 <= k < dec(n).len() implies '0' <= #[trigger] dec(n)[k] <= '9' by {
        assert(crate::text::is_digit(dec(n)[k]));
    }
}

proof fn lemma_reason_plain(status: u16)
    ensures
        lacks(reason(status), '\r'),
        lacks(reason(status), '\n'),
        lacks(reason(status), ':'),
        is_ascii_chars(reason(status)),
{
    reveal_strlit("OK");
    reveal_strlit("Created");
    reveal_strlit("Bad Request");
    reveal_strlit("Unauthorized");
    reveal_strlit("Not Found");
    reveal_strlit("Error");
}

/// The head of a response is its lines followed by a blank line.
proof fn lemma_head_shape(status: u16, len: nat)
    ensures
        response_head(status, len) == head_lines(status, len) + "\r\n\r\n"@,
        is_ascii_chars(response_head(status, len)),
{
    reveal_strlit("HTTP/1.1 ");
    reveal_strlit(" ");
    reveal_strlit("\r\nContent-Type: application/json\r\nContent-Length: ");
    reveal_strlit("\r\nConnection: close\r\n\r\n");
    reveal_strlit("\r\n");
    reveal_strlit("Content-Type: application/json");
    reveal_strlit("Content-Length: ");
    reveal_strlit("Connection: close");
    reveal_strlit("\r\n\r\n");
    lemma_dec_plain(status as nat);
    lemma_dec_plain(len);
    lemma_reason_plain(status);
    assert(response_head(status, len) =~= head_lines(status, len) + "\r\n\r\n"@);
}

/// Facts about the parts of the head lines: no line holds a line break, the
/// status line holds no `:`, and each header line starts with `C`.
proof fn lemma_lines_plain(status: u16, len: nat)
    ensures
        lacks(status_line(status), '\r'),
        lacks(status_line(status), '\n'),
        lacks(status_line(status), ':'),
        lacks("Content-Type: application/json"@, '\r'),
        lacks(length_line(len), '\r'),
        lacks("Connection: close"@, '\r'),
        lacks("Content-Type: application/json"@, '\n'),
        lacks(length_line(len), '\n'),
        lacks("Connection: close"@, '\n'),
        "Content-Type: application/json"@[0] == 'C',
        length_line(len)[0] == 'C',
        "Connection: close"@[0] == 'C',
        length_line(len).len() > 0,
{
    reveal_strlit("HTTP/1.1 ");
    reveal_strlit(" ");
    reveal_strlit("Content-Type: application/json");
    reveal_strlit("Content-Length: ");
    reveal_strlit("Connection: close");
    lemma_dec_plain(status as nat);
    lemma_dec_plain(len);
    lemma_reason_plain(status);
    let l1 = status_line(status);
    let a = "HTTP/1.1 "@;
    let d = dec(status as nat);
    assert forall|k: int| 0 <= k < l1.len() implies #[trigger] l1[k] != '\r' && l1[k] != '\n'
        && l1[k] != ':' by {
        if k < a.len() {
            assert(l1[k] == a[k]);
        } else if k < a.len() + d.len() {
            assert(l1[k] == d[k - a.len()]);
        } else if k == a.len() + d.len() {
            assert(l1[k] == ' ');
        } else {
            assert(l1[k] == reason(status)[k - a.len() - d.len() - 1]);
        }
    }
    let l3 = length_line(len);
    let b = "Content-Length: "@;
    assert forall|k: int| 0 <= k < l3.len() implies #[trigger] l3[k] != '\r' && l3[k] != '\n' by {
        if k < b.len() {
            assert(l3[k] == b[k]);
        } else {
            assert(l3[k] == dec(len)[k - b.len()]);
        }
    }
}

/// In a response head, no carriage return before the end of the head lines
/// is followed, two places on, by another: the first blank line comes right
/// after the head lines.
proof fn lemma_no_early_blank(status: u16, len: nat)
    ensures
        forall|k: int|
            0 <= k < head_lines(status, len).len() ==> #[trigger] response_head(status, len)[k]
                != '\r' || response_head(status, len)[k + 2] != '\r',
{
    lemma_head_shape(status, len);
    lemma_lines_plain(status, len);
    reveal_strlit("\r\n");
    reveal_strlit("\r\n\r\n");
    reveal_strlit("Content-Type: application/json");
    reveal_strlit("Connection: close");
    let h = response_head(status, len);
    let l1 = status_line(status);
    let l2 = "Content-Type: application/json"@;
    let l3 = length_line(len);
    let l4 = "Connection: close"@;
    let p1 = l1.len() as int;
    let p2 = p1 + 2 + l2.len();
    let p3 = p2 + 2 + l3.len();
    let p = head_lines(status, len).len() as int;
    assert(p == p3 + 2 + l4.len());
    assert forall|k: int| 0 <= k < p implies #[trigger] h[k] != '\r' || h[k + 2] != '\r' by {
        if k < p1 {
            assert(h[k] == l1[k]);
        } else if k == p1 {
            let c = "\r\n"@;
            let x2 = l1 + c + l2;
            let x4 = x2 + c + l3;
            let hl = head_lines(status, len);
            assert(x2[p1 + 2] == l2[0]);
            assert(x4[p1 + 2] == x2[p1 + 2]);
            assert(hl == x4 + c + l4);
            assert(hl[p1 + 2] == x4[p1 + 2]);
            assert(h[k + 2] == hl[p1 + 2]);
        } else if k == p1 + 1 {
            assert(h[k] == '\n');
        } else if k < p2 {
            assert(h[k] == l2[k - p1 - 2]);
        } else if k == p2 {
            assert(h[k + 2] == l3[0]);
        } else if k == p2 + 1 {
            assert(h[k] == '\n');
        } else if k < p3 {
            assert(h[k] == l3[k - p2 - 2]);
        } else if k == p3 {
            let hl = head_lines(status, len);
            assert(hl[p3 + 2] == l4[0]);
            assert(h[k + 2] == hl[p3 + 2]);
        } else if k == p3 + 1 {
            assert(h[k] == '\n');
        } else {
            assert(h[k] == l4[k - p3 - 2]);
        }
    }
}

/// The bytes of a reply as the server frames it.
pub open spec fn framed(status: u16, body: Seq<u8>) -> Seq<u8> {
    encode_utf8(response_head(status, body.len())) + body
}

/// A framed reply is the head, one byte per character, then the body.
proof fn lemma_framed_bytes(status: u16, body: Seq<u8>)
    ensures
        framed(status, body).len() == response_head(status, body.len()).len() + body.len(),
        forall|k: int|
            0 <= k < response_head(status, body.len()).len() ==> #[trigger] framed(status, body)[k]
                == response_head(status, body.len())[k] as u8,
        framed(status, body).subrange(
            response_head(status, body.len()).len() as int,
            framed(status, body).len() as int,
        ) == body,
{
    let h = response_head(status, body.len());
    lemma_head_shape(status, body.len());
    is_ascii_chars_encode_utf8(h);
    let b = framed(status, body);
    assert forall|k: int| 0 <= k < h.len() implies #[trigger] b[k] == h[k] as u8 by {
        assert(b[k] == encode_utf8(h)[k]);
    }
    assert(b.subrange(h.len() as int, b.len() as int) =~= body);
}

/// The end of the head of a framed reply is found right after its lines.
proof fn lemma_head_end_found(status: u16, body: Seq<u8>)
    ensures
        find(framed(status, body), head_end()) == Some(head_lines(status, body.len()).len() as int),
{
    let n = body.len();
    let h = response_head(status, n);
    let b = framed(status, body);
    let p = head_lines(status, n).len() as int;
    lemma_head_shape(status, n);
    lemma_framed_bytes(status, body);
    lemma_no_early_blank(status, n);
    reveal_strlit("\r\n\r\n");
    assert(h[p] == '\r' && h[p + 1] == '\n' && h[p + 2] == '\r' && h[p + 3] == '\n');
    assert(b.subrange(p, p + 4) =~= head_end()) by {
        assert(b[p] == h[p] as u8);
        assert(b[p + 1] == h[p + 1] as u8);
        assert(b[p + 2] == h[p + 2] as u8);
        assert(b[p + 3] == h[p + 3] as u8);
    }
    assert forall|k: int| 0 <= k < p implies #[trigger] b.subrange(k, k + 4) != head_end() by {
        assert(h[k] != '\r' || h[k + 2] != '\r');
        assert(h[k] as u32 <= 127 && h[k + 2] as u32 <= 127);
        assert(b.subrange(k, k + 4)[0] == b[k]);
        assert(b.subrange(k, k + 4)[2] == b[k + 2]);
        assert(b[k] == h[k] as u8);
        assert(b[k + 2] == h[k + 2] as u8);
    }
    lemma_find_at(b, head_end(), 0, p);
}

/// Searching for `\r\n` from `i` finds nothing when no carriage return
/// follows.
proof fn lemma_no_crlf_from(s: Seq<char>, i: int)
    requires
        0 <= i,
        forall|k: int| i <= k < s.len() ==> #[trigger] s[k] != '\r',
    ensures
        find_from(s, "\r\n"@, i) is None,
    decreases s.len() + 1 - i,
{
    reveal_strlit("\r\n");
    if i + 2 <= s.len() {
        assert(s.subrange(i, i + 2)[0] == s[i]);
        lemma_no_crlf_from(s, i + 1);
    }
}

/// Trimming never lengthens.
proof fn lemma_trim_shorter(s: Seq<char>)
    ensures
        trim(s).len() <= s.len(),
{
    lemma_skip_ws_bounds(s, 0);
    lemma_trim_end_bounds(s, s.len() as int);
}

/// A header line whose name, before the `:` at `k`, is not `content-length`
/// (it is shorter) leaves the announced length as it was.
proof fn lemma_other_header(line: Seq<char>, k: int, cur: Option<nat>)
    requires
        0 <= k < line.len(),
        k < 14,
        line[k] == ':',
        forall|i: int| 0 <= i < k ==> #[trigger] line[i] != ':',
    ensures
        line_content_length(line, cur) == cur,
{
    lemma_find_char_at(line, ':', 0, k);
    lemma_trim_shorter(line.subrange(0, k));
    reveal_strlit("content-length");
    assert(lower_all(trim(line.subrange(0, k))).len() < "content-length"@.len());
}

/// The `Content-Length` line announces the length it was written with.
proof fn lemma_length_header(len: nat, cur: Option<nat>)
    requires
        len <= usize::MAX,
    ensures
        line_content_length(length_line(len), cur) == Some(len),
{
    reveal_strlit("Content-Length: ");
    reveal_strlit("Content-Length");
    reveal_strlit("content-length");
    reveal_strlit(" ");
    lemma_dec_plain(len);
    lemma_dec_parses(len);
    let line = length_line(len);
    let d = dec(len);
    assert(line[14] == ':');
    assert forall|i: int| 0 <= i < 14 implies #[trigger] line[i] != ':' by {
        assert(line[i] == "Content-Length: "@[i]);
    }
    lemma_find_char_at(line, ':', 0, 14);
    let name = line.subrange(0, 14);
    assert(name =~= "Content-Length"@);
    assert(!is_ws(name[0]) && !is_ws(name[13]));
    assert(trim(name) =~= name);
    assert(lower_all(name) =~= "content-length"@);
    let value = line.subrange(15, line.len() as int);
    assert(value =~= " "@ + d);
    assert(is_ws(value[0]));
    assert(!is_ws(value[1])) by {
        assert(value[1] == d[0]);
    }
    lemma_skip_ws_at(value, 0, 1);
    assert(!is_ws(value[value.len() - 1])) by {
        assert(value[value.len() - 1] == d[d.len() - 1]);
    }
    assert(trim(value) =~= d);
    assert(parse_unsigned(d, usize::MAX as nat) == Some(len));
}

/// The lines of a response head announce the length of the body.
proof fn lemma_head_announces_length(status: u16, len: nat)
    requires
        len <= usize::MAX,
    ensures
        content_length_of(head_lines(status, len)) == Some(len),
{
    reveal_strlit("\r\n");
    reveal_strlit("Content-Type: application/json");
    reveal_strlit("Connection: close");
    lemma_lines_plain(status, len);
    let hl = head_lines(status, len);
    let c = "\r\n"@;
    let l1 = status_line(status);
    let l2 = "Content-Type: application/json"@;
    let l3 = length_line(len);
    let l4 = "Connection: close"@;
    let p1 = l1.len() as int;
    let p2 = p1 + 2 + l2.len();
    let p3 = p2 + 2 + l3.len();
    let e = hl.len() as int;
    assert(e == p3 + 2 + l4.len());
    assert(hl.subrange(0, p1) =~= l1);
    assert(hl.subrange(p1 + 2, p2) =~= l2);
    assert(hl.subrange(p2 + 2, p3) =~= l3);
    assert(hl.subrange(p3 + 2, e) =~= l4);
    assert(hl.subrange(p1, p1 + 2) =~= c);
    assert(hl.subrange(p2, p2 + 2) =~= c);
    assert(hl.subrange(p3, p3 + 2) =~= c);
    assert forall|k: int| 0 <= k < p1 implies #[trigger] hl.subrange(k, k + 2) != c by {
        assert(hl.subrange(k, k + 2)[0] == hl[k]);
        assert(hl[k] == l1[k]);
    }
    lemma_find_at(hl, c, 0, p1);
    assert forall|k: int| p1 + 2 <= k < p2 implies #[trigger] hl.subrange(k, k + 2) != c by {
        assert(hl.subrange(k, k + 2)[0] == hl[k]);
        assert(hl[k] == l2[k - p1 - 2]);
    }
    lemma_find_at(hl, c, p1 + 2, p2);
    assert forall|k: int| p2 + 2 <= k < p3 implies #[trigger] hl.subrange(k, k + 2) != c by {
        assert(hl.subrange(k, k + 2)[0] == hl[k]);
        assert(hl[k] == l3[k - p2 - 2]);
    }
    lemma_find_at(hl, c, p2 + 2, p3);
    assert forall|k: int| p3 + 2 <= k < e implies #[trigger] hl[k] != '\r' by {
        assert(hl[k] == l4[k - p3 - 2]);
    }
    lemma_no_crlf_from(hl, p3 + 2);
    lemma_find_char_none(l1, ':', 0);
    assert(line_content_length(l1, None) is None);
    assert(l2[12] == ':');
    lemma_other_header(l2, 12, None);
    lemma_length_header(len, None);
    assert(l4[10] == ':');
    lemma_other_header(l4, 10, Some(len));
    assert(content_length_from(hl, p3 + 2, Some(len)) == Some(len));
    assert(content_length_from(hl, p2 + 2, None) == content_length_from(hl, p3 + 2, Some(len)));
    assert(content_length_from(hl, p1 + 2, None) == content_length_from(hl, p2 + 2, None));
    assert(content_length_from(hl, 0, None) == content_length_from(hl, p1 + 2, None));
}

/// A framed reply with a UTF-8 body is UTF-8, and reads as the head
/// followed by the body's text.
proof fn lemma_framed_text(status: u16, body: Seq<u8>)
    requires
        valid_utf8(body),
    ensures
        valid_utf8(framed(status, body)),
        decode_utf8(framed(status, body)) == response_head(status, body.len()) + decode_utf8(body),
{
    let h = response_head(status, body.len());
    let eh = encode_utf8(h);
    let b = framed(status, body);
    lemma_head_shape(status, body.len());
    is_ascii_chars_encode_utf8(h);
    encode_utf8_valid_utf8(h);
    encode_utf8_decode_utf8(h);
    valid_utf8_concat(eh, body);
    let m = eh.len() as int;
    if body.len() > 0 {
        is_char_boundary_start_end_of_seq(body);
        is_char_boundary_iff_not_is_continuation_byte(body, 0);
        assert(b[m] == body[0]);
        is_char_boundary_iff_not_is_continuation_byte(b, m);
    } else {
        is_char_boundary_start_end_of_seq(b);
    }
    decode_utf8_split(b, m);
    assert(b.subrange(0, m) =~= eh);
    assert(b.subrange(m, b.len() as int) =~= body);
}

/// The status code read off a framed reply is the one it was framed with.
proof fn lemma_status_read_len(status: u16, len: nat, rest: Seq<char>)
    ensures
        status_code(response_head(status, len) + rest) == status,
{
    reveal_strlit("HTTP/1.1 ");
    reveal_strlit(" ");
    lemma_head_shape(status, len);
    lemma_lines_plain(status, len);
    lemma_dec_parses(status as nat);
    let text = response_head(status, len) + rest;
    let l1 = status_line(status);
    let d = dec(status as nat);
    let p1 = l1.len() as int;
    assert(text[p1] == '\r' && text[p1 + 1] == '\n') by {
        reveal_strlit("\r\n");
        assert(text[p1] == head_lines(status, len)[p1]);
        assert(text[p1 + 1] == head_lines(status, len)[p1 + 1]);
    }
    assert forall|k: int| 0 <= k < p1 + 1 implies #[trigger] text[k] != '\n' by {
        if k < p1 {
            assert(text[k] == l1[k]);
        }
    }
    lemma_find_char_at(text, '\n', 0, p1 + 1);
    assert(text.subrange(0, p1 + 1).drop_last() =~= l1) by {
        assert forall|k: int| 0 <= k < p1 implies text[k] == l1[k] by {
            assert(text[k] == head_lines(status, len)[k]);
        }
    }
    assert(first_line(text) == l1);
    let q = 9 + d.len() as int;
    assert forall|k: int| 0 <= k < 8 implies !is_ws(#[trigger] l1[k]) by {
        assert(l1[k] == "HTTP/1.1 "@[k]);
    }
    assert(l1[8] == ' ');
    lemma_word_end_at(l1, 0, 8);
    assert(is_digit(d[0]));
    assert(l1[9] == d[0]);
    lemma_skip_ws_at(l1, 8, 9);
    assert forall|k: int| 9 <= k < q implies !is_ws(#[trigger] l1[k]) by {
        assert(l1[k] == d[k - 9]);
        assert(is_digit(d[k - 9]));
    }
    assert(l1[q] == ' ');
    lemma_word_end_at(l1, 9, q);
    assert(word_span_from(l1, 0, 8) == Some((9int, q)));
    assert(word_span_from(l1, 1, 0) == word_span_from(l1, 0, 8));
    assert(nth_word(l1, 1) =~= d);
}

// ---------------------------------------------------------------------------
// Reading replies
// ---------------------------------------------------------------------------

/// What the server sends is what the client reads: a reply framed by
/// `http_response` (its bytes are `framed(status, body)`) and received in one
/// piece is complete once it has arrived, and reads as its status and its
/// body's text, a success exactly for statuses 200 to 299.
pub proof fn law_framed_reply_is_read_back(status: u16, body: Seq<u8>)
    requires
        valid_utf8(body),
        response_head(status, body.len()).len() + body.len() <= usize::MAX,
    ensures
        ({
            let sent = framed(status, body);
            let head_len = response_head(status, body.len()).len();
            let (received, body_start, content_length) = after_chunk(
                Seq::empty(),
                None,
                None,
                sent,
            );
            &&& received == sent
            &&& body_start == Some(head_len as usize)
            &&& content_length == Some(body.len() as usize)
            &&& received.len() >= head_len + body.len()
            &&& reception(received, body_start, content_length) == Ok::<ReceptionView, Seq<char>>(
                if 200 <= status < 300 {
                    ReceptionView::Success(decode_utf8(body))
                } else {
                    ReceptionView::Failure { code: status, body: decode_utf8(body) }
                },
            )
        }),
{
    let n = body.len();
    let h = response_head(status, n);
    let hl = head_lines(status, n);
    let sent = framed(status, body);
    let p = hl.len() as int;
    lemma_head_shape(status, n);
    lemma_framed_bytes(status, body);
    lemma_head_end_found(status, body);
    lemma_head_announces_length(status, n);
    lemma_framed_text(status, body);
    lemma_status_read_len(status, n, decode_utf8(body));
    assert(Seq::<u8>::empty() + sent =~= sent);
    assert(is_ascii_chars(hl)) by {
        assert forall|k: int| 0 <= k < hl.len() implies '\0' <= #[trigger] hl[k] <= '\u{7f}' by {
            assert(hl[k] == h[k]);
        }
    }
    is_ascii_chars_encode_utf8(hl);
    encode_utf8_valid_utf8(hl);
    encode_utf8_decode_utf8(hl);
    assert(sent.subrange(0, p) =~= encode_utf8(hl)) by {
        assert forall|k: int| 0 <= k < p implies sent.subrange(0, p)[k] == encode_utf8(hl)[k] by {
            assert(sent[k] == h[k] as u8);
            assert(h[k] == hl[k]);
        }
    }
    assert(head_text(sent.subrange(0, p)) == hl);
    assert(h.len() == p + 4) by {
        reveal_strlit("\r\n\r\n");
    }
    let (start, end) = body_range(sent, Some(h.len() as usize), Some(n as usize));
    assert(start == h.len() && end == sent.len());
    assert(sent.subrange(start, end) == body);
}

/// How a reply is split into chunks does not matter: a reader that has taken
/// in `r`, in whatever pieces, knows what one that took in `r` at once
/// knows, so after one more chunk `c` it knows what one that took in `r + c`
/// at once knows. With `law_framed_reply_is_read_back`, a framed reply is read
/// back however it arrives.
pub proof fn law_chunking_does_not_matter(r: Seq<u8>, c: Seq<u8>)
    ensures
        ({
            let (r1, start1, length1) = after_chunk(Seq::empty(), None, None, r);
            after_chunk(r1, start1, length1, c) == after_chunk(Seq::empty(), None, None, r + c)
        }),
{
    assert(Seq::<u8>::empty() + r =~= r);
    assert(Seq::<u8>::empty() + (r + c) =~= r + c);
    match find(r, head_end()) {
        Some(idx) => {
            lemma_find_from_extend(r, c, head_end(), 0);
            crate::text::lemma_find_from_bounds(r, head_end(), 0);
            assert((r + c).subrange(0, idx) =~= r.subrange(0, idx));
        },
        None => {},
    }
}

// ---------------------------------------------------------------------------
// The lines of a request
// ---------------------------------------------------------------------------

/// The line at `i` of `s` is `line` when `line` holds no line feed and is
/// followed by `\r\n`; the next line starts after that.
proof fn lemma_line_then(s: Seq<char>, i: int, line: Seq<char>)
    requires
        0 <= i,
        i + line.len() + 2 <= s.len(),
        s.subrange(i, i + line.len()) == line,
        s[i + line.len()] == '\r',
        s[i + line.len() + 1] == '\n',
        lacks(line, '\n'),
    ensures
        line_at(s, i) == (line, i + line.len() + 2),
{
    let j = i + line.len();
    assert forall|k: int| i <= k < j + 1 implies #[trigger] s[k] != '\n' by {
        if k < j {
            assert(s[k] == s.subrange(i, j)[k - i]);
        }
    }
    lemma_find_char_at(s, '\n', i, j + 1);
    assert(s.subrange(i, j + 1).drop_last() =~= line);
}

/// A line whose first character does not lower-case to `a` carries no
/// bearer token.
proof fn lemma_not_authorization(line: Seq<char>)
    requires
        line.len() > 0,
        lower(line[0]) != 'a',
    ensures
        bearer_of_line(line) is None,
{
    reveal_strlit("authorization:");
    let low = lower_all(line);
    if 14 <= low.len() {
        assert(low.subrange(0, 14)[0] != "authorization:"@[0]);
    }
}

/// The `Authorization` line the client writes carries its token as sent.
proof fn lemma_authorization_line(token: Seq<char>)
    requires
        token.len() > 0,
        !is_ws(token.last()),
    ensures
        bearer_of_line("Authorization: Bearer "@ + token) == Some(token),
{
    reveal_strlit("Authorization: Bearer ");
    reveal_strlit("Authorization:");
    reveal_strlit("authorization:");
    reveal_strlit(" Bearer ");
    reveal_strlit("Bearer ");
    reveal_strlit("bearer ");
    let line = "Authorization: Bearer "@ + token;
    assert(line.subrange(0, 14) =~= "Authorization:"@);
    assert(lower_all("Authorization:"@) =~= "authorization:"@);
    let rest = line.subrange(14, line.len() as int);
    assert(rest =~= " Bearer "@ + token);
    assert(!is_ws(rest[1]));
    lemma_skip_ws_at(rest, 0, 1);
    assert(rest[rest.len() - 1] == token.last());
    let t = trim(rest);
    assert(t =~= "Bearer "@ + token);
    assert(t.subrange(0, 7) =~= "Bearer "@);
    assert(lower_all("Bearer "@) =~= "bearer "@);
    assert(t.subrange(7, t.len() as int) =~= token);
}

/// The token a client sends is the one the server reads, so a client request
/// is authorized exactly when the stored token is the client's token (for a
/// token the server can read back, and an address and path without line
/// feeds).
pub proof fn law_sent_token_is_read(
    method: Seq<char>,
    path: Seq<char>,
    api: Seq<char>,
    token: Seq<char>,
    body: Option<Seq<char>>,
    stored: Seq<char>,
)
    requires
        method == "GET"@ || method == "POST"@,
        lacks(path, '\n'),
        lacks(api, '\n'),
        readable_token(token),
    ensures
        bearer_token(request_text(method, path, api, token, body)) == Some(token),
        authorized(Ok(stored), request_text(method, path, api, token, body)) <==> stored == token,
{
    reveal_strlit("GET");
    reveal_strlit("POST");
    reveal_strlit(" ");
    reveal_strlit(" HTTP/1.1");
    reveal_strlit(" HTTP/1.1\r\nHost: ");
    reveal_strlit("Host: ");
    reveal_strlit("\r\n");
    reveal_strlit("\r\nAuthorization: Bearer ");
    reveal_strlit("Authorization: Bearer ");
    reveal_strlit("\r\nConnection: close\r\n");
    let text = request_text(method, path, api, token, body);
    let l1 = method + " "@ + path + " HTTP/1.1"@;
    let l2 = "Host: "@ + api;
    let l3 = "Authorization: Bearer "@ + token;
    let tail = text.subrange((l1.len() + l2.len() + l3.len() + 6) as int, text.len() as int);
    assert(text =~= l1 + "\r\n"@ + l2 + "\r\n"@ + l3 + "\r\n"@ + tail);
    let a = l1.len() as int;
    let b = a + 2 + l2.len();
    let c = b + 2 + l3.len();
    assert(lacks(l1, '\n')) by {
        assert forall|k: int| 0 <= k < l1.len() implies #[trigger] l1[k] != '\n' by {
            if k >= method.len() + 1 && k < method.len() + 1 + path.len() {
                assert(l1[k] == path[k - method.len() - 1]);
            }
        }
    }
    assert(lacks(l2, '\n')) by {
        assert forall|k: int| 0 <= k < l2.len() implies #[trigger] l2[k] != '\n' by {
            if k >= 6 {
                assert(l2[k] == api[k - 6]);
            }
        }
    }
    assert(lacks(l3, '\n')) by {
        assert forall|k: int| 0 <= k < l3.len() implies #[trigger] l3[k] != '\n' by {
            if k >= 22 {
                assert(l3[k] == token[k - 22]);
            }
        }
    }
    assert(text.subrange(0, a) =~= l1);
    assert(text.subrange(a + 2, b) =~= l2);
    assert(text.subrange(b + 2, c) =~= l3);
    lemma_line_then(text, 0, l1);
    lemma_line_then(text, a + 2, l2);
    lemma_line_then(text, b + 2, l3);
    lemma_not_authorization(l1);
    lemma_not_authorization(l2);
    lemma_authorization_line(token);
    assert(bearer_from(text, b + 2) == Some(token));
    assert(bearer_from(text, a + 2) == bearer_from(text, b + 2));
    assert(bearer_from(text, 0) == bearer_from(text, a + 2));
}

/// Whether the server can read `token` back from an `Authorization` line:
/// it is non-empty, holds no line feed, and does not end in whitespace
/// (which trimming the line would drop).
pub open spec fn readable_token(token: Seq<char>) -> bool {
    token.len() > 0 && lacks(token, '\n') && !is_ws(token.last())
}

/// The request line the client writes.
pub open spec fn request_line(method: Seq<char>, path: Seq<char>) -> Seq<char> {
    method + " "@ + path + " HTTP/1.1"@
}

/// Whether no character of `s` is whitespace.
pub open spec fn no_ws(s: Seq<char>) -> bool {
    forall|k: int| 0 <= k < s.len() ==> !is_ws(#[trigger] s[k])
}

/// The server reads the method and path of a client request as the client
/// wrote them.
proof fn lemma_request_line(
    method: Seq<char>,
    path: Seq<char>,
    api: Seq<char>,
    token: Seq<char>,
    body: Option<Seq<char>>,
)
    requires
        method == "GET"@ || method == "POST"@,
        path.len() > 0,
        no_ws(path),
    ensures
        first_line(request_text(method, path, api, token, body)) == request_line(method, path),
        nth_word(request_line(method, path), 0) == method,
        nth_word(request_line(method, path), 1) == path,
{
    reveal_strlit("GET");
    reveal_strlit("POST");
    reveal_strlit(" ");
    reveal_strlit(" HTTP/1.1");
    reveal_strlit(" HTTP/1.1\r\nHost: ");
    let text = request_text(method, path, api, token, body);
    let l1 = request_line(method, path);
    let m = method.len() as int;
    let q = m + 1 + path.len();
    assert forall|k: int| 0 <= k < l1.len() implies #[trigger] l1[k] != '\n' by {
        if m + 1 <= k < q {
            assert(l1[k] == path[k - m - 1]);
            assert(!is_ws(path[k - m - 1]));
        }
    }
    assert(text.subrange(0, l1.len() as int) =~= l1);
    assert(text[l1.len() as int] == '\r' && text[l1.len() as int + 1] == '\n');
    lemma_line_then(text, 0, l1);
    assert forall|k: int| 0 <= k < m implies !is_ws(#[trigger] l1[k]) by {
        assert(l1[k] == method[k]);
    }
    lemma_word_end_at(l1, 0, m);
    assert(word_span_from(l1, 0, 0) == Some((0int, m)));
    assert(l1.subrange(0, m) =~= method);
    assert(l1[m + 1] == path[0]);
    lemma_skip_ws_at(l1, m, m + 1);
    assert forall|k: int| m + 1 <= k < q implies !is_ws(#[trigger] l1[k]) by {
        assert(l1[k] == path[k - m - 1]);
    }
    assert(l1[q] == ' ');
    lemma_word_end_at(l1, m + 1, q);
    assert(word_span_from(l1, 0, m) == Some((m + 1, q)));
    assert(word_span_from(l1, 1, 0) == word_span_from(l1, 0, m));
    assert(l1.subrange(m + 1, q) =~= path);
}

/// Text without line feeds, then a blank line: the blank line is found right
/// after the text.
proof fn lemma_last_line(line: Seq<char>, rest: Seq<char>)
    requires
        lacks(line, '\n'),
    ensures
        find(line + "\r\n\r\n"@ + rest, "\r\n\r\n"@) == Some(line.len() as int),
{
    reveal_strlit("\r\n\r\n");
    let pat = "\r\n\r\n"@;
    let s = line + pat + rest;
    assert(s.subrange(line.len() as int, line.len() as int + 4) =~= pat);
    assert forall|k: int| 0 <= k < line.len() implies #[trigger] s.subrange(k, k + 4) != pat by {
        assert(s.subrange(k, k + 4)[1] == s[k + 1]);
        if k + 1 < line.len() {
            assert(s[k + 1] == line[k + 1]);
        }
    }
    lemma_find_at(s, pat, 0, line.len() as int);
}

/// Putting a line without line feeds, and `\r\n`, in front of text that
/// does not start with a carriage return moves the text's first blank line
/// by as much.
proof fn lemma_prepend_line(line: Seq<char>, rest: Seq<char>, j: int)
    requires
        lacks(line, '\n'),
        rest.len() > 0,
        rest[0] != '\r',
        find(rest, "\r\n\r\n"@) == Some(j),
    ensures
        find(line + "\r\n"@ + rest, "\r\n\r\n"@) == Some(line.len() + 2 + j),
{
    reveal_strlit("\r\n");
    reveal_strlit("\r\n\r\n");
    let pat = "\r\n\r\n"@;
    let head = line + "\r\n"@;
    let s = head + rest;
    let h = head.len() as int;
    crate::text::lemma_find_from_bounds(rest, pat, 0);
    assert forall|k: int| 0 <= k < h implies #[trigger] s.subrange(k, k + 4) != pat by {
        if k < line.len() {
            assert(s.subrange(k, k + 4)[1] == s[k + 1]);
            if k + 1 < line.len() {
                assert(s[k + 1] == line[k + 1]);
            }
        } else if k == line.len() {
            assert(s.subrange(k, k + 4)[2] == rest[0]);
        } else {
            assert(s.subrange(k, k + 4)[0] == '\n');
        }
    }
    lemma_find_skip(s, pat, 0, h);
    lemma_find_shift(head, rest, pat, 0);
}

/// The server reads the body of a client request as the client wrote it
/// (when the path, address and token hold no line feed).
proof fn lemma_request_body(
    method: Seq<char>,
    path: Seq<char>,
    api: Seq<char>,
    token: Seq<char>,
    b: Seq<char>,
)
    requires
        method == "GET"@ || method == "POST"@,
        lacks(path, '\n'),
        lacks(api, '\n'),
        lacks(token, '\n'),
    ensures
        request_body(request_text(method, path, api, token, Some(b))) == Some(b),
{
    reveal_strlit("GET");
    reveal_strlit("POST");
    reveal_strlit(" ");
    reveal_strlit(" HTTP/1.1");
    reveal_strlit(" HTTP/1.1\r\nHost: ");
    reveal_strlit("Host: ");
    reveal_strlit("\r\n");
    reveal_strlit("\r\n\r\n");
    reveal_strlit("\r\nAuthorization: Bearer ");
    reveal_strlit("Authorization: Bearer ");
    reveal_strlit("\r\nConnection: close\r\n");
    reveal_strlit("Connection: close");
    reveal_strlit("Content-Type: application/json\r\nContent-Length: ");
    reveal_strlit("Content-Type: application/json");
    reveal_strlit("Content-Length: ");
    let len = encode_utf8(b).len();
    lemma_lines_plain(0, len);
    let c = "\r\n"@;
    let cc = "\r\n\r\n"@;
    let s1 = request_line(method, path);
    let s2 = "Host: "@ + api;
    let s3 = "Authorization: Bearer "@ + token;
    let s4 = "Connection: close"@;
    let s5 = "Content-Type: application/json"@;
    let s6 = length_line(len);
    let text = request_text(method, path, api, token, Some(b));
    let r6 = s6 + cc + b;
    let r5 = s5 + c + r6;
    let r4 = s4 + c + r5;
    let r3 = s3 + c + r4;
    let r2 = s2 + c + r3;
    assert(text =~= s1 + c + r2);
    assert(lacks(s1, '\n')) by {
        assert forall|k: int| 0 <= k < s1.len() implies #[trigger] s1[k] != '\n' by {
            if method.len() + 1 <= k < method.len() + 1 + path.len() {
                assert(s1[k] == path[k - method.len() - 1]);
            }
        }
    }
    assert(lacks(s2, '\n')) by {
        assert forall|k: int| 0 <= k < s2.len() implies #[trigger] s2[k] != '\n' by {
            if k >= 6 {
                assert(s2[k] == api[k - 6]);
            }
        }
    }
    assert(lacks(s3, '\n')) by {
        assert forall|k: int| 0 <= k < s3.len() implies #[trigger] s3[k] != '\n' by {
            if k >= 22 {
                assert(s3[k] == token[k - 22]);
            }
        }
    }
    lemma_last_line(s6, b);
    assert(r6 == s6 + cc + b);
    lemma_prepend_line(s5, r6, s6.len() as int);
    lemma_prepend_line(s4, r5, (s5.len() + 2 + s6.len()) as int);
    lemma_prepend_line(s3, r4, (s4.len() + 2 + s5.len() + 2 + s6.len()) as int);
    assert(r3[0] == 'A');
    lemma_prepend_line(s2, r3, (s3.len() + 2 + s4.len() + 2 + s5.len() + 2 + s6.len()) as int);
    assert(r2[0] == 'H');
    lemma_prepend_line(
        s1,
        r2,
        (s2.len() + 2 + s3.len() + 2 + s4.len() + 2 + s5.len() + 2 + s6.len()) as int,
    );
    let j = text.len() - b.len() - 4;
    assert(find(text, cc) == Some(j));
    assert(text.subrange(j + 4, text.len() as int) =~= b);
}

/// The query of a list command holds no whitespace, `?` or `/`.
proof fn lemma_list_query_plain(status: Option<Seq<char>>, assignee: Option<Seq<char>>)
    ensures
        forall|k: int|
            0 <= k < list_query(status, assignee).len() ==> {
                let c = #[trigger] list_query(status, assignee)[k];
                !is_ws(c) && c != '?' && c != '/'
            },
{
    reveal_strlit("status=");
    reveal_strlit("assignee=");
    reveal_strlit("&");
    let q = list_query(status, assignee);
    let s = match status {
        Some(v) => "status="@ + url_encoded(v),
        None => Seq::<char>::empty(),
    };
    let plain = |c: char| !is_ws(c) && c != '?' && c != '/';
    assert forall|k: int| 0 <= k < s.len() implies plain(#[trigger] s[k]) by {
        if let Some(v) = status {
            lemma_encoded_safe(encode_utf8(v));
            if k >= 7 {
                assert(s[k] == url_encoded(v)[k - 7]);
                assert(url_safe(url_encoded(v)[k - 7]));
            }
        }
    }
    if let Some(a) = assignee {
        lemma_encoded_safe(encode_utf8(a));
        let t = "assignee="@ + url_encoded(a);
        assert forall|k: int| 0 <= k < t.len() implies plain(#[trigger] t[k]) by {
            if k >= 9 {
                assert(t[k] == url_encoded(a)[k - 9]);
                assert(url_safe(url_encoded(a)[k - 9]));
            }
        }
        if s.len() > 0 {
            assert forall|k: int| 0 <= k < q.len() implies plain(#[trigger] q[k]) by {
                if k < s.len() {
                    assert(q[k] == s[k]);
                } else if k > s.len() {
                    assert(q[k] == t[k - s.len() - 1]);
                }
            }
        }
    }
}

/// Where the server routes each call the client plans.
proof fn lemma_planned_target(
    cmd: Seq<char>,
    id: Option<u64>,
    title: Option<Seq<char>>,
    body: Option<Seq<char>>,
    reporter: Option<Seq<char>>,
    assignee: Option<Seq<char>>,
    status: Option<Seq<char>>,
    author: Option<Seq<char>>,
    api: Seq<char>,
    token: Seq<char>,
    sent: Option<Seq<char>>,
)
    requires
        plan(cmd, id, title, body, reporter, assignee, status, author) is Ok,
    ensures
        match plan(cmd, id, title, body, reporter, assignee, status, author) {
            Ok(c) => {
                &&& c.method == "GET"@ || c.method == "POST"@
                &&& c.path.len() > 0
                &&& no_ws(c.path)
                &&& route_target(request_text(c.method, c.path, api, token, sent)) == match c.kind {
                    CallKind::List => TargetView::List { query: list_query(status, assignee) },
                    CallKind::New => TargetView::Create,
                    CallKind::Show => TargetView::Show { id: dec(id->0 as nat) },
                    CallKind::Status => TargetView::SetStatus { id: dec(id->0 as nat) },
                    CallKind::Comment => TargetView::Comment { id: dec(id->0 as nat) },
                }
            },
            Err(_) => true,
        },
{
    reveal_strlit("list");
    reveal_strlit("new");
    reveal_strlit("show");
    reveal_strlit("status");
    reveal_strlit("comment");
    reveal_strlit("GET");
    reveal_strlit("POST");
    reveal_strlit("/v1/tickets");
    reveal_strlit("/v1/tickets?");
    reveal_strlit("/v1/tickets/");
    reveal_strlit("/status");
    reveal_strlit("/comment");
    let c = plan(cmd, id, title, body, reporter, assignee, status, author)->Ok_0;
    let path = c.path;
    let tickets = "/v1/tickets"@;
    if c.kind == CallKind::List {
        let q = list_query(status, assignee);
        lemma_list_query_plain(status, assignee);
        if q.len() == 0 {
            assert(path == tickets);
            crate::text::lemma_find_char_none(path, '?', 0);
            assert(path_and_query(path) == (path, q));
        } else {
            assert(path == "/v1/tickets?"@ + q);
            assert(path[11] == '?');
            crate::text::lemma_find_char_at(path, '?', 0, 11);
            assert(path.subrange(0, 11) =~= tickets);
            assert(path.subrange(12, path.len() as int) =~= q);
            assert forall|k: int| 0 <= k < path.len() implies !is_ws(#[trigger] path[k]) by {
                if k >= 12 {
                    assert(path[k] == q[k - 12]);
                }
            }
        }
        lemma_request_line(c.method, path, api, token, sent);
    } else if c.kind == CallKind::New {
        crate::text::lemma_find_char_none(path, '?', 0);
        lemma_request_line(c.method, path, api, token, sent);
    } else {
        let n = id->0;
        let d = dec(n as nat);
        lemma_dec_parses(n as nat);
        let prefix = "/v1/tickets/"@;
        assert forall|k: int| 0 <= k < d.len() implies !is_ws(#[trigger] d[k]) && d[k] != '?' && d[k]
            != '/' by {
            assert(is_digit(d[k]));
        }
        let sfx = if c.kind == CallKind::Show {
            Seq::<char>::empty()
        } else if c.kind == CallKind::Status {
            "/status"@
        } else {
            "/comment"@
        };
        assert(path =~= prefix + d + sfx);
        assert forall|k: int| 0 <= k < path.len() implies !is_ws(#[trigger] path[k]) && path[k] != '?' by {
            if 12 <= k < 12 + d.len() {
                assert(path[k] == d[k - 12]);
            }
        }
        crate::text::lemma_find_char_none(path, '?', 0);
        lemma_request_line(c.method, path, api, token, sent);
        assert(path.subrange(0, 12) =~= prefix);
        assert(path != tickets);
        if c.kind == CallKind::Show {
            assert(path.subrange(12, path.len() as int) =~= d);
            assert(!d.contains('/'));
        } else if c.kind == CallKind::Status {
            assert(path.subrange(path.len() - 7, path.len() as int) =~= "/status"@);
            assert(path.subrange(12, path.len() - 7) =~= d);
            assert(!d.contains('/'));
        } else {
            assert(path.subrange(path.len() - 7, path.len() as int) != "/status"@) by {
                assert(path.subrange(path.len() - 7, path.len() as int)[0] == 'c');
            }
            assert(path.subrange(path.len() - 8, path.len() as int) =~= "/comment"@);
            assert(path.subrange(12, path.len() - 8) =~= d);
            assert(!d.contains('/'));
        }
    }
}

/// The client and the server agree on the API: once the server accepts the
/// token, it handles each call the client plans as the command meant.
/// `list` loads the tickets to filter them by the command's filters, `new`
/// decodes the sent body as a new ticket, `show` loads the tickets to show
/// the command's id, and `status` and `comment` decode the sent body as the
/// new status of, or a comment on, the command's id. (For ASCII filters, an
/// address without line feeds and a token the server can read back.)
pub proof fn law_planned_calls_are_served(
    cmd: Seq<char>,
    id: Option<u64>,
    title: Option<Seq<char>>,
    body: Option<Seq<char>>,
    reporter: Option<Seq<char>>,
    assignee: Option<Seq<char>>,
    status: Option<Seq<char>>,
    author: Option<Seq<char>>,
    api: Seq<char>,
    token: Seq<char>,
    sent: Seq<char>,
)
    requires
        plan(cmd, id, title, body, reporter, assignee, status, author) is Ok,
        status matches Some(s) ==> is_ascii_chars(s),
        assignee matches Some(a) ==> is_ascii_chars(a),
        lacks(api, '\n'),
        readable_token(token),
    ensures
        match plan(cmd, id, title, body, reporter, assignee, status, author) {
            Ok(c) => {
                let request = request_text(
                    c.method,
                    c.path,
                    api,
                    token,
                    match c.body {
                        Some(_) => Some(sent),
                        None => None,
                    },
                );
                let e = EventView::Label(Ok(token));
                &&& next(StateView::Authorizing { request }, e) == match c.kind {
                    CallKind::List => load_tickets_then(PendingView::List { status, assignee }),
                    CallKind::New => (
                        StateView::AwaitNewTicket,
                        ActionView::ParseNewTicket { body: sent },
                    ),
                    CallKind::Show => load_tickets_then(PendingView::Show { id: id->0 }),
                    CallKind::Status => (
                        StateView::AwaitStatusBody { id: id->0 },
                        ActionView::ParseStatusBody { body: sent },
                    ),
                    CallKind::Comment => (
                        StateView::AwaitCommentBody { id: id->0 },
                        ActionView::ParseCommentBody { body: sent },
                    ),
                }
            },
            Err(_) => true,
        },
{
    let c = plan(cmd, id, title, body, reporter, assignee, status, author)->Ok_0;
    let sb = match c.body {
        Some(_) => Some(sent),
        None => None,
    };
    lemma_planned_target(cmd, id, title, body, reporter, assignee, status, author, api, token, sb);
    assert(lacks(c.path, '\n')) by {
        assert forall|k: int| 0 <= k < c.path.len() implies #[trigger] c.path[k] != '\n' by {
            assert(!is_ws(c.path[k]));
        }
    }
    law_sent_token_is_read(c.method, c.path, api, token, sb, token);
    let request = request_text(c.method, c.path, api, token, sb);
    if c.kind == CallKind::List {
        law_list_filters_roundtrip(status, assignee);
    } else if c.kind != CallKind::Show {
        lemma_request_body(c.method, c.path, api, token, sent);
    }
    if c.kind == CallKind::Show || c.kind == CallKind::Status || c.kind == CallKind::Comment {
        lemma_dec_parses(id->0 as nat);
    }
}

} // verus!
