//! Character- and byte-level text utilities shared by the server and client.

use vstd::prelude::*;
use vstd::utf8::*;

verus! {

/// Unicode `White_Space` code points, as `char::is_whitespace` reports them.
pub open spec fn is_ws(c: char) -> bool {
    let u = c as u32;
    ||| 0x09 <= u <= 0x0D
    ||| u == 0x20
    ||| u == 0x85
    ||| u == 0xA0
    ||| u == 0x1680
    ||| 0x2000 <= u <= 0x200A
    ||| u == 0x2028
    ||| u == 0x2029
    ||| u == 0x202F
    ||| u == 0x205F
    ||| u == 0x3000
}

/// Decides `is_ws`.
pub fn is_whitespace(c: char) -> (b: bool)
    ensures
        b == is_ws(c),
{
    let u = c as u32;
    (0x09 <= u && u <= 0x0D) || u == 0x20 || u == 0x85 || u == 0xA0 || u == 0x1680 || (0x2000
        <= u && u <= 0x200A) || u == 0x2028 || u == 0x2029 || u == 0x202F || u == 0x205F || u
        == 0x3000
}

/// Appends one character to a string (`String::push`).
#[verifier::external_body]
pub(crate) fn push_char(s: &mut String, c: char)
    ensures
        final(s)@ == old(s)@.push(c),
{
    s.push(c);
}

/// Decodes UTF-8 (`core::str::from_utf8`): succeeds exactly on valid UTF-8,
/// and then yields the decoded characters.
#[verifier::external_body]
pub(crate) fn str_from_utf8(bytes: &[u8]) -> (r: Option<&str>)
    ensures
        r is Some <==> valid_utf8(bytes@),
        r matches Some(s) ==> s@ == decode_utf8(bytes@),
{
    core::str::from_utf8(bytes).ok()
}

/// The characters of a string slice, in order.
pub fn chars_of(s: &str) -> (v: Vec<char>)
    ensures
        v@ == s@,
{
    let mut v: Vec<char> = Vec::new();
    for c in it: s.chars()
        invariant
            v@ == it.seq().take(it.index() as int),
    {
        v.push(c);
    }
    v
}

} // verus!
verus! {

// ---------------------------------------------------------------------------
// Searching
// ---------------------------------------------------------------------------

/// The first position at or after `i` where `pat` occurs in `s`.
pub open spec fn find_from<A>(s: Seq<A>, pat: Seq<A>, i: int) -> Option<int>
    decreases s.len() + 1 - i,
{
    if i < 0 || i + pat.len() > s.len() {
        None
    } else if s.subrange(i, i + pat.len()) == pat {
        Some(i)
    } else {
        find_from(s, pat, i + 1)
    }
}

/// The first position where `pat` occurs in `s`.
pub open spec fn find<A>(s: Seq<A>, pat: Seq<A>) -> Option<int> {
    find_from(s, pat, 0)
}

/// `usize` result of a search, read as an integer position.
pub open spec fn pos_of(r: Option<usize>) -> Option<int> {
    match r {
        Some(i) => Some(i as int),
        None => None,
    }
}

pub proof fn lemma_find_from_bounds<A>(s: Seq<A>, pat: Seq<A>, i: int)
    ensures
        find_from(s, pat, i) matches Some(j) ==> i <= j && j + pat.len() <= s.len() && s.subrange(j, j + pat.len()) == pat,
    decreases s.len() + 1 - i,
{
    if i < 0 || i + pat.len() > s.len() {
    } else if s.subrange(i, i + pat.len()) == pat {
    } else {
        lemma_find_from_bounds(s, pat, i + 1);
    }
}

/// Whether `pat` occurs in `s` at position `i`.
pub fn chars_match_at(s: &[char], pat: &[char], i: usize) -> (b: bool)
    requires
        i + pat@.len() <= s@.len(),
    ensures
        b == (s@.subrange(i as int, i + pat@.len()) == pat@),
{
    let n = s.len();
    let mut k: usize = 0;
    while k < pat.len()
        invariant
            n == s@.len(),
            i + pat@.len() <= s@.len(),
            k <= pat@.len(),
            forall|j: int| 0 <= j < k ==> s@[i + j] == pat@[j],
        decreases pat.len() - k,
    {
        if s[i + k] != pat[k] {
            assert(s@.subrange(i as int, i + pat@.len())[k as int] != pat@[k as int]);
            return false;
        }
        k = k + 1;
    }
    assert(s@.subrange(i as int, i + pat@.len()) =~= pat@);
    true
}

/// Searches `s` for `pat` from position `start` on.
pub fn find_chars_from(s: &[char], pat: &[char], start: usize) -> (r: Option<usize>)
    ensures
        pos_of(r) == find_from(s@, pat@, start as int),
{
    let n = s.len();
    if pat.len() > n {
        return None;
    }
    if pat.len() == 0 {
        if start <= n {
            assert(s@.subrange(start as int, start as int) =~= pat@);
            return Some(start);
        }
        return None;
    }
    let mut i = start;
    while i <= n - pat.len()
        invariant
            n == s@.len(),
            0 < pat@.len() <= s@.len(),
            start <= i,
            find_from(s@, pat@, i as int) == find_from(s@, pat@, start as int),
        decreases n - i,
    {
        if chars_match_at(s, pat, i) {
            return Some(i);
        }
        i = i + 1;
    }
    None
}

/// Searches `s` for the first occurrence of `pat`.
pub fn find_chars(s: &[char], pat: &[char]) -> (r: Option<usize>)
    ensures
        pos_of(r) == find(s@, pat@),
{
    find_chars_from(s, pat, 0)
}

/// Whether two character sequences are equal.
pub fn chars_eq(a: &[char], b: &[char]) -> (r: bool)
    ensures
        r == (a@ == b@),
{
    if a.len() != b.len() {
        return false;
    }
    let r = chars_match_at(a, b, 0);
    assert(a@.subrange(0, b@.len() as int) =~= a@);
    r
}

/// Whether `s` begins with `pat`.
pub fn starts_with(s: &[char], pat: &[char]) -> (r: bool)
    ensures
        r == (pat@.len() <= s@.len() && s@.subrange(0, pat@.len() as int) == pat@),
{
    if pat.len() > s.len() {
        return false;
    }
    chars_match_at(s, pat, 0)
}

/// Whether `s` ends with `pat`.
pub fn ends_with(s: &[char], pat: &[char]) -> (r: bool)
    ensures
        r == (pat@.len() <= s@.len() && s@.subrange(s@.len() - pat@.len(), s@.len() as int)
            == pat@),
{
    if pat.len() > s.len() {
        return false;
    }
    chars_match_at(s, pat, s.len() - pat.len())
}

/// Whether `c` occurs in `s`.
pub fn contains_char(s: &[char], c: char) -> (r: bool)
    ensures
        r == s@.contains(c),
{
    let mut i: usize = 0;
    while i < s.len()
        invariant
            i <= s@.len(),
            forall|j: int| 0 <= j < i ==> s@[j] != c,
        decreases s.len() - i,
    {
        if s[i] == c {
            assert(s@[i as int] == c);
            return true;
        }
        i = i + 1;
    }
    false
}

/// A copy of `s[lo..hi]`.
pub fn sub_chars(s: &[char], lo: usize, hi: usize) -> (v: Vec<char>)
    requires
        lo <= hi <= s@.len(),
    ensures
        v@ == s@.subrange(lo as int, hi as int),
{
    let mut v: Vec<char> = Vec::new();
    let mut i = lo;
    while i < hi
        invariant
            lo <= i <= hi <= s@.len(),
            v@ == s@.subrange(lo as int, i as int),
        decreases hi - i,
    {
        v.push(s[i]);
        assert(s@.subrange(lo as int, i + 1) =~= s@.subrange(lo as int, i as int).push(s@[i as int]));
        i = i + 1;
    }
    v
}

/// A string holding exactly the characters of `v`.
pub fn string_of(v: &[char]) -> (s: String)
    ensures
        s@ == v@,
{
    let mut s = String::new();
    let mut i: usize = 0;
    while i < v.len()
        invariant
            i <= v@.len(),
            s@ == v@.subrange(0, i as int),
        decreases v.len() - i,
    {
        push_char(&mut s, v[i]);
        assert(v@.subrange(0, i + 1) =~= v@.subrange(0, i as int).push(v@[i as int]));
        i = i + 1;
    }
    assert(v@.subrange(0, v@.len() as int) =~= v@);
    s
}

/// The UTF-8 encoding of a string, as an owned byte vector.
pub fn utf8_bytes(s: &str) -> (b: Vec<u8>)
    ensures
        b@ == encode_utf8(s@),
{
    let bytes = s.as_bytes();
    let mut b: Vec<u8> = Vec::new();
    let mut i: usize = 0;
    while i < bytes.len()
        invariant
            i <= bytes@.len(),
            bytes@ == encode_utf8(s@),
            b@ == bytes@.subrange(0, i as int),
        decreases bytes.len() - i,
    {
        b.push(bytes[i]);
        assert(bytes@.subrange(0, i + 1) =~= bytes@.subrange(0, i as int).push(bytes@[i as int]));
        i = i + 1;
    }
    assert(bytes@.subrange(0, bytes@.len() as int) =~= bytes@);
    b
}

// ---------------------------------------------------------------------------
// Whitespace-separated words and trimming
// ---------------------------------------------------------------------------

/// The first position at or after `i` that is not whitespace (or the end).
pub open spec fn skip_ws_from(s: Seq<char>, i: int) -> int
    decreases s.len() - i,
{
    if i < 0 || i >= s.len() || !is_ws(s[i]) {
        i
    } else {
        skip_ws_from(s, i + 1)
    }
}

/// The first position at or after `i` that is whitespace (or the end).
pub open spec fn word_end_from(s: Seq<char>, i: int) -> int
    decreases s.len() - i,
{
    if i < 0 || i >= s.len() || is_ws(s[i]) {
        i
    } else {
        word_end_from(s, i + 1)
    }
}

/// The span of the `n`-th whitespace-separated word at or after position `i`.
pub open spec fn word_span_from(s: Seq<char>, n: nat, i: int) -> Option<(int, int)>
    decreases n,
{
    let a = skip_ws_from(s, i);
    if a < 0 || a >= s.len() {
        None
    } else {
        let b = word_end_from(s, a);
        if n == 0 {
            Some((a, b))
        } else {
            word_span_from(s, (n - 1) as nat, b)
        }
    }
}

/// The `n`-th word of `s` as `str::split_whitespace` yields it, or the empty
/// sequence when `s` has fewer words.
pub open spec fn nth_word(s: Seq<char>, n: nat) -> Seq<char> {
    match word_span_from(s, n, 0) {
        Some((a, b)) => s.subrange(a, b),
        None => Seq::empty(),
    }
}

/// `s` without leading and trailing whitespace (`str::trim`).
pub open spec fn trim(s: Seq<char>) -> Seq<char> {
    let a = skip_ws_from(s, 0);
    let e = trim_end_from(s, s.len() as int);
    if a >= e {
        Seq::empty()
    } else {
        s.subrange(a, e)
    }
}

/// The end of `s[..j]` once trailing whitespace is removed.
pub open spec fn trim_end_from(s: Seq<char>, j: int) -> int
    decreases j,
{
    if j <= 0 || j > s.len() || !is_ws(s[j - 1]) {
        j
    } else {
        trim_end_from(s, j - 1)
    }
}

pub proof fn lemma_skip_ws_bounds(s: Seq<char>, i: int)
    requires
        0 <= i <= s.len(),
    ensures
        i <= skip_ws_from(s, i) <= s.len(),
    decreases s.len() - i,
{
    if i < s.len() && is_ws(s[i]) {
        lemma_skip_ws_bounds(s, i + 1);
    }
}

pub proof fn lemma_word_end_bounds(s: Seq<char>, i: int)
    requires
        0 <= i <= s.len(),
    ensures
        i <= word_end_from(s, i) <= s.len(),
    decreases s.len() - i,
{
    if i < s.len() && !is_ws(s[i]) {
        lemma_word_end_bounds(s, i + 1);
    }
}

pub proof fn lemma_trim_end_bounds(s: Seq<char>, j: int)
    requires
        0 <= j <= s.len(),
    ensures
        0 <= trim_end_from(s, j) <= j,
    decreases j,
{
    if j > 0 && is_ws(s[j - 1]) {
        lemma_trim_end_bounds(s, j - 1);
    }
}

/// The first non-whitespace position at or after `i`.
pub fn skip_ws(s: &[char], i: usize) -> (r: usize)
    requires
        i <= s@.len(),
    ensures
        r as int == skip_ws_from(s@, i as int),
        i <= r <= s@.len(),
{
    let n = s.len();
    let mut k = i;
    while k < n && is_whitespace(s[k])
        invariant
            n == s@.len(),
            i <= k <= n,
            skip_ws_from(s@, k as int) == skip_ws_from(s@, i as int),
        decreases n - k,
    {
        k = k + 1;
    }
    k
}

/// The first whitespace position at or after `i`.
pub fn word_end(s: &[char], i: usize) -> (r: usize)
    requires
        i <= s@.len(),
    ensures
        r as int == word_end_from(s@, i as int),
        i <= r <= s@.len(),
{
    let n = s.len();
    let mut k = i;
    while k < n && !is_whitespace(s[k])
        invariant
            n == s@.len(),
            i <= k <= n,
            word_end_from(s@, k as int) == word_end_from(s@, i as int),
        decreases n - k,
    {
        k = k + 1;
    }
    k
}

/// The `n`-th whitespace-separated word of `s`, empty when there is none.
pub fn nth_word_of(s: &[char], n: usize) -> (w: Vec<char>)
    ensures
        w@ == nth_word(s@, n as nat),
{
    let mut i: usize = 0;
    let mut left = n;
    loop
        invariant
            i <= s@.len(),
            left <= n,
            word_span_from(s@, left as nat, i as int) == word_span_from(s@, n as nat, 0),
        decreases left,
    {
        let a = skip_ws(s, i);
        if a >= s.len() {
            return Vec::new();
        }
        let b = word_end(s, a);
        if left == 0 {
            return sub_chars(s, a, b);
        }
        left = left - 1;
        i = b;
    }
}

/// `s` with surrounding whitespace removed.
pub fn trim_chars(s: &[char]) -> (t: Vec<char>)
    ensures
        t@ == trim(s@),
{
    let a = skip_ws(s, 0);
    let mut e = s.len();
    while e > 0 && is_whitespace(s[e - 1])
        invariant
            e <= s@.len(),
            trim_end_from(s@, e as int) == trim_end_from(s@, s@.len() as int),
        decreases e,
    {
        e = e - 1;
    }
    if a >= e {
        Vec::new()
    } else {
        sub_chars(s, a, e)
    }
}

// ---------------------------------------------------------------------------
// Lines
// ---------------------------------------------------------------------------

/// `line` without one trailing carriage return.
pub open spec fn strip_cr(line: Seq<char>) -> Seq<char> {
    if line.len() > 0 && line.last() == '\r' {
        line.drop_last()
    } else {
        line
    }
}

/// The line starting at `i` and the position where the next line starts, as
/// `str::lines` splits: at each `\n`, dropping a `\r` just before it.
pub open spec fn line_at(s: Seq<char>, i: int) -> (Seq<char>, int) {
    match find_from(s, seq!['\n'], i) {
        Some(j) => (strip_cr(s.subrange(i, j)), j + 1),
        None => (s.subrange(i, s.len() as int), s.len() as int),
    }
}

/// The first line of `s` (empty when `s` is empty).
pub open spec fn first_line(s: Seq<char>) -> Seq<char> {
    line_at(s, 0).0
}

pub proof fn lemma_line_at_advances(s: Seq<char>, i: int)
    requires
        0 <= i < s.len(),
    ensures
        i < line_at(s, i).1 <= s.len(),
{
    lemma_find_from_bounds(s, seq!['\n'], i);
}

/// The line of `s` starting at `i`, and where the next one starts.
pub fn line_at_exec(s: &[char], i: usize) -> (r: (Vec<char>, usize))
    requires
        i <= s@.len(),
    ensures
        r.0@ == line_at(s@, i as int).0,
        r.1 as int == line_at(s@, i as int).1,
{
    let n = s.len();
    let nl = ['\n'];
    let f = find_chars_from(s, &nl, i);
    assert(nl@ =~= seq!['\n']);
    proof {
        lemma_find_from_bounds(s@, seq!['\n'], i as int);
    }
    match f {
        Some(j) => {
            let mut line = sub_chars(s, i, j);
            if line.len() > 0 && line[line.len() - 1] == '\r' {
                line.pop();
                assert(line@ =~= s@.subrange(i as int, j as int).drop_last());
            }
            assert(j < n);
            (line, j + 1)
        },
        None => (sub_chars(s, i, s.len()), s.len()),
    }
}

// ---------------------------------------------------------------------------
// ASCII case
// ---------------------------------------------------------------------------

/// `char::to_ascii_lowercase`.
pub open spec fn lower(c: char) -> char {
    if 'A' <= c <= 'Z' {
        ((c as u32) + 32) as char
    } else {
        c
    }
}

/// Every character of `s` through `lower`.
pub open spec fn lower_all(s: Seq<char>) -> Seq<char> {
    s.map_values(|c: char| lower(c))
}

/// ASCII-lowercases one character.
pub fn to_lower(c: char) -> (r: char)
    ensures
        r == lower(c),
{
    if 'A' <= c && c <= 'Z' {
        ((c as u8) + 32) as char
    } else {
        c
    }
}

/// ASCII-lowercases every character.
pub fn lower_chars(s: &[char]) -> (r: Vec<char>)
    ensures
        r@ == lower_all(s@),
{
    let mut r: Vec<char> = Vec::new();
    let mut i: usize = 0;
    while i < s.len()
        invariant
            i <= s@.len(),
            r@ == lower_all(s@.subrange(0, i as int)),
        decreases s.len() - i,
    {
        r.push(to_lower(s[i]));
        assert(lower_all(s@.subrange(0, i + 1)) =~= lower_all(s@.subrange(0, i as int)).push(lower(s@[i as int])));
        i = i + 1;
    }
    assert(s@.subrange(0, s@.len() as int) =~= s@);
    r
}

// ---------------------------------------------------------------------------
// Decimal numbers
// ---------------------------------------------------------------------------

/// The ASCII digit for `d` (`0 <= d < 10`).
pub open spec fn digit_char(d: int) -> char {
    (d + 48) as char
}

/// The decimal rendering of `n`, without sign or leading zeros.
pub open spec fn dec(n: nat) -> Seq<char>
    decreases n,
{
    if n < 10 {
        seq![digit_char(n as int)]
    } else {
        dec(n / 10).push(digit_char((n % 10) as int))
    }
}

/// `s` left-padded with `'0'` to at least `w` characters (as `{:0w}` does for
/// a non-negative number).
pub open spec fn zero_pad(s: Seq<char>, w: nat) -> Seq<char> {
    if s.len() >= w {
        s
    } else {
        Seq::new((w - s.len()) as nat, |_i: int| '0') + s
    }
}

/// Whether `c` is an ASCII decimal digit.
pub open spec fn is_digit(c: char) -> bool {
    '0' <= c <= '9'
}

/// Whether every character of `s` is an ASCII digit.
pub open spec fn all_digits(s: Seq<char>) -> bool {
    forall|i: int| 0 <= i < s.len() ==> is_digit(#[trigger] s[i])
}

/// The numeric value of a sequence of ASCII digits.
pub open spec fn digits_value(s: Seq<char>) -> nat
    decreases s.len(),
{
    if s.len() == 0 {
        0
    } else {
        digits_value(s.drop_last()) * 10 + ((s.last() as u32) - 48) as nat
    }
}

/// The value `s` denotes as an unsigned decimal integer, as the standard
/// library's `from_str` for unsigned integers reads it: one optional leading
/// `+`, then at least one ASCII digit and nothing else; `None` otherwise.
pub open spec fn unsigned_value(s: Seq<char>) -> Option<nat> {
    let d = unsigned_digits(s);
    if d.len() == 0 || !all_digits(d) {
        None
    } else {
        Some(digits_value(d))
    }
}

/// `s` without one leading `+`.
pub open spec fn unsigned_digits(s: Seq<char>) -> Seq<char> {
    if s.len() > 0 && s[0] == '+' {
        s.drop_first()
    } else {
        s
    }
}

/// `str::parse` into an unsigned type whose largest value is `max`.
pub open spec fn parse_unsigned(s: Seq<char>, max: nat) -> Option<nat> {
    match unsigned_value(s) {
        Some(v) => if v <= max {
            Some(v)
        } else {
            None
        },
        None => None,
    }
}

pub proof fn lemma_digits_value_prefix(s: Seq<char>, j: int)
    requires
        0 <= j <= s.len(),
        forall|i: int| 0 <= i < s.len() ==> is_digit(#[trigger] s[i]),
    ensures
        digits_value(s.subrange(0, j)) <= digits_value(s),
    decreases s.len() - j,
{
    if j < s.len() {
        lemma_digits_value_prefix(s, j + 1);
        assert(s.subrange(0, j + 1).drop_last() =~= s.subrange(0, j));
    } else {
        assert(s.subrange(0, j) =~= s);
    }
}

/// Appends the decimal rendering of `n` to `s`.
pub fn push_decimal(s: &mut String, n: u64)
    ensures
        final(s)@ == old(s)@ + dec(n as nat),
    decreases n,
{
    if n >= 10 {
        push_decimal(s, n / 10);
    }
    let d = (n % 10) as u8;
    push_char(s, (d + 48) as char);
    proof {
        if n < 10 {
            assert(old(s)@ + dec(n as nat) =~= old(s)@.push(digit_char(n as int)));
        } else {
            assert(old(s)@ + dec(n as nat) =~= (old(s)@ + dec((n / 10) as nat)).push(
                digit_char((n % 10) as int),
            ));
        }
    }
}

/// The decimal rendering of `n`, left-padded with zeros to `w` characters.
pub fn push_padded_decimal(s: &mut String, n: u64, w: usize)
    ensures
        final(s)@ == old(s)@ + zero_pad(dec(n as nat), w as nat),
{
    let mut digits = String::new();
    push_decimal(&mut digits, n);
    let dv = chars_of(digits.as_str());
    let mut k: usize = dv.len();
    let ghost start = s@;
    while k < w
        invariant
            dv@ == dec(n as nat),
            dv@.len() <= k <= w || (k == dv@.len() && w < k),
            k >= dv@.len(),
            s@ == start + Seq::new((k - dv@.len()) as nat, |_i: int| '0'),
        decreases w - k,
    {
        push_char(s, '0');
        assert(Seq::new((k + 1 - dv@.len()) as nat, |_i: int| '0') =~= Seq::new(
            (k - dv@.len()) as nat,
            |_i: int| '0',
        ).push('0'));
        k = k + 1;
    }
    s.append(digits.as_str());
    proof {
        if dv@.len() >= w {
            assert(Seq::new((k - dv@.len()) as nat, |_i: int| '0') =~= Seq::<char>::empty());
        }
        assert(start + Seq::new((k - dv@.len()) as nat, |_i: int| '0') + dv@ =~= start + zero_pad(
            dv@,
            w as nat,
        ));
    }
}

/// Parses an unsigned decimal integer no larger than `u64::MAX`.
pub fn parse_u64(s: &[char]) -> (r: Option<u64>)
    ensures
        r matches Some(v) ==> parse_unsigned(s@, u64::MAX as nat) == Some(v as nat),
        r is None ==> parse_unsigned(s@, u64::MAX as nat) is None,
{
    let n = s.len();
    let start: usize = if n > 0 && s[0] == '+' { 1 } else { 0 };
    let ghost d = unsigned_digits(s@);
    assert(d =~= s@.subrange(start as int, n as int));
    if start == n {
        return None;
    }
    let mut acc: u64 = 0;
    let mut i = start;
    while i < n
        invariant
            n == s@.len(),
            start <= i <= n,
            d == s@.subrange(start as int, n as int),
            d == unsigned_digits(s@),
            forall|j: int| 0 <= j < i - start ==> is_digit(#[trigger] d[j]),
            acc as nat == digits_value(d.subrange(0, i - start)),
        decreases n - i,
    {
        let c = s[i];
        assert(d[i - start] == c);
        assert(d.subrange(0, i + 1 - start).last() == c);
        if !('0' <= c && c <= '9') {
            assert(!is_digit(d[i - start]));
            assert(!all_digits(d));
            assert(unsigned_value(s@) is None);
            return None;
        }
        let dg = (c as u32 - 48) as u64;
        assert(d.subrange(0, i + 1 - start).drop_last() =~= d.subrange(0, i - start));
        match acc.checked_mul(10) {
            Some(m) => match m.checked_add(dg) {
                Some(v) => {
                    acc = v;
                },
                None => {
                    proof {
                        if forall|j: int| 0 <= j < d.len() ==> is_digit(#[trigger] d[j]) {
                            lemma_digits_value_prefix(d, i + 1 - start);
                            assert(digits_value(d.subrange(0, i + 1 - start)) == acc * 10 + dg);
                            assert(digits_value(d) > u64::MAX);
                        }
                    }
                    return None;
                },
            },
            None => {
                proof {
                    if forall|j: int| 0 <= j < d.len() ==> is_digit(#[trigger] d[j]) {
                        lemma_digits_value_prefix(d, i + 1 - start);
                        assert(digits_value(d.subrange(0, i + 1 - start)) == acc * 10 + dg);
                        assert(digits_value(d) > u64::MAX);
                    }
                }
                return None;
            },
        }
        i = i + 1;
    }
    assert(d.subrange(0, n - start) =~= d);
    Some(acc)
}

// ---------------------------------------------------------------------------
// Facts about searching, words and numbers
// ---------------------------------------------------------------------------

/// Searching from `i` finds `pat` at `j` when it occurs there and at no
/// position from `i` up to `j`.
pub proof fn lemma_find_at<A>(s: Seq<A>, pat: Seq<A>, i: int, j: int)
    requires
        0 <= i <= j,
        j + pat.len() <= s.len(),
        s.subrange(j, j + pat.len()) == pat,
        forall|k: int| i <= k < j ==> #[trigger] s.subrange(k, k + pat.len()) != pat,
    ensures
        find_from(s, pat, i) == Some(j),
    decreases j - i,
{
    if i < j {
        assert(s.subrange(i, i + pat.len()) != pat);
        lemma_find_at(s, pat, i + 1, j);
    }
}

/// A search from `i` goes on from `j` when `pat` occurs at no position from
/// `i` up to `j`.
pub proof fn lemma_find_skip<A>(s: Seq<A>, pat: Seq<A>, i: int, j: int)
    requires
        0 <= i <= j,
        j + pat.len() <= s.len() + 1,
        forall|k: int| i <= k < j ==> #[trigger] s.subrange(k, k + pat.len()) != pat,
    ensures
        find_from(s, pat, i) == find_from(s, pat, j),
    decreases j - i,
{
    if i < j {
        assert(s.subrange(i, i + pat.len()) != pat);
        lemma_find_skip(s, pat, i + 1, j);
    }
}

/// Searching `a + b` from inside `b` is searching `b`, shifted by the
/// length of `a`.
pub proof fn lemma_find_shift<A>(a: Seq<A>, b: Seq<A>, pat: Seq<A>, i: int)
    requires
        0 <= i,
    ensures
        find_from(a + b, pat, a.len() + i) == match find_from(b, pat, i) {
            Some(j) => Some(a.len() + j),
            None => None::<int>,
        },
    decreases b.len() + 1 - i,
{
    let s = a + b;
    let k = a.len() + i;
    if i + pat.len() <= b.len() {
        assert(s.subrange(k, k + pat.len()) =~= b.subrange(i, i + pat.len()));
        if b.subrange(i, i + pat.len()) != pat {
            lemma_find_shift(a, b, pat, i + 1);
        }
    }
}

/// A search that succeeds in `s` finds the same position in any extension
/// of `s`.
pub proof fn lemma_find_from_extend<A>(s: Seq<A>, t: Seq<A>, pat: Seq<A>, i: int)
    requires
        find_from(s, pat, i) is Some,
    ensures
        find_from(s + t, pat, i) == find_from(s, pat, i),
    decreases s.len() + 1 - i,
{
    assert((s + t).subrange(i, i + pat.len()) =~= s.subrange(i, i + pat.len()));
    if s.subrange(i, i + pat.len()) != pat {
        lemma_find_from_extend(s, t, pat, i + 1);
    }
}

/// `skip_ws_from` stops at `j` when every character from `i` up to `j` is
/// whitespace and the one at `j` is not (or `j` is the end).
pub proof fn lemma_skip_ws_at(s: Seq<char>, i: int, j: int)
    requires
        0 <= i <= j <= s.len(),
        forall|k: int| i <= k < j ==> is_ws(#[trigger] s[k]),
        j < s.len() ==> !is_ws(s[j]),
    ensures
        skip_ws_from(s, i) == j,
    decreases j - i,
{
    if i < j {
        lemma_skip_ws_at(s, i + 1, j);
    }
}

/// `word_end_from` stops at `j` when no character from `i` up to `j` is
/// whitespace and the one at `j` is (or `j` is the end).
pub proof fn lemma_word_end_at(s: Seq<char>, i: int, j: int)
    requires
        0 <= i <= j <= s.len(),
        forall|k: int| i <= k < j ==> !is_ws(#[trigger] s[k]),
        j < s.len() ==> is_ws(s[j]),
    ensures
        word_end_from(s, i) == j,
    decreases j - i,
{
    if i < j {
        lemma_word_end_at(s, i + 1, j);
    }
}

/// The decimal rendering of `n` is a non-empty run of digits that reads back
/// as `n`.
pub proof fn lemma_dec_parses(n: nat)
    ensures
        dec(n).len() > 0,
        all_digits(dec(n)),
        digits_value(dec(n)) == n,
        unsigned_value(dec(n)) == Some(n),
    decreases n,
{
    let c = digit_char((n % 10) as int);
    assert((c as u32) - 48 == n % 10);
    if n < 10 {
        assert(dec(n).drop_last() =~= Seq::<char>::empty());
        assert(digits_value(Seq::<char>::empty()) == 0);
    } else {
        lemma_dec_parses(n / 10);
        let d = dec(n);
        assert(d.drop_last() =~= dec(n / 10));
        assert forall|i: int| 0 <= i < d.len() implies is_digit(#[trigger] d[i]) by {
            if i < d.len() - 1 {
                assert(d[i] == dec(n / 10)[i]);
            }
        }
    }
    assert(is_digit(dec(n)[0]));
    assert(unsigned_digits(dec(n)) == dec(n));
}

// ---------------------------------------------------------------------------
// Facts about searching for one character
// ---------------------------------------------------------------------------

/// Searching for `c` from `i` finds `j` when `j` holds `c` and no position
/// from `i` up to `j` does.
pub proof fn lemma_find_char_at(s: Seq<char>, c: char, i: int, j: int)
    requires
        0 <= i <= j < s.len(),
        s[j] == c,
        forall|k: int| i <= k < j ==> s[k] != c,
    ensures
        find_from(s, seq![c], i) == Some(j),
    decreases j - i,
{
    if i == j {
        assert(s.subrange(i, i + 1) =~= seq![c]);
    } else {
        assert(s.subrange(i, i + 1)[0] != c);
        lemma_find_char_at(s, c, i + 1, j);
    }
}

/// Searching for `c` from `i` finds nothing when no position from `i` on
/// holds `c`.
pub proof fn lemma_find_char_none(s: Seq<char>, c: char, i: int)
    requires
        0 <= i,
        forall|k: int| i <= k < s.len() ==> s[k] != c,
    ensures
        find_from(s, seq![c], i) is None,
    decreases s.len() - i,
{
    if i + 1 <= s.len() {
        assert(s.subrange(i, i + 1)[0] != c);
        lemma_find_char_none(s, c, i + 1);
    }
}

} // verus!
