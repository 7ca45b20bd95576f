//! The tunnelling HTTP proxy: reading the target out of a `CONNECT` request
//! and deciding what to do with each connection.

use vstd::prelude::*;
use crate::text::{ascii_lower, ascii_lower_code, eq_ignore_ascii_case, lossy_text, from_utf8_lossy};

verus! {

broadcast use vstd::string::group_string_axioms;

/// The characters of `s`, in order.
pub fn chars_of(s: &str) -> (chars: Vec<char>)
    ensures
        chars@ == s@,
{
    let mut chars: Vec<char> = Vec::new();
    for c in it: s.chars()
        invariant
            chars@.len() == it.index(),
            forall|i: int| 0 <= i < chars@.len() ==> chars@[i] == it.seq()[i],
    {
        chars.push(c);
    }
    assert(chars@ =~= s@);
    chars
}

/// The first position at or after `i` where `s` holds `c`, or the length of
/// `s` when there is none.
pub open spec fn find_char(s: Seq<char>, c: char, i: int) -> int
    decreases s.len() - i,
{
    if i >= s.len() {
        s.len() as int
    } else if s[i] == c {
        i
    } else {
        find_char(s, c, i + 1)
    }
}

/// The first position at or after `i` where `s` holds a carriage return
/// followed by a line feed, or the length of `s` when there is none.
pub open spec fn find_crlf(s: Seq<char>, i: int) -> int
    decreases s.len() - i,
{
    if i + 1 >= s.len() {
        s.len() as int
    } else if s[i] == '\r' && s[i + 1] == '\n' {
        i
    } else {
        find_crlf(s, i + 1)
    }
}

/// The request line: everything before the first `\r\n`.
pub open spec fn request_line(content: Seq<char>) -> Seq<char> {
    content.subrange(0, find_crlf(content, 0))
}

/// The method name `connect`, in lower case.
pub open spec fn connect_word() -> Seq<char> {
    seq!['c', 'o', 'n', 'n', 'e', 'c', 't']
}

/// The target of a `CONNECT` request: the request line is split at single
/// spaces; when it has at least two parts and the first is `connect` in any
/// ASCII case, the target is the second part.
pub open spec fn connect_target(content: Seq<char>) -> Option<Seq<char>> {
    let line = request_line(content);
    let first_space = find_char(line, ' ', 0);
    if first_space >= line.len() {
        None
    } else if !eq_ignore_ascii_case(line.subrange(0, first_space), connect_word()) {
        None
    } else {
        Some(line.subrange(first_space + 1, find_char(line, ' ', first_space + 1)))
    }
}

/// The end of the request line in `chars`.
fn request_line_end(chars: &Vec<char>) -> (end: usize)
    ensures
        end == find_crlf(chars@, 0),
{
    let n = chars.len();
    let mut i: usize = 0;
    while n - i > 1
        invariant
            n == chars@.len(),
            i <= n,
            find_crlf(chars@, i as int) == find_crlf(chars@, 0),
        decreases n - i,
    {
        if chars[i] == '\r' && chars[i + 1] == '\n' {
            return i;
        }
        i = i + 1;
    }
    n
}

/// The first position in `from..end` where `chars` holds `c`, or `end`.
fn find_in(chars: &Vec<char>, c: char, from: usize, end: usize) -> (pos: usize)
    requires
        from <= end <= chars@.len(),
    ensures
        pos == find_char(chars@.subrange(0, end as int), c, from as int),
{
    let ghost line = chars@.subrange(0, end as int);
    let mut i: usize = from;
    while i < end
        invariant
            from <= i <= end,
            end <= chars@.len(),
            line == chars@.subrange(0, end as int),
            find_char(line, c, i as int) == find_char(line, c, from as int),
        decreases end - i,
    {
        if chars[i] == c {
            return i;
        }
        i = i + 1;
    }
    i
}

/// Whether `chars[0..len]` is `connect` in any ASCII case.
fn is_connect(chars: &Vec<char>, len: usize) -> (yes: bool)
    requires
        len <= chars@.len(),
    ensures
        yes == eq_ignore_ascii_case(chars@.subrange(0, len as int), connect_word()),
{
    let word: Vec<char> = vec!['c', 'o', 'n', 'n', 'e', 'c', 't'];
    assert(word@ =~= connect_word());
    if len != word.len() {
        return false;
    }
    let mut i: usize = 0;
    while i < len
        invariant
            len == word@.len(),
            len <= chars@.len(),
            word@ == connect_word(),
            i <= len,
            forall|j: int| 0 <= j < i ==> ascii_lower(chars@[j]) == ascii_lower(word@[j]),
        decreases len - i,
    {
        if ascii_lower_code(chars[i]) != ascii_lower_code(word[i]) {
            assert(chars@.subrange(0, len as int)[i as int] == chars@[i as int]);
            return false;
        }
        i = i + 1;
    }
    assert(chars@.subrange(0, len as int).len() == word@.len());
    true
}

/// Reads the target host out of a `CONNECT` request, as in
/// `CONNECT example.com:443 HTTP/1.1`.
pub fn parse_connect(content: &str) -> (host: Option<String>)
    ensures
        match host {
            Some(h) => connect_target(content@) == Some(h@),
            None => connect_target(content@) is None,
        },
        host is Some <==> (content@.len() > 7 && content@[7] == ' ' && ascii_lower(content@[0])
            == 'c' as u32 && ascii_lower(content@[1]) == 'o' as u32 && ascii_lower(content@[2])
            == 'n' as u32 && ascii_lower(content@[3]) == 'n' as u32 && ascii_lower(content@[4])
            == 'e' as u32 && ascii_lower(content@[5]) == 'c' as u32 && ascii_lower(content@[6])
            == 't' as u32),
{
    proof {
        lemma_only_connect_has_target(content@);
    }
    let chars = chars_of(content);
    let line_end = request_line_end(&chars);
    proof {
        assert(find_crlf(chars@, 0) <= chars@.len()) by {
            lemma_find_crlf_bounded(chars@, 0);
        }
    }
    let ghost line = chars@.subrange(0, line_end as int);
    assert(line == request_line(content@));
    let first_space = find_in(&chars, ' ', 0, line_end);
    proof {
        lemma_find_char_bounded(line, ' ', 0);
    }
    if first_space >= line_end {
        return None;
    }
    assert(chars@.subrange(0, first_space as int) =~= line.subrange(0, first_space as int));
    if !is_connect(&chars, first_space) {
        return None;
    }
    let target_end = find_in(&chars, ' ', first_space + 1, line_end);
    proof {
        lemma_find_char_bounded(line, ' ', first_space + 1);
    }
    let target = content.substring_char(first_space + 1, target_end);
    assert(target@ =~= line.subrange(first_space + 1, target_end as int));
    Some(target.to_owned())
}

proof fn lemma_find_char_bounded(s: Seq<char>, c: char, i: int)
    requires
        0 <= i <= s.len(),
    ensures
        i <= find_char(s, c, i) <= s.len(),
    decreases s.len() - i,
{
    if i < s.len() && s[i] != c {
        lemma_find_char_bounded(s, c, i + 1);
    }
}

proof fn lemma_find_crlf_bounded(s: Seq<char>, i: int)
    requires
        0 <= i,
    ensures
        find_crlf(s, i) <= s.len(),
    decreases s.len() - i,
{
    if i + 1 < s.len() && !(s[i] == '\r' && s[i + 1] == '\n') {
        lemma_find_crlf_bounded(s, i + 1);
    }
}

/// What the proxy does with the first read from a client.
pub enum ProxyAction {
    /// The client sent nothing and closed: drop the connection.
    Disconnect,
    /// A `CONNECT` request: open a connection to this target, confirm, and
    /// relay bytes both ways.
    Tunnel(String),
    /// Anything else: send the first `n` bytes back and close.
    Echo(usize),
}

/// Decides what to do with a client whose first read gave `n` bytes, which
/// read as the text `content`.
pub fn on_request(n: usize, content: &str) -> (action: ProxyAction)
    ensures
        n == 0 ==> action is Disconnect,
        n > 0 ==> match connect_target(content@) {
            Some(target) => action matches ProxyAction::Tunnel(host) && host@ == target,
            None => action == ProxyAction::Echo(n),
        },
{
    if n == 0 {
        return ProxyAction::Disconnect;
    }
    match parse_connect(content) {
        Some(host) => ProxyAction::Tunnel(host),
        None => ProxyAction::Echo(n),
    }
}

/// Whether the tunnel goes on after a round of relaying that moved
/// `client_to_server` bytes one way and `server_to_client` bytes the other:
/// it ends as soon as either side has nothing more.
pub fn tunnel_continues(client_to_server: u64, server_to_client: u64) -> (go_on: bool)
    ensures
        go_on == (client_to_server != 0 && server_to_client != 0),
{
    client_to_server != 0 && server_to_client != 0
}

/// Reads a client's first message: `n` bytes arrived in `buf`. Gives the
/// buffer as text (UTF-8 with invalid sequences replaced) and what to do.
pub fn first_read(n: usize, buf: &[u8]) -> (read: (String, ProxyAction))
    ensures
        read.0@ == lossy_text(buf@),
        n == 0 ==> read.1 is Disconnect,
        n > 0 ==> match connect_target(read.0@) {
            Some(target) => read.1 matches ProxyAction::Tunnel(host) && host@ == target,
            None => read.1 == ProxyAction::Echo(n),
        },
{
    let content = from_utf8_lossy(buf);
    let action = on_request(n, content.as_str());
    (content, action)
}

proof fn lemma_find_char_found(s: Seq<char>, c: char, i: int)
    requires
        0 <= i,
        find_char(s, c, i) < s.len(),
    ensures
        s[find_char(s, c, i)] == c,
    decreases s.len() - i,
{
    if i < s.len() && s[i] != c {
        lemma_find_char_found(s, c, i + 1);
    }
}

proof fn lemma_find_char_at(s: Seq<char>, c: char, i: int, j: int)
    requires
        0 <= i <= j < s.len(),
        s[j] == c,
        forall|k: int| i <= k < j ==> s[k] != c,
    ensures
        find_char(s, c, i) == j,
    decreases j - i,
{
    if i < j {
        lemma_find_char_at(s, c, i + 1, j);
    }
}

proof fn lemma_find_crlf_beyond(s: Seq<char>, i: int, j: int)
    requires
        0 <= i <= j,
        forall|k: int| i <= k < j && k < s.len() ==> s[k] != '\r',
    ensures
        find_crlf(s, i) >= j || find_crlf(s, i) == s.len(),
    decreases j - i,
{
    if i < j && i + 1 < s.len() {
        lemma_find_crlf_beyond(s, i + 1, j);
    } else {
        lemma_find_crlf_bounded_below(s, i);
    }
}

proof fn lemma_find_crlf_bounded_below(s: Seq<char>, i: int)
    requires
        0 <= i,
    ensures
        find_crlf(s, i) >= i || find_crlf(s, i) == s.len(),
    decreases s.len() - i,
{
    if i + 1 < s.len() && !(s[i] == '\r' && s[i + 1] == '\n') {
        lemma_find_crlf_bounded_below(s, i + 1);
    }
}

/// A request opens a tunnel exactly when it starts with the word `connect`
/// in any ASCII case followed by a space: `OPTIONS`, `GET`, `POST` or any
/// other first word gives no target.
pub proof fn lemma_only_connect_has_target(content: Seq<char>)
    ensures
        connect_target(content) is Some <==> (content.len() > 7 && content[7] == ' '
            && ascii_lower(content[0]) == 'c' as u32 && ascii_lower(content[1]) == 'o' as u32
            && ascii_lower(content[2]) == 'n' as u32 && ascii_lower(content[3]) == 'n' as u32
            && ascii_lower(content[4]) == 'e' as u32 && ascii_lower(content[5]) == 'c' as u32
            && ascii_lower(content[6]) == 't' as u32),
{
    let e = find_crlf(content, 0);
    lemma_find_crlf_bounded(content, 0);
    lemma_find_crlf_bounded_below(content, 0);
    let line = content.subrange(0, e);
    let fs = find_char(line, ' ', 0);
    lemma_find_char_bounded(line, ' ', 0);
    let w = connect_word();
    if connect_target(content) is Some {
        assert(fs < line.len());
        lemma_find_char_found(line, ' ', 0);
        assert(eq_ignore_ascii_case(line.subrange(0, fs), w));
        assert(fs == 7);
        assert forall|i: int| 0 <= i < 7 implies ascii_lower(#[trigger] content[i]) == ascii_lower(
            w[i],
        ) by {
            assert(line.subrange(0, fs)[i] == content[i]);
        }
        assert(content[7] == line[7]);
    }
    if content.len() > 7 && content[7] == ' ' && ascii_lower(content[0]) == 'c' as u32
        && ascii_lower(content[1]) == 'o' as u32 && ascii_lower(content[2]) == 'n' as u32
        && ascii_lower(content[3]) == 'n' as u32 && ascii_lower(content[4]) == 'e' as u32
        && ascii_lower(content[5]) == 'c' as u32 && ascii_lower(content[6]) == 't' as u32 {
        assert forall|k: int| 0 <= k < 8 && k < content.len() implies content[k] != '\r' by {
            if k < 7 {
                assert(ascii_lower(content[k]) >= 99);
            }
        }
        lemma_find_crlf_beyond(content, 0, 8);
        assert(e >= 8);
        assert forall|k: int| 0 <= k < 7 implies line[k] != ' ' by {
            assert(line[k] == content[k]);
            assert(ascii_lower(content[k]) >= 99);
        }
        lemma_find_char_at(line, ' ', 0, 7);
        assert(fs == 7);
        assert forall|i: int| 0 <= i < 7 implies ascii_lower(#[trigger] line.subrange(0, 7)[i])
            == ascii_lower(w[i]) by {
            assert(line.subrange(0, 7)[i] == content[i]);
        }
        assert(eq_ignore_ascii_case(line.subrange(0, fs), w));
    }
}

proof fn lemma_find_char_skips(s: Seq<char>, c: char, i: int)
    requires
        0 <= i,
    ensures
        forall|k: int| i <= k < find_char(s, c, i) ==> s[k] != c,
    decreases s.len() - i,
{
    if i < s.len() && s[i] != c {
        lemma_find_char_skips(s, c, i + 1);
    }
}

proof fn lemma_find_crlf_skips(s: Seq<char>, i: int)
    requires
        0 <= i,
    ensures
        forall|k: int|
            i <= k < find_crlf(s, i) && k + 1 < s.len() ==> !(#[trigger] s[k] == '\r' && s[k + 1]
                == '\n'),
        find_crlf(s, i) < s.len() ==> find_crlf(s, i) + 1 < s.len() && s[find_crlf(s, i)] == '\r'
            && s[find_crlf(s, i) + 1] == '\n',
    decreases s.len() - i,
{
    if i + 1 < s.len() && !(s[i] == '\r' && s[i + 1] == '\n') {
        lemma_find_crlf_skips(s, i + 1);
    }
}

/// The target of a `CONNECT` request is the text after `connect ` up to
/// the next space or the end of the request line: it is the characters of
/// the request from position 8 on, holds no space and no line break, and is
/// followed by a space, by `\r\n`, or by nothing.
pub proof fn lemma_target_is_next_word(content: Seq<char>)
    ensures
        connect_target(content) matches Some(h) ==> {
            let end: int = 8 + h.len() as int;
            &&& end <= content.len()
            &&& content.subrange(8, end) == h
            &&& forall|k: int| 0 <= k < h.len() ==> #[trigger] h[k] != ' '
            &&& forall|k: int|
                0 <= k < end && k + 1 < content.len() ==> !(#[trigger] content[k] == '\r'
                    && content[k + 1] == '\n')
            &&& end == content.len() || content[end] == ' ' || (end + 1 < content.len()
                && content[end] == '\r' && content[end + 1] == '\n')
        },
{
    lemma_only_connect_has_target(content);
    if connect_target(content) is Some {
        let e = find_crlf(content, 0);
        lemma_find_crlf_bounded(content, 0);
        lemma_find_crlf_bounded_below(content, 0);
        lemma_find_crlf_skips(content, 0);
        let line = content.subrange(0, e);
        let fs = find_char(line, ' ', 0);
        lemma_find_char_bounded(line, ' ', 0);
        assert forall|k: int| 0 <= k < 7 implies line[k] != ' ' by {
            assert(line[k] == content[k]);
            assert(ascii_lower(content[k]) >= 99);
        }
        assert(line[7] == content[7]);
        lemma_find_char_at(line, ' ', 0, 7);
        let f2 = find_char(line, ' ', 8);
        lemma_find_char_bounded(line, ' ', 8);
        lemma_find_char_skips(line, ' ', 8);
        let h = line.subrange(8, f2);
        assert(connect_target(content) == Some(h));
        assert(content.subrange(8, 8 + h.len() as int) =~= h);
        assert forall|k: int| 0 <= k < h.len() implies #[trigger] h[k] != ' ' by {
            assert(h[k] == line[8 + k]);
        }
        if f2 < e {
            lemma_find_char_found(line, ' ', 8);
            assert(content[f2] == line[f2]);
        }
    }
}

} // verus!
