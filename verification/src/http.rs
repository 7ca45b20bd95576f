//! The small web server: how many worker threads it runs, which page a
//! request gets, and how a response is laid out.

use vstd::prelude::*;
use crate::proxy::chars_of;
use crate::text::{parse_unsigned, parse_decimal, lossy_text, from_utf8_lossy};
use vstd::utf8::{valid_utf8, decode_utf8};

verus! {

broadcast use vstd::string::group_string_axioms;

/// The worker threads used when the command line names no number.
pub const DEFAULT_THREADS: usize = 4;

/// The number of worker threads the command line asks for: the first
/// argument read as a decimal `usize`, or four when there is none. `None`
/// when the first argument is not such a number.
pub fn thread_count(args: &Vec<String>) -> (count: Option<usize>)
    ensures
        args@.len() < 2 ==> count == Some(DEFAULT_THREADS),
        args@.len() < 2 ==> count == Some(4usize),
        args@.len() >= 2 ==> match count {
            Some(n) => parse_unsigned(args@[1]@, usize::MAX as int) == Some(n as int),
            None => parse_unsigned(args@[1]@, usize::MAX as int) is None,
        },
{
    if args.len() < 2 {
        return Some(DEFAULT_THREADS);
    }
    match parse_decimal(args[1].as_str(), usize::MAX as u64) {
        Some(n) => Some(n as usize),
        None => None,
    }
}

/// Which page a request gets.
#[derive(Debug, Clone, Copy, PartialEq, Eq, Structural)]
pub enum Route {
    /// `GET /`: the hello page.
    Index,
    /// `GET /sleep`: the hello page, after a pause of five seconds.
    Sleep,
    /// Anything else: the not-found page.
    NotFound,
}

/// The request line that asks for the hello page.
pub open spec fn index_request() -> Seq<char> {
    "GET / HTTP/1.1\r\n"@
}

/// The request line that asks for the hello page after a pause.
pub open spec fn sleep_request() -> Seq<char> {
    "GET /sleep HTTP/1.1\r\n"@
}

/// The page a request gets, by how the request starts.
pub open spec fn route_for(request: Seq<char>) -> Route {
    if index_request().is_prefix_of(request) {
        Route::Index
    } else if sleep_request().is_prefix_of(request) {
        Route::Sleep
    } else {
        Route::NotFound
    }
}

/// Whether `text` starts with `prefix`.
fn starts_with(text: &Vec<char>, prefix: &str) -> (yes: bool)
    ensures
        yes == prefix@.is_prefix_of(text@),
{
    let p = chars_of(prefix);
    if p.len() > text.len() {
        return false;
    }
    let mut i: usize = 0;
    while i < p.len()
        invariant
            p@ == prefix@,
            p@.len() <= text@.len(),
            i <= p@.len(),
            forall|j: int| 0 <= j < i ==> p@[j] == text@[j],
        decreases p.len() - i,
    {
        if p[i] != text[i] {
            return false;
        }
        i = i + 1;
    }
    assert(text@.subrange(0, p@.len() as int) =~= p@);
    true
}

/// Picks the page for a request, given as text.
pub fn route(request: &str) -> (r: Route)
    ensures
        r == route_for(request@),
        "GET / HTTP/1.1\r\n"@.is_prefix_of(request@) ==> r == Route::Index,
        "GET /sleep HTTP/1.1\r\n"@.is_prefix_of(request@) ==> r == Route::Sleep,
        !"GET / HTTP/1.1\r\n"@.is_prefix_of(request@) && !"GET /sleep HTTP/1.1\r\n"@.is_prefix_of(
            request@,
        ) ==> r == Route::NotFound,
{
    proof {
        lemma_routes(request@);
    }
    let text = chars_of(request);
    if starts_with(&text, "GET / HTTP/1.1\r\n") {
        Route::Index
    } else if starts_with(&text, "GET /sleep HTTP/1.1\r\n") {
        Route::Sleep
    } else {
        Route::NotFound
    }
}

/// Whether a text that starts with `head` is routed as `head` is, because
/// `head` is at least as long as every request line that routing looks for.
pub open spec fn decides_route(head: Seq<char>) -> bool {
    head.len() >= index_request().len() && head.len() >= sleep_request().len()
}

/// A text is routed as any prefix of it that is long enough to decide.
proof fn lemma_route_by_prefix(head: Seq<char>, text: Seq<char>)
    requires
        head.is_prefix_of(text),
        decides_route(head),
    ensures
        route_for(text) == route_for(head),
{
    let i = index_request();
    let s = sleep_request();
    assert(head =~= text.subrange(0, head.len() as int));
    assert(i.is_prefix_of(text) == i.is_prefix_of(head)) by {
        assert(text.subrange(0, i.len() as int) =~= head.subrange(0, i.len() as int));
    }
    assert(s.is_prefix_of(text) == s.is_prefix_of(head)) by {
        assert(text.subrange(0, s.len() as int) =~= head.subrange(0, s.len() as int));
    }
}

/// Picks the page for a request as it was read, decoding the bytes as
/// UTF-8 with invalid sequences replaced. Any valid UTF-8 start of the
/// request that is long enough to decide the route decides it, whatever
/// bytes follow.
pub fn route_request(request: &[u8]) -> (r: Route)
    ensures
        r == route_for(lossy_text(request@)),
        forall|i: int|
            0 <= i <= request@.len() && valid_utf8(request@.take(i)) && decides_route(
                #[trigger] decode_utf8(request@.take(i)),
            ) ==> r == route_for(decode_utf8(request@.take(i))),
{
    let text = from_utf8_lossy(request);
    proof {
        assert forall|i: int|
            0 <= i <= request@.len() && valid_utf8(request@.take(i)) && decides_route(
                #[trigger] decode_utf8(request@.take(i)),
            ) implies route_for(text@) == route_for(decode_utf8(request@.take(i))) by {
            lemma_route_by_prefix(decode_utf8(request@.take(i)), text@);
        }
    }
    route(text.as_str())
}

impl Route {
    /// The status line answered for this route.
    pub fn status_line(&self) -> (line: &'static str)
        ensures
            *self == Route::NotFound ==> line == "HTTP/1.1 404 Not Found",
            *self != Route::NotFound ==> line == "HTTP/1.1 200 OK",
    {
        match self {
            Route::NotFound => "HTTP/1.1 404 Not Found",
            _ => "HTTP/1.1 200 OK",
        }
    }

    /// The file whose contents form the body of the answer.
    pub fn page(&self) -> (file: &'static str)
        ensures
            *self == Route::NotFound ==> file == "404.html",
            *self != Route::NotFound ==> file == "hello.html",
    {
        match self {
            Route::NotFound => "404.html",
            _ => "hello.html",
        }
    }

    /// Whether the answer waits five seconds first.
    pub fn sleeps(&self) -> (pause: bool)
        ensures
            pause == (*self == Route::Sleep),
    {
        match self {
            Route::Sleep => true,
            _ => false,
        }
    }
}

/// The text of a response: the status line, an empty line, then the body.
pub fn response(status_line: &str, body: &str) -> (text: String)
    ensures
        text@ == status_line@ + "\r\n\r\n"@ + body@,
{
    let mut text = String::from_str(status_line);
    text.append("\r\n\r\n");
    text.append(body);
    text
}

/// Every request that starts with `GET / HTTP/1.1\r\n` gets the hello page
/// and every one that starts with `GET /sleep HTTP/1.1\r\n` gets it after a
/// pause, whatever headers follow the request line; every other request
/// gets the not-found page.
pub proof fn lemma_routes(request: Seq<char>)
    ensures
        "GET / HTTP/1.1\r\n"@.is_prefix_of(request) ==> route_for(request) == Route::Index,
        "GET /sleep HTTP/1.1\r\n"@.is_prefix_of(request) ==> route_for(request) == Route::Sleep,
        !"GET / HTTP/1.1\r\n"@.is_prefix_of(request) && !"GET /sleep HTTP/1.1\r\n"@.is_prefix_of(
            request,
        ) ==> route_for(request) == Route::NotFound,
{
    reveal_strlit("GET / HTTP/1.1\r\n");
    reveal_strlit("GET /sleep HTTP/1.1\r\n");
    let i = "GET / HTTP/1.1\r\n"@;
    let s = "GET /sleep HTTP/1.1\r\n"@;
    if s.is_prefix_of(request) {
        assert(s[5] == 's');
        assert(request.subrange(0, s.len() as int)[5] == s[5]);
        assert(request[5] == 's');
        assert(i[5] == ' ');
        assert(!i.is_prefix_of(request)) by {
            if i.is_prefix_of(request) {
                assert(request.subrange(0, i.len() as int)[5] == i[5]);
            }
        }
    }
}

} // verus!
