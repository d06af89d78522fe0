//! The admin endpoint: which page a request asks for, and what the reply looks
//! like.

use crate::metadata_cache::{byte_len, text_bytes};
use crate::scan::{behind_word, first_word, split_word};
use crate::text;
use crate::wire::{decimal, to_decimal};
use vstd::prelude::*;
use vstd::string::*;

verus! {

/// A page of the admin endpoint.
#[derive(Debug, Clone, Copy, PartialEq, Eq, Structural)]
pub enum Route {
    /// The request statistics.
    Stats,
    /// A sign of life.
    Health,
    /// Anything else.
    NotFound,
}

/// The first line of a text, without the line feed.
pub open spec fn first_line(s: Seq<char>) -> Seq<char>
    decreases s.len(),
{
    if s.len() == 0 || s[0] == '\n' {
        Seq::empty()
    } else {
        seq![s[0]] + first_line(s.skip(1))
    }
}

/// The path that a request asks for: the second word of its first line, or the
/// root.
pub open spec fn requested_path(request: Seq<char>) -> Seq<char> {
    let second = first_word(behind_word(first_line(request)));
    if second.len() == 0 {
        text::root_path()
    } else {
        second
    }
}

/// The page that a path stands for.
pub open spec fn route_of(path: Seq<char>) -> Route {
    if path == "/stats"@ {
        Route::Stats
    } else if path == "/health"@ {
        Route::Health
    } else {
        Route::NotFound
    }
}

/// A reply with a status and a body.
pub open spec fn reply_text(status: Seq<char>, body: Seq<char>) -> Seq<char> {
    "HTTP/1.0 "@ + status
        + "\r\nContent-Type: application/json\r\nContent-Length: "@ + decimal(
        byte_len(body) as nat,
    ) + "\r\nConnection: close\r\n\r\n"@ + body
}

/// The first line of a text, without the line feed.
fn take_line(s: &str) -> (r: String)
    ensures
        r@ == first_line(s@),
{
    let cs: Vec<char> = text::chars_of(s);
    let mut i: usize = 0;
    assert(s@.take(0) + first_line(s@.skip(0)) =~= first_line(s@)) by {
        assert(s@.skip(0) =~= s@);
    }
    while i < cs.len() && cs[i] != '\n'
        invariant
            cs@ == s@,
            i <= cs.len(),
            s@.take(i as int) + first_line(s@.skip(i as int)) == first_line(s@),
        decreases cs.len() - i,
    {
        let ghost rest = s@.skip(i as int);
        assert(rest[0] == s@[i as int]);
        assert(rest.skip(1) =~= s@.skip(i as int + 1));
        assert(s@.take(i as int) + (seq![rest[0]] + first_line(rest.skip(1))) =~= s@.take(
            i as int + 1,
        ) + first_line(s@.skip(i as int + 1)));
        i += 1;
    }
    proof {
        let rest = s@.skip(i as int);
        if i < s@.len() {
            assert(rest[0] == s@[i as int]);
        }
        assert(first_line(rest) =~= Seq::<char>::empty());
        assert(s@.take(i as int) + Seq::<char>::empty() =~= s@.take(i as int));
        assert(s@.subrange(0, i as int) =~= s@.take(i as int));
    }
    s.substring_char(0, i).to_owned()
}

/// The path that a request asks for.
pub fn request_path(request: &str) -> (r: String)
    ensures
        r@ == requested_path(request@),
{
    let line: String = take_line(request);
    let (_method, rest) = split_word(line.as_str());
    let (path, _version) = split_word(rest.as_str());
    if path.as_str().unicode_len() == 0 {
        text::root()
    } else {
        path
    }
}

/// The page that a path stands for.
pub fn route(path: &str) -> (r: Route)
    ensures
        r == route_of(path@),
{
    if text::same(path, "/stats") {
        Route::Stats
    } else if text::same(path, "/health") {
        Route::Health
    } else {
        Route::NotFound
    }
}

/// A reply with a status and a body. The body's length is given in bytes.
pub fn reply(status: &str, body: &str) -> (r: String)
    ensures
        r@ == reply_text(status@, body@),
{
    let mut r: String = "HTTP/1.0 ".to_owned();
    r.append(status);
    r.append("\r\nContent-Type: application/json\r\nContent-Length: ");
    let len: String = to_decimal(text_bytes(body));
    r.append(len.as_str());
    r.append("\r\nConnection: close\r\n\r\n");
    r.append(body);
    r
}

/// The admin endpoint.
#[derive(Debug, Clone, Copy)]
pub struct AdminServer;

impl AdminServer {
    /// The reply to a request. `stats` is the statistics page, or what went
    /// wrong with it.
    pub fn respond(request: &str, stats: Result<String, String>) -> (r: String)
        ensures
            r@ == match route_of(requested_path(request@)) {
                Route::Stats => match stats {
                    Ok(json) => reply_text("200 OK"@, json@),
                    Err(e) => reply_text(
                        "500 Internal Server Error"@,
                        "{\"error\":\""@ + e@ + "\"}"@,
                    ),
                },
                Route::Health => reply_text("200 OK"@, "{\"status\":\"ok\"}"@),
                Route::NotFound => reply_text(
                    "404 Not Found"@,
                    "{\"error\":\"not found\",\"endpoints\":[\"/stats\",\"/health\"]}"@,
                ),
            },
    {
        let path: String = request_path(request);
        match route(path.as_str()) {
            Route::Stats => match stats {
                Ok(json) => reply("200 OK", json.as_str()),
                Err(e) => {
                    let mut body: String = "{\"error\":\"".to_owned();
                    body.append(e.as_str());
                    body.append("\"}");
                    reply("500 Internal Server Error", body.as_str())
                },
            },
            Route::Health => reply("200 OK", "{\"status\":\"ok\"}"),
            Route::NotFound => reply(
                "404 Not Found",
                "{\"error\":\"not found\",\"endpoints\":[\"/stats\",\"/health\"]}",
            ),
        }
    }
}

} // verus!
