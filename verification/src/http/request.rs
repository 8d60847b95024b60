use vstd::prelude::*;

use crate::text::Text;

verus! {

/// What a request asks the service for.
#[derive(Clone, Copy, Debug, PartialEq, Eq, Structural)]
pub enum Route {
    /// The bytes are not UTF-8.
    InvalidText,
    /// There is no request line with a method and a path.
    Malformed,
    /// The counters of the service.
    Metrics,
    /// A sign of life.
    Health,
    /// Not a GET request.
    NotAllowed,
    CpuHeavy,
    MemHeavy,
    Mixed,
    Unknown,
}

/// The first line of a request.
#[derive(Clone, Debug)]
pub struct RequestLine {
    pub method: String,
    pub path: String,
}

impl Route {
    /// The words of the first line, if it has a method and a path.
    pub open spec fn line(request: Seq<char>) -> Option<(Seq<char>, Seq<char>)> {
        let lines = Text::lines(request);
        if lines.len() == 0 {
            None
        } else {
            let words = Text::words(lines[0]);
            if words.len() < 2 {
                None
            } else {
                Some((words[0], words[1]))
            }
        }
    }

    /// The route of a method and a path.
    pub open spec fn routed(method: Seq<char>, path: Seq<char>) -> Route {
        if method != "GET"@ {
            Route::NotAllowed
        } else if Text::begins(path, "/metrics"@) {
            Route::Metrics
        } else if Text::begins(path, "/healthz"@) {
            Route::Health
        } else if Text::begins(path, "/cpu-heavy"@) {
            Route::CpuHeavy
        } else if Text::begins(path, "/mem-heavy"@) {
            Route::MemHeavy
        } else if Text::begins(path, "/mixed"@) {
            Route::Mixed
        } else {
            Route::Unknown
        }
    }

    /// The route of the text of a request.
    pub open spec fn of_text(request: Seq<char>) -> Route {
        match Self::line(request) {
            Some((method, path)) => Self::routed(method, path),
            None => Route::Malformed,
        }
    }

    /// The route of the bytes of a request.
    pub open spec fn of_bytes(bytes: Seq<u8>) -> Route {
        if vstd::utf8::valid_utf8(bytes) {
            Self::of_text(vstd::utf8::decode_utf8(bytes))
        } else {
            Route::InvalidText
        }
    }

    /// Is the request answered without a slot of the service?
    pub open spec fn is_immediate(self) -> bool {
        !(self is CpuHeavy || self is MemHeavy || self is Mixed || self is Unknown)
    }

    /// Is the request one that the service serves, past its own counters and sign of life?
    pub open spec fn is_work(self) -> bool {
        self is CpuHeavy || self is MemHeavy || self is Mixed
    }
}

/// The method and the path of a request.
pub fn parse_request_line(request: &str) -> (r: Option<RequestLine>)
    ensures
        match r {
            Some(line) => Route::line(request@) == Some((line.method@, line.path@)),
            None => Route::line(request@) is None,
        },
{
    let chars: Vec<char> = Text::chars(request);
    let lines: Vec<Vec<char>> = Text::split_lines(chars.as_slice());
    let ghost texts = Text::contents(lines@);
    if lines.len() == 0 {
        return None;
    }
    let words: Vec<Vec<char>> = Text::split_words(lines[0].as_slice());
    assert(texts[0] == lines@[0]@);
    let ghost contents = Text::contents(words@);
    if words.len() < 2 {
        return None;
    }
    assert(contents[0] == words@[0]@);
    assert(contents[1] == words@[1]@);
    Some(
        RequestLine {
            method: Text::string(words[0].as_slice()),
            path: Text::string(words[1].as_slice()),
        },
    )
}

fn path_begins(path: &str, prefix: &str) -> (r: bool)
    ensures
        r == Text::begins(path@, prefix@),
{
    let p: Vec<char> = Text::chars(path);
    let q: Vec<char> = Text::chars(prefix);
    Text::starts_with(p.as_slice(), q.as_slice())
}

/// The route of a method and a path.
pub fn route(method: &str, path: &str) -> (r: Route)
    ensures
        r == Route::routed(method@, path@),
{
    let m: Vec<char> = Text::chars(method);
    if !Text::same(m.as_slice(), "GET") {
        Route::NotAllowed
    } else if path_begins(path, "/metrics") {
        Route::Metrics
    } else if path_begins(path, "/healthz") {
        Route::Health
    } else if path_begins(path, "/cpu-heavy") {
        Route::CpuHeavy
    } else if path_begins(path, "/mem-heavy") {
        Route::MemHeavy
    } else if path_begins(path, "/mixed") {
        Route::Mixed
    } else {
        Route::Unknown
    }
}

/// `std::str::from_utf8` gives the text of bytes that are valid UTF-8, and an error for others.
#[verifier::external_body]
fn utf8_text(bytes: &[u8]) -> (r: Option<String>)
    ensures
        r is Some == vstd::utf8::valid_utf8(bytes@),
        r matches Some(text) ==> text@ == vstd::utf8::decode_utf8(bytes@),
{
    match std::str::from_utf8(bytes) {
        Ok(text) => Some(String::from(text)),
        Err(_) => None,
    }
}

/// The route of the bytes of a request.
pub fn classify(bytes: &[u8]) -> (r: Route)
    ensures
        r == Route::of_bytes(bytes@),
{
    match utf8_text(bytes) {
        None => Route::InvalidText,
        Some(text) => match parse_request_line(text.as_str()) {
            None => Route::Malformed,
            Some(line) => route(line.method.as_str(), line.path.as_str()),
        },
    }
}

/// A response to a client.
#[derive(Clone, Debug)]
pub struct Response {
    pub status: u16,
    pub reason: String,
    pub body: String,
}

impl Response {
    /// The text that is sent.
    pub open spec fn message(status: u16, reason: Seq<char>, body: Seq<char>) -> Seq<char> {
        "HTTP/1.1 "@ + Text::decimal(status as nat) + " "@ + reason + "\r\nContent-Length: "@
            + Text::decimal(vstd::utf8::encode_utf8(body).len())
            + "\r\nContent-Type: text/plain\r\nConnection: close\r\n\r\n"@ + body
    }

    pub open spec fn holds(self, status: u16, reason: Seq<char>, body: Seq<char>) -> bool {
        self.status == status && self.reason@ == reason && self.body@ == body
    }

    fn with(status: u16, reason: &str, body: &str) -> (r: Response)
        ensures
            r.holds(status, reason@, body@),
    {
        Response { status, reason: String::from_str(reason), body: String::from_str(body) }
    }

    /// The response to a request for which all work is done. The counters of the service are
    /// `report`.
    pub fn to_route(route: Route, report: &str) -> (r: Response)
        ensures
            match route {
                Route::InvalidText => r.holds(400, "Bad Request"@, "Invalid UTF-8"@),
                Route::Malformed => r.holds(400, "Bad Request"@, "Malformed request line"@),
                Route::Metrics => r.holds(200, "OK"@, report@),
                Route::Health => r.holds(200, "OK"@, "ok"@),
                Route::NotAllowed => r.holds(405, "Method Not Allowed"@, "Only GET supported"@),
                Route::CpuHeavy => r.holds(200, "OK"@, "cpu-heavy done"@),
                Route::MemHeavy => r.holds(200, "OK"@, "mem-heavy done"@),
                Route::Mixed => r.holds(200, "OK"@, "mixed done"@),
                Route::Unknown => r.holds(404, "Not Found"@, "Unknown path"@),
            },
    {
        match route {
            Route::InvalidText => Self::with(400, "Bad Request", "Invalid UTF-8"),
            Route::Malformed => Self::with(400, "Bad Request", "Malformed request line"),
            Route::Metrics => Self::with(200, "OK", report),
            Route::Health => Self::with(200, "OK", "ok"),
            Route::NotAllowed => Self::with(405, "Method Not Allowed", "Only GET supported"),
            Route::CpuHeavy => Self::with(200, "OK", "cpu-heavy done"),
            Route::MemHeavy => Self::with(200, "OK", "mem-heavy done"),
            Route::Mixed => Self::with(200, "OK", "mixed done"),
            Route::Unknown => Self::with(404, "Not Found", "Unknown path"),
        }
    }

    /// The text that is sent.
    pub fn to_text(&self) -> (r: String)
        ensures
            r@ == Self::message(self.status, self.reason@, self.body@),
    {
        let body: &str = self.body.as_str();
        let length: usize = body.as_bytes().len();
        String::from_str("HTTP/1.1 ").concat(
            Text::to_decimal(self.status as u64).as_str(),
        ).concat(" ").concat(self.reason.as_str()).concat("\r\nContent-Length: ").concat(
            Text::to_decimal(length as u64).as_str(),
        ).concat("\r\nContent-Type: text/plain\r\nConnection: close\r\n\r\n").concat(body)
    }
}

} // verus!
