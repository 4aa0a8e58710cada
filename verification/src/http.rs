use vstd::prelude::*;
use vstd::string::StringSliceAdditionalSpecFns;

verus! {

/// What the server does with a request, decided by its first line alone.
#[derive(Clone, Copy, Debug, PartialEq, Eq, Structural)]
pub enum Route {
    /// A request for `/`: the index page.
    Home,
    /// A request for `/sleep`: the index page, after a pause.
    Sleep,
    /// Anything else: the error page.
    NotFound,
}

/// The request line that asks for `/`.
pub open spec fn home_request() -> Seq<u8> {
    "GET / HTTP/1.1\r\n".spec_bytes()
}

/// The request line that asks for `/sleep`.
pub open spec fn sleep_request() -> Seq<u8> {
    "GET /sleep HTTP/1.1\r\n".spec_bytes()
}

/// The route of a request: by the request line that its bytes begin with.
pub open spec fn route_of(request: Seq<u8>) -> Route {
    if home_request().is_prefix_of(request) {
        Route::Home
    } else if sleep_request().is_prefix_of(request) {
        Route::Sleep
    } else {
        Route::NotFound
    }
}

/// A number in decimal, as ASCII digits, without leading zeros.
pub open spec fn decimal(n: nat) -> Seq<u8>
    decreases n,
{
    if n < 10 {
        seq![(48 + n) as u8]
    } else {
        decimal(n / 10).push((48 + n % 10) as u8)
    }
}

/// The bytes of a response: the status line, a header that gives the
/// length of the body in bytes, an empty line, and the body.
pub open spec fn response_bytes(status_line: Seq<u8>, contents: Seq<u8>) -> Seq<u8> {
    status_line + "\r\nContent-Length:".spec_bytes() + decimal(contents.len())
        + "\r\n\r\n".spec_bytes() + contents
}

impl Route {
    /// The status line of the response.
    pub fn status_line(self) -> (line: &'static str)
        ensures
            line@ == (match self {
                Route::NotFound => "HTTP/1.1 404 NOT FOUND"@,
                _ => "HTTP/1.1 200 OK"@,
            }),
    {
        match self {
            Route::NotFound => "HTTP/1.1 404 NOT FOUND",
            _ => "HTTP/1.1 200 OK",
        }
    }

    /// The name of the file that holds the body of the response.
    pub fn file_name(self) -> (name: &'static str)
        ensures
            name@ == (match self {
                Route::NotFound => "404.html"@,
                _ => "index.html"@,
            }),
    {
        match self {
            Route::NotFound => "404.html",
            _ => "index.html",
        }
    }

    /// How many seconds the server waits before it answers.
    pub fn delay_secs(self) -> (secs: u64)
        ensures
            secs == (if self is Sleep {
                5u64
            } else {
                0u64
            }),
    {
        match self {
            Route::Sleep => 5,
            _ => 0,
        }
    }
}

/// Whether `data` begins with the bytes of `prefix`.
pub fn starts_with(data: &[u8], prefix: &[u8]) -> (found: bool)
    ensures
        found == prefix@.is_prefix_of(data@),
{
    if prefix.len() > data.len() {
        return false;
    }
    let mut i: usize = 0;
    while i < prefix.len()
        invariant
            i <= prefix.len() <= data.len(),
            forall|k: int| 0 <= k < i ==> prefix@[k] == data@[k],
        decreases prefix.len() - i,
    {
        if prefix[i] != data[i] {
            assert(data@.subrange(0, prefix@.len() as int)[i as int] == data@[i as int]);
            return false;
        }
        i += 1;
    }
    assert(prefix@ =~= data@.subrange(0, prefix@.len() as int));
    true
}

/// Decides what to do with the request whose bytes are `request`.
pub fn route(request: &[u8]) -> (r: Route)
    ensures
        r == route_of(request@),
{
    if starts_with(request, "GET / HTTP/1.1\r\n".as_bytes()) {
        Route::Home
    } else if starts_with(request, "GET /sleep HTTP/1.1\r\n".as_bytes()) {
        Route::Sleep
    } else {
        Route::NotFound
    }
}

fn append(out: &mut Vec<u8>, bytes: &[u8])
    ensures
        final(out)@ == old(out)@ + bytes@,
{
    let mut i: usize = 0;
    while i < bytes.len()
        invariant
            i <= bytes.len(),
            out@ =~= old(out)@ + bytes@.take(i as int),
        decreases bytes.len() - i,
    {
        out.push(bytes[i]);
        i += 1;
    }
    assert(bytes@.take(i as int) =~= bytes@);
}

fn append_decimal(out: &mut Vec<u8>, n: usize)
    ensures
        final(out)@ == old(out)@ + decimal(n as nat),
    decreases n,
{
    if n >= 10 {
        append_decimal(out, n / 10);
    }
    let digit: u8 = 48 + (n % 10) as u8;
    out.push(digit);
    assert(out@ =~= old(out)@ + decimal(n as nat));
}

/// Writes out the response with the given status line and body.
pub fn response(status_line: &str, contents: &str) -> (bytes: Vec<u8>)
    ensures
        bytes@ == response_bytes(status_line.spec_bytes(), contents.spec_bytes()),
{
    let body = contents.as_bytes();
    let mut bytes: Vec<u8> = Vec::new();
    append(&mut bytes, status_line.as_bytes());
    append(&mut bytes, "\r\nContent-Length:".as_bytes());
    append_decimal(&mut bytes, body.len());
    append(&mut bytes, "\r\n\r\n".as_bytes());
    append(&mut bytes, body);
    assert(bytes@ =~= response_bytes(status_line.spec_bytes(), contents.spec_bytes()));
    bytes
}

} // verus!
