//! HTTP/1.1 framing: the request line, header lines, responses and the
//! content type that a file extension is served with.

use vstd::prelude::*;
use vstd::utf8::{decode_utf8, encode_utf8, valid_utf8};
use crate::text::{
    lemma_split_from_nonempty, owned, push_str, rsplit_once, rsplit_once_str, split, split_str,
    str_eq, views,
};
use crate::number::{decimal, push_decimal};

verus! {

// ------------------------------------------------------------------
// Content types
// ------------------------------------------------------------------

/// The content type that a file with extension `ext` is served with.
pub open spec fn content_type_of(ext: Seq<char>) -> Option<Seq<char>> {
    if ext == "png"@ {
        Some("image/png"@)
    } else if ext == "apng"@ {
        Some("image/apng"@)
    } else if ext == "gif"@ {
        Some("image/gif"@)
    } else if ext == "ico"@ {
        Some("image/x-icon"@)
    } else if ext == "css"@ {
        Some("text/css"@)
    } else if ext == "html"@ {
        Some("text/html"@)
    } else if ext == "js"@ {
        Some("text/javascript"@)
    } else if ext == "txt"@ {
        Some("text/plain"@)
    } else if ext == "pdf"@ {
        Some("application/pdf"@)
    } else if ext == "json"@ {
        Some("application/json"@)
    } else if ext == "mp3"@ {
        Some("audio/mpeg"@)
    } else if ext == "mp4"@ {
        Some("video/mp4"@)
    } else if ext == "gz"@ {
        Some("application/gzip"@)
    } else {
        None
    }
}

/// The content type for the file extension `ext`, if it is a known one.
pub fn content_type_from_ext(ext: &str) -> (r: Option<&'static str>)
    ensures
        match r {
            Some(t) => content_type_of(ext@) == Some(t@),
            None => content_type_of(ext@) is None,
        },
{
    if str_eq(ext, "png") {
        Some("image/png")
    } else if str_eq(ext, "apng") {
        Some("image/apng")
    } else if str_eq(ext, "gif") {
        Some("image/gif")
    } else if str_eq(ext, "ico") {
        Some("image/x-icon")
    } else if str_eq(ext, "css") {
        Some("text/css")
    } else if str_eq(ext, "html") {
        Some("text/html")
    } else if str_eq(ext, "js") {
        Some("text/javascript")
    } else if str_eq(ext, "txt") {
        Some("text/plain")
    } else if str_eq(ext, "pdf") {
        Some("application/pdf")
    } else if str_eq(ext, "json") {
        Some("application/json")
    } else if str_eq(ext, "mp3") {
        Some("audio/mpeg")
    } else if str_eq(ext, "mp4") {
        Some("video/mp4")
    } else if str_eq(ext, "gz") {
        Some("application/gzip")
    } else {
        None
    }
}

/// What serving the file at `path` announces as its content type: the
/// extension is what follows the last `.`; a path without a `.` cannot be
/// served.
pub open spec fn file_content_type_of(path: Seq<char>) -> Result<Option<Seq<char>>, Seq<char>> {
    match rsplit_once(path, "."@) {
        Some((_, ext)) => Ok(content_type_of(ext)),
        None => Err("Cannot split"@),
    }
}

/// The content type announced for the file at `path`, or the error for a
/// path without an extension.
pub fn file_content_type(path: &str) -> (r: Result<Option<&'static str>, String>)
    ensures
        match r {
            Ok(Some(t)) => file_content_type_of(path@) == Ok::<Option<Seq<char>>, Seq<char>>(Some(t@)),
            Ok(None) => file_content_type_of(path@) == Ok::<Option<Seq<char>>, Seq<char>>(None),
            Err(e) => file_content_type_of(path@) == Err::<Option<Seq<char>>, Seq<char>>(e@),
        },
{
    match rsplit_once_str(path, ".") {
        Some((_, ext)) => Ok(content_type_from_ext(ext.as_str())),
        None => Err(owned("Cannot split")),
    }
}

// ------------------------------------------------------------------
// Responses
// ------------------------------------------------------------------

/// The status line and headers of a response whose body has `length` bytes.
pub open spec fn response_head(
    status: Seq<char>,
    length: nat,
    content_type: Option<Seq<char>>,
) -> Seq<char> {
    "HTTP/1.1 "@ + status + "\r\nContent-Length: "@ + decimal(length) + "\r\n"@ + match content_type {
        Some(t) => "Content-Type: "@ + t + "\r\n"@,
        None => Seq::empty(),
    } + "\r\n"@
}

/// The optional content type taken by its view.
pub open spec fn opt_view(t: Option<&str>) -> Option<Seq<char>> {
    match t {
        Some(s) => Some(s@),
        None => None,
    }
}

/// The status line and headers of a response (text).
pub fn response_head_text(status: &str, length: usize, content_type: Option<&str>) -> (r: String)
    ensures
        r@ == response_head(status@, length as nat, opt_view(content_type)),
{
    let mut r = owned("HTTP/1.1 ");
    push_str(&mut r, status);
    push_str(&mut r, "\r\nContent-Length: ");
    push_decimal(&mut r, length as u64);
    push_str(&mut r, "\r\n");
    match content_type {
        Some(t) => {
            push_str(&mut r, "Content-Type: ");
            push_str(&mut r, t);
            push_str(&mut r, "\r\n");
        },
        None => {},
    }
    push_str(&mut r, "\r\n");
    r
}

/// The bytes of a whole response: the UTF-8 encoded head, then `content`.
pub fn build_response(content: Vec<u8>, status: &str, content_type: Option<&str>) -> (r: Vec<u8>)
    ensures
        r@ == encode_utf8(response_head(status@, content@.len(), opt_view(content_type)))
            + content@,
{
    let mut content = content;
    let head = response_head_text(status, content.len(), content_type);
    let bytes = head.as_str().as_bytes();
    let mut r = vstd::slice::slice_to_vec(bytes);
    r.append(&mut content);
    r
}

// ------------------------------------------------------------------
// Request line and routing
// ------------------------------------------------------------------

/// A request line taken apart: the method and the segments of the path
/// after its leading `/`.
pub struct Request {
    pub method: String,
    pub page: Vec<String>,
}

/// What the request line `act` holds: exactly three words separated by
/// single spaces, of which the second is the path.
pub open spec fn request_of(act: Seq<char>) -> Result<(Seq<char>, Seq<Seq<char>>), Seq<char>> {
    let words = split(act, " "@);
    if words.len() != 3 {
        Err("Invalid act"@)
    } else {
        Ok((words[0], split(words[1], "/"@).drop_first()))
    }
}

/// Takes the request line `act` apart.
pub fn parse_request(act: &str) -> (r: Result<Request, String>)
    ensures
        match r {
            Ok(req) => request_of(act@) == Ok::<(Seq<char>, Seq<Seq<char>>), Seq<char>>(
                (req.method@, views(req.page@)),
            ),
            Err(e) => request_of(act@) == Err::<(Seq<char>, Seq<Seq<char>>), Seq<char>>(e@),
        },
{
    proof {
        reveal_strlit(" ");
        reveal_strlit("/");
    }
    let words = split_str(act, " ");
    if words.len() != 3 {
        return Err(owned("Invalid act"));
    }
    let method = owned(words[0].as_str());
    let segments = split_str(words[1].as_str(), "/");
    proof {
        lemma_split_from_nonempty(words@[1]@, "/"@, 0);
    }
    let mut page: Vec<String> = Vec::new();
    let mut i: usize = 1;
    while i < segments.len()
        invariant
            1 <= i <= segments@.len(),
            views(page@) == views(segments@).subrange(1, i as int),
        decreases segments@.len() - i,
    {
        page.push(owned(segments[i].as_str()));
        assert(views(segments@).subrange(1, i + 1) == views(segments@).subrange(1, i as int).push(
            segments@[i as int]@,
        ));
        i += 1;
    }
    assert(views(segments@) =~= split(words@[1]@, "/"@));
    assert(views(page@) =~= split(words@[1]@, "/"@).drop_first());
    Ok(Request { method, page })
}

/// The part of the site that a request is for, by the first segment of its
/// path.
#[derive(Debug, Clone, Copy, PartialEq, Eq, Structural)]
pub enum Route {
    Assets,
    Project,
    Projects,
    Blog,
    Auth,
    Mystuff,
    Home,
}

/// The part of the site that the first path segment `first` names.
pub open spec fn route_of(first: Seq<char>) -> Route {
    if first == "assets"@ {
        Route::Assets
    } else if first == "project"@ {
        Route::Project
    } else if first == "projects"@ {
        Route::Projects
    } else if first == "blog"@ {
        Route::Blog
    } else if first == "auth"@ {
        Route::Auth
    } else if first == "mystuff"@ {
        Route::Mystuff
    } else {
        Route::Home
    }
}

/// The part of the site that the first path segment `first` names.
pub fn route(first: &str) -> (r: Route)
    ensures
        r == route_of(first@),
{
    if str_eq(first, "assets") {
        Route::Assets
    } else if str_eq(first, "project") {
        Route::Project
    } else if str_eq(first, "projects") {
        Route::Projects
    } else if str_eq(first, "blog") {
        Route::Blog
    } else if str_eq(first, "auth") {
        Route::Auth
    } else if str_eq(first, "mystuff") {
        Route::Mystuff
    } else {
        Route::Home
    }
}

/// Whether the first byte of a connection opens a TLS handshake record.
pub fn is_tls_handshake(first: u8) -> (r: bool)
    ensures
        r == (first == 22),
{
    first == 22
}

// ------------------------------------------------------------------
// Reading a line
// ------------------------------------------------------------------

/// Names the message of the error that `String::from_utf8` gives for
/// bytes that are no valid UTF-8 (where the encoding breaks, and how): a
/// function of the bytes alone.
pub uninterp spec fn utf8_error_message(bytes: Seq<u8>) -> Seq<char>;

/// `String::from_utf8`, its error taken as its message.  Claimed: it
/// succeeds exactly on valid UTF-8, and then holds the characters that the
/// bytes encode; otherwise the message is `utf8_error_message` of the bytes.
#[verifier::external_body]
fn from_utf8(bytes: Vec<u8>) -> (r: Result<String, String>)
    ensures
        r is Ok <==> valid_utf8(bytes@),
        r matches Ok(s) ==> s@ == decode_utf8(bytes@),
        r matches Err(m) ==> m@ == utf8_error_message(bytes@),
{
    match String::from_utf8(bytes) {
        Ok(s) => Ok(s),
        Err(e) => Err(e.to_string()),
    }
}

/// The bytes of one line of a request, read one byte at a time.
pub struct LineReader {
    bytes: Vec<u8>,
}

impl View for LineReader {
    type V = Seq<u8>;

    closed spec fn view(&self) -> Seq<u8> {
        self.bytes@
    }
}

impl LineReader {
    /// A reader that has read nothing yet.
    pub fn new() -> (r: LineReader)
        ensures
            r@ == Seq::<u8>::empty(),
    {
        LineReader { bytes: Vec::new() }
    }

    /// Takes the outcome of one read: `Some(b)` for a byte, `None` for the
    /// end of the stream.  Says whether the line is complete: at the end of
    /// the stream, or once a line feed was read (which the line keeps).
    pub fn feed(&mut self, read: Option<u8>) -> (done: bool)
        ensures
            match read {
                None => done && final(self)@ == old(self)@,
                Some(b) => done == (b == 10) && final(self)@ == old(self)@.push(b),
            },
    {
        match read {
            None => true,
            Some(b) => {
                self.bytes.push(b);
                b == 10
            },
        }
    }

    /// The number of bytes read, and the line they encode, or the message of
    /// the error when they are no valid UTF-8.
    pub fn finish(self) -> (r: (usize, Result<String, String>))
        ensures
            r.0 == self@.len(),
            r.1 is Ok <==> valid_utf8(self@),
            r.1 matches Ok(s) ==> s@ == decode_utf8(self@),
            r.1 matches Err(m) ==> m@ == utf8_error_message(self@),
    {
        let n = self.bytes.len();
        (n, from_utf8(self.bytes))
    }
}

} // verus!
