//! The loopback HTTP console: what a request asks for, and how a response
//! begins.
use vstd::prelude::*;

use crate::json::{object2, string, Json, JsonView};
use crate::parse::{natural_in, parse_natural, pieces, split_at, trim, trimmed};
use crate::rows::select;
use crate::text::{
    chars_of, contains_text, nat_text, occurs_in, show_u64, slice_of, split_words,
    starts_with_text, str_eq, text_of, words,
};

verus! {

/// The method and the path of a request line.
pub open spec fn request_line(line: Seq<char>) -> (Seq<char>, Seq<char>) {
    let parts = words(line);
    (
        if parts.len() > 0 {
            parts[0]
        } else {
            ""@
        },
        if parts.len() > 1 {
            parts[1]
        } else {
            "/"@
        },
    )
}

/// The method and the path of a request line: nothing, and the root, where they
/// are missing.
pub fn read_request_line(line: &str) -> (r: (String, String))
    ensures
        r.deep_view() == request_line(line@),
{
    let parts = split_words(line);
    let ghost all = parts.deep_view();
    assert(all.len() == parts.len());
    let method = if parts.len() > 0 {
        assert(all[0] == parts[0]@);
        parts[0].clone()
    } else {
        "".to_owned()
    };
    let path = if parts.len() > 1 {
        assert(all[1] == parts[1]@);
        parts[1].clone()
    } else {
        "/".to_owned()
    };
    (method, path)
}

/// What follows a header's name.
pub open spec fn header_value(header: Seq<char>, name: Seq<char>) -> Option<Seq<char>> {
    if name.is_prefix_of(header) {
        Some(header.skip(name.len() as int))
    } else {
        None
    }
}

/// The length that a header gives: nothing where it is another header, zero where
/// it is no number.
pub open spec fn length_in(header: Seq<char>) -> Option<nat> {
    let value = match header_value(header, "content-length:"@) {
        Some(v) => Some(v),
        None => header_value(header, "Content-Length:"@),
    };
    match value {
        None => None,
        Some(v) => match natural_in(trimmed(v), usize::MAX as nat) {
            Some(n) => Some(n),
            None => Some(0),
        },
    }
}

fn read_value(header: &str, name: &str) -> (r: Option<String>)
    ensures
        r.deep_view() == header_value(header@, name@),
{
    if !starts_with_text(header, name) {
        return None;
    }
    let chars = chars_of(header);
    let n: usize = chars_of(name).len();
    let value = slice_of(&chars, n, chars.len());
    assert(value@ =~= header@.skip(n as int));
    Some(value)
}

/// The length that a header gives.
pub fn content_length(header: &str) -> (r: Option<usize>)
    ensures
        match length_in(header@) {
            None => r is None,
            Some(n) => r is Some && r->Some_0 == n,
        },
{
    let value = match read_value(header, "content-length:") {
        Some(v) => v,
        None => match read_value(header, "Content-Length:") {
            Some(v) => v,
            None => {
                return None;
            },
        },
    };
    let text = trim(value.as_str());
    match parse_natural(text.as_str(), usize::MAX as u64) {
        Some(n) => Some(n as usize),
        None => Some(0),
    }
}

/// How a request is handled.
#[derive(Debug, Clone, Copy, PartialEq, Eq, Structural)]
pub enum Route {
    /// A message, which is dispatched.
    Message,
    /// A file of the console.
    File,
    /// Neither.
    NotAllowed,
}

/// How a request with a method is handled.
pub fn route(method: &str) -> (r: Route)
    ensures
        r == if method@ == "POST"@ {
            Route::Message
        } else if method@ == "GET"@ {
            Route::File
        } else {
            Route::NotAllowed
        },
{
    if str_eq(method, "POST") {
        Route::Message
    } else if str_eq(method, "GET") {
        Route::File
    } else {
        Route::NotAllowed
    }
}

/// Selects the pieces of a path that are followed: not empty, and without two
/// dots in a row.
pub open spec fn is_safe() -> spec_fn(Seq<char>) -> bool {
    |s: Seq<char>| !occurs_in(s, ".."@) && s.len() > 0
}

/// A path without its query and without one slash at its front.
pub open spec fn relative(path: Seq<char>) -> Seq<char> {
    let front = pieces(path, '?')[0];
    if front.len() > 0 && front[0] == '/' {
        front.drop_first()
    } else {
        front
    }
}

/// The pieces of a path below the console's directory; none stands for the index
/// page.
pub open spec fn file_pieces(path: Seq<char>) -> Seq<Seq<char>> {
    let rel = relative(path);
    if rel.len() == 0 || rel == "/"@ {
        Seq::empty()
    } else {
        pieces(rel, '/').filter(is_safe())
    }
}

/// Every text has a piece.
proof fn lemma_some_piece(piece: Seq<char>, s: Seq<char>, separator: char)
    ensures
        crate::parse::pieces_from(piece, s, separator).len() > 0,
    decreases s.len(),
{
    if s.len() > 0 {
        lemma_some_piece(Seq::empty(), s.drop_first(), separator);
        lemma_some_piece(piece.push(s[0]), s.drop_first(), separator);
    }
}

fn relative_path(path: &str) -> (r: String)
    ensures
        r@ == relative(path@),
{
    proof {
        lemma_some_piece(Seq::empty(), path@, '?');
    }
    let parts = split_at(path, '?');
    assert(parts.deep_view().len() == parts.len());
    assert(parts.deep_view()[0] == parts[0]@);
    let chars = chars_of(parts[0].as_str());
    if chars.len() > 0 && chars[0] == '/' {
        let rest = slice_of(&chars, 1, chars.len());
        assert(rest@ =~= parts[0]@.drop_first());
        rest
    } else {
        parts[0].clone()
    }
}

/// Maps a request's path to the pieces of a file's path below the console's
/// directory. The query is left out, and so is what would lead out of the
/// directory. No pieces stand for the index page, or for the directory itself
/// where all were left out.
pub fn file_for(path: &str) -> (r: Vec<String>)
    ensures
        r.deep_view() == file_pieces(path@),
{
    let rel = relative_path(path);
    let none: Vec<String> = Vec::new();
    assert(none.deep_view() =~= Seq::<Seq<char>>::empty());
    proof {
        reveal_strlit("");
        assert(rel@.len() == 0 ==> rel@ =~= ""@);
    }
    if str_eq(rel.as_str(), "") || str_eq(rel.as_str(), "/") {
        return none;
    }
    let parts = split_at(rel.as_str(), '/');
    select(
        &parts,
        |s: &String| -> (b: bool)
            ensures
                b == is_safe()(s.deep_view())
            {
                proof {
                    reveal_strlit("");
                    assert(s@.len() == 0 ==> s@ =~= ""@);
                }
                !contains_text(s.as_str(), "..") && !str_eq(s.as_str(), "")
            },
        Ghost(is_safe()),
    )
}

/// No piece of a file's path leads out of the console's directory.
pub proof fn law_files_stay_inside(path: Seq<char>, i: int)
    requires
        0 <= i < file_pieces(path).len(),
    ensures
        !occurs_in(file_pieces(path)[i], ".."@),
        file_pieces(path)[i].len() > 0,
{
    let rel = relative(path);
    pieces(rel, '/').lemma_filter_pred(is_safe(), i);
}

/// A letter in lower case, where it is one of the twenty-six.
pub open spec fn lower(c: char) -> char {
    if 'A' <= c && c <= 'Z' {
        ((c as u32 + 32) as u8) as char
    } else {
        c
    }
}

/// A text with its letters in lower case, as far as they are of the twenty-six.
pub open spec fn lowered(s: Seq<char>) -> Seq<char> {
    s.map_values(|c: char| lower(c))
}

fn lower_char(c: char) -> (r: char)
    ensures
        r == lower(c),
{
    if 'A' <= c && c <= 'Z' {
        let code: u32 = c as u32 + 32;
        (code as u8) as char
    } else {
        c
    }
}

fn lower_text(s: &Vec<char>) -> (r: String)
    ensures
        r@ == lowered(s@),
{
    let mut out: Vec<char> = Vec::new();
    let mut i: usize = 0;
    while i < s.len()
        invariant
            i <= s.len(),
            out@.len() == i,
            forall|k: int| 0 <= k < i ==> #[trigger] out@[k] == lower(s@[k]),
        decreases s.len() - i,
    {
        out.push(lower_char(s[i]));
        i = i + 1;
    }
    assert(out@ =~= lowered(s@));
    text_of(&out)
}

/// The place of the last dot in a name.
pub open spec fn last_dot(name: Seq<char>) -> Option<int>
    decreases name.len(),
{
    if name.len() == 0 {
        None
    } else if name.last() == '.' {
        Some(name.len() - 1)
    } else {
        last_dot(name.drop_last())
    }
}

/// Selects the components of a path that name something.
pub open spec fn is_component() -> spec_fn(Seq<char>) -> bool {
    |s: Seq<char>| s.len() > 0 && s != "."@
}

/// The last component of a path.
pub open spec fn file_name(path: Seq<char>) -> Option<Seq<char>> {
    let parts = pieces(path, '/').filter(is_component());
    if parts.len() == 0 || parts.last() == ".."@ {
        None
    } else {
        Some(parts.last())
    }
}

/// The extension of a file: what follows the last dot of its name, unless the
/// name begins there.
pub open spec fn extension(path: Seq<char>) -> Option<Seq<char>> {
    match file_name(path) {
        None => None,
        Some(name) => match last_dot(name) {
            Some(i) => if i > 0 {
                Some(name.skip(i + 1))
            } else {
                None
            },
            None => None,
        },
    }
}

fn find_dot(name: &Vec<char>) -> (r: Option<usize>)
    ensures
        match last_dot(name@) {
            Some(i) => r is Some && r->Some_0 == i && 0 <= i < name.len(),
            None => r is None,
        },
{
    let mut n: usize = name.len();
    assert(name@.take(n as int) =~= name@);
    while n > 0
        invariant
            n <= name.len(),
            last_dot(name@) == last_dot(name@.take(n as int)),
        decreases n,
    {
        proof {
            assert(name@.take(n as int).last() == name@[n - 1]);
            assert(name@.take(n as int).drop_last() =~= name@.take(n - 1));
        }
        if name[n - 1] == '.' {
            return Some(n - 1);
        }
        n = n - 1;
    }
    None
}

fn extension_of(path: &str) -> (r: Option<String>)
    ensures
        match extension(path@) {
            None => r is None,
            Some(e) => r is Some && r->Some_0@ == lowered(e),
        },
{
    let parts = split_at(path, '/');
    let named = select(
        &parts,
        |s: &String| -> (b: bool)
            ensures
                b == is_component()(s.deep_view())
            {
                proof {
                    reveal_strlit("");
                    assert(s@.len() == 0 ==> s@ =~= ""@);
                }
                !str_eq(s.as_str(), "") && !str_eq(s.as_str(), ".")
            },
        Ghost(is_component()),
    );
    assert(named.deep_view().len() == named.len());
    if named.len() == 0 {
        return None;
    }
    let last = &named[named.len() - 1];
    assert(named.deep_view().last() == last@);
    if str_eq(last.as_str(), "..") {
        return None;
    }
    let name = chars_of(last.as_str());
    match find_dot(&name) {
        Some(i) => if i > 0 {
            let mut tail: Vec<char> = Vec::new();
            let mut k: usize = i + 1;
            assert(tail@ =~= name@.subrange(i + 1, k as int));
            while k < name.len()
                invariant
                    i + 1 <= k <= name.len(),
                    tail@ == name@.subrange(i + 1, k as int),
                decreases name.len() - k,
            {
                tail.push(name[k]);
                k = k + 1;
                assert(tail@ =~= name@.subrange(i + 1, k as int));
            }
            assert(tail@ =~= name@.skip(i + 1));
            Some(lower_text(&tail))
        } else {
            None
        },
        None => None,
    }
}

/// The content type of an extension.
pub open spec fn type_of(ext: Option<Seq<char>>) -> Seq<char> {
    match ext {
        None => "application/octet-stream"@,
        Some(e) => if e == "html"@ {
            "text/html; charset=utf-8"@
        } else if e == "js"@ || e == "mjs"@ {
            "application/javascript"@
        } else if e == "css"@ {
            "text/css"@
        } else if e == "json"@ {
            "application/json"@
        } else if e == "svg"@ {
            "image/svg+xml"@
        } else if e == "png"@ {
            "image/png"@
        } else if e == "jpg"@ || e == "jpeg"@ {
            "image/jpeg"@
        } else if e == "gif"@ {
            "image/gif"@
        } else if e == "ico"@ {
            "image/x-icon"@
        } else if e == "woff"@ || e == "woff2"@ {
            "font/woff"@
        } else if e == "ttf"@ {
            "font/ttf"@
        } else if e == "wasm"@ {
            "application/wasm"@
        } else {
            "application/octet-stream"@
        },
    }
}

/// The extension of a file in lower case.
pub open spec fn lowered_extension(path: Seq<char>) -> Option<Seq<char>> {
    match extension(path) {
        Some(e) => Some(lowered(e)),
        None => None,
    }
}

/// Determine content type from file extension.
pub fn content_type(path: &str) -> (r: &'static str)
    ensures
        r@ == type_of(lowered_extension(path@)),
{
    let ext = match extension_of(path) {
        None => {
            return "application/octet-stream";
        },
        Some(e) => e,
    };
    let e = ext.as_str();
    if str_eq(e, "html") {
        "text/html; charset=utf-8"
    } else if str_eq(e, "js") || str_eq(e, "mjs") {
        "application/javascript"
    } else if str_eq(e, "css") {
        "text/css"
    } else if str_eq(e, "json") {
        "application/json"
    } else if str_eq(e, "svg") {
        "image/svg+xml"
    } else if str_eq(e, "png") {
        "image/png"
    } else if str_eq(e, "jpg") || str_eq(e, "jpeg") {
        "image/jpeg"
    } else if str_eq(e, "gif") {
        "image/gif"
    } else if str_eq(e, "ico") {
        "image/x-icon"
    } else if str_eq(e, "woff") || str_eq(e, "woff2") {
        "font/woff"
    } else if str_eq(e, "ttf") {
        "font/ttf"
    } else if str_eq(e, "wasm") {
        "application/wasm"
    } else {
        "application/octet-stream"
    }
}

/// How a response begins.
pub open spec fn header_text(
    status: u16,
    reason: Seq<char>,
    content_type: Seq<char>,
    length: nat,
) -> Seq<char> {
    "HTTP/1.1 "@ + nat_text(status as nat) + " "@ + reason + "\r\nContent-Type: "@ + content_type
        + "\r\nContent-Length: "@ + nat_text(length) + "\r\nConnection: close\r\n\r\n"@
}

/// How a response with a body of the given length begins.
pub fn response_header(status: u16, reason: &str, content_type: &str, length: usize) -> (r: String)
    ensures
        r@ == header_text(status, reason@, content_type@, length as nat),
{
    let code = show_u64(status as u64);
    let size = show_u64(length as u64);
    let mut r: String = "HTTP/1.1 ".to_owned();
    r.push_str(code.as_str());
    r.push_str(" ");
    r.push_str(reason);
    r.push_str("\r\nContent-Type: ");
    r.push_str(content_type);
    r.push_str("\r\nContent-Length: ");
    r.push_str(size.as_str());
    r.push_str("\r\nConnection: close\r\n\r\n");
    r
}

/// The body that answers a message to which there is no response.
pub fn empty_response() -> (r: Json)
    ensures
        r.deep_view() == JsonView::Obj(
            seq![
                ("jsonrpc"@, JsonView::Str("2.0"@)),
                ("result"@, JsonView::Obj(Seq::empty())),
            ],
        ),
{
    let none: Vec<(String, Json)> = Vec::new();
    assert(crate::json::members_view(none@) =~= Seq::<(Seq<char>, JsonView)>::empty());
    object2("jsonrpc", string("2.0"), "result", crate::json::object(none))
}

/// The body of a response.
#[derive(Debug)]
pub enum Body {
    Bytes(Vec<u8>),
    Text(&'static str),
}

/// A response: its status, the type of its body, and the body.
#[derive(Debug)]
pub struct Response {
    pub status: u16,
    pub reason: &'static str,
    pub content_type: &'static str,
    pub body: Body,
}

/// [`Body`] as a mathematical value.
#[verifier::ext_equal]
pub enum BodyView {
    Bytes(Seq<u8>),
    Text(Seq<char>),
}

/// [`Response`] as a mathematical value.
#[verifier::ext_equal]
pub struct ResponseView {
    pub status: u16,
    pub reason: Seq<char>,
    pub content_type: Seq<char>,
    pub body: BodyView,
}

impl DeepView for Response {
    type V = ResponseView;

    open spec fn deep_view(&self) -> ResponseView {
        ResponseView {
            status: self.status,
            reason: self.reason@,
            content_type: self.content_type@,
            body: match self.body {
                Body::Bytes(b) => BodyView::Bytes(b@),
                Body::Text(t) => BodyView::Text(t@),
            },
        }
    }
}

/// A response that all is well, with bytes.
pub open spec fn found_response(content_type: Seq<char>, data: Seq<u8>) -> ResponseView {
    ResponseView {
        status: 200,
        reason: "OK"@,
        content_type,
        body: BodyView::Bytes(data),
    }
}

/// A response that says why there is nothing.
pub open spec fn refused_response(
    status: u16,
    reason: Seq<char>,
    text: Seq<char>,
) -> ResponseView {
    ResponseView {
        status,
        reason,
        content_type: "application/json"@,
        body: BodyView::Text(text),
    }
}

/// The type of the file at a path below the console's directory; the index page
/// where the path has no pieces.
pub open spec fn file_type(pieces: Seq<Seq<char>>) -> Seq<char> {
    if pieces.len() == 0 {
        "text/html; charset=utf-8"@
    } else {
        type_of(lowered_extension(pieces.last()))
    }
}

/// The response to a request for a file of the console. Without a directory there
/// are no files; a file that is there is handed out under its type; any other
/// path leads to the index page, where there is one.
pub open spec fn file_answer(
    configured: bool,
    pieces: Seq<Seq<char>>,
    file: Option<Seq<u8>>,
    index: Option<Seq<u8>>,
) -> ResponseView {
    if !configured {
        refused_response(404, "Not Found"@, "{\"error\":\"no UI directory configured\"}"@)
    } else {
        match file {
            Some(data) => found_response(file_type(pieces), data),
            None => match index {
                Some(data) => found_response("text/html; charset=utf-8"@, data),
                None => refused_response(404, "Not Found"@, "not found"@),
            },
        }
    }
}

/// The bytes of a file that was read.
pub open spec fn bytes_view(b: Option<Vec<u8>>) -> Option<Seq<u8>> {
    match b {
        Some(v) => Some(v@),
        None => None,
    }
}

/// The response to a request for a file of the console, from what reading the
/// file and the index page gave. The index page is looked at only where the file
/// is not there.
pub fn file_response(
    configured: bool,
    pieces: &Vec<String>,
    file: Option<Vec<u8>>,
    index: Option<Vec<u8>>,
) -> (r: Response)
    ensures
        r.deep_view() == file_answer(
            configured,
            pieces.deep_view(),
            bytes_view(file),
            bytes_view(index),
        ),
{
    if !configured {
        return Response {
            status: 404,
            reason: "Not Found",
            content_type: "application/json",
            body: Body::Text("{\"error\":\"no UI directory configured\"}"),
        };
    }
    match file {
        Some(data) => {
            assert(pieces.deep_view().len() == pieces.len());
            let kind: &'static str = if pieces.len() == 0 {
                "text/html; charset=utf-8"
            } else {
                assert(pieces.deep_view().last() == pieces[pieces.len() - 1]@);
                content_type(pieces[pieces.len() - 1].as_str())
            };
            Response { status: 200, reason: "OK", content_type: kind, body: Body::Bytes(data) }
        },
        None => match index {
            Some(data) => Response {
                status: 200,
                reason: "OK",
                content_type: "text/html; charset=utf-8",
                body: Body::Bytes(data),
            },
            None => Response {
                status: 404,
                reason: "Not Found",
                content_type: "application/json",
                body: Body::Text("not found"),
            },
        },
    }
}

/// The response to a request with a method that is not handled.
pub fn not_allowed() -> (r: Response)
    ensures
        r.deep_view() == refused_response(405, "Method Not Allowed"@, "{}"@),
{
    Response {
        status: 405,
        reason: "Method Not Allowed",
        content_type: "application/json",
        body: Body::Text("{}"),
    }
}

} // verus!
