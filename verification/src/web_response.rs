//! The answers the content webserver builds around a file or directory: the
//! headers of a file response, the redirect of a directory path that lacks
//! its trailing `/`, and what a directory request turns into.

use vstd::prelude::*;

use crate::http_range::{mime_for_path, multipart_content_type, spec_mime_for_path, ResponsePlan};
use crate::strings::{push_signed_decimal, push_str, signed_dec, string_from_chars};
use crate::text::chars_of;

verus! {

/// The name the server gives in its `Server` header.
pub const SERVER_NAME: &'static str = "Magnetite Webserver";

/// The time every file response gives as its last change.
pub const LAST_MODIFIED: &'static str = "Wed, 22 Apr 2020 02:08:01 GMT";

/// Response headers as name and value texts.
pub open spec fn headers_view(h: Seq<(String, String)>) -> Seq<(Seq<char>, Seq<char>)> {
    h.map_values(|p: (String, String)| (p.0@, p.1@))
}

/// The headers of a file response planned as `plan` for the request path
/// `path`: the server's name, `Accept-Ranges: bytes`, the time of last
/// change, the `Content-Range` and `Content-Length` where the plan has them,
/// and the content type: multipart with `boundary` where the plan sends
/// several spans, else the type the path's extension names.
pub open spec fn file_headers(
    plan: ResponsePlan,
    path: Seq<char>,
    boundary: Seq<char>,
) -> Seq<(Seq<char>, Seq<char>)> {
    let head = seq![
        ("server"@, SERVER_NAME@),
        ("accept-ranges"@, "bytes"@),
        ("last-modified"@, LAST_MODIFIED@),
    ];
    let range = match plan.content_range {
        Some(cr) => seq![("content-range"@, cr@)],
        None => Seq::empty(),
    };
    let length = match plan.content_length {
        Some(n) => seq![("content-length"@, signed_dec(n as int))],
        None => Seq::empty(),
    };
    let ctype = if plan.multipart {
        "multipart/byteranges; boundary="@ + boundary
    } else {
        spec_mime_for_path(path)
    };
    head + range + length + seq![("content-type"@, ctype)]
}

/// Appends the header `name: value` to `h`.
fn push_header(h: &mut Vec<(String, String)>, name: &str, value: String)
    ensures
        headers_view(final(h)@) == headers_view(old(h)@).push((name@, value@)),
{
    h.push((String::from_str(name), value));
    assert(headers_view(h@) =~= headers_view(old(h)@).push((name@, value@)));
}

/// The headers of the file response planned as `plan` for the path `path`,
/// with `boundary` separating the parts of a multipart body.
pub fn file_response_headers(plan: &ResponsePlan, path: &str, boundary: &str) -> (r: Vec<
    (String, String),
>)
    ensures
        headers_view(r@) == file_headers(*plan, path@, boundary@),
{
    let mut h: Vec<(String, String)> = Vec::new();
    push_header(&mut h, "server", String::from_str(SERVER_NAME));
    push_header(&mut h, "accept-ranges", String::from_str("bytes"));
    push_header(&mut h, "last-modified", String::from_str(LAST_MODIFIED));
    match &plan.content_range {
        Some(cr) => push_header(&mut h, "content-range", cr.clone()),
        None => {},
    }
    match plan.content_length {
        Some(n) => {
            let mut v: Vec<char> = Vec::new();
            push_signed_decimal(&mut v, n);
            push_header(&mut h, "content-length", string_from_chars(v.as_slice()));
        },
        None => {},
    }
    if plan.multipart {
        push_header(&mut h, "content-type", multipart_content_type(boundary));
    } else {
        push_header(&mut h, "content-type", String::from_str(mime_for_path(path)));
    }
    assert(headers_view(h@) =~= file_headers(*plan, path@, boundary@));
    h
}

/// What a request for a directory turns into.
#[derive(Debug)]
pub enum DirectoryAction {
    /// Redirect to this path: the request's path with a `/` after it.
    Redirect(String),
    /// Answer with a listing of the directory.
    Listing,
    /// Answer that nothing is there.
    NotFound,
}

/// Whether `path` ends with `/`.
pub open spec fn ends_with_slash(path: Seq<char>) -> bool {
    path.len() > 0 && path.last() == '/'
}

/// What a request whose path `path` names a directory turns into: a path
/// without its trailing `/` is redirected to the path with one; otherwise
/// the directory is listed where listings are enabled, and not found where
/// they are not.
pub fn directory_action(path: &str, listings_enabled: bool) -> (r: DirectoryAction)
    ensures
        !ends_with_slash(path@) ==> (r matches DirectoryAction::Redirect(p) && p@ == path@.push(
            '/',
        )),
        ends_with_slash(path@) && listings_enabled ==> r is Listing,
        ends_with_slash(path@) && !listings_enabled ==> r is NotFound,
{
    let mut v = chars_of(path);
    let n = v.len();
    if n == 0 || v[n - 1] != '/' {
        v.push('/');
        return DirectoryAction::Redirect(string_from_chars(v.as_slice()));
    }
    if listings_enabled {
        DirectoryAction::Listing
    } else {
        DirectoryAction::NotFound
    }
}

/// A complete small response: status, headers and body text.
#[derive(Debug)]
pub struct SimpleResponse {
    pub status: u16,
    pub headers: Vec<(String, String)>,
    pub body: String,
}

/// The body of a redirect to `new_path`.
pub open spec fn redirect_body(new_path: Seq<char>) -> Seq<char> {
    "Redirecting you to <a href=\""@ + new_path + "\">"@ + new_path + "</a>"@
}

/// The redirect to `new_path`: status 302, the server's name, an HTML content
/// type and the `Location`, and a body that links to the new path.
pub fn response_http_found(new_path: &str) -> (r: SimpleResponse)
    ensures
        r.status == 302,
        headers_view(r.headers@) == seq![
            ("server"@, SERVER_NAME@),
            ("content-type"@, "text/html; charset=utf-8"@),
            ("location"@, new_path@),
        ],
        r.body@ == redirect_body(new_path@),
{
    let mut h: Vec<(String, String)> = Vec::new();
    push_header(&mut h, "server", String::from_str(SERVER_NAME));
    push_header(&mut h, "content-type", String::from_str("text/html; charset=utf-8"));
    push_header(&mut h, "location", String::from_str(new_path));
    let mut b: Vec<char> = Vec::new();
    push_str(&mut b, "Redirecting you to <a href=\"");
    push_str(&mut b, new_path);
    push_str(&mut b, "\">");
    push_str(&mut b, new_path);
    push_str(&mut b, "</a>");
    assert(headers_view(h@) =~= seq![
        ("server"@, SERVER_NAME@),
        ("content-type"@, "text/html; charset=utf-8"@),
        ("location"@, new_path@),
    ]);
    SimpleResponse { status: 302, headers: h, body: string_from_chars(b.as_slice()) }
}

} // verus!
