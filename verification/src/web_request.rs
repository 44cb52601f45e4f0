//! Requests to the library on the network, and the answers to them.
use vstd::prelude::*;

use crate::hex;
use crate::text;
use crate::web_share;
use crate::web_share::{SafeNote, Session, WebShare};

verus! {

/// What the bytes of a form field stand for, from `at` on: a plus for a space, a
/// percent sign and two hexadecimal digits for a byte, all else for itself.
pub open spec fn unescaped(bytes: Seq<u8>, at: int) -> Seq<u8>
    decreases bytes.len() - at,
{
    if at >= bytes.len() {
        Seq::empty()
    } else if bytes[at] == 43 {
        seq![32u8] + unescaped(bytes, at + 1)
    } else if bytes[at] == 37 && at + 2 < bytes.len() && hex::pair_value(
        bytes[at + 1] as char,
        bytes[at + 2] as char,
    ) is Some {
        seq![hex::pair_value(bytes[at + 1] as char, bytes[at + 2] as char)->0 as u8] + unescaped(
            bytes,
            at + 3,
        )
    } else {
        seq![bytes[at]] + unescaped(bytes, at + 1)
    }
}

/// The bytes that a form field stands for.
pub fn percent_decode_bytes(value: &str) -> (output: Vec<u8>)
    ensures
        output@ == unescaped(vstd::utf8::encode_utf8(value@), 0),
{
    let bytes: Vec<u8> = text::bytes_of(value);
    let mut output: Vec<u8> = Vec::new();
    let mut at: usize = 0;
    assert(output@ + unescaped(bytes@, 0) == unescaped(bytes@, 0));
    while at < bytes.len()
        invariant
            at <= bytes@.len(),
            output@ + unescaped(bytes@, at as int) == unescaped(bytes@, 0),
        decreases bytes@.len() - at,
    {
        let ghost before = output@;
        let byte: u8 = bytes[at];
        let mut pair: Option<u8> = None;
        if byte == 37 && bytes.len() - at > 2 {
            pair = hex::hex_pair(bytes[at + 1] as char, bytes[at + 2] as char);
        }
        if byte == 43 {
            output.push(32);
            proof {
                let rest = unescaped(bytes@, at + 1);
                assert(before + (seq![32u8] + rest) == output@ + rest);
            }
            at += 1;
        } else if let Some(decoded) = pair {
            output.push(decoded);
            proof {
                let rest = unescaped(bytes@, at + 3);
                assert(before + (seq![decoded] + rest) == output@ + rest);
            }
            at += 3;
        } else {
            output.push(byte);
            proof {
                let rest = unescaped(bytes@, at + 1);
                assert(before + (seq![byte] + rest) == output@ + rest);
            }
            at += 1;
        }
    }
    assert(output@ + Seq::<u8>::empty() == output@);
    output
}

/// The text that a form field stands for.
pub fn percent_decode(value: &str) -> (decoded: String)
    ensures
        ({
            let bytes = unescaped(vstd::utf8::encode_utf8(value@), 0);
            &&& decoded@ == text::utf8_lossy(bytes)
            &&& vstd::utf8::valid_utf8(bytes) ==> decoded@ == vstd::utf8::decode_utf8(bytes)
        }),
{
    text::utf8_to_string_lossy(percent_decode_bytes(value).as_slice())
}

/// The value of the first of the fields, from `at` on, that has a name; a field
/// without an equals sign has none.
pub open spec fn field_value(fields: Seq<Seq<char>>, key: Seq<char>, at: int) -> Option<Seq<char>>
    decreases fields.len() - at,
{
    if at >= fields.len() {
        None
    } else {
        let field = fields[at];
        let split = text::first_of(field, '=', 0);
        if split < field.len() && field.take(split) == key {
            Some(field.skip(split + 1))
        } else {
            field_value(fields, key, at + 1)
        }
    }
}

/// The value, as it was sent, that a form gives to a name.
pub open spec fn raw_value(body: Seq<char>, key: Seq<char>) -> Option<Seq<char>> {
    field_value(text::pieces(body, '&'), key, 0)
}

/// The text that a form gives to a name.
pub fn form_value(body: &str, key: &str) -> (value: Option<String>)
    ensures
        match value {
            Some(v) => raw_value(body@, key@) matches Some(raw) && {
                let bytes = unescaped(vstd::utf8::encode_utf8(raw), 0);
                &&& v@ == text::utf8_lossy(bytes)
                &&& vstd::utf8::valid_utf8(bytes) ==> v@ == vstd::utf8::decode_utf8(bytes)
            },
            None => raw_value(body@, key@) is None,
        },
{
    let fields: Vec<Vec<char>> = text::split(text::chars_of(body).as_slice(), '&');
    let wanted: Vec<char> = text::chars_of(key);
    let ghost shown = text::char_lists(fields@);
    let mut at: usize = 0;
    while at < fields.len()
        invariant
            at <= fields@.len(),
            shown == text::char_lists(fields@),
            wanted@ == key@,
            raw_value(body@, key@) == field_value(shown, key@, at as int),
        decreases fields@.len() - at,
    {
        let field: &Vec<char> = &fields[at];
        assert(shown[at as int] == field@);
        let split: usize = text::find_char(field.as_slice(), '=', 0);
        if split < field.len() {
            let name: Vec<char> = text::chars_between(field.as_slice(), 0, split);
            assert(name@ == field@.take(split as int));
            if text::same_chars(name.as_slice(), wanted.as_slice()) {
                let raw: Vec<char> = text::chars_between(field.as_slice(), split + 1, field.len());
                assert(raw@ == field@.skip(split + 1));
                return Some(percent_decode(text::string_of(raw.as_slice()).as_str()));
            }
        }
        at += 1;
    }
    None
}

/// A way of asking.
#[derive(Debug, Clone, Copy, PartialEq, Eq, Structural)]
pub enum Method {
    Get,
    Post,
    Other,
}

/// A request: how it asks, for what, with which headers, and what it brings.
#[derive(Debug)]
pub struct WebRequest {
    pub method: Method,
    pub url: String,
    pub headers: Vec<(String, String)>,
    pub body: String,
}

/// An answer: its status, its headers, and its body.
#[derive(Debug)]
pub struct WebResponse {
    pub status: u16,
    pub headers: Vec<(String, String)>,
    pub body: Vec<u8>,
}

/// Headers as sequences of characters.
pub open spec fn header_views(headers: Seq<(String, String)>) -> Seq<(Seq<char>, Seq<char>)> {
    headers.map_values(|header: (String, String)| (header.0@, header.1@))
}

/// An answer as a mathematical value.
#[verifier::ext_equal]
pub struct ResponseView {
    pub status: u16,
    pub headers: Seq<(Seq<char>, Seq<char>)>,
    pub body: Seq<u8>,
}

impl View for WebResponse {
    type V = ResponseView;

    open spec fn view(&self) -> ResponseView {
        ResponseView {
            status: self.status,
            headers: header_views(self.headers@),
            body: self.body@,
        }
    }
}

/// The headers of every answer: what it is, and that it is not to be kept nor
/// guessed at.
pub open spec fn plain_headers(content: Seq<char>) -> Seq<(Seq<char>, Seq<char>)> {
    seq![
        ("Content-Type"@, content),
        ("Cache-Control"@, "no-store"@),
        ("X-Content-Type-Options"@, "nosniff"@),
    ]
}

/// The headers of a page.
pub open spec fn page_headers() -> Seq<(Seq<char>, Seq<char>)> {
    plain_headers("text/html; charset=utf-8"@).push(
        (
            "Content-Security-Policy"@,
            "default-src 'self'; style-src 'unsafe-inline'; form-action 'self'; frame-ancestors 'none'"@,
        ),
    )
}

/// An answer that is a page.
pub open spec fn html_response(status: u16, body: Seq<char>) -> ResponseView {
    ResponseView { status, headers: page_headers(), body: vstd::utf8::encode_utf8(body) }
}

/// An answer that is a line of text.
pub open spec fn text_response(status: u16, body: Seq<char>) -> ResponseView {
    ResponseView {
        status,
        headers: plain_headers("text/plain; charset=utf-8"@),
        body: vstd::utf8::encode_utf8(body),
    }
}

/// The answer to the right code: the key of the session, and the way to the
/// library.
pub open spec fn welcome(session_key: Seq<char>) -> ResponseView {
    ResponseView {
        headers: page_headers().push(
            (
                "Set-Cookie"@,
                "qw_session="@ + session_key + "; HttpOnly; SameSite=Strict; Path=/"@,
            ),
        ).push(("Location"@, "/"@)),
        ..html_response(303, "<p>Access granted. <a href=\"/\">Open the library</a>.</p>"@)
    }
}

fn add_header(headers: &mut Vec<(String, String)>, name: &str, value: &str)
    ensures
        header_views(final(headers)@) == header_views(old(headers)@).push((name@, value@)),
{
    let header: (String, String) = (text::owned(name), text::owned(value));
    headers.push(header);
    assert(header_views(headers@) == header_views(old(headers)@).push((name@, value@)));
}

fn make_headers(content: &str) -> (headers: Vec<(String, String)>)
    ensures
        header_views(headers@) == plain_headers(content@),
{
    let mut headers: Vec<(String, String)> = Vec::new();
    add_header(&mut headers, "Content-Type", content);
    add_header(&mut headers, "Cache-Control", "no-store");
    add_header(&mut headers, "X-Content-Type-Options", "nosniff");
    assert(header_views(headers@) == plain_headers(content@));
    headers
}

/// Answers with a page.
pub fn respond_html(status: u16, body: &str) -> (response: WebResponse)
    ensures
        response@ == html_response(status, body@),
{
    let mut headers: Vec<(String, String)> = make_headers("text/html; charset=utf-8");
    add_header(
        &mut headers,
        "Content-Security-Policy",
        "default-src 'self'; style-src 'unsafe-inline'; form-action 'self'; frame-ancestors 'none'",
    );
    WebResponse { status, headers, body: text::bytes_of(body) }
}

/// Answers with a line of text.
pub fn respond_text(status: u16, body: &str) -> (response: WebResponse)
    ensures
        response@ == text_response(status, body@),
{
    WebResponse {
        status,
        headers: make_headers("text/plain; charset=utf-8"),
        body: text::bytes_of(body),
    }
}

/// Welcomes a browser that brought the right code.
fn respond_welcome(session_key: &str) -> (response: WebResponse)
    ensures
        response@ == welcome(session_key@),
{
    let mut response: WebResponse = respond_html(
        303,
        "<p>Access granted. <a href=\"/\">Open the library</a>.</p>",
    );
    let mut cookie: String = text::owned("qw_session=");
    cookie.append(session_key);
    cookie.append("; HttpOnly; SameSite=Strict; Path=/");
    add_header(&mut response.headers, "Set-Cookie", cookie.as_str());
    add_header(&mut response.headers, "Location", "/");
    response
}

/// The name that a file is offered under, from its label: its last part, with
/// underscores for all but plain characters.
pub open spec fn offered_name(label: Seq<char>) -> Seq<char> {
    let parts = text::pieces(label, '/');
    let last = parts.last();
    let name = if web_share::ordinary_name(last) {
        last
    } else {
        "note.md"@
    };
    name.map_values(|c: char| offered_char(c))
}

pub open spec fn offered_char(c: char) -> char {
    if text::ascii_alphanumeric(c) || c == ' ' || c == '.' || c == '-' || c == '_' {
        c
    } else {
        '_'
    }
}

/// An answer that is a file to be kept.
pub open spec fn download_response(contents: Seq<u8>, label: Seq<char>) -> ResponseView {
    ResponseView {
        status: 200,
        headers: plain_headers("text/markdown; charset=utf-8"@).push(
            ("Content-Disposition"@, "attachment; filename=\""@ + offered_name(label) + "\""@),
        ),
        body: contents,
    }
}

fn offer_name(label: &str) -> (name: String)
    ensures
        name@ == offered_name(label@),
{
    let parts: Vec<Vec<char>> = text::split(text::chars_of(label).as_slice(), '/');
    let last: &Vec<char> = &parts[parts.len() - 1];
    assert(text::char_lists(parts@).last() == last@);
    let whole: String = text::string_of(last.as_slice());
    let chars: Vec<char> = if last.len() > 0 && !text::same(whole.as_str(), ".") && !text::same(
        whole.as_str(),
        "..",
    ) {
        text::chars_of(whole.as_str())
    } else {
        text::chars_of("note.md")
    };
    let ghost all = chars@.map_values(|c: char| offered_char(c));
    let mut name = String::new();
    let mut i: usize = 0;
    assert(name@ == all.take(0));
    while i < chars.len()
        invariant
            i <= chars@.len(),
            all == chars@.map_values(|c: char| offered_char(c)),
            name@ == all.take(i as int),
        decreases chars@.len() - i,
    {
        let c: char = chars[i];
        if text::is_ascii_alphanumeric(c) || c == ' ' || c == '.' || c == '-' || c == '_' {
            name.push(c);
        } else {
            name.push('_');
        }
        i += 1;
        assert(name@ == all.take(i as int));
    }
    assert(all.take(all.len() as int) == all);
    name
}

/// Answers with a file to be kept.
pub fn respond_download(contents: Vec<u8>, label: &str) -> (response: WebResponse)
    ensures
        response@ == download_response(contents@, label@),
{
    let mut headers: Vec<(String, String)> = make_headers("text/markdown; charset=utf-8");
    let mut disposition: String = text::owned("attachment; filename=\"");
    disposition.append(offer_name(label).as_str());
    disposition.append("\"");
    add_header(&mut headers, "Content-Disposition", disposition.as_str());
    WebResponse { status: 200, headers, body: contents }
}

/// A letter without its case, if it is one of ASCII.
pub open spec fn plain_letter(c: char) -> char {
    if 'A' <= c <= 'Z' {
        (c as u32 + 32) as char
    } else {
        c
    }
}

/// Whether two names of headers are the same, whatever the case of their letters.
pub open spec fn same_header(a: Seq<char>, b: Seq<char>) -> bool {
    a.len() == b.len() && forall|i: int|
        0 <= i < a.len() ==> plain_letter(#[trigger] a[i]) == plain_letter(b[i])
}

/// Whether one of the pieces of a cookie header, from `at` on, is a cookie.
pub open spec fn holds_cookie(pieces: Seq<Seq<char>>, cookie: Seq<char>, at: int) -> bool
    decreases pieces.len() - at,
{
    if at >= pieces.len() {
        false
    } else {
        text::trimmed(pieces[at]) == cookie || holds_cookie(pieces, cookie, at + 1)
    }
}

/// Whether a header carries the key of the session.
pub open spec fn carries_key(header: (Seq<char>, Seq<char>), session_key: Seq<char>) -> bool {
    same_header(header.0, "Cookie"@) && holds_cookie(
        text::pieces(header.1, ';'),
        "qw_session="@ + session_key,
        0,
    )
}

/// Whether one of the headers carries the key of the session.
pub open spec fn admitted(headers: Seq<(Seq<char>, Seq<char>)>, session_key: Seq<char>) -> bool {
    exists|i: int| 0 <= i < headers.len() && carries_key(#[trigger] headers[i], session_key)
}

fn lower_letter(c: char) -> (lower: char)
    ensures
        lower == plain_letter(c),
{
    match c {
        'A' => 'a',
        'B' => 'b',
        'C' => 'c',
        'D' => 'd',
        'E' => 'e',
        'F' => 'f',
        'G' => 'g',
        'H' => 'h',
        'I' => 'i',
        'J' => 'j',
        'K' => 'k',
        'L' => 'l',
        'M' => 'm',
        'N' => 'n',
        'O' => 'o',
        'P' => 'p',
        'Q' => 'q',
        'R' => 'r',
        'S' => 's',
        'T' => 't',
        'U' => 'u',
        'V' => 'v',
        'W' => 'w',
        'X' => 'x',
        'Y' => 'y',
        'Z' => 'z',
        _ => c,
    }
}

fn is_same_header(a: &[char], b: &[char]) -> (yes: bool)
    ensures
        yes == same_header(a@, b@),
{
    if a.len() != b.len() {
        return false;
    }
    let mut i: usize = 0;
    while i < a.len()
        invariant
            i <= a@.len() == b@.len(),
            forall|k: int| 0 <= k < i ==> plain_letter(#[trigger] a@[k]) == plain_letter(b@[k]),
        decreases a@.len() - i,
    {
        if lower_letter(a[i]) != lower_letter(b[i]) {
            return false;
        }
        i += 1;
    }
    true
}

fn has_cookie(value: &str, cookie: &[char]) -> (yes: bool)
    ensures
        yes == holds_cookie(text::pieces(value@, ';'), cookie@, 0),
{
    let pieces: Vec<Vec<char>> = text::split(text::chars_of(value).as_slice(), ';');
    let ghost shown = text::char_lists(pieces@);
    let mut at: usize = 0;
    while at < pieces.len()
        invariant
            at <= pieces@.len(),
            shown == text::char_lists(pieces@),
            shown == text::pieces(value@, ';'),
            holds_cookie(shown, cookie@, at as int) == holds_cookie(shown, cookie@, 0),
        decreases pieces@.len() - at,
    {
        assert(shown[at as int] == pieces@[at as int]@);
        let trimmed: Vec<char> = text::trim(pieces[at].as_slice());
        if text::same_chars(trimmed.as_slice(), cookie) {
            return true;
        }
        at += 1;
    }
    false
}

/// Whether a request carries the key of the session.
pub fn authenticated(headers: &Vec<(String, String)>, session_key: &str) -> (yes: bool)
    ensures
        yes == admitted(header_views(headers@), session_key@),
{
    let ghost shown = header_views(headers@);
    let mut cookie: String = text::owned("qw_session=");
    cookie.append(session_key);
    let wanted: Vec<char> = text::chars_of(cookie.as_str());
    let name: Vec<char> = text::chars_of("Cookie");
    let mut i: usize = 0;
    while i < headers.len()
        invariant
            i <= headers@.len(),
            shown == header_views(headers@),
            wanted@ == "qw_session="@ + session_key@,
            name@ == "Cookie"@,
            forall|k: int| 0 <= k < i ==> !carries_key(#[trigger] shown[k], session_key@),
        decreases headers@.len() - i,
    {
        assert(shown[i as int] == (headers@[i as int].0@, headers@[i as int].1@));
        if is_same_header(text::chars_of(headers[i].0.as_str()).as_slice(), name.as_slice())
            && has_cookie(headers[i].1.as_str(), wanted.as_slice()) {
            assert(carries_key(shown[i as int], session_key@));
            return true;
        }
        i += 1;
    }
    false
}

/// What a request comes to: an answer, or something to be looked up first.
#[derive(Debug)]
pub enum Step {
    Respond(WebResponse),
    /// The list of notes.
    Index,
    /// A note to be shown, by its link.
    View(String),
    /// A note to be kept, by its link.
    Download(String),
}

/// What a request comes to, as a mathematical value.
pub enum StepView {
    Respond(ResponseView),
    Index,
    View(Seq<char>),
    Download(Seq<char>),
}

impl View for Step {
    type V = StepView;

    open spec fn view(&self) -> StepView {
        match self {
            Step::Respond(response) => StepView::Respond(response@),
            Step::Index => StepView::Index,
            Step::View(encoded) => StepView::View(encoded@),
            Step::Download(encoded) => StepView::Download(encoded@),
        }
    }
}

/// What a request asks for, without what follows a question mark.
pub open spec fn route(url: Seq<char>) -> Seq<char> {
    text::pieces(url, '?')[0]
}

/// The code that a form brings, as it is compared.
pub open spec fn supplied_code(body: Seq<char>) -> Seq<char> {
    match raw_value(body, "code"@) {
        Some(raw) => text::uppercase(
            text::utf8_lossy(unescaped(vstd::utf8::encode_utf8(raw), 0)),
        ),
        None => text::uppercase(Seq::empty()),
    }
}

/// The code that a form brings, as it was typed; empty if it brings none.
pub open spec fn typed_code(body: Seq<char>) -> Seq<char> {
    match raw_value(body, "code"@) {
        Some(raw) => vstd::utf8::decode_utf8(unescaped(vstd::utf8::encode_utf8(raw), 0)),
        None => Seq::empty(),
    }
}

/// Whether a form brings no code, or one of ASCII alone.
pub open spec fn plain_code(body: Seq<char>) -> bool {
    raw_value(body, "code"@) matches Some(raw) ==> vstd::utf8::valid_utf8(
        unescaped(vstd::utf8::encode_utf8(raw), 0),
    ) && text::ascii(typed_code(body))
}

/// What a login with such a form comes to: the code counts whatever the case of
/// its letters.
pub open spec fn plain_login(
    body: Seq<char>,
    code: Seq<char>,
    session_key: Seq<char>,
) -> StepView {
    if text::ascii_uppered(typed_code(body)) == text::ascii_uppered(code) {
        StepView::Respond(welcome(session_key))
    } else {
        StepView::Respond(html_response(403, web_share::login_text(true)))
    }
}

/// What an admitted request to read comes to.
pub open spec fn reading(asked: Seq<char>) -> StepView {
    if asked == "/"@ {
        StepView::Index
    } else if "/view/"@.is_prefix_of(asked) {
        StepView::View(asked.skip("/view/"@.len() as int))
    } else if "/download/"@.is_prefix_of(asked) {
        StepView::Download(asked.skip("/download/"@.len() as int))
    } else {
        StepView::Respond(text_response(404, "Not found"@))
    }
}

/// What a request comes to. Only a code may be sent without the key of the
/// session, and nothing but reading is answered with it.
pub open spec fn answer(
    method: Method,
    url: Seq<char>,
    headers: Seq<(Seq<char>, Seq<char>)>,
    body: Seq<char>,
    code: Seq<char>,
    session_key: Seq<char>,
) -> StepView {
    if method == Method::Post && route(url) == "/login"@ {
        if supplied_code(body) == text::uppercase(code) {
            StepView::Respond(welcome(session_key))
        } else {
            StepView::Respond(html_response(403, web_share::login_text(true)))
        }
    } else if !admitted(headers, session_key) {
        StepView::Respond(html_response(401, web_share::login_text(false)))
    } else if method != Method::Get {
        StepView::Respond(text_response(405, "Read-only server: GET requests only"@))
    } else {
        reading(route(url))
    }
}

fn rest_after(asked: &[char], prefix: &str) -> (rest: Option<String>)
    ensures
        match rest {
            Some(r) => prefix@.is_prefix_of(asked@) && r@ == asked@.skip(prefix@.len() as int),
            None => !prefix@.is_prefix_of(asked@),
        },
{
    let start: Vec<char> = text::chars_of(prefix);
    if text::starts_with(asked, start.as_slice()) {
        let rest: Vec<char> = text::chars_between(asked, start.len(), asked.len());
        assert(rest@ == asked@.skip(prefix@.len() as int));
        Some(text::string_of(rest.as_slice()))
    } else {
        None
    }
}

fn read_route(asked: &[char]) -> (step: Step)
    ensures
        step@ == reading(asked@),
{
    if text::same_chars(asked, text::chars_of("/").as_slice()) {
        return Step::Index;
    }
    if let Some(encoded) = rest_after(asked, "/view/") {
        return Step::View(encoded);
    }
    if let Some(encoded) = rest_after(asked, "/download/") {
        return Step::Download(encoded);
    }
    Step::Respond(respond_text(404, "Not found"))
}

/// Decides what a request comes to.
pub fn handle_request(request: &WebRequest, code: &str, session_key: &str) -> (step: Step)
    ensures
        step@ == answer(
            request.method,
            request.url@,
            header_views(request.headers@),
            request.body@,
            code@,
            session_key@,
        ),
        request.method == Method::Post && route(request.url@) == "/login"@ && text::ascii(code@)
            && plain_code(request.body@) ==> step@ == plain_login(
            request.body@,
            code@,
            session_key@,
        ),
{
    let parts: Vec<Vec<char>> = text::split(text::chars_of(request.url.as_str()).as_slice(), '?');
    let asked: &Vec<char> = &parts[0];
    assert(text::char_lists(parts@)[0] == asked@);
    if request.method == Method::Post && text::same_chars(
        asked.as_slice(),
        text::chars_of("/login").as_slice(),
    ) {
        let given: String = match form_value(request.body.as_str(), "code") {
            Some(value) => value,
            None => {
                let empty = String::new();
                assert(empty@ == Seq::<char>::empty());
                empty
            },
        };
        let supplied: String = text::to_uppercase(given.as_str());
        let expected: String = text::to_uppercase(code);
        if text::same(supplied.as_str(), expected.as_str()) {
            return Step::Respond(respond_welcome(session_key));
        }
        return Step::Respond(respond_html(403, web_share::login_page(true).as_str()));
    }
    if !authenticated(&request.headers, session_key) {
        return Step::Respond(respond_html(401, web_share::login_page(false).as_str()));
    }
    if request.method != Method::Get {
        return Step::Respond(respond_text(405, "Read-only server: GET requests only"));
    }
    read_route(asked.as_slice())
}

/// What a request comes to once the session that it reached has ended: its code
/// and its key count for nothing.
pub open spec fn refusal(method: Method, url: Seq<char>) -> StepView {
    if method == Method::Post && route(url) == "/login"@ {
        StepView::Respond(html_response(403, web_share::login_text(true)))
    } else {
        StepView::Respond(html_response(401, web_share::login_text(false)))
    }
}

/// What a request comes to in a session of the library.
pub open spec fn session_answer(
    share: WebShare,
    session: Session,
    method: Method,
    url: Seq<char>,
    headers: Seq<(Seq<char>, Seq<char>)>,
    body: Seq<char>,
) -> StepView {
    if share.lives(session.generation) {
        answer(method, url, headers, body, session.code@, session.session_key@)
    } else {
        refusal(method, url)
    }
}

/// Decides what a request comes to that reached a session of the library.
pub fn handle_in_session(share: &WebShare, session: &Session, request: &WebRequest) -> (step: Step)
    ensures
        step@ == session_answer(
            *share,
            *session,
            request.method,
            request.url@,
            header_views(request.headers@),
            request.body@,
        ),
        share.lives(session.generation) && request.method == Method::Post && route(request.url@)
            == "/login"@ && text::ascii(session.code@) && plain_code(request.body@) ==> step@
            == plain_login(request.body@, session.code@, session.session_key@),
{
    if share.goes_on(session.generation) {
        return handle_request(request, session.code.as_str(), session.session_key.as_str());
    }
    let parts: Vec<Vec<char>> = text::split(text::chars_of(request.url.as_str()).as_slice(), '?');
    let asked: &Vec<char> = &parts[0];
    assert(text::char_lists(parts@)[0] == asked@);
    if request.method == Method::Post && text::same_chars(
        asked.as_slice(),
        text::chars_of("/login").as_slice(),
    ) {
        Step::Respond(respond_html(403, web_share::login_page(true).as_str()))
    } else {
        Step::Respond(respond_html(401, web_share::login_page(false).as_str()))
    }
}

/// Answers with the list of notes.
pub fn respond_index(notes: &Vec<SafeNote>) -> (response: WebResponse)
    ensures
        response@ == html_response(200, web_share::index_text(web_share::labels_of(notes@))),
{
    respond_html(200, web_share::index_page(notes).as_str())
}

/// Answers with a note, if it was found and could be read.
pub fn respond_view(label: &str, contents: Option<&str>) -> (response: WebResponse)
    ensures
        response@ == match contents {
            Some(shown) => html_response(200, web_share::note_text(label@, shown@)),
            None => text_response(404, "Note not found"@),
        },
{
    match contents {
        Some(shown) => respond_html(200, web_share::note_page(label, shown).as_str()),
        None => respond_text(404, "Note not found"),
    }
}

/// Answers with the file of a note, if it was found and could be read.
pub fn respond_file(label: &str, contents: Option<Vec<u8>>) -> (response: WebResponse)
    ensures
        response@ == match contents {
            Some(bytes) => download_response(bytes@, label@),
            None => text_response(404, "Note not found"@),
        },
{
    match contents {
        Some(bytes) => respond_download(bytes, label),
        None => respond_text(404, "Note not found"),
    }
}

/// Without the key of the session a request is answered by asking for the code,
/// whatever it asks for: with 401, or with 403 where a wrong code was sent.
pub proof fn law_strangers_learn_nothing(
    method: Method,
    url: Seq<char>,
    headers: Seq<(Seq<char>, Seq<char>)>,
    body: Seq<char>,
    code: Seq<char>,
    session_key: Seq<char>,
)
    requires
        !admitted(headers, session_key),
    ensures
        !(method == Method::Post && route(url) == "/login"@) ==> answer(
            method,
            url,
            headers,
            body,
            code,
            session_key,
        ) == StepView::Respond(html_response(401, web_share::login_text(false))),
        method == Method::Post && route(url) == "/login"@ && supplied_code(body)
            != text::uppercase(code) ==> answer(method, url, headers, body, code, session_key)
            == StepView::Respond(html_response(403, web_share::login_text(true))),
{
}

/// Nothing but reading is served: a request that is no `GET` is answered at once,
/// with 405, 401, 403, or with the welcome of the right code.
pub proof fn law_the_library_is_read_only(
    method: Method,
    url: Seq<char>,
    headers: Seq<(Seq<char>, Seq<char>)>,
    body: Seq<char>,
    code: Seq<char>,
    session_key: Seq<char>,
)
    requires
        method != Method::Get,
    ensures
        answer(method, url, headers, body, code, session_key) matches StepView::Respond(response)
            && (response.status == 405 || response.status == 401 || response.status == 403
            || response == welcome(session_key)),
{
}

/// The one piece of a cookie that carries a key of a session is the cookie.
proof fn lemma_cookie_of_key(session_key: Seq<char>)
    requires
        web_share::is_session_key(session_key),
    ensures
        text::pieces("qw_session="@ + session_key, ';').len() == 1,
        text::trimmed(text::pieces("qw_session="@ + session_key, ';')[0]) == "qw_session="@
            + session_key,
{
    let cookie = "qw_session="@ + session_key;
    reveal_strlit("qw_session=");
    let bytes = choose|bytes: Seq<u8>| bytes.len() == 24 && session_key == hex::hex_text(bytes);
    assert forall|i: int| 0 <= i < cookie.len() implies cookie[i] != ';' by {
        if i >= 11 {
            hex::lemma_hex_characters(bytes, i - 11);
            assert(cookie[i] == session_key[i - 11]);
        }
    }
    assert(cookie[0] == 'q');
    assert(cookie.last() == session_key.last());
    hex::lemma_hex_characters(bytes, session_key.len() - 1);
    text::lemma_pieces_single(cookie, ';');
    text::lemma_trimmed_line(cookie);
    assert(text::pieces(cookie, ';')[0] == cookie);
}

/// A cookie that the welcome sets is accepted with the next request.
pub proof fn law_the_welcome_admits(session_key: Seq<char>)
    requires
        web_share::is_session_key(session_key),
    ensures
        admitted(seq![("Cookie"@, "qw_session="@ + session_key)], session_key),
{
    let cookie = "qw_session="@ + session_key;
    let headers = seq![("Cookie"@, cookie)];
    lemma_cookie_of_key(session_key);
    assert(holds_cookie(text::pieces(cookie, ';'), cookie, 0));
    assert(carries_key(headers[0], session_key));
}

/// Once the library was stopped or started anew, the code and the key of an
/// earlier session grant nothing. Where the request reaches the earlier session,
/// a login is answered with 403 and all else with 401. Where it reaches the new
/// one, whose code and key differ, a login with the old code is answered with
/// 403, and a request with the old key with 401.
pub proof fn law_an_earlier_session_admits_nobody(
    before: WebShare,
    after: WebShare,
    earlier: Session,
    later: Session,
    turns: nat,
    method: Method,
    url: Seq<char>,
    headers: Seq<(Seq<char>, Seq<char>)>,
    body: Seq<char>,
)
    requires
        earlier.generation <= before.generation,
        turns > 0,
        before.generation + turns <= u64::MAX,
        after.generation == web_share::generation_after(before.generation, turns),
        web_share::is_session_key(earlier.session_key@),
        later.session_key@ != earlier.session_key@,
        text::uppercase(later.code@) != text::uppercase(earlier.code@),
    ensures
        session_answer(after, earlier, method, url, headers, body) == refusal(method, url),
        method == Method::Post && route(url) == "/login"@ && supplied_code(body)
            == text::uppercase(earlier.code@) ==> session_answer(
            after,
            later,
            method,
            url,
            headers,
            body,
        ) == refusal(method, url),
        !(method == Method::Post && route(url) == "/login"@) && headers == seq![
            ("Cookie"@, "qw_session="@ + earlier.session_key@),
        ] ==> session_answer(after, later, method, url, headers, body) == refusal(method, url),
{
    web_share::law_an_ended_session_stays_ended(before, after, earlier.generation, turns);
    let old_cookie = "qw_session="@ + earlier.session_key@;
    let new_cookie = "qw_session="@ + later.session_key@;
    lemma_cookie_of_key(earlier.session_key@);
    assert(old_cookie != new_cookie) by {
        if old_cookie == new_cookie {
            let mark = "qw_session="@.len() as int;
            assert(old_cookie.skip(mark) == earlier.session_key@);
            assert(new_cookie.skip(mark) == later.session_key@);
        }
    }
    reveal_with_fuel(holds_cookie, 2);
    assert(!holds_cookie(text::pieces(old_cookie, ';'), new_cookie, 0));
    if headers == seq![("Cookie"@, old_cookie)] {
        assert(!admitted(headers, later.session_key@));
    }
}

proof fn lemma_unescaped_from(bytes: Seq<u8>, at: int)
    requires
        0 <= at <= bytes.len(),
    ensures
        unescaped(bytes, at) == unescaped(bytes.skip(at), 0),
    decreases bytes.len() - at,
{
    lemma_unescaped_shift(bytes, at, 0);
}

proof fn lemma_unescaped_shift(bytes: Seq<u8>, at: int, k: int)
    requires
        0 <= at <= bytes.len(),
        0 <= k <= bytes.len() - at,
    ensures
        unescaped(bytes, at + k) == unescaped(bytes.skip(at), k),
    decreases bytes.len() - at - k,
{
    let rest = bytes.skip(at);
    if k < rest.len() {
        assert(rest[k] == bytes[at + k]);
        lemma_unescaped_shift(bytes, at, k + 1);
        if k + 2 < rest.len() {
            assert(rest[k + 1] == bytes[at + k + 1] && rest[k + 2] == bytes[at + k + 2]);
            lemma_unescaped_shift(bytes, at, k + 3);
        }
    }
}

/// A field of a form is read byte by byte: a plus is a space, a percent sign with
/// two hexadecimal digits, in either case, is the byte of that number, and every
/// other byte is itself.
pub proof fn law_fields_are_read_byte_by_byte(byte: u8, high: u8, low: u8, rest: Seq<u8>)
    ensures
        unescaped(Seq::empty(), 0) == Seq::<u8>::empty(),
        byte == '+' as u8 ==> unescaped(seq![byte] + rest, 0) == seq![' ' as u8] + unescaped(
            rest,
            0,
        ),
        byte != '+' as u8 && byte != '%' as u8 ==> unescaped(seq![byte] + rest, 0) == seq![byte]
            + unescaped(rest, 0),
        '0' as u8 <= high <= '9' as u8 && '0' as u8 <= low <= '9' as u8 ==> unescaped(
            seq!['%' as u8, high, low] + rest,
            0,
        ) == seq![(16 * (high - '0' as u8) + (low - '0' as u8)) as u8] + unescaped(rest, 0),
        '2' as u8 <= high <= '7' as u8 && 'A' as u8 <= low <= 'F' as u8 ==> unescaped(
            seq!['%' as u8, high, low] + rest,
            0,
        ) == seq![(16 * (high - '0' as u8) + (low - 'A' as u8) + 10) as u8] + unescaped(rest, 0),
        'A' as u8 <= high <= 'F' as u8 && 'A' as u8 <= low <= 'F' as u8 ==> unescaped(
            seq!['%' as u8, high, low] + rest,
            0,
        ) == seq![(16 * (high - 'A' as u8 + 10) + (low - 'A' as u8) + 10) as u8] + unescaped(
            rest,
            0,
        ),
        'a' as u8 <= high <= 'f' as u8 && 'a' as u8 <= low <= 'f' as u8 ==> unescaped(
            seq!['%' as u8, high, low] + rest,
            0,
        ) == seq![(16 * (high - 'a' as u8 + 10) + (low - 'a' as u8) + 10) as u8] + unescaped(
            rest,
            0,
        ),
        'a' as u8 <= high <= 'f' as u8 && '0' as u8 <= low <= '9' as u8 ==> unescaped(
            seq!['%' as u8, high, low] + rest,
            0,
        ) == seq![(16 * (high - 'a' as u8 + 10) + (low - '0' as u8)) as u8] + unescaped(rest, 0),
        'G' as u8 <= low <= 'Z' as u8 || 'g' as u8 <= low <= 'z' as u8 || low == ' ' as u8
            ==> unescaped(seq!['%' as u8, high, low] + rest, 0) == seq!['%' as u8] + unescaped(
            seq![high, low] + rest,
            0,
        ),
{
    assert((seq![byte] + rest).skip(1) == rest);
    lemma_unescaped_from(seq![byte] + rest, 1);
    let coded = seq!['%' as u8, high, low] + rest;
    assert(coded.skip(3) == rest);
    assert(coded.skip(1) == seq![high, low] + rest);
    lemma_unescaped_from(coded, 3);
    lemma_unescaped_from(coded, 1);
}

/// A percent sign at the end of a field, or with one digit behind it, is itself.
pub proof fn law_a_lone_percent_sign_stays(digit: u8)
    requires
        digit != '+' as u8 && digit != '%' as u8,
    ensures
        unescaped(seq!['%' as u8], 0) == seq!['%' as u8],
        unescaped(seq!['%' as u8, digit], 0) == seq!['%' as u8, digit],
{
    reveal_with_fuel(unescaped, 3);
    assert(seq!['%' as u8] + Seq::<u8>::empty() == seq!['%' as u8]);
    assert(seq!['%' as u8] + (seq![digit] + Seq::<u8>::empty()) == seq!['%' as u8, digit]);
}

proof fn lemma_fields_shift(first: Seq<char>, fields: Seq<Seq<char>>, key: Seq<char>, at: int)
    requires
        0 <= at <= fields.len(),
    ensures
        field_value(seq![first] + fields, key, at + 1) == field_value(fields, key, at),
    decreases fields.len() - at,
{
    if at < fields.len() {
        assert((seq![first] + fields)[at + 1] == fields[at]);
        lemma_fields_shift(first, fields, key, at + 1);
    }
}

proof fn lemma_split(key: Seq<char>, value: Seq<char>)
    requires
        !key.contains('='),
    ensures
        text::first_of(key + seq!['='] + value, '=', 0) == key.len(),
{
    let field = key + seq!['='] + value;
    text::lemma_first_of(field, '=', 0);
    let split = text::first_of(field, '=', 0);
    if split < key.len() {
        assert(field[split] == key[split]);
        assert(key.contains(key[split]));
    }
    assert(field[key.len() as int] == '=');
}

/// A form gives a name the value of the first field that bears it; fields with
/// other names, or without an equals sign, are passed over.
pub proof fn law_the_first_field_of_a_name_counts(
    key: Seq<char>,
    value: Seq<char>,
    other: Seq<char>,
    rest: Seq<char>,
)
    requires
        !key.contains('='),
        !key.contains('&'),
        !value.contains('&'),
        !other.contains('='),
        !other.contains('&'),
    ensures
        raw_value(key + seq!['='] + value, key) == Some(value),
        raw_value(key + seq!['='] + value + seq!['&'] + rest, key) == Some(value),
        other != key ==> raw_value(other + seq!['='] + value, key) is None,
        other != key ==> raw_value(other + seq!['='] + value + seq!['&'] + rest, key) == raw_value(
            rest,
            key,
        ),
        raw_value(other, key) is None,
        raw_value(other + seq!['&'] + rest, key) == raw_value(rest, key),
{
    reveal_with_fuel(field_value, 2);
    let field = key + seq!['='] + value;
    let passed = other + seq!['='] + value;
    assert forall|i: int| 0 <= i < field.len() implies field[i] != '&' by {
        if i < key.len() {
            assert(key.contains(key[i]));
        } else if i > key.len() {
            assert(value.contains(value[i - key.len() - 1]));
        }
    }
    assert forall|i: int| 0 <= i < passed.len() implies passed[i] != '&' by {
        if i < other.len() {
            assert(other.contains(other[i]));
        } else if i > other.len() {
            assert(value.contains(value[i - other.len() - 1]));
        }
    }
    lemma_split(key, value);
    lemma_split(other, value);
    assert(field.take(key.len() as int) == key && field.skip(key.len() as int + 1) == value);
    assert(passed.take(other.len() as int) == other);
    text::law_pieces_lie_between_separators(field, '&', rest);
    text::law_pieces_lie_between_separators(passed, '&', rest);
    text::law_pieces_lie_between_separators(other, '&', rest);
    text::lemma_first_of(other, '=', 0);
    let split = text::first_of(other, '=', 0);
    if split < other.len() {
        assert(other.contains(other[split]));
    }
    let fields = text::pieces(rest, '&');
    assert((seq![field] + fields)[0] == field);
    assert((seq![passed] + fields)[0] == passed);
    assert((seq![other] + fields)[0] == other);
    lemma_fields_shift(passed, fields, key, 0);
    lemma_fields_shift(other, fields, key, 0);
}

proof fn lemma_plain_bytes(bytes: Seq<u8>)
    requires
        forall|i: int|
            0 <= i < bytes.len() ==> #[trigger] bytes[i] != '+' as u8 && bytes[i] != '%' as u8,
    ensures
        unescaped(bytes, 0) == bytes,
    decreases bytes.len(),
{
    if bytes.len() > 0 {
        let rest = bytes.skip(1);
        assert forall|i: int| 0 <= i < rest.len() implies #[trigger] rest[i] != '+' as u8 && rest[i]
            != '%' as u8 by {
            assert(bytes[i + 1] != '+' as u8);
        }
        lemma_plain_bytes(rest);
        lemma_unescaped_from(bytes, 1);
        assert(bytes[0] != '+' as u8);
        assert(seq![bytes[0]] + rest == bytes);
    }
}

/// A code of letters, digits and dashes that is sent with the form of the login
/// page is read as it was typed. It counts if it is the code of the session,
/// whatever the case of the letters; another one is refused.
pub proof fn law_a_code_is_read_as_typed(
    typed: Seq<char>,
    code: Seq<char>,
    session_key: Seq<char>,
)
    requires
        forall|i: int|
            0 <= i < typed.len() ==> 'a' <= #[trigger] typed[i] <= 'z' || 'A' <= typed[i] <= 'Z'
                || '0' <= typed[i] <= '9' || typed[i] == '-',
    ensures
        typed_code("code="@ + typed) == typed,
        plain_code("code="@ + typed),
        typed == code ==> plain_login("code="@ + typed, code, session_key) == StepView::Respond(
            welcome(session_key),
        ),
        typed.len() == code.len() && (forall|i: int|
            0 <= i < typed.len() ==> #[trigger] typed[i] == code[i] || 'A' <= code[i] <= 'Z'
                && typed[i] as u32 == code[i] as u32 + 32) ==> plain_login(
            "code="@ + typed,
            code,
            session_key,
        ) == StepView::Respond(welcome(session_key)),
        typed.len() != code.len() ==> plain_login("code="@ + typed, code, session_key)
            == StepView::Respond(html_response(403, web_share::login_text(true))),
        (exists|i: int|
            0 <= i < typed.len() && i < code.len() && '0' <= #[trigger] typed[i] <= '9' && typed[i]
                != code[i]) ==> plain_login("code="@ + typed, code, session_key)
            == StepView::Respond(html_response(403, web_share::login_text(true))),
{
    reveal_strlit("code=");
    reveal_strlit("code");
    assert("code="@ == "code"@ + seq!['=']);
    assert(!"code"@.contains('=') && !"code"@.contains('&'));
    assert forall|i: int| 0 <= i < typed.len() implies typed[i] != '&' by {
        assert('a' <= typed[i] <= 'z' || typed[i] < '&' || typed[i] > '&');
    }
    let nothing = Seq::<char>::empty();
    law_the_first_field_of_a_name_counts("code"@, typed, nothing, nothing);
    assert("code="@ + typed == "code"@ + seq!['='] + typed);
    assert(vstd::utf8::is_ascii_chars(typed)) by {
        assert forall|i: int| 0 <= i < typed.len() implies '\0' <= #[trigger] typed[i]
            <= '\u{7f}' by {}
    }
    vstd::utf8::is_ascii_chars_encode_utf8(typed);
    let bytes = vstd::utf8::encode_utf8(typed);
    assert forall|i: int| 0 <= i < bytes.len() implies #[trigger] bytes[i] != '+' as u8 && bytes[i]
        != '%' as u8 by {
        assert(typed[i] as u8 == bytes[i]);
    }
    lemma_plain_bytes(bytes);
    vstd::utf8::encode_utf8_valid_utf8(typed);
    vstd::utf8::encode_utf8_decode_utf8(typed);
    assert(text::ascii(typed)) by {
        assert forall|i: int| 0 <= i < typed.len() implies #[trigger] typed[i] as u32 <= 0x7f by {}
    }
    let a = text::ascii_uppered(typed);
    let b = text::ascii_uppered(code);
    if typed.len() == code.len() && (forall|i: int|
        0 <= i < typed.len() ==> #[trigger] typed[i] == code[i] || 'A' <= code[i] <= 'Z'
            && typed[i] as u32 == code[i] as u32 + 32) {
        assert forall|i: int| 0 <= i < a.len() implies a[i] == b[i] by {
            assert(typed[i] == code[i] || 'A' <= code[i] <= 'Z');
        }
        assert(a == b);
    }
    if exists|i: int|
        0 <= i < typed.len() && i < code.len() && '0' <= #[trigger] typed[i] <= '9' && typed[i]
            != code[i] {
        let i = choose|i: int|
            0 <= i < typed.len() && i < code.len() && '0' <= #[trigger] typed[i] <= '9' && typed[i]
                != code[i];
        assert(a[i] == typed[i]);
        assert(b[i] == text::ascii_upper(code[i]));
    }
    assert(a.len() == typed.len() && b.len() == code.len());
}

/// What a request asks for ends before the first question mark.
pub proof fn law_the_way_ends_at_a_question_mark(way: Seq<char>, rest: Seq<char>)
    requires
        !way.contains('?'),
    ensures
        route(way) == way,
        route(way + seq!['?'] + rest) == way,
{
    text::law_pieces_lie_between_separators(way, '?', rest);
    assert((seq![way] + text::pieces(rest, '?'))[0] == way);
}

/// What an admitted reader gets: at the root the list, below `/view/` the note of
/// the link, below `/download/` its file, and elsewhere the answer that nothing is
/// there.
pub proof fn law_readers_are_led_by_the_way(
    headers: Seq<(Seq<char>, Seq<char>)>,
    body: Seq<char>,
    code: Seq<char>,
    session_key: Seq<char>,
    link: Seq<char>,
    other: Seq<char>,
)
    requires
        admitted(headers, session_key),
        !link.contains('?'),
        !other.contains('?'),
        other != "/"@,
        other.len() < 6 || other.take(6) != "/view/"@,
        other.len() < 10 || other.take(10) != "/download/"@,
    ensures
        answer(Method::Get, "/"@, headers, body, code, session_key) == StepView::Index,
        answer(Method::Get, "/view/"@ + link, headers, body, code, session_key) == StepView::View(
            link,
        ),
        answer(Method::Get, "/download/"@ + link, headers, body, code, session_key)
            == StepView::Download(link),
        answer(Method::Get, other, headers, body, code, session_key) == StepView::Respond(
            text_response(404, "Not found"@),
        ),
{
    reveal_strlit("/");
    reveal_strlit("/view/");
    reveal_strlit("/download/");
    let nothing = Seq::<char>::empty();
    law_the_way_ends_at_a_question_mark("/"@, nothing);
    let viewed = "/view/"@ + link;
    let kept = "/download/"@ + link;
    assert forall|i: int| 0 <= i < viewed.len() implies viewed[i] != '?' by {
        if i >= 6 {
            assert(link.contains(link[i - 6]));
        }
    }
    assert forall|i: int| 0 <= i < kept.len() implies kept[i] != '?' by {
        if i >= 10 {
            assert(link.contains(link[i - 10]));
        }
    }
    law_the_way_ends_at_a_question_mark(viewed, nothing);
    law_the_way_ends_at_a_question_mark(kept, nothing);
    law_the_way_ends_at_a_question_mark(other, nothing);
    assert(viewed.take(6) == "/view/"@ && viewed.skip(6) == link);
    assert(kept.take(10) == "/download/"@ && kept.skip(10) == link);
    assert(kept[1] == 'd' && "/view/"@[1] == 'v');
    assert(viewed.len() >= 6 && kept.len() >= 10 && "/"@.len() == 1);
    if "/view/"@.is_prefix_of(kept) {
        assert(kept.take(6)[1] == 'v');
    }
    if "/view/"@.is_prefix_of(other) {
        assert(other.take(6) == "/view/"@);
    }
    if "/download/"@.is_prefix_of(other) {
        assert(other.take(10) == "/download/"@);
    }
}

/// The names of headers are the same if they differ only in the case of letters.
pub proof fn law_headers_have_no_case(a: Seq<char>, b: Seq<char>, i: int)
    ensures
        a.len() == b.len() && (forall|k: int|
            0 <= k < a.len() ==> #[trigger] a[k] == b[k] || 'A' <= a[k] <= 'Z' && b[k] as u32
                == a[k] as u32 + 32 || 'A' <= b[k] <= 'Z' && a[k] as u32 == b[k] as u32 + 32)
            ==> same_header(a, b),
        a.len() != b.len() ==> !same_header(a, b),
        0 <= i < a.len() && i < b.len() && a[i] != b[i] && !('A' <= a[i] <= 'Z' || 'A' <= b[i]
            <= 'Z') ==> !same_header(a, b),
{
    if a.len() == b.len() && (forall|k: int|
        0 <= k < a.len() ==> #[trigger] a[k] == b[k] || 'A' <= a[k] <= 'Z' && b[k] as u32
            == a[k] as u32 + 32 || 'A' <= b[k] <= 'Z' && a[k] as u32 == b[k] as u32 + 32) {
        assert forall|k: int| 0 <= k < a.len() implies plain_letter(#[trigger] a[k])
            == plain_letter(b[k]) by {
            assert(a[k] == b[k] || 'A' <= a[k] <= 'Z' || 'A' <= b[k] <= 'Z');
        }
    }
    if 0 <= i < a.len() && same_header(a, b) {
        assert(plain_letter(a[i]) == plain_letter(b[i]));
    }
}

proof fn lemma_cookie_shift(first: Seq<char>, pieces: Seq<Seq<char>>, cookie: Seq<char>, at: int)
    requires
        0 <= at <= pieces.len(),
    ensures
        holds_cookie(seq![first] + pieces, cookie, at + 1) == holds_cookie(pieces, cookie, at),
    decreases pieces.len() - at,
{
    if at < pieces.len() {
        assert((seq![first] + pieces)[at + 1] == pieces[at]);
        lemma_cookie_shift(first, pieces, cookie, at + 1);
    }
}

/// The key of the session counts wherever it stands in a cookie header: alone or
/// behind other cookies, with white space around it. A header without it admits
/// nobody, nor does the same cookie with another key.
pub proof fn law_the_cookie_is_found_among_others(
    other: Seq<char>,
    session_key: Seq<char>,
    wrong_key: Seq<char>,
    rest: Seq<char>,
)
    requires
        !other.contains(';'),
        web_share::is_session_key(session_key),
        web_share::is_session_key(wrong_key),
    ensures
        ({
            let cookie = "qw_session="@ + session_key;
            let wrong = "qw_session="@ + wrong_key;
            &&& carries_key(("Cookie"@, cookie), session_key)
            &&& carries_key(("Cookie"@, cookie + seq![';'] + rest), session_key)
            &&& carries_key(("Cookie"@, other + seq![';'] + rest), session_key) == (
            text::trimmed(other) == cookie || carries_key(("Cookie"@, rest), session_key))
            &&& carries_key(("Cookie"@, seq![' '] + cookie), session_key)
            &&& wrong_key != session_key ==> !carries_key(("Cookie"@, wrong), session_key)
        }),
{
    reveal_with_fuel(holds_cookie, 2);
    let cookie = "qw_session="@ + session_key;
    let wrong = "qw_session="@ + wrong_key;
    lemma_cookie_of_key(session_key);
    lemma_cookie_of_key(wrong_key);
    lemma_no_semicolon(session_key);
    text::law_pieces_lie_between_separators(cookie, ';', rest);
    text::law_pieces_lie_between_separators(other, ';', rest);
    let pieces = text::pieces(rest, ';');
    assert((seq![cookie] + pieces)[0] == cookie);
    assert((seq![other] + pieces)[0] == other);
    lemma_cookie_shift(other, pieces, cookie, 0);
    assert forall|i: int| 0 <= i < (seq![' '] + cookie).len() implies (seq![' '] + cookie)[i]
        != ';' by {
        if i > 0 {
            assert(cookie.contains(cookie[i - 1]));
        }
    }
    text::law_pieces_lie_between_separators(seq![' '] + cookie, ';', rest);
    reveal_strlit("qw_session=");
    assert(cookie[0] == 'q');
    let bytes = choose|bytes: Seq<u8>| bytes.len() == 24 && session_key == hex::hex_text(bytes);
    hex::lemma_hex_characters(bytes, session_key.len() - 1);
    assert(cookie.last() == session_key.last());
    text::law_trimming_takes_only_the_ends(seq![' '], cookie, Seq::empty());
    assert(seq![' '] + cookie + Seq::<char>::empty() == seq![' '] + cookie);
    if wrong == cookie {
        assert(wrong.skip(11) == wrong_key && cookie.skip(11) == session_key);
    }
    assert(text::pieces(wrong, ';')[0] == wrong) by {
        lemma_no_semicolon(wrong_key);
        text::law_pieces_lie_between_separators(wrong, ';', rest);
    }
}

proof fn lemma_no_semicolon(session_key: Seq<char>)
    requires
        web_share::is_session_key(session_key),
    ensures
        !("qw_session="@ + session_key).contains(';'),
{
    let cookie = "qw_session="@ + session_key;
    reveal_strlit("qw_session=");
    let bytes = choose|bytes: Seq<u8>| bytes.len() == 24 && session_key == hex::hex_text(bytes);
    assert forall|i: int| 0 <= i < cookie.len() implies cookie[i] != ';' by {
        if i >= 11 {
            hex::lemma_hex_characters(bytes, i - 11);
            assert(cookie[i] == session_key[i - 11]);
        }
    }
}

/// Only headers named for cookies admit anybody.
pub proof fn law_only_cookies_admit(header: (Seq<char>, Seq<char>), session_key: Seq<char>)
    ensures
        header.0.len() != 6 ==> !carries_key(header, session_key),
        carries_key(header, session_key) ==> (header.0[0] == 'C' || header.0[0] == 'c'),
{
    reveal_strlit("Cookie");
    if carries_key(header, session_key) {
        assert(plain_letter(header.0[0]) == plain_letter("Cookie"@[0]));
    }
}

/// Every answer says that it is not to be kept nor guessed at; a page also says
/// what it may load, and a file under what name it is to be kept.
pub proof fn law_answers_bear_their_headers(
    status: u16,
    body: Seq<char>,
    bytes: Seq<u8>,
    label: Seq<char>,
    session_key: Seq<char>,
)
    ensures
        html_response(status, body).status == status,
        html_response(status, body).body == vstd::utf8::encode_utf8(body),
        html_response(status, body).headers == seq![
            ("Content-Type"@, "text/html; charset=utf-8"@),
            ("Cache-Control"@, "no-store"@),
            ("X-Content-Type-Options"@, "nosniff"@),
            (
                "Content-Security-Policy"@,
                "default-src 'self'; style-src 'unsafe-inline'; form-action 'self'; frame-ancestors 'none'"@,
            ),
        ],
        text_response(status, body).status == status,
        text_response(status, body).body == vstd::utf8::encode_utf8(body),
        text_response(status, body).headers == seq![
            ("Content-Type"@, "text/plain; charset=utf-8"@),
            ("Cache-Control"@, "no-store"@),
            ("X-Content-Type-Options"@, "nosniff"@),
        ],
        download_response(bytes, label).status == 200,
        download_response(bytes, label).body == bytes,
        download_response(bytes, label).headers == seq![
            ("Content-Type"@, "text/markdown; charset=utf-8"@),
            ("Cache-Control"@, "no-store"@),
            ("X-Content-Type-Options"@, "nosniff"@),
            ("Content-Disposition"@, "attachment; filename=\""@ + offered_name(label) + "\""@),
        ],
        welcome(session_key).status == 303,
        welcome(session_key).headers == html_response(303, body).headers + seq![
            (
                "Set-Cookie"@,
                "qw_session="@ + session_key + "; HttpOnly; SameSite=Strict; Path=/"@,
            ),
            ("Location"@, "/"@),
        ],
        welcome(session_key).body == vstd::utf8::encode_utf8(
            "<p>Access granted. <a href=\"/\">Open the library</a>.</p>"@,
        ),
{
}

/// A file is offered under the last name of its label, as it is where it is of
/// plain characters, and with an underscore for every other one.
pub proof fn law_files_are_offered_by_their_names(folder: Seq<char>, name: Seq<char>, i: int)
    requires
        !folder.contains('/'),
        !name.contains('/'),
        name.len() > 0,
        name != "."@,
        name != ".."@,
    ensures
        offered_name(name).len() == name.len(),
        offered_name(folder + seq!['/'] + name) == offered_name(name),
        0 <= i < name.len() ==> {
            let c = name[i];
            if 'a' <= c <= 'z' || 'A' <= c <= 'Z' || '0' <= c <= '9' || c == ' ' || c == '.' || c
                == '-' || c == '_' {
                offered_name(name)[i] == c
            } else {
                offered_name(name)[i] == '_'
            }
        },
{
    text::law_pieces_lie_between_separators(folder, '/', name);
    text::law_pieces_lie_between_separators(name, '/', name);
    assert((seq![folder] + seq![name]).last() == name);
}

} // verus!
