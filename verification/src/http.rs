//! A minimal HTTP/1.1 layer: one request per connection, and a response that
//! closes it. Bytes come and go through the caller; this module reads the
//! lines of a request and frames the bytes of a response.

use crate::codec::{bytes_of, push_str_bytes};
use crate::image::{env_value, pair_texts};
use crate::num::{decimal, hexadecimal, parse_unsigned, parsed_unsigned, u64_hex, u64_text};
use crate::text::{
    cat2, cat3, cat4, cut_first, has_run, joined, joined_pieces_come_back, lowercased, pieces, split, split_once, str_eq, strip_prefix,
    texts_are_cut_in_front, to_ascii_lowercase, trim, trim_end, trimmed, trimmed_end, views, whole_texts_are_not_cut,
    without_prefix, without_suffix,
};
use vstd::prelude::*;
use vstd::utf8::encode_utf8;

verus! {

/// A request.
pub struct Request {
    pub method: String,
    pub path: String,
    /// In order of appearance; of two with the same name the later counts.
    pub query: Vec<(String, String)>,
    /// Names in lower case; of two with the same name the later counts.
    pub headers: Vec<(String, String)>,
    pub body: Vec<u8>,
}

/// The mathematical content of a [`Request`].
#[verifier::ext_equal]
pub struct RequestView {
    pub method: Seq<char>,
    pub path: Seq<char>,
    pub query: Seq<(Seq<char>, Seq<char>)>,
    pub headers: Seq<(Seq<char>, Seq<char>)>,
    pub body: Seq<u8>,
}

impl View for Request {
    type V = RequestView;

    open spec fn view(&self) -> RequestView {
        RequestView {
            method: self.method@,
            path: self.path@,
            query: pair_texts(self.query@),
            headers: pair_texts(self.headers@),
            body: self.body@,
        }
    }
}

/// The pairs of a query string; a part without `=` is dropped.
pub open spec fn query_pairs(parts: Seq<Seq<char>>) -> Seq<(Seq<char>, Seq<char>)>
    decreases parts.len(),
{
    if parts.len() == 0 {
        Seq::empty()
    } else {
        let before = query_pairs(parts.drop_last());
        match cut_first(parts.last(), '=') {
            Some(p) => before.push(p),
            None => before,
        }
    }
}

/// The pairs of header lines; a line without a colon is dropped.
pub open spec fn header_pairs(lines: Seq<Seq<char>>) -> Seq<(Seq<char>, Seq<char>)>
    decreases lines.len(),
{
    if lines.len() == 0 {
        Seq::empty()
    } else {
        let before = header_pairs(lines.drop_last());
        match cut_first(trimmed_end(lines.last()), ':') {
            Some((name, value)) => before.push((lowercased(trimmed(name)), trimmed(value))),
            None => before,
        }
    }
}

/// The method and target of a request line.
pub open spec fn method_and_target(line: Seq<char>) -> (Seq<char>, Seq<char>) {
    match cut_first(trimmed_end(line), ' ') {
        None => (trimmed_end(line), Seq::empty()),
        Some((method, rest)) => match cut_first(rest, ' ') {
            None => (method, rest),
            Some((target, _)) => (method, target),
        },
    }
}

/// What the lines of a request's head say; the body is yet to come.
pub open spec fn request_of(request_line: Seq<char>, header_lines: Seq<Seq<char>>) -> RequestView {
    let (method, target) = method_and_target(request_line);
    let headers = header_pairs(header_lines);
    let body = Seq::<u8>::empty();
    match cut_first(target, '?') {
        Some((path, query)) => RequestView {
            method,
            path,
            query: query_pairs(pieces(query, '&')),
            headers,
            body,
        },
        None => RequestView { method, path: target, query: Seq::empty(), headers, body },
    }
}

/// The value that counts for `name`.
pub open spec fn value_of(pairs: Seq<(Seq<char>, Seq<char>)>, name: Seq<char>) -> Option<Seq<char>> {
    env_value(pairs, name)
}

/// The value that counts for `name`.
pub fn find<'a>(pairs: &'a Vec<(String, String)>, name: &str) -> (r: Option<&'a str>)
    ensures
        match r {
            Some(v) => value_of(pair_texts(pairs@), name@) == Some(v@),
            None => value_of(pair_texts(pairs@), name@) is None,
        },
{
    let ghost all = pair_texts(pairs@);
    let mut n: usize = pairs.len();
    assert(all.take(n as int) =~= all);
    while n > 0
        invariant
            n <= pairs@.len(),
            all == pair_texts(pairs@),
            env_value(all, name@) == env_value(all.take(n as int), name@),
        decreases n,
    {
        let p = &pairs[n - 1];
        proof {
            assert(all.take(n as int).last() == (p.0@, p.1@));
            assert(all.take(n as int).drop_last() =~= all.take(n - 1));
        }
        if str_eq(p.0.as_str(), name) {
            return Some(p.1.as_str());
        }
        n -= 1;
    }
    None
}

/// The pairs of a query string.
pub fn parse_query(q: &str) -> (r: Vec<(String, String)>)
    ensures
        pair_texts(r@) == query_pairs(pieces(q@, '&')),
{
    let parts = split(q, '&');
    let ghost all = views(parts@);
    let mut out: Vec<(String, String)> = Vec::new();
    let mut i: usize = 0;
    assert(pair_texts(out@) =~= query_pairs(all.take(0)));
    while i < parts.len()
        invariant
            i <= parts@.len(),
            all == views(parts@),
            pair_texts(out@) == query_pairs(all.take(i as int)),
        decreases parts.len() - i,
    {
        proof {
            assert(all.take(i + 1).drop_last() =~= all.take(i as int));
            assert(all.take(i + 1).last() == parts@[i as int]@);
        }
        match split_once(parts[i].as_str(), '=') {
            Some((k, v)) => {
                let pair = (k.to_owned(), v.to_owned());
                assert(pair_texts(out@.push(pair)) =~= pair_texts(out@).push((k@, v@)));
                out.push(pair);
            },
            None => {},
        }
        i += 1;
    }
    assert(all.take(i as int) =~= all);
    out
}

/// Whether a line ends the head of a request.
pub fn ends_head(line: &str) -> (r: bool)
    ensures
        r == (trimmed_end(line@).len() == 0),
{
    trim_end(line).unicode_len() == 0
}

/// Whether an optional text is there and equal, ignoring ASCII case.
pub open spec fn same_ignoring_case(a: Seq<char>, b: Seq<char>) -> bool {
    lowercased(a) == lowercased(b)
}

impl Request {
    /// What the lines of a request's head say: the request line, and the
    /// lines behind it up to the empty one. The body, of the length that the
    /// head promises, is added once it is read.
    pub fn read_from(request_line: &str, header_lines: &Vec<String>) -> (r: Request)
        ensures
            r@ == request_of(request_line@, views(header_lines@)),
    {
        let line = trim_end(request_line);
        let (method, target) = match split_once(line, ' ') {
            None => (line, ""),
            Some((method, rest)) => match split_once(rest, ' ') {
                None => (method, rest),
                Some((target, _)) => (method, target),
            },
        };
        proof {
            reveal_strlit("");
            assert(""@ =~= Seq::<char>::empty());
        }
        let (path, query) = match split_once(target, '?') {
            Some((p, q)) => (p.to_owned(), parse_query(q)),
            None => {
                let none: Vec<(String, String)> = Vec::new();
                assert(pair_texts(none@) =~= Seq::<(Seq<char>, Seq<char>)>::empty());
                (target.to_owned(), none)
            },
        };
        let ghost all = views(header_lines@);
        let mut headers: Vec<(String, String)> = Vec::new();
        let mut i: usize = 0;
        assert(pair_texts(headers@) =~= header_pairs(all.take(0)));
        while i < header_lines.len()
            invariant
                i <= header_lines@.len(),
                all == views(header_lines@),
                pair_texts(headers@) == header_pairs(all.take(i as int)),
            decreases header_lines.len() - i,
        {
            proof {
                assert(all.take(i + 1).drop_last() =~= all.take(i as int));
                assert(all.take(i + 1).last() == header_lines@[i as int]@);
            }
            match split_once(trim_end(header_lines[i].as_str()), ':') {
                Some((k, v)) => {
                    let name = to_ascii_lowercase(trim(k));
                    let pair = (name, trim(v).to_owned());
                    assert(pair_texts(headers@.push(pair)) =~= pair_texts(headers@).push((pair.0@, pair.1@)));
                    headers.push(pair);
                },
                None => {},
            }
            i += 1;
        }
        assert(all.take(i as int) =~= all);
        let r = Request { method: method.to_owned(), path, query, headers, body: Vec::new() };
        assert(r@ =~= request_of(request_line@, all));
        r
    }

    /// The request with its body.
    pub fn with_body(self, body: Vec<u8>) -> (r: Request)
        ensures
            r@ == (RequestView { body: body@, ..self@ }),
    {
        Request { method: self.method, path: self.path, query: self.query, headers: self.headers, body }
    }

    /// The value of the header `name`, given in lower case.
    pub fn header<'a>(&'a self, name: &str) -> (r: Option<&'a str>)
        ensures
            match r {
                Some(v) => value_of(self@.headers, name@) == Some(v@),
                None => value_of(self@.headers, name@) is None,
            },
    {
        find(&self.headers, name)
    }

    /// The value of the query parameter `name`.
    pub fn parameter<'a>(&'a self, name: &str) -> (r: Option<&'a str>)
        ensures
            match r {
                Some(v) => value_of(self@.query, name@) == Some(v@),
                None => value_of(self@.query, name@) is None,
            },
    {
        find(&self.query, name)
    }

    /// How many bytes of body follow the head: what `Content-Length` says,
    /// and none where it says nothing readable.
    pub fn body_len(&self) -> (r: u64)
        ensures
            r == body_length(self@),
    {
        match self.header("content-length") {
            Some(v) => match parse_unsigned(v, u64::MAX) {
                Some(n) => n,
                None => 0,
            },
            None => 0,
        }
    }

    /// Whether the client asks to go on with another protocol.
    pub fn is_upgrade_to(&self, protocol: &str) -> (r: bool)
        ensures
            r == (value_of(self@.headers, "upgrade"@) matches Some(v) && same_ignoring_case(v, protocol@)),
    {
        match self.header("upgrade") {
            Some(v) => {
                let a = to_ascii_lowercase(v);
                let b = to_ascii_lowercase(protocol);
                str_eq(a.as_str(), b.as_str())
            },
            None => false,
        }
    }

    /// The token of an `Authorization: Bearer` header.
    pub fn bearer_token<'a>(&'a self) -> (r: Option<&'a str>)
        ensures
            match r {
                Some(t) => bearer_of(self@) == Some(t@),
                None => bearer_of(self@) is None,
            },
    {
        match self.header("authorization") {
            Some(v) => strip_prefix(v, "Bearer "),
            None => None,
        }
    }
}

/// How many bytes of body follow a head.
pub open spec fn body_length(r: RequestView) -> nat {
    match value_of(r.headers, "content-length"@) {
        Some(v) => match parsed_unsigned(v, u64::MAX as nat) {
            Some(n) => n,
            None => 0,
        },
        None => 0,
    }
}

/// The token of an `Authorization: Bearer` header.
pub open spec fn bearer_of(r: RequestView) -> Option<Seq<char>> {
    match value_of(r.headers, "authorization"@) {
        Some(v) => without_prefix(v, "Bearer "@),
        None => None,
    }
}

/// The parts of a path between slashes, without empty ones.
pub open spec fn segments_of(path: Seq<char>) -> Seq<Seq<char>> {
    pieces(path, '/').filter(|s: Seq<char>| s.len() > 0)
}

/// The parts of a path between slashes, without empty ones.
pub fn segments(path: &str) -> (r: Vec<String>)
    ensures
        views(r@) == segments_of(path@),
{
    let parts = split(path, '/');
    let ghost all = views(parts@);
    let ghost keep = |s: Seq<char>| s.len() > 0;
    let mut out: Vec<String> = Vec::new();
    let mut i: usize = 0;
    assert(views(out@) =~= all.take(0).filter(keep)) by {
        reveal(Seq::filter);
    }
    while i < parts.len()
        invariant
            i <= parts@.len(),
            all == views(parts@),
            keep == (|s: Seq<char>| s.len() > 0),
            views(out@) == all.take(i as int).filter(keep),
        decreases parts.len() - i,
    {
        proof {
            assert(all.take(i + 1).drop_last() =~= all.take(i as int));
            assert(all.take(i + 1).last() == parts@[i as int]@);
            reveal(Seq::filter);
        }
        if parts[i].as_str().unicode_len() > 0 {
            let part = parts[i].clone();
            assert(views(out@.push(part)) =~= views(out@).push(part@));
            out.push(part);
        }
        i += 1;
    }
    assert(all.take(i as int) =~= all);
    out
}

// ---- Responses -------------------------------------------------------------

/// A response.
pub struct Response {
    pub status: u16,
    pub headers: Vec<(String, String)>,
    pub body: Vec<u8>,
}

/// The mathematical content of a [`Response`].
#[verifier::ext_equal]
pub struct ResponseView {
    pub status: u16,
    pub headers: Seq<(Seq<char>, Seq<char>)>,
    pub body: Seq<u8>,
}

impl View for Response {
    type V = ResponseView;

    open spec fn view(&self) -> ResponseView {
        ResponseView { status: self.status, headers: pair_texts(self.headers@), body: self.body@ }
    }
}

/// The words behind a status code.
pub open spec fn status_words(code: u16) -> Seq<char> {
    if code == 200 {
        "OK"@
    } else if code == 201 {
        "Created"@
    } else if code == 204 {
        "No Content"@
    } else if code == 101 {
        "Switching Protocols"@
    } else if code == 400 {
        "Bad Request"@
    } else if code == 404 {
        "Not Found"@
    } else if code == 405 {
        "Method Not Allowed"@
    } else if code == 500 {
        "Internal Server Error"@
    } else {
        "Unknown"@
    }
}

/// The words behind a status code.
pub fn status_text(code: u16) -> (r: &'static str)
    ensures
        r@ == status_words(code),
{
    if code == 200 {
        "OK"
    } else if code == 201 {
        "Created"
    } else if code == 204 {
        "No Content"
    } else if code == 101 {
        "Switching Protocols"
    } else if code == 400 {
        "Bad Request"
    } else if code == 404 {
        "Not Found"
    } else if code == 405 {
        "Method Not Allowed"
    } else if code == 500 {
        "Internal Server Error"
    } else {
        "Unknown"
    }
}

/// A response with one header.
pub open spec fn with_content(status: u16, content_type: Seq<char>, body: Seq<u8>) -> ResponseView {
    ResponseView { status, headers: seq![("Content-Type"@, content_type)], body }
}

/// A plain text response.
pub open spec fn text_response(status: u16, text: Seq<char>) -> ResponseView {
    with_content(status, "text/plain; charset=utf-8"@, encode_utf8(text))
}

/// A JSON response.
pub open spec fn json_response(status: u16, json: Seq<char>) -> ResponseView {
    with_content(status, "application/json"@, encode_utf8(json))
}

/// A response without headers or body.
pub open spec fn bare_response(status: u16) -> ResponseView {
    ResponseView { status, headers: Seq::empty(), body: Seq::empty() }
}

/// The header lines of a response.
pub open spec fn header_text(headers: Seq<(Seq<char>, Seq<char>)>) -> Seq<char>
    decreases headers.len(),
{
    if headers.len() == 0 {
        Seq::empty()
    } else {
        header_text(headers.drop_last()) + headers.last().0 + ": "@ + headers.last().1 + "\r\n"@
    }
}

/// The head of a response, up to the empty line.
pub open spec fn response_head(r: ResponseView) -> Seq<char> {
    "HTTP/1.1 "@ + decimal(r.status as nat) + " "@ + status_words(r.status) + "\r\n"@ + "Content-Length: "@
        + decimal(r.body.len()) + "\r\n"@ + "Access-Control-Allow-Origin: *\r\nConnection: close\r\n"@ + header_text(
        r.headers,
    ) + "\r\n"@
}

/// The bytes of a response.
pub open spec fn response_bytes(r: ResponseView) -> Seq<u8> {
    encode_utf8(response_head(r)) + r.body
}

impl Response {
    /// A response with one header.
    pub fn with(status: u16, content_type: &str, body: Vec<u8>) -> (r: Response)
        ensures
            r@ == with_content(status, content_type@, body@),
    {
        let mut headers: Vec<(String, String)> = Vec::new();
        headers.push(("Content-Type".to_owned(), content_type.to_owned()));
        let r = Response { status, headers, body };
        assert(r@ =~= with_content(status, content_type@, body@));
        r
    }

    /// A response without headers or body.
    pub fn bare(status: u16) -> (r: Response)
        ensures
            r@ == bare_response(status),
    {
        let r = Response { status, headers: Vec::new(), body: Vec::new() };
        assert(r@ =~= bare_response(status));
        r
    }

    /// A JSON response.
    pub fn json(status: u16, json: &str) -> (r: Response)
        ensures
            r@ == json_response(status, json@),
    {
        Response::with(status, "application/json", bytes_of(json))
    }

    /// A plain text response.
    pub fn text(status: u16, text: &str) -> (r: Response)
        ensures
            r@ == text_response(status, text@),
    {
        Response::with(status, "text/plain; charset=utf-8", bytes_of(text))
    }

    /// The bytes of the response.
    pub fn write_to(&self, out: &mut Vec<u8>)
        ensures
            final(out)@ == old(out)@ + response_bytes(self@),
    {
        let status = u64_text(self.status as u64);
        let length = u64_text(self.body.len() as u64);
        let mut head = cat4("HTTP/1.1 ", status.as_str(), " ", status_text(self.status));
        head.append("\r\n");
        head.append("Content-Length: ");
        head.append(length.as_str());
        head.append("\r\n");
        head.append("Access-Control-Allow-Origin: *\r\nConnection: close\r\n");
        let ghost start = head@;
        let ghost all = pair_texts(self.headers@);
        let mut i: usize = 0;
        assert(head@ =~= start + header_text(all.take(0)));
        while i < self.headers.len()
            invariant
                i <= self.headers@.len(),
                all == pair_texts(self.headers@),
                head@ == start + header_text(all.take(i as int)),
            decreases self.headers.len() - i,
        {
            let h = &self.headers[i];
            proof {
                assert(all.take(i + 1).drop_last() =~= all.take(i as int));
                assert(all.take(i + 1).last() == (h.0@, h.1@));
            }
            head.append(h.0.as_str());
            head.append(": ");
            head.append(h.1.as_str());
            head.append("\r\n");
            assert(head@ =~= start + header_text(all.take(i + 1)));
            i += 1;
        }
        assert(all.take(i as int) =~= all);
        head.append("\r\n");
        assert(head@ =~= response_head(self@));
        let ghost before = out@;
        push_str_bytes(out, head.as_str());
        let mut body = self.body.clone();
        assert(body@ == self.body@);
        out.append(&mut body);
        assert(out@ =~= before + response_bytes(self@));
    }
}

/// The head of a response that hands the connection over to another protocol.
pub open spec fn upgrade_head(protocol: Seq<char>) -> Seq<char> {
    "HTTP/1.1 101 Switching Protocols\r\nUpgrade: "@ + protocol + "\r\nConnection: Upgrade\r\n\r\n"@
}

/// The bytes that hand the connection over to another protocol.
pub fn switch_protocols(protocol: &str) -> (r: Vec<u8>)
    ensures
        r@ == encode_utf8(upgrade_head(protocol@)),
{
    let text = cat3(
        "HTTP/1.1 101 Switching Protocols\r\nUpgrade: ",
        protocol,
        "\r\nConnection: Upgrade\r\n\r\n",
    );
    bytes_of(text.as_str())
}

/// One chunk of a chunked body.
pub open spec fn chunk_bytes(data: Seq<u8>) -> Seq<u8> {
    encode_utf8(hexadecimal(data.len()) + "\r\n"@) + data + encode_utf8("\r\n"@)
}

/// One chunk of a chunked body: its length in hexadecimal, then its bytes.
pub fn chunk(data: &Vec<u8>) -> (r: Vec<u8>)
    ensures
        r@ == chunk_bytes(data@),
{
    let length = u64_hex(data.len() as u64);
    let head = cat2(length.as_str(), "\r\n");
    let mut out = bytes_of(head.as_str());
    let mut body = data.clone();
    assert(body@ == data@);
    out.append(&mut body);
    push_str_bytes(&mut out, "\r\n");
    out
}

/// The end of a chunked body.
pub fn write_final_chunk() -> (r: Vec<u8>)
    ensures
        r@ == encode_utf8("0\r\n\r\n"@),
{
    bytes_of("0\r\n\r\n")
}

// ---- Laws ------------------------------------------------------------------

/// The texts of name and value pairs with a separator between them.
pub open spec fn pair_list(pairs: Seq<(Seq<char>, Seq<char>)>, sep: Seq<char>) -> Seq<Seq<char>> {
    pairs.map_values(|p: (Seq<char>, Seq<char>)| p.0 + sep + p.1)
}

/// Query pairs come back from their texts.
proof fn lemma_query_returns(pairs: Seq<(Seq<char>, Seq<char>)>)
    requires
        forall|i: int| 0 <= i < pairs.len() ==> !(#[trigger] pairs[i]).0.contains('='),
    ensures
        query_pairs(pair_list(pairs, seq!['='])) == pairs,
    decreases pairs.len(),
{
    let texts = pair_list(pairs, seq!['=']);
    if pairs.len() > 0 {
        let before = pairs.drop_last();
        assert forall|i: int| 0 <= i < before.len() implies !(#[trigger] before[i]).0.contains('=') by {
            assert(before[i] == pairs[i]);
        }
        lemma_query_returns(before);
        assert(texts.drop_last() =~= pair_list(before, seq!['=']));
        let p = pairs[pairs.len() - 1];
        texts_are_cut_in_front(p.0, '=', p.1);
        assert(texts.last() == p.0 + seq!['='] + p.1);
        assert(query_pairs(texts) =~= pairs);
    } else {
        assert(texts =~= Seq::<Seq<char>>::empty());
        assert(query_pairs(texts) =~= pairs);
    }
}

/// A request line is read by its parts: the method in front of the first
/// blank, the path up to the question mark, and every pair of the query in
/// order.
pub proof fn request_lines_are_read(
    method: Seq<char>,
    path: Seq<char>,
    pairs: Seq<(Seq<char>, Seq<char>)>,
    version: Seq<char>,
    headers: Seq<Seq<char>>,
)
    requires
        !method.contains(' '),
        !path.contains(' '),
        !path.contains('?'),
        forall|i: int| 0 <= i < pairs.len() ==> {
            let p = #[trigger] pairs[i];
            !p.0.contains('=') && !p.0.contains('&') && !p.1.contains('&') && !p.0.contains(' ') && !p.1.contains(' ')
        },
        version.len() > 0,
        !crate::text::is_white(version.last()),
    ensures
        ({
            let query = joined(pair_list(pairs, seq!['=']), seq!['&']);
            let with = request_of(method + seq![' '] + (path + seq!['?'] + query + seq![' '] + version), headers);
            let bare = request_of(method + seq![' '] + (path + seq![' '] + version), headers);
            &&& with.method == method && with.path == path && with.query == pairs
            &&& bare.method == method && bare.path == path && bare.query.len() == 0
            &&& with.body.len() == 0 && bare.body.len() == 0 && with.headers == bare.headers
        }),
{
    let texts = pair_list(pairs, seq!['=']);
    let query = joined(texts, seq!['&']);
    let target = path + seq!['?'] + query;
    let a = method + seq![' '] + (target + seq![' '] + version);
    let b = method + seq![' '] + (path + seq![' '] + version);
    assert(a.last() == version.last() && b.last() == version.last());
    assert(trimmed_end(a) == a && trimmed_end(b) == b);
    assert forall|i: int| 0 <= i < texts.len() implies !(#[trigger] texts[i]).contains('&') && !texts[i].contains(
        ' ',
    ) by {
        let p = pairs[i];
        let t = texts[i];
        assert(t == p.0 + seq!['='] + p.1);
        assert forall|k: int| 0 <= k < t.len() implies t[k] != '&' && t[k] != ' ' by {
            if k < p.0.len() {
                assert(p.0.contains(p.0[k]));
            } else if k > p.0.len() {
                assert(p.1.contains(p.1[k - p.0.len() - 1]));
            }
        }
    }
    lemma_joined_free(texts, '&', ' ');
    assert(!target.contains(' ')) by {
        if target.contains(' ') {
            let k = choose|k: int| 0 <= k < target.len() && target[k] == ' ';
            if k < path.len() {
                assert(path.contains(path[k]));
            } else if k > path.len() {
                assert(query.contains(query[k - path.len() - 1]));
            }
        }
    }
    texts_are_cut_in_front(method, ' ', target + seq![' '] + version);
    texts_are_cut_in_front(target, ' ', version);
    texts_are_cut_in_front(path, '?', query);
    texts_are_cut_in_front(method, ' ', path + seq![' '] + version);
    texts_are_cut_in_front(path, ' ', version);
    whole_texts_are_not_cut(path, '?');
    assert forall|i: int| 0 <= i < pairs.len() implies !(#[trigger] pairs[i]).0.contains('=') by {}
    lemma_query_returns(pairs);
    if pairs.len() > 0 {
        joined_pieces_come_back(texts, '&');
    } else {
        assert(pieces(query, '&') =~= seq![Seq::<char>::empty()]);
        let none = Seq::<char>::empty();
        whole_texts_are_not_cut(none, '=');
        let one = seq![none];
        assert(one.drop_last() =~= Seq::<Seq<char>>::empty());
        reveal_with_fuel(query_pairs, 2);
        assert(query_pairs(one) =~= pairs);
    }
}

/// Joined texts hold no character that neither they nor the separator hold.
pub proof fn lemma_joined_free(v: Seq<Seq<char>>, sep: char, c: char)
    requires
        sep != c,
        forall|i: int| 0 <= i < v.len() ==> !(#[trigger] v[i]).contains(c),
    ensures
        !joined(v, seq![sep]).contains(c),
    decreases v.len(),
{
    if v.len() > 1 {
        let before = v.drop_last();
        assert forall|i: int| 0 <= i < before.len() implies !(#[trigger] before[i]).contains(c) by {
            assert(before[i] == v[i]);
        }
        lemma_joined_free(before, sep, c);
        let head = joined(before, seq![sep]);
        let s = joined(v, seq![sep]);
        assert(s == head + seq![sep] + v.last());
        assert(!v[v.len() - 1].contains(c));
        if s.contains(c) {
            let k = choose|k: int| 0 <= k < s.len() && s[k] == c;
            if k < head.len() {
                assert(head.contains(head[k]));
            } else if k > head.len() {
                assert(v.last().contains(v.last()[k - head.len() - 1]));
            }
        }
    } else if v.len() == 1 {
        assert(!v[0].contains(c));
    }
}

/// A header line is read by its parts: the name in front of the first colon,
/// in lower case, and the value behind it without the white space around it.
/// It stands behind the headers of the lines before it, and counts for its
/// name, however that was written.
pub proof fn header_lines_are_read(
    line: Seq<char>,
    before: Seq<Seq<char>>,
    name: Seq<char>,
    value: Seq<char>,
)
    requires
        name.len() > 0,
        !name.contains(':'),
        !crate::text::is_white(name[0]),
        !crate::text::is_white(name.last()),
        value.len() > 0,
        !crate::text::is_white(value[0]),
        !crate::text::is_white(value.last()),
    ensures
        ({
            let r = request_of(line, before.push(name + seq![':', ' '] + value + seq!['\r', '\n']));
            let s = request_of(line, before);
            &&& r.headers == s.headers.push((lowercased(name), value))
            &&& value_of(r.headers, lowercased(name)) == Some(value)
            &&& forall|other: Seq<char>|
                other != lowercased(name) ==> #[trigger] value_of(r.headers, other) == value_of(s.headers, other)
        }),
{
    let text = name + seq![':', ' '] + value;
    let whole = text + seq!['\r', '\n'];
    let all = before.push(whole);
    assert(whole.drop_last() =~= text + seq!['\r']);
    assert((text + seq!['\r']).drop_last() =~= text);
    assert(text.last() == value.last());
    reveal_with_fuel(trimmed_end, 3);
    assert(trimmed_end(whole) == text);
    let tail = seq![' '] + value;
    assert(text =~= name + seq![':'] + tail);
    texts_are_cut_in_front(name, ':', tail);
    crate::text::trimmed_texts_stay(name);
    crate::text::trimmed_texts_stay(value);
    assert(tail.drop_first() =~= value);
    assert(trimmed(tail) == value) by {
        reveal_with_fuel(crate::text::trimmed_start, 2);
    }
    assert(all.drop_last() =~= before);
    let pairs = header_pairs(before);
    let now = pairs.push((lowercased(name), value));
    assert(header_pairs(all) == now);
    assert(now.drop_last() =~= pairs);
}

/// The parts of a path are found between its slashes, whatever number of
/// slashes ends it.
pub proof fn paths_are_read_by_their_parts(parts: Seq<Seq<char>>)
    requires
        parts.len() > 0,
        forall|i: int| 0 <= i < parts.len() ==> (#[trigger] parts[i]).len() > 0 && !parts[i].contains('/'),
    ensures
        segments_of(seq!['/'] + joined(parts, seq!['/'])) == parts,
        segments_of(seq!['/'] + joined(parts, seq!['/']) + seq!['/']) == parts,
{
    let text = joined(parts, seq!['/']);
    let none = Seq::<char>::empty();
    assert forall|i: int| 0 <= i < parts.len() implies !(#[trigger] parts[i]).contains('/') by {}
    joined_pieces_come_back(parts, '/');
    let path = seq!['/'] + text;
    let all = seq![none] + parts;
    assert(path.drop_first() =~= text);
    assert(pieces(path, '/') == all);
    lemma_all_kept(parts);
    lemma_empty_dropped(parts);
    crate::text::lemma_pieces_append(path, none, '/');
    assert(path + seq!['/'] + none =~= path + seq!['/']);
}

/// An empty part in front of others or behind them is dropped.
proof fn lemma_empty_dropped(parts: Seq<Seq<char>>)
    ensures
        ({
            let keep = |s: Seq<char>| s.len() > 0;
            let all = seq![Seq::<char>::empty()] + parts;
            &&& all.filter(keep) == parts.filter(keep)
            &&& all.push(Seq::<char>::empty()).filter(keep) == parts.filter(keep)
        }),
    decreases parts.len(),
{
    reveal(Seq::filter);
    let all = seq![Seq::<char>::empty()] + parts;
    if parts.len() > 0 {
        lemma_empty_dropped(parts.drop_last());
        assert(all.drop_last() =~= seq![Seq::<char>::empty()] + parts.drop_last());
        assert(all.last() == parts.last());
    } else {
        assert(all.drop_last() =~= Seq::<Seq<char>>::empty());
        assert(parts =~= Seq::<Seq<char>>::empty());
    }
    assert(all.push(Seq::<char>::empty()).drop_last() =~= all);
}

/// Parts that hold something are all kept.
proof fn lemma_all_kept(parts: Seq<Seq<char>>)
    requires
        forall|i: int| 0 <= i < parts.len() ==> (#[trigger] parts[i]).len() > 0,
    ensures
        parts.filter(|s: Seq<char>| s.len() > 0) == parts,
    decreases parts.len(),
{
    reveal(Seq::filter);
    if parts.len() > 0 {
        let before = parts.drop_last();
        assert forall|i: int| 0 <= i < before.len() implies (#[trigger] before[i]).len() > 0 by {
            assert(before[i] == parts[i]);
        }
        lemma_all_kept(before);
        assert(parts[parts.len() - 1].len() > 0);
        assert(before.push(parts.last()) =~= parts);
    }
}

/// The fixed lines of a response end with a line break.
proof fn lemma_fixed_lines()
    ensures
        ({
            let fixed = "Access-Control-Allow-Origin: *\r\nConnection: close\r\n"@;
            fixed.len() >= 2 && fixed[fixed.len() - 2] == '\r' && fixed[fixed.len() - 1] == '\n'
        }),
{
    reveal_strlit("Access-Control-Allow-Origin: *\r\nConnection: close\r\n");
}

/// What stands in a head in front of the headers.
spec fn head_front(r: ResponseView) -> Seq<char> {
    "HTTP/1.1 "@ + decimal(r.status as nat) + " "@ + status_words(r.status) + ("\r\n"@ + "Content-Length: "@ + decimal(
        r.body.len(),
    ) + "\r\n"@) + "Access-Control-Allow-Origin: *\r\nConnection: close\r\n"@
}

/// The front of a head ends with a line break.
proof fn lemma_head_front(r: ResponseView)
    ensures
        response_head(r) == head_front(r) + header_text(r.headers) + "\r\n"@,
        head_front(r).len() >= 2,
        head_front(r)[head_front(r).len() - 2] == '\r',
        head_front(r)[head_front(r).len() - 1] == '\n',
{
    lemma_fixed_lines();
    assert(response_head(r) =~= head_front(r) + header_text(r.headers) + "\r\n"@);
}

/// A response says how long its body is, and the body follows the empty line:
/// the head names status and length, ends with an empty line, and is all that
/// stands in front of the body.
pub proof fn responses_frame_their_body(r: ResponseView)
    ensures
        response_bytes(r) == encode_utf8(response_head(r)) + r.body,
        ("HTTP/1.1 "@ + decimal(r.status as nat) + " "@).is_prefix_of(response_head(r)),
        has_run(response_head(r), "\r\n"@ + "Content-Length: "@ + decimal(r.body.len()) + "\r\n"@),
        without_suffix(response_head(r), "\r\n"@ + "\r\n"@) is Some,
{
    let status = "HTTP/1.1 "@ + decimal(r.status as nat) + " "@;
    let words = status_words(r.status);
    let length = "\r\n"@ + "Content-Length: "@ + decimal(r.body.len()) + "\r\n"@;
    let fixed = "Access-Control-Allow-Origin: *\r\nConnection: close\r\n"@;
    let lines = header_text(r.headers);
    let head = response_head(r);
    lemma_head_front(r);
    let behind = fixed + lines + "\r\n"@;
    assert(head =~= (status + words) + length + behind);
    assert(status =~= head.subrange(0, status.len() as int));
    crate::text::runs_are_found(status + words, length, behind);
    lemma_header_lines(r.headers);
    let whole = head_front(r) + lines;
    let m = whole.len() as int;
    assert(whole[m - 2] == '\r' && whole[m - 1] == '\n');
    reveal_strlit("\r\n");
    let end = "\r\n"@ + "\r\n"@;
    let start = whole.take(m - 2);
    assert(head =~= start + end);
    crate::text::prefixes_and_suffixes_come_off(end, start, head);
}

/// Every header of a response stands on a line of its own.
pub proof fn responses_carry_their_headers(r: ResponseView, i: int)
    requires
        0 <= i < r.headers.len(),
    ensures
        has_run(response_head(r), "\r\n"@ + r.headers[i].0 + ": "@ + r.headers[i].1 + "\r\n"@),
{
    lemma_head_front(r);
    reveal_strlit("\r\n");
    let (x, y) = lemma_header_at(r.headers, i);
    let start = head_front(r) + x;
    let m = start.len() as int;
    assert(start[m - 2] == '\r' && start[m - 1] == '\n');
    let cut = start.take(m - 2);
    assert(start =~= cut + "\r\n"@);
    let run = "\r\n"@ + r.headers[i].0 + ": "@ + r.headers[i].1 + "\r\n"@;
    assert(response_head(r) =~= cut + run + (y + "\r\n"@));
    crate::text::runs_are_found(cut, run, y + "\r\n"@);
}

/// Header lines end with a line break, if there are any.
proof fn lemma_header_lines(headers: Seq<(Seq<char>, Seq<char>)>)
    ensures
        headers.len() > 0 ==> header_text(headers).len() >= 2 && header_text(headers)[header_text(headers).len() - 2]
            == '\r' && header_text(headers)[header_text(headers).len() - 1] == '\n',
        headers.len() == 0 ==> header_text(headers).len() == 0,
{
    reveal_strlit("\r\n");
}

/// Where the line of a header stands.
proof fn lemma_header_at(headers: Seq<(Seq<char>, Seq<char>)>, i: int) -> (r: (Seq<char>, Seq<char>))
    requires
        0 <= i < headers.len(),
    ensures
        header_text(headers) == r.0 + (headers[i].0 + ": "@ + headers[i].1 + "\r\n"@) + r.1,
        r.0.len() == 0 || r.0.len() >= 2 && r.0[r.0.len() - 2] == '\r' && r.0[r.0.len() - 1] == '\n',
    decreases headers.len(),
{
    let before = headers.drop_last();
    let line = headers.last().0 + ": "@ + headers.last().1 + "\r\n"@;
    lemma_header_lines(before);
    if i == headers.len() - 1 {
        let r = (header_text(before), Seq::<char>::empty());
        assert(header_text(headers) =~= r.0 + line + r.1);
        r
    } else {
        let (x, y) = lemma_header_at(before, i);
        assert(before[i] == headers[i]);
        assert(header_text(headers) =~= header_text(before) + line);
        assert(header_text(headers) =~= x + (headers[i].0 + ": "@ + headers[i].1 + "\r\n"@) + (y + line));
        (x, y + line)
    }
}

/// The hexadecimal rendering of a number, and nothing else, is read back: two
/// numbers with a line break behind them are the same if their texts are.
proof fn lemma_hexadecimal(n: nat)
    ensures
        hexadecimal(n).len() > 0,
        crate::num::hex_run_value(hexadecimal(n)) == Some(n),
        forall|i: int| 0 <= i < hexadecimal(n).len() ==> '0' <= #[trigger] hexadecimal(n)[i] <= 'f',
    decreases n,
{
    if n >= 16 {
        lemma_hexadecimal(n / 16);
        let s = hexadecimal(n);
        assert(s.drop_last() =~= hexadecimal(n / 16));
        assert forall|i: int| 0 <= i < s.len() implies '0' <= #[trigger] s[i] <= 'f' by {
            if i < s.len() - 1 {
                assert(s[i] == hexadecimal(n / 16)[i]);
            }
        }
    } else {
        let s = hexadecimal(n);
        assert(s.drop_last() =~= Seq::<char>::empty());
        reveal_with_fuel(crate::num::hex_run_value, 2);
    }
}

/// A chunked body can be read back: the first chunk of a stream, and what
/// follows it, are what the stream shows.
pub proof fn chunks_are_read_back(a: Seq<u8>, x: Seq<u8>, b: Seq<u8>, y: Seq<u8>)
    requires
        chunk_bytes(a) + x == chunk_bytes(b) + y,
    ensures
        a == b,
        x == y,
{
    reveal_strlit("\r\n");
    let ha = hexadecimal(a.len());
    let hb = hexadecimal(b.len());
    let na = ha.len() as int;
    let nb = hb.len() as int;
    lemma_hexadecimal(a.len());
    lemma_hexadecimal(b.len());
    let ta = ha + "\r\n"@;
    let tb = hb + "\r\n"@;
    assert forall|i: int| 0 <= i < ta.len() implies '\0' <= #[trigger] ta[i] <= '\u{7f}' by {
        if i < na {
            assert('0' <= ha[i] <= 'f');
        }
    }
    assert forall|i: int| 0 <= i < tb.len() implies '\0' <= #[trigger] tb[i] <= '\u{7f}' by {
        if i < nb {
            assert('0' <= hb[i] <= 'f');
        }
    }
    vstd::utf8::is_ascii_chars_encode_utf8(ta);
    vstd::utf8::is_ascii_chars_encode_utf8(tb);
    vstd::utf8::is_ascii_chars_encode_utf8("\r\n"@);
    let ea = encode_utf8(ta);
    let eb = encode_utf8(tb);
    let s = chunk_bytes(a) + x;
    let t = chunk_bytes(b) + y;
    let crlf = encode_utf8("\r\n"@);
    assert(s =~= ea + (a + crlf + x));
    assert(t =~= eb + (b + crlf + y));
    if na < nb {
        assert(s[na] == ea[na] && ea[na] == ta[na] as u8 && ta[na] == '\r');
        assert(t[na] == eb[na] && eb[na] == tb[na] as u8 && tb[na] == hb[na]);
        assert('0' <= hb[na] <= 'f');
        assert(false);
    }
    if nb < na {
        assert(t[nb] == eb[nb] && eb[nb] == tb[nb] as u8 && tb[nb] == '\r');
        assert(s[nb] == ea[nb] && ea[nb] == ta[nb] as u8 && ta[nb] == ha[nb]);
        assert('0' <= ha[nb] <= 'f');
        assert(false);
    }
    assert(ea =~= s.take(ea.len() as int));
    assert(eb =~= t.take(ea.len() as int));
    vstd::utf8::encode_utf8_decode_utf8(ta);
    vstd::utf8::encode_utf8_decode_utf8(tb);
    assert(ha =~= ta.take(na));
    assert(hb =~= tb.take(na));
    assert(a.len() == b.len());
    let n = ea.len() as int;
    assert(a =~= s.subrange(n, n + a.len()));
    assert(b =~= t.subrange(n, n + a.len()));
    assert(x =~= s.skip(n + a.len() + crlf.len()));
    assert(y =~= t.skip(n + a.len() + crlf.len()));
}

/// Texts and JSON go out as what they are, with the status and the bytes given.
pub proof fn responses_say_what_they_carry(status: u16, text: Seq<char>)
    ensures
        json_response(status, text).status == status,
        json_response(status, text).body == encode_utf8(text),
        value_of(json_response(status, text).headers, "Content-Type"@) == Some("application/json"@),
        text_response(status, text).status == status,
        text_response(status, text).body == encode_utf8(text),
        value_of(text_response(status, text).headers, "Content-Type"@) == Some("text/plain; charset=utf-8"@),
        bare_response(status).status == status,
        bare_response(status).headers.len() == 0,
        bare_response(status).body.len() == 0,
{
    crate::image::the_last_entry_counts(json_response(status, text).headers, "Content-Type"@, 0);
    crate::image::the_last_entry_counts(text_response(status, text).headers, "Content-Type"@, 0);
    assert(json_response(status, text).headers[0] == ("Content-Type"@, "application/json"@));
    assert(text_response(status, text).headers[0] == ("Content-Type"@, "text/plain; charset=utf-8"@));
}

/// The words behind the status codes that are in use.
pub proof fn status_codes_have_their_words()
    ensures
        status_words(101) == "Switching Protocols"@,
        status_words(200) == "OK"@,
        status_words(201) == "Created"@,
        status_words(204) == "No Content"@,
        status_words(400) == "Bad Request"@,
        status_words(404) == "Not Found"@,
        status_words(405) == "Method Not Allowed"@,
        status_words(500) == "Internal Server Error"@,
        forall|c: u16| c != 101 && c != 200 && c != 201 && c != 204 && c != 400 && c != 404 && c != 405 && c != 500
            ==> #[trigger] status_words(c) == "Unknown"@,
{
}

/// As many bytes of body follow as the last `Content-Length` says, and none
/// without one.
pub proof fn bodies_are_as_long_as_promised(r: RequestView, n: u64)
    requires
        r.headers.len() > 0,
        r.headers.last() == ("content-length"@, decimal(n as nat)),
    ensures
        body_length(r) == n,
        body_length(RequestView { headers: Seq::empty(), ..r }) == 0,
{
    crate::image::the_last_entry_counts(r.headers, "content-length"@, r.headers.len() - 1);
    crate::num::decimal_parses_back(n as nat, u64::MAX as nat);
}

/// Case does not matter in the name of a protocol, and everything else does.
pub proof fn protocols_are_named_in_any_case(a: Seq<char>, b: Seq<char>)
    ensures
        same_ignoring_case(a, b) <==> a.len() == b.len() && forall|i: int|
            0 <= i < a.len() ==> (#[trigger] a[i] == b[i] || ('a' <= a[i] <= 'z' && b[i] as int == a[i] as int - 32) || (
            'A' <= a[i] <= 'Z' && b[i] as int == a[i] as int + 32)),
{
    let x = lowercased(a);
    let y = lowercased(b);
    assert(x.len() == a.len() && y.len() == b.len());
    if same_ignoring_case(a, b) {
        assert forall|i: int| 0 <= i < a.len() implies (#[trigger] a[i] == b[i] || ('a' <= a[i] <= 'z' && b[i] as int
            == a[i] as int - 32) || ('A' <= a[i] <= 'Z' && b[i] as int == a[i] as int + 32)) by {
            crate::text::case_is_all_that_changes(a, i);
            crate::text::case_is_all_that_changes(b, i);
            assert(x[i] == y[i]);
        }
    }
    if a.len() == b.len() && forall|i: int|
        0 <= i < a.len() ==> (#[trigger] a[i] == b[i] || ('a' <= a[i] <= 'z' && b[i] as int == a[i] as int - 32) || (
        'A' <= a[i] <= 'Z' && b[i] as int == a[i] as int + 32)) {
        assert forall|i: int| 0 <= i < x.len() implies x[i] == y[i] by {
            crate::text::case_is_all_that_changes(a, i);
            crate::text::case_is_all_that_changes(b, i);
            assert(a[i] == b[i] || ('a' <= a[i] <= 'z' && b[i] as int == a[i] as int - 32) || ('A' <= a[i] <= 'Z'
                && b[i] as int == a[i] as int + 32));
        }
        assert(x =~= y);
    }
}

/// A part of a query without `=` says nothing, and the others are read one by
/// one.
pub proof fn queries_are_read_part_by_part(a: Seq<Seq<char>>, b: Seq<Seq<char>>, bare: Seq<char>)
    requires
        !bare.contains('='),
    ensures
        query_pairs(a + b) == query_pairs(a) + query_pairs(b),
        query_pairs(seq![bare]).len() == 0,
    decreases b.len(),
{
    reveal_with_fuel(query_pairs, 2);
    crate::text::whole_texts_are_not_cut(bare, '=');
    assert(seq![bare].drop_last() =~= Seq::<Seq<char>>::empty());
    if b.len() == 0 {
        assert(a + b =~= a);
        assert(query_pairs(a + b) =~= query_pairs(a) + query_pairs(b));
    } else {
        queries_are_read_part_by_part(a, b.drop_last(), bare);
        assert((a + b).drop_last() =~= a + b.drop_last());
        assert((a + b).last() == b.last());
        assert(query_pairs(a + b) =~= query_pairs(a) + query_pairs(b));
    }
}

/// A connection is handed over with a head of three lines: that the protocol
/// is switched, to which one, and that this is for the connection.
pub proof fn upgrades_name_the_protocol(protocol: Seq<char>)
    requires
        !protocol.contains('\n'),
        protocol.len() > 0 ==> protocol.last() != '\r',
    ensures
        crate::text::lines_of(upgrade_head(protocol)) == seq![
            "HTTP/1.1 101 Switching Protocols"@,
            "Upgrade: "@ + protocol,
            "Connection: Upgrade"@,
            Seq::<char>::empty(),
        ],
{
    reveal_strlit("HTTP/1.1 101 Switching Protocols\r\nUpgrade: ");
    reveal_strlit("HTTP/1.1 101 Switching Protocols");
    reveal_strlit("Upgrade: ");
    reveal_strlit("\r\nConnection: Upgrade\r\n\r\n");
    reveal_strlit("Connection: Upgrade");
    let crlf = seq!['\r', '\n'];
    let none = Seq::<char>::empty();
    let a = "HTTP/1.1 101 Switching Protocols"@;
    let b = "Upgrade: "@ + protocol;
    let c = "Connection: Upgrade"@;
    assert forall|i: int| 0 <= i < b.len() implies b[i] != '\n' by {
        if i >= 9 {
            assert(protocol.contains(protocol[i - 9]));
        }
    }
    let last = none + crlf + none;
    let third = c + crlf + last;
    let second = b + crlf + third;
    assert(upgrade_head(protocol) =~= a + crlf + second);
    crate::text::lines_end_at_line_feeds(a, second);
    crate::text::lines_end_at_line_feeds(b, third);
    crate::text::lines_end_at_line_feeds(c, last);
    crate::text::lines_end_at_line_feeds(none, none);
    assert(crate::text::lines_of(upgrade_head(protocol)) =~= seq![a, b, c, none]);
}

} // verus!
