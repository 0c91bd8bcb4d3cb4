//! The plain HTTP server: request routing and the bytes of each response.
use vstd::prelude::*;
use crate::text::{
    chars_of, decimal, decode_lossy, lossy_utf8, second_word, second_word_bounds, push_chars, push_decimal,
    push_str, slice_equals, split_bounds, split_on, lemma_split_on_nonempty, sub_vec,
};

verus! {

/// Bytes of the build output served at most by `/output`.
pub const MAX_OUTPUT_BYTES: u64 = 50000;

/// A static file under the asset directory.
#[derive(PartialEq, Eq, Structural, Debug, Clone, Copy)]
pub enum Asset {
    Logo,
    XtermJs,
    XtermCss,
}

/// What a request asks for.
#[derive(PartialEq, Eq, Structural, Debug, Clone, Copy)]
pub enum Route {
    Html,
    Output,
    Asset(Asset),
    Stream,
    Metrics,
    NotFound,
}

/// The route served for request path `path`.
pub open spec fn route_for(path: Seq<char>) -> Route {
    if path == "/"@ || path == "/index.html"@ {
        Route::Html
    } else if path == "/output"@ {
        Route::Output
    } else if path == "/assets/logo.png"@ {
        Route::Asset(Asset::Logo)
    } else if path == "/assets/xterm.js"@ {
        Route::Asset(Asset::XtermJs)
    } else if path == "/assets/xterm.css"@ {
        Route::Asset(Asset::XtermCss)
    } else if path == "/stream"@ {
        Route::Stream
    } else if path == "/metrics"@ {
        Route::Metrics
    } else {
        Route::NotFound
    }
}

/// The route asked for by an HTTP request line, `None` where the line does
/// not hold a path (fewer than two words).
pub fn route(request_line: &str) -> (r: Option<Route>)
    ensures
        r == (match second_word(request_line@) {
            Some(path) => Some(route_for(path)),
            None => None::<Route>,
        }),
{
    let v = chars_of(request_line);
    let (a1, b1) = match second_word_bounds(&v) {
        Some(bounds) => bounds,
        None => {
            return None;
        },
    };
    let r = if slice_equals(&v, a1, b1, "/") || slice_equals(&v, a1, b1, "/index.html") {
        Route::Html
    } else if slice_equals(&v, a1, b1, "/output") {
        Route::Output
    } else if slice_equals(&v, a1, b1, "/assets/logo.png") {
        Route::Asset(Asset::Logo)
    } else if slice_equals(&v, a1, b1, "/assets/xterm.js") {
        Route::Asset(Asset::XtermJs)
    } else if slice_equals(&v, a1, b1, "/assets/xterm.css") {
        Route::Asset(Asset::XtermCss)
    } else if slice_equals(&v, a1, b1, "/stream") {
        Route::Stream
    } else if slice_equals(&v, a1, b1, "/metrics") {
        Route::Metrics
    } else {
        Route::NotFound
    };
    Some(r)
}

/// Directory holding the page and its assets.
pub fn base_path(demo_mode: bool) -> (path: &'static str)
    ensures
        path@ == (if demo_mode {
            "./dist"@
        } else {
            "/etc/nixos-builder-mon"@
        }),
{
    if demo_mode {
        "./dist"
    } else {
        "/etc/nixos-builder-mon"
    }
}

/// Path of `asset` below the asset directory.
pub open spec fn asset_path_spec(asset: Asset) -> Seq<char> {
    match asset {
        Asset::Logo => "assets/logo.png"@,
        Asset::XtermJs => "assets/xterm.js"@,
        Asset::XtermCss => "assets/xterm.css"@,
    }
}

/// Media type `asset` is served with.
pub open spec fn content_type_spec(asset: Asset) -> Seq<char> {
    match asset {
        Asset::Logo => "image/png"@,
        Asset::XtermJs => "application/javascript"@,
        Asset::XtermCss => "text/css"@,
    }
}

/// Path of `asset` below the asset directory.
pub fn asset_path(asset: Asset) -> (p: &'static str)
    ensures
        p@ == asset_path_spec(asset),
{
    match asset {
        Asset::Logo => "assets/logo.png",
        Asset::XtermJs => "assets/xterm.js",
        Asset::XtermCss => "assets/xterm.css",
    }
}

/// Media type `asset` is served with.
pub fn content_type(asset: Asset) -> (t: &'static str)
    ensures
        t@ == content_type_spec(asset),
{
    match asset {
        Asset::Logo => "image/png",
        Asset::XtermJs => "application/javascript",
        Asset::XtermCss => "text/css",
    }
}

/// Number of bytes in the UTF-8 encoding of `s`.
pub open spec fn utf8_len(s: Seq<char>) -> nat {
    vstd::utf8::encode_utf8(s).len()
}

/// The page response for HTML text `content`.
pub open spec fn html_response_spec(content: Seq<char>) -> Seq<char> {
    "HTTP/1.1 200 OK\r\nContent-Type: text/html; charset=utf-8\r\nContent-Length: "@ + decimal(
        utf8_len(content),
    ) + "\r\n\r\n"@ + content
}

/// The head of a response carrying `len` bytes of an asset of media type `content_type`.
pub open spec fn file_header_spec(content_type: Seq<char>, len: nat) -> Seq<char> {
    "HTTP/1.1 200 OK\r\nContent-Type: "@ + content_type
        + "\r\nCache-Control: public, max-age=86400\r\nContent-Length: "@ + decimal(len)
        + "\r\n\r\n"@
}

/// The head of a response carrying `len` bytes of build output.
pub open spec fn output_header_spec(len: nat) -> Seq<char> {
    "HTTP/1.1 200 OK\r\nContent-Type: text/plain; charset=utf-8\r\nCache-Control: no-cache\r\nContent-Length: "@
        + decimal(len) + "\r\n\r\n"@
}

/// A plain-text response with body `msg`.
pub open spec fn plain_response_spec(msg: Seq<char>) -> Seq<char> {
    "HTTP/1.1 200 OK\r\nContent-Type: text/plain; charset=utf-8\r\nContent-Length: "@ + decimal(
        utf8_len(msg),
    ) + "\r\n\r\n"@ + msg
}

/// The metrics response for JSON text `json`.
pub open spec fn metrics_response_spec(json: Seq<char>) -> Seq<char> {
    "HTTP/1.1 200 OK\r\nContent-Type: application/json\r\nCache-Control: no-cache\r\nContent-Length: "@
        + decimal(utf8_len(json)) + "\r\n\r\n"@ + json
}

/// The error response with body `msg`.
pub open spec fn server_error_spec(msg: Seq<char>) -> Seq<char> {
    "HTTP/1.1 500 INTERNAL SERVER ERROR\r\n\r\n"@ + msg
}

fn push_len(out: &mut String, s: &str)
    requires
        utf8_len(s@) <= usize::MAX,
    ensures
        final(out)@ == old(out)@ + decimal(utf8_len(s@)),
{
    let n: usize = s.len();
    push_decimal(out, n as u64);
}

/// The page response for HTML text `content`.
pub fn html_response(content: &str) -> (r: String)
    requires
        utf8_len(content@) <= usize::MAX,
    ensures
        r@ == html_response_spec(content@),
{
    let mut r = String::new();
    push_str(&mut r, "HTTP/1.1 200 OK\r\nContent-Type: text/html; charset=utf-8\r\nContent-Length: ");
    push_len(&mut r, content);
    push_str(&mut r, "\r\n\r\n");
    push_str(&mut r, content);
    r
}

/// The head of a response carrying `len` bytes of an asset of media type `content_type`.
pub fn file_response_header(content_type: &str, len: usize) -> (r: String)
    ensures
        r@ == file_header_spec(content_type@, len as nat),
{
    let mut r = String::new();
    push_str(&mut r, "HTTP/1.1 200 OK\r\nContent-Type: ");
    push_str(&mut r, content_type);
    push_str(&mut r, "\r\nCache-Control: public, max-age=86400\r\nContent-Length: ");
    push_decimal(&mut r, len as u64);
    push_str(&mut r, "\r\n\r\n");
    r
}

/// The head of a response carrying `len` bytes of build output.
pub fn output_response_header(len: usize) -> (r: String)
    ensures
        r@ == output_header_spec(len as nat),
{
    let mut r = String::new();
    push_str(
        &mut r,
        "HTTP/1.1 200 OK\r\nContent-Type: text/plain; charset=utf-8\r\nCache-Control: no-cache\r\nContent-Length: ",
    );
    push_decimal(&mut r, len as u64);
    push_str(&mut r, "\r\n\r\n");
    r
}

/// A plain-text response with body `msg`; with an empty body it answers
/// `/output` while no build output exists yet.
pub fn plain_response(msg: &str) -> (r: String)
    requires
        utf8_len(msg@) <= usize::MAX,
    ensures
        r@ == plain_response_spec(msg@),
{
    let mut r = String::new();
    push_str(&mut r, "HTTP/1.1 200 OK\r\nContent-Type: text/plain; charset=utf-8\r\nContent-Length: ");
    push_len(&mut r, msg);
    push_str(&mut r, "\r\n\r\n");
    push_str(&mut r, msg);
    r
}

/// The metrics response for JSON text `json`.
pub fn metrics_response(json: &str) -> (r: String)
    requires
        utf8_len(json@) <= usize::MAX,
    ensures
        r@ == metrics_response_spec(json@),
{
    let mut r = String::new();
    push_str(
        &mut r,
        "HTTP/1.1 200 OK\r\nContent-Type: application/json\r\nCache-Control: no-cache\r\nContent-Length: ",
    );
    push_len(&mut r, json);
    push_str(&mut r, "\r\n\r\n");
    push_str(&mut r, json);
    r
}

/// The head that opens the event stream of build output.
pub fn stream_headers() -> (r: &'static str)
    ensures
        r@
            == "HTTP/1.1 200 OK\r\nContent-Type: text/event-stream\r\nCache-Control: no-cache\r\nConnection: keep-alive\r\n\r\n"@,
{
    "HTTP/1.1 200 OK\r\nContent-Type: text/event-stream\r\nCache-Control: no-cache\r\nConnection: keep-alive\r\n\r\n"
}

/// The response for an unknown path or a missing asset.
pub fn not_found_response() -> (r: &'static str)
    ensures
        r@ == "HTTP/1.1 404 NOT FOUND\r\n\r\n"@,
{
    "HTTP/1.1 404 NOT FOUND\r\n\r\n"
}

/// The error response with body `msg`.
pub fn server_error_response(msg: &str) -> (r: String)
    ensures
        r@ == server_error_spec(msg@),
{
    let mut r = String::new();
    push_str(&mut r, "HTTP/1.1 500 INTERNAL SERVER ERROR\r\n\r\n");
    push_str(&mut r, msg);
    r
}

/// Where `/output` starts reading a log of `size` bytes: only the last
/// `MAX_OUTPUT_BYTES` are served.
pub fn output_start(size: u64) -> (pos: u64)
    ensures
        pos == (if size > MAX_OUTPUT_BYTES {
            size - MAX_OUTPUT_BYTES
        } else {
            0
        }),
        size - pos <= MAX_OUTPUT_BYTES,
{
    if size > MAX_OUTPUT_BYTES {
        size - MAX_OUTPUT_BYTES
    } else {
        0
    }
}

/// `s` without one trailing carriage return.
pub open spec fn strip_cr(s: Seq<char>) -> Seq<char> {
    if s.len() > 0 && s.last() == '\r' {
        s.drop_last()
    } else {
        s
    }
}

/// The lines of `s` (`str::lines`): split at `\n`, a `\r` before a `\n`
/// dropped, no final empty line.
pub open spec fn text_lines(s: Seq<char>) -> Seq<Seq<char>> {
    let p = split_on(s, '\n');
    let ended = p.drop_last().map_values(|x: Seq<char>| strip_cr(x));
    if p.last().len() == 0 {
        ended
    } else {
        ended.push(p.last())
    }
}

/// The lines of `text` (`str::lines`), each as its characters.
pub fn line_vecs(text: &str) -> (r: Vec<Vec<char>>)
    ensures
        r@.len() == text_lines(text@).len(),
        forall|k: int| 0 <= k < r@.len() ==> #[trigger] r@[k]@ == text_lines(text@)[k],
{
    let v = chars_of(text);
    let b = split_bounds(&v, '\n');
    let ghost p = split_on(v@, '\n');
    proof {
        lemma_split_on_nonempty(v@, '\n');
    }
    let ghost ended = p.drop_last().map_values(|x: Seq<char>| strip_cr(x));
    let mut r: Vec<Vec<char>> = Vec::new();
    let n: usize = b.len() - 1;
    let mut k: usize = 0;
    while k < n
        invariant
            n + 1 == b@.len() == p.len(),
            k <= n,
            v@ == text@,
            p == split_on(v@, '\n'),
            ended == p.drop_last().map_values(|x: Seq<char>| strip_cr(x)),
            forall|j: int|
                #![trigger b@[j]]
                0 <= j < b@.len() ==> {
                    &&& b@[j].0 <= b@[j].1 <= v@.len()
                    &&& v@.subrange(b@[j].0 as int, b@[j].1 as int) == p[j]
                },
            r@.len() == k,
            forall|j: int| 0 <= j < k ==> #[trigger] r@[j]@ == ended[j],
        decreases n - k,
    {
        let (a, e) = b[k];
        let e2: usize = if e > a && v[e - 1] == '\r' {
            e - 1
        } else {
            e
        };
        assert(v@.subrange(a as int, e2 as int) == strip_cr(p[k as int])) by {
            if e > a && v@[e - 1] == '\r' {
                assert(v@.subrange(a as int, e2 as int) =~= p[k as int].drop_last());
            }
        }
        r.push(sub_vec(&v, a, e2));
        k = k + 1;
    }
    let (a, e) = b[n];
    if a < e {
        r.push(sub_vec(&v, a, e));
        assert(text_lines(text@) == ended.push(p.last()));
    } else {
        assert(text_lines(text@) == ended);
    }
    r
}

/// One server-sent event per line, in order.
pub open spec fn sse_events(lines: Seq<Seq<char>>) -> Seq<char>
    decreases lines.len(),
{
    if lines.len() == 0 {
        Seq::empty()
    } else {
        sse_events(lines.drop_last()) + "data: "@ + lines.last() + "\n\n"@
    }
}

fn push_event(out: &mut String, v: &Vec<char>, from: usize, to: usize)
    requires
        from <= to <= v@.len(),
    ensures
        final(out)@ == old(out)@ + "data: "@ + v@.subrange(from as int, to as int) + "\n\n"@,
{
    push_str(out, "data: ");
    push_chars(out, v, from, to);
    push_str(out, "\n\n");
}

/// The server-sent events carrying each line of `text`.
pub fn sse_event_text(text: &str) -> (r: String)
    ensures
        r@ == sse_events(text_lines(text@)),
{
    let v = chars_of(text);
    let b = split_bounds(&v, '\n');
    let ghost p = split_on(v@, '\n');
    proof {
        lemma_split_on_nonempty(v@, '\n');
    }
    let ghost ended = p.drop_last().map_values(|x: Seq<char>| strip_cr(x));
    let mut r = String::new();
    let n: usize = b.len() - 1;
    let mut k: usize = 0;
    assert(ended.take(0) =~= Seq::<Seq<char>>::empty());
    while k < n
        invariant
            n + 1 == b@.len() == p.len(),
            k <= n,
            v@ == text@,
            p == split_on(v@, '\n'),
            ended == p.drop_last().map_values(|x: Seq<char>| strip_cr(x)),
            forall|j: int|
                #![trigger b@[j]]
                0 <= j < b@.len() ==> {
                    &&& b@[j].0 <= b@[j].1 <= v@.len()
                    &&& v@.subrange(b@[j].0 as int, b@[j].1 as int) == p[j]
                },
            r@ == sse_events(ended.take(k as int)),
        decreases n - k,
    {
        let (a, e) = b[k];
        let e2: usize = if e > a && v[e - 1] == '\r' {
            e - 1
        } else {
            e
        };
        assert(v@.subrange(a as int, e2 as int) == strip_cr(p[k as int])) by {
            if e > a && v@[e - 1] == '\r' {
                assert(v@.subrange(a as int, e2 as int) =~= p[k as int].drop_last());
            }
        }
        push_event(&mut r, &v, a, e2);
        assert(ended.take(k + 1).drop_last() =~= ended.take(k as int));
        k = k + 1;
    }
    assert(ended.take(n as int) =~= ended);
    let (a, e) = b[n];
    if a < e {
        push_event(&mut r, &v, a, e);
        assert(ended.push(p.last()).drop_last() =~= ended);
    }
    r
}

/// Turns newly appended log bytes into server-sent events, one per line of
/// their lossy UTF-8 decoding.
pub fn sse_event_bytes(bytes: &[u8]) -> (r: String)
    ensures
        r@ == sse_events(text_lines(lossy_utf8(bytes@))),
{
    let text = decode_lossy(bytes);
    sse_event_text(text.as_str())
}

/// Position in the build log up to which `/stream` has sent events.
pub struct StreamCursor {
    pub last_pos: u64,
}

impl StreamCursor {
    /// A cursor at the start of the log.
    pub fn new() -> (c: Self)
        ensures
            c.last_pos == 0,
    {
        StreamCursor { last_pos: 0 }
    }

    /// Given the log's current `size`, where to read new output from, if the
    /// log grew; the cursor then moves to `size`, whatever the read yields.
    pub fn poll(&mut self, size: u64) -> (from: Option<u64>)
        ensures
            size > old(self).last_pos ==> from == Some(old(self).last_pos) && final(self).last_pos
                == size,
            size <= old(self).last_pos ==> from is None && final(self).last_pos == old(
                self,
            ).last_pos,
    {
        if size > self.last_pos {
            let from = self.last_pos;
            self.last_pos = size;
            Some(from)
        } else {
            None
        }
    }
}

} // verus!
