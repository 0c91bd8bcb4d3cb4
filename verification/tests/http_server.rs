use buildermon::http::{
    asset_path, base_path, content_type, file_response_header, html_response, metrics_response,
    not_found_response, output_response_header, output_start, plain_response, route,
    server_error_response, sse_event_bytes, sse_event_text, stream_headers, Asset, Route,
    StreamCursor,
};

#[test]
fn route_serves_page_for_root_and_index() {
    assert_eq!(route("GET / HTTP/1.1\r\n"), Some(Route::Html));
    assert_eq!(route("GET /index.html HTTP/1.1\r\n"), Some(Route::Html));
}

#[test]
fn route_names_every_known_path() {
    assert_eq!(route("GET /output HTTP/1.1"), Some(Route::Output));
    assert_eq!(route("GET /assets/logo.png HTTP/1.1"), Some(Route::Asset(Asset::Logo)));
    assert_eq!(route("GET /assets/xterm.js HTTP/1.1"), Some(Route::Asset(Asset::XtermJs)));
    assert_eq!(route("GET /assets/xterm.css HTTP/1.1"), Some(Route::Asset(Asset::XtermCss)));
    assert_eq!(route("GET /stream HTTP/1.1"), Some(Route::Stream));
    assert_eq!(route("GET /metrics HTTP/1.1"), Some(Route::Metrics));
}

#[test]
fn route_unknown_path_is_not_found() {
    assert_eq!(route("GET /metrics/ HTTP/1.1"), Some(Route::NotFound));
    assert_eq!(route("POST /favicon.ico"), Some(Route::NotFound));
}

#[test]
fn route_without_path_gives_nothing() {
    assert_eq!(route(""), None);
    assert_eq!(route("GET"), None);
    assert_eq!(route("   GET   \r\n"), None);
}

#[test]
fn route_skips_any_white_space() {
    assert_eq!(route("  GET\t\t/stream\u{3000}x"), Some(Route::Stream));
    assert_eq!(route("GET /metrics"), Some(Route::Metrics));
}

#[test]
fn base_path_depends_on_demo_mode() {
    assert_eq!(base_path(true), "./dist");
    assert_eq!(base_path(false), "/etc/nixos-builder-mon");
}

#[test]
fn assets_have_paths_and_media_types() {
    assert_eq!(asset_path(Asset::Logo), "assets/logo.png");
    assert_eq!(content_type(Asset::Logo), "image/png");
    assert_eq!(asset_path(Asset::XtermJs), "assets/xterm.js");
    assert_eq!(content_type(Asset::XtermJs), "application/javascript");
    assert_eq!(asset_path(Asset::XtermCss), "assets/xterm.css");
    assert_eq!(content_type(Asset::XtermCss), "text/css");
}

#[test]
fn html_response_counts_bytes_not_characters() {
    assert_eq!(
        html_response("<p>hé</p>"),
        "HTTP/1.1 200 OK\r\nContent-Type: text/html; charset=utf-8\r\nContent-Length: 10\r\n\r\n<p>hé</p>"
    );
}

#[test]
fn file_header_carries_length_and_caching() {
    assert_eq!(
        file_response_header("image/png", 12345),
        "HTTP/1.1 200 OK\r\nContent-Type: image/png\r\nCache-Control: public, max-age=86400\r\nContent-Length: 12345\r\n\r\n"
    );
}

#[test]
fn output_header_and_empty_output() {
    assert_eq!(
        output_response_header(0),
        "HTTP/1.1 200 OK\r\nContent-Type: text/plain; charset=utf-8\r\nCache-Control: no-cache\r\nContent-Length: 0\r\n\r\n"
    );
    assert_eq!(
        plain_response(""),
        "HTTP/1.1 200 OK\r\nContent-Type: text/plain; charset=utf-8\r\nContent-Length: 0\r\n\r\n"
    );
}

#[test]
fn metrics_response_wraps_json() {
    assert_eq!(
        metrics_response("{\"status\":\"ok\"}"),
        "HTTP/1.1 200 OK\r\nContent-Type: application/json\r\nCache-Control: no-cache\r\nContent-Length: 15\r\n\r\n{\"status\":\"ok\"}"
    );
}

#[test]
fn error_responses() {
    assert_eq!(not_found_response(), "HTTP/1.1 404 NOT FOUND\r\n\r\n");
    assert_eq!(
        server_error_response("Failed to read output file"),
        "HTTP/1.1 500 INTERNAL SERVER ERROR\r\n\r\nFailed to read output file"
    );
    assert_eq!(
        stream_headers(),
        "HTTP/1.1 200 OK\r\nContent-Type: text/event-stream\r\nCache-Control: no-cache\r\nConnection: keep-alive\r\n\r\n"
    );
}

#[test]
fn output_start_keeps_last_fifty_thousand_bytes() {
    assert_eq!(output_start(0), 0);
    assert_eq!(output_start(50000), 0);
    assert_eq!(output_start(50001), 1);
    assert_eq!(output_start(123456), 73456);
}

#[test]
fn sse_events_one_per_line() {
    assert_eq!(sse_event_text("a\r\nb\n"), "data: a\n\ndata: b\n\n");
    assert_eq!(sse_event_text("one\n\nthree"), "data: one\n\ndata: \n\ndata: three\n\n");
    assert_eq!(sse_event_text(""), "");
    assert_eq!(sse_event_text("\n"), "data: \n\n");
}

#[test]
fn sse_keeps_carriage_return_of_unterminated_line() {
    assert_eq!(sse_event_text("x\r"), "data: x\r\n\n");
}

#[test]
fn sse_bytes_replace_invalid_utf8() {
    assert_eq!(sse_event_bytes(b"ok\n\xffz\n"), "data: ok\n\ndata: \u{FFFD}z\n\n");
    assert_eq!(sse_event_bytes("h\u{e9}\n".as_bytes()), "data: h\u{e9}\n\n");
}

#[test]
fn stream_cursor_reads_only_growth() {
    let mut c = StreamCursor::new();
    assert_eq!(c.poll(0), None);
    assert_eq!(c.poll(10), Some(0));
    assert_eq!(c.last_pos, 10);
    assert_eq!(c.poll(10), None);
    assert_eq!(c.poll(4), None);
    assert_eq!(c.last_pos, 10);
    assert_eq!(c.poll(25), Some(10));
    assert_eq!(c.last_pos, 25);
}
