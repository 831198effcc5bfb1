use hello::http::{handle_client, response, starts_with, Handled, Route};
use hello::signal::{AcceptAction, ControlChannel};

fn padded(request: &[u8]) -> [u8; 512] {
    let mut buffer = [0u8; 512];
    buffer[..request.len()].copy_from_slice(request);
    buffer
}

#[test]
fn home_request_gets_the_home_page() {
    let request = padded(b"GET / HTTP/1.1\r\nHost: localhost\r\n\r\n");
    let route = Route::of(&request);
    assert_eq!(route, Route::Home);
    assert_eq!(route.status(), "200 OK");
    assert_eq!(route.file_name(), "index.html");
    assert_eq!(route.delay_seconds(), 0);
    assert!(!route.requests_shutdown());
    assert_eq!(
        response(route.status(), "<h1>Hello!</h1>"),
        b"HTTP/1.1 200 OK\r\n\r\n<h1>Hello!</h1>".to_vec()
    );
}

#[test]
fn unknown_request_gets_the_fallback_page() {
    let request = padded(b"GET /nowhere HTTP/1.1\r\n\r\n");
    let route = Route::of(&request);
    assert_eq!(route, Route::NotFound);
    assert_eq!(route.status(), "404 NOT FOUND");
    assert_eq!(route.file_name(), "404.html");
    assert_eq!(route.delay_seconds(), 0);
    assert!(!route.requests_shutdown());
    assert_eq!(
        response(route.status(), "<h1>Oops!</h1>"),
        b"HTTP/1.1 404 NOT FOUND\r\n\r\n<h1>Oops!</h1>".to_vec()
    );
}

#[test]
fn shutdown_request_stops_the_next_accept() {
    let mut control = ControlChannel::new();
    assert_eq!(control.accept_step(true), AcceptAction::Submit);
    let request = padded(b"GET /shutdown HTTP/1.1\r\n\r\n");
    let handled = handle_client(&request, &mut control);
    assert_eq!(handled, Handled { route: Route::Shutdown, signal_lost: false });
    assert_eq!(handled.route.status(), "200 OK");
    assert_eq!(handled.route.file_name(), "shutdown.html");
    assert!(handled.route.requests_shutdown());
    assert_eq!(control.accept_step(true), AcceptAction::Stop);
}

#[test]
fn foo_request_rests_five_seconds() {
    let route = Route::of(&padded(b"GET /foo HTTP/1.1\r\n\r\n"));
    assert_eq!(route, Route::Foo);
    assert_eq!(route.status(), "200 OK");
    assert_eq!(route.file_name(), "foo.html");
    assert_eq!(route.delay_seconds(), 5);
    assert!(!route.requests_shutdown());
}

#[test]
fn other_requests_leave_the_channel_alone() {
    let mut control = ControlChannel::new();
    for request in [&b"GET / HTTP/1.1"[..], b"GET /foo HTTP/1.1", b"POST / HTTP/1.1", b""] {
        let handled = handle_client(request, &mut control);
        assert!(!handled.signal_lost);
        assert_ne!(handled.route, Route::Shutdown);
    }
    assert_eq!(control.try_recv(), None);
}

#[test]
fn lost_shutdown_signal_is_reported() {
    let mut control = ControlChannel::new();
    control.disconnect();
    let handled = handle_client(b"GET /shutdown HTTP/1.1", &mut control);
    assert_eq!(handled, Handled { route: Route::Shutdown, signal_lost: true });
    assert_eq!(control.try_recv(), None);
}

#[test]
fn route_needs_the_whole_request_line() {
    assert_eq!(Route::of(b"GET / HTTP/1.1"), Route::Home);
    assert_eq!(Route::of(b"GET / HTTP/1."), Route::NotFound);
    assert_eq!(Route::of(b"GET / HTTP/1.0"), Route::NotFound);
    assert_eq!(Route::of(b" GET / HTTP/1.1"), Route::NotFound);
    assert_eq!(Route::of(b"get / http/1.1"), Route::NotFound);
    assert_eq!(Route::of(b"GET /foo HTTP/1.1"), Route::Foo);
    assert_eq!(Route::of(b"GET /foobar HTTP/1.1"), Route::NotFound);
    assert_eq!(Route::of(b"GET /shutdown HTTP/1.1 and more"), Route::Shutdown);
    assert_eq!(Route::of(b"GET /shutdown"), Route::NotFound);
    assert_eq!(Route::of(b""), Route::NotFound);
    assert_eq!(Route::of(&[0u8; 512]), Route::NotFound);
}

#[test]
fn starts_with_compares_the_leading_bytes() {
    assert!(starts_with(b"abcdef", b"abc"));
    assert!(starts_with(b"abc", b"abc"));
    assert!(starts_with(b"abc", b""));
    assert!(starts_with(b"", b""));
    assert!(!starts_with(b"ab", b"abc"));
    assert!(!starts_with(b"abd", b"abc"));
    assert!(!starts_with(b"xbc", b"abc"));
    assert!(!starts_with(b"", b"a"));
}

#[test]
fn response_is_status_line_blank_line_payload() {
    assert_eq!(response("200 OK", ""), b"HTTP/1.1 200 OK\r\n\r\n".to_vec());
    assert_eq!(response("", ""), b"HTTP/1.1 \r\n\r\n".to_vec());
    assert_eq!(
        response("404 NOT FOUND", "line one\nline two\n"),
        b"HTTP/1.1 404 NOT FOUND\r\n\r\nline one\nline two\n".to_vec()
    );
    assert_eq!(
        response("200 OK", "caf\u{e9}"),
        "HTTP/1.1 200 OK\r\n\r\ncaf\u{e9}".as_bytes().to_vec()
    );
}
