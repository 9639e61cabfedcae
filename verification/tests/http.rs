use rum_framework::context::{FileRead, RumContext};
use rum_framework::dispatch::Action;
use rum_framework::handler::Handler;
use rum_framework::method::{MethodParseError, MethodType};
use rum_framework::request::{parse_request, RequestError};
use rum_framework::response::{Response, ResponseType};
use rum_framework::server::RumServer;
use rum_framework::status_code::{self, from_status_code};

#[test]
fn status_lines_from_the_table() {
    assert_eq!(from_status_code(status_code::OK), "200 OK");
    assert_eq!(from_status_code(404), "404 Not Found");
    assert_eq!(from_status_code(418), "418 I'm a teapot");
    assert_eq!(from_status_code(511), "511 Network Authentication Required");
    // The table lists NOT_MODIFIED with this line.
    assert_eq!(from_status_code(status_code::NOT_MODIFIED), "305 Not Modified");
    // USE_PROXY and unknown codes are not listed.
    assert_eq!(from_status_code(status_code::USE_PROXY), "");
    assert_eq!(from_status_code(999), "");
    assert_eq!(from_status_code(-1), "");
}

#[test]
fn every_listed_line_starts_with_its_code() {
    for code in 100..600 {
        let line = from_status_code(code);
        if !line.is_empty() && code != status_code::NOT_MODIFIED {
            assert!(line.starts_with(&format!("{} ", code)), "{}", line);
        }
    }
}

#[test]
fn response_text_layout() {
    let r = Response {
        http_status: "200 OK".to_string(),
        content_type: "html".to_string(),
        response_type: ResponseType::Html,
        response_body: "<p>hi</p>".to_string(),
    };
    let (text, status) = r.get_response("HTTP/1.1", "Content-Type: html\r\n".to_string());
    assert_eq!(text, "HTTP/1.1 200 OK\r\nContent-Type: html\r\n\r\n<p>hi</p>");
    assert_eq!(status, "200 OK");
}

#[test]
fn method_names() {
    assert_eq!(MethodType::from_str("GET"), Ok(MethodType::GET));
    assert_eq!(MethodType::from_str("PATCH"), Ok(MethodType::PATCH));
    assert_eq!(MethodType::from_str("get"), Err(MethodParseError::VariantNotFound));
    assert_eq!(MethodType::from_str(""), Err(MethodParseError::VariantNotFound));
    for m in [
        MethodType::GET,
        MethodType::POST,
        MethodType::PUT,
        MethodType::DELETE,
        MethodType::CONNECT,
        MethodType::OPTIONS,
        MethodType::TRACE,
        MethodType::PATCH,
    ] {
        assert_eq!(MethodType::from_str(&m.to_string()), Ok(m));
        assert_eq!(MethodType::from_slot(m.slot()), m);
    }
    assert_eq!(MethodType::DELETE.to_string(), "DELETE");
}

#[test]
fn request_with_query_headers_and_form_body() {
    let text = "POST /login?next=/home&x=&=y&flag HTTP/1.1\r\nHost: example.com\r\nContent-Type: application/x-www-form-urlencoded\r\n\r\nuser=ann&pw=secret&empty=\r\n";
    let (ctx, line) = parse_request(None, text).unwrap();
    assert_eq!(line.method, "POST");
    assert_eq!(line.route, "/login");
    assert_eq!(line.http_ver, "HTTP/1.1");
    assert_eq!(ctx.get_query_params("next").map(|s| s.as_str()), Some("/home"));
    assert_eq!(ctx.get_query_params("x"), None);
    assert_eq!(ctx.get_query_params(""), None);
    assert_eq!(ctx.get_query_params("flag"), None);
    assert_eq!(ctx.get_request_header("Host").map(|s| s.as_str()), Some("example.com"));
    assert_eq!(ctx.get_form_params("user").map(|s| s.as_str()), Some("ann"));
    assert_eq!(ctx.get_form_params("pw").map(|s| s.as_str()), Some("secret"));
    assert_eq!(ctx.get_form_params("empty"), None);
    assert_eq!(ctx.get_request_body(), "user=ann&pw=secret&empty=");
}

#[test]
fn body_lines_are_joined_and_trimmed_without_form_type() {
    let text = "GET / HTTP/1.0\nAccept: */*\n\n  line one\nline two  \n";
    let (ctx, line) = parse_request(None, text).unwrap();
    assert_eq!(line.http_ver, "HTTP/1.0");
    assert_eq!(ctx.get_request_body(), "line oneline two");
    assert_eq!(ctx.get_form_params("line"), None);
}

#[test]
fn later_values_replace_earlier_ones() {
    let text = "GET /a?k=1&k=2 HTTP/1.1\r\nX: a\r\nX: b\r\n\r\n";
    let (ctx, _) = parse_request(None, text).unwrap();
    assert_eq!(ctx.get_query_params("k").map(|s| s.as_str()), Some("2"));
    assert_eq!(ctx.get_request_header("X").map(|s| s.as_str()), Some("b"));
}

#[test]
fn malformed_requests_are_refused() {
    assert_eq!(parse_request(None, "GET\r\n\r\n").err(), Some(RequestError::MissingRoute));
    assert_eq!(parse_request(None, "GET /\r\n\r\n").err(), Some(RequestError::MissingVersion));
    assert_eq!(
        parse_request(None, "GET / HTTP/1.1\r\nBroken header\r\n\r\n").err(),
        Some(RequestError::MalformedHeader)
    );
    // An empty request has no request line at all.
    let (_, line) = parse_request(None, "").unwrap();
    assert_eq!(line.method, "");
}

fn handler_under_test() -> Handler<u32> {
    let mut h: Handler<u32> = Handler::new();
    h.add_route(MethodType::GET, "/users/:id/posts/:post", 1);
    h.add_route(MethodType::GET, "/hello", 2);
    h
}

#[test]
fn routed_request_gets_handler_and_url_params() {
    let h = handler_under_test();
    let p = h.prepare_connection("GET /users/42/posts/7 HTTP/1.1\r\n\r\n").unwrap();
    match p.action {
        Action::Handle(v) => assert_eq!(*v, 1),
        _ => panic!("expected a handler"),
    }
    assert_eq!(p.context.get_url_params("id").map(|s| s.as_str()), Some("42"));
    assert_eq!(p.context.get_url_params("post").map(|s| s.as_str()), Some("7"));
}

#[test]
fn server_does_not_read_the_last_segment_param() {
    let mut s: RumServer<u32> = RumServer::new("127.0.0.1", 8080);
    s.get("/users/:id/posts/:post", 1);
    let p = s.prepare_connection("GET /users/42/posts/7 HTTP/1.1\r\n\r\n").unwrap();
    assert_eq!(p.context.get_url_params("id").map(|s| s.as_str()), Some("42"));
    assert_eq!(p.context.get_url_params("post"), None);
}

#[test]
fn unknown_method_and_missing_route() {
    let h = handler_under_test();
    let p = h.prepare_connection("BREW /hello HTTP/1.1\r\n\r\n").unwrap();
    match p.action {
        Action::Respond(text, status) => {
            assert_eq!(status, "400 Bad Request");
            assert_eq!(text, "HTTP/1.1 400 Bad Request\r\nContent-Type: html\r\n\r\nBad Request");
        },
        _ => panic!("expected a response"),
    }
    let p = h.prepare_connection("GET /nothing HTTP/1.1\r\n\r\n").unwrap();
    match p.action {
        Action::Respond(text, status) => {
            assert_eq!(status, "404 Not Found");
            assert_eq!(text, "HTTP/1.1 404 Not Found\r\nContent-Type: html\r\n\r\nNot Found");
        },
        _ => panic!("expected a response"),
    }
}

#[test]
fn missing_route_is_served_from_static_assets() {
    let mut h = handler_under_test();
    h.set_static_assets("public");
    let p = h.prepare_connection("GET /css/site.css HTTP/1.1\r\n\r\n").unwrap();
    match p.action {
        Action::ServeFile(path) => assert_eq!(path, "public/site.css"),
        _ => panic!("expected a file"),
    }
}

#[test]
fn context_response_round_trip() {
    let mut ctx = RumContext::new(None);
    let (text, status) = ctx.get_response("HTTP/1.1");
    assert_eq!(status, "200 OK");
    assert_eq!(text, "HTTP/1.1 200 OK\r\nContent-Type: html\r\n\r\n");
    ctx.set_response(RumContext::html_response(201, Ok("<b>made</b>".to_string())));
    let (text, status) = ctx.get_response("HTTP/1.1");
    assert_eq!(status, "201 Created");
    assert_eq!(text, "HTTP/1.1 201 Created\r\nContent-Type: html\r\n\r\n<b>made</b>");
    let r = RumContext::html_response(200, Err("bad template".to_string()));
    assert_eq!(r.http_status, "500 Internal Server Error");
    assert_eq!(r.response_body, "bad template\n");
    assert_eq!(r.content_type, "html");
    ctx.set_url_params("id", "3");
    ctx.set_request_body("b".to_string());
    assert_eq!(ctx.get_url_params("id").map(|s| s.as_str()), Some("3"));
    assert_eq!(ctx.get_request_body(), "b");
    assert_eq!(ctx.default_404("HTTP/1.0").1, "404 Not Found");
    assert_eq!(ctx.default_400("HTTP/1.0").0, "HTTP/1.0 400 Bad Request\r\nContent-Type: html\r\n\r\nBad Request");
}

#[test]
fn html_without_engine_is_a_server_error() {
    let ctx = RumContext::new(None);
    let r = ctx.html(200, "index.html", &tera::Context::new());
    assert_eq!(r.http_status, "500 Internal Server Error");
    assert_eq!(r.response_body, "Tera template engine not initialized properly");
    assert_eq!(r.content_type, "html");
}

#[test]
fn html_renders_with_engine() {
    let mut engine = tera::Tera::default();
    engine.add_raw_template("hello.html", "Hello {{ name }}!").unwrap();
    let ctx = RumContext::new(Some(&engine));
    let mut vars = tera::Context::new();
    vars.insert("name", "Ann");
    let r = ctx.html(201, "hello.html", &vars);
    assert_eq!(r.http_status, "201 Created");
    assert_eq!(r.response_body, "Hello Ann!");
    let r = ctx.html(200, "missing.html", &vars);
    assert_eq!(r.http_status, "500 Internal Server Error");
    assert!(r.response_body.ends_with('\n'));
    assert!(r.response_body.len() > 1);
}

#[test]
fn file_responses() {
    let ctx = RumContext::new(None);
    let r = ctx.file(200, "public/index.html", FileRead::Contents("<html></html>".to_string()));
    assert_eq!(r.http_status, "200 OK");
    assert_eq!(r.content_type, "text/html");
    assert_eq!(r.response_body, "<html></html>");
    let r = ctx.file(200, "public/data.json", FileRead::Contents("{}".to_string()));
    assert_eq!(r.content_type, "application/json");
    let r = ctx.file(200, "public/README", FileRead::Contents("x".to_string()));
    assert_eq!(r.content_type, "text");
    let r = ctx.file(200, "public/a.css", FileRead::NotFound);
    assert_eq!(r.http_status, "404 Not Found");
    assert_eq!(r.response_body, "Not Found");
    assert_eq!(r.content_type, "html");
    let r = ctx.file(200, "public/a.css", FileRead::ReadError("denied".to_string()));
    assert_eq!(r.http_status, "500 Internal Server Error");
    assert_eq!(r.response_body, "denied");
}

#[test]
fn handler_template_engine_is_handed_to_the_context() {
    let mut h = handler_under_test();
    let mut engine = tera::Tera::default();
    engine.add_raw_template("t", "T").unwrap();
    h.set_template_engine(engine);
    let p = h.prepare_connection("GET /hello HTTP/1.1\r\n\r\n").unwrap();
    let r = p.context.html(200, "t", &tera::Context::new());
    assert_eq!(r.response_body, "T");
}
