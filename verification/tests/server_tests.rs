use zws::cache::{handle_request, request_file, FileOpen, MemCache, ServerRequest};
use zws::handlers::{
    greeter_func, Boxed, Handler, HandlerFunc, NotFound, StaticFile, StringHandler,
};
use zws::mcache::{FileRead, FsEvent};
use zws::request::{Action, Method, Request};
use zws::response::{Header, Response};
use zws::server::{
    advance, first_phase, is_preface, select_h2, staged, worker_threads, Builder, Dispatch,
    Outcome, Phase, Router, Server,
};

fn line(name: &str, value: &str) -> Header {
    (name.as_bytes().to_vec(), value.as_bytes().to_vec())
}

fn plain_action(path: &str) -> Action {
    Action { method: Method::GET, path: path.to_string(), params: None }
}

fn get(path: &str) -> Vec<Header> {
    vec![line(":method", "GET"), line(":path", path)]
}

struct Says(&'static str);

impl Handler for Says {
    fn handle(&self, _req: Request, mut resp: Response) -> Response {
        resp.set_body_text(self.0);
        resp
    }
}

fn greeter(req: Request, mut resp: Response) -> Response {
    if req.has_params() {
        let text = format!(
            "Hello {} {}. You are {} years old!",
            req.param("fname"),
            req.param("lname"),
            req.param("age")
        );
        resp.set_body(text.into_bytes());
    } else {
        resp.set_body_text("Hello stranger!");
    }
    resp
}

fn server() -> Server {
    Server::builder()
        .handler("GET /hello", Says("Hello"))
        .unwrap()
        .handler("GET /", Says("root"))
        .unwrap()
        .handler_func("GET /user/:fname/:lname/:age", greeter)
        .unwrap()
        .build()
}

fn body(server: &Server, path: &str) -> String {
    let headers = get(path);
    let wire = server.respond(1, Some(&headers), b"").into_wire();
    String::from_utf8(wire.body).unwrap()
}

#[test]
fn worker_threads_default_to_the_processors() {
    assert_eq!(worker_threads(0, 8), 8);
    assert_eq!(worker_threads(3, 8), 3);
    assert_eq!(worker_threads(0, 0), 0);
}

#[test]
fn library_handlers_answer() {
    let actions = vec![Action::from_str("GET /user/:fname/:lname/:age").unwrap()];
    let headers = get("/user/Jane/Doe/30");
    let req = Request::new(1, Some(&headers), b"", &actions).unwrap();
    let wire = greeter_func(req, Response::new(1)).into_wire();
    assert_eq!(wire.body, b"Hello Jane Doe. You are 30 years old!".to_vec());
    let headers = get("/elsewhere");
    let req = Request::new(1, Some(&headers), b"", &actions).unwrap();
    assert_eq!(greeter_func(req, Response::new(1)).into_wire().body, b"Hello stranger!".to_vec());
    let req = Request::new(1, Some(&headers), b"", &actions).unwrap();
    let wire = StringHandler::new("Hello").handle(req, Response::new(2)).into_wire();
    assert_eq!(wire.body, b"Hello".to_vec());
    assert_eq!(wire.headers, vec![line(":status", "200"), line("server", "zws")]);
}

#[test]
fn builder_defaults() {
    let server = Builder::new().build();
    assert_eq!(server.settings(), ("tls/dev/cert.pem", "tls/dev/key.pem", "127.0.0.1:8443", 0));
}

#[test]
fn builder_settings() {
    let server = Server::builder()
        .tls("cert.pem", "key.pem")
        .socket("0.0.0.0:443")
        .threads(8)
        .build();
    assert_eq!(server.settings(), ("cert.pem", "key.pem", "0.0.0.0:443", 8));
    let server = Server::new("c", "k", "s", 2);
    assert_eq!(server.settings(), ("c", "k", "s", 2));
}

#[test]
fn builder_rejects_a_malformed_action() {
    assert!(Builder::new().handler("POST /x", NotFound).is_err());
    assert!(Builder::new().handler("GET", NotFound).is_err());
    assert!(Builder::new().handler_func("GET /a b", greeter).is_err());
    assert!(Server::new("c", "k", "s", 1).add_handler("PUT /", NotFound).is_err());
    assert!(Server::new("c", "k", "s", 1).add_handler_func("", greeter).is_err());
}

#[test]
fn router_registers_and_replaces() {
    let mut router = Router::new();
    assert!(!router.register(Action::from_str("GET /a").unwrap(), Boxed::new(Says("1"))));
    assert!(!router.register(Action::from_str("GET /b").unwrap(), Boxed::new(Says("2"))));
    assert!(router.register(Action::from_str("GET /a/:x").unwrap(), Boxed::new(Says("3"))));
    let paths: Vec<String> = router.list().iter().map(|a| a.path.clone()).collect();
    assert_eq!(paths, vec!["/a".to_string(), "/b".to_string()]);
    assert!(router.list()[0].params.is_some());
    let headers = get("/a");
    let req = Request::new(1, Some(&headers), b"", router.list()).unwrap();
    let wire = router.handler_at(0).handle(req, Response::new(1)).into_wire();
    assert_eq!(wire.body, b"3".to_vec());
}

#[test]
fn routes_are_found_by_longest_prefix() {
    let server = server();
    assert_eq!(body(&server, "/hello"), "Hello");
    assert_eq!(body(&server, "/hello/there"), "Hello");
    assert_eq!(body(&server, "/"), "root");
    assert_eq!(body(&server, "/css/site.css"), "root");
    assert_eq!(body(&server, "/hell"), "root");
}

#[test]
fn named_segments_reach_the_handler() {
    let server = server();
    assert_eq!(body(&server, "/user/Jane/Doe/30"), "Hello Jane Doe. You are 30 years old!");
    assert_eq!(body(&server, "/user/Jane"), "Hello Jane . You are  years old!");
    assert_eq!(body(&server, "/user"), "Hello stranger!");
}

#[test]
fn later_registration_overrides() {
    let server = Server::new("c", "k", "s", 1)
        .add_handler("GET /a", Says("first"))
        .unwrap()
        .add_handler("GET /a", Says("second"))
        .unwrap()
        .add_handler_func("GET /b", greeter)
        .unwrap();
    assert_eq!(body(&server, "/a"), "second");
    assert_eq!(body(&server, "/b"), "Hello stranger!");
}

#[test]
fn unrouted_request_is_not_found() {
    let server = Server::builder().handler("GET /hello", Says("Hello")).unwrap().build();
    for path in ["/other", "/", "/hel/lo", "relative"] {
        let headers = get(path);
        let wire = server.respond(11, Some(&headers), b"").into_wire();
        assert_eq!(wire.stream_id, 11);
        assert_eq!(wire.headers, vec![line(":status", "404"), line("server", "zws")]);
        assert_eq!(wire.body, b"Not Found\n".to_vec());
    }
}

#[test]
fn bad_request_is_rejected() {
    let server = server();
    let cases: Vec<Option<Vec<Header>>> = vec![
        None,
        Some(vec![]),
        Some(vec![line(":path", "/")]),
        Some(vec![line(":method", "POST"), line(":path", "/")]),
        Some(vec![line(":method", "GET")]),
    ];
    for headers in cases {
        let wire = server.respond(5, headers.as_deref(), b"").into_wire();
        assert_eq!(wire.stream_id, 5);
        assert_eq!(wire.headers, vec![line(":status", "400"), line("server", "zws")]);
        assert_eq!(wire.body, b"Bad Request\n".to_vec());
    }
}

#[test]
fn response_is_bound_to_the_stream_of_the_request() {
    struct Strays;
    impl Handler for Strays {
        fn handle(&self, _req: Request, _resp: Response) -> Response {
            Response::new(0)
        }
    }
    let server = Server::builder().handler("GET /", Strays).unwrap().build();
    let headers = get("/x");
    assert_eq!(server.respond(42, Some(&headers), b"").into_wire().stream_id, 42);
    assert_eq!(staged(Response::new(0), 9).into_wire().stream_id, 9);
}

#[test]
fn dispatch_says_who_answers() {
    let server = server();
    let headers = get("/hello/x?y=1");
    match server.dispatch(3, Some(&headers), b"") {
        Dispatch::Route(at, req, resp) => {
            assert_eq!(at, 0);
            assert_eq!(req.path, "/hello/x");
            assert_eq!(req.action.path, "/hello");
            assert_eq!(req.query, Some("y=1".to_string()));
            assert_eq!(resp.into_wire().stream_id, 3);
        }
        _ => panic!("routed request expected"),
    }
    let bare = Server::new("c", "k", "s", 0);
    match bare.dispatch(3, Some(&headers), b"") {
        Dispatch::Unrouted(req, _) => assert_eq!(req.action.path, "/hello/x"),
        _ => panic!("unrouted request expected"),
    }
    match server.dispatch(3, None, b"") {
        Dispatch::Reject(resp) => assert_eq!(resp.into_wire().body, b"Bad Request\n".to_vec()),
        _ => panic!("rejection expected"),
    }
}

#[test]
fn handler_walks_up_the_path() {
    let server = server();
    let mut action = plain_action("/hello/a/b");
    let handler = server.handler(&mut action);
    assert_eq!(action.path, "/hello");
    let headers = get("/hello/a/b");
    let req = Request::new(1, Some(&headers), b"", &Vec::new()).unwrap();
    assert_eq!(handler.handle(req, Response::new(1)).into_wire().body, b"Hello".to_vec());

    let bare = Server::builder().handler("GET /hello", Says("Hello")).unwrap().build();
    let mut action = plain_action("/x/y");
    let handler = bare.handler(&mut action);
    assert_eq!(action.path, "/");
    let req = Request::new(1, Some(&headers), b"", &Vec::new()).unwrap();
    let wire = handler.handle(req, Response::new(1)).into_wire();
    assert_eq!(wire.headers[0], line(":status", "404"));
    let mut action = plain_action("x/y");
    bare.handler(&mut action);
    assert_eq!(action.path, "");
}

#[test]
fn not_found_answers_404() {
    let headers = get("/");
    let req = Request::new(1, Some(&headers), b"", &Vec::new()).unwrap();
    let mut resp = Response::new(8);
    resp.add_header("x", "y");
    let wire = NotFound.handle(req, resp).into_wire();
    assert_eq!(wire.stream_id, 8);
    assert_eq!(
        wire.headers,
        vec![line(":status", "404"), line("server", "zws"), line("x", "y")]
    );
    assert_eq!(wire.body, b"Not Found\n".to_vec());
}

#[test]
fn handler_func_calls_the_function() {
    let handler = HandlerFunc::new(|_req: Request, mut resp: Response| {
        resp.add_header(":status", "204");
        resp
    });
    for _ in 0..2 {
        let headers = get("/");
        let req = Request::new(1, Some(&headers), b"", &Vec::new()).unwrap();
        let wire = handler.handle(req, Response::new(1)).into_wire();
        assert_eq!(wire.headers[0], line(":status", "204"));
    }
}

#[test]
fn preface_is_exactly_the_24_bytes() {
    assert!(is_preface(b"PRI * HTTP/2.0\r\n\r\nSM\r\n\r\n"));
    assert_eq!(b"PRI * HTTP/2.0\r\n\r\nSM\r\n\r\n".len(), 24);
    assert!(!is_preface(b"PRI * HTTP/2.0\r\n\r\nSM\r\n\r"));
    assert!(!is_preface(b"PRI * HTTP/2.0\r\n\r\nSM\r\n\r\n\n"));
    assert!(!is_preface(b"GET / HTTP/1.1\r\n\r\nSM\r\n\r\n"));
    assert!(!is_preface(b""));
}

#[test]
fn h2_is_picked_where_it_is_offered() {
    assert!(select_h2(b"\x02h2"));
    assert!(select_h2(b"\x08http/1.1\x02h2"));
    assert!(select_h2(b"\x02h2\x08http/1.1"));
    assert!(!select_h2(b"\x08http/1.1"));
    assert!(!select_h2(b"\x02h3"));
    assert!(!select_h2(b"\x02h"));
    assert!(!select_h2(b""));
    assert!(!select_h2(b"h2"));
}

#[test]
fn connection_runs_through_its_phases() {
    let mut phase = first_phase();
    assert_eq!(phase, Phase::Handshake);
    let steps = [
        (Outcome::Done, Phase::Preface),
        (Outcome::Read(true), Phase::Init),
        (Outcome::Done, Phase::AwaitFrame),
        (Outcome::Done, Phase::Serve),
        (Outcome::Done, Phase::Flush),
        (Outcome::Sent, Phase::Flush),
        (Outcome::Sent, Phase::Flush),
        (Outcome::Idle, Phase::Reap),
        (Outcome::Done, Phase::AwaitFrame),
        (Outcome::Done, Phase::Serve),
        (Outcome::Done, Phase::Flush),
        (Outcome::Failed, Phase::Reap),
        (Outcome::Done, Phase::AwaitFrame),
        (Outcome::Failed, Phase::Closed),
        (Outcome::Done, Phase::Closed),
    ];
    for (outcome, expected) in steps {
        phase = advance(phase, outcome);
        assert_eq!(phase, expected);
    }
}

#[test]
fn failures_close_the_connection() {
    assert_eq!(advance(Phase::Handshake, Outcome::Failed), Phase::Closed);
    assert_eq!(advance(Phase::Preface, Outcome::Failed), Phase::Closed);
    assert_eq!(advance(Phase::Preface, Outcome::Read(false)), Phase::Closed);
    assert_eq!(advance(Phase::Init, Outcome::Failed), Phase::Closed);
    assert_eq!(advance(Phase::AwaitFrame, Outcome::Failed), Phase::Closed);
    assert_eq!(advance(Phase::Serve, Outcome::Failed), Phase::Closed);
    assert_eq!(advance(Phase::Reap, Outcome::Failed), Phase::Closed);
    assert_eq!(advance(Phase::Handshake, Outcome::Sent), Phase::Closed);
    assert_eq!(advance(Phase::Serve, Outcome::Idle), Phase::Closed);
    let all = [Outcome::Done, Outcome::Failed, Outcome::Read(true), Outcome::Sent, Outcome::Idle];
    for outcome in all {
        assert_eq!(advance(Phase::Closed, outcome), Phase::Closed);
    }
}

#[test]
fn static_file_without_cache_keeps_nothing() {
    let mut files = StaticFile::new("webroot");
    assert_eq!(files.webroot(), "webroot");
    assert_eq!(files.file("/"), "webroot/index.html");
    assert!(files.cached("/a.txt", 1).is_none());
    let resp = files.answer("/a.txt", 5, FileRead::Contents(b"abc".to_vec()));
    let wire = resp.into_wire();
    assert_eq!(wire.stream_id, 5);
    assert_eq!(wire.body, b"abc".to_vec());
    assert!(files.cached("/a.txt", 1).is_none());
}

#[test]
fn static_file_with_cache_keeps_what_it_read() {
    let mut files = StaticFile::with_cache("webroot");
    assert!(files.cached("/a.txt", 1).is_none());
    let wire = files.answer("/a.txt", 5, FileRead::Contents(b"abc".to_vec())).into_wire();
    assert_eq!(wire.stream_id, 5);
    assert_eq!(wire.headers[2], line("content-type", "text/plain; charset=utf-8"));
    let wire = files.cached("/a.txt", 7).unwrap().into_wire();
    assert_eq!(wire.stream_id, 7);
    assert_eq!(wire.body, b"abc".to_vec());
    assert_eq!(wire.headers[0], line(":status", "200"));
    // Failures are not kept.
    let wire = files.answer("/nope", 9, FileRead::Missing).into_wire();
    assert_eq!(wire.stream_id, 9);
    assert_eq!(wire.headers[0], line(":status", "404"));
    assert!(files.cached("/nope", 9).is_none());
    let wire = files.answer("/docs", 9, FileRead::Directory).into_wire();
    assert_eq!(wire.headers[0], line(":status", "307"));
    assert_eq!(wire.headers[2], line("location", "/docs/"));
    assert!(files.cached("/docs", 9).is_none());
}

#[test]
fn static_file_handle_serves_what_is_kept() {
    let mut files = StaticFile::with_cache("webroot");
    let wire = files.handle("/", 1, FileRead::Contents(b"hello".to_vec())).into_wire();
    assert_eq!(wire.stream_id, 1);
    assert_eq!(wire.body, b"hello".to_vec());
    // What is kept is served, whatever the file holds by now.
    let wire = files.handle("/", 3, FileRead::Contents(b"world".to_vec())).into_wire();
    assert_eq!(wire.stream_id, 3);
    assert_eq!(wire.body, b"hello".to_vec());
    let wire = files.handle("/", 5, FileRead::Missing).into_wire();
    assert_eq!(wire.stream_id, 5);
    assert_eq!(wire.headers[0], line(":status", "200"));
    // After the change the new bytes are served.
    files.forget(5, &FsEvent::Write("/srv/webroot/index.html".to_string()));
    let wire = files.handle("/", 7, FileRead::Contents(b"world".to_vec())).into_wire();
    assert_eq!(wire.stream_id, 7);
    assert_eq!(wire.headers[0], line(":status", "200"));
    assert_eq!(wire.body, b"world".to_vec());
    assert_eq!(files.handle("/", 9, FileRead::Missing).into_wire().body, b"world".to_vec());
}

#[test]
fn static_file_does_not_serve_a_404_again() {
    let mut files = StaticFile::with_cache("webroot");
    let wire = files.handle("/new.txt", 1, FileRead::Missing).into_wire();
    assert_eq!(wire.stream_id, 1);
    assert_eq!(wire.headers[0], line(":status", "404"));
    assert_eq!(wire.body, b"Not Found\n".to_vec());
    files.forget(5, &FsEvent::Write("/srv/webroot/new.txt".to_string()));
    let wire = files.handle("/new.txt", 3, FileRead::Contents(b"made".to_vec())).into_wire();
    assert_eq!(wire.stream_id, 3);
    assert_eq!(wire.headers[0], line(":status", "200"));
    assert_eq!(wire.body, b"made".to_vec());
    let mut plain = StaticFile::new("webroot");
    let wire = plain.handle("/a", 1, FileRead::Missing).into_wire();
    assert_eq!(wire.headers[0], line(":status", "404"));
    let wire = plain.handle("/a", 1, FileRead::Contents(Vec::new())).into_wire();
    assert_eq!(wire.headers[0], line(":status", "200"));
}

#[test]
fn static_file_forgets_what_changed() {
    let mut files = StaticFile::with_cache("webroot");
    files.answer("/", 1, FileRead::Contents(b"hello".to_vec()));
    files.answer("/a.css", 1, FileRead::Contents(b"a{}".to_vec()));
    files.forget(5, &FsEvent::Other);
    assert!(files.cached("/", 1).is_some());
    files.forget(5, &FsEvent::Write("/srv/webroot/index.html".to_string()));
    assert!(files.cached("/", 1).is_none());
    assert!(files.cached("/a.css", 1).is_some());
    files.forget(5, &FsEvent::Remove("/srv/webroot/a.css".to_string()));
    assert!(files.cached("/a.css", 1).is_none());
    let wire = files.answer("/", 3, FileRead::Contents(b"world".to_vec())).into_wire();
    assert_eq!(wire.body, b"world".to_vec());
    assert_eq!(files.cached("/", 4).unwrap().into_wire().body, b"world".to_vec());
    let mut plain = StaticFile::new("webroot");
    plain.forget(5, &FsEvent::Write("/srv/webroot/index.html".to_string()));
    assert!(plain.cached("/", 1).is_none());
}

#[test]
fn mem_cache_answers_by_what_opening_gave() {
    let mut cache = MemCache::new();
    let r = cache.get("./nope", FileOpen::Missing);
    assert_eq!(r.stream_id, 0);
    assert_eq!(r.headers, vec![line(":status", "404")]);
    assert_eq!(r.body, b"Not Found\n".to_vec());
    let r = cache.get("./a", FileOpen::Unopened);
    assert_eq!(r.headers, vec![line(":status", "500")]);
    assert_eq!(r.body, b"Unable to get file\n".to_vec());
    let r = cache.get("./a", FileOpen::NoMetadata);
    assert_eq!(r.headers, vec![line(":status", "500")]);
    assert_eq!(r.body, b"Unable to get file metadata\n".to_vec());
    let r = cache.get("./a", FileOpen::Unread);
    assert_eq!(r.headers, vec![line(":status", "500")]);
    assert_eq!(r.body, b"Unable to read file\n".to_vec());
    assert!(cache.cached("./a").is_none());
    assert!(cache.cached("./nope").is_none());
}

#[test]
fn mem_cache_keeps_files_only() {
    let mut cache = MemCache::new();
    let r = cache.get("./index.html", FileOpen::Contents(b"hello".to_vec()));
    assert_eq!(
        r.headers,
        vec![line(":status", "200"), line("content-type", "text/html; charset=utf-8")]
    );
    assert_eq!(r.body, b"hello".to_vec());
    let kept = cache.cached("./index.html").unwrap();
    assert_eq!(kept.body, b"hello".to_vec());
    // What is kept is given again, whatever the file holds by now.
    let r = cache.get("./index.html", FileOpen::Contents(b"world".to_vec()));
    assert_eq!(r.body, b"hello".to_vec());
    let r = cache.get("./index.html", FileOpen::Missing);
    assert_eq!(r.body, b"hello".to_vec());
    assert_eq!(r.headers[0], line(":status", "200"));
}

#[test]
fn request_file_goes_by_the_last_path_header() {
    assert_eq!(request_file(&[]), "index.html");
    assert_eq!(request_file(&[line(":method", "GET")]), "index.html");
    assert_eq!(request_file(&get("/")), "./index.html");
    assert_eq!(request_file(&get("/a/b.css")), "./a/b.css");
    assert_eq!(request_file(&get("/docs/")), "./docs/index.html");
    assert_eq!(request_file(&[line(":path", "/a"), line(":path", "/b")]), "./b");
    assert_eq!(
        request_file(&[line(":path", "/a"), (b":path".to_vec(), vec![0xff])]),
        "./a"
    );
}

#[test]
fn handle_request_binds_the_stream() {
    let mut cache = MemCache::new();
    let headers = get("/");
    let req = ServerRequest { stream_id: 13, headers: &headers, body: b"" };
    let r = handle_request(req, &mut cache, FileOpen::Contents(b"hello".to_vec()));
    assert_eq!(r.stream_id, 13);
    assert_eq!(r.body, b"hello".to_vec());
    let req = ServerRequest { stream_id: 15, headers: &headers, body: b"" };
    let r = handle_request(req, &mut cache, FileOpen::Missing);
    assert_eq!(r.stream_id, 15);
    assert_eq!(r.body, b"hello".to_vec());
    assert_eq!(cache.cached("./index.html").unwrap().stream_id, 0);
}

#[test]
fn mem_cache_answers_with_stream_id_zero() {
    let mut cache = MemCache::new();
    assert_eq!(cache.get("./a.txt", FileOpen::Contents(b"a".to_vec())).stream_id, 0);
    assert_eq!(cache.get("./a.txt", FileOpen::Missing).stream_id, 0);
    assert_eq!(cache.get("./b.txt", FileOpen::Missing).stream_id, 0);
    assert_eq!(cache.cached("./a.txt").unwrap().stream_id, 0);
}
