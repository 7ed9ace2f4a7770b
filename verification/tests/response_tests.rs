use zws::response::{Header, Response, WireResponse};

fn line(name: &str, value: &str) -> Header {
    (name.as_bytes().to_vec(), value.as_bytes().to_vec())
}

#[test]
fn new_response_is_ok_and_names_the_server() {
    let wire = Response::new(5).into_wire();
    assert_eq!(wire.stream_id, 5);
    assert_eq!(wire.headers, vec![line(":status", "200"), line("server", "zws")]);
    assert_eq!(wire.body, Vec::<u8>::new());
}

#[test]
fn add_header_sets_and_replaces() {
    let mut resp = Response::new(1);
    resp.add_header("content-type", "text/css");
    resp.add_header(":status", "404");
    resp.add_header("content-type", "text/plain");
    let wire = resp.into_wire();
    assert_eq!(
        wire.headers,
        vec![line(":status", "404"), line("server", "zws"), line("content-type", "text/plain")]
    );
}

#[test]
fn pseudo_headers_go_first() {
    let mut resp = Response::new(1);
    resp.add_header("a", "1");
    resp.add_header(":b", "2");
    resp.add_header("c", "3");
    resp.add_header(":d", "4");
    let wire = resp.into_wire();
    assert_eq!(
        wire.headers,
        vec![
            line(":status", "200"),
            line(":b", "2"),
            line(":d", "4"),
            line("server", "zws"),
            line("a", "1"),
            line("c", "3"),
        ]
    );
}

#[test]
fn empty_header_name_is_a_regular_header() {
    let mut resp = Response::new(1);
    resp.add_header("", "x");
    let wire = resp.into_wire();
    assert_eq!(wire.headers, vec![line(":status", "200"), line("server", "zws"), line("", "x")]);
}

#[test]
fn set_body_and_stream_id() {
    let mut resp = Response::new(0);
    resp.set_body(vec![1, 2, 3]);
    resp.stream_id(9);
    let wire = resp.into_wire();
    assert_eq!(wire.stream_id, 9);
    assert_eq!(wire.body, vec![1, 2, 3]);
    let mut resp = Response::new(0);
    resp.set_body_text("héllo\n");
    assert_eq!(resp.into_wire().body, "héllo\n".as_bytes().to_vec());
}

#[test]
fn clone_shares_nothing() {
    let mut resp = Response::new(0);
    resp.add_header("x", "1");
    resp.set_body_text("one");
    let mut copy = resp.clone();
    copy.add_header("x", "2");
    copy.set_body_text("two");
    copy.stream_id(4);
    let first = resp.into_wire();
    let second = copy.into_wire();
    assert_eq!(first.stream_id, 0);
    assert_eq!(first.body, b"one".to_vec());
    assert_eq!(first.headers[2], line("x", "1"));
    assert_eq!(second.stream_id, 4);
    assert_eq!(second.body, b"two".to_vec());
    assert_eq!(second.headers[2], line("x", "2"));
}

#[test]
fn wire_response_clone_is_equal() {
    let wire = WireResponse { stream_id: 3, headers: vec![line("a", "b")], body: vec![7, 8] };
    let copy = wire.clone();
    assert_eq!(copy.stream_id, 3);
    assert_eq!(copy.headers, vec![line("a", "b")]);
    assert_eq!(copy.body, vec![7, 8]);
}
