use zws::mcache::{
    file_name, file_response, get_ctype, is_dir_path, root_skip, stale, Cache, FileRead, FsEvent,
};
use zws::response::{Header, Response};

fn line(name: &str, value: &str) -> Header {
    (name.as_bytes().to_vec(), value.as_bytes().to_vec())
}

fn status_of(resp: &Response) -> String {
    let wire = resp.clone().into_wire();
    String::from_utf8(wire.headers[0].1.clone()).unwrap()
}

fn body_of(resp: &Response) -> Vec<u8> {
    resp.clone().into_wire().body
}

fn header_of(resp: &Response, name: &str) -> Option<String> {
    let wire = resp.clone().into_wire();
    wire.headers
        .iter()
        .find(|h| h.0 == name.as_bytes())
        .map(|h| String::from_utf8(h.1.clone()).unwrap())
}

#[test]
fn content_type_table() {
    assert_eq!(get_ctype("index.html"), "text/html; charset=utf-8");
    assert_eq!(get_ctype("index.htm"), "text/html; charset=utf-8");
    assert_eq!(get_ctype("site.css"), "text/css");
    assert_eq!(get_ctype("app.js"), "text/javascript");
    assert_eq!(get_ctype("logo.png"), "image/png");
    assert_eq!(get_ctype("photo.jpg"), "image/jpeg");
    assert_eq!(get_ctype("photo.jpeg"), "image/jpeg");
    assert_eq!(get_ctype("anim.gif"), "image/gif");
    assert_eq!(get_ctype("icon.svg"), "image/svg+xml");
    assert_eq!(get_ctype("pic.webp"), "image/webp");
    assert_eq!(get_ctype("notes.txt"), "text/plain; charset=utf-8");
    assert_eq!(get_ctype("data.json"), "application/json");
}

#[test]
fn content_type_of_other_names() {
    assert_eq!(get_ctype("setup.exe"), "binary/octet-stream");
    assert_eq!(get_ctype("favicon.ico"), "binary/octet-stream");
    assert_eq!(get_ctype("page.HTML"), "binary/octet-stream");
    assert_eq!(get_ctype("trailing."), "binary/octet-stream");
    assert_eq!(get_ctype("README"), "application/octet-stream");
    assert_eq!(get_ctype(""), "application/octet-stream");
    // The suffix runs from the last dot of the whole name.
    assert_eq!(get_ctype("a.b/c"), "binary/octet-stream");
    assert_eq!(get_ctype("webroot/a.tar.css"), "text/css");
    assert_eq!(get_ctype("é.html"), "text/html; charset=utf-8");
}

#[test]
fn file_names() {
    assert!(is_dir_path("/"));
    assert!(is_dir_path("/docs/"));
    assert!(!is_dir_path("/docs"));
    assert!(!is_dir_path(""));
    assert_eq!(file_name("webroot", "/"), "webroot/index.html");
    assert_eq!(file_name("webroot", "/docs/"), "webroot/docs/index.html");
    assert_eq!(file_name("webroot", "/docs"), "webroot/docs");
    assert_eq!(file_name("webroot", "/a.css"), "webroot/a.css");
    assert_eq!(file_name("webroot", ""), "webroot");
}

#[test]
fn directory_without_slash_is_redirected() {
    for path in ["/docs", "/a/b", "", "/é"] {
        let (resp, failed) = file_response("webroot", path, FileRead::Directory);
        assert!(failed);
        assert_eq!(status_of(&resp), "307");
        assert_eq!(header_of(&resp, "location"), Some(format!("{}/", path)));
        assert_eq!(body_of(&resp), b"Moved Temporarily\n".to_vec());
        assert_eq!(resp.into_wire().stream_id, 0);
    }
}

#[test]
fn directory_in_place_of_the_index_document_is_an_error() {
    let (resp, failed) = file_response("webroot", "/docs/", FileRead::Directory);
    assert!(failed);
    assert_eq!(status_of(&resp), "500");
    assert_eq!(header_of(&resp, "location"), None);
    assert_eq!(body_of(&resp), b"Unable to read file\n".to_vec());
}

#[test]
fn missing_file_is_not_found() {
    let (resp, failed) = file_response("webroot", "/nope.html", FileRead::Missing);
    assert!(failed);
    assert_eq!(
        resp.into_wire().headers,
        vec![line(":status", "404"), line("server", "zws")]
    );
    let (resp, _) = file_response("webroot", "/nope.html", FileRead::Missing);
    assert_eq!(body_of(&resp), b"Not Found\n".to_vec());
}

#[test]
fn unreadable_file_is_an_error() {
    let (resp, failed) = file_response("webroot", "/secret", FileRead::Failed);
    assert!(failed);
    assert_eq!(status_of(&resp), "500");
    assert_eq!(body_of(&resp), b"Unable to read file\n".to_vec());
}

#[test]
fn file_is_served_with_its_type() {
    let (resp, failed) =
        file_response("webroot", "/css/site.css", FileRead::Contents(b"body{}".to_vec()));
    assert!(!failed);
    let wire = resp.into_wire();
    assert_eq!(
        wire.headers,
        vec![line(":status", "200"), line("server", "zws"), line("content-type", "text/css")]
    );
    assert_eq!(wire.body, b"body{}".to_vec());
    assert_eq!(wire.stream_id, 0);
}

#[test]
fn index_document_is_served_as_html() {
    let (resp, failed) = file_response("webroot", "/", FileRead::Contents(b"hello".to_vec()));
    assert!(!failed);
    assert_eq!(header_of(&resp, "content-type"), Some("text/html; charset=utf-8".to_string()));
    assert_eq!(body_of(&resp), b"hello".to_vec());
}

#[test]
fn type_goes_by_the_whole_file_name() {
    let (resp, _) = file_response("./site", "/README", FileRead::Contents(Vec::new()));
    assert_eq!(header_of(&resp, "content-type"), Some("binary/octet-stream".to_string()));
    let (resp, _) = file_response("site", "/README", FileRead::Contents(Vec::new()));
    assert_eq!(header_of(&resp, "content-type"), Some("application/octet-stream".to_string()));
}

#[test]
fn same_inputs_give_the_same_response() {
    let (a, fa) = file_response("webroot", "/a.txt", FileRead::Contents(b"abc".to_vec()));
    let (b, fb) = file_response("webroot", "/a.txt", FileRead::Contents(b"abc".to_vec()));
    assert_eq!(fa, fb);
    let (a, b) = (a.into_wire(), b.into_wire());
    assert_eq!(a.headers, b.headers);
    assert_eq!(a.body, b.body);
}

#[test]
fn cache_first_lookup_misses_and_later_ones_hit() {
    let mut cache = Cache::new("webroot");
    assert_eq!(cache.webroot(), "webroot");
    let (first, hit) = cache.get("webroot/index.html");
    assert!(!hit);
    assert!(first.value.is_none());
    for _ in 0..5 {
        let (again, hit) = cache.get("webroot/index.html");
        assert!(hit);
        assert_eq!(again.ticket, first.ticket);
        assert!(again.value.is_none());
    }
}

#[test]
fn cache_any_number_of_lookups_ask_for_one_computation() {
    let mut cache = Cache::new("webroot");
    let keys = ["a", "b", "a", "c", "b", "a", "a", "c", "d", "a"];
    let mut misses = std::collections::HashMap::new();
    let mut tickets = std::collections::HashMap::new();
    for key in keys {
        let (entry, hit) = cache.get(key);
        if !hit {
            *misses.entry(key).or_insert(0) += 1;
        }
        let ticket = *tickets.entry(key).or_insert(entry.ticket);
        assert_eq!(ticket, entry.ticket);
    }
    for key in ["a", "b", "c", "d"] {
        assert_eq!(misses[key], 1, "{}", key);
    }
    let mut seen: Vec<u64> = tickets.values().cloned().collect();
    seen.sort();
    seen.dedup();
    assert_eq!(seen.len(), 4);
}

#[test]
fn cache_serves_what_was_published() {
    let mut cache = Cache::new("webroot");
    let (entry, _) = cache.get("webroot/a.txt");
    let (resp, failed) = file_response("webroot", "/a.txt", FileRead::Contents(b"abc".to_vec()));
    assert!(cache.publish("webroot/a.txt", entry.ticket, resp, failed));
    for _ in 0..3 {
        let (again, hit) = cache.get("webroot/a.txt");
        assert!(hit);
        assert_eq!(again.ticket, entry.ticket);
        let wire = again.value.unwrap().into_wire();
        assert_eq!(wire.body, b"abc".to_vec());
        assert_eq!(wire.headers[2], line("content-type", "text/plain; charset=utf-8"));
    }
}

#[test]
fn cache_does_not_keep_a_failure() {
    let mut cache = Cache::new("webroot");
    let (entry, hit) = cache.get("webroot/nope");
    assert!(!hit);
    let (resp, failed) = file_response("webroot", "/nope", FileRead::Missing);
    assert!(failed);
    assert!(cache.publish("webroot/nope", entry.ticket, resp, failed));
    let (next, hit) = cache.get("webroot/nope");
    assert!(!hit);
    assert_ne!(next.ticket, entry.ticket);
    // The file is there now.
    let (resp, failed) = file_response("webroot", "/nope", FileRead::Contents(b"x".to_vec()));
    assert!(cache.publish("webroot/nope", next.ticket, resp, failed));
    let (last, hit) = cache.get("webroot/nope");
    assert!(hit);
    assert_eq!(status_of(&last.value.unwrap()), "200");
}

#[test]
fn cache_ignores_a_computation_that_is_out_of_date() {
    let mut cache = Cache::new("webroot");
    let (old, _) = cache.get("k");
    cache.del("k");
    let (new, hit) = cache.get("k");
    assert!(!hit);
    assert_ne!(old.ticket, new.ticket);
    let (stale_resp, _) = file_response("webroot", "/k", FileRead::Contents(b"old".to_vec()));
    assert!(!cache.publish("k", old.ticket, stale_resp, false));
    let (pending, hit) = cache.get("k");
    assert!(hit);
    assert!(pending.value.is_none());
    let (fresh, _) = file_response("webroot", "/k", FileRead::Contents(b"new".to_vec()));
    assert!(cache.publish("k", new.ticket, fresh, false));
    let (done, _) = cache.get("k");
    assert_eq!(body_of(&done.value.unwrap()), b"new".to_vec());
    // A second report for the same ticket changes nothing.
    let (late, _) = file_response("webroot", "/k", FileRead::Contents(b"late".to_vec()));
    assert!(!cache.publish("k", new.ticket, late, false));
    let (done, _) = cache.get("k");
    assert_eq!(body_of(&done.value.unwrap()), b"new".to_vec());
    // A report for a key that has no entry changes nothing.
    let (other, _) = file_response("webroot", "/z", FileRead::Contents(b"z".to_vec()));
    assert!(!cache.publish("z", 0, other, false));
    assert!(!cache.get("z").1);
}

#[test]
fn cache_keeps_responses_under_stream_id_zero() {
    let mut cache = Cache::new("webroot");
    let (entry, _) = cache.get("k");
    cache.publish("k", entry.ticket, Response::new(9), false);
    assert_eq!(cache.get("k").0.value.unwrap().into_wire().stream_id, 0);
    cache.put("j", Some(Response::new(7)));
    assert_eq!(cache.get("j").0.value.unwrap().into_wire().stream_id, 0);
}

#[test]
fn cache_del_and_put() {
    let mut cache = Cache::new("webroot");
    let ticket = cache.put("a", Some(Response::new(0))).unwrap();
    let (entry, hit) = cache.get("a");
    assert!(hit);
    assert_eq!(entry.ticket, ticket);
    assert!(entry.value.is_some());
    let pending = cache.put("b", None).unwrap();
    assert_ne!(pending, ticket);
    let (entry, hit) = cache.get("b");
    assert!(hit);
    assert!(entry.value.is_none());
    cache.del("a");
    cache.del("missing");
    assert!(!cache.get("a").1);
    assert!(cache.get("b").1);
}

#[test]
fn lookups_of_other_keys_leave_an_entry_alone() {
    let mut cache = Cache::new("webroot");
    let (a, _) = cache.get("a");
    let (b, _) = cache.get("b");
    cache.publish("b", b.ticket, Response::new(0), false);
    cache.del("b");
    let (again, hit) = cache.get("a");
    assert!(hit);
    assert_eq!(again.ticket, a.ticket);
    assert!(again.value.is_none());
}

#[test]
fn watcher_names_become_keys() {
    assert_eq!(root_skip("webroot", "/srv/app/webroot"), Some(9));
    assert_eq!(root_skip("webroot", "webroot"), Some(0));
    assert_eq!(root_skip("a/long/root", "/r"), None);
    let write = FsEvent::Write("/srv/app/webroot/index.html".to_string());
    assert_eq!(stale(9, &write), Some("webroot/index.html".to_string()));
    let remove = FsEvent::Remove("/srv/app/webroot/a.css".to_string());
    assert_eq!(stale(9, &remove), Some("webroot/a.css".to_string()));
    let rename = FsEvent::Rename("/srv/app/webroot/b".to_string());
    assert_eq!(stale(9, &rename), Some("webroot/b".to_string()));
    assert_eq!(stale(9, &FsEvent::Other), None);
    assert_eq!(stale(9, &FsEvent::Write("/short".to_string())), None);
    assert_eq!(stale(6, &FsEvent::Write("/short".to_string())), Some("".to_string()));
    // The skip counts characters.
    assert_eq!(stale(3, &FsEvent::Write("/é/x".to_string())), Some("x".to_string()));
}

#[test]
fn a_change_evicts_the_entry_of_the_file() {
    let mut cache = Cache::new("webroot");
    let skip = root_skip("webroot", "/srv/webroot").unwrap();
    let (entry, _) = cache.get("webroot/index.html");
    cache.publish("webroot/index.html", entry.ticket, Response::new(0), false);
    let (other, _) = cache.get("webroot/a.css");
    cache.watch(skip, &FsEvent::Other);
    assert!(cache.get("webroot/index.html").1);
    cache.watch(skip, &FsEvent::Write("/srv/webroot/index.html".to_string()));
    assert!(!cache.get("webroot/index.html").1);
    let (again, hit) = cache.get("webroot/a.css");
    assert!(hit);
    assert_eq!(again.ticket, other.ticket);
}

#[test]
fn changed_index_document_is_served_anew() {
    // The web root holds index.html = "hello".
    let mut cache = Cache::new("webroot");
    let skip = root_skip("webroot", "/srv/webroot").unwrap();
    let name = file_name(cache.webroot(), "/");
    assert_eq!(name, "webroot/index.html");
    let (entry, hit) = cache.get(&name);
    assert!(!hit);
    let (resp, failed) = file_response("webroot", "/", FileRead::Contents(b"hello".to_vec()));
    cache.publish(&name, entry.ticket, resp, failed);
    let (entry, hit) = cache.get(&name);
    assert!(hit);
    let mut resp = entry.value.unwrap();
    resp.stream_id(1);
    let wire = resp.into_wire();
    assert_eq!(wire.stream_id, 1);
    assert_eq!(wire.headers[0], line(":status", "200"));
    assert_eq!(wire.headers[2], line("content-type", "text/html; charset=utf-8"));
    assert_eq!(wire.body, b"hello".to_vec());
    // index.html becomes "world", and the watcher reports it.
    cache.watch(skip, &FsEvent::Write("/srv/webroot/index.html".to_string()));
    let (entry, hit) = cache.get(&name);
    assert!(!hit);
    let (resp, failed) = file_response("webroot", "/", FileRead::Contents(b"world".to_vec()));
    cache.publish(&name, entry.ticket, resp, failed);
    let (entry, hit) = cache.get(&name);
    assert!(hit);
    let mut resp = entry.value.unwrap();
    resp.stream_id(3);
    let wire = resp.into_wire();
    assert_eq!(wire.stream_id, 3);
    assert_eq!(wire.headers[0], line(":status", "200"));
    assert_eq!(wire.body, b"world".to_vec());
}
