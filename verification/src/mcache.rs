//! Responses for files, and the cache that computes each of them once.

use crate::response::{fresh_response, Response, ResponseView};
use crate::seamap::SeaMap;
use crate::text::{find_last, last_index_of, lemma_last_index_of, same_text, slice_text};
use vstd::prelude::*;
use vstd::utf8::encode_utf8;

verus! {

/// The part of a file name from its last dot on.
pub open spec fn suffix_of(name: Seq<char>) -> Option<Seq<char>> {
    match last_index_of(name, '.') {
        Some(i) => Some(name.skip(i)),
        None => None,
    }
}

/// The MIME type of a file by the suffix of its name. A name without a dot is
/// `application/octet-stream`; a suffix that the table does not hold is
/// `binary/octet-stream`.
pub open spec fn content_type(name: Seq<char>) -> Seq<char> {
    match suffix_of(name) {
        None => "application/octet-stream"@,
        Some(s) => if s == ".html"@ || s == ".htm"@ {
            "text/html; charset=utf-8"@
        } else if s == ".css"@ {
            "text/css"@
        } else if s == ".js"@ {
            "text/javascript"@
        } else if s == ".png"@ {
            "image/png"@
        } else if s == ".jpg"@ || s == ".jpeg"@ {
            "image/jpeg"@
        } else if s == ".gif"@ {
            "image/gif"@
        } else if s == ".svg"@ {
            "image/svg+xml"@
        } else if s == ".webp"@ {
            "image/webp"@
        } else if s == ".txt"@ {
            "text/plain; charset=utf-8"@
        } else if s == ".json"@ {
            "application/json"@
        } else {
            "binary/octet-stream"@
        },
    }
}

/// The suffix of a name that ends in `ext` is `ext`, where `ext` begins with
/// a dot and holds no other.
pub proof fn lemma_suffix_of(stem: Seq<char>, ext: Seq<char>)
    requires
        ext.len() > 0,
        ext[0] == '.',
        forall|i: int| 0 < i < ext.len() ==> ext[i] != '.',
    ensures
        last_index_of(stem + ext, '.') == Some(stem.len() as int),
        suffix_of(stem + ext) == Some(ext),
    decreases ext.len(),
{
    let name = stem + ext;
    assert(name.last() == ext.last());
    if ext.len() > 1 {
        assert(name.drop_last() =~= stem + ext.drop_last());
        lemma_suffix_of(stem, ext.drop_last());
    }
    assert(name.skip(stem.len() as int) =~= ext);
}

/// The table of types. Whatever stands before the suffix, a name that ends
/// in one of the suffixes of the table has the type that the table gives for
/// it; a name with another suffix, such as `.exe`, is `binary/octet-stream`,
/// and a name without a dot is `application/octet-stream`.
pub proof fn lemma_content_types(stem: Seq<char>)
    ensures
        content_type(stem + ".html"@) == "text/html; charset=utf-8"@,
        content_type(stem + ".htm"@) == "text/html; charset=utf-8"@,
        content_type(stem + ".css"@) == "text/css"@,
        content_type(stem + ".js"@) == "text/javascript"@,
        content_type(stem + ".png"@) == "image/png"@,
        content_type(stem + ".jpg"@) == "image/jpeg"@,
        content_type(stem + ".jpeg"@) == "image/jpeg"@,
        content_type(stem + ".gif"@) == "image/gif"@,
        content_type(stem + ".svg"@) == "image/svg+xml"@,
        content_type(stem + ".webp"@) == "image/webp"@,
        content_type(stem + ".txt"@) == "text/plain; charset=utf-8"@,
        content_type(stem + ".json"@) == "application/json"@,
        content_type(stem + ".exe"@) == "binary/octet-stream"@,
        !stem.contains('.') ==> content_type(stem) == "application/octet-stream"@,
{
    reveal_strlit(".html");
    reveal_strlit(".htm");
    reveal_strlit(".css");
    reveal_strlit(".js");
    reveal_strlit(".png");
    reveal_strlit(".jpg");
    reveal_strlit(".jpeg");
    reveal_strlit(".gif");
    reveal_strlit(".svg");
    reveal_strlit(".webp");
    reveal_strlit(".txt");
    reveal_strlit(".json");
    reveal_strlit(".exe");
    lemma_suffix_of(stem, ".html"@);
    lemma_suffix_of(stem, ".htm"@);
    lemma_suffix_of(stem, ".css"@);
    lemma_suffix_of(stem, ".js"@);
    lemma_suffix_of(stem, ".png"@);
    lemma_suffix_of(stem, ".jpg"@);
    lemma_suffix_of(stem, ".jpeg"@);
    lemma_suffix_of(stem, ".gif"@);
    lemma_suffix_of(stem, ".svg"@);
    lemma_suffix_of(stem, ".webp"@);
    lemma_suffix_of(stem, ".txt"@);
    lemma_suffix_of(stem, ".json"@);
    lemma_suffix_of(stem, ".exe"@);
    lemma_last_index_of(stem, '.');
    assert(".htm"@[1] == 'h' && ".css"@[1] == 'c' && ".png"@[1] == 'p' && ".jpg"@[1] == 'j'
        && ".gif"@[1] == 'g' && ".svg"@[1] == 's' && ".txt"@[1] == 't' && ".exe"@[1] == 'e');
    assert(".html"@[1] == 'h' && ".jpeg"@[2] == 'p' && ".webp"@[1] == 'w' && ".json"@[2] == 's');
}

/// The MIME type of a file by the suffix of its name.
pub fn get_ctype(filename: &str) -> (r: &'static str)
    ensures
        r@ == content_type(filename@),
{
    match find_last(filename, '.') {
        None => "application/octet-stream",
        Some(dot) => {
            proof {
                lemma_last_index_of(filename@, '.');
            }
            let n = filename.unicode_len();
            let suffix = filename.substring_char(dot, n);
            if same_text(suffix, ".html") || same_text(suffix, ".htm") {
                "text/html; charset=utf-8"
            } else if same_text(suffix, ".css") {
                "text/css"
            } else if same_text(suffix, ".js") {
                "text/javascript"
            } else if same_text(suffix, ".png") {
                "image/png"
            } else if same_text(suffix, ".jpg") || same_text(suffix, ".jpeg") {
                "image/jpeg"
            } else if same_text(suffix, ".gif") {
                "image/gif"
            } else if same_text(suffix, ".svg") {
                "image/svg+xml"
            } else if same_text(suffix, ".webp") {
                "image/webp"
            } else if same_text(suffix, ".txt") {
                "text/plain; charset=utf-8"
            } else if same_text(suffix, ".json") {
                "application/json"
            } else {
                "binary/octet-stream"
            }
        },
    }
}

/// What came of reading the file that a request asks for.
pub enum FileRead {
    /// There is no such file.
    Missing,
    /// The file could not be read.
    Failed,
    /// The name is that of a directory.
    Directory,
    /// The file's bytes.
    Contents(Vec<u8>),
}

/// Whether a request path names a directory by its form: it does where it ends in a slash.
pub open spec fn ends_in_slash(path: Seq<char>) -> bool {
    path.len() > 0 && path.last() == '/'
}

/// The name of the file that serves `path` under `webroot`: the path behind
/// the root, and behind that the index document where the path ends in a slash.
pub open spec fn file_name_of(webroot: Seq<char>, path: Seq<char>) -> Seq<char> {
    if ends_in_slash(path) {
        webroot + path + "index.html"@
    } else {
        webroot + path
    }
}

/// The response to a request for `path` under `webroot`, given what reading
/// its file gave, and whether the response reports a failure (such a
/// response is not kept).
///
/// A directory asked for without a final slash is redirected to the path
/// with the slash; a missing file is 404; a file that cannot be read is 500,
/// as is a directory where a file was meant to be; a file that was read is 200
/// with its bytes and the type that its name gives.
pub open spec fn file_response_of(webroot: Seq<char>, path: Seq<char>, read: FileRead) -> (
    ResponseView,
    bool,
) {
    let fresh = fresh_response(0);
    match read {
        FileRead::Directory => if ends_in_slash(path) {
            (
                fresh.with_header(":status"@, "500"@).with_body(
                    encode_utf8("Unable to read file\n"@),
                ),
                true,
            )
        } else {
            (
                fresh.with_header(":status"@, "307"@).with_header(
                    "location"@,
                    path + seq!['/'],
                ).with_body(encode_utf8("Moved Temporarily\n"@)),
                true,
            )
        },
        FileRead::Missing => (
            fresh.with_header(":status"@, "404"@).with_body(encode_utf8("Not Found\n"@)),
            true,
        ),
        FileRead::Failed => (
            fresh.with_header(":status"@, "500"@).with_body(
                encode_utf8("Unable to read file\n"@),
            ),
            true,
        ),
        FileRead::Contents(bytes) => (
            fresh.with_header(":status"@, "200"@).with_header(
                "content-type"@,
                content_type(file_name_of(webroot, path)),
            ).with_body(bytes@),
            false,
        ),
    }
}

/// A directory that is asked for without a final slash is redirected to the
/// same path with the slash: the status is 307 and `location` is the path
/// and a slash. The response is not kept.
pub proof fn lemma_directory_is_redirected(webroot: Seq<char>, path: Seq<char>)
    requires
        !ends_in_slash(path),
    ensures
        file_response_of(webroot, path, FileRead::Directory).0.header(":status"@) == Some(
            "307"@,
        ),
        file_response_of(webroot, path, FileRead::Directory).0.header("location"@) == Some(
            path + seq!['/'],
        ),
        file_response_of(webroot, path, FileRead::Directory).1,
{
    reveal_strlit(":status");
    reveal_strlit("location");
}

/// A file that is not there is answered with status 404 and the body
/// `Not Found`, and the answer is not kept.
pub proof fn lemma_missing_is_not_found(webroot: Seq<char>, path: Seq<char>)
    ensures
        file_response_of(webroot, path, FileRead::Missing).0.header(":status"@) == Some("404"@),
        file_response_of(webroot, path, FileRead::Missing).0.body == encode_utf8(
            "Not Found\n"@,
        ),
        file_response_of(webroot, path, FileRead::Missing).1,
{
    reveal_strlit(":status");
}

/// A file that was read is answered with status 200, its bytes, and the type
/// of its name, and the answer is kept.
pub proof fn lemma_file_is_served(webroot: Seq<char>, path: Seq<char>, bytes: Vec<u8>)
    ensures
        file_response_of(webroot, path, FileRead::Contents(bytes)).0.header(":status"@) == Some(
            "200"@,
        ),
        file_response_of(webroot, path, FileRead::Contents(bytes)).0.header("content-type"@)
            == Some(content_type(file_name_of(webroot, path))),
        file_response_of(webroot, path, FileRead::Contents(bytes)).0.body == bytes@,
        !file_response_of(webroot, path, FileRead::Contents(bytes)).1,
{
    reveal_strlit(":status");
    reveal_strlit("content-type");
}

/// Whether `path` ends in a slash.
pub fn is_dir_path(path: &str) -> (r: bool)
    ensures
        r == ends_in_slash(path@),
{
    let n = path.unicode_len();
    n > 0 && path.get_char(n - 1) == '/'
}

/// The name of the file that serves `path` under `webroot`.
pub fn file_name(webroot: &str, path: &str) -> (r: String)
    ensures
        r@ == file_name_of(webroot@, path@),
{
    let mut name = webroot.to_owned();
    name.append(path);
    if is_dir_path(path) {
        name.append("index.html");
    }
    name
}

/// The response to a request for `path` under `webroot`, given what reading
/// the file `file_name(webroot, path)` gave. The flag says whether the
/// response reports a failure.
pub fn file_response(webroot: &str, path: &str, read: FileRead) -> (r: (Response, bool))
    ensures
        (r.0@, r.1) == file_response_of(webroot@, path@, read),
{
    let mut resp = Response::new(0);
    match read {
        FileRead::Directory => {
            if is_dir_path(path) {
                resp.add_header(":status", "500");
                resp.set_body_text("Unable to read file\n");
            } else {
                let mut location = path.to_owned();
                proof {
                    reveal_strlit("/");
                    assert("/"@ =~= seq!['/']);
                }
                location.append("/");
                resp.add_header(":status", "307");
                resp.add_header("location", location.as_str());
                resp.set_body_text("Moved Temporarily\n");
            }
            (resp, true)
        },
        FileRead::Missing => {
            resp.add_header(":status", "404");
            resp.set_body_text("Not Found\n");
            (resp, true)
        },
        FileRead::Failed => {
            resp.add_header(":status", "500");
            resp.set_body_text("Unable to read file\n");
            (resp, true)
        },
        FileRead::Contents(bytes) => {
            let name = file_name(webroot, path);
            resp.add_header(":status", "200");
            resp.add_header("content-type", get_ctype(name.as_str()));
            resp.set_body(bytes);
            (resp, false)
        },
    }
}

/// What a cache entry holds: the ticket under which it was made, and its
/// response once that has been computed.
pub struct EntryView {
    pub ticket: u64,
    pub value: Option<ResponseView>,
}

/// What a `Cache` holds: the root it serves, its entries by file name, and
/// the ticket that the next new entry gets.
pub struct CacheView {
    pub webroot: Seq<char>,
    pub entries: Map<Seq<char>, EntryView>,
    pub next: u64,
}

/// The response as the cache keeps it: with the stream id 0 in place of the
/// stream that will ask for it.
pub open spec fn unbound(value: Option<ResponseView>) -> Option<ResponseView> {
    match value {
        Some(response) => Some(response.with_stream_id(0)),
        None => None,
    }
}

impl CacheView {
    /// Every entry was made under a ticket that has been given out, and every
    /// response that is kept carries the stream id 0.
    pub open spec fn wf(self) -> bool {
        forall|key: Seq<char>| #[trigger]
            self.entries.contains_key(key) ==> self.entries[key].ticket < self.next && (
            self.entries[key].value matches Some(response) ==> response.stream_id == 0)
    }

    /// Whether the cache can still make a new entry.
    pub open spec fn has_tickets(self) -> bool {
        self.next < u64::MAX
    }

    /// A lookup: the cache after it, the entry handed out, and whether it was
    /// a hit. A miss makes a pending entry under a new ticket, and whoever
    /// gets the miss owes the computation. Once the tickets have run out a
    /// miss makes no entry.
    pub open spec fn get(self, key: Seq<char>) -> (CacheView, EntryView, bool) {
        if self.entries.contains_key(key) {
            (self, self.entries[key], true)
        } else {
            let entry = EntryView { ticket: self.next, value: None };
            if self.has_tickets() {
                (
                    CacheView {
                        entries: self.entries.insert(key, entry),
                        next: (self.next + 1) as u64,
                        ..self
                    },
                    entry,
                    false,
                )
            } else {
                (self, entry, false)
            }
        }
    }

    /// Whether the entry under `key` is the pending one made under `ticket`.
    pub open spec fn awaits(self, key: Seq<char>, ticket: u64) -> bool {
        &&& self.entries.contains_key(key)
        &&& self.entries[key].ticket == ticket
        &&& self.entries[key].value is None
    }

    /// The end of a computation. Where the entry under `key` still awaits
    /// `ticket`, a response that reports no failure becomes its value, with
    /// the stream id 0, and one that reports a failure takes the entry away.
    /// Any other entry stays as it is.
    pub open spec fn publish(
        self,
        key: Seq<char>,
        ticket: u64,
        response: ResponseView,
        failed: bool,
    ) -> CacheView {
        if !self.awaits(key, ticket) {
            self
        } else if failed {
            CacheView { entries: self.entries.remove(key), ..self }
        } else {
            CacheView {
                entries: self.entries.insert(
                    key,
                    EntryView { ticket, value: Some(response.with_stream_id(0)) },
                ),
                ..self
            }
        }
    }

    /// The cache without the entry under `key`.
    pub open spec fn del(self, key: Seq<char>) -> CacheView {
        CacheView { entries: self.entries.remove(key), ..self }
    }

    /// The cache with `value` under `key`, made under a new ticket and with
    /// the stream id 0. Once the tickets have run out nothing is stored.
    pub open spec fn put(self, key: Seq<char>, value: Option<ResponseView>) -> CacheView {
        if self.has_tickets() {
            CacheView {
                entries: self.entries.insert(
                    key,
                    EntryView { ticket: self.next, value: unbound(value) },
                ),
                next: (self.next + 1) as u64,
                ..self
            }
        } else {
            self
        }
    }
}

/// The cache after the lookups of `keys`, one after the other.
pub open spec fn after_lookups(c: CacheView, keys: Seq<Seq<char>>) -> CacheView
    decreases keys.len(),
{
    if keys.len() == 0 {
        c
    } else {
        after_lookups(c, keys.drop_last()).get(keys.last()).0
    }
}

/// The entry that lookup number `i` of `keys` is handed.
pub open spec fn handed(c: CacheView, keys: Seq<Seq<char>>, i: int) -> EntryView {
    after_lookups(c, keys.take(i)).get(keys[i]).1
}

/// Whether lookup number `i` of `keys` is a hit.
pub open spec fn is_hit(c: CacheView, keys: Seq<Seq<char>>, i: int) -> bool {
    after_lookups(c, keys.take(i)).get(keys[i]).2
}

/// The number of misses on `key` among the lookups of `keys`.
pub open spec fn misses(c: CacheView, keys: Seq<Seq<char>>, key: Seq<char>) -> nat
    decreases keys.len(),
{
    if keys.len() == 0 {
        0
    } else {
        let n = misses(c, keys.drop_last(), key);
        if keys.last() == key && !after_lookups(c, keys.drop_last()).get(key).2 {
            n + 1
        } else {
            n
        }
    }
}

/// Lookups keep what the cache holds, add an entry for each key looked up,
/// and use at most one ticket each.
pub proof fn lemma_after_lookups(c: CacheView, keys: Seq<Seq<char>>)
    requires
        c.wf(),
        c.next + keys.len() <= u64::MAX,
    ensures
        after_lookups(c, keys).wf(),
        after_lookups(c, keys).webroot == c.webroot,
        c.next <= after_lookups(c, keys).next <= c.next + keys.len(),
        forall|k: Seq<char>| #[trigger]
            after_lookups(c, keys).entries.contains_key(k) <==> c.entries.contains_key(k)
                || keys.contains(k),
        forall|k: Seq<char>| #[trigger]
            c.entries.contains_key(k) ==> after_lookups(c, keys).entries[k] == c.entries[k],
    decreases keys.len(),
{
    if keys.len() > 0 {
        let front = keys.drop_last();
        lemma_after_lookups(c, front);
        let d = after_lookups(c, front);
        let e = after_lookups(c, keys);
        assert(keys[keys.len() - 1] == keys.last());
        assert forall|k: Seq<char>| #[trigger]
            e.entries.contains_key(k) <==> c.entries.contains_key(k) || keys.contains(k) by {
            if front.contains(k) {
                let i = choose|i: int| 0 <= i < front.len() && front[i] == k;
                assert(keys[i] == k);
            }
            if keys.contains(k) && k != keys.last() {
                let i = choose|i: int| 0 <= i < keys.len() && keys[i] == k;
                assert(front[i] == k);
            }
        }
    }
}

/// What the cache holds after some of the lookups, it holds after all of them.
pub proof fn lemma_lookups_keep(c: CacheView, keys: Seq<Seq<char>>, n: int, k: Seq<char>)
    requires
        c.wf(),
        c.next + keys.len() <= u64::MAX,
        0 <= n <= keys.len(),
        after_lookups(c, keys.take(n)).entries.contains_key(k),
    ensures
        after_lookups(c, keys).entries.contains_key(k),
        after_lookups(c, keys).entries[k] == after_lookups(c, keys.take(n)).entries[k],
    decreases keys.len() - n,
{
    if n < keys.len() {
        assert(keys.take(n + 1).drop_last() == keys.take(n));
        lemma_lookups_keep(c, keys, n + 1, k);
    } else {
        assert(keys.take(n) == keys);
    }
}

/// Single flight. Among any lookups, one after the other, a key that the
/// cache did not hold is missed once, by the first lookup of it, and a key
/// that the cache held is never missed; so one computation is asked for and
/// no more. Every lookup of the key is handed the ticket of the one entry that
/// the cache holds for it afterwards.
pub proof fn lemma_single_flight(c: CacheView, keys: Seq<Seq<char>>, key: Seq<char>)
    requires
        c.wf(),
        c.next + keys.len() <= u64::MAX,
    ensures
        misses(c, keys, key) == if !c.entries.contains_key(key) && keys.contains(key) {
            1nat
        } else {
            0nat
        },
        forall|i: int|
            0 <= i < keys.len() && keys[i] == key ==> (#[trigger] handed(c, keys, i)).ticket
                == after_lookups(c, keys).entries[key].ticket,
    decreases keys.len(),
{
    if keys.len() > 0 {
        let front = keys.drop_last();
        let last = keys.len() - 1;
        lemma_single_flight(c, front, key);
        lemma_after_lookups(c, front);
        lemma_after_lookups(c, keys);
        let d = after_lookups(c, front);
        assert(keys[last] == keys.last());
        if front.contains(key) {
            let i = choose|i: int| 0 <= i < front.len() && front[i] == key;
            assert(keys[i] == key);
        }
        if keys.contains(key) && keys.last() != key {
            let i = choose|i: int| 0 <= i < keys.len() && keys[i] == key;
            assert(front[i] == key);
        }
        assert forall|i: int| 0 <= i < keys.len() && keys[i] == key implies (#[trigger] handed(
            c,
            keys,
            i,
        )).ticket == after_lookups(c, keys).entries[key].ticket by {
            assert(keys.take(i + 1).drop_last() == keys.take(i));
            let at = after_lookups(c, keys.take(i));
            let next = after_lookups(c, keys.take(i + 1));
            lemma_after_lookups(c, keys.take(i));
            assert(next == at.get(key).0);
            assert(next.entries.contains_key(key));
            assert(handed(c, keys, i).ticket == next.entries[key].ticket);
            lemma_lookups_keep(c, keys, i + 1, key);
        }
    }
}

/// A response that was published is served. Once the computation for an entry
/// has published a response that reports no failure, every lookup of the key
/// is a hit and is handed that response, under the stream id 0, whatever
/// other keys are looked up in between.
pub proof fn lemma_published_is_served(
    c: CacheView,
    key: Seq<char>,
    ticket: u64,
    response: ResponseView,
    keys: Seq<Seq<char>>,
)
    requires
        c.wf(),
        c.awaits(key, ticket),
        c.next + keys.len() <= u64::MAX,
    ensures
        forall|i: int|
            0 <= i < keys.len() && keys[i] == key ==> #[trigger] is_hit(
                c.publish(key, ticket, response, false),
                keys,
                i,
            ) && handed(c.publish(key, ticket, response, false), keys, i) == (EntryView {
                ticket,
                value: Some(response.with_stream_id(0)),
            }),
{
    let d = c.publish(key, ticket, response, false);
    assert(d.wf());
    assert forall|i: int| 0 <= i < keys.len() && keys[i] == key implies #[trigger] is_hit(
        d,
        keys,
        i,
    ) && handed(d, keys, i) == (EntryView { ticket, value: Some(response.with_stream_id(0)) }) by {
        lemma_after_lookups(d, keys.take(i));
    }
}

/// A failure is not kept. Where the computation for an entry reports a
/// failure, the entry is gone, and the next lookup of the key is a miss that
/// asks for the computation again. The same holds after `del`.
pub proof fn lemma_failure_is_not_kept(
    c: CacheView,
    key: Seq<char>,
    ticket: u64,
    response: ResponseView,
)
    requires
        c.awaits(key, ticket),
    ensures
        !c.publish(key, ticket, response, true).entries.contains_key(key),
        !c.publish(key, ticket, response, true).get(key).2,
        !c.del(key).entries.contains_key(key),
        !c.del(key).get(key).2,
{
}

/// Looking a key up twice gives the same entry. The second lookup is a hit,
/// leaves the cache as the first left it, and is handed what the cache holds
/// for the key, under the ticket that the first was handed.
pub proof fn lemma_lookup_twice(c: CacheView, key: Seq<char>)
    requires
        c.wf(),
        c.has_tickets(),
    ensures
        ({
            let (d, first, _) = c.get(key);
            let (e, second, hit) = d.get(key);
            hit && e == d && second == first
        }),
{
}

/// Entries under other keys are not touched: a lookup, the end of a
/// computation, or an eviction changes at most the entry of its own key.
pub proof fn lemma_other_keys_untouched(
    c: CacheView,
    key: Seq<char>,
    other: Seq<char>,
    ticket: u64,
    response: ResponseView,
    failed: bool,
)
    requires
        key != other,
    ensures
        c.get(key).0.entries.contains_key(other) == c.entries.contains_key(other),
        c.get(key).0.entries[other] == c.entries[other],
        c.publish(key, ticket, response, failed).entries.contains_key(other)
            == c.entries.contains_key(other),
        c.publish(key, ticket, response, failed).entries[other] == c.entries[other],
        c.del(key).entries.contains_key(other) == c.entries.contains_key(other),
        c.del(key).entries[other] == c.entries[other],
{
}

/// A change under the served root, as the file watcher reports it. Each kind
/// but `Other` carries the full name of the file that changed.
pub enum FsEvent {
    /// The file was written.
    Write(String),
    /// The file was removed.
    Remove(String),
    /// The file was renamed; the name is the old one.
    Rename(String),
    /// Anything else.
    Other,
}

/// The number of characters by which the full name of a file is longer than
/// the name under which the server reads it: the length of the full name of
/// the root less that of the root as the server was given it. There is none
/// where the full name is the shorter one.
pub open spec fn root_skip_of(webroot: Seq<char>, full: Seq<char>) -> Option<nat> {
    if webroot.len() <= full.len() {
        Some((full.len() - webroot.len()) as nat)
    } else {
        None
    }
}

/// The key of the entry that a change makes stale: the name of the changed
/// file without its first `skip` characters. A change of another kind, or of
/// a file with a shorter name, makes nothing stale.
pub open spec fn stale_key(skip: nat, event: FsEvent) -> Option<Seq<char>> {
    match event {
        FsEvent::Write(name) | FsEvent::Remove(name) | FsEvent::Rename(name) => if skip
            <= name@.len() {
            Some(name@.skip(skip as int))
        } else {
            None
        },
        FsEvent::Other => None,
    }
}

/// The number of characters to drop from the full names that the watcher reports.
pub fn root_skip(webroot: &str, full: &str) -> (r: Option<usize>)
    ensures
        match r {
            Some(n) => root_skip_of(webroot@, full@) == Some(n as nat),
            None => root_skip_of(webroot@, full@) is None,
        },
{
    let short = webroot.unicode_len();
    let long = full.unicode_len();
    if short <= long {
        Some(long - short)
    } else {
        None
    }
}

/// The key of the entry that a change makes stale.
pub fn stale(skip: usize, event: &FsEvent) -> (r: Option<String>)
    ensures
        match r {
            Some(key) => stale_key(skip as nat, *event) == Some(key@),
            None => stale_key(skip as nat, *event) is None,
        },
{
    match event {
        FsEvent::Write(name) | FsEvent::Remove(name) | FsEvent::Rename(name) => {
            let n = name.as_str().unicode_len();
            if skip <= n {
                Some(slice_text(name.as_str(), skip, n))
            } else {
                None
            }
        },
        FsEvent::Other => None,
    }
}

/// A cache entry as it is handed out: the ticket to wait on, and the
/// response where it is there already.
pub struct Entry {
    pub ticket: u64,
    pub value: Option<Response>,
}

impl View for Entry {
    type V = EntryView;

    open spec fn view(&self) -> EntryView {
        EntryView {
            ticket: self.ticket,
            value: match self.value {
                Some(r) => Some(r@),
                None => None,
            },
        }
    }
}

impl Clone for Entry {
    fn clone(&self) -> (r: Self)
        ensures
            r@ == self@,
    {
        Entry {
            ticket: self.ticket,
            value: match &self.value {
                Some(r) => Some(r.clone()),
                None => None,
            },
        }
    }
}

/// What the entries of a map hold.
pub open spec fn entry_views(m: Map<Seq<char>, Entry>) -> Map<Seq<char>, EntryView> {
    m.map_values(|e: Entry| e@)
}

/// The cache of file responses. Each file name has at most one entry, so at
/// most one computation is under way for it at any time.
///
/// A cache from `new` is well formed (`wf` of its view), and every method
/// keeps it so.
pub struct Cache {
    webroot: String,
    store: SeaMap<Entry>,
    next: u64,
}

impl View for Cache {
    type V = CacheView;

    closed spec fn view(&self) -> CacheView {
        CacheView { webroot: self.webroot@, entries: entry_views(self.store@), next: self.next }
    }
}

impl Cache {
    /// An empty cache for the files under `webroot`.
    pub fn new(webroot: &str) -> (c: Cache)
        ensures
            c@ == (CacheView { webroot: webroot@, entries: Map::empty(), next: 0 }),
            c@.wf(),
    {
        let c = Cache { webroot: webroot.to_owned(), store: SeaMap::new(), next: 0 };
        assert(c@.entries =~= Map::empty());
        c
    }

    /// The root whose files the cache serves.
    pub fn webroot(&self) -> (r: &str)
        ensures
            r@ == self@.webroot,
    {
        self.webroot.as_str()
    }

    /// Looks `key` up. On a hit the entry is handed out as it stands. On a
    /// miss a pending entry is made, and the caller owes the computation of
    /// its response, which it reports with `publish`.
    pub fn get(&mut self, key: &str) -> (r: (Entry, bool))
        ensures
            (final(self)@, r.0@, r.1) == old(self)@.get(key@),
            old(self)@.wf() ==> final(self)@.wf(),
            old(self)@.wf() ==> (r.0@.value matches Some(response) ==> response.stream_id == 0),
    {
        match self.store.get(key) {
            Some(entry) => {
                return (entry.clone(), true);
            },
            None => {},
        }
        let ticket = self.next;
        if ticket < u64::MAX {
            let ghost before = self.store@;
            let entry = Entry { ticket, value: None };
            self.next = ticket + 1;
            self.store.insert(key.to_owned(), entry);
            assert(entry_views(self.store@) =~= entry_views(before).insert(key@, entry@));
        }
        (Entry { ticket, value: None }, false)
    }

    /// Reports the end of the computation that the miss under `ticket` asked
    /// for. Says whether the entry under `key` still awaited it.
    pub fn publish(&mut self, key: &str, ticket: u64, response: Response, failed: bool) -> (r:
        bool)
        ensures
            final(self)@ == old(self)@.publish(key@, ticket, response@, failed),
            r == old(self)@.awaits(key@, ticket),
            old(self)@.wf() ==> final(self)@.wf(),
    {
        let awaited = match self.store.get(key) {
            Some(entry) => entry.ticket == ticket && entry.value.is_none(),
            None => false,
        };
        if awaited {
            let ghost before = self.store@;
            if failed {
                self.store.remove(key);
                assert(entry_views(self.store@) =~= entry_views(before).remove(key@));
            } else {
                let mut response = response;
                response.stream_id(0);
                let entry = Entry { ticket, value: Some(response) };
                self.store.insert(key.to_owned(), entry);
                assert(entry_views(self.store@) =~= entry_views(before).insert(key@, entry@));
            }
        }
        awaited
    }

    /// Takes the entry under `key` out of the cache.
    pub fn del(&mut self, key: &str)
        ensures
            final(self)@ == old(self)@.del(key@),
            old(self)@.wf() ==> final(self)@.wf(),
    {
        let ghost before = self.store@;
        self.store.remove(key);
        assert(entry_views(self.store@) =~= entry_views(before).remove(key@));
    }

    /// Takes note of a change under the served root: the entry that the
    /// change makes stale is taken out, so that the next lookup computes it
    /// anew.
    pub fn watch(&mut self, skip: usize, event: &FsEvent)
        ensures
            final(self)@ == match stale_key(skip as nat, *event) {
                Some(key) => old(self)@.del(key),
                None => old(self)@,
            },
            old(self)@.wf() ==> final(self)@.wf(),
    {
        match stale(skip, event) {
            Some(key) => {
                self.del(key.as_str());
            },
            None => {},
        }
    }

    /// Stores `value` under `key` as a new entry, pending where `value` is
    /// `None`. Hands back the entry's ticket, or `None` where the tickets
    /// have run out and nothing was stored.
    pub fn put(&mut self, key: &str, value: Option<Response>) -> (r: Option<u64>)
        ensures
            final(self)@ == old(self)@.put(
                key@,
                match value {
                    Some(v) => Some(v@),
                    None => None,
                },
            ),
            r == if old(self)@.has_tickets() {
                Some(old(self)@.next)
            } else {
                None
            },
            old(self)@.wf() ==> final(self)@.wf(),
    {
        let ticket = self.next;
        if ticket < u64::MAX {
            let ghost before = self.store@;
            let value = match value {
                Some(response) => {
                    let mut response = response;
                    response.stream_id(0);
                    Some(response)
                },
                None => None,
            };
            let entry = Entry { ticket, value };
            self.next = ticket + 1;
            self.store.insert(key.to_owned(), entry);
            assert(entry_views(self.store@) =~= entry_views(before).insert(key@, entry@));
            Some(ticket)
        } else {
            None
        }
    }
}

} // verus!
