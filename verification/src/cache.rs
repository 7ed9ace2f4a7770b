//! A plain cache of file responses, and the file server that answers every
//! request from it.

use crate::mcache::{content_type, ends_in_slash, get_ctype, is_dir_path};
use crate::response::{lines_of, Header, WireResponse, WireView};
use crate::seamap::SeaMap;
use crate::text::{same_bytes, utf8_text};
use vstd::prelude::*;
use vstd::utf8::{decode_utf8, encode_utf8, encode_utf8_decode_utf8, valid_utf8};

verus! {

/// What came of opening and reading a file.
pub enum FileOpen {
    /// There is no such file.
    Missing,
    /// The file could not be opened.
    Unopened,
    /// The file's size could not be had.
    NoMetadata,
    /// The file could not be read to its end.
    Unread,
    /// The file's bytes.
    Contents(Vec<u8>),
}

/// A response with a status and a body, and with a content type where one is given.
pub open spec fn plain_response(
    status: Seq<char>,
    ctype: Option<Seq<char>>,
    body: Seq<u8>,
) -> WireView {
    WireView {
        stream_id: 0,
        headers: match ctype {
            Some(t) => seq![
                (encode_utf8(":status"@), encode_utf8(status)),
                (encode_utf8("content-type"@), encode_utf8(t)),
            ],
            None => seq![(encode_utf8(":status"@), encode_utf8(status))],
        },
        body,
    }
}

/// The response for the file `filename`, given what opening and reading it gave.
pub open spec fn open_response_of(filename: Seq<char>, opened: FileOpen) -> WireView {
    match opened {
        FileOpen::Missing => plain_response("404"@, None, encode_utf8("Not Found\n"@)),
        FileOpen::Unopened => plain_response("500"@, None, encode_utf8("Unable to get file\n"@)),
        FileOpen::NoMetadata => plain_response(
            "500"@,
            None,
            encode_utf8("Unable to get file metadata\n"@),
        ),
        FileOpen::Unread => plain_response("500"@, None, encode_utf8("Unable to read file\n"@)),
        FileOpen::Contents(bytes) => plain_response(
            "200"@,
            Some(content_type(filename)),
            bytes@,
        ),
    }
}

/// What the responses of a map hold.
pub open spec fn wire_views(m: Map<Seq<char>, WireResponse>) -> Map<Seq<char>, WireView> {
    m.map_values(|r: WireResponse| r@)
}

/// The cache after a request for `filename` and the response to it, given
/// what opening and reading the file gave. A response that is kept is given
/// again; of the others only the one with the file's bytes is kept.
pub open spec fn get_of(kept: Map<Seq<char>, WireView>, filename: Seq<char>, opened: FileOpen) -> (
    Map<Seq<char>, WireView>,
    WireView,
) {
    if kept.contains_key(filename) {
        (kept, kept[filename])
    } else {
        let response = open_response_of(filename, opened);
        if opened is Contents {
            (kept.insert(filename, response), response)
        } else {
            (kept, response)
        }
    }
}

/// A response with a status and a body.
fn plain(status: &str, ctype: Option<&str>, body: Vec<u8>) -> (r: WireResponse)
    ensures
        r@ == plain_response(
            status@,
            match ctype {
                Some(t) => Some(t@),
                None => None,
            },
            body@,
        ),
{
    let mut headers: Vec<Header> = Vec::new();
    headers.push((":status".as_bytes_vec(), status.as_bytes_vec()));
    match ctype {
        Some(t) => {
            headers.push(("content-type".as_bytes_vec(), t.as_bytes_vec()));
        },
        None => {},
    }
    let r = WireResponse { stream_id: 0, headers, body };
    assert(r@.headers =~= plain_response(
        status@,
        match ctype {
            Some(t) => Some(t@),
            None => None,
        },
        body@,
    ).headers);
    r
}

/// A store that holds nothing, to stand in while the store of a cache is changed.
fn empty_store() -> (store: SeaMap<WireResponse>)
    ensures
        wire_views(store@) == Map::<Seq<char>, WireView>::empty(),
{
    let store: SeaMap<WireResponse> = SeaMap::with_buckets(1);
    assert(wire_views(store@) =~= Map::<Seq<char>, WireView>::empty());
    store
}

/// A cache of the responses for files, by file name. Every response in it
/// carries the stream id 0, in place of the stream that will ask for it.
pub struct MemCache {
    store: SeaMap<WireResponse>,
}

impl View for MemCache {
    type V = Map<Seq<char>, WireView>;

    closed spec fn view(&self) -> Map<Seq<char>, WireView> {
        wire_views(self.store@)
    }
}

/// Whether every response of a map carries the stream id 0.
pub open spec fn all_unbound(kept: Map<Seq<char>, WireView>) -> bool {
    forall|name: Seq<char>| #[trigger] kept.contains_key(name) ==> kept[name].stream_id == 0
}

impl MemCache {
    #[verifier::type_invariant]
    spec fn inv(&self) -> bool {
        all_unbound(wire_views(self.store@))
    }

    /// An empty cache.
    pub fn new() -> (c: MemCache)
        ensures
            c@ == Map::<Seq<char>, WireView>::empty(),
    {
        let store: SeaMap<WireResponse> = SeaMap::new();
        assert(wire_views(store@) =~= Map::<Seq<char>, WireView>::empty());
        MemCache { store }
    }

    /// The response that is kept for `filename`. It carries the stream id 0.
    pub fn cached(&self, filename: &str) -> (r: Option<WireResponse>)
        ensures
            match r {
                Some(response) => self@.contains_key(filename@) && response@ == self@[filename@]
                    && response@.stream_id == 0,
                None => !self@.contains_key(filename@),
            },
            all_unbound(self@),
    {
        proof {
            use_type_invariant(self);
        }
        match self.store.get(filename) {
            Some(response) => Some(response.clone()),
            None => None,
        }
    }

    /// The response for `filename`: the one that is kept or, where none is,
    /// the one that `opened` gives, which is kept from then on where it
    /// carries the file's bytes. It always gives a response, and the response
    /// carries the stream id 0.
    pub fn get(&mut self, filename: &str, opened: FileOpen) -> (r: WireResponse)
        ensures
            (final(self)@, r@) == get_of(old(self)@, filename@, opened),
            r@.stream_id == 0,
            all_unbound(old(self)@),
            all_unbound(final(self)@),
    {
        proof {
            use_type_invariant(&*self);
        }
        match self.store.get(filename) {
            Some(response) => {
                return response.clone();
            },
            None => {},
        }
        match opened {
            FileOpen::Missing => plain("404", None, "Not Found\n".as_bytes_vec()),
            FileOpen::Unopened => plain("500", None, "Unable to get file\n".as_bytes_vec()),
            FileOpen::NoMetadata => plain(
                "500",
                None,
                "Unable to get file metadata\n".as_bytes_vec(),
            ),
            FileOpen::Unread => plain("500", None, "Unable to read file\n".as_bytes_vec()),
            FileOpen::Contents(bytes) => {
                let response = plain("200", Some(get_ctype(filename)), bytes);
                let ghost before = self.store@;
                let copy = response.clone();
                let mut taken = MemCache { store: empty_store() };
                core::mem::swap(self, &mut taken);
                let MemCache { mut store } = taken;
                store.insert(filename.to_owned(), copy);
                assert(wire_views(store@) =~= wire_views(before).insert(filename@, response@));
                *self = MemCache { store };
                response
            },
        }
    }
}

/// A fully received request of the plain file server.
pub struct ServerRequest<'a> {
    pub stream_id: u32,
    pub headers: &'a [Header],
    pub body: &'a [u8],
}

/// The name of the file that a request asks for: the value of its last
/// `:path` header that is text, behind a dot, and behind that the index
/// document where the value ends in a slash; the index document where the
/// request has no such header.
pub open spec fn request_file_of(lines: Seq<(Seq<u8>, Seq<u8>)>) -> Seq<char>
    decreases lines.len(),
{
    if lines.len() == 0 {
        "index.html"@
    } else {
        let before = request_file_of(lines.drop_last());
        let last = lines.last();
        if last.0 == encode_utf8(":path"@) && valid_utf8(last.1) {
            let name = "."@ + decode_utf8(last.1);
            if ends_in_slash(name) {
                name + "index.html"@
            } else {
                name
            }
        } else {
            before
        }
    }
}

/// The name of the file that a request asks for.
pub fn request_file(headers: &[Header]) -> (r: String)
    ensures
        r@ == request_file_of(lines_of(headers@)),
{
    let ghost lines = lines_of(headers@);
    let mut filename = "index.html".to_owned();
    let mut i: usize = 0;
    assert(lines.take(0) == Seq::<(Seq<u8>, Seq<u8>)>::empty());
    while i < headers.len()
        invariant
            i <= headers.len(),
            lines == lines_of(headers@),
            filename@ == request_file_of(lines.take(i as int)),
        decreases headers.len() - i,
    {
        assert(lines.take(i + 1).drop_last() == lines.take(i as int));
        assert(lines[i as int] == (headers@[i as int].0@, headers@[i as int].1@));
        if same_bytes(headers[i].0.as_slice(), ":path".as_bytes()) {
            match utf8_text(headers[i].1.as_slice()) {
                Some(value) => {
                    proof {
                        encode_utf8_decode_utf8(value@);
                    }
                    let mut name = ".".to_owned();
                    name.append(value);
                    if is_dir_path(name.as_str()) {
                        name.append("index.html");
                    }
                    filename = name;
                },
                None => {},
            }
        }
        i = i + 1;
    }
    assert(lines.take(i as int) == lines);
    filename
}

/// Answers a request from the cache, given what opening and reading the file
/// `request_file(req.headers)` gave, and binds the answer to the request's
/// stream. It always gives a response.
pub fn handle_request(req: ServerRequest, cache: &mut MemCache, opened: FileOpen) -> (r:
    WireResponse)
    ensures
        ({
            let (kept, response) = get_of(
                old(cache)@,
                request_file_of(lines_of(req.headers@)),
                opened,
            );
            final(cache)@ == kept && r@ == (WireView { stream_id: req.stream_id, ..response })
        }),
{
    let filename = request_file(req.headers);
    let mut resp = cache.get(filename.as_str(), opened);
    resp.stream_id = req.stream_id;
    resp
}

} // verus!
