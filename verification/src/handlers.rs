//! Handlers: what turns a request into a response.

use crate::mcache::{
    file_name, file_name_of, file_response, file_response_of, stale, stale_key, FileRead,
    FsEvent,
};
use crate::request::{Request, RequestView};
use crate::response::{Response, ResponseView};
use crate::seamap::SeaMap;
use vstd::prelude::*;
use vstd::utf8::encode_utf8;

verus! {

/// A handler produces the response to a request. It is given the response
/// that the server has prepared for the request's stream, and hands back the
/// response to send.
pub trait Handler: Send + Sync + 'static {
    /// Whether `out` can be the answer of this handler to `req` when it
    /// starts from `resp`. A handler that promises nothing of its answers
    /// leaves this as it is, and so admits every answer.
    open spec fn answers(&self, req: Request, resp: Response, out: Response) -> bool {
        true
    }

    /// Answers `req`, starting from `resp`.
    fn handle(&self, req: Request, resp: Response) -> (r: Response)
        ensures
            self.answers(req, resp, r),
    ;
}

/// The response of `NotFound`: status 404 and a short body.
pub open spec fn not_found_of(resp: ResponseView) -> ResponseView {
    resp.with_header(":status"@, "404"@).with_body(encode_utf8("Not Found\n"@))
}

/// The handler of requests that no route serves. It always answers 404.
pub struct NotFound;

impl Handler for NotFound {
    open spec fn answers(&self, req: Request, resp: Response, out: Response) -> bool {
        out@ == not_found_of(resp@)
    }

    fn handle(&self, req: Request, resp: Response) -> (r: Response) {
        let mut resp = resp;
        resp.add_header(":status", "404");
        resp.set_body_text("Not Found\n");
        resp
    }
}

/// The handler that answers every request with one text.
pub struct StringHandler {
    body: String,
}

impl StringHandler {
    /// The text that the handler answers with.
    pub closed spec fn body(&self) -> Seq<char> {
        self.body@
    }

    /// The handler that answers with `s`.
    pub fn new(s: &str) -> (h: StringHandler)
        ensures
            h.body() == s@,
    {
        StringHandler { body: s.to_owned() }
    }
}

impl Handler for StringHandler {
    open spec fn answers(&self, req: Request, resp: Response, out: Response) -> bool {
        out@ == resp@.with_body(encode_utf8(self.body()))
    }

    fn handle(&self, req: Request, resp: Response) -> (r: Response) {
        let mut resp = resp;
        resp.set_body_text(self.body.as_str());
        resp
    }
}

/// The parameter `name` of a request, or the empty text.
pub open spec fn param_of(req: RequestView, name: Seq<char>) -> Seq<char> {
    match req.params {
        Some(p) => if p.contains_key(name) {
            p[name]
        } else {
            Seq::empty()
        },
        None => Seq::empty(),
    }
}

/// The greeting for a request: by name and age where the request has
/// parameters, and for a stranger where it has none.
pub open spec fn greeting_of(req: RequestView) -> Seq<char> {
    if req.params is Some {
        "Hello "@ + param_of(req, "fname"@) + " "@ + param_of(req, "lname"@) + ". You are "@
            + param_of(req, "age"@) + " years old!"@
    } else {
        "Hello stranger!"@
    }
}

/// Greets whoever the parameters `fname`, `lname` and `age` of the request name.
pub fn greeter_func(req: Request, resp: Response) -> (r: Response)
    ensures
        r@ == resp@.with_body(encode_utf8(greeting_of(req@))),
{
    let mut resp = resp;
    if req.has_params() {
        let mut text = "Hello ".to_owned();
        text.append(req.param("fname"));
        text.append(" ");
        text.append(req.param("lname"));
        text.append(". You are ");
        text.append(req.param("age"));
        text.append(" years old!");
        resp.set_body_text(text.as_str());
    } else {
        resp.set_body_text("Hello stranger!");
    }
    resp
}

/// What the responses of a map hold.
pub open spec fn response_views(m: Map<Seq<char>, Response>) -> Map<Seq<char>, ResponseView> {
    m.map_values(|r: Response| r@)
}

/// What a `StaticFile` holds: its root and, where it caches, the responses
/// it keeps by file name.
pub struct StaticFileView {
    pub webroot: Seq<char>,
    pub cache: Option<Map<Seq<char>, ResponseView>>,
}

impl StaticFileView {
    /// The response that is kept for `path`, bound to the stream `stream_id`.
    pub open spec fn cached(self, path: Seq<char>, stream_id: u32) -> Option<ResponseView> {
        match self.cache {
            Some(kept) => if kept.contains_key(file_name_of(self.webroot, path)) {
                Some(kept[file_name_of(self.webroot, path)].with_stream_id(stream_id))
            } else {
                None
            },
            None => None,
        }
    }

    /// The answer to a request for `path` on the stream `stream_id`, given
    /// what reading its file gave: the handler afterwards, and the response.
    /// A response that reports no failure is kept where the handler caches.
    pub open spec fn answer(self, path: Seq<char>, stream_id: u32, read: FileRead) -> (
        StaticFileView,
        ResponseView,
    ) {
        let (response, failed) = file_response_of(self.webroot, path, read);
        let after = match self.cache {
            Some(kept) => if failed {
                self
            } else {
                StaticFileView {
                    cache: Some(kept.insert(file_name_of(self.webroot, path), response)),
                    ..self
                }
            },
            None => self,
        };
        (after, response.with_stream_id(stream_id))
    }

    /// The handler after a change under its root: what the change makes
    /// stale is kept no longer.
    pub open spec fn forget(self, skip: nat, event: FsEvent) -> StaticFileView {
        match (self.cache, stale_key(skip, event)) {
            (Some(kept), Some(key)) => StaticFileView { cache: Some(kept.remove(key)), ..self },
            _ => self,
        }
    }

    /// What the handler does with a request for `path` on the stream
    /// `stream_id`: a response that is kept is served as it is kept, and the
    /// file is not looked at; otherwise the answer goes by what reading the
    /// file gave.
    pub open spec fn handle(self, path: Seq<char>, stream_id: u32, read: FileRead) -> (
        StaticFileView,
        ResponseView,
    ) {
        match self.cached(path, stream_id) {
            Some(response) => (self, response),
            None => self.answer(path, stream_id, read),
        }
    }

    /// Every response that is kept carries the stream id 0, in place of the
    /// stream that will ask for it.
    pub open spec fn wf(self) -> bool {
        self.cache matches Some(kept) ==> forall|name: Seq<char>| #[trigger]
            kept.contains_key(name) ==> kept[name].stream_id == 0
    }
}

/// What is kept stays unbound: a handler that keeps its responses under the
/// stream id 0 does so after every answer and every change.
pub proof fn lemma_static_file_keeps_unbound(
    h: StaticFileView,
    path: Seq<char>,
    stream_id: u32,
    read: FileRead,
    skip: nat,
    event: FsEvent,
)
    requires
        h.wf(),
    ensures
        h.answer(path, stream_id, read).0.wf(),
        h.handle(path, stream_id, read).0.wf(),
        h.forget(skip, event).wf(),
{
}

/// A 404 is not kept. Where a file was asked for and was not there, the
/// answer was 404; whatever changes are then taken note of, nothing is kept
/// for the path, and once the file is there a request for it is answered
/// with status 200 and the file's bytes, on the stream that asks.
pub proof fn lemma_not_found_is_not_served_again(
    h: StaticFileView,
    path: Seq<char>,
    first: u32,
    skip: nat,
    event: FsEvent,
    second: u32,
    bytes: Vec<u8>,
)
    requires
        h.cached(path, first) is None,
    ensures
        ({
            let (h1, r1) = h.handle(path, first, FileRead::Missing);
            let h2 = h1.forget(skip, event);
            let (h3, r2) = h2.handle(path, second, FileRead::Contents(bytes));
            &&& r1.header(":status"@) == Some("404"@)
            &&& r1.body == encode_utf8("Not Found\n"@)
            &&& r1.stream_id == first
            &&& h2.cached(path, second) is None
            &&& r2.header(":status"@) == Some("200"@)
            &&& r2.body == bytes@
            &&& r2.stream_id == second
        }),
{
    reveal_strlit(":status");
    reveal_strlit("content-type");
}

/// A file that changed is served anew. Once the change of a file has been
/// taken note of, the response that was kept for it is gone, whatever it
/// held, and the next request is answered with status 200 and the bytes that
/// the file holds now; a handler that caches serves these bytes from then on.
pub proof fn lemma_changed_file_is_served(
    h: StaticFileView,
    path: Seq<char>,
    first: u32,
    before: FileRead,
    skip: nat,
    event: FsEvent,
    second: u32,
    bytes: Vec<u8>,
    third: u32,
    later: FileRead,
)
    requires
        stale_key(skip, event) == Some(file_name_of(h.webroot, path)),
    ensures
        ({
            let (h1, r1) = h.handle(path, first, before);
            let h2 = h1.forget(skip, event);
            let (h3, r2) = h2.handle(path, second, FileRead::Contents(bytes));
            &&& h2.cached(path, second) is None
            &&& r2.header(":status"@) == Some("200"@)
            &&& r2.body == bytes@
            &&& r2.stream_id == second
            &&& h.cache is Some ==> h3.handle(path, third, later).1 == r2.with_stream_id(third)
        }),
{
    reveal_strlit(":status");
    reveal_strlit("content-type");
}

/// The handler that serves the files under a root, with or without a cache
/// of its responses.
pub struct StaticFile {
    cache: Option<SeaMap<Response>>,
    webroot: String,
}

impl View for StaticFile {
    type V = StaticFileView;

    closed spec fn view(&self) -> StaticFileView {
        StaticFileView {
            webroot: self.webroot@,
            cache: match self.cache {
                Some(kept) => Some(response_views(kept@)),
                None => None,
            },
        }
    }
}

impl StaticFile {
    /// A handler for the files under `webroot` that keeps no responses.
    pub fn new(webroot: &str) -> (h: StaticFile)
        ensures
            h@ == (StaticFileView { webroot: webroot@, cache: None }),
    {
        StaticFile { cache: None, webroot: webroot.to_owned() }
    }

    /// A handler for the files under `webroot` that keeps its responses.
    pub fn with_cache(webroot: &str) -> (h: StaticFile)
        ensures
            h@ == (StaticFileView { webroot: webroot@, cache: Some(Map::empty()) }),
    {
        let kept: SeaMap<Response> = SeaMap::new();
        assert(response_views(kept@) =~= Map::empty());
        StaticFile { cache: Some(kept), webroot: webroot.to_owned() }
    }

    /// The root whose files the handler serves.
    pub fn webroot(&self) -> (r: &str)
        ensures
            r@ == self@.webroot,
    {
        self.webroot.as_str()
    }

    /// The name of the file that serves `path`.
    pub fn file(&self, path: &str) -> (r: String)
        ensures
            r@ == file_name_of(self@.webroot, path@),
    {
        file_name(self.webroot.as_str(), path)
    }

    /// The response that is kept for `path`, bound to the stream `stream_id`.
    pub fn cached(&self, path: &str, stream_id: u32) -> (r: Option<Response>)
        ensures
            match r {
                Some(response) => self@.cached(path@, stream_id) == Some(response@),
                None => self@.cached(path@, stream_id) is None,
            },
    {
        match &self.cache {
            Some(kept) => {
                let name = file_name(self.webroot.as_str(), path);
                match kept.get(name.as_str()) {
                    Some(response) => {
                        let mut r = response.clone();
                        r.stream_id(stream_id);
                        Some(r)
                    },
                    None => None,
                }
            },
            None => None,
        }
    }

    /// Answers a request for `path` on the stream `stream_id`, given what
    /// reading the file `file(path)` gave.
    pub fn answer(&mut self, path: &str, stream_id: u32, read: FileRead) -> (r: Response)
        ensures
            (final(self)@, r@) == old(self)@.answer(path@, stream_id, read),
    {
        let (response, failed) = file_response(self.webroot.as_str(), path, read);
        if !failed {
            let name = file_name(self.webroot.as_str(), path);
            match &mut self.cache {
                Some(kept) => {
                    let ghost before = kept@;
                    let copy = response.clone();
                    kept.insert(name, copy);
                    assert(response_views(kept@) =~= response_views(before).insert(
                        name@,
                        response@,
                    ));
                },
                None => {},
            }
        }
        let mut r = response;
        r.stream_id(stream_id);
        r
    }

    /// Handles a request for `path` on the stream `stream_id`, given what
    /// reading the file `file(path)` gave: a response that is kept is served,
    /// whatever the file holds, and otherwise the answer goes by `read`. The
    /// response is bound to the stream.
    pub fn handle(&mut self, path: &str, stream_id: u32, read: FileRead) -> (r: Response)
        ensures
            (final(self)@, r@) == old(self)@.handle(path@, stream_id, read),
            r@.stream_id == stream_id,
    {
        match self.cached(path, stream_id) {
            Some(response) => response,
            None => self.answer(path, stream_id, read),
        }
    }

    /// Takes note of a change under the root: the response that the change
    /// makes stale is kept no longer.
    pub fn forget(&mut self, skip: usize, event: &FsEvent)
        ensures
            final(self)@ == old(self)@.forget(skip as nat, *event),
    {
        match &mut self.cache {
            Some(kept) => {
                match stale(skip, event) {
                    Some(key) => {
                        let ghost before = kept@;
                        kept.remove(key.as_str());
                        assert(response_views(kept@) =~= response_views(before).remove(key@));
                    },
                    None => {},
                }
            },
            None => {},
        }
    }
}

/// A handler of any kind, as the routes hold it.
pub struct Boxed {
    inner: Box<dyn Handler>,
}

impl Boxed {
    /// `handler` in its box.
    pub closed spec fn of<H: Handler + 'static>(handler: H) -> Boxed {
        Boxed { inner: Box::new(handler) }
    }

    /// Boxes `handler`.
    pub fn new<H: Handler + 'static>(handler: H) -> (b: Boxed)
        ensures
            b == Boxed::of(handler),
    {
        Boxed { inner: Box::new(handler) }
    }
}

impl Handler for Boxed {
    /// The answers of the handler inside.
    closed spec fn answers(&self, req: Request, resp: Response, out: Response) -> bool {
        self.inner.answers(req, resp, out)
    }

    /// Answers as the handler inside does.
    fn handle(&self, req: Request, resp: Response) -> (r: Response) {
        self.inner.handle(req, resp)
    }
}

/// Whether every function of type `F` takes every request.
pub open spec fn total<F: FnOnce(Request, Response) -> Response>() -> bool {
    forall|f: F, req: Request, resp: Response| call_requires(f, (req, resp))
}

/// A function as a handler.
pub struct HandlerFunc<F> where
    F: FnOnce(Request, Response) -> Response,
    F: Clone + Send + Sync + 'static,
 {
    func: F,
}

impl<F> HandlerFunc<F> where
    F: FnOnce(Request, Response) -> Response,
    F: Clone + Send + Sync + 'static,
 {
    /// The function that handles.
    pub closed spec fn func(&self) -> F {
        self.func
    }

    #[verifier::type_invariant]
    spec fn inv(&self) -> bool {
        total::<F>()
    }

    /// The handler that answers with `func`.
    pub fn new(func: F) -> (h: HandlerFunc<F>)
        requires
            total::<F>(),
        ensures
            h.func() == func,
    {
        HandlerFunc { func }
    }
}

impl<F> Handler for HandlerFunc<F> where
    F: FnOnce(Request, Response) -> Response,
    F: Clone + Send + Sync + 'static,
 {
    /// What a copy of the function may return.
    open spec fn answers(&self, req: Request, resp: Response, out: Response) -> bool {
        exists|f: F| cloned(self.func(), f) && call_ensures(f, (req, resp), out)
    }

    /// Answers with a copy of the function.
    fn handle(&self, req: Request, resp: Response) -> (r: Response) {
        proof {
            use_type_invariant(self);
        }
        let f = self.func.clone();
        let r = f(req, resp);
        assert(cloned(self.func(), f) && call_ensures(f, (req, resp), r));
        r
    }
}

} // verus!
