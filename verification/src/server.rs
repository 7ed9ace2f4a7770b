//! The server: its settings, its routes, and the decisions it takes for each
//! connection and each stream.

use crate::error::ServerError;
use crate::handlers::{not_found_of, total, Boxed, Handler, HandlerFunc, NotFound};
use crate::request::{
    find_action, lemma_find_action, lemma_parent_shorter, parent_of, parent_path, parse_action,
    parse_failure, position_of, request_of, resolve, resolve_action, views_of, Action, ActionView,
    Request,
};
use crate::response::{fresh_response, lines_of, Header, Response, ResponseView};
use crate::text::same_bytes;
use vstd::prelude::*;
use vstd::utf8::encode_utf8;

verus! {

/// The routes of a server: each action with its handler. No two actions have
/// the same path.
pub struct Router {
    actions: Vec<Action>,
    handlers: Vec<Boxed>,
}

/// Whether no two routes have the same path.
pub open spec fn distinct_paths(actions: Seq<ActionView>) -> bool {
    forall|i: int, j: int|
        0 <= i < actions.len() && 0 <= j < actions.len() && i != j ==> actions[i].path
            != actions[j].path
}

impl Router {
    /// The actions, in the order in which their paths were first registered.
    pub closed spec fn actions(&self) -> Seq<ActionView> {
        views_of(self.actions@)
    }

    /// The handlers, each at the place of its action.
    pub closed spec fn handlers(&self) -> Seq<Boxed> {
        self.handlers@
    }

    /// The routes are well formed: each action has its handler, and no path
    /// stands twice.
    pub open spec fn wf(&self) -> bool {
        &&& self.actions().len() == self.handlers().len()
        &&& distinct_paths(self.actions())
    }

    #[verifier::type_invariant]
    spec fn inv(&self) -> bool {
        self.wf()
    }

    /// No routes.
    pub fn new() -> (r: Router)
        ensures
            r.actions() == Seq::<ActionView>::empty(),
            r.handlers() == Seq::<Boxed>::empty(),
    {
        let r = Router { actions: Vec::new(), handlers: Vec::new() };
        assert(r.actions() =~= Seq::<ActionView>::empty());
        r
    }

    /// The registered actions.
    pub fn list(&self) -> (r: &Vec<Action>)
        ensures
            views_of(r@) == self.actions(),
            self.wf(),
    {
        proof {
            use_type_invariant(self);
        }
        &self.actions
    }

    /// The handler at place `i`.
    pub fn handler_at(&self, i: usize) -> (r: &Boxed)
        requires
            i < self.handlers().len(),
        ensures
            *r == self.handlers()[i as int],
    {
        &self.handlers[i]
    }

    /// Whether `after` holds these routes and the route of `action` to
    /// `handler`: in the place of the route that had the path of `action`, or
    /// at the end where there was none.
    pub open spec fn registers(&self, action: ActionView, handler: Boxed, after: Router) -> bool {
        &&& after.wf()
        &&& match find_action(self.actions(), action.path) {
            Some(i) => {
                &&& after.actions() == self.actions().update(i, action)
                &&& after.handlers() == self.handlers().update(i, handler)
            },
            None => {
                &&& after.actions() == self.actions().push(action)
                &&& after.handlers() == self.handlers().push(handler)
            },
        }
    }

    /// Registers `handler` for `action`. Where the path of `action` is
    /// registered already, the new route takes the place of the old one, and
    /// the result is `true`.
    pub fn register(&mut self, action: Action, handler: Boxed) -> (replaced: bool)
        ensures
            old(self).registers(action@, handler, *final(self)),
            replaced == (find_action(old(self).actions(), action@.path) is Some),
    {
        proof {
            use_type_invariant(&*self);
            lemma_find_action(self.actions(), action@.path);
        }
        let ghost views = self.actions();
        let ghost before = self.handlers();
        let found = position_of(&self.actions, action.path.as_str());
        let mut taken = Router::new();
        core::mem::swap(self, &mut taken);
        let Router { mut actions, mut handlers } = taken;
        let replaced = match found {
            Some(i) => {
                actions.remove(i);
                actions.insert(i, action);
                handlers.remove(i);
                handlers.insert(i, handler);
                assert(views_of(actions@) =~= views.update(i as int, action@));
                assert(handlers@ =~= before.update(i as int, handler));
                true
            },
            None => {
                actions.push(action);
                handlers.push(handler);
                assert(views_of(actions@) =~= views.push(action@));
                false
            },
        };
        assert(distinct_paths(views_of(actions@)));
        *self = Router { actions, handlers };
        replaced
    }
}

/// A route that was registered is found. After a registration the path of
/// the new route resolves to the place where the route stands with its
/// handler, whatever was registered before.
pub proof fn lemma_registered_is_found(
    before: Router,
    action: ActionView,
    handler: Boxed,
    after: Router,
)
    requires
        before.wf(),
        before.registers(action, handler, after),
    ensures
        resolve(after.actions(), action.path) matches Some(i) && 0 <= i < after.handlers().len()
            && after.actions()[i] == action && after.handlers()[i] == handler,
{
    lemma_find_action(before.actions(), action.path);
    lemma_find_action(after.actions(), action.path);
    let i = match find_action(before.actions(), action.path) {
        Some(i) => i,
        None => before.actions().len() as int,
    };
    assert(after.actions()[i].path == action.path);
    assert forall|j: int| 0 <= j < i implies after.actions()[j].path != action.path by {
        assert(after.actions()[j] == before.actions()[j]);
    }
    assert(find_action(after.actions(), action.path) == Some(i));
}

/// A registration leaves the other routes alone: a path other than that of
/// the new route is registered afterwards exactly where it was registered
/// before, with the same handler.
pub proof fn lemma_other_routes_stay(
    before: Router,
    action: ActionView,
    handler: Boxed,
    after: Router,
    path: Seq<char>,
)
    requires
        before.wf(),
        before.registers(action, handler, after),
        path != action.path,
    ensures
        find_action(after.actions(), path) == find_action(before.actions(), path),
        find_action(before.actions(), path) matches Some(i) ==> after.handlers()[i]
            == before.handlers()[i] && after.actions()[i] == before.actions()[i],
{
    lemma_find_action(before.actions(), action.path);
    lemma_find_action(before.actions(), path);
    lemma_find_action(after.actions(), path);
    let old = before.actions();
    let new = after.actions();
    assert forall|j: int| 0 <= j < old.len() implies ((#[trigger] new[j]).path == path
        <==> old[j].path == path) by {}
    match find_action(old, path) {
        Some(i) => {
            assert(new[i].path == path);
            match find_action(new, path) {
                Some(k) => {
                    if k < i {
                        assert(old[k].path == path);
                    }
                },
                None => {},
            }
        },
        None => {
            match find_action(new, path) {
                Some(k) => {
                    if k < old.len() {
                        assert(old[k].path == path);
                    }
                },
                None => {},
            }
        },
    }
}

/// Walks from `path` up through its ancestors until a route is found.
/// Hands back the place of the route and its path, or no place and the last
/// path tried.
fn walk(actions: &Vec<Action>, path: &str) -> (r: (Option<usize>, String))
    ensures
        match resolve(views_of(actions@), path@) {
            Some(i) => r.0 == Some(i as usize) && 0 <= i < actions.len() && r.1@ == views_of(
                actions@,
            )[i].path,
            None => r.0 is None && r.1@ == last_tried(path@),
        },
{
    let ghost views = views_of(actions@);
    let mut current: String = path.to_owned();
    loop
        invariant
            views == views_of(actions@),
            resolve(views, path@) == resolve(views, current@),
            last_tried(path@) == last_tried(current@),
        decreases current@.len(),
    {
        proof {
            lemma_find_action(views, current@);
            lemma_parent_shorter(current@);
        }
        match position_of(actions, current.as_str()) {
            Some(i) => {
                return (Some(i), current);
            },
            None => {},
        }
        match parent_of(current.as_str()) {
            Some(parent) => {
                current = parent;
            },
            None => {
                return (None, current);
            },
        }
    }
}

/// Builds a server: the certificate and key, the socket, the number of
/// worker threads, and the routes.
pub struct Builder {
    cert: String,
    key: String,
    router: Router,
    socket: String,
    threads: usize,
}

impl Builder {
    /// The certificate file.
    pub closed spec fn cert(&self) -> Seq<char> {
        self.cert@
    }

    /// The key file.
    pub closed spec fn key(&self) -> Seq<char> {
        self.key@
    }

    /// The socket to listen on.
    pub closed spec fn socket_addr(&self) -> Seq<char> {
        self.socket@
    }

    /// The number of worker threads.
    pub closed spec fn thread_count(&self) -> usize {
        self.threads
    }

    /// The routes.
    pub closed spec fn routes(&self) -> Router {
        self.router
    }

    /// A builder with the settings of a development server and no routes.
    pub fn new() -> (b: Builder)
        ensures
            b.cert() == "tls/dev/cert.pem"@,
            b.key() == "tls/dev/key.pem"@,
            b.socket_addr() == "127.0.0.1:8443"@,
            b.thread_count() == 0,
            b.routes().actions() == Seq::<ActionView>::empty(),
            b.routes().handlers() == Seq::<Boxed>::empty(),
    {
        Builder {
            cert: "tls/dev/cert.pem".to_owned(),
            key: "tls/dev/key.pem".to_owned(),
            router: Router::new(),
            socket: "127.0.0.1:8443".to_owned(),
            threads: 0,
        }
    }

    /// Sets the certificate and key files.
    pub fn tls(self, cert: &str, key: &str) -> (b: Builder)
        ensures
            b.cert() == cert@,
            b.key() == key@,
            b.socket_addr() == self.socket_addr(),
            b.thread_count() == self.thread_count(),
            b.routes() == self.routes(),
    {
        let mut b = self;
        b.cert = cert.to_owned();
        b.key = key.to_owned();
        b
    }

    /// Sets the TCP socket to listen on.
    pub fn socket(self, socket: &str) -> (b: Builder)
        ensures
            b.socket_addr() == socket@,
            b.cert() == self.cert(),
            b.key() == self.key(),
            b.thread_count() == self.thread_count(),
            b.routes() == self.routes(),
    {
        let mut b = self;
        b.socket = socket.to_owned();
        b
    }

    /// Sets the number of worker threads.
    pub fn threads(self, threads: usize) -> (b: Builder)
        ensures
            b.thread_count() == threads,
            b.cert() == self.cert(),
            b.key() == self.key(),
            b.socket_addr() == self.socket_addr(),
            b.routes() == self.routes(),
    {
        let mut b = self;
        b.threads = threads;
        b
    }

    /// Registers a handler for the route that `action` spells. Fails where
    /// `action` spells no route.
    pub fn handler<H: Handler + 'static>(self, action: &str, handler: H) -> (r: Result<
        Builder,
        ServerError,
    >)
        ensures
            match parse_action(action@) {
                Some(a) => r matches Ok(b) && self.routes().registers(
                    a,
                    Boxed::of(handler),
                    b.routes(),
                ) && b.cert() == self.cert() && b.key() == self.key() && b.socket_addr()
                    == self.socket_addr() && b.thread_count() == self.thread_count(),
                None => r matches Err(e) && e matches ServerError::ParseAction(msg) && msg@
                    == parse_failure(action@),
            },
    {
        let mut b = self;
        match Action::from_str(action) {
            Ok(a) => {
                b.router.register(a, Boxed::new(handler));
                Ok(b)
            },
            Err(e) => Err(e),
        }
    }

    /// Registers a function as the handler for the route that `action` spells.
    pub fn handler_func<F>(self, action: &str, func: F) -> (r: Result<Builder, ServerError>) where
        F: FnOnce(Request, Response) -> Response,
        F: Clone + Send + Sync + 'static,

        requires
            total::<F>(),
        ensures
            match parse_action(action@) {
                Some(a) => r matches Ok(b) && (exists|h: HandlerFunc<F>|
                    h.func() == func && #[trigger] self.routes().registers(
                        a,
                        Boxed::of(h),
                        b.routes(),
                    )) && b.cert() == self.cert() && b.key() == self.key() && b.socket_addr()
                    == self.socket_addr() && b.thread_count() == self.thread_count(),
                None => r matches Err(e) && e matches ServerError::ParseAction(msg) && msg@
                    == parse_failure(action@),
            },
    {
        self.handler(action, HandlerFunc::new(func))
    }

    /// The server with these settings and routes.
    pub fn build(self) -> (s: Server)
        ensures
            s.cert() == self.cert(),
            s.key() == self.key(),
            s.socket_addr() == self.socket_addr(),
            s.thread_count() == self.thread_count(),
            s.routes() == self.routes(),
            s.fallback() == Boxed::of(NotFound),
    {
        Server {
            cert: self.cert,
            key: self.key,
            socket: self.socket,
            router: self.router,
            not_found: Boxed::new(NotFound),
            threads: self.threads,
        }
    }
}

/// The last path that the search for a route tries: the path itself where it
/// has no parent, else the last that its parent leads to.
pub open spec fn last_tried(path: Seq<char>) -> Seq<char>
    decreases path.len(),
{
    match parent_path(path) {
        Some(parent) => if parent.len() < path.len() {
            last_tried(parent)
        } else {
            path
        },
        None => path,
    }
}

/// The response to a stream whose request is bad: status 400 and a short body.
pub open spec fn bad_request_of(stream_id: u32) -> ResponseView {
    fresh_response(stream_id).with_header(":status"@, "400"@).with_body(
        encode_utf8("Bad Request\n"@),
    )
}

/// What a server does with a stream whose request has fully arrived.
pub enum Dispatch<'a> {
    /// The request is bad; this response goes back.
    Reject(Response),
    /// The handler at this place among the routes answers the request,
    /// starting from this response.
    Route(usize, Request<'a>, Response),
    /// No route serves the request; the handler for requests without a route
    /// answers it, starting from this response.
    Unrouted(Request<'a>, Response),
}

/// An HTTP/2 server without its sockets: the settings and the routes.
pub struct Server {
    cert: String,
    key: String,
    socket: String,
    router: Router,
    not_found: Boxed,
    threads: usize,
}

impl Server {
    /// The certificate file.
    pub closed spec fn cert(&self) -> Seq<char> {
        self.cert@
    }

    /// The key file.
    pub closed spec fn key(&self) -> Seq<char> {
        self.key@
    }

    /// The socket to listen on.
    pub closed spec fn socket_addr(&self) -> Seq<char> {
        self.socket@
    }

    /// The number of worker threads.
    pub closed spec fn thread_count(&self) -> usize {
        self.threads
    }

    /// The routes.
    pub closed spec fn routes(&self) -> Router {
        self.router
    }

    /// The handler of requests that no route serves.
    pub closed spec fn fallback(&self) -> Boxed {
        self.not_found
    }

    /// A builder for a server.
    pub fn builder() -> (b: Builder)
        ensures
            b.cert() == "tls/dev/cert.pem"@,
            b.key() == "tls/dev/key.pem"@,
            b.socket_addr() == "127.0.0.1:8443"@,
            b.thread_count() == 0,
            b.routes().actions() == Seq::<ActionView>::empty(),
            b.routes().handlers() == Seq::<Boxed>::empty(),
    {
        Builder::new()
    }

    /// A server with the given settings and no routes.
    pub fn new(cert: &str, key: &str, socket: &str, threads: usize) -> (s: Server)
        ensures
            s.cert() == cert@,
            s.key() == key@,
            s.socket_addr() == socket@,
            s.thread_count() == threads,
            s.routes().actions() == Seq::<ActionView>::empty(),
            s.routes().handlers() == Seq::<Boxed>::empty(),
            s.fallback() == Boxed::of(NotFound),
    {
        Server {
            cert: cert.to_owned(),
            key: key.to_owned(),
            socket: socket.to_owned(),
            router: Router::new(),
            not_found: Boxed::new(NotFound),
            threads,
        }
    }

    /// The settings: certificate file, key file, socket, worker threads.
    pub fn settings(&self) -> (r: (&str, &str, &str, usize))
        ensures
            r.0@ == self.cert(),
            r.1@ == self.key(),
            r.2@ == self.socket_addr(),
            r.3 == self.thread_count(),
    {
        (self.cert.as_str(), self.key.as_str(), self.socket.as_str(), self.threads)
    }

    /// Registers a handler for the route that `action` spells. Fails where
    /// `action` spells no route.
    pub fn add_handler<H: Handler + 'static>(self, action: &str, handler: H) -> (r: Result<
        Server,
        ServerError,
    >)
        ensures
            match parse_action(action@) {
                Some(a) => r matches Ok(s) && self.routes().registers(
                    a,
                    Boxed::of(handler),
                    s.routes(),
                ) && s.cert() == self.cert() && s.key() == self.key() && s.socket_addr()
                    == self.socket_addr() && s.thread_count() == self.thread_count()
                    && s.fallback() == self.fallback(),
                None => r matches Err(e) && e matches ServerError::ParseAction(msg) && msg@
                    == parse_failure(action@),
            },
    {
        let mut s = self;
        match Action::from_str(action) {
            Ok(a) => {
                s.router.register(a, Boxed::new(handler));
                Ok(s)
            },
            Err(e) => Err(e),
        }
    }

    /// Registers a function as the handler for the route that `action` spells.
    pub fn add_handler_func<F>(self, action: &str, func: F) -> (r: Result<
        Server,
        ServerError,
    >) where
        F: FnOnce(Request, Response) -> Response,
        F: Clone + Send + Sync + 'static,

        requires
            total::<F>(),
        ensures
            match parse_action(action@) {
                Some(a) => r matches Ok(s) && (exists|h: HandlerFunc<F>|
                    h.func() == func && #[trigger] self.routes().registers(
                        a,
                        Boxed::of(h),
                        s.routes(),
                    )) && s.cert() == self.cert() && s.key() == self.key() && s.socket_addr()
                    == self.socket_addr() && s.thread_count() == self.thread_count()
                    && s.fallback() == self.fallback(),
                None => r matches Err(e) && e matches ServerError::ParseAction(msg) && msg@
                    == parse_failure(action@),
            },
    {
        self.add_handler(action, HandlerFunc::new(func))
    }

    /// The handler for `action`: that of the route registered under the path
    /// of `action` or, failing that, under the nearest of its ancestors; the
    /// handler for requests without a route where there is none. The path of
    /// `action` becomes that of the route found, or the last path tried.
    pub fn handler(&self, action: &mut Action) -> (r: &Boxed)
        ensures
            match resolve(self.routes().actions(), old(action)@.path) {
                Some(i) => {
                    &&& 0 <= i < self.routes().handlers().len()
                    &&& *r == self.routes().handlers()[i]
                    &&& final(action)@.path == self.routes().actions()[i].path
                },
                None => {
                    &&& *r == self.fallback()
                    &&& final(action)@.path == last_tried(old(action)@.path)
                },
            },
            final(action)@.params == old(action)@.params,
    {
        let actions = self.router.list();
        let (found, path) = walk(actions, action.path.as_str());
        action.path = path;
        match found {
            Some(i) => self.router.handler_at(i),
            None => &self.not_found,
        }
    }

    /// Decides what to do with a stream whose request has fully arrived: the
    /// request is read against the routes; a bad request is rejected with
    /// status 400, and any other goes to the handler that `handler` finds for
    /// it, together with a new response for the stream.
    pub fn dispatch<'a>(
        &self,
        stream_id: u32,
        headers: Option<&'a [Header]>,
        body: &'a [u8],
    ) -> (r: Dispatch<'a>)
        ensures
            match request_of(
                stream_id,
                match headers {
                    Some(h) => Some(lines_of(h@)),
                    None => None,
                },
                body@,
                self.routes().actions(),
            ) {
                None => r matches Dispatch::Reject(resp) && resp@ == bad_request_of(stream_id),
                Some(request) => match resolve(self.routes().actions(), request.action.path) {
                    Some(i) => r matches Dispatch::Route(at, req, resp) && at == i && at
                        < self.routes().handlers().len() && req@ == request && resp@
                        == fresh_response(stream_id),
                    None => r matches Dispatch::Unrouted(req, resp) && req@ == request && resp@
                        == fresh_response(stream_id),
                },
            },
    {
        let actions = self.router.list();
        match Request::new(stream_id, headers, body, actions) {
            Err(_) => {
                let mut resp = Response::new(stream_id);
                resp.add_header(":status", "400");
                resp.set_body_text("Bad Request\n");
                Dispatch::Reject(resp)
            },
            Ok(req) => {
                let resp = Response::new(stream_id);
                match resolve_action(actions, req.action.path.as_str()) {
                    Some(i) => Dispatch::Route(i, req, resp),
                    None => Dispatch::Unrouted(req, resp),
                }
            },
        }
    }

    /// Whether `r` answers the stream: a bad request is answered with status
    /// 400; a request without a route is answered as `NotFound` answers; any
    /// other request is answered as the handler of its route answers it,
    /// starting from a new response. Every answer is bound to the stream.
    pub open spec fn responds(
        &self,
        stream_id: u32,
        headers: Option<Seq<(Seq<u8>, Seq<u8>)>>,
        body: Seq<u8>,
        r: ResponseView,
    ) -> bool {
        match request_of(stream_id, headers, body, self.routes().actions()) {
            None => r == bad_request_of(stream_id),
            Some(request) => match resolve(self.routes().actions(), request.action.path) {
                Some(i) => exists|req: Request, resp: Response, out: Response|
                    req@ == request && resp@ == fresh_response(stream_id)
                        && #[trigger] self.routes().handlers()[i].answers(req, resp, out) && r
                        == out@.with_stream_id(stream_id),
                None => r == not_found_of(fresh_response(stream_id)),
            },
        }
    }

    /// Answers a stream whose request has fully arrived, and binds the answer
    /// to the stream.
    pub fn respond(&self, stream_id: u32, headers: Option<&[Header]>, body: &[u8]) -> (r:
        Response)
        ensures
            r@.stream_id == stream_id,
            self.responds(
                stream_id,
                match headers {
                    Some(h) => Some(lines_of(h@)),
                    None => None,
                },
                body@,
                r@,
            ),
    {
        let answer = match self.dispatch(stream_id, headers, body) {
            Dispatch::Reject(resp) => resp,
            Dispatch::Route(i, req, resp) => {
                let out = self.router.handler_at(i).handle(req, resp);
                assert(self.routes().handlers()[i as int].answers(req, resp, out));
                out
            },
            Dispatch::Unrouted(req, resp) => NotFound.handle(req, resp),
        };
        staged(answer, stream_id)
    }
}

/// The number of worker threads to start: as many as were asked for, or one
/// for each processor where none were asked for.
pub fn worker_threads(asked: usize, processors: usize) -> (n: usize)
    ensures
        n == if asked == 0 {
            processors
        } else {
            asked
        },
{
    if asked == 0 {
        processors
    } else {
        asked
    }
}

/// The bytes that a client sends before its first frame.
pub open spec fn preface() -> Seq<u8> {
    encode_utf8("PRI * HTTP/2.0\r\n\r\nSM\r\n\r\n"@)
}

/// Whether `bytes` are the connection preface.
pub fn is_preface(bytes: &[u8]) -> (r: bool)
    ensures
        r == (bytes@ == preface()),
{
    same_bytes(bytes, "PRI * HTTP/2.0\r\n\r\nSM\r\n\r\n".as_bytes())
}

/// Whether the protocol name `h2`, behind its length, stands at place `i` of
/// a list of protocol names.
pub open spec fn h2_at(protos: Seq<u8>, i: int) -> bool {
    &&& 0 <= i
    &&& i + 3 <= protos.len()
    &&& protos[i] == 2
    &&& protos[i + 1] == 0x68
    &&& protos[i + 2] == 0x32
}

/// Whether a client's list of protocol names offers `h2`.
pub open spec fn offers_h2(protos: Seq<u8>) -> bool {
    exists|i: int| h2_at(protos, i)
}

/// Whether the server picks `h2` from a client's list of protocol names. It
/// does where the list offers it, and picks nothing otherwise.
pub fn select_h2(protos: &[u8]) -> (r: bool)
    ensures
        r == offers_h2(protos@),
{
    if protos.len() < 3 {
        return false;
    }
    let last: usize = protos.len() - 3;
    let mut i: usize = 0;
    while i <= last
        invariant
            last + 3 == protos.len(),
            i <= last + 1,
            forall|j: int| 0 <= j < i ==> !h2_at(protos@, j),
        decreases last + 1 - i,
    {
        if protos[i] == 2 && protos[i + 1] == 0x68 && protos[i + 2] == 0x32 {
            assert(h2_at(protos@, i as int));
            return true;
        }
        i = i + 1;
    }
    false
}

/// Where a connection stands.
#[derive(Clone, Copy, Debug, PartialEq, Eq, Structural)]
pub enum Phase {
    /// The TLS handshake is to be made.
    Handshake,
    /// The connection preface is to be read.
    Preface,
    /// The protocol engine is to be started.
    Init,
    /// The next frame is to be read and handled.
    AwaitFrame,
    /// The streams whose requests have arrived are to be answered and their
    /// responses staged.
    Serve,
    /// Staged data is to be sent.
    Flush,
    /// Closed streams are to be dropped.
    Reap,
    /// The connection is over.
    Closed,
}

/// What came of the step that a phase asked for.
#[derive(Clone, Copy, Debug, PartialEq, Eq, Structural)]
pub enum Outcome {
    /// The step was made.
    Done,
    /// The step failed, or the peer closed the connection.
    Failed,
    /// The preface was read: whether it was the right one.
    Read(bool),
    /// Data was sent, and more may be waiting.
    Sent,
    /// There was nothing left to send.
    Idle,
}

/// The phase that follows `phase` when its step ends in `outcome`.
///
/// A failure before the first frame, while reading a frame or while staging a
/// response ends the connection, as does a wrong preface. A failure while
/// sending ends the sending only. An outcome that the phase does not await
/// ends the connection.
pub open spec fn next_phase(phase: Phase, outcome: Outcome) -> Phase {
    match (phase, outcome) {
        (Phase::Handshake, Outcome::Done) => Phase::Preface,
        (Phase::Preface, Outcome::Read(true)) => Phase::Init,
        (Phase::Init, Outcome::Done) => Phase::AwaitFrame,
        (Phase::AwaitFrame, Outcome::Done) => Phase::Serve,
        (Phase::Serve, Outcome::Done) => Phase::Flush,
        (Phase::Flush, Outcome::Sent) => Phase::Flush,
        (Phase::Flush, Outcome::Idle) => Phase::Reap,
        (Phase::Flush, Outcome::Failed) => Phase::Reap,
        (Phase::Reap, Outcome::Done) => Phase::AwaitFrame,
        _ => Phase::Closed,
    }
}

/// The phase in which every connection starts.
pub fn first_phase() -> (p: Phase)
    ensures
        p == Phase::Handshake,
{
    Phase::Handshake
}

/// The phase that follows `phase` when its step ends in `outcome`.
pub fn advance(phase: Phase, outcome: Outcome) -> (p: Phase)
    ensures
        p == next_phase(phase, outcome),
{
    match (phase, outcome) {
        (Phase::Handshake, Outcome::Done) => Phase::Preface,
        (Phase::Preface, Outcome::Read(true)) => Phase::Init,
        (Phase::Init, Outcome::Done) => Phase::AwaitFrame,
        (Phase::AwaitFrame, Outcome::Done) => Phase::Serve,
        (Phase::Serve, Outcome::Done) => Phase::Flush,
        (Phase::Flush, Outcome::Sent) => Phase::Flush,
        (Phase::Flush, Outcome::Idle) => Phase::Reap,
        (Phase::Flush, Outcome::Failed) => Phase::Reap,
        (Phase::Reap, Outcome::Done) => Phase::AwaitFrame,
        _ => Phase::Closed,
    }
}

/// The phase of a connection after a run of outcomes.
pub open spec fn phase_after(phase: Phase, outcomes: Seq<Outcome>) -> Phase
    decreases outcomes.len(),
{
    if outcomes.len() == 0 {
        phase
    } else {
        next_phase(phase_after(phase, outcomes.drop_last()), outcomes.last())
    }
}

/// Whether a phase serves streams: the engine runs, and frames are read,
/// answered, sent and reaped in turn.
pub open spec fn is_serving(phase: Phase) -> bool {
    phase == Phase::AwaitFrame || phase == Phase::Serve || phase == Phase::Flush || phase
        == Phase::Reap
}

/// A connection that is over stays over, whatever comes.
pub proof fn lemma_closed_stays_closed(outcomes: Seq<Outcome>)
    ensures
        phase_after(Phase::Closed, outcomes) == Phase::Closed,
    decreases outcomes.len(),
{
    if outcomes.len() > 0 {
        lemma_closed_stays_closed(outcomes.drop_last());
    }
}

/// No stream is served before the handshake is made, the right preface is
/// read and the engine is started, in this order: a connection that serves
/// after a run of outcomes began that run with these three.
pub proof fn lemma_served_after_setup(outcomes: Seq<Outcome>)
    requires
        is_serving(phase_after(Phase::Handshake, outcomes)),
    ensures
        outcomes.len() >= 3,
        outcomes[0] == Outcome::Done,
        outcomes[1] == Outcome::Read(true),
        outcomes[2] == Outcome::Done,
    decreases outcomes.len(),
{
    let front = outcomes.drop_last();
    if outcomes.len() == 0 {
    } else if is_serving(phase_after(Phase::Handshake, front)) {
        lemma_served_after_setup(front);
        assert(outcomes[0] == front[0] && outcomes[1] == front[1] && outcomes[2] == front[2]);
    } else {
        // The last outcome started the engine.
        assert(phase_after(Phase::Handshake, front) == Phase::Init);
        let two = front.drop_last();
        assert(front.len() > 0);
        assert(phase_after(Phase::Handshake, two) == Phase::Preface);
        let one = two.drop_last();
        assert(two.len() > 0);
        assert(phase_after(Phase::Handshake, one) == Phase::Handshake);
        lemma_handshake_is_first(one);
        assert(outcomes[0] == two[0]);
        assert(outcomes[1] == front[1]);
    }
}

/// A connection is at its handshake only before anything has come.
pub proof fn lemma_handshake_is_first(outcomes: Seq<Outcome>)
    requires
        phase_after(Phase::Handshake, outcomes) == Phase::Handshake,
    ensures
        outcomes.len() == 0,
{
}

/// The response as it is staged for `stream_id`: bound to that stream,
/// whatever stream it was computed for.
pub fn staged(response: Response, stream_id: u32) -> (r: Response)
    ensures
        r@ == response@.with_stream_id(stream_id),
        r.pseudo_names() == response.pseudo_names(),
        r.regular_names() == response.regular_names(),
{
    let mut r = response;
    r.stream_id(stream_id);
    r
}

} // verus!
