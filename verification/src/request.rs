//! Routes as text, and the requests that are matched against them.

use crate::error::ServerError;
use crate::response::{lines_of, texts, Header};
use crate::strmap::StrMap;
use crate::text::{
    decimal, decimal_text, find_first, find_last, first_index_of, has_char, last_index_of,
    lemma_first_index_of, lemma_last_index_of, same_bytes, same_text, slice_text, split,
    split_text, utf8_text, words, words_of,
};
use vstd::prelude::*;
use vstd::std_specs::cmp::PartialEqSpecImpl;
use vstd::utf8::{decode_utf8, encode_utf8, encode_utf8_decode_utf8, valid_utf8};

verus! {

/// An HTTP verb. Only GET is served.
#[derive(Clone, Copy, Debug)]
pub enum Method {
    GET,
}

/// A route: a method and a path, and for a template with named segments the
/// position of each of them.
#[derive(Debug)]
pub struct Action {
    pub method: Method,
    /// The path under which the route is looked up.
    pub path: String,
    /// The named segments of the template, each with its position among the
    /// segments of a request path.
    pub params: Option<StrMap<usize>>,
}

/// What an `Action` holds.
pub struct ActionView {
    pub path: Seq<char>,
    pub params: Option<Map<Seq<char>, usize>>,
}

impl View for Action {
    type V = ActionView;

    open spec fn view(&self) -> ActionView {
        ActionView {
            path: self.path@,
            params: match self.params {
                Some(p) => Some(p@),
                None => None,
            },
        }
    }
}

/// Whether a segment of a template names a parameter: it does where it holds a colon.
pub open spec fn is_named(segment: Seq<char>) -> bool {
    segment.contains(':')
}

/// The name that a named segment gives its parameter: what follows its first character.
pub open spec fn param_name(segment: Seq<char>) -> Seq<char> {
    segment.skip(1)
}

/// The parameters that the segments of a template name, each with the position
/// of its segment. Of two segments with one name the later counts.
pub open spec fn template_params(segments: Seq<Seq<char>>) -> Map<Seq<char>, usize>
    decreases segments.len(),
{
    if segments.len() == 0 {
        Map::empty()
    } else {
        let before = template_params(segments.drop_last());
        if is_named(segments.last()) {
            before.insert(param_name(segments.last()), (segments.len() - 1) as usize)
        } else {
            before
        }
    }
}

/// The position of the first named segment at or after `from`, or the number
/// of segments where there is none.
pub open spec fn literal_end(segments: Seq<Seq<char>>, from: int) -> int
    decreases segments.len() - from,
{
    if from >= segments.len() || is_named(segments[from]) {
        from
    } else {
        literal_end(segments, from + 1)
    }
}

/// The segments in a row, each behind a slash.
pub open spec fn join_slash(segments: Seq<Seq<char>>) -> Seq<char>
    decreases segments.len(),
{
    if segments.len() == 0 {
        Seq::empty()
    } else {
        join_slash(segments.drop_last()) + seq!['/'] + segments.last()
    }
}

/// The path under which a template with named segments is routed: its
/// segments after the first, up to the first named one among them, each
/// behind a slash; `/` where that leaves nothing.
pub open spec fn route_path(segments: Seq<Seq<char>>) -> Seq<char> {
    let literal = join_slash(segments.subrange(1, literal_end(segments, 1)));
    if literal.len() == 0 {
        seq!['/']
    } else {
        literal
    }
}

/// The route that a path template stands for.
pub open spec fn action_of(template: Seq<char>) -> ActionView {
    if template.contains(':') {
        let segments = split(template, '/');
        ActionView { path: route_path(segments), params: Some(template_params(segments)) }
    } else {
        ActionView { path: template, params: None }
    }
}

/// The route that a text stands for: two words, of which the first is `GET`
/// and the second a path template. Any other text stands for none.
pub open spec fn parse_action(s: Seq<char>) -> Option<ActionView> {
    let w = words(s);
    if w.len() == 2 && w[0] == seq!['G', 'E', 'T'] {
        Some(action_of(w[1]))
    } else {
        None
    }
}

/// What is said of a text that stands for no route.
pub open spec fn parse_failure(s: Seq<char>) -> Seq<char> {
    let w = words(s);
    if w.len() != 2 {
        "Request actions have 2 parts, got "@ + decimal(w.len())
    } else {
        "Request action verb not implemented: "@ + w[0]
    }
}

impl Clone for Action {
    fn clone(&self) -> (r: Self)
        ensures
            r@ == self@,
    {
        let params = match &self.params {
            Some(p) => {
                let q = p.clone();
                assert(q.values() =~= p.values());
                Some(q)
            },
            None => None,
        };
        Action { method: Method::GET, path: self.path.clone(), params }
    }
}

impl PartialEq for Action {
    /// Two routes are the same where their paths are.
    fn eq(&self, other: &Self) -> (r: bool) {
        same_text(self.path.as_str(), other.path.as_str())
    }
}

impl Eq for Action {

}

impl PartialEqSpecImpl for Action {
    open spec fn obeys_eq_spec() -> bool {
        true
    }

    open spec fn eq_spec(&self, other: &Self) -> bool {
        self.path@ == other.path@
    }
}

impl Action {
    /// The route that `template` stands for.
    fn of_template(template: &str) -> (a: Action)
        ensures
            a@ == action_of(template@),
    {
        if !has_char(template, ':') {
            return Action { method: Method::GET, path: template.to_owned(), params: None };
        }
        let segments = split_text(template, '/');
        let ghost segs = segments.deep_view();
        assert(segs.len() >= 1);
        let mut params: StrMap<usize> = StrMap::new();
        let mut i: usize = 0;
        assert(segs.take(0) == Seq::<Seq<char>>::empty());
        while i < segments.len()
            invariant
                i <= segments.len(),
                segs == segments.deep_view(),
                params@ == template_params(segs.take(i as int)),
            decreases segments.len() - i,
        {
            let segment = segments[i].as_str();
            assert(segment@ == segs[i as int]);
            assert(segs.take(i + 1).drop_last() == segs.take(i as int));
            if has_char(segment, ':') {
                let n = segment.unicode_len();
                assert(segment@.len() >= 1) by {
                    assert(segment@.contains(':'));
                }
                let name = slice_text(segment, 1, n);
                params.insert(name, i);
            }
            i = i + 1;
        }
        assert(segs.take(i as int) == segs);

        let mut path = String::new();
        let mut k: usize = 1;
        assert(segs.subrange(1, 1) == Seq::<Seq<char>>::empty());
        while k < segments.len() && !has_char(segments[k].as_str(), ':')
            invariant
                1 <= k <= segments.len(),
                segs == segments.deep_view(),
                literal_end(segs, 1) == literal_end(segs, k as int),
                path@ == join_slash(segs.subrange(1, k as int)),
            decreases segments.len() - k,
        {
            assert(segments[k as int]@ == segs[k as int]);
            assert(segs.subrange(1, k + 1).drop_last() == segs.subrange(1, k as int));
            proof {
                reveal_strlit("/");
            }
            path.append("/");
            path.append(segments[k].as_str());
            assert(path@ =~= join_slash(segs.subrange(1, k + 1)));
            k = k + 1;
        }
        assert(literal_end(segs, k as int) == k) by {
            if k < segments.len() {
                assert(segments[k as int]@ == segs[k as int]);
            }
        }
        if path.as_str().unicode_len() == 0 {
            proof {
                reveal_strlit("/");
            }
            path.append("/");
            assert(path@ =~= seq!['/']);
        }
        Action { method: Method::GET, path, params: Some(params) }
    }

    /// Reads a route from text of the form `GET /path/with/:names`.
    ///
    /// The text must hold two words, the first of them `GET`. A template with
    /// named segments is routed under the path before the first of them.
    pub fn from_str(s: &str) -> (r: Result<Action, ServerError>)
        ensures
            match r {
                Ok(a) => parse_action(s@) == Some(a@),
                Err(e) => (e matches ServerError::ParseAction(msg) && msg@ == parse_failure(s@)
                    && parse_action(s@) is None),
            },
    {
        let parts = words_of(s);
        let ghost w = parts.deep_view();
        if parts.len() != 2 {
            let mut msg = String::from_str("Request actions have 2 parts, got ");
            msg.append(decimal_text(parts.len()).as_str());
            return Err(ServerError::ParseAction(msg));
        }
        assert(parts[0]@ == w[0]);
        assert(parts[1]@ == w[1]);
        proof {
            reveal_strlit("GET");
            assert("GET"@ =~= seq!['G', 'E', 'T']);
        }
        if !same_text(parts[0].as_str(), "GET") {
            let mut msg = String::from_str("Request action verb not implemented: ");
            msg.append(parts[0].as_str());
            return Err(ServerError::ParseAction(msg));
        }
        Ok(Action::of_template(parts[1].as_str()))
    }
}

/// What the routes of a list hold.
pub open spec fn views_of(actions: Seq<Action>) -> Seq<ActionView> {
    actions.map_values(|a: Action| a@)
}

/// The place of the first header named `name`.
pub open spec fn header_index(lines: Seq<(Seq<u8>, Seq<u8>)>, name: Seq<u8>) -> Option<int>
    decreases lines.len(),
{
    if lines.len() == 0 {
        None
    } else {
        match header_index(lines.drop_last(), name) {
            Some(i) => Some(i),
            None => if lines.last().0 == name {
                Some(lines.len() - 1)
            } else {
                None
            },
        }
    }
}

/// The value of the first header named `name`, as text. There is none where
/// no header has that name, or where the value of the first that has it is
/// not UTF-8.
pub open spec fn header_text(lines: Seq<(Seq<u8>, Seq<u8>)>, name: Seq<char>) -> Option<
    Seq<char>,
> {
    match header_index(lines, encode_utf8(name)) {
        Some(i) => if valid_utf8(lines[i].1) {
            Some(decode_utf8(lines[i].1))
        } else {
            None
        },
        None => None,
    }
}

/// The part of a request target before its first question mark.
pub open spec fn target_path(target: Seq<char>) -> Seq<char> {
    match first_index_of(target, '?') {
        Some(i) => target.take(i),
        None => target,
    }
}

/// The part of a request target after its first question mark.
pub open spec fn target_query(target: Seq<char>) -> Option<Seq<char>> {
    match first_index_of(target, '?') {
        Some(i) => Some(target.skip(i + 1)),
        None => None,
    }
}

/// The path without its last segment: what stands before its last slash. The
/// parent of a path directly under the root is the root `/`; the root and the
/// empty path have no parent.
pub open spec fn parent_path(path: Seq<char>) -> Option<Seq<char>> {
    match last_index_of(path, '/') {
        Some(i) => if i > 0 {
            Some(path.take(i))
        } else if path.len() > 1 {
            Some(seq!['/'])
        } else {
            None
        },
        None => if path.len() > 0 {
            Some(Seq::empty())
        } else {
            None
        },
    }
}

/// The place of the first route in `actions` whose path is `path`.
pub open spec fn find_action(actions: Seq<ActionView>, path: Seq<char>) -> Option<int>
    decreases actions.len(),
{
    if actions.len() == 0 {
        None
    } else {
        match find_action(actions.drop_last(), path) {
            Some(i) => Some(i),
            None => if actions.last().path == path {
                Some(actions.len() - 1)
            } else {
                None
            },
        }
    }
}

/// The route that serves `path`: the one registered under `path` itself or,
/// failing that, under the nearest of its ancestors.
pub open spec fn resolve(actions: Seq<ActionView>, path: Seq<char>) -> Option<int>
    decreases path.len(),
{
    match find_action(actions, path) {
        Some(i) => Some(i),
        None => match parent_path(path) {
            Some(parent) => if parent.len() < path.len() {
                resolve(actions, parent)
            } else {
                None
            },
            None => None,
        },
    }
}

/// The path `k` segments up from `path`: the path itself for no segments.
pub open spec fn ancestor(path: Seq<char>, k: nat) -> Option<Seq<char>>
    decreases k,
{
    if k == 0 {
        Some(path)
    } else {
        match parent_path(path) {
            Some(parent) => ancestor(parent, (k - 1) as nat),
            None => None,
        }
    }
}

/// Whether a route is registered under the path `at`, where there is one.
pub open spec fn is_registered(actions: Seq<ActionView>, at: Option<Seq<char>>) -> bool {
    at matches Some(path) && find_action(actions, path) is Some
}

/// Whether the route at place `i` is the nearest to `path`: it is registered
/// under the path `k` segments up, and nothing is registered nearer.
pub open spec fn nearest_at(actions: Seq<ActionView>, path: Seq<char>, k: nat, i: int) -> bool {
    &&& 0 <= i < actions.len()
    &&& ancestor(path, k) == Some(actions[i].path)
    &&& find_action(actions, actions[i].path) == Some(i)
    &&& forall|j: nat| j < k ==> !is_registered(actions, #[trigger] ancestor(path, j))
}

/// A request is served by the nearest route. The route that `resolve` finds
/// is registered under the path itself or under one of its ancestors, and no
/// route is registered under a path in between; where `resolve` finds none,
/// no route is registered under the path or any of its ancestors.
pub proof fn lemma_resolve_nearest(actions: Seq<ActionView>, path: Seq<char>)
    ensures
        match resolve(actions, path) {
            Some(i) => exists|k: nat| nearest_at(actions, path, k, i),
            None => forall|k: nat| !is_registered(actions, #[trigger] ancestor(path, k)),
        },
    decreases path.len(),
{
    match find_action(actions, path) {
        Some(i) => {
            lemma_find_action(actions, path);
            assert(nearest_at(actions, path, 0, i));
        },
        None => {
            lemma_parent_shorter(path);
            match parent_path(path) {
                Some(parent) => {
                    lemma_resolve_nearest(actions, parent);
                    match resolve(actions, parent) {
                        Some(i) => {
                            let k = choose|k: nat| nearest_at(actions, parent, k, i);
                            assert(ancestor(path, k + 1) == ancestor(parent, k));
                            assert forall|j: nat| j < k + 1 implies !is_registered(
                                actions,
                                #[trigger] ancestor(path, j),
                            ) by {
                                if j > 0 {
                                    assert(ancestor(path, j) == ancestor(parent, (j - 1) as nat));
                                }
                            }
                            assert(nearest_at(actions, path, k + 1, i));
                        },
                        None => {
                            assert forall|k: nat| !is_registered(
                                actions,
                                #[trigger] ancestor(path, k),
                            ) by {
                                if k > 0 {
                                    assert(ancestor(path, k) == ancestor(parent, (k - 1) as nat));
                                }
                            }
                        },
                    }
                },
                None => {
                    assert forall|k: nat| !is_registered(
                        actions,
                        #[trigger] ancestor(path, k),
                    ) by {
                        if k > 0 {
                            assert(ancestor(path, k) is None);
                        }
                    }
                },
            }
        },
    }
}

/// `find_action` finds the place of a path that is there, and none of a path that is not.
pub proof fn lemma_find_action(actions: Seq<ActionView>, path: Seq<char>)
    ensures
        match find_action(actions, path) {
            Some(i) => 0 <= i < actions.len() && actions[i].path == path && forall|j: int|
                0 <= j < i ==> actions[j].path != path,
            None => forall|j: int| 0 <= j < actions.len() ==> actions[j].path != path,
        },
    decreases actions.len(),
{
    if actions.len() > 0 {
        let front = actions.drop_last();
        lemma_find_action(front, path);
        match find_action(front, path) {
            Some(i) => {
                assert(actions[i] == front[i]);
                assert forall|j: int| 0 <= j < i implies actions[j].path != path by {
                    assert(actions[j] == front[j]);
                }
            },
            None => {
                assert forall|j: int| 0 <= j < actions.len() - 1 implies actions[j].path
                    != path by {
                    assert(actions[j] == front[j]);
                }
            },
        }
    }
}

/// A parent is shorter than its child.
pub proof fn lemma_parent_shorter(path: Seq<char>)
    ensures
        parent_path(path) matches Some(parent) ==> parent.len() < path.len(),
{
    lemma_last_index_of(path, '/');
}

/// The parameters of a request: for each named segment of the route whose
/// position the request path reaches, the segment of the path at that
/// position.
pub open spec fn path_params(params: Map<Seq<char>, usize>, segments: Seq<Seq<char>>) -> Map<
    Seq<char>,
    Seq<char>,
> {
    Map::new(
        |name: Seq<char>| params.contains_key(name) && params[name] < segments.len(),
        |name: Seq<char>| segments[params[name] as int],
    )
}

/// The parameters that a request carries: those of `path_params` where the
/// route names any and the path reaches one of them.
pub open spec fn request_params(action: ActionView, path: Seq<char>) -> Option<
    Map<Seq<char>, Seq<char>>,
> {
    match action.params {
        Some(params) => {
            let found = path_params(params, split(path, '/'));
            if found == Map::<Seq<char>, Seq<char>>::empty() {
                None
            } else {
                Some(found)
            }
        },
        None => None,
    }
}

/// What a `Request` holds.
pub struct RequestView {
    pub action: ActionView,
    pub path: Seq<char>,
    pub params: Option<Map<Seq<char>, Seq<char>>>,
    pub query: Option<Seq<char>>,
    pub stream_id: u32,
    pub headers: Seq<(Seq<u8>, Seq<u8>)>,
    pub body: Seq<u8>,
}

/// The request that a stream carries, read against the registered routes.
/// There is none where the stream has no headers, where `:method` is missing
/// or not `GET`, or where `:path` is missing.
pub open spec fn request_of(
    stream_id: u32,
    headers: Option<Seq<(Seq<u8>, Seq<u8>)>>,
    body: Seq<u8>,
    actions: Seq<ActionView>,
) -> Option<RequestView> {
    match headers {
        None => None,
        Some(lines) => {
            if header_text(lines, ":method"@) != Some(seq!['G', 'E', 'T']) {
                None
            } else {
                match header_text(lines, ":path"@) {
                    None => None,
                    Some(target) => {
                        let path = target_path(target);
                        let action = match resolve(actions, path) {
                            Some(i) => actions[i],
                            None => ActionView { path, params: None },
                        };
                        Some(
                            RequestView {
                                action,
                                path,
                                params: request_params(action, path),
                                query: target_query(target),
                                stream_id,
                                headers: lines,
                                body,
                            },
                        )
                    },
                }
            }
        },
    }
}

/// A fully received request.
pub struct Request<'a> {
    /// The route that serves the request, or a route of the request's own
    /// path where none does.
    pub action: Action,
    pub path: String,
    pub params: Option<StrMap<String>>,
    pub query: Option<String>,
    pub stream_id: u32,
    pub headers: &'a [Header],
    pub body: &'a [u8],
}

impl<'a> View for Request<'a> {
    type V = RequestView;

    open spec fn view(&self) -> RequestView {
        RequestView {
            action: self.action@,
            path: self.path@,
            params: match self.params {
                Some(p) => Some(texts(p@)),
                None => None,
            },
            query: match self.query {
                Some(q) => Some(q@),
                None => None,
            },
            stream_id: self.stream_id,
            headers: lines_of(self.headers@),
            body: self.body@,
        }
    }
}

/// The value of the first header named `name`, as text.
pub fn header_of(headers: &[Header], name: &str) -> (r: Option<String>)
    ensures
        match r {
            Some(v) => header_text(lines_of(headers@), name@) == Some(v@),
            None => header_text(lines_of(headers@), name@) is None,
        },
{
    let wanted = name.as_bytes();
    let ghost lines = lines_of(headers@);
    let mut i: usize = 0;
    assert(lines.take(0) == Seq::<(Seq<u8>, Seq<u8>)>::empty());
    while i < headers.len()
        invariant
            i <= headers.len(),
            lines == lines_of(headers@),
            wanted@ == encode_utf8(name@),
            header_index(lines.take(i as int), wanted@) is None,
        decreases headers.len() - i,
    {
        assert(lines.take(i + 1).drop_last() == lines.take(i as int));
        assert(lines[i as int] == (headers@[i as int].0@, headers@[i as int].1@));
        if same_bytes(headers[i].0.as_slice(), wanted) {
            proof {
                lemma_header_index_prefix(lines, wanted@, i + 1);
            }
            return match utf8_text(headers[i].1.as_slice()) {
                Some(text) => {
                    proof {
                        encode_utf8_decode_utf8(text@);
                    }
                    Some(text.to_owned())
                },
                None => None,
            };
        }
        i = i + 1;
    }
    assert(lines.take(i as int) == lines);
    None
}

/// What `header_index` finds among the first headers, it finds among all.
proof fn lemma_header_index_prefix(lines: Seq<(Seq<u8>, Seq<u8>)>, name: Seq<u8>, n: int)
    requires
        0 <= n <= lines.len(),
        header_index(lines.take(n), name) is Some,
    ensures
        header_index(lines, name) == header_index(lines.take(n), name),
    decreases lines.len() - n,
{
    if n < lines.len() {
        assert(lines.take(n + 1).drop_last() == lines.take(n));
        lemma_header_index_prefix(lines, name, n + 1);
    } else {
        assert(lines.take(n) == lines);
    }
}

/// What `find_action` finds among the first routes, it finds among all.
proof fn lemma_find_action_prefix(actions: Seq<ActionView>, path: Seq<char>, n: int)
    requires
        0 <= n <= actions.len(),
        find_action(actions.take(n), path) is Some,
    ensures
        find_action(actions, path) == find_action(actions.take(n), path),
    decreases actions.len() - n,
{
    if n < actions.len() {
        assert(actions.take(n + 1).drop_last() == actions.take(n));
        lemma_find_action_prefix(actions, path, n + 1);
    } else {
        assert(actions.take(n) == actions);
    }
}

/// The place of the first route in `actions` whose path is `path`.
pub fn position_of(actions: &Vec<Action>, path: &str) -> (r: Option<usize>)
    ensures
        match r {
            Some(i) => i < actions.len() && find_action(views_of(actions@), path@) == Some(
                i as int,
            ),
            None => find_action(views_of(actions@), path@) is None,
        },
{
    let ghost views = views_of(actions@);
    let mut i: usize = 0;
    assert(views.take(0) == Seq::<ActionView>::empty());
    while i < actions.len()
        invariant
            i <= actions.len(),
            views == views_of(actions@),
            find_action(views.take(i as int), path@) is None,
        decreases actions.len() - i,
    {
        assert(views.take(i + 1).drop_last() == views.take(i as int));
        assert(views[i as int] == actions@[i as int]@);
        if same_text(actions[i].path.as_str(), path) {
            proof {
                lemma_find_action_prefix(views, path@, i + 1);
            }
            return Some(i);
        }
        i = i + 1;
    }
    assert(views.take(i as int) == views);
    None
}

/// The path without its last segment.
pub fn parent_of(path: &str) -> (r: Option<String>)
    ensures
        match r {
            Some(p) => parent_path(path@) == Some(p@),
            None => parent_path(path@) is None,
        },
{
    proof {
        lemma_last_index_of(path@, '/');
    }
    match find_last(path, '/') {
        Some(i) => {
            if i > 0 {
                Some(slice_text(path, 0, i))
            } else if path.unicode_len() > 1 {
                proof {
                    reveal_strlit("/");
                    assert("/"@ =~= seq!['/']);
                }
                Some("/".to_owned())
            } else {
                None
            }
        },
        None => {
            if path.unicode_len() > 0 {
                let p = String::new();
                assert(p@ =~= Seq::<char>::empty());
                Some(p)
            } else {
                None
            }
        },
    }
}

/// The place among `actions` of the route that serves `path`.
pub fn resolve_action(actions: &Vec<Action>, path: &str) -> (r: Option<usize>)
    ensures
        match r {
            Some(i) => i < actions.len() && resolve(views_of(actions@), path@) == Some(i as int),
            None => resolve(views_of(actions@), path@) is None,
        },
{
    let ghost views = views_of(actions@);
    let mut current: String = path.to_owned();
    loop
        invariant
            views == views_of(actions@),
            resolve(views, path@) == resolve(views, current@),
        decreases current@.len(),
    {
        match position_of(actions, current.as_str()) {
            Some(i) => {
                return Some(i);
            },
            None => {},
        }
        proof {
            lemma_parent_shorter(current@);
        }
        match parent_of(current.as_str()) {
            Some(parent) => {
                current = parent;
            },
            None => {
                return None;
            },
        }
    }
}

/// The parameters that the path of a request gives the named segments of its route.
fn params_of(params: &StrMap<usize>, path: &str) -> (r: StrMap<String>)
    ensures
        texts(r@) == path_params(params@, split(path@, '/')),
{
    let segments = split_text(path, '/');
    let ghost segs = segments.deep_view();
    let mut found: StrMap<String> = StrMap::new();
    let n = params.len();
    let mut i: usize = 0;
    assert(texts(found@) =~= path_params(Map::empty(), segs));
    while i < n
        invariant
            i <= n,
            n == params.keys().len(),
            params.distinct(),
            segs == segments.deep_view(),
            forall|name: Seq<char>|
                texts(found@).contains_key(name) <==> exists|j: int|
                    0 <= j < i && #[trigger] params.keys()[j] == name && params.values()[j]
                        < segs.len(),
            forall|j: int|
                0 <= j < i && params.values()[j] < segs.len() ==> texts(found@)[
                #[trigger] params.keys()[j]] == segs[params.values()[j] as int],
        decreases n - i,
    {
        let name = params.key_at(i);
        let position = *params.value_at(i);
        let ghost before = found@;
        if position < segments.len() {
            let value = segments[position].clone();
            assert(value@ == segs[position as int]);
            found.insert(name.to_owned(), value);
            proof {
                assert(texts(found@) =~= texts(before).insert(name@, value@));
                assert forall|key: Seq<char>| texts(found@).contains_key(key) <==> exists|j: int|
                    0 <= j < i + 1 && #[trigger] params.keys()[j] == key && params.values()[j]
                        < segs.len() by {
                    if texts(found@).contains_key(key) {
                        if key == name@ {
                            assert(params.keys()[i as int] == key);
                        } else {
                            assert(texts(before).contains_key(key));
                        }
                    }
                }
            }
        } else {
            assert forall|key: Seq<char>| texts(found@).contains_key(key) <==> exists|j: int|
                0 <= j < i + 1 && #[trigger] params.keys()[j] == key && params.values()[j]
                    < segs.len() by {}
        }
        i = i + 1;
    }
    proof {
        let keys = params.keys();
        let values = params.values();
        let want = path_params(params@, segs);
        assert forall|name: Seq<char>| texts(found@).contains_key(name) <==> want.contains_key(
            name,
        ) by {
            if texts(found@).contains_key(name) {
                let j = choose|j: int|
                    0 <= j < n && #[trigger] keys[j] == name && values[j] < segs.len();
                crate::strmap::lemma_map_of_index(keys, values, j);
            }
            if want.contains_key(name) {
                assert(keys.contains(name));
                let j = keys.index_of(name);
                crate::strmap::lemma_map_of_index(keys, values, j);
            }
        }
        assert forall|name: Seq<char>| texts(found@).contains_key(name) implies texts(
            found@,
        )[name] == want[name] by {
            let j = choose|j: int|
                0 <= j < n && #[trigger] keys[j] == name && values[j] < segs.len();
            crate::strmap::lemma_map_of_index(keys, values, j);
        }
        assert(texts(found@) =~= want);
    }
    found
}

impl<'a> Request<'a> {
    /// Reads the request of a stream whose headers and body have arrived, and
    /// finds among `actions` the route that serves it.
    ///
    /// The stream must carry headers, `:method` must be `GET`, and `:path`
    /// must be there; the request is bad otherwise. The target in `:path` is
    /// parted at its first question mark into path and query.
    pub fn new(
        stream_id: u32,
        headers: Option<&'a [Header]>,
        body: &'a [u8],
        actions: &Vec<Action>,
    ) -> (r: Result<Request<'a>, ServerError>)
        ensures
            match r {
                Ok(req) => request_of(
                    stream_id,
                    match headers {
                        Some(h) => Some(lines_of(h@)),
                        None => None,
                    },
                    body@,
                    views_of(actions@),
                ) == Some(req@),
                Err(e) => e is BadRequest && request_of(
                    stream_id,
                    match headers {
                        Some(h) => Some(lines_of(h@)),
                        None => None,
                    },
                    body@,
                    views_of(actions@),
                ) is None,
            },
    {
        let headers = match headers {
            Some(h) => h,
            None => {
                return Err(ServerError::BadRequest);
            },
        };
        proof {
            reveal_strlit("GET");
            assert("GET"@ =~= seq!['G', 'E', 'T']);
        }
        match header_of(headers, ":method") {
            Some(method) => {
                if !same_text(method.as_str(), "GET") {
                    return Err(ServerError::BadRequest);
                }
            },
            None => {
                return Err(ServerError::BadRequest);
            },
        }
        let target = match header_of(headers, ":path") {
            Some(target) => target,
            None => {
                return Err(ServerError::BadRequest);
            },
        };
        proof {
            lemma_first_index_of(target@, '?');
        }
        let (path, query) = match find_first(target.as_str(), '?') {
            Some(i) => {
                let n = target.as_str().unicode_len();
                let path = slice_text(target.as_str(), 0, i);
                let query = slice_text(target.as_str(), i + 1, n);
                (path, Some(query))
            },
            None => (target.clone(), None),
        };
        let action = match resolve_action(actions, path.as_str()) {
            Some(i) => actions[i].clone(),
            None => Action { method: Method::GET, path: path.clone(), params: None },
        };
        let params = match &action.params {
            Some(p) => {
                let found = params_of(p, path.as_str());
                if found.len() > 0 {
                    assert(texts(found@).contains_key(found@.dom().choose()));
                    Some(found)
                } else {
                    assert(texts(found@) =~= Map::<Seq<char>, Seq<char>>::empty()) by {
                        assert forall|name: Seq<char>| !texts(found@).contains_key(name) by {
                            if texts(found@).contains_key(name) {
                                assert(found@.dom().contains(name));
                            }
                        }
                    }
                    None
                }
            },
            None => None,
        };
        Ok(Request { action, path, params, query, stream_id, headers, body })
    }

    /// Whether the route gave the request any parameters.
    pub fn has_params(&self) -> (r: bool)
        ensures
            r == (self@.params is Some),
    {
        self.params.is_some()
    }

    /// The parameter `name`, or the empty text where the request has none of that name.
    pub fn param(&self, name: &str) -> (r: &str)
        ensures
            r@ == match self@.params {
                Some(p) => if p.contains_key(name@) {
                    p[name@]
                } else {
                    Seq::<char>::empty()
                },
                None => Seq::<char>::empty(),
            },
    {
        proof {
            reveal_strlit("");
        }
        if let Some(params) = &self.params {
            if let Some(value) = params.get(name) {
                return value.as_str();
            }
        }
        let r = "";
        assert(r@ =~= Seq::<char>::empty());
        r
    }

    /// The value of the first header named `name`, as text; none where there
    /// is no such header or its value is not UTF-8.
    pub fn header(&self, name: &str) -> (r: Option<String>)
        ensures
            match r {
                Some(v) => header_text(self@.headers, name@) == Some(v@),
                None => header_text(self@.headers, name@) is None,
            },
    {
        header_of(self.headers, name)
    }
}

impl std::str::FromStr for Action {
    type Err = ServerError;

    /// Reads a route from text, as the function `from_str` of `Action` itself
    /// does: the text must hold two words, the first of them `GET`.
    fn from_str(s: &str) -> (r: Result<Action, ServerError>)
        ensures
            match r {
                Ok(a) => parse_action(s@) == Some(a@),
                Err(e) => (e matches ServerError::ParseAction(msg) && msg@ == parse_failure(s@)
                    && parse_action(s@) is None),
            },
    {
        Action::from_str(s)
    }
}

} // verus!
