//! The response that a handler builds for one stream.

use crate::strmap::{lemma_map_of_index, StrMap};
use vstd::prelude::*;
use vstd::slice::slice_to_vec;
use vstd::utf8::encode_utf8;

verus! {

/// A header as it goes over the wire: a name and a value, both bytes.
pub type Header = (Vec<u8>, Vec<u8>);

/// The headers as pairs of byte sequences.
pub open spec fn lines_of(headers: Seq<Header>) -> Seq<(Seq<u8>, Seq<u8>)> {
    headers.map_values(|h: Header| (h.0@, h.1@))
}

/// What a `WireResponse` holds.
pub struct WireView {
    pub stream_id: u32,
    pub headers: Seq<(Seq<u8>, Seq<u8>)>,
    pub body: Seq<u8>,
}

/// A response as the protocol engine takes it: the stream, the headers as
/// bytes in the order in which they are sent, and the body.
pub struct WireResponse {
    pub stream_id: u32,
    pub headers: Vec<Header>,
    pub body: Vec<u8>,
}

impl View for WireResponse {
    type V = WireView;

    open spec fn view(&self) -> WireView {
        WireView { stream_id: self.stream_id, headers: lines_of(self.headers@), body: self.body@ }
    }
}

impl Clone for WireResponse {
    fn clone(&self) -> (r: Self)
        ensures
            r@ == self@,
    {
        let mut headers: Vec<Header> = Vec::new();
        let mut i: usize = 0;
        while i < self.headers.len()
            invariant
                i <= self.headers.len(),
                headers@.len() == i,
                forall|j: int|
                    0 <= j < i ==> (#[trigger] headers@[j]).0@ == self.headers@[j].0@
                        && headers@[j].1@ == self.headers@[j].1@,
            decreases self.headers.len() - i,
        {
            let name = slice_to_vec(self.headers[i].0.as_slice());
            let value = slice_to_vec(self.headers[i].1.as_slice());
            headers.push((name, value));
            i = i + 1;
        }
        assert(lines_of(headers@) =~= lines_of(self.headers@));
        WireResponse {
            stream_id: self.stream_id,
            headers,
            body: slice_to_vec(self.body.as_slice()),
        }
    }
}

/// Whether a header name is that of a pseudo-header: it is where it begins
/// with a colon.
pub open spec fn is_pseudo(name: Seq<char>) -> bool {
    name.len() > 0 && name[0] == ':'
}

/// The texts that a map holds under its keys.
pub open spec fn texts(m: Map<Seq<char>, String>) -> Map<Seq<char>, Seq<char>> {
    m.map_values(|s: String| s@)
}

/// What a `Response` holds.
pub struct ResponseView {
    pub stream_id: u32,
    pub pseudo_headers: Map<Seq<char>, Seq<char>>,
    pub headers: Map<Seq<char>, Seq<char>>,
    pub body: Seq<u8>,
}

impl ResponseView {
    /// The response with the header `name` set to `value`.
    pub open spec fn with_header(self, name: Seq<char>, value: Seq<char>) -> ResponseView {
        if is_pseudo(name) {
            ResponseView { pseudo_headers: self.pseudo_headers.insert(name, value), ..self }
        } else {
            ResponseView { headers: self.headers.insert(name, value), ..self }
        }
    }

    /// The response with `body` for its body.
    pub open spec fn with_body(self, body: Seq<u8>) -> ResponseView {
        ResponseView { body, ..self }
    }

    /// The response bound to the stream `id`.
    pub open spec fn with_stream_id(self, id: u32) -> ResponseView {
        ResponseView { stream_id: id, ..self }
    }

    /// What stands under the header `name`, pseudo or regular.
    pub open spec fn header(self, name: Seq<char>) -> Option<Seq<char>> {
        if is_pseudo(name) {
            if self.pseudo_headers.contains_key(name) {
                Some(self.pseudo_headers[name])
            } else {
                None
            }
        } else {
            if self.headers.contains_key(name) {
                Some(self.headers[name])
            } else {
                None
            }
        }
    }
}

/// The response that every handler starts from: status 200, the server's
/// name, no body.
pub open spec fn fresh_response(id: u32) -> ResponseView {
    ResponseView {
        stream_id: id,
        pseudo_headers: Map::empty().insert(":status"@, "200"@),
        headers: Map::empty().insert("server"@, "zws"@),
        body: Seq::empty(),
    }
}

/// A response: the stream it answers, its pseudo-headers (status), its regular
/// headers and its body.
pub struct Response {
    stream_id: u32,
    pseudo_headers: StrMap<String>,
    headers: StrMap<String>,
    body: Vec<u8>,
}

impl View for Response {
    type V = ResponseView;

    closed spec fn view(&self) -> ResponseView {
        ResponseView {
            stream_id: self.stream_id,
            pseudo_headers: texts(self.pseudo_headers@),
            headers: texts(self.headers@),
            body: self.body@,
        }
    }
}

/// Inserting a text and reading all texts is inserting among the texts.
proof fn lemma_texts_insert(m: Map<Seq<char>, String>, k: Seq<char>, v: String)
    ensures
        texts(m.insert(k, v)) == texts(m).insert(k, v@),
{
    assert(texts(m.insert(k, v)) =~= texts(m).insert(k, v@));
}

impl Clone for Response {
    fn clone(&self) -> (r: Self)
        ensures
            r@ == self@,
            r.pseudo_names() == self.pseudo_names(),
            r.regular_names() == self.regular_names(),
    {
        proof {
            use_type_invariant(self);
        }
        let pseudo_headers = self.pseudo_headers.clone();
        let headers = self.headers.clone();
        let n = self.pseudo_headers.len();
        let m = self.headers.len();
        assert(pseudo_headers.values() =~= self.pseudo_headers.values());
        assert(headers.values() =~= self.headers.values());
        Response { stream_id: self.stream_id, pseudo_headers, headers, body: self.body.clone() }
    }
}

impl Response {
    /// The names of the pseudo-headers, in the order in which they were first set.
    pub closed spec fn pseudo_names(&self) -> Seq<Seq<char>> {
        self.pseudo_headers.keys()
    }

    /// The names of the regular headers, in the order in which they were first set.
    pub closed spec fn regular_names(&self) -> Seq<Seq<char>> {
        self.headers.keys()
    }

    /// The names of the headers in the order in which they are sent: the
    /// pseudo-headers first.
    pub open spec fn names(&self) -> Seq<Seq<char>> {
        self.pseudo_names() + self.regular_names()
    }

    #[verifier::type_invariant]
    spec fn inv(&self) -> bool {
        &&& forall|k: Seq<char>| self.pseudo_headers@.contains_key(k) ==> is_pseudo(k)
        &&& forall|k: Seq<char>| self.headers@.contains_key(k) ==> !is_pseudo(k)
    }

    /// A response for the stream `id` with status 200 and no body.
    pub fn new(id: u32) -> (r: Response)
        ensures
            r@ == fresh_response(id),
            r.pseudo_names() == seq![":status"@],
            r.regular_names() == seq!["server"@],
    {
        let mut pseudo_headers: StrMap<String> = StrMap::new();
        let mut headers: StrMap<String> = StrMap::new();
        let status = ":status".to_owned();
        let ok = "200".to_owned();
        let server = "server".to_owned();
        let zws = "zws".to_owned();
        proof {
            reveal_strlit(":status");
            reveal_strlit("server");
            lemma_texts_insert(pseudo_headers@, status@, ok);
            lemma_texts_insert(headers@, server@, zws);
            assert(texts(Map::<Seq<char>, String>::empty()) =~= Map::<
                Seq<char>,
                Seq<char>,
            >::empty());
        }
        pseudo_headers.insert(status, ok);
        headers.insert(server, zws);
        let r = Response { stream_id: id, pseudo_headers, headers, body: Vec::new() };
        assert(r.pseudo_names() =~= seq![":status"@]);
        assert(r.regular_names() =~= seq!["server"@]);
        r
    }

    /// Binds the response to the stream `id`.
    pub fn stream_id(&mut self, id: u32)
        ensures
            final(self)@ == old(self)@.with_stream_id(id),
            final(self).pseudo_names() == old(self).pseudo_names(),
            final(self).regular_names() == old(self).regular_names(),
    {
        proof {
            use_type_invariant(&*self);
        }
        self.stream_id = id;
    }

    /// Sets the header `key` to `value`. A key that begins with a colon is a
    /// pseudo-header. A name that is new goes to the end of its group.
    pub fn add_header(&mut self, key: &str, value: &str)
        ensures
            final(self)@ == old(self)@.with_header(key@, value@),
            final(self).pseudo_names() == if is_pseudo(key@) && old(self)@.header(key@) is None {
                old(self).pseudo_names().push(key@)
            } else {
                old(self).pseudo_names()
            },
            final(self).regular_names() == if !is_pseudo(key@) && old(self)@.header(key@)
                is None {
                old(self).regular_names().push(key@)
            } else {
                old(self).regular_names()
            },
    {
        proof {
            use_type_invariant(&*self);
        }
        let cs = key.unicode_len();
        let pseudo = cs > 0 && key.get_char(0) == ':';
        let k = key.to_owned();
        let v = value.to_owned();
        if pseudo {
            proof {
                lemma_texts_insert(self.pseudo_headers@, k@, v);
            }
            let mut m: StrMap<String> = StrMap::new();
            core::mem::swap(&mut self.pseudo_headers, &mut m);
            m.insert(k, v);
            core::mem::swap(&mut self.pseudo_headers, &mut m);
        } else {
            proof {
                lemma_texts_insert(self.headers@, k@, v);
            }
            let mut m: StrMap<String> = StrMap::new();
            core::mem::swap(&mut self.headers, &mut m);
            m.insert(k, v);
            core::mem::swap(&mut self.headers, &mut m);
        }
    }

    /// The response as the protocol engine takes it, with the headers in the
    /// order of `names()`.
    pub fn into_wire(self) -> (r: WireResponse)
        ensures
            r@.stream_id == self@.stream_id,
            r@.body == self@.body,
            r@.headers.len() == self.names().len(),
            forall|i: int|
                0 <= i < self.names().len() ==> {
                    &&& (#[trigger] r@.headers[i]).0 == encode_utf8(self.names()[i])
                    &&& self@.header(self.names()[i]) is Some
                    &&& r@.headers[i].1 == encode_utf8(self@.header(self.names()[i])->0)
                },
            self.names().no_duplicates(),
            forall|name: Seq<char>| self@.header(name) is Some ==> self.names().contains(name),
            forall|i: int, j: int|
                0 <= i < j < self.names().len() && is_pseudo(self.names()[j]) ==> is_pseudo(
                    self.names()[i],
                ),
    {
        proof {
            use_type_invariant(&self);
        }
        let mut lines: Vec<Header> = Vec::new();
        let n = self.pseudo_headers.len();
        let m = self.headers.len();
        let mut i: usize = 0;
        while i < n
            invariant
                i <= n,
                n == self.pseudo_headers.keys().len(),
                self.pseudo_headers.distinct(),
                lines@.len() == i,
                forall|j: int|
                    0 <= j < i ==> {
                        &&& (#[trigger] lines@[j]).0@ == encode_utf8(self.pseudo_headers.keys()[j])
                        &&& lines@[j].1@ == encode_utf8(self.pseudo_headers.values()[j]@)
                    },
            decreases n - i,
        {
            let name = self.pseudo_headers.key_at(i).as_bytes_vec();
            let value = self.pseudo_headers.value_at(i).as_str().as_bytes_vec();
            lines.push((name, value));
            i = i + 1;
        }
        let mut k: usize = 0;
        while k < m
            invariant
                k <= m,
                n == self.pseudo_headers.keys().len(),
                m == self.headers.keys().len(),
                self.headers.distinct(),
                lines@.len() == n + k,
                forall|j: int|
                    0 <= j < n ==> {
                        &&& (#[trigger] lines@[j]).0@ == encode_utf8(self.pseudo_headers.keys()[j])
                        &&& lines@[j].1@ == encode_utf8(self.pseudo_headers.values()[j]@)
                    },
                forall|j: int|
                    0 <= j < k ==> {
                        &&& (#[trigger] lines@[n + j]).0@ == encode_utf8(self.headers.keys()[j])
                        &&& lines@[n + j].1@ == encode_utf8(self.headers.values()[j]@)
                    },
            decreases m - k,
        {
            let name = self.headers.key_at(k).as_bytes_vec();
            let value = self.headers.value_at(k).as_str().as_bytes_vec();
            lines.push((name, value));
            k = k + 1;
        }
        proof {
            let pk = self.pseudo_headers.keys();
            let pv = self.pseudo_headers.values();
            let hk = self.headers.keys();
            let hv = self.headers.values();
            let names = self.names();
            assert forall|j: int| 0 <= j < pk.len() implies self.pseudo_headers@.contains_key(
                #[trigger] pk[j],
            ) && self.pseudo_headers@[pk[j]] == pv[j] by {
                lemma_map_of_index(pk, pv, j);
            }
            assert forall|j: int| 0 <= j < hk.len() implies self.headers@.contains_key(
                #[trigger] hk[j],
            ) && self.headers@[hk[j]] == hv[j] by {
                lemma_map_of_index(hk, hv, j);
            }
            assert forall|a: int, b: int| 0 <= a < names.len() && 0 <= b < names.len() && a
                != b implies names[a] != names[b] by {
                if a < n && b >= n {
                    assert(is_pseudo(pk[a]) && !is_pseudo(hk[b - n]));
                } else if a >= n && b < n {
                    assert(is_pseudo(pk[b]) && !is_pseudo(hk[a - n]));
                }
            }
            assert forall|name: Seq<char>| self@.header(name) is Some implies names.contains(
                name,
            ) by {
                if is_pseudo(name) {
                    assert(pk.contains(name));
                    let j = pk.index_of(name);
                    assert(names[j] == name);
                } else {
                    assert(hk.contains(name));
                    let j = hk.index_of(name);
                    assert(names[n + j] == name);
                }
            }
            assert forall|a: int| 0 <= a < names.len() implies {
                &&& (#[trigger] lines@[a]).0@ == encode_utf8(names[a])
                &&& self@.header(names[a]) is Some
                &&& lines@[a].1@ == encode_utf8(self@.header(names[a])->0)
            } by {
                if a < n {
                    assert(is_pseudo(pk[a]));
                } else {
                    assert(!is_pseudo(hk[a - n]));
                    assert(lines@[n + (a - n)].0@ == encode_utf8(hk[a - n]));
                }
            }
            assert forall|a: int, b: int| 0 <= a < b < names.len() && is_pseudo(
                names[b],
            ) implies is_pseudo(names[a]) by {
                if b >= n {
                    assert(!is_pseudo(hk[b - n]));
                }
                assert(is_pseudo(pk[a]));
            }
        }
        assert forall|a: int| 0 <= a < self.names().len() implies {
            &&& (#[trigger] lines_of(lines@)[a]).0 == encode_utf8(self.names()[a])
            &&& lines_of(lines@)[a].1 == encode_utf8(self@.header(self.names()[a])->0)
        } by {
            assert(lines_of(lines@)[a] == (lines@[a].0@, lines@[a].1@));
        }
        WireResponse { stream_id: self.stream_id, headers: lines, body: self.body }
    }

    /// Sets the body to the given bytes.
    pub fn set_body(&mut self, b: Vec<u8>)
        ensures
            final(self)@ == old(self)@.with_body(b@),
            final(self).pseudo_names() == old(self).pseudo_names(),
            final(self).regular_names() == old(self).regular_names(),
    {
        proof {
            use_type_invariant(&*self);
        }
        self.body = b;
    }

    /// Sets the body to the bytes of `text`.
    pub fn set_body_text(&mut self, text: &str)
        ensures
            final(self)@ == old(self)@.with_body(encode_utf8(text@)),
            final(self).pseudo_names() == old(self).pseudo_names(),
            final(self).regular_names() == old(self).regular_names(),
    {
        proof {
            use_type_invariant(&*self);
        }
        self.body = text.as_bytes_vec();
    }
}

} // verus!
