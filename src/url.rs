//! Splitting an `http://` URL into host, port, path and search part.

use vstd::prelude::*;
use crate::text::{chars_of, find_char, first_index, string_from, string_of_range};

verus! {

/// The scheme marker `http://`.
pub open spec fn http_marker() -> Seq<char> {
    seq!['h', 't', 't', 'p', ':', '/', '/']
}

/// `s` holds the scheme marker starting at position `i`.
pub open spec fn marker_at(s: Seq<char>, i: int) -> bool {
    0 <= i && i + 7 <= s.len() && s.subrange(i, i + 7) == http_marker()
}

/// `s` holds the scheme marker somewhere (not necessarily at the start).
pub open spec fn has_http_marker(s: Seq<char>) -> bool {
    exists|i: int| marker_at(s, i)
}

/// `s` without one leading `http://`, if it starts with one.
pub open spec fn strip_marker(s: Seq<char>) -> Seq<char> {
    if marker_at(s, 0) {
        s.skip(7)
    } else {
        s
    }
}

/// What precedes the first `/` after the scheme.
pub open spec fn spec_authority(s: Seq<char>) -> Seq<char> {
    let r = strip_marker(s);
    r.take(first_index(r, '/'))
}

/// What follows the first `/` after the scheme, if there is such a `/`.
pub open spec fn spec_path_and_query(s: Seq<char>) -> Option<Seq<char>> {
    let r = strip_marker(s);
    let i = first_index(r, '/');
    if i < r.len() {
        Some(r.skip(i + 1))
    } else {
        None
    }
}

/// The host: the authority up to its first `:`.
pub open spec fn spec_host(s: Seq<char>) -> Seq<char> {
    let a = spec_authority(s);
    a.take(first_index(a, ':'))
}

/// The port: the authority after its first `:`, else `80`.
pub open spec fn spec_port(s: Seq<char>) -> Seq<char> {
    let a = spec_authority(s);
    let i = first_index(a, ':');
    if i < a.len() {
        a.skip(i + 1)
    } else {
        seq!['8', '0']
    }
}

/// The path: what follows the first `/` up to the first `?`, else empty.
pub open spec fn spec_path(s: Seq<char>) -> Seq<char> {
    match spec_path_and_query(s) {
        Some(p) => p.take(first_index(p, '?')),
        None => Seq::empty(),
    }
}

/// The search part: what follows the first `?` after the first `/`, else empty.
pub open spec fn spec_searchpart(s: Seq<char>) -> Seq<char> {
    match spec_path_and_query(s) {
        Some(p) => {
            let i = first_index(p, '?');
            if i < p.len() {
                p.skip(i + 1)
            } else {
                Seq::empty()
            }
        },
        None => Seq::empty(),
    }
}

/// The error text for a URL without `http://`.
pub open spec fn scheme_error() -> Seq<char> {
    "Only HTTP scheme is supported."@
}

/// A URL string and, once parsed, its four parts.
#[derive(Debug, Clone, PartialEq)]
pub struct Url {
    pub url: String,
    pub host: String,
    pub port: String,
    pub path: String,
    pub searchpart: String,
}

/// Index one past the end of the scheme prefix (0 when there is none), and the
/// end of the authority.
fn authority_bounds(v: &Vec<char>) -> (r: (usize, usize))
    ensures
        strip_marker(v@) == v@.skip(r.0 as int),
        r.0 <= r.1 <= v@.len(),
        r.1 - r.0 == first_index(strip_marker(v@), '/'),
{
    let start: usize = if starts_with_marker(v) { 7 } else { 0 };
    let end = find_char(v, '/', start, v.len());
    proof {
        assert(v@.subrange(start as int, v@.len() as int) =~= v@.skip(start as int));
    }
    (start, end)
}

/// Whether `v` starts with `http://`.
fn starts_with_marker(v: &Vec<char>) -> (r: bool)
    ensures
        r == marker_at(v@, 0),
{
    marker_at_pos(v, 0)
}

/// Whether `v` holds `http://` at position `i`.
fn marker_at_pos(v: &Vec<char>, i: usize) -> (r: bool)
    requires
        i <= v@.len(),
    ensures
        r == marker_at(v@, i as int),
{
    if v.len() - i < 7 {
        return false;
    }
    let r = v[i] == 'h' && v[i + 1] == 't' && v[i + 2] == 't' && v[i + 3] == 'p' && v[i + 4]
        == ':' && v[i + 5] == '/' && v[i + 6] == '/';
    proof {
        if r {
            assert(v@.subrange(i as int, i + 7) =~= http_marker());
        } else {
            if marker_at(v@, i as int) {
                let m = v@.subrange(i as int, i + 7);
                assert(m[0] == 'h' && m[1] == 't' && m[2] == 't' && m[3] == 'p');
                assert(m[4] == ':' && m[5] == '/' && m[6] == '/');
            }
        }
    }
    r
}

impl Url {
    pub fn new(url: String) -> (r: Self)
        ensures
            r.url@ == url@,
            r.host@ == Seq::<char>::empty(),
            r.port@ == Seq::<char>::empty(),
            r.path@ == Seq::<char>::empty(),
            r.searchpart@ == Seq::<char>::empty(),
    {
        Url {
            url,
            host: String::new(),
            port: String::new(),
            path: String::new(),
            searchpart: String::new(),
        }
    }

    /// Fills in the four parts from the URL string and returns a copy of the
    /// record, or fails when the string holds no `http://`.
    pub fn parse(&mut self) -> (r: Result<Url, String>)
        ensures
            has_http_marker(old(self).url@) <==> r is Ok,
            r is Err ==> r->Err_0@ == scheme_error() && *final(self) == *old(self),
            r is Ok ==> {
                let u = r->Ok_0;
                let s = old(self).url@;
                &&& u.url@ == s
                &&& u.host@ == spec_host(s)
                &&& u.port@ == spec_port(s)
                &&& u.path@ == spec_path(s)
                &&& u.searchpart@ == spec_searchpart(s)
                &&& final(self).url@ == s
                &&& final(self).host@ == u.host@
                &&& final(self).port@ == u.port@
                &&& final(self).path@ == u.path@
                &&& final(self).searchpart@ == u.searchpart@
            },
    {
        if !self.is_http() {
            proof {
                reveal_strlit("Only HTTP scheme is supported.");
            }
            return Err(string_from("Only HTTP scheme is supported."));
        }
        self.host = self.extract_host();
        self.port = self.extract_port();
        self.path = self.extract_path();
        self.searchpart = self.extract_searchpart();
        Ok(
            Url {
                url: self.url.clone(),
                host: self.host.clone(),
                port: self.port.clone(),
                path: self.path.clone(),
                searchpart: self.searchpart.clone(),
            },
        )
    }

    fn is_http(&self) -> (r: bool)
        ensures
            r == has_http_marker(self.url@),
    {
        let v = chars_of(&self.url);
        let mut i: usize = 0;
        while i < v.len()
            invariant
                v@ == self.url@,
                i <= v@.len(),
                forall|j: int| 0 <= j < i ==> !marker_at(v@, j),
            decreases v.len() - i,
        {
            if marker_at_pos(&v, i) {
                return true;
            }
            i = i + 1;
        }
        proof {
            assert forall|j: int| !marker_at(v@, j) by {
                if marker_at(v@, j) {
                    assert(j < i);
                }
            }
        }
        false
    }

    fn extract_host(&self) -> (r: String)
        ensures
            r@ == spec_host(self.url@),
    {
        let v = chars_of(&self.url);
        let (start, end) = authority_bounds(&v);
        let colon = find_char(&v, ':', start, end);
        proof {
            assert(v@.subrange(start as int, end as int) =~= spec_authority(v@));
            assert(v@.subrange(start as int, colon as int) =~= spec_host(v@));
        }
        string_of_range(&v, start, colon)
    }

    fn extract_port(&self) -> (r: String)
        ensures
            r@ == spec_port(self.url@),
    {
        let v = chars_of(&self.url);
        let (start, end) = authority_bounds(&v);
        let colon = find_char(&v, ':', start, end);
        proof {
            assert(v@.subrange(start as int, end as int) =~= spec_authority(v@));
        }
        if colon < end {
            proof {
                assert(v@.subrange(colon + 1, end as int) =~= spec_port(v@));
            }
            string_of_range(&v, colon + 1, end)
        } else {
            proof {
                reveal_strlit("80");
                assert("80"@ =~= spec_port(v@));
            }
            string_from("80")
        }
    }

    fn extract_path(&self) -> (r: String)
        ensures
            r@ == spec_path(self.url@),
    {
        let v = chars_of(&self.url);
        let (_, end) = authority_bounds(&v);
        if end == v.len() {
            return String::new();
        }
        let question = find_char(&v, '?', end + 1, v.len());
        proof {
            assert(v@.subrange(end + 1, v@.len() as int) =~= spec_path_and_query(v@)->Some_0);
            assert(v@.subrange(end + 1, question as int) =~= spec_path(v@));
        }
        string_of_range(&v, end + 1, question)
    }

    fn extract_searchpart(&self) -> (r: String)
        ensures
            r@ == spec_searchpart(self.url@),
    {
        let v = chars_of(&self.url);
        let (_, end) = authority_bounds(&v);
        if end == v.len() {
            return String::new();
        }
        let question = find_char(&v, '?', end + 1, v.len());
        proof {
            assert(v@.subrange(end + 1, v@.len() as int) =~= spec_path_and_query(v@)->Some_0);
        }
        if question == v.len() {
            return String::new();
        }
        proof {
            assert(v@.subrange(question + 1, v@.len() as int) =~= spec_searchpart(v@));
        }
        string_of_range(&v, question + 1, v.len())
    }

    pub fn host(&self) -> (r: String)
        ensures
            r@ == self.host@,
    {
        self.host.clone()
    }

    pub fn port(&self) -> (r: String)
        ensures
            r@ == self.port@,
    {
        self.port.clone()
    }

    pub fn path(&self) -> (r: String)
        ensures
            r@ == self.path@,
    {
        self.path.clone()
    }

    pub fn searchpart(&self) -> (r: String)
        ensures
            r@ == self.searchpart@,
    {
        self.searchpart.clone()
    }
}

} // verus!
