//! The `Url` type: raw URL text and the host, port, path and searchpart
//! derived from it by a fixed sequence of splits.
//!
//! The scheme check asks whether `http://` occurs anywhere in the raw text,
//! while the strip removes it only as a leading prefix; text whose marker
//! sits later is split as it stands. Callers may rely on this asymmetry, so
//! it is kept rather than tightened.

use vstd::prelude::*;
use vstd::string::StrSliceExecFns;
use crate::text::contains_seq;
use crate::text::find_char;
use crate::text::find_char_in;
use crate::text::lemma_find_char_none;
use crate::text::matches_at;

verus! {

/// The scheme marker this parser recognises, `http://`, as characters.
pub open spec fn scheme_chars() -> Seq<char> {
    seq!['h', 't', 't', 'p', ':', '/', '/']
}

/// The default port text, `80`, used when the authority names no port.
pub open spec fn default_port_chars() -> Seq<char> {
    seq!['8', '0']
}

/// True when the raw text holds `http://` anywhere: a containment check,
/// not a prefix check.
pub open spec fn has_scheme(s: Seq<char>) -> bool {
    contains_seq(s, scheme_chars())
}

/// The raw text with one leading `http://` removed; text that does not
/// begin with the marker is left as it is.
pub open spec fn strip_scheme(s: Seq<char>) -> Seq<char> {
    if matches_at(s, scheme_chars(), 0) {
        s.subrange(scheme_chars().len() as int, s.len() as int)
    } else {
        s
    }
}

/// The authority: what stands before the first `/` of the stripped text,
/// or all of it when it holds no `/`.
pub open spec fn authority_of(s: Seq<char>) -> Seq<char> {
    let t = strip_scheme(s);
    match find_char(t, '/') {
        Some(i) => t.subrange(0, i),
        None => t,
    }
}

/// What stands after the first `/` of the stripped text, when that `/`
/// exists at all.
pub open spec fn path_and_query_of(s: Seq<char>) -> Option<Seq<char>> {
    let t = strip_scheme(s);
    match find_char(t, '/') {
        Some(i) => Some(t.subrange(i + 1, t.len() as int)),
        None => None,
    }
}

/// The host: the authority up to its first `:`, or all of it when it
/// names no port.
pub open spec fn host_of(s: Seq<char>) -> Seq<char> {
    let a = authority_of(s);
    match find_char(a, ':') {
        Some(i) => a.subrange(0, i),
        None => a,
    }
}

/// The port text: what follows the first `:` of the authority, possibly
/// empty; `80` when the authority holds no `:`. No numeric check is made.
pub open spec fn port_of(s: Seq<char>) -> Seq<char> {
    let a = authority_of(s);
    match find_char(a, ':') {
        Some(i) => a.subrange(i + 1, a.len() as int),
        None => default_port_chars(),
    }
}

/// The path: the text after the first `/` up to the first `?`; empty when
/// the stripped text holds no `/` at all.
pub open spec fn path_of(s: Seq<char>) -> Seq<char> {
    match path_and_query_of(s) {
        Some(rest) => match find_char(rest, '?') {
            Some(i) => rest.subrange(0, i),
            None => rest,
        },
        None => Seq::empty(),
    }
}

/// The searchpart: what follows the first `?` after the first `/`,
/// further `?` characters included; empty when there is no `/` or no `?`.
pub open spec fn searchpart_of(s: Seq<char>) -> Seq<char> {
    match path_and_query_of(s) {
        Some(rest) => match find_char(rest, '?') {
            Some(i) => rest.subrange(i + 1, rest.len() as int),
            None => Seq::empty(),
        },
        None => Seq::empty(),
    }
}

/// True when `http://` stands in `s` at character position `i`.
fn scheme_at(s: &str, i: usize) -> (b: bool)
    requires
        s@.len() <= usize::MAX,
        i + scheme_chars().len() <= s@.len(),
    ensures
        b == matches_at(s@, scheme_chars(), i as int),
{
    let b = s.get_char(i) == 'h' && s.get_char(i + 1) == 't' && s.get_char(i + 2) == 't'
        && s.get_char(i + 3) == 'p' && s.get_char(i + 4) == ':' && s.get_char(i + 5) == '/'
        && s.get_char(i + 6) == '/';
    proof {
        if b {
            assert forall|k: int| 0 <= k < scheme_chars().len() implies s@[i + k]
                == scheme_chars()[k] by {
                if k == 0 {
                    assert(s@[i as int] == 'h');
                } else if k == 1 {
                    assert(s@[i + 1] == 't');
                } else if k == 2 {
                    assert(s@[i + 2] == 't');
                } else if k == 3 {
                    assert(s@[i + 3] == 'p');
                } else if k == 4 {
                    assert(s@[i + 4] == ':');
                } else if k == 5 {
                    assert(s@[i + 5] == '/');
                } else {
                    assert(s@[i + 6] == '/');
                }
            }
        } else {
            if matches_at(s@, scheme_chars(), i as int) {
                assert(s@[i as int] == scheme_chars()[0]);
                assert(s@[i + 1] == scheme_chars()[1]);
                assert(s@[i + 2] == scheme_chars()[2]);
                assert(s@[i + 3] == scheme_chars()[3]);
                assert(s@[i + 4] == scheme_chars()[4]);
                assert(s@[i + 5] == scheme_chars()[5]);
                assert(s@[i + 6] == scheme_chars()[6]);
            }
        }
    }
    b
}

/// True when the text holds `http://` anywhere, scanning every position.
fn contains_scheme(s: &str) -> (b: bool)
    ensures
        b == has_scheme(s@),
{
    let n = s.unicode_len();
    if n < 7 {
        return false;
    }
    let mut i: usize = 0;
    while i <= n - 7
        invariant
            n == s@.len(),
            7 <= n,
            i <= n - 7 + 1,
            forall|k: int| 0 <= k < i ==> !matches_at(s@, scheme_chars(), k),
        decreases n - i,
    {
        if scheme_at(s, i) {
            proof {
                assert(matches_at(s@, scheme_chars(), i as int));
            }
            return true;
        }
        i += 1;
    }
    proof {
        assert forall|k: int| !matches_at(s@, scheme_chars(), k) by {
            if 0 <= k && k + scheme_chars().len() <= s@.len() {
                assert(k < i);
            }
        }
    }
    false
}

/// Removes one leading `http://` where the text begins with it; any text
/// that does not is returned unchanged.
fn strip_scheme_prefix<'a>(s: &'a str) -> (r: &'a str)
    ensures
        r@ == strip_scheme(s@),
{
    let n = s.unicode_len();
    if n >= 7 && scheme_at(s, 0) {
        s.substring_char(7, n)
    } else {
        s
    }
}

/// Strips one leading scheme marker, then splits the rest at its first
/// `/`: the authority, and the path-and-query text after that `/`, if any.
fn url_parts<'a>(full_url: &'a str) -> (r: (&'a str, Option<&'a str>))
    ensures
        r.0@ == authority_of(full_url@),
        match r.1 {
            Some(rest) => path_and_query_of(full_url@) == Some(rest@),
            None => path_and_query_of(full_url@) is None,
        },
{
    let stripped = strip_scheme_prefix(full_url);
    match find_char_in(stripped, '/') {
        Some(i) => {
            let n = stripped.unicode_len();
            let authority = stripped.substring_char(0, i);
            let rest = stripped.substring_char(i + 1, n);
            (authority, Some(rest))
        },
        None => (stripped, None),
    }
}

/// A raw URL and the host, port, path and searchpart derived from it.
pub struct Url {
    url: String,
    host: String,
    port: String,
    path: String,
    searchpart: String,
}

impl Url {
    /// The raw text this value was constructed from.
    pub closed spec fn raw_chars(self) -> Seq<char> {
        self.url@
    }

    /// The derived host text.
    pub closed spec fn host_chars(self) -> Seq<char> {
        self.host@
    }

    /// The derived port text.
    pub closed spec fn port_chars(self) -> Seq<char> {
        self.port@
    }

    /// The derived path text.
    pub closed spec fn path_chars(self) -> Seq<char> {
        self.path@
    }

    /// The derived searchpart text.
    pub closed spec fn searchpart_chars(self) -> Seq<char> {
        self.searchpart@
    }

    /// Holds the raw text verbatim; every derived field starts empty.
    pub fn new(url: String) -> (r: Url)
        ensures
            r.raw_chars() == url@,
            r.host_chars() == Seq::<char>::empty(),
            r.port_chars() == Seq::<char>::empty(),
            r.path_chars() == Seq::<char>::empty(),
            r.searchpart_chars() == Seq::<char>::empty(),
    {
        Url {
            url,
            host: String::new(),
            port: String::new(),
            path: String::new(),
            searchpart: String::new(),
        }
    }

    /// The derived host, empty until a parse succeeds.
    pub fn host(&self) -> (r: &str)
        ensures
            r@ == self.host_chars(),
    {
        self.host.as_str()
    }

    /// The derived port, empty until a parse succeeds.
    pub fn port(&self) -> (r: &str)
        ensures
            r@ == self.port_chars(),
    {
        self.port.as_str()
    }

    /// The derived path, empty until a parse succeeds.
    pub fn path(&self) -> (r: &str)
        ensures
            r@ == self.path_chars(),
    {
        self.path.as_str()
    }

    /// The derived searchpart, empty until a parse succeeds.
    pub fn searchpart(&self) -> (r: &str)
        ensures
            r@ == self.searchpart_chars(),
    {
        self.searchpart.as_str()
    }

    /// True when the raw text holds `http://` anywhere.
    fn is_http(&self) -> (b: bool)
        ensures
            b == has_scheme(self.raw_chars()),
    {
        contains_scheme(self.url.as_str())
    }

    /// The host derived from the raw text: the authority up to its first
    /// `:`, or all of it.
    fn extract_host(&self) -> (r: String)
        ensures
            r@ == host_of(self.raw_chars()),
    {
        let parts = url_parts(self.url.as_str());
        let authority = parts.0;
        match find_char_in(authority, ':') {
            Some(i) => authority.substring_char(0, i).to_owned(),
            None => authority.to_owned(),
        }
    }

    /// The port derived from the raw text: what follows the first `:` of
    /// the authority, or `80` when it holds none.
    fn extract_port(&self) -> (r: String)
        ensures
            r@ == port_of(self.raw_chars()),
    {
        let parts = url_parts(self.url.as_str());
        let authority = parts.0;
        match find_char_in(authority, ':') {
            Some(i) => {
                let n = authority.unicode_len();
                authority.substring_char(i + 1, n).to_owned()
            },
            None => {
                let r = "80".to_owned();
                proof {
                    reveal_strlit("80");
                    assert(r@ =~= default_port_chars());
                }
                r
            },
        }
    }

    /// The path derived from the raw text: the text between the first `/`
    /// and the first `?`, empty when there is no `/`.
    fn extract_path(&self) -> (r: String)
        ensures
            r@ == path_of(self.raw_chars()),
    {
        let parts = url_parts(self.url.as_str());
        match parts.1 {
            Some(rest) => match find_char_in(rest, '?') {
                Some(i) => rest.substring_char(0, i).to_owned(),
                None => rest.to_owned(),
            },
            None => String::new(),
        }
    }

    /// The searchpart derived from the raw text: what follows the first
    /// `?` after the first `/`, empty when either is missing.
    fn extract_searchpart(&self) -> (r: String)
        ensures
            r@ == searchpart_of(self.raw_chars()),
    {
        let parts = url_parts(self.url.as_str());
        match parts.1 {
            Some(rest) => match find_char_in(rest, '?') {
                Some(i) => {
                    let n = rest.unicode_len();
                    rest.substring_char(i + 1, n).to_owned()
                },
                None => String::new(),
            },
            None => String::new(),
        }
    }

    /// Checks the scheme, then fills the four derived fields from the raw
    /// text. On an unsupported scheme the fixed message is returned and
    /// nothing is touched: the fields keep their values from before the
    /// call. The raw text is never changed, so the derived fields are a
    /// function of it alone and a repeated parse yields the same values.
    pub fn parse(&mut self) -> (r: Result<&Self, String>)
        ensures
            final(self).raw_chars() == old(self).raw_chars(),
            r is Ok <==> has_scheme(old(self).raw_chars()),
            r is Ok ==> {
                &&& final(self).host_chars() == host_of(old(self).raw_chars())
                &&& final(self).port_chars() == port_of(old(self).raw_chars())
                &&& final(self).path_chars() == path_of(old(self).raw_chars())
                &&& final(self).searchpart_chars() == searchpart_of(old(self).raw_chars())
            },
            r matches Ok(u) ==> *u == *final(self),
            r is Err ==> *final(self) == *old(self),
            r matches Err(e) ==> e@ == "Only HTTP is supported."@,
    {
        if !self.is_http() {
            return Err("Only HTTP is supported.".to_owned());
        }
        self.host = self.extract_host();
        self.port = self.extract_port();
        self.path = self.extract_path();
        self.searchpart = self.extract_searchpart();
        Ok(self)
    }
}

/// A raw text that begins with `http://` and holds no `:`, `/` or `?`
/// after that prefix parses to: host = the whole remainder, port = `80`,
/// and an empty path and searchpart.
pub proof fn lemma_bare_host_url(raw: Seq<char>)
    requires
        matches_at(raw, scheme_chars(), 0),
        forall|j: int|
            scheme_chars().len() <= j < raw.len() ==> raw[j] != ':' && raw[j] != '/' && raw[j]
                != '?',
    ensures
        has_scheme(raw),
        host_of(raw) == raw.subrange(scheme_chars().len() as int, raw.len() as int),
        port_of(raw) == default_port_chars(),
        path_of(raw) == Seq::<char>::empty(),
        searchpart_of(raw) == Seq::<char>::empty(),
{
    let rem = raw.subrange(scheme_chars().len() as int, raw.len() as int);
    assert(strip_scheme(raw) == rem);
    assert forall|j: int| 0 <= j < rem.len() implies rem[j] != '/' && rem[j] != ':' by {
        assert(rem[j] == raw[j + scheme_chars().len()]);
    }
    lemma_find_char_none(rem, '/');
    lemma_find_char_none(rem, ':');
    assert(matches_at(raw, scheme_chars(), 0));
}

/// Re-parsing an unchanged raw text is idempotent. Where `once` holds the
/// fields that a successful parse of `fresh` derives, and `twice` those
/// that a second parse of `once` derives, that second parse succeeds too
/// and derives the very same field values: each field is a function of
/// the raw text alone, and the raw text never changes.
pub proof fn lemma_reparse_yields_same_fields(fresh: Url, once: Url, twice: Url)
    requires
        has_scheme(fresh.raw_chars()),
        once.raw_chars() == fresh.raw_chars(),
        once.host_chars() == host_of(fresh.raw_chars()),
        once.port_chars() == port_of(fresh.raw_chars()),
        once.path_chars() == path_of(fresh.raw_chars()),
        once.searchpart_chars() == searchpart_of(fresh.raw_chars()),
        twice.raw_chars() == once.raw_chars(),
        twice.host_chars() == host_of(once.raw_chars()),
        twice.port_chars() == port_of(once.raw_chars()),
        twice.path_chars() == path_of(once.raw_chars()),
        twice.searchpart_chars() == searchpart_of(once.raw_chars()),
    ensures
        has_scheme(once.raw_chars()),
        twice.host_chars() == once.host_chars(),
        twice.port_chars() == once.port_chars(),
        twice.path_chars() == once.path_chars(),
        twice.searchpart_chars() == once.searchpart_chars(),
{
}

} // verus!
