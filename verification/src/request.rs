//! Request-line parsing: tokenizing the line, validating the method and
//! protocol, and normalizing the target into the URI the router works on
//! (percent-decoded, query and fragment stripped, backslashes turned into
//! slashes, leading and trailing slashes trimmed).

use vstd::prelude::*;

use crate::codec::{decoded, percent_decode};
use crate::util::SLASH;

verus! {

/// The byte value of `?`.
pub const QMARK: u8 = 0x3f;

/// The byte value of `#`.
pub const HASH: u8 = 0x23;

/// The byte value of `\`.
pub const BACKSLASH: u8 = 0x5c;

/// True for the bytes that request lines treat as whitespace.
pub open spec fn is_ws(b: u8) -> bool {
    b == 0x20 || b == 0x09 || b == 0x0d || b == 0x0a
}

/// The given line with its leading whitespace removed.
pub open spec fn skip_ws(s: Seq<u8>) -> Seq<u8>
    decreases s.len(),
{
    if s.len() > 0 && is_ws(s[0]) {
        skip_ws(s.skip(1))
    } else {
        s
    }
}

/// The longest whitespace-free prefix of the given line.
pub open spec fn take_token(s: Seq<u8>) -> Seq<u8>
    decreases s.len(),
{
    if s.len() > 0 && !is_ws(s[0]) {
        seq![s[0]] + take_token(s.skip(1))
    } else {
        Seq::empty()
    }
}

proof fn lemma_skip_ws_len(s: Seq<u8>)
    ensures
        skip_ws(s).len() <= s.len(),
        skip_ws(s).len() > 0 ==> !is_ws(skip_ws(s)[0]),
    decreases s.len(),
{
    if s.len() > 0 && is_ws(s[0]) {
        lemma_skip_ws_len(s.skip(1));
    }
}

proof fn lemma_take_token_len(s: Seq<u8>)
    ensures
        take_token(s).len() <= s.len(),
    decreases s.len(),
{
    if s.len() > 0 && !is_ws(s[0]) {
        lemma_take_token_len(s.skip(1));
    }
}

/// The whitespace-separated tokens of a request line, in order.
pub open spec fn tokens(s: Seq<u8>) -> Seq<Seq<u8>>
    decreases s.len(),
    via tokens_decreases
{
    let t = skip_ws(s);
    if t.len() == 0 {
        Seq::empty()
    } else {
        seq![take_token(t)] + tokens(t.skip(take_token(t).len() as int))
    }
}

#[via_fn]
proof fn tokens_decreases(s: Seq<u8>) {
    lemma_skip_ws_len(s);
    lemma_take_token_len(skip_ws(s));
}

/// Splits a request line into its whitespace-separated tokens.
pub fn tokenize(line: &Vec<u8>) -> (r: Vec<Vec<u8>>)
    ensures
        r.deep_view() == tokens(line@),
{
    let mut toks: Vec<Vec<u8>> = Vec::new();
    let mut i: usize = 0;
    proof {
        assert(line@.skip(0) =~= line@);
        assert(toks.deep_view() =~= Seq::<Seq<u8>>::empty());
        assert(toks.deep_view() + tokens(line@) =~= tokens(line@));
    }
    while i < line.len()
        invariant
            i <= line.len(),
            tokens(line@) == toks.deep_view() + tokens(line@.skip(i as int)),
        decreases line.len() - i,
    {
        if byte_is_ws(line[i]) {
            proof {
                let t = line@.skip(i as int);
                assert(t[0] == line@[i as int]);
                assert(t.skip(1) =~= line@.skip(i as int + 1));
                assert(skip_ws(t) == skip_ws(line@.skip(i as int + 1)));
            }
            i = i + 1;
        } else {
            let ghost start: int = i as int;
            let ghost t: Seq<u8> = line@.skip(start);
            let mut tok: Vec<u8> = Vec::new();
            proof {
                assert(t[0] == line@[start]);
                assert(skip_ws(t) == t);
                assert(t.skip(0) =~= t);
                assert(tok@ + take_token(t) =~= take_token(t));
            }
            while i < line.len() && !byte_is_ws(line[i])
                invariant
                    0 <= start <= i <= line.len(),
                    t == line@.skip(start),
                    tok@.len() == i - start,
                    take_token(t) == tok@ + take_token(t.skip(i - start)),
                    t.skip(i - start) == line@.skip(i as int),
                decreases line.len() - i,
            {
                let ghost u: Seq<u8> = t.skip(i - start);
                let ghost tok0: Seq<u8> = tok@;
                proof {
                    assert(u[0] == line@[i as int]);
                    assert(u.skip(1) =~= line@.skip(i as int + 1));
                    assert(take_token(u) == seq![u[0]] + take_token(u.skip(1)));
                }
                tok.push(line[i]);
                proof {
                    assert(tok@ =~= tok0 + seq![u[0]]);
                    assert(t.skip(i as int + 1 - start) =~= u.skip(1)) by {
                        assert(t.len() == line@.len() - start);
                        assert(u.len() == t.len() - (i - start));
                        assert(u.skip(1).len() == u.len() - 1);
                        assert(t.skip(i as int + 1 - start).len() == t.len() - (i as int + 1
                            - start));
                        assert forall|j: int|
                            0 <= j < t.skip(i as int + 1 - start).len() implies t.skip(
                            i as int + 1 - start,
                        )[j] == u.skip(1)[j] by {
                            assert(t.skip(i as int + 1 - start)[j] == t[i as int + 1 - start + j]);
                            assert(u.skip(1)[j] == u[1 + j]);
                            assert(u[1 + j] == t[i - start + (1 + j)]);
                        }
                    }
                    assert(tok@ + take_token(t.skip(i as int + 1 - start)) =~= (tok0 + seq![u[0]])
                        + take_token(u.skip(1)));
                    assert((tok0 + seq![u[0]]) + take_token(u.skip(1)) =~= tok0 + (seq![u[0]]
                        + take_token(u.skip(1))));
                }
                i = i + 1;
            }
            proof {
                let u = t.skip(i - start);
                assert(take_token(u) =~= Seq::<u8>::empty()) by {
                    if u.len() > 0 {
                        assert(u[0] == line@[i as int]);
                    }
                }
                assert(take_token(t) =~= tok@);
            }
            let ghost toks0: Seq<Seq<u8>> = toks.deep_view();
            toks.push(tok);
            proof {
                assert forall|k: int| 0 <= k < toks.deep_view().len() implies toks.deep_view()[k]
                    == toks0.push(take_token(t))[k] by {}
                assert(toks.deep_view() =~= toks0.push(take_token(t)));
                assert(tokens(line@.skip(start)) == seq![take_token(t)] + tokens(
                    t.skip(take_token(t).len() as int),
                )) by {
                    lemma_skip_ws_len(t);
                }
                assert(t.skip(take_token(t).len() as int) == line@.skip(i as int));
                assert(toks0.push(take_token(t)) =~= toks0 + seq![take_token(t)]);
                assert((toks0 + seq![take_token(t)]) + tokens(line@.skip(i as int)) =~= toks0 + (
                seq![take_token(t)] + tokens(line@.skip(i as int))));
            }
        }
    }
    proof {
        assert(line@.skip(line@.len() as int) =~= Seq::<u8>::empty());
        assert(tokens(line@.skip(line@.len() as int)) =~= Seq::<Seq<u8>>::empty());
        assert(toks.deep_view() + Seq::<Seq<u8>>::empty() =~= toks.deep_view());
    }
    toks
}

/// Executable test matching `is_ws`.
fn byte_is_ws(b: u8) -> (r: bool)
    ensures
        r == is_ws(b),
{
    b == 0x20 || b == 0x09 || b == 0x0d || b == 0x0a
}

/// The prefix of a target before its first `?`, `#` or `&`: the part of
/// the target that names a path, with any query or fragment removed.
pub open spec fn query_stripped(s: Seq<u8>) -> Seq<u8>
    decreases s.len(),
{
    if s.len() == 0 {
        Seq::empty()
    } else if s[0] == QMARK || s[0] == HASH || s[0] == crate::codec::AMP {
        Seq::empty()
    } else {
        seq![s[0]] + query_stripped(s.skip(1))
    }
}

/// Removes a query string or fragment from a target.
pub fn strip_query(s: &Vec<u8>) -> (r: Vec<u8>)
    ensures
        r@ == query_stripped(s@),
{
    let mut r: Vec<u8> = Vec::new();
    let mut i: usize = 0;
    proof {
        assert(s@.skip(0) =~= s@);
        assert(r@ + query_stripped(s@) =~= query_stripped(s@));
    }
    while i < s.len()
        invariant
            i <= s.len(),
            query_stripped(s@) == r@ + query_stripped(s@.skip(i as int)),
        decreases s.len() - i,
    {
        let ghost t: Seq<u8> = s@.skip(i as int);
        let ghost r0: Seq<u8> = r@;
        proof {
            assert(t[0] == s@[i as int]);
            assert(t.skip(1) =~= s@.skip(i as int + 1));
        }
        let b = s[i];
        if b == QMARK || b == HASH || b == crate::codec::AMP {
            proof {
                assert(query_stripped(t) =~= Seq::<u8>::empty());
                assert(r@ + Seq::<u8>::empty() =~= r@);
            }
            return r;
        }
        r.push(b);
        proof {
            assert(r@ =~= r0 + seq![b]);
            assert(r@ + query_stripped(s@.skip(i as int + 1)) =~= r0 + query_stripped(t));
        }
        i = i + 1;
    }
    proof {
        assert(s@.skip(s@.len() as int) =~= Seq::<u8>::empty());
        assert(r@ + query_stripped(Seq::<u8>::empty()) =~= r@);
    }
    r
}

/// The given path with every backslash replaced by a forward slash.
pub open spec fn slashified(s: Seq<u8>) -> Seq<u8> {
    Seq::new(s.len(), |i: int| if s[i] == BACKSLASH {
        SLASH
    } else {
        s[i]
    })
}

/// Replaces backslashes with forward slashes.
pub fn slashify(s: &Vec<u8>) -> (r: Vec<u8>)
    ensures
        r@ == slashified(s@),
{
    let mut r: Vec<u8> = Vec::new();
    let mut i: usize = 0;
    while i < s.len()
        invariant
            i <= s.len(),
            r@.len() == i,
            forall|k: int| 0 <= k < i ==> r@[k] == slashified(s@)[k],
        decreases s.len() - i,
    {
        let b = s[i];
        if b == BACKSLASH {
            r.push(SLASH);
        } else {
            r.push(b);
        }
        i = i + 1;
    }
    proof {
        assert(r@ =~= slashified(s@));
    }
    r
}

/// The given path with its leading slashes removed.
pub open spec fn trim_lead(s: Seq<u8>) -> Seq<u8>
    decreases s.len(),
{
    if s.len() > 0 && s[0] == SLASH {
        trim_lead(s.skip(1))
    } else {
        s
    }
}

/// The given path with its trailing slashes removed.
pub open spec fn trim_trail(s: Seq<u8>) -> Seq<u8>
    decreases s.len(),
{
    if s.len() > 0 && s.last() == SLASH {
        trim_trail(s.drop_last())
    } else {
        s
    }
}

/// Removes leading and trailing slashes from a path.
pub fn trim_slashes(s: &Vec<u8>) -> (r: Vec<u8>)
    ensures
        r@ == trim_trail(trim_lead(s@)),
{
    let mut lo: usize = 0;
    proof {
        assert(s@.skip(0) =~= s@);
    }
    while lo < s.len() && s[lo] == SLASH
        invariant
            lo <= s.len(),
            trim_lead(s@) == trim_lead(s@.skip(lo as int)),
        decreases s.len() - lo,
    {
        proof {
            let t = s@.skip(lo as int);
            assert(t[0] == s@[lo as int]);
            assert(t.skip(1) =~= s@.skip(lo as int + 1));
        }
        lo = lo + 1;
    }
    proof {
        let t = s@.skip(lo as int);
        if t.len() > 0 {
            assert(t[0] == s@[lo as int]);
        }
        assert(trim_lead(s@) == t);
    }
    let mut hi: usize = s.len();
    while hi > lo && s[hi - 1] == SLASH
        invariant
            lo <= hi <= s.len(),
            trim_lead(s@) == s@.skip(lo as int),
            trim_trail(s@.subrange(lo as int, s@.len() as int)) == trim_trail(
                s@.subrange(lo as int, hi as int),
            ),
        decreases hi,
    {
        proof {
            let u = s@.subrange(lo as int, hi as int);
            assert(u.last() == s@[hi - 1]);
            assert(u.drop_last() =~= s@.subrange(lo as int, hi as int - 1));
        }
        hi = hi - 1;
    }
    proof {
        let u = s@.subrange(lo as int, hi as int);
        if u.len() > 0 {
            assert(u.last() == s@[hi - 1]);
        }
        assert(trim_trail(u) == u);
        assert(s@.skip(lo as int) =~= s@.subrange(lo as int, s@.len() as int));
    }
    let mut r: Vec<u8> = Vec::new();
    let mut k: usize = lo;
    while k < hi
        invariant
            lo <= k <= hi <= s.len(),
            r@ =~= s@.subrange(lo as int, k as int),
        decreases hi - k,
    {
        r.push(s[k]);
        proof {
            assert(r@ =~= s@.subrange(lo as int, k as int + 1));
        }
        k = k + 1;
    }
    r
}

/// The decoded, query-stripped, slash-normalized form of a request
/// target, before slash trimming.
pub open spec fn norm_path(target: Seq<u8>) -> Seq<u8> {
    slashified(query_stripped(decoded(target)))
}

/// The normalized URI of a request target: `norm_path` with leading and
/// trailing slashes trimmed. Empty means the server root.
pub open spec fn norm_uri(target: Seq<u8>) -> Seq<u8> {
    trim_trail(trim_lead(norm_path(target)))
}

/// Whether a request target named a directory: its normalized path ends
/// in a slash.
pub open spec fn norm_trailing(target: Seq<u8>) -> bool {
    norm_path(target).len() > 0 && norm_path(target).last() == SLASH
}

/// The bytes of the one supported method, `GET`.
pub open spec fn get_method() -> Seq<u8> {
    seq![0x47u8, 0x45u8, 0x54u8]
}

/// True when a protocol token starts with `HTTP/`.
pub open spec fn protocol_ok(t: Seq<u8>) -> bool {
    t.len() >= 5 && t[0] == 0x48 && t[1] == 0x54 && t[2] == 0x54 && t[3] == 0x50 && t[4] == SLASH
}

/// Why a request line was rejected.
#[derive(Clone, Copy, PartialEq, Eq, Structural, Debug)]
pub enum RequestError {
    /// The line did not have exactly three tokens, or the protocol token
    /// did not start with `HTTP/`.
    MalformedRequest,
    /// The method was not `GET`.
    UnsupportedMethod,
}

/// The abstract value of a parsed request.
pub ghost struct RequestView {
    /// The normalized URI, without leading or trailing slashes.
    pub uri: Seq<u8>,
    /// Whether the target named a directory by ending in a slash.
    pub trailing_slash: bool,
    /// Whether the request came from a loopback address.
    pub local: bool,
}

/// A parsed HTTP GET request.
pub struct Request {
    uri: Vec<u8>,
    trailing_slash: bool,
    local: bool,
}

impl View for Request {
    type V = RequestView;

    closed spec fn view(&self) -> RequestView {
        RequestView { uri: self.uri@, trailing_slash: self.trailing_slash, local: self.local }
    }
}

impl Request {
    /// Builds a request directly from its parts.
    pub fn new(uri: Vec<u8>, trailing_slash: bool, local: bool) -> (r: Request)
        ensures
            r@ == (RequestView { uri: uri@, trailing_slash, local }),
    {
        Request { uri, trailing_slash, local }
    }

    /// Returns the request's normalized URI.
    pub fn uri(&self) -> (r: &Vec<u8>)
        ensures
            r@ == self@.uri,
    {
        &self.uri
    }

    /// Returns whether the target named a directory.
    pub fn trailing_slash(&self) -> (r: bool)
        ensures
            r == self@.trailing_slash,
    {
        self.trailing_slash
    }

    /// Returns whether the request was sent from the host machine.
    pub fn is_local(&self) -> (r: bool)
        ensures
            r == self@.local,
    {
        self.local
    }

    /// Parses the first line received on a connection into a request.
    /// The line must hold exactly three whitespace-separated tokens, a
    /// `GET` method and an `HTTP/`-prefixed protocol; the target is then
    /// decoded and normalized.
    pub fn parse(line: &Vec<u8>, local: bool) -> (r: Result<Request, RequestError>)
        ensures
            match r {
                Ok(req) => {
                    &&& tokens(line@).len() == 3
                    &&& tokens(line@)[0] == get_method()
                    &&& protocol_ok(tokens(line@)[2])
                    &&& req@.uri == norm_uri(tokens(line@)[1])
                    &&& req@.trailing_slash == norm_trailing(tokens(line@)[1])
                    &&& req@.local == local
                },
                Err(RequestError::MalformedRequest) => tokens(line@).len() != 3 || (tokens(
                    line@,
                )[0] == get_method() && !protocol_ok(tokens(line@)[2])),
                Err(RequestError::UnsupportedMethod) => tokens(line@).len() == 3 && tokens(
                    line@,
                )[0] != get_method(),
            },
    {
        let toks = tokenize(line);
        proof {
            assert forall|k: int| 0 <= k < toks@.len() implies #[trigger] toks.deep_view()[k]
                == toks@[k]@ by {}
        }
        if toks.len() != 3 {
            return Err(RequestError::MalformedRequest);
        }
        if !token_is_get(&toks[0]) {
            return Err(RequestError::UnsupportedMethod);
        }
        if !token_protocol_ok(&toks[2]) {
            return Err(RequestError::MalformedRequest);
        }
        let decoded_target = percent_decode(&toks[1]);
        let stripped = strip_query(&decoded_target);
        let path = slashify(&stripped);
        let trailing_slash = path.len() > 0 && path[path.len() - 1] == SLASH;
        let uri = trim_slashes(&path);
        proof {
            assert(path@.last() == path@[path@.len() - 1]);
        }
        Ok(Request { uri, trailing_slash, local })
    }
}

/// Executable test for a token equalling `GET`.
fn token_is_get(t: &Vec<u8>) -> (r: bool)
    ensures
        r == (t@ == get_method()),
{
    if t.len() == 3 && t[0] == 0x47 && t[1] == 0x45 && t[2] == 0x54 {
        proof {
            assert(t@ =~= get_method());
        }
        true
    } else {
        proof {
            if t@ == get_method() {
                assert(t@.len() == 3 && t@[0] == 0x47 && t@[1] == 0x45 && t@[2] == 0x54);
            }
        }
        false
    }
}

/// Executable test matching `protocol_ok`.
fn token_protocol_ok(t: &Vec<u8>) -> (r: bool)
    ensures
        r == protocol_ok(t@),
{
    t.len() >= 5 && t[0] == 0x48 && t[1] == 0x54 && t[2] == 0x54 && t[3] == 0x50 && t[4] == SLASH
}

} // verus!
