//! The verification endpoint's request line, `GET /verify/{username}/{key}
//! HTTP/1.1`, and its three-outcome response.

use vstd::prelude::*;
use vstd::slice::slice_subrange;
use vstd::utf8::{decode_utf8, valid_utf8};

verus! {

pub const NEWLINE: u8 = 10;

pub const SPACE: u8 = 32;

pub const SLASH: u8 = 47;

/// The first index at or after `from` that holds `sep`, or the length of
/// `s` when there is none.
pub open spec fn find_from(s: Seq<u8>, from: int, sep: u8) -> int
    decreases s.len() - from,
{
    if from >= s.len() {
        s.len() as int
    } else if s[from] == sep {
        from
    } else {
        find_from(s, from + 1, sep)
    }
}

/// The bytes of `GET`.
pub open spec fn get_method() -> Seq<u8> {
    seq![71u8, 69, 84]
}

/// The bytes of `HTTP/1.1` followed by a carriage return.
pub open spec fn http_version() -> Seq<u8> {
    seq![72u8, 84, 84, 80, 47, 49, 46, 49, 13]
}

/// The bytes of `verify`.
pub open spec fn verify_segment() -> Seq<u8> {
    seq![118u8, 101, 114, 105, 102, 121]
}

/// The raw username and session key that a request names: the first line
/// must have the method `GET`, a path, and `HTTP/1.1` (with its carriage
/// return) as its space-separated fields; the path must start with a slash
/// and, past it, have `verify`, a username and a key as its slash-separated
/// fields. Fields beyond those are ignored.
pub open spec fn request_fields(b: Seq<u8>) -> Option<(Seq<u8>, Seq<u8>)> {
    let line = b.take(find_from(b, 0, NEWLINE));
    let e0 = find_from(line, 0, SPACE);
    let e1 = find_from(line, e0 + 1, SPACE);
    let e2 = find_from(line, e1 + 1, SPACE);
    if e0 < line.len() && e1 < line.len() && line.take(e0) == get_method() && line.subrange(
        e1 + 1,
        e2,
    ) == http_version() && e1 > e0 + 1 && line[e0 + 1] == SLASH {
        let q = line.subrange(e0 + 2, e1);
        let f0 = find_from(q, 0, SLASH);
        let f1 = find_from(q, f0 + 1, SLASH);
        let f2 = find_from(q, f1 + 1, SLASH);
        if f0 < q.len() && f1 < q.len() && q.take(f0) == verify_segment() {
            Some((q.subrange(f0 + 1, f1), q.subrange(f1 + 1, f2)))
        } else {
            None
        }
    } else {
        None
    }
}

/// The username and session key of a request, as text.
pub open spec fn request_credentials(b: Seq<u8>) -> Option<(Seq<char>, Seq<char>)> {
    match request_fields(b) {
        Some((u, k)) => if valid_utf8(u) && valid_utf8(k) {
            Some((decode_utf8(u), decode_utf8(k)))
        } else {
            None
        },
        None => None,
    }
}

/// Relies on std::str::from_utf8: it succeeds exactly on valid UTF-8, and
/// the text is what the bytes encode.
#[verifier::external_body]
fn utf8_text(b: &[u8]) -> (r: Option<String>)
    ensures
        r is Some <==> valid_utf8(b@),
        r matches Some(s) ==> s@ == decode_utf8(b@),
{
    std::str::from_utf8(b).ok().map(String::from)
}

/// The first index at or after `from` that holds `sep`, or `s.len()`.
pub fn find_byte(s: &[u8], from: usize, sep: u8) -> (r: usize)
    ensures
        r as int == find_from(s@, from as int, sep),
        r <= s@.len(),
        from <= s@.len() ==> from <= r,
{
    if from >= s.len() {
        return s.len();
    }
    let mut i = from;
    while i < s.len() && s[i] != sep
        invariant
            from <= i <= s@.len(),
            find_from(s@, i as int, sep) == find_from(s@, from as int, sep),
        decreases s@.len() - i,
    {
        i = i + 1;
    }
    i
}

/// Whether `s[start..end]` is exactly `lit`.
fn segment_is(s: &[u8], start: usize, end: usize, lit: &[u8]) -> (r: bool)
    requires
        start <= end <= s@.len(),
    ensures
        r == (s@.subrange(start as int, end as int) == lit@),
{
    if end - start != lit.len() {
        return false;
    }
    let mut i: usize = 0;
    while i < lit.len()
        invariant
            end - start == lit@.len(),
            start <= end <= s@.len(),
            i <= lit@.len(),
            forall|j: int| 0 <= j < i ==> s@[start + j] == lit@[j],
        decreases lit@.len() - i,
    {
        if s[start + i] != lit[i] {
            assert(s@.subrange(start as int, end as int)[i as int] != lit@[i as int]);
            return false;
        }
        i = i + 1;
    }
    assert(s@.subrange(start as int, end as int) =~= lit@);
    true
}

/// Parses a request and returns the username and session key it names, or
/// `None` when it is malformed.
pub fn parse(buffer: &[u8]) -> (r: Option<(String, String)>)
    ensures
        request_credentials(buffer@) matches Some((u, k)) ==> (r matches Some((ru, rk)) && ru@
            == u && rk@ == k),
        request_credentials(buffer@) is None ==> r is None,
{
    let line_end = find_byte(buffer, 0, NEWLINE);
    let line = slice_subrange(buffer, 0, line_end);
    assert(line@ == buffer@.take(line_end as int));
    let e0 = find_byte(line, 0, SPACE);
    if e0 >= line.len() {
        return None;
    }
    let e1 = find_byte(line, e0 + 1, SPACE);
    if e1 >= line.len() {
        return None;
    }
    let e2 = find_byte(line, e1 + 1, SPACE);
    if !segment_is(line, 0, e0, &vec![71u8, 69, 84]) {
        return None;
    }
    proof {
        assert(line@.subrange(0, e0 as int) =~= line@.take(e0 as int));
    }
    if !segment_is(line, e1 + 1, e2, &vec![72u8, 84, 84, 80, 47, 49, 46, 49, 13]) {
        return None;
    }
    if e1 <= e0 + 1 || line[e0 + 1] != SLASH {
        return None;
    }
    let path = slice_subrange(line, e0 + 2, e1);
    let f0 = find_byte(path, 0, SLASH);
    if f0 >= path.len() {
        return None;
    }
    let f1 = find_byte(path, f0 + 1, SLASH);
    if f1 >= path.len() {
        return None;
    }
    let f2 = find_byte(path, f1 + 1, SLASH);
    if !segment_is(path, 0, f0, &vec![118u8, 101, 114, 105, 102, 121]) {
        return None;
    }
    proof {
        assert(path@.subrange(0, f0 as int) =~= path@.take(f0 as int));
    }
    let username = match utf8_text(slice_subrange(path, f0 + 1, f1)) {
        Some(s) => s,
        None => {
            return None;
        },
    };
    let key = match utf8_text(slice_subrange(path, f1 + 1, f2)) {
        Some(s) => s,
        None => {
            return None;
        },
    };
    Some((username, key))
}

/// The endpoint's answers.
#[derive(Clone, Copy, Debug, PartialEq, Eq, Structural)]
pub enum Response {
    /// 200, body `1`: the key is valid for the user.
    Valid,
    /// 200, body `0`: it is not.
    Invalid,
    /// 400: the request was malformed.
    BadRequest,
    /// 500: the lookup failed.
    LookupFailed,
}

/// Chooses the answer from whether the request parsed and what the lookup
/// of its credentials gave (`None` for a failed lookup).
pub fn respond(parsed: bool, lookup: Option<bool>) -> (r: Response)
    ensures
        !parsed ==> r == Response::BadRequest,
        parsed ==> r == match lookup {
            Some(true) => Response::Valid,
            Some(false) => Response::Invalid,
            None => Response::LookupFailed,
        },
{
    if !parsed {
        return Response::BadRequest;
    }
    match lookup {
        Some(true) => Response::Valid,
        Some(false) => Response::Invalid,
        None => Response::LookupFailed,
    }
}

impl Response {
    /// The bytes sent for this answer.
    pub fn text(&self) -> (r: &'static str)
        ensures
            *self == Response::Valid ==> r@ == "HTTP/1.1 200 \r\n\r\n1"@,
            *self == Response::Invalid ==> r@ == "HTTP/1.1 200 \r\n\r\n0"@,
            *self == Response::BadRequest ==> r@ == "HTTP/1.1 400 \r\n\r\n"@,
            *self == Response::LookupFailed ==> r@ == "HTTP/1.1 500 \r\n\r\n"@,
    {
        match self {
            Response::Valid => "HTTP/1.1 200 \r\n\r\n1",
            Response::Invalid => "HTTP/1.1 200 \r\n\r\n0",
            Response::BadRequest => "HTTP/1.1 400 \r\n\r\n",
            Response::LookupFailed => "HTTP/1.1 500 \r\n\r\n",
        }
    }
}

} // verus!
