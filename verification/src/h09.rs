//! The request line of HTTP/0.9: `GET /` and a path, ended by a line break.

use crate::byte_buf::{bytes_get, bytes_len, bytes_view, flatten, lemma_flatten_push};
use crate::connection::trace::string_push;
use crate::{Error, Result};
use vstd::prelude::*;

verus! {

/// The bytes a request starts with: `GET /`.
pub open spec fn request_prefix() -> Seq<u8> {
    seq![71u8, 69u8, 84u8, 32u8, 47u8]
}

/// A byte a path may hold: an ASCII letter or digit, `.`, `/` or `-`.
pub open spec fn path_byte(c: u8) -> bool {
    (48 <= c <= 57) || (97 <= c <= 122) || (65 <= c <= 90) || c == 46 || c == 47 || c == 45
}

/// The number of path bytes at the front of `s`.
pub open spec fn path_len(s: Seq<u8>) -> nat
    decreases s.len(),
{
    if s.len() == 0 || !path_byte(s[0]) {
        0
    } else {
        1 + path_len(s.drop_first())
    }
}

/// The text of the path bytes `s`.
pub open spec fn path_text(s: Seq<u8>) -> Seq<char> {
    s.map_values(|c: u8| c as char)
}

/// Where the prefix check of `s` stops: the first position below 5 where
/// `s` ends or differs from `GET /`, or 5.
pub open spec fn prefix_stop(s: Seq<u8>) -> int {
    if s.len() == 0 || s[0] != 71 {
        0
    } else if s.len() == 1 || s[1] != 69 {
        1
    } else if s.len() == 2 || s[2] != 84 {
        2
    } else if s.len() == 3 || s[3] != 32 {
        3
    } else if s.len() == 4 || s[4] != 47 {
        4
    } else {
        5
    }
}

/// What parsing the request bytes `s` gives, with `open` telling whether
/// more may arrive: the result, and the path afterwards (`None` when the
/// path is left as it was).
pub open spec fn parsed_request(s: Seq<u8>, open: bool) -> (Result<bool>, Option<Seq<char>>) {
    let k = prefix_stop(s);
    if k < 5 {
        if k == s.len() && open {
            (Ok(false), None)
        } else {
            (Err(Error::InvalidRequest), None)
        }
    } else {
        let p = s.skip(5);
        let n = path_len(p);
        let path = Some(path_text(p.take(n as int)));
        if n == p.len() {
            (Ok(!open), path)
        } else if p[n as int] == 10 || p[n as int] == 13 {
            (Ok(true), path)
        } else {
            (Err(Error::InvalidRequestByte(p[n as int])), path)
        }
    }
}

/// `String::clear`: empties the string.
#[verifier::external_body]
fn string_clear(s: &mut String)
    ensures
        final(s)@ == Seq::<char>::empty(),
{
    s.clear()
}

fn is_path_byte(c: u8) -> (b: bool)
    ensures
        b == path_byte(c),
{
    (48 <= c && c <= 57) || (97 <= c && c <= 122) || (65 <= c && c <= 90) || c == 46 || c == 47 || c == 45
}

/// The bytes of `chunks`, one chunk after the other.
fn concat(chunks: &[bytes::Bytes]) -> (v: Vec<u8>)
    ensures
        v@ == flatten(chunks@),
{
    let mut v: Vec<u8> = Vec::new();
    let mut i: usize = 0;
    while i < chunks.len()
        invariant
            i <= chunks@.len(),
            v@ == flatten(chunks@.take(i as int)),
        decreases chunks@.len() - i,
    {
        let chunk = &chunks[i];
        let n = bytes_len(chunk);
        let ghost start = v@;
        let mut j: usize = 0;
        while j < n
            invariant
                j <= n,
                n == bytes_view(*chunk).len(),
                v@ == start + bytes_view(*chunk).take(j as int),
            decreases n - j,
        {
            v.push(bytes_get(chunk, j));
            proof {
                assert(bytes_view(*chunk).take(j + 1) =~= bytes_view(*chunk).take(j as int).push(bytes_view(*chunk)[j as int]));
            }
            j = j + 1;
        }
        proof {
            assert(bytes_view(*chunk).take(n as int) =~= bytes_view(*chunk));
            assert(chunks@.take(i + 1) =~= chunks@.take(i as int).push(chunks@[i as int]));
            lemma_flatten_push(chunks@.take(i as int), chunks@[i as int]);
        }
        i = i + 1;
    }
    proof {
        assert(chunks@.take(chunks@.len() as int) =~= chunks@);
    }
    v
}

/// Parses the request received so far, `chunks`, into `path`; `is_open`
/// tells whether more may arrive. `Ok(true)` once a whole request line is
/// there (or the stream ended after its path), `Ok(false)` when more is
/// needed, an error for a request that is not `GET /` followed by a path.
pub fn parse_h09_request(chunks: &[bytes::Bytes], path: &mut String, is_open: bool) -> (r: Result<bool>)
    ensures
        r == parsed_request(flatten(chunks@), is_open).0,
        final(path)@ == match parsed_request(flatten(chunks@), is_open).1 {
            Some(t) => t,
            None => old(path)@,
        },
{
    let bytes = concat(chunks);
    let ghost s = bytes@;
    let prefix: [u8; 5] = [71u8, 69u8, 84u8, 32u8, 47u8];
    let mut k: usize = 0;
    while k < 5
        invariant
            k <= 5,
            k <= s.len(),
            prefix@ == request_prefix(),
            bytes@ == s,
            s == flatten(chunks@),
            forall|i: int| 0 <= i < k ==> i < s.len() && s[i] == request_prefix()[i],
            *path == *old(path),
        decreases 5 - k,
    {
        if k >= bytes.len() {
            proof {
                lemma_prefix_stop(s, k as int);
            }
            if is_open {
                return Ok(false);
            }
            return Err(Error::InvalidRequest);
        }
        if bytes[k] != prefix[k] {
            proof {
                lemma_prefix_stop(s, k as int);
                assert(parsed_request(s, is_open).0 == Err::<bool, Error>(Error::InvalidRequest));
            }
            return Err(Error::InvalidRequest);
        }
        k = k + 1;
    }
    proof {
        assert(s[0] == request_prefix()[0]);
        assert(s[1] == request_prefix()[1]);
        assert(s[2] == request_prefix()[2]);
        assert(s[3] == request_prefix()[3]);
        assert(s[4] == request_prefix()[4]);
        assert(prefix_stop(s) == 5);
    }
    string_clear(path);
    let ghost p = s.skip(5);
    proof {
        assert(p.take(0) =~= Seq::<u8>::empty());
        assert(path@ =~= path_text(p.take(0)));
    }
    let mut i: usize = 5;
    while i < bytes.len()
        invariant
            5 <= i <= bytes@.len(),
            bytes@ == s,
            s == flatten(chunks@),
            p == s.skip(5),
            prefix_stop(s) == 5,
            forall|j: int| 0 <= j < i - 5 ==> path_byte(p[j]),
            path@ == path_text(p.take(i - 5)),
        decreases bytes@.len() - i,
    {
        let c = bytes[i];
        proof {
            lemma_path_len_step(p, (i - 5) as nat);
            assert(p.skip(i - 5)[0] == c);
            assert(p[i - 5] == c);
        }
        if is_path_byte(c) {
            string_push(path, c as char);
            proof {
                assert(p.take(i - 4) =~= p.take(i - 5).push(c));
                assert(path_text(p.take(i - 4)) =~= path_text(p.take(i - 5)).push(c as char));
                assert forall|j: int| 0 <= j < i - 4 implies path_byte(p[j]) by {
                    if j == i - 5 {
                        assert(p[j] == c);
                    }
                }
            }
            i = i + 1;
        } else if c == 10 || c == 13 {
            assert(path_len(p.skip(i - 5)) == 0);
            assert(path_len(p) == i - 5);
            assert(parsed_request(s, is_open) == (Ok::<bool, Error>(true), Some(path_text(p.take(i - 5)))));
            return Ok(true);
        } else {
            assert(path_len(p.skip(i - 5)) == 0);
            assert(path_len(p) == i - 5);
            assert(parsed_request(s, is_open) == (Err::<bool, Error>(Error::InvalidRequestByte(c)), Some(path_text(p.take(i - 5)))));
            return Err(Error::InvalidRequestByte(c));
        }
    }
    proof {
        lemma_path_len_step(p, (i - 5) as nat);
        assert(p.skip(i - 5) =~= Seq::<u8>::empty());
        assert(p.take(i - 5) =~= p);
    }
    Ok(!is_open)
}

/// A character that may stand in a path: an ASCII letter or digit, `.`,
/// `/` or `-`.
pub open spec fn url_char(c: char) -> bool {
    ('a' <= c && c <= 'z') || ('A' <= c && c <= 'Z') || ('0' <= c && c <= '9') || c == '.' || c == '/' || c == '-'
}

/// Every ASCII letter and digit, `.`, `/` and `-` is accepted in a path:
/// `GET /` followed by any run of such bytes and a line break parses to
/// `Ok(true)`, with exactly those characters as the path, whether or not
/// more may arrive.
pub proof fn law_path_chars_accepted(p: Seq<u8>, end: u8, open: bool)
    requires
        forall|i: int| 0 <= i < p.len() ==> url_char(#[trigger] p[i] as char),
        end == 10 || end == 13,
    ensures
        parsed_request(request_prefix() + p + seq![end], open) == (
            Ok::<bool, Error>(true),
            Some(p.map_values(|c: u8| c as char)),
        ),
{
    let s = request_prefix() + p + seq![end];
    let q = p + seq![end];
    assert forall|j: int| 0 <= j < p.len() implies path_byte(q[j]) by {
        assert(q[j] == p[j]);
        assert(url_char(p[j] as char));
    }
    lemma_path_len_step(q, p.len());
    assert(q.skip(p.len() as int) =~= seq![end]);
    assert(path_len(seq![end]) == 0);
    assert(s[0] == 71u8 && s[1] == 69u8 && s[2] == 84u8 && s[3] == 32u8 && s[4] == 47u8);
    assert(prefix_stop(s) == 5);
    assert(s.skip(5) =~= q);
    assert(q.take(p.len() as int) =~= p);
}

/// A byte that is neither allowed in a path nor a line break ends parsing
/// with an error naming it: `GET /`, a run of path characters and such a
/// byte, whatever follows, is refused with `InvalidRequestByte` of it.
pub proof fn law_other_byte_refused(p: Seq<u8>, c: u8, rest: Seq<u8>, open: bool)
    requires
        forall|i: int| 0 <= i < p.len() ==> url_char(#[trigger] p[i] as char),
        !url_char(c as char),
        c != 10 && c != 13,
    ensures
        parsed_request(request_prefix() + p + seq![c] + rest, open).0 == Err::<bool, Error>(
            Error::InvalidRequestByte(c),
        ),
{
    let s = request_prefix() + p + seq![c] + rest;
    let q = p + seq![c] + rest;
    assert forall|j: int| 0 <= j < p.len() implies path_byte(q[j]) by {
        assert(q[j] == p[j]);
        assert(url_char(p[j] as char));
    }
    lemma_path_len_step(q, p.len());
    let tail = q.skip(p.len() as int);
    assert(tail[0] == c);
    assert(!path_byte(c));
    assert(path_len(tail) == 0);
    assert(s[0] == 71u8 && s[1] == 69u8 && s[2] == 84u8 && s[3] == 32u8 && s[4] == 47u8);
    assert(prefix_stop(s) == 5);
    assert(s.skip(5) =~= q);
    assert(q[p.len() as int] == c);
}

/// A request whose path runs to the end of the bytes received is complete
/// exactly when nothing more may arrive; either way the path holds those
/// characters.
pub proof fn law_path_at_end(p: Seq<u8>, open: bool)
    requires
        forall|i: int| 0 <= i < p.len() ==> url_char(#[trigger] p[i] as char),
    ensures
        parsed_request(request_prefix() + p, open) == (
            Ok::<bool, Error>(!open),
            Some(p.map_values(|c: u8| c as char)),
        ),
{
    let s = request_prefix() + p;
    assert forall|j: int| 0 <= j < p.len() implies path_byte(p[j]) by {
        assert(url_char(p[j] as char));
    }
    lemma_path_len_step(p, p.len());
    assert(p.skip(p.len() as int) =~= Seq::<u8>::empty());
    assert(s[0] == 71u8 && s[1] == 69u8 && s[2] == 84u8 && s[3] == 32u8 && s[4] == 47u8);
    assert(prefix_stop(s) == 5);
    assert(s.skip(5) =~= p);
    assert(p.take(p.len() as int) =~= p);
}

/// Five or more bytes that do not start with `GET /` are refused as an
/// invalid request, whether or not more may arrive.
pub proof fn law_wrong_prefix_refused(s: Seq<u8>, open: bool)
    requires
        s.len() >= 5,
        s.take(5) != request_prefix(),
    ensures
        parsed_request(s, open).0 == Err::<bool, Error>(Error::InvalidRequest),
{
    if prefix_stop(s) == 5 {
        assert(s.take(5) =~= request_prefix());
    }
}

proof fn lemma_prefix_stop(s: Seq<u8>, k: int)
    requires
        0 <= k < 5,
        forall|i: int| 0 <= i < k ==> i < s.len() && s[i] == request_prefix()[i],
        k == s.len() || (k < s.len() && s[k] != request_prefix()[k]),
    ensures
        prefix_stop(s) == k,
{
    if k > 0 {
        assert(s[0] == request_prefix()[0]);
    }
    if k > 1 {
        assert(s[1] == request_prefix()[1]);
    }
    if k > 2 {
        assert(s[2] == request_prefix()[2]);
    }
    if k > 3 {
        assert(s[3] == request_prefix()[3]);
    }
}

/// `path_len` seen from position `k`: when every byte before `k` is a path
/// byte, the path length is `k` plus the path length from `k` on.
proof fn lemma_path_len_step(p: Seq<u8>, k: nat)
    requires
        k <= p.len(),
        forall|j: int| 0 <= j < k ==> path_byte(p[j]),
    ensures
        path_len(p) == k + path_len(p.skip(k as int)),
    decreases k,
{
    if k > 0 {
        assert(path_byte(p[0]));
        lemma_path_len_step(p.drop_first(), (k - 1) as nat);
        assert(p.drop_first().skip(k - 1) =~= p.skip(k as int));
    } else {
        assert(p.skip(0) =~= p);
    }
}

} // verus!
