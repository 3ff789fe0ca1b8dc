//! The line protocol: one drain read from a client yields raw bytes, which
//! are decoded leniently, cut at the first line terminator, and split on
//! spaces. Only the first line counts; its first token must be the one
//! accepted method, and its second token is the payload to fan out. A line
//! that fails these checks is discarded silently — it is no error.

use vstd::prelude::*;

verus! {

/// The byte that ends a command line (carriage return).
pub const LINE_END: u8 = 13;

/// The byte that separates the tokens of a line (space).
pub const TOKEN_SEP: u8 = 32;

/// The one accepted method, as bytes: `GET`.
pub open spec fn get_method() -> Seq<u8> {
    seq![71u8, 69u8, 84u8]
}

/// `i` is the first position of `b` in `s`.
pub open spec fn is_first_at(s: Seq<u8>, b: u8, i: int) -> bool {
    0 <= i < s.len() && s[i] == b && (forall|j: int| 0 <= j < i ==> s[j] != b)
}

/// The first position of `b` in `s`, or the length of `s` when `b` does not
/// occur: where a split on `b` cuts off the first piece.
pub open spec fn split_point(s: Seq<u8>, b: u8) -> int {
    if exists|i: int| is_first_at(s, b, i) {
        choose|i: int| is_first_at(s, b, i)
    } else {
        s.len() as int
    }
}

/// What one drain read commands: the first line of the decoded bytes is
/// split on spaces; if its first token is the method and a second token
/// exists, that second token is the payload to broadcast; anything else is
/// silently discarded.
pub open spec fn parse_request(s: Seq<u8>) -> Option<Seq<u8>> {
    let line = s.subrange(0, split_point(s, LINE_END));
    let m = split_point(line, TOKEN_SEP);
    if line.subrange(0, m) != get_method() {
        None
    } else if m == line.len() {
        None
    } else {
        let rest = line.subrange(m + 1, line.len() as int);
        Some(rest.subrange(0, split_point(rest, TOKEN_SEP)))
    }
}

/// The first position of `b` in `data`, or `data.len()` when absent.
fn find_byte(data: &[u8], b: u8) -> (i: usize)
    ensures
        i == split_point(data@, b),
{
    let n = data.len();
    let mut j: usize = 0;
    while j < n
        invariant
            j <= n,
            n == data@.len(),
            forall|k: int| 0 <= k < j ==> data@[k] != b,
        decreases n - j,
    {
        if data[j] == b {
            proof {
                assert(is_first_at(data@, b, j as int));
                let w = choose|i: int| is_first_at(data@, b, i);
                assert(is_first_at(data@, b, w));
                if w < j {
                    assert(data@[w] != b);
                } else if j < w {
                    assert(data@[j as int] != b);
                }
            }
            return j;
        }
        j = j + 1;
    }
    proof {
        if exists|i: int| is_first_at(data@, b, i) {
            let w = choose|i: int| is_first_at(data@, b, i);
            assert(data@[w] != b);
        }
    }
    n
}

/// The bytes of `data` from `lo` up to `hi`, as a fresh vector.
fn copy_range(data: &[u8], lo: usize, hi: usize) -> (r: Vec<u8>)
    requires
        lo <= hi <= data@.len(),
    ensures
        r@ == data@.subrange(lo as int, hi as int),
{
    let mut r: Vec<u8> = Vec::new();
    let mut j: usize = lo;
    while j < hi
        invariant
            lo <= j <= hi <= data@.len(),
            r@ == data@.subrange(lo as int, j as int),
        decreases hi - j,
    {
        r.push(data[j]);
        proof {
            assert(r@ =~= data@.subrange(lo as int, j + 1));
        }
        j = j + 1;
    }
    r
}

/// Parse one drain read's bytes into the payload it commands, exactly as
/// `parse_request` states: the first line's method must be `GET` and the
/// payload is the token after it; otherwise nothing is commanded.
pub fn parse_command(data: &[u8]) -> (r: Option<Vec<u8>>)
    ensures
        match r {
            Some(v) => parse_request(data@) == Some(v@),
            None => parse_request(data@) is None,
        },
{
    let end = find_byte(data, LINE_END);
    let line = copy_range(data, 0, end);
    let ghost line_spec = data@.subrange(0, split_point(data@, LINE_END));
    proof {
        assert(line@ == line_spec);
    }
    let m = find_byte(line.as_slice(), TOKEN_SEP);
    let is_get = m == 3 && line[0] == 71 && line[1] == 69 && line[2] == 84;
    if !is_get {
        proof {
            if line_spec.subrange(0, m as int) == get_method() {
                assert(line_spec.subrange(0, m as int).len() == 3);
                assert(m == 3);
                assert(line_spec.subrange(0, 3)[0] == line_spec[0]);
                assert(line_spec.subrange(0, 3)[1] == line_spec[1]);
                assert(line_spec.subrange(0, 3)[2] == line_spec[2]);
            }
        }
        return None;
    }
    proof {
        assert(line_spec.subrange(0, 3) =~= get_method());
    }
    if m == line.len() {
        return None;
    }
    let rest = copy_range(line.as_slice(), m + 1, line.len());
    let ghost rest_spec = line_spec.subrange(m + 1, line_spec.len() as int);
    proof {
        assert(rest@ == rest_spec);
    }
    let sp = find_byte(rest.as_slice(), TOKEN_SEP);
    let payload = copy_range(rest.as_slice(), 0, sp);
    Some(payload)
}

/// Append the line terminator to a payload, framing it for the wire: the
/// broadcast sent to every node is the payload followed by the line end.
pub fn frame_payload(payload: &Vec<u8>) -> (r: Vec<u8>)
    ensures
        r@ == payload@.push(LINE_END),
{
    let mut r = copy_range(payload.as_slice(), 0, payload.len());
    proof {
        assert(r@ =~= payload@);
    }
    r.push(LINE_END);
    r
}

/// What the lenient text decoding makes of a drain read's raw bytes. The
/// decoding is a function of the bytes alone.
pub uninterp spec fn lossy_of(s: Seq<u8>) -> Seq<u8>;

/// Relies on String::from_utf8_lossy: invalid sequences are replaced rather
/// than fatal, the result depends on the bytes alone, and bytes that form
/// valid UTF-8 — in particular pure ASCII — come back unchanged.
#[verifier::external_body]
pub(crate) fn decode_lossy(data: &[u8]) -> (r: Vec<u8>)
    ensures
        r@ == lossy_of(data@),
        (forall|i: int| 0 <= i < data@.len() ==> data@[i] < 128) ==> r@ == data@,
{
    String::from_utf8_lossy(data).into_owned().into_bytes()
}

} // verus!
