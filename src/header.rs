use vstd::prelude::*;
use crate::text::{decode_lossy, lossy_text_of, lower_of, lowercase};

verus! {

/// Characters with the Unicode `White_Space` property.
pub open spec fn is_ws(c: char) -> bool {
    let u = c as u32;
    (9 <= u <= 13) || u == 32 || u == 0x85 || u == 0xa0 || u == 0x1680 || (0x2000 <= u
        <= 0x200a) || u == 0x2028 || u == 0x2029 || u == 0x202f || u == 0x205f || u == 0x3000
}

/// `t` holds `From:` at `i`, the letters in either case.
pub open spec fn is_from_at(t: Seq<char>, i: int) -> bool {
    &&& 0 <= i
    &&& i + 5 <= t.len()
    &&& t[i] == 'f' || t[i] == 'F'
    &&& t[i + 1] == 'r' || t[i + 1] == 'R'
    &&& t[i + 2] == 'o' || t[i + 2] == 'O'
    &&& t[i + 3] == 'm' || t[i + 3] == 'M'
    &&& t[i + 4] == ':'
}

/// First position at or after `i` that holds `From:`.
pub open spec fn spec_find_from(t: Seq<char>, i: int) -> Option<int>
    decreases t.len() - i,
{
    if i < 0 || i + 5 > t.len() {
        None
    } else if is_from_at(t, i) {
        Some(i)
    } else {
        spec_find_from(t, i + 1)
    }
}

/// First position at or after `i` that holds no whitespace.
pub open spec fn spec_skip_ws(t: Seq<char>, i: int) -> int
    decreases t.len() - i,
{
    if 0 <= i < t.len() && is_ws(t[i]) {
        spec_skip_ws(t, i + 1)
    } else {
        i
    }
}

/// First position at or after `i` that holds a line feed, or the end.
pub open spec fn spec_line_end(t: Seq<char>, i: int) -> int
    decreases t.len() - i,
{
    if 0 <= i < t.len() && t[i] != '\n' {
        spec_line_end(t, i + 1)
    } else {
        i
    }
}

/// End of `t[lo..hi]` once trailing whitespace is cut off.
pub open spec fn spec_trim_end(t: Seq<char>, lo: int, hi: int) -> int
    decreases hi - lo,
{
    if lo < hi && 0 < hi <= t.len() && is_ws(t[hi - 1]) {
        spec_trim_end(t, lo, hi - 1)
    } else {
        hi
    }
}

/// First position in `[j, e)` that holds `>`, or `e`.
pub open spec fn spec_find_gt(t: Seq<char>, j: int, e: int) -> int
    decreases e - j,
{
    if 0 <= j < e && j < t.len() && t[j] != '>' {
        spec_find_gt(t, j + 1, e)
    } else {
        j
    }
}

/// Leftmost `<...>` in `t[i..e]` with at least one character inside: the
/// bounds of what stands between the brackets.
pub open spec fn spec_find_angle(t: Seq<char>, i: int, e: int) -> Option<(int, int)>
    decreases e - i,
{
    if i < 0 || i >= e || e > t.len() {
        None
    } else if t[i] == '<' && spec_find_gt(t, i + 1, e) > i + 1 && spec_find_gt(t, i + 1, e) < e {
        Some((i + 1, spec_find_gt(t, i + 1, e)))
    } else {
        spec_find_angle(t, i + 1, e)
    }
}

/// Where the sender stands in a header text: the first `From:` line's value,
/// trimmed, narrowed to what stands between its first pair of angle brackets
/// if there is one; none where there is no `From:` line or its value is empty.
pub open spec fn spec_sender_span(t: Seq<char>) -> Option<(int, int)> {
    match spec_find_from(t, 0) {
        None => None,
        Some(i) => {
            let k = spec_skip_ws(t, i + 5);
            let e = spec_trim_end(t, k, spec_line_end(t, k));
            match spec_find_angle(t, k, e) {
                Some(span) => Some(span),
                None => if k < e {
                    Some((k, e))
                } else {
                    None
                },
            }
        },
    }
}

/// The normalized sender of raw header bytes, if any.
pub open spec fn spec_parse_sender(raw: Seq<u8>) -> Option<Seq<char>> {
    let t = lossy_text_of(raw);
    match spec_sender_span(t) {
        Some((a, b)) => Some(lower_of(t.subrange(a, b))),
        None => None,
    }
}

pub open spec fn span_view(r: Option<(usize, usize)>) -> Option<(int, int)> {
    match r {
        Some((a, b)) => Some((a as int, b as int)),
        None => None,
    }
}

pub open spec fn string_option_view(r: Option<String>) -> Option<Seq<char>> {
    match r {
        Some(s) => Some(s@),
        None => None,
    }
}

/// Whether `c` is whitespace in Unicode's sense.
pub fn is_whitespace(c: char) -> (r: bool)
    ensures
        r == is_ws(c),
{
    let u = c as u32;
    (9 <= u && u <= 13) || u == 32 || u == 0x85 || u == 0xa0 || u == 0x1680 || (0x2000 <= u && u
        <= 0x200a) || u == 0x2028 || u == 0x2029 || u == 0x202f || u == 0x205f || u == 0x3000
}

fn find_from(t: &Vec<char>) -> (r: Option<usize>)
    ensures
        r is Some ==> spec_find_from(t@, 0) == Some(r->0 as int) && r->0 + 5 <= t@.len(),
        r is None ==> spec_find_from(t@, 0) is None,
{
    let n = t.len();
    let mut i: usize = 0;
    while i < n && n - i >= 5
        invariant
            n == t@.len(),
            i <= n,
            spec_find_from(t@, 0) == spec_find_from(t@, i as int),
        decreases n - i,
    {
        let hit = (t[i] == 'f' || t[i] == 'F') && (t[i + 1] == 'r' || t[i + 1] == 'R') && (t[i
            + 2] == 'o' || t[i + 2] == 'O') && (t[i + 3] == 'm' || t[i + 3] == 'M') && t[i + 4]
            == ':';
        if hit {
            return Some(i);
        }
        i = i + 1;
    }
    None
}

fn skip_ws(t: &Vec<char>, start: usize) -> (r: usize)
    requires
        start <= t@.len(),
    ensures
        r as int == spec_skip_ws(t@, start as int),
        start <= r <= t@.len(),
{
    let mut i = start;
    while i < t.len() && is_whitespace(t[i])
        invariant
            start <= i <= t@.len(),
            spec_skip_ws(t@, start as int) == spec_skip_ws(t@, i as int),
        decreases t@.len() - i,
    {
        i = i + 1;
    }
    i
}

fn line_end(t: &Vec<char>, start: usize) -> (r: usize)
    requires
        start <= t@.len(),
    ensures
        r as int == spec_line_end(t@, start as int),
        start <= r <= t@.len(),
{
    let mut i = start;
    while i < t.len() && t[i] != '\n'
        invariant
            start <= i <= t@.len(),
            spec_line_end(t@, start as int) == spec_line_end(t@, i as int),
        decreases t@.len() - i,
    {
        i = i + 1;
    }
    i
}

fn trim_end(t: &Vec<char>, lo: usize, hi: usize) -> (r: usize)
    requires
        lo <= hi <= t@.len(),
    ensures
        r as int == spec_trim_end(t@, lo as int, hi as int),
        lo <= r <= hi,
{
    let mut e = hi;
    while lo < e && is_whitespace(t[e - 1])
        invariant
            lo <= e <= hi <= t@.len(),
            spec_trim_end(t@, lo as int, hi as int) == spec_trim_end(t@, lo as int, e as int),
        decreases e - lo,
    {
        e = e - 1;
    }
    e
}

fn find_gt(t: &Vec<char>, j: usize, e: usize) -> (r: usize)
    requires
        j <= e <= t@.len(),
    ensures
        r as int == spec_find_gt(t@, j as int, e as int),
        j <= r <= e,
{
    let mut i = j;
    while i < e && t[i] != '>'
        invariant
            j <= i <= e <= t@.len(),
            spec_find_gt(t@, j as int, e as int) == spec_find_gt(t@, i as int, e as int),
        decreases e - i,
    {
        i = i + 1;
    }
    i
}

fn find_angle(t: &Vec<char>, start: usize, e: usize) -> (r: Option<(usize, usize)>)
    requires
        start <= e <= t@.len(),
    ensures
        span_view(r) == spec_find_angle(t@, start as int, e as int),
        match r {
            Some((a, b)) => start < a < b < e,
            None => true,
        },
{
    let mut i = start;
    while i < e
        invariant
            start <= i <= e <= t@.len(),
            spec_find_angle(t@, start as int, e as int) == spec_find_angle(t@, i as int, e as int),
        decreases e - i,
    {
        if t[i] == '<' {
            let q = find_gt(t, i + 1, e);
            if q > i + 1 && q < e {
                return Some((i + 1, q));
            }
        }
        i = i + 1;
    }
    None
}

/// Bounds of the sender within a header text: see `spec_sender_span`.
pub fn locate_sender(text: &Vec<char>) -> (r: Option<(usize, usize)>)
    ensures
        span_view(r) == spec_sender_span(text@),
        match r {
            Some((a, b)) => a < b <= text@.len(),
            None => true,
        },
{
    let n = text.len();
    match find_from(text) {
        None => None,
        Some(i) => {
            assert(i + 5 <= n);
            let k = skip_ws(text, i + 5);
            let le = line_end(text, k);
            let e = trim_end(text, k, le);
            match find_angle(text, k, e) {
                Some(span) => Some(span),
                None => {
                    if k < e {
                        Some((k, e))
                    } else {
                        None
                    }
                },
            }
        },
    }
}

/// The sender of one message, from the raw bytes of its `From` header:
/// decoded, located, and lowercased. `None` where the header names no sender;
/// such a message counts for no one.
pub fn parse_sender(raw: &[u8]) -> (r: Option<String>)
    ensures
        string_option_view(r) == spec_parse_sender(raw@),
{
    let text = decode_lossy(raw);
    match locate_sender(&text) {
        Some((a, b)) => {
            let s = lowercase(&text.as_slice()[a..b]);
            Some(s)
        },
        None => None,
    }
}

/// The senders found in a batch of fetched headers, in order; headers that
/// name no sender are left out.
pub open spec fn spec_senders(headers: Seq<Seq<u8>>) -> Seq<Seq<char>>
    decreases headers.len(),
{
    if headers.len() == 0 {
        Seq::empty()
    } else {
        let rest = spec_senders(headers.drop_last());
        match spec_parse_sender(headers.last()) {
            Some(s) => rest.push(s),
            None => rest,
        }
    }
}

pub open spec fn byte_views(v: Seq<Vec<u8>>) -> Seq<Seq<u8>> {
    v.map_values(|b: Vec<u8>| b@)
}

pub open spec fn string_views(v: Seq<String>) -> Seq<Seq<char>> {
    v.map_values(|s: String| s@)
}

/// The senders of a batch of fetched headers: see `spec_senders`.
pub fn senders_from_headers(headers: &Vec<Vec<u8>>) -> (r: Vec<String>)
    ensures
        string_views(r@) == spec_senders(byte_views(headers@)),
{
    let mut out: Vec<String> = Vec::new();
    let mut i: usize = 0;
    while i < headers.len()
        invariant
            i <= headers@.len(),
            string_views(out@) == spec_senders(byte_views(headers@).subrange(0, i as int)),
        decreases headers@.len() - i,
    {
        let parsed = parse_sender(headers[i].as_slice());
        proof {
            let pre = byte_views(headers@).subrange(0, i as int);
            let next = byte_views(headers@).subrange(0, i + 1);
            assert(next.drop_last() =~= pre);
            assert(next.last() == headers@[i as int]@);
        }
        match parsed {
            Some(s) => {
                let ghost before = out@;
                let ghost sv = s@;
                out.push(s);
                proof {
                    assert(string_views(out@) =~= string_views(before).push(sv));
                }
            },
            None => {},
        }
        i = i + 1;
    }
    proof {
        assert(byte_views(headers@).subrange(0, headers@.len() as int) =~= byte_views(headers@));
    }
    out
}

} // verus!
