use vstd::prelude::*;
use vstd::utf8::{decode_utf8, valid_utf8};

verus! {

/// What `String::from_utf8_lossy` makes of a byte sequence.
pub uninterp spec fn lossy_text_of(raw: Seq<u8>) -> Seq<char>;

/// What `str::to_lowercase` makes of a character sequence.
pub uninterp spec fn lower_of(s: Seq<char>) -> Seq<char>;

/// Relies on `String::from_utf8_lossy`: the text depends on the bytes alone,
/// and valid UTF-8 is decoded unchanged.
#[verifier::external_body]
pub(crate) fn decode_lossy(raw: &[u8]) -> (r: Vec<char>)
    ensures
        r@ == lossy_text_of(raw@),
        valid_utf8(raw@) ==> r@ == decode_utf8(raw@),
{
    String::from_utf8_lossy(raw).chars().collect()
}

/// Relies on `str::to_lowercase`: the result depends on the characters alone,
/// and the empty text stays empty.
#[verifier::external_body]
pub(crate) fn lowercase(s: &[char]) -> (r: String)
    ensures
        r@ == lower_of(s@),
        s@.len() == 0 ==> r@.len() == 0,
{
    s.iter().collect::<String>().to_lowercase()
}

/// Relies on `String::push`: appends one character.
#[verifier::external_body]
pub(crate) fn push_char(s: &mut String, c: char)
    ensures
        final(s)@ == old(s)@.push(c),
{
    s.push(c)
}

/// The characters of `s`, in order.
pub fn chars_of(s: &str) -> (r: Vec<char>)
    ensures
        r@ == s@,
{
    let n = s.unicode_len();
    let mut out: Vec<char> = Vec::new();
    let mut i: usize = 0;
    while i < n
        invariant
            n == s@.len(),
            i <= n,
            out@ == s@.subrange(0, i as int),
        decreases n - i,
    {
        out.push(s.get_char(i));
        i = i + 1;
        proof {
            assert(out@ =~= s@.subrange(0, i as int));
        }
    }
    proof {
        assert(out@ =~= s@);
    }
    out
}

/// Appends every character of `tail` to `s`.
pub fn push_all(s: &mut String, tail: &[char])
    ensures
        final(s)@ == old(s)@ + tail@,
{
    let mut i: usize = 0;
    while i < tail.len()
        invariant
            i <= tail@.len(),
            s@ == old(s)@ + tail@.subrange(0, i as int),
        decreases tail@.len() - i,
    {
        push_char(s, tail[i]);
        i = i + 1;
        proof {
            assert(s@ =~= old(s)@ + tail@.subrange(0, i as int));
        }
    }
    proof {
        assert(tail@.subrange(0, tail@.len() as int) =~= tail@);
    }
}

} // verus!

verus! {

/// The decimal digits of `n`, most significant first.
pub open spec fn decimal(n: nat) -> Seq<char>
    decreases n,
{
    if n < 10 {
        seq![digit_char(n)]
    } else {
        decimal(n / 10).push(digit_char(n % 10))
    }
}

pub open spec fn digit_char(d: nat) -> char {
    if d == 0 {
        '0'
    } else if d == 1 {
        '1'
    } else if d == 2 {
        '2'
    } else if d == 3 {
        '3'
    } else if d == 4 {
        '4'
    } else if d == 5 {
        '5'
    } else if d == 6 {
        '6'
    } else if d == 7 {
        '7'
    } else if d == 8 {
        '8'
    } else {
        '9'
    }
}

/// Appends the decimal digits of `n`.
pub fn push_decimal(s: &mut String, n: usize)
    ensures
        final(s)@ == old(s)@ + decimal(n as nat),
    decreases n,
{
    if n >= 10 {
        push_decimal(s, n / 10);
    }
    let d = n % 10;
    let c = if d == 0 {
        '0'
    } else if d == 1 {
        '1'
    } else if d == 2 {
        '2'
    } else if d == 3 {
        '3'
    } else if d == 4 {
        '4'
    } else if d == 5 {
        '5'
    } else if d == 6 {
        '6'
    } else if d == 7 {
        '7'
    } else if d == 8 {
        '8'
    } else {
        '9'
    };
    push_char(s, c);
    proof {
        assert(s@ =~= old(s)@ + decimal(n as nat));
    }
}

} // verus!
