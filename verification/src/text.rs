//! Text handling: UTF-8 validation of protocol bytes, strings built from
//! characters, and the search primitives the parsers share.

use vstd::prelude::*;
use vstd::utf8::{
    decode_utf8, decode_utf8_encode_utf8, encode_utf8, encode_utf8_decode_utf8, encode_utf8_valid_utf8,
    is_scalar, length_of_first_codepoint, pop_first_scalar, valid_first_scalar, valid_utf8,
};

verus! {

broadcast use vstd::string::group_string_axioms;

/// Text of the error that `std::str::from_utf8` reports for `bytes`.
pub uninterp spec fn utf8_error_text(bytes: Seq<u8>) -> Seq<char>;

/// Calls `std::str::from_utf8`. Trusted: succeeds exactly on valid UTF-8,
/// giving the decoded characters; otherwise gives the text of the error,
/// which depends on the bytes alone.
#[verifier::external_body]
pub(crate) fn str_from_utf8<'a>(bytes: &'a [u8]) -> (r: Result<&'a str, String>)
    ensures
        match r {
            Ok(s) => valid_utf8(bytes@) && s@ == decode_utf8(bytes@),
            Err(m) => !valid_utf8(bytes@) && m@ == utf8_error_text(bytes@),
        },
{
    match std::str::from_utf8(bytes) {
        Ok(s) => Ok(s),
        Err(e) => Err(e.to_string()),
    }
}

/// Calls `String::push`. Trusted: appends the character.
#[verifier::external_body]
pub(crate) fn string_push(s: &mut String, c: char)
    ensures
        final(s)@ == old(s)@.push(c),
{
    s.push(c)
}

/// Calls `char::from_u32`. Trusted: gives the character exactly for
/// Unicode scalar values.
#[verifier::external_body]
pub(crate) fn char_from_u32(n: u32) -> (r: Option<char>)
    ensures
        r == (if is_scalar(n) {
            Some(n as char)
        } else {
            None
        }),
{
    char::from_u32(n)
}

/// The characters of a string, in order.
pub fn chars_of(s: &str) -> (r: Vec<char>)
    ensures
        r@ == s@,
{
    let mut out: Vec<char> = Vec::new();
    for c in it: s.chars()
        invariant
            it.seq() == s@,
            out@ == it.seq().take(it.index()),
    {
        out.push(c);
        assert(out@ =~= it.seq().take(it.index() + 1));
    }
    assert(out@ =~= s@);
    out
}

/// Appends the characters `cs[lo..hi]` to `s`.
pub fn push_chars(s: &mut String, cs: &[char], lo: usize, hi: usize)
    requires
        lo <= hi <= cs@.len(),
    ensures
        final(s)@ == old(s)@ + cs@.subrange(lo as int, hi as int),
{
    let mut i = lo;
    while i < hi
        invariant
            lo <= i <= hi,
            hi <= cs@.len(),
            s@ == old(s)@ + cs@.subrange(lo as int, i as int),
        decreases hi - i,
    {
        string_push(s, cs[i]);
        i = i + 1;
        assert(s@ =~= old(s)@ + cs@.subrange(lo as int, i as int));
    }
}

/// Index of the first occurrence of `x` in `s`, or -1.
pub open spec fn first_index<T>(s: Seq<T>, x: T) -> int
    decreases s.len(),
{
    if s.len() == 0 {
        -1
    } else if s[0] == x {
        0
    } else {
        let r = first_index(s.drop_first(), x);
        if r < 0 {
            -1
        } else {
            r + 1
        }
    }
}

/// A scan that stops at `i` determines the first occurrence.
pub proof fn lemma_first_index<T>(s: Seq<T>, x: T, i: int)
    requires
        0 <= i <= s.len(),
        forall|j: int| 0 <= j < i ==> s[j] != x,
        i == s.len() || s[i] == x,
    ensures
        first_index(s, x) == (if i == s.len() {
            -1
        } else {
            i
        }),
    decreases s.len(),
{
    if s.len() == 0 {
    } else if i == 0 {
    } else {
        lemma_first_index(s.drop_first(), x, i - 1);
    }
}

/// The first index of byte `x` in `s[lo..]`, found by scanning; `s.len()`
/// when there is none.
pub fn find_byte(s: &[u8], lo: usize, x: u8) -> (r: usize)
    requires
        lo <= s@.len(),
    ensures
        lo <= r <= s@.len(),
        first_index(s@.skip(lo as int), x) == (if r == s@.len() {
            -1
        } else {
            r - lo
        }),
{
    let mut i = lo;
    while i < s.len() && s[i] != x
        invariant
            lo <= i <= s@.len(),
            forall|j: int| lo <= j < i ==> s@[j] != x,
        decreases s.len() - i,
    {
        i = i + 1;
    }
    proof {
        let t = s@.skip(lo as int);
        assert forall|j: int| 0 <= j < i - lo implies t[j] != x by {
            assert(t[j] == s@[lo + j]);
        }
        lemma_first_index(t, x, i - lo);
    }
    i
}

/// The first index of character `x` in `s[lo..hi]`, found by scanning; `hi`
/// when there is none.
pub fn find_char(s: &[char], lo: usize, hi: usize, x: char) -> (r: usize)
    requires
        lo <= hi <= s@.len(),
    ensures
        lo <= r <= hi,
        first_index(s@.subrange(lo as int, hi as int), x) == (if r == hi {
            -1
        } else {
            r - lo
        }),
{
    let mut i = lo;
    while i < hi && s[i] != x
        invariant
            lo <= i <= hi,
            hi <= s@.len(),
            forall|j: int| lo <= j < i ==> s@[j] != x,
        decreases hi - i,
    {
        i = i + 1;
    }
    proof {
        let t = s@.subrange(lo as int, hi as int);
        assert forall|j: int| 0 <= j < i - lo implies t[j] != x by {
            assert(t[j] == s@[lo + j]);
        }
        lemma_first_index(t, x, i - lo);
    }
    i
}

/// Encoding a concatenation encodes each part in turn.
pub proof fn lemma_encode_concat(a: Seq<char>, b: Seq<char>)
    ensures
        encode_utf8(a + b) == encode_utf8(a) + encode_utf8(b),
    decreases a.len(),
{
    if a.len() == 0 {
        assert(a + b =~= b);
        assert(encode_utf8(a) + encode_utf8(b) =~= encode_utf8(b));
    } else {
        assert((a + b).drop_first() =~= a.drop_first() + b);
        assert((a + b)[0] == a[0]);
        lemma_encode_concat(a.drop_first(), b);
        assert(encode_utf8(a + b) =~= encode_utf8(a) + encode_utf8(b));
    }
}

/// UTF-8 stays valid, or invalid, when ASCII is appended: a valid run
/// followed by bytes that start with an ASCII byte is valid only if the run
/// alone is.
pub proof fn lemma_utf8_prefix_before_ascii(a: Seq<u8>, b: Seq<u8>)
    requires
        valid_utf8(a + b),
        b.len() > 0,
        b[0] < 0x80,
    ensures
        valid_utf8(a),
    decreases a.len(),
{
    if a.len() > 0 {
        let t = a + b;
        assert(t[0] == a[0]);
        assert(forall|i: int| 0 <= i < a.len() ==> #[trigger] t[i] == a[i]);
        assert(t[a.len() as int] == b[0]);
        let l = length_of_first_codepoint(t);
        assert(l <= a.len());
        assert(valid_first_scalar(a));
        assert(pop_first_scalar(t) =~= pop_first_scalar(a) + b);
        lemma_utf8_prefix_before_ascii(pop_first_scalar(a), b);
    }
}

/// Appending the encoding of some characters to valid UTF-8 keeps it valid
/// and appends those characters to what it decodes to.
pub proof fn lemma_utf8_append(a: Seq<u8>, cs: Seq<char>)
    requires
        valid_utf8(a),
    ensures
        valid_utf8(a + encode_utf8(cs)),
        decode_utf8(a + encode_utf8(cs)) == decode_utf8(a) + cs,
{
    let ca = decode_utf8(a);
    decode_utf8_encode_utf8(a);
    lemma_encode_concat(ca, cs);
    encode_utf8_valid_utf8(ca + cs);
    encode_utf8_decode_utf8(ca + cs);
}

} // verus!
