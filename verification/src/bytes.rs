//! Byte sequences: counting, copying, and the text that bytes stand for.
use vstd::prelude::*;
use vstd::slice::slice_to_vec;
use vstd::utf8::{decode_utf8, valid_utf8};

verus! {

// ---------------------------------------------------------------------------
// Counting
// ---------------------------------------------------------------------------

/// How often `b` occurs in `s`.
pub open spec fn count_of(s: Seq<u8>, b: u8) -> nat
    decreases s.len(),
{
    if s.len() == 0 {
        0
    } else {
        count_of(s.drop_last(), b) + if s.last() == b {
            1nat
        } else {
            0nat
        }
    }
}

/// Number of newlines in `s`.
pub open spec fn newlines(s: Seq<u8>) -> nat {
    count_of(s, 0x0a)
}

pub proof fn lemma_count_concat(a: Seq<u8>, b: Seq<u8>, x: u8)
    ensures
        count_of(a + b, x) == count_of(a, x) + count_of(b, x),
    decreases b.len(),
{
    if b.len() == 0 {
        assert(a + b =~= a);
    } else {
        assert((a + b).drop_last() =~= a + b.drop_last());
        lemma_count_concat(a, b.drop_last(), x);
    }
}

pub proof fn lemma_count_at_most(s: Seq<u8>, x: u8)
    ensures
        count_of(s, x) <= s.len(),
        s.len() > 0 && s.last() != x ==> count_of(s, x) < s.len(),
    decreases s.len(),
{
    if s.len() > 0 {
        lemma_count_at_most(s.drop_last(), x);
    }
}

/// `bytecount::count` is the number of occurrences of a byte in a slice.
pub assume_specification[ bytecount::count ](haystack: &[u8], needle: u8) -> (n: usize)
    ensures
        n == count_of(haystack@, needle),
;

// ---------------------------------------------------------------------------
// Text
// ---------------------------------------------------------------------------

/// The text that `String::from_utf8_lossy` makes of bytes that are not UTF-8.
pub uninterp spec fn lossy_text(bytes: Seq<u8>) -> Seq<char>;

/// The text that bytes are shown as: what they encode, or a readable
/// replacement where they encode nothing.
pub open spec fn shown_text(bytes: Seq<u8>) -> Seq<char> {
    if valid_utf8(bytes) {
        decode_utf8(bytes)
    } else {
        lossy_text(bytes)
    }
}

/// `String::from_utf8_lossy` gives back the text that valid UTF-8 encodes. Of
/// other bytes it makes a text in which replacement characters stand for the
/// invalid parts; which text that is, is left to the name.
#[verifier::external_body]
pub(crate) fn decode_lossy(bytes: &[u8]) -> (r: String)
    ensures
        r@ == if valid_utf8(bytes@) {
            decode_utf8(bytes@)
        } else {
            lossy_text(bytes@)
        },
{
    String::from_utf8_lossy(bytes).into_owned()
}

/// `std::str::from_utf8` accepts exactly the valid UTF-8 sequences, and gives
/// the text that they encode.
#[verifier::external_body]
pub(crate) fn decode_strict(bytes: &[u8]) -> (r: Option<&str>)
    ensures
        r is Some <==> valid_utf8(bytes@),
        r matches Some(s) ==> s@ == decode_utf8(bytes@),
{
    std::str::from_utf8(bytes).ok()
}

/// A text appended to a valid text decodes to both texts.
pub proof fn lemma_decode_concat(a: Seq<u8>, b: Seq<u8>)
    requires
        valid_utf8(a),
        valid_utf8(b),
    ensures
        valid_utf8(a + b),
        decode_utf8(a + b) == decode_utf8(a) + decode_utf8(b),
{
    vstd::utf8::decode_utf8_encode_utf8(a);
    vstd::utf8::decode_utf8_encode_utf8(b);
    crate::text::lemma_encode_concat(decode_utf8(a), decode_utf8(b));
    vstd::utf8::encode_utf8_valid_utf8(decode_utf8(a) + decode_utf8(b));
    vstd::utf8::encode_utf8_decode_utf8(decode_utf8(a) + decode_utf8(b));
}

// ---------------------------------------------------------------------------
// Copying
// ---------------------------------------------------------------------------

/// A copy of `bytes`.
pub(crate) fn copy_bytes(bytes: &[u8]) -> (r: Vec<u8>)
    ensures
        r@ == bytes@,
{
    slice_to_vec(bytes)
}

/// Append `more` to `bytes`.
pub(crate) fn append_bytes(bytes: &mut Vec<u8>, more: &[u8])
    ensures
        final(bytes)@ == old(bytes)@ + more@,
{
    bytes.extend_from_slice(more);
    proof {
        assert(bytes@ =~= old(bytes)@ + more@);
    }
}

/// Whether two byte sequences are equal.
pub(crate) fn bytes_eq(a: &[u8], b: &[u8]) -> (r: bool)
    ensures
        r == (a@ == b@),
{
    if a.len() != b.len() {
        return false;
    }
    let mut i: usize = 0;
    while i < a.len()
        invariant
            a@.len() == b@.len(),
            i <= a@.len(),
            forall|k: int| 0 <= k < i ==> a@[k] == b@[k],
        decreases a@.len() - i,
    {
        if a[i] != b[i] {
            return false;
        }
        i = i + 1;
    }
    proof {
        assert(a@ =~= b@);
    }
    true
}

} // verus!
