//! Text primitives: walking a `&str` character by character, byte widths, and
//! the facts about UTF-8 that byte offsets into text rest on.
use vstd::prelude::*;
use vstd::utf8::{encode_scalar, encode_utf8, is_char_boundary};

verus! {

broadcast use vstd::utf8::group_utf8_lib;

// ---------------------------------------------------------------------------
// Byte widths and boundaries
// ---------------------------------------------------------------------------

/// Number of bytes that `c` takes in UTF-8.
pub open spec fn char_width(c: char) -> nat {
    encode_scalar(c as u32).len()
}

/// Number of bytes that `s` takes in UTF-8.
pub open spec fn byte_len(s: Seq<char>) -> nat {
    encode_utf8(s).len()
}

/// What is left of `s` once its first `bytes` bytes have been passed; a
/// character that straddles the position is passed as a whole.
pub open spec fn chars_from(s: Seq<char>, bytes: int) -> Seq<char>
    decreases s.len(),
{
    if bytes <= 0 || s.len() == 0 {
        s
    } else {
        chars_from(s.drop_first(), bytes - char_width(s[0]))
    }
}

/// Every character takes one to four bytes, and exactly one when it is ASCII.
pub broadcast proof fn lemma_char_width(c: char)
    ensures
        1 <= #[trigger] char_width(c) <= 4,
        (c as u32) < 0x80 <==> char_width(c) == 1,
{
}

/// An ASCII character is encoded as itself, and every byte of any other
/// character lies beyond ASCII.
pub proof fn lemma_scalar_bytes(c: char)
    ensures
        (c as u32) < 0x80 ==> encode_scalar(c as u32) == seq![c as u8],
        (c as u32) >= 0x80 ==> forall|i: int|
            0 <= i < encode_scalar(c as u32).len() ==> #[trigger] encode_scalar(c as u32)[i]
                >= 0x80,
{
    vstd::utf8::char_is_scalar(c);
    let u = c as u32;
    assert(u <= 0x7f ==> (u & 0x7f) as u8 == u) by (bit_vector);
    assert(forall|x: u8| #[trigger] (0x80u8 | x) >= 0x80) by (bit_vector);
    assert(forall|x: u8| #[trigger] (0xc0u8 | x) >= 0x80) by (bit_vector);
    assert(forall|x: u8| #[trigger] (0xe0u8 | x) >= 0x80) by (bit_vector);
    assert(forall|x: u8| #[trigger] (0xf0u8 | x) >= 0x80) by (bit_vector);
    if u < 0x80 {
        assert(encode_scalar(u) =~= seq![c as u8]);
    }
}

/// Encoding distributes over concatenation.
pub proof fn lemma_encode_concat(a: Seq<char>, b: Seq<char>)
    ensures
        encode_utf8(a + b) == encode_utf8(a) + encode_utf8(b),
    decreases a.len(),
{
    if a.len() == 0 {
        assert(a + b =~= b);
        assert(encode_utf8(a) + encode_utf8(b) =~= encode_utf8(b));
    } else {
        assert((a + b).drop_first() =~= a.drop_first() + b);
        lemma_encode_concat(a.drop_first(), b);
        assert(encode_utf8(a + b) =~= encode_utf8(a) + encode_utf8(b));
    }
}

pub proof fn lemma_byte_len_concat(a: Seq<char>, b: Seq<char>)
    ensures
        byte_len(a + b) == byte_len(a) + byte_len(b),
{
    lemma_encode_concat(a, b);
}

pub proof fn lemma_byte_len_one(c: char)
    ensures
        byte_len(seq![c]) == char_width(c),
        encode_utf8(seq![c]) == encode_scalar(c as u32),
{
    reveal_with_fuel(encode_utf8, 2);
    assert(seq![c].drop_first() =~= Seq::<char>::empty());
    assert(encode_utf8(seq![c]) =~= encode_scalar(c as u32));
}

pub proof fn lemma_byte_len_push(s: Seq<char>, c: char)
    ensures
        byte_len(s.push(c)) == byte_len(s) + char_width(c),
{
    assert(s.push(c) =~= s + seq![c]);
    lemma_byte_len_concat(s, seq![c]);
    lemma_byte_len_one(c);
}

pub proof fn lemma_byte_len_cons(c: char, s: Seq<char>)
    ensures
        byte_len(seq![c] + s) == char_width(c) + byte_len(s),
{
    lemma_byte_len_concat(seq![c], s);
    lemma_byte_len_one(c);
}

/// A text has at least as many bytes as characters.
pub proof fn lemma_byte_len_at_least(s: Seq<char>)
    ensures
        byte_len(s) >= s.len(),
        byte_len(s) == 0 <==> s.len() == 0,
    decreases s.len(),
{
    if s.len() > 0 {
        lemma_char_width(s[0]);
        lemma_byte_len_at_least(s.drop_first());
        assert(s =~= seq![s[0]] + s.drop_first());
        lemma_byte_len_cons(s[0], s.drop_first());
    }
}

/// The end of a prefix is a character boundary, and the text splits there.
pub proof fn lemma_prefix_boundary(a: Seq<char>, b: Seq<char>)
    ensures
        is_char_boundary(encode_utf8(a + b), byte_len(a) as int),
        encode_utf8(a + b).subrange(0, byte_len(a) as int) == encode_utf8(a),
        encode_utf8(a + b).subrange(byte_len(a) as int, byte_len(a + b) as int) == encode_utf8(b),
{
    lemma_encode_concat(a, b);
    let bytes = encode_utf8(a + b);
    let i = byte_len(a) as int;
    assert(bytes.subrange(0, i) =~= encode_utf8(a));
    assert(bytes.subrange(i, bytes.len() as int) =~= encode_utf8(b));
    if b.len() == 0 {
        assert(encode_utf8(b).len() == 0);
        vstd::utf8::is_char_boundary_start_end_of_seq(bytes);
    } else {
        vstd::utf8::encode_utf8_first_scalar(b);
        assert(bytes[i] == encode_utf8(b)[0]);
        vstd::utf8::is_char_boundary_iff_not_is_continuation_byte(bytes, i);
    }
}

/// At a character boundary, a text is the concatenation of what its bytes
/// before and after the boundary encode.
pub proof fn lemma_boundary_splits(s: Seq<char>, i: int) -> (r: (Seq<char>, Seq<char>))
    requires
        is_char_boundary(encode_utf8(s), i),
    ensures
        s == r.0 + r.1,
        byte_len(r.0) == i,
        encode_utf8(r.0) == encode_utf8(s).subrange(0, i),
        encode_utf8(r.1) == encode_utf8(s).subrange(i, byte_len(s) as int),
{
    let bytes = encode_utf8(s);
    let a = vstd::utf8::decode_utf8(bytes.subrange(0, i));
    let b = vstd::utf8::decode_utf8(bytes.subrange(i, bytes.len() as int));
    lemma_boundary_in_range(bytes, i);
    vstd::utf8::valid_utf8_split(bytes, i);
    vstd::utf8::decode_utf8_split(bytes, i);
    vstd::utf8::encode_utf8_decode_utf8(s);
    (a, b)
}

pub proof fn lemma_boundary_in_range(bytes: Seq<u8>, i: int)
    requires
        vstd::utf8::valid_utf8(bytes),
        is_char_boundary(bytes, i),
    ensures
        0 <= i <= bytes.len(),
{
    reveal_with_fuel(is_char_boundary, 2);
}

/// Two texts with the same bytes are the same text.
pub proof fn lemma_encode_injective(a: Seq<char>, b: Seq<char>)
    requires
        encode_utf8(a) == encode_utf8(b),
    ensures
        a == b,
{
    vstd::utf8::encode_utf8_decode_utf8(a);
    vstd::utf8::encode_utf8_decode_utf8(b);
}

/// A split of a text is fixed by the number of bytes before it.
pub proof fn lemma_split_unique(a: Seq<char>, b: Seq<char>, c: Seq<char>, d: Seq<char>)
    requires
        a + b == c + d,
        byte_len(a) == byte_len(c),
    ensures
        a == c,
        b == d,
{
    lemma_prefix_boundary(a, b);
    lemma_prefix_boundary(c, d);
    lemma_encode_injective(a, c);
    lemma_encode_injective(b, d);
}

/// Passing exactly the bytes of a prefix leaves what follows it.
pub proof fn lemma_chars_from_prefix(a: Seq<char>, b: Seq<char>)
    ensures
        chars_from(a + b, byte_len(a) as int) == b,
    decreases a.len(),
{
    lemma_byte_len_at_least(a);
    if a.len() == 0 {
        assert(a + b =~= b);
    } else {
        let t = a.drop_first();
        assert(a =~= seq![a[0]] + t);
        lemma_byte_len_cons(a[0], t);
        assert((a + b).drop_first() =~= t + b);
        lemma_chars_from_prefix(t, b);
        lemma_byte_len_at_least(a);
    }
}

// ---------------------------------------------------------------------------
// Standard-library functions whose behaviour is taken from their documentation
// ---------------------------------------------------------------------------

/// `String::push` appends the given character to the end of the text.
pub assume_specification[ String::push ](s: &mut String, c: char)
    ensures
        final(s)@ == old(s)@.push(c),
;

/// `char::len_utf8` is the number of bytes the character takes in UTF-8.
pub assume_specification[ char::len_utf8 ](c: char) -> (n: usize)
    ensures
        n == char_width(c),
;

/// The characters with the Unicode `White_Space` property.
pub open spec fn is_white_space(c: char) -> bool {
    ||| '\u{9}' <= c <= '\u{d}'
    ||| c == ' '
    ||| c == '\u{85}'
    ||| c == '\u{a0}'
    ||| c == '\u{1680}'
    ||| '\u{2000}' <= c <= '\u{200a}'
    ||| c == '\u{2028}'
    ||| c == '\u{2029}'
    ||| c == '\u{202f}'
    ||| c == '\u{205f}'
    ||| c == '\u{3000}'
}

/// `char::is_whitespace` tells whether the character has the `White_Space`
/// property; the characters that have it are those of [`is_white_space`].
pub assume_specification[ char::is_whitespace ](c: char) -> (b: bool)
    ensures
        b == is_white_space(c),
;

// ---------------------------------------------------------------------------
// Walking a text
// ---------------------------------------------------------------------------

/// Number of bytes of `s`.
pub fn byte_count(s: &str) -> (n: usize)
    ensures
        n == byte_len(s@),
{
    s.as_bytes().len()
}

/// Split `s` at the byte offset `mid`.
pub fn split_str(s: &str, mid: usize) -> (r: (&str, &str))
    requires
        is_char_boundary(encode_utf8(s@), mid as int),
    ensures
        s@ == r.0@ + r.1@,
        byte_len(r.0@) == mid,
{
    let r = s.split_at(mid);
    proof {
        let p = lemma_boundary_splits(s@, mid as int);
        lemma_encode_injective(p.0, r.0@);
        lemma_encode_injective(p.1, r.1@);
    }
    r
}

/// The first character of `s` and what follows it.
pub fn next_char(s: &str) -> (r: Option<(char, &str)>)
    ensures
        (match r {
            None => s@.len() == 0,
            Some((c, rest)) => s@.len() > 0 && c == s@[0] && rest@ == s@.drop_first(),
        }),
{
    let mut it = s.chars();
    match it.next() {
        None => None,
        Some(c) => {
            proof {
                assert(s@ =~= seq![c] + s@.drop_first());
                lemma_prefix_boundary(seq![c], s@.drop_first());
                lemma_byte_len_one(c);
            }
            let parts = split_str(s, c.len_utf8());
            proof {
                lemma_byte_len_one(c);
                lemma_split_unique(seq![c], s@.drop_first(), parts.0@, parts.1@);
            }
            Some((c, parts.1))
        },
    }
}

/// The characters of `s`.
pub fn chars_of(s: &str) -> (r: Vec<char>)
    ensures
        r@ == s@,
{
    let mut out: Vec<char> = Vec::new();
    let mut rest: &str = s;
    proof {
        assert(out@ + rest@ =~= s@);
    }
    loop
        invariant
            out@ + rest@ == s@,
        ensures
            out@ == s@,
        decreases rest@.len(),
    {
        match next_char(rest) {
            None => {
                proof {
                    assert(out@ + rest@ =~= out@);
                }
                break;
            },
            Some((c, tail)) => {
                out.push(c);
                rest = tail;
                proof {
                    assert(out@ + rest@ =~= s@);
                }
            },
        }
    }
    out
}

/// Whether two texts are equal.
pub fn str_eq(a: &str, b: &str) -> (r: bool)
    ensures
        r == (a@ == b@),
{
    let x = a.as_bytes();
    let y = b.as_bytes();
    if x.len() != y.len() {
        return false;
    }
    let mut i: usize = 0;
    while i < x.len()
        invariant
            x@ == encode_utf8(a@),
            y@ == encode_utf8(b@),
            x@.len() == y@.len(),
            i <= x@.len(),
            x@.subrange(0, i as int) =~= y@.subrange(0, i as int),
        decreases x@.len() - i,
    {
        if x[i] != y[i] {
            return false;
        }
        i = i + 1;
        proof {
            assert(x@.subrange(0, i as int) =~= x@.subrange(0, i - 1).push(x@[i - 1]));
            assert(y@.subrange(0, i as int) =~= y@.subrange(0, i - 1).push(y@[i - 1]));
        }
    }
    proof {
        assert(x@ =~= x@.subrange(0, i as int));
        assert(y@ =~= y@.subrange(0, i as int));
        lemma_encode_injective(a@, b@);
    }
    true
}


// ---------------------------------------------------------------------------
// Splitting
// ---------------------------------------------------------------------------

/// Position of the first `sep` in `s`, or the length of `s` without one.
pub open spec fn first_of(s: Seq<char>, sep: char) -> int
    decreases s.len(),
{
    if s.len() == 0 || s[0] == sep {
        0
    } else {
        1 + first_of(s.drop_first(), sep)
    }
}

pub proof fn lemma_first_of(s: Seq<char>, sep: char)
    ensures
        0 <= first_of(s, sep) <= s.len(),
        first_of(s, sep) < s.len() ==> s[first_of(s, sep)] == sep,
        forall|i: int| 0 <= i < first_of(s, sep) ==> s[i] != sep,
    decreases s.len(),
{
    if s.len() > 0 && s[0] != sep {
        let t = s.drop_first();
        lemma_first_of(t, sep);
        assert forall|i: int| 0 <= i < first_of(s, sep) implies s[i] != sep by {
            if i > 0 {
                assert(s[i] == t[i - 1]);
            }
        }
    }
}

/// The pieces of `s` between the occurrences of `sep`: one more than there are
/// occurrences.
pub open spec fn split_on(s: Seq<char>, sep: char) -> Seq<Seq<char>>
    decreases s.len(),
{
    let k = first_of(s, sep);
    if 0 <= k < s.len() {
        seq![s.take(k)] + split_on(s.skip(k + 1), sep)
    } else {
        seq![s]
    }
}

/// What a list of texts stands for.
pub open spec fn texts(v: Seq<&str>) -> Seq<Seq<char>> {
    Seq::new(v.len(), |i: int| v[i]@)
}

/// What a list of owned texts stands for.
pub open spec fn strings(v: Seq<String>) -> Seq<Seq<char>> {
    Seq::new(v.len(), |i: int| v[i]@)
}

/// What an optional owned text stands for.
pub open spec fn opt_string(s: Option<String>) -> Option<Seq<char>> {
    match s {
        Some(t) => Some(t@),
        None => None,
    }
}

/// What an optional text stands for.
pub open spec fn opt_text(s: Option<&str>) -> Option<Seq<char>> {
    match s {
        Some(t) => Some(t@),
        None => None,
    }
}

/// The part of `s` before the first `sep`, and the part after it if there is
/// one.
pub fn split_first<'a>(s: &'a str, sep: char) -> (r: (&'a str, Option<&'a str>))
    ensures
        r.0@ == s@.take(first_of(s@, sep)),
        (match r.1 {
            Some(rest) => first_of(s@, sep) < s@.len() && rest@ == s@.skip(first_of(s@, sep) + 1),
            None => first_of(s@, sep) == s@.len(),
        }),
{
    let mut rest: &str = s;
    let mut n: usize = 0;
    let ghost mut k: int = 0;
    proof {
        assert(s@.take(0) =~= Seq::<char>::empty());
        assert(s@.skip(0) =~= s@);
        lemma_byte_len_at_least(s@.take(0));
    }
    let total = byte_count(s);
    loop
        invariant
            0 <= k <= s@.len(),
            rest@ == s@.skip(k),
            n == byte_len(s@.take(k)),
            first_of(s@, sep) == k + first_of(rest@, sep),
            total == byte_len(s@),
        decreases rest@.len(),
    {
        match next_char(rest) {
            None => {
                proof {
                    assert(s@.take(k) =~= s@);
                }
                return (s, None);
            },
            Some((c, tail)) => {
                proof {
                    assert(s@ =~= s@.take(k) + s@.skip(k));
                    lemma_prefix_boundary(s@.take(k), s@.skip(k));
                }
                if c == sep {
                    let parts = split_str(s, n);
                    proof {
                        lemma_split_unique(s@.take(k), s@.skip(k), parts.0@, parts.1@);
                        assert(s@.skip(k).drop_first() =~= s@.skip(k + 1));
                    }
                    return (parts.0, Some(tail));
                }
                proof {
                    assert(s@.take(k + 1) =~= s@.take(k).push(c));
                    lemma_byte_len_push(s@.take(k), c);
                    assert(s@ =~= s@.take(k + 1) + s@.skip(k + 1));
                    lemma_byte_len_concat(s@.take(k + 1), s@.skip(k + 1));
                    assert(s@.skip(k).drop_first() =~= s@.skip(k + 1));
                    k = k + 1;
                }
                n = n + c.len_utf8();
                rest = tail;
            },
        }
    }
}

/// The pieces of `s` between the occurrences of `sep`.
pub fn split_by<'a>(s: &'a str, sep: char) -> (r: Vec<&'a str>)
    ensures
        texts(r@) == split_on(s@, sep),
{
    let mut out: Vec<&'a str> = Vec::new();
    let mut rest: &'a str = s;
    proof {
        assert(texts(out@) + split_on(rest@, sep) =~= split_on(s@, sep));
    }
    loop
        invariant
            texts(out@) + split_on(rest@, sep) == split_on(s@, sep),
        decreases rest@.len(),
    {
        let (piece, tail) = split_first(rest, sep);
        let ghost before = out@;
        out.push(piece);
        proof {
            lemma_first_of(rest@, sep);
            assert(texts(out@) =~= texts(before).push(piece@));
        }
        match tail {
            Some(t) => {
                proof {
                    assert(texts(out@) + split_on(t@, sep) =~= texts(before) + split_on(
                        rest@,
                        sep,
                    ));
                }
                rest = t;
            },
            None => {
                proof {
                    assert(rest@.take(first_of(rest@, sep)) =~= rest@);
                    assert(texts(out@) =~= texts(before) + split_on(rest@, sep));
                }
                return out;
            },
        }
    }
}

} // verus!
