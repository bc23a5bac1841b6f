//! Operations on texts: trimming, lines, joining, replacing.
use vstd::prelude::*;

use crate::text::{
    byte_count, byte_len, chars_of, first_of, is_white_space, lemma_byte_len_concat,
    lemma_byte_len_push, lemma_first_of, lemma_prefix_boundary, lemma_split_unique, next_char,
    split_first, split_on, split_str, strings, texts,
};

verus! {

/// Split `s` before its character number `k`.
pub fn split_chars<'a>(s: &'a str, k: usize) -> (r: (&'a str, &'a str))
    requires
        k <= s@.len(),
    ensures
        r.0@ == s@.take(k as int),
        r.1@ == s@.skip(k as int),
{
    let mut rest: &str = s;
    let mut n: usize = 0;
    let mut i: usize = 0;
    let total = byte_count(s);
    proof {
        assert(s@.take(0) =~= Seq::<char>::empty());
        assert(s@.skip(0) =~= s@);
    }
    while i < k
        invariant
            i <= k <= s@.len(),
            rest@ == s@.skip(i as int),
            n == byte_len(s@.take(i as int)),
            total == byte_len(s@),
        decreases k - i,
    {
        match next_char(rest) {
            None => {},
            Some((c, tail)) => {
                proof {
                    assert(s@.take(i + 1) =~= s@.take(i as int).push(c));
                    lemma_byte_len_push(s@.take(i as int), c);
                    assert(s@ =~= s@.take(i + 1) + s@.skip(i + 1));
                    lemma_byte_len_concat(s@.take(i + 1), s@.skip(i + 1));
                    assert(s@.skip(i as int).drop_first() =~= s@.skip(i + 1));
                }
                n = n + c.len_utf8();
                rest = tail;
            },
        }
        i = i + 1;
    }
    proof {
        assert(s@ =~= s@.take(k as int) + s@.skip(k as int));
        lemma_prefix_boundary(s@.take(k as int), s@.skip(k as int));
    }
    let parts = split_str(s, n);
    proof {
        lemma_split_unique(s@.take(k as int), s@.skip(k as int), parts.0@, parts.1@);
    }
    parts
}

// ---------------------------------------------------------------------------
// Trimming
// ---------------------------------------------------------------------------

/// `s` without the white space in front.
pub open spec fn trim_start(s: Seq<char>) -> Seq<char>
    decreases s.len(),
{
    if s.len() > 0 && is_white_space(s[0]) {
        trim_start(s.drop_first())
    } else {
        s
    }
}

/// `s` without the white space at its end.
pub open spec fn trim_end(s: Seq<char>) -> Seq<char>
    decreases s.len(),
{
    if s.len() > 0 && is_white_space(s.last()) {
        trim_end(s.drop_last())
    } else {
        s
    }
}

/// `s` without the white space on both sides.
pub open spec fn trimmed(s: Seq<char>) -> Seq<char> {
    trim_end(trim_start(s))
}

/// `s` without leading and trailing white space.
pub fn trim<'a>(s: &'a str) -> (r: &'a str)
    ensures
        r@ == trimmed(s@),
{
    let mut rest: &'a str = s;
    loop
        invariant
            trim_start(rest@) == trim_start(s@),
        ensures
            rest@ == trim_start(s@),
        decreases rest@.len(),
    {
        match next_char(rest) {
            None => {
                break;
            },
            Some((c, tail)) => {
                if !c.is_whitespace() {
                    break;
                }
                rest = tail;
            },
        }
    }
    let chars = chars_of(rest);
    let mut n: usize = chars.len();
    proof {
        assert(rest@.take(n as int) =~= rest@);
    }
    while n > 0 && chars[n - 1].is_whitespace()
        invariant
            chars@ == rest@,
            n <= chars@.len(),
            trim_end(rest@.take(n as int)) == trim_end(rest@),
        decreases n,
    {
        proof {
            assert(rest@.take(n as int).drop_last() =~= rest@.take(n - 1));
        }
        n = n - 1;
    }
    split_chars(rest, n).0
}

// ---------------------------------------------------------------------------
// Lines
// ---------------------------------------------------------------------------

/// A line without the carriage return that may stand before its newline.
pub open spec fn chomped(s: Seq<char>) -> Seq<char> {
    if s.len() > 0 && s.last() == '\r' {
        s.drop_last()
    } else {
        s
    }
}

/// The lines of `s`, without the newlines (or carriage returns and newlines)
/// that end them; the last one need not be ended.
pub open spec fn text_lines(s: Seq<char>) -> Seq<Seq<char>>
    decreases s.len(),
{
    let k = first_of(s, '\n');
    if s.len() == 0 {
        Seq::empty()
    } else if 0 <= k < s.len() {
        seq![chomped(s.take(k))] + text_lines(s.skip(k + 1))
    } else {
        seq![s]
    }
}

/// The lines of `s`.
pub fn lines_of<'a>(s: &'a str) -> (r: Vec<&'a str>)
    ensures
        texts(r@) == text_lines(s@),
{
    let mut out: Vec<&'a str> = Vec::new();
    let mut rest: &'a str = s;
    proof {
        assert(texts(out@) + text_lines(rest@) =~= text_lines(s@));
    }
    loop
        invariant
            texts(out@) + text_lines(rest@) == text_lines(s@),
        decreases rest@.len(),
    {
        if rest.is_empty() {
            proof {
                assert(texts(out@) + text_lines(rest@) =~= texts(out@));
            }
            return out;
        }
        let (piece, tail) = split_first(rest, '\n');
        let ghost before = out@;
        proof {
            lemma_first_of(rest@, '\n');
        }
        match tail {
            Some(t) => {
                let line = chomp(piece);
                out.push(line);
                proof {
                    assert(texts(out@) =~= texts(before).push(line@));
                    assert(texts(out@) + text_lines(t@) =~= texts(before) + text_lines(rest@));
                }
                rest = t;
            },
            None => {
                out.push(piece);
                proof {
                    assert(rest@.take(first_of(rest@, '\n')) =~= rest@);
                    assert(texts(out@) =~= texts(before) + text_lines(rest@));
                }
                return out;
            },
        }
    }
}

/// The lines of a text are the pieces between its newlines, one for one, but for
/// a carriage return at the end of a piece and for an empty piece behind the
/// last newline.
pub proof fn law_lines_are_pieces(s: Seq<char>)
    ensures
        ({
            let lines = text_lines(s);
            let pieces = split_on(s, '\n');
            let n = pieces.len();
            &&& lines.len() == (if pieces.last().len() == 0 {
                n - 1
            } else {
                n as int
            })
            &&& forall|i: int|
                0 <= i < lines.len() ==> #[trigger] lines[i] == (if i < n - 1 {
                    chomped(pieces[i])
                } else {
                    pieces[i]
                })
        }),
    decreases s.len(),
{
    lemma_first_of(s, '\n');
    let k = first_of(s, '\n');
    if k < s.len() {
        let t = s.skip(k + 1);
        law_lines_are_pieces(t);
        let lines = text_lines(s);
        let pieces = split_on(s, '\n');
        let more = split_on(t, '\n');
        assert(more.len() > 0);
        assert(pieces =~= seq![s.take(k)] + more);
        assert(lines =~= seq![chomped(s.take(k))] + text_lines(t));
        assert forall|i: int| 0 <= i < lines.len() implies #[trigger] lines[i] == (if i
            < pieces.len() - 1 {
            chomped(pieces[i])
        } else {
            pieces[i]
        }) by {
            if i > 0 {
                assert(lines[i] == text_lines(t)[i - 1]);
                assert(pieces[i] == more[i - 1]);
            }
        }
    }
}

fn chomp<'a>(s: &'a str) -> (r: &'a str)
    ensures
        r@ == chomped(s@),
{
    let chars = chars_of(s);
    let n: usize = chars.len();
    if n > 0 && chars[n - 1] == '\r' {
        proof {
            assert(s@.take(n - 1) =~= s@.drop_last());
        }
        split_chars(s, n - 1).0
    } else {
        s
    }
}

// ---------------------------------------------------------------------------
// Prefixes and suffixes
// ---------------------------------------------------------------------------

/// Whether `s` begins with `p`.
pub open spec fn begins_with(s: Seq<char>, p: Seq<char>) -> bool {
    p.len() <= s.len() && s.take(p.len() as int) == p
}

/// What follows the prefix `p` of `s`, if `s` begins with it.
pub fn strip_prefix<'a>(s: &'a str, p: &str) -> (r: Option<&'a str>)
    ensures
        r is Some <==> begins_with(s@, p@),
        r matches Some(rest) ==> rest@ == s@.skip(p@.len() as int),
{
    let mut rest: &'a str = s;
    let mut want: &str = p;
    let ghost mut k: int = 0;
    proof {
        assert(s@.skip(0) =~= s@);
        assert(p@.skip(0) =~= p@);
    }
    loop
        invariant
            0 <= k <= p@.len(),
            k <= s@.len(),
            rest@ == s@.skip(k),
            want@ == p@.skip(k),
            forall|i: int| 0 <= i < k ==> s@[i] == p@[i],
        decreases want@.len(),
    {
        match next_char(want) {
            None => {
                proof {
                    assert(s@.take(p@.len() as int) =~= p@);
                }
                return Some(rest);
            },
            Some((c, want_tail)) => {
                match next_char(rest) {
                    None => {
                        return None;
                    },
                    Some((d, tail)) => {
                        if c != d {
                            proof {
                                assert(s@[k] != p@[k]);
                                if begins_with(s@, p@) {
                                    assert(s@.take(p@.len() as int)[k] == p@[k]);
                                }
                            }
                            return None;
                        }
                        proof {
                            assert(s@.skip(k).drop_first() =~= s@.skip(k + 1));
                            assert(p@.skip(k).drop_first() =~= p@.skip(k + 1));
                            k = k + 1;
                        }
                        rest = tail;
                        want = want_tail;
                    },
                }
            },
        }
    }
}

/// Whether `s` begins with `p`.
pub fn starts_with(s: &str, p: &str) -> (r: bool)
    ensures
        r == begins_with(s@, p@),
{
    match strip_prefix(s, p) {
        Some(_) => true,
        None => false,
    }
}

// ---------------------------------------------------------------------------
// Joining and replacing
// ---------------------------------------------------------------------------

/// The parts with `sep` between them.
pub open spec fn join_texts(parts: Seq<Seq<char>>, sep: Seq<char>) -> Seq<char>
    decreases parts.len(),
{
    if parts.len() == 0 {
        Seq::empty()
    } else if parts.len() == 1 {
        parts[0]
    } else {
        join_texts(parts.drop_last(), sep) + sep + parts.last()
    }
}

/// The parts with `sep` between them.
pub fn join(parts: &[String], sep: &str) -> (r: String)
    ensures
        r@ == join_texts(strings(parts@), sep@),
{
    let mut out = String::new();
    let mut i: usize = 0;
    proof {
        assert(strings(parts@).take(0) =~= Seq::<Seq<char>>::empty());
    }
    while i < parts.len()
        invariant
            i <= parts@.len(),
            out@ == join_texts(strings(parts@).take(i as int), sep@),
        decreases parts@.len() - i,
    {
        let ghost before = strings(parts@).take(i as int);
        if i > 0 {
            out.append(sep);
        }
        out.append(parts[i].as_str());
        proof {
            let after = strings(parts@).take(i + 1);
            assert(after.drop_last() =~= before);
            if i == 0 {
                assert(out@ =~= parts@[0]@);
            }
        }
        i = i + 1;
    }
    proof {
        assert(strings(parts@).take(i as int) =~= strings(parts@));
    }
    out
}

/// `s` with `with` in place of every `c`.
pub open spec fn replace_char(s: Seq<char>, c: char, with: Seq<char>) -> Seq<char>
    decreases s.len(),
{
    if s.len() == 0 {
        Seq::empty()
    } else {
        replace_char(s.drop_last(), c, with) + if s.last() == c {
            with
        } else {
            seq![s.last()]
        }
    }
}

/// Append `s`, with `with` in place of every `c`, to `out`.
pub fn push_replaced(out: &mut String, s: &str, c: char, with: &str)
    ensures
        final(out)@ == old(out)@ + replace_char(s@, c, with@),
{
    let mut rest: &str = s;
    let ghost mut k: int = 0;
    proof {
        assert(s@.take(0) =~= Seq::<char>::empty());
        assert(s@.skip(0) =~= s@);
        assert(out@ =~= old(out)@ + replace_char(s@.take(0), c, with@));
    }
    loop
        invariant
            0 <= k <= s@.len(),
            rest@ == s@.skip(k),
            out@ == old(out)@ + replace_char(s@.take(k), c, with@),
        ensures
            out@ == old(out)@ + replace_char(s@, c, with@),
        decreases rest@.len(),
    {
        match next_char(rest) {
            None => {
                proof {
                    assert(s@.take(k) =~= s@);
                }
                break;
            },
            Some((d, tail)) => {
                if d == c {
                    out.append(with);
                } else {
                    out.push(d);
                }
                proof {
                    assert(s@.take(k + 1).drop_last() =~= s@.take(k));
                    assert(out@ =~= old(out)@ + replace_char(s@.take(k + 1), c, with@));
                    assert(s@.skip(k).drop_first() =~= s@.skip(k + 1));
                    k = k + 1;
                }
                rest = tail;
            },
        }
    }
}

/// Whether `a` directly followed by `b` occurs in `s`.
pub open spec fn has_pair(s: Seq<char>, a: char, b: char) -> bool {
    exists|i: int| 0 <= i < s.len() - 1 && #[trigger] s[i] == a && s[i + 1] == b
}

/// `s` without the occurrences of `a` directly followed by `b`, taken from the
/// left.
pub open spec fn without_pair(s: Seq<char>, a: char, b: char) -> Seq<char>
    decreases s.len(),
{
    if s.len() < 2 {
        s
    } else if s[0] == a && s[1] == b {
        without_pair(s.skip(2), a, b)
    } else {
        seq![s[0]] + without_pair(s.drop_first(), a, b)
    }
}

/// `s` without the occurrences of `a` directly followed by `b`, and whether
/// there were any.
pub fn remove_pair(s: &str, a: char, b: char) -> (r: (String, bool))
    ensures
        r.0@ == without_pair(s@, a, b),
        r.1 == has_pair(s@, a, b),
{
    let chars = chars_of(s);
    let n: usize = chars.len();
    let mut out = String::new();
    let mut found = false;
    let mut i: usize = 0;
    proof {
        assert(s@.skip(0) =~= s@);
        assert(out@ + without_pair(s@, a, b) =~= without_pair(s@, a, b));
    }
    while i < n
        invariant
            chars@ == s@,
            n == s@.len(),
            i <= n,
            out@ + without_pair(s@.skip(i as int), a, b) == without_pair(s@, a, b),
            found ==> has_pair(s@, a, b),
            !found ==> forall|j: int|
                0 <= j < i && j + 1 < n && #[trigger] s@[j] == a ==> s@[j + 1] != b,
        decreases n - i,
    {
        let ghost rest = s@.skip(i as int);
        if n - i >= 2 && chars[i] == a && chars[i + 1] == b {
            proof {
                assert(s@[i as int] == a && s@[i + 1] == b);
                assert(rest.skip(2) =~= s@.skip(i + 2));
            }
            found = true;
            i = i + 2;
        } else {
            let c = chars[i];
            proof {
                assert(rest.drop_first() =~= s@.skip(i + 1));
                if rest.len() < 2 {
                    assert(rest =~= seq![c] + without_pair(s@.skip(i + 1), a, b));
                }
                assert(out@.push(c) + without_pair(s@.skip(i + 1), a, b) =~= out@ + (seq![c]
                    + without_pair(s@.skip(i + 1), a, b)));
            }
            out.push(c);
            i = i + 1;
        }
    }
    proof {
        assert(out@ + without_pair(s@.skip(i as int), a, b) =~= out@);
    }
    (out, found)
}

/// `n` spaces.
pub open spec fn spaces(n: int) -> Seq<char> {
    Seq::new(
        if n > 0 {
            n as nat
        } else {
            0
        },
        |i: int| ' ',
    )
}

/// `s` behind as many spaces as bring it to `width` characters.
pub open spec fn padded_left(s: Seq<char>, width: int) -> Seq<char> {
    spaces(width - s.len()) + s
}

/// `s` before as many spaces as bring it to `width` characters.
pub open spec fn padded_right(s: Seq<char>, width: int) -> Seq<char> {
    s + spaces(width - s.len())
}

/// Append `n` spaces to `out`.
pub fn push_spaces(out: &mut String, n: usize)
    ensures
        final(out)@ == old(out)@ + spaces(n as int),
{
    let mut i: usize = 0;
    proof {
        assert(out@ =~= old(out)@ + spaces(0));
    }
    while i < n
        invariant
            i <= n,
            out@ == old(out)@ + spaces(i as int),
        decreases n - i,
    {
        out.push(' ');
        i = i + 1;
        proof {
            assert(out@ =~= old(out)@ + spaces(i as int));
        }
    }
}

/// Append `s`, brought to `width` characters by spaces in front, to `out`.
pub fn push_padded(out: &mut String, s: &str, width: usize)
    ensures
        final(out)@ == old(out)@ + padded_left(s@, width as int),
{
    let n: usize = chars_of(s).len();
    let ghost start = out@;
    if n < width {
        push_spaces(out, width - n);
    } else {
        proof {
            assert(out@ =~= start + spaces(width - n));
        }
    }
    out.append(s);
    proof {
        assert(out@ =~= start + padded_left(s@, width as int));
    }
}

/// Append `s`, brought to `width` characters by spaces behind, to `out`.
pub fn push_padded_right(out: &mut String, s: &str, width: usize)
    ensures
        final(out)@ == old(out)@ + padded_right(s@, width as int),
{
    let n: usize = chars_of(s).len();
    let ghost start = out@;
    out.append(s);
    if n < width {
        push_spaces(out, width - n);
    }
    proof {
        assert(out@ =~= start + padded_right(s@, width as int));
    }
}

} // verus!
