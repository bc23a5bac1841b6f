//! A text with a position in it: moving, inserting and deleting.
use vstd::prelude::*;
use vstd::utf8::{encode_utf8, is_char_boundary};

use crate::text::{
    byte_count, byte_len, char_width, chars_from, chars_of, is_white_space, lemma_boundary_splits,
    lemma_byte_len_at_least, lemma_byte_len_concat, lemma_byte_len_cons, lemma_chars_from_prefix,
    lemma_prefix_boundary, next_char, split_str,
};
use crate::text_tools::{split_chars, trim_end, trim_start};

verus! {

/// The text in front of and behind a position.
#[verifier::ext_equal]
pub struct Caret {
    pub before: Seq<char>,
    pub after: Seq<char>,
}

/// The characters of `s` that start within its first `bytes` bytes.
pub open spec fn chars_until(s: Seq<char>, bytes: int) -> Seq<char>
    decreases s.len(),
{
    if bytes <= 0 || s.len() == 0 {
        Seq::empty()
    } else {
        seq![s[0]] + chars_until(s.drop_first(), bytes - char_width(s[0]))
    }
}

/// The position at byte `cursor` of `content`.
pub open spec fn caret_at(content: Seq<char>, cursor: int) -> Caret {
    Caret { before: chars_until(content, cursor), after: chars_from(content, cursor) }
}

/// Whether `cursor` is between two characters of `content`, or at an end of it.
pub open spec fn on_boundary(content: Seq<char>, cursor: int) -> bool {
    is_char_boundary(encode_utf8(content), cursor)
}

proof fn lemma_chars_until_prefix(a: Seq<char>, b: Seq<char>)
    ensures
        chars_until(a + b, byte_len(a) as int) == a,
    decreases a.len(),
{
    lemma_byte_len_at_least(a);
    if a.len() == 0 {
        assert(a + b =~= b);
        assert(chars_until(b, 0) =~= a);
    } else {
        let t = a.drop_first();
        assert(a =~= seq![a[0]] + t);
        lemma_byte_len_cons(a[0], t);
        assert((a + b).drop_first() =~= t + b);
        lemma_chars_until_prefix(t, b);
    }
}

/// The position between two texts that stand next to each other.
pub proof fn lemma_caret_between(a: Seq<char>, b: Seq<char>)
    ensures
        on_boundary(a + b, byte_len(a) as int),
        caret_at(a + b, byte_len(a) as int) == (Caret { before: a, after: b }),
{
    lemma_prefix_boundary(a, b);
    lemma_chars_until_prefix(a, b);
    lemma_chars_from_prefix(a, b);
}

/// A position splits the text.
pub proof fn lemma_caret_splits(content: Seq<char>, cursor: int)
    requires
        on_boundary(content, cursor),
    ensures
        content == caret_at(content, cursor).before + caret_at(content, cursor).after,
        byte_len(caret_at(content, cursor).before) == cursor,
{
    let (a, b) = lemma_boundary_splits(content, cursor);
    lemma_caret_between(a, b);
}

/// Both ends of a text are positions in it.
pub proof fn lemma_caret_ends(content: Seq<char>)
    ensures
        on_boundary(content, 0),
        caret_at(content, 0) == (Caret { before: Seq::empty(), after: content }),
        on_boundary(content, byte_len(content) as int),
        caret_at(content, byte_len(content) as int) == (Caret {
            before: content,
            after: Seq::empty(),
        }),
{
    let e = Seq::<char>::empty();
    assert(e + content =~= content);
    assert(content + e =~= content);
    assert(encode_utf8(e) =~= Seq::<u8>::empty());
    lemma_caret_between(e, content);
    lemma_caret_between(content, e);
}

// ---------------------------------------------------------------------------
// What editing does
// ---------------------------------------------------------------------------

/// At the start of the text.
pub open spec fn caret_home(c: Caret) -> Caret {
    Caret { before: Seq::empty(), after: c.before + c.after }
}

/// At the end of the text.
pub open spec fn caret_end(c: Caret) -> Caret {
    Caret { before: c.before + c.after, after: Seq::empty() }
}

/// One character back.
pub open spec fn caret_left(c: Caret) -> Caret {
    if c.before.len() == 0 {
        c
    } else {
        Caret { before: c.before.drop_last(), after: seq![c.before.last()] + c.after }
    }
}

/// One character on.
pub open spec fn caret_right(c: Caret) -> Caret {
    if c.after.len() == 0 {
        c
    } else {
        Caret { before: c.before.push(c.after[0]), after: c.after.drop_first() }
    }
}

/// The character in front of the position is gone.
pub open spec fn caret_backspace(c: Caret) -> Caret {
    if c.before.len() == 0 {
        c
    } else {
        Caret { before: c.before.drop_last(), after: c.after }
    }
}

/// The character behind the position is gone.
pub open spec fn caret_delete(c: Caret) -> Caret {
    if c.after.len() == 0 {
        c
    } else {
        Caret { before: c.before, after: c.after.drop_first() }
    }
}

/// `text` stands in front of the position.
pub open spec fn caret_insert(c: Caret, text: Seq<char>) -> Caret {
    Caret { before: c.before + text, after: c.after }
}

/// `s` without the word at its end.
pub open spec fn drop_last_word(s: Seq<char>) -> Seq<char>
    decreases s.len(),
{
    if s.len() > 0 && !is_white_space(s.last()) {
        drop_last_word(s.drop_last())
    } else {
        s
    }
}

/// `s` without the word at its start.
pub open spec fn drop_first_word(s: Seq<char>) -> Seq<char>
    decreases s.len(),
{
    if s.len() > 0 && !is_white_space(s[0]) {
        drop_first_word(s.drop_first())
    } else {
        s
    }
}

/// What precedes the last word of `s`, which white space may follow.
pub open spec fn word_left(s: Seq<char>) -> Seq<char> {
    drop_last_word(trim_end(s))
}

/// What follows the first word of `s` and the white space behind it.
pub open spec fn word_right(s: Seq<char>) -> Seq<char> {
    trim_start(drop_first_word(s))
}

/// Back to the start of the word before the position.
pub open spec fn caret_word_left(c: Caret) -> Caret {
    let k = word_left(c.before).len() as int;
    Caret { before: c.before.take(k), after: c.before.skip(k) + c.after }
}

/// On to the start of the next word.
pub open spec fn caret_word_right(c: Caret) -> Caret {
    let k = c.after.len() - word_right(c.after).len();
    Caret { before: c.before + c.after.take(k), after: c.after.skip(k) }
}

proof fn lemma_trim_end_prefix(s: Seq<char>)
    ensures
        trim_end(s).len() <= s.len(),
        trim_end(s) == s.take(trim_end(s).len() as int),
    decreases s.len(),
{
    if s.len() > 0 && is_white_space(s.last()) {
        lemma_trim_end_prefix(s.drop_last());
        let k = trim_end(s).len() as int;
        assert(s.drop_last().take(k) =~= s.take(k));
    } else {
        assert(s.take(s.len() as int) =~= s);
    }
}

proof fn lemma_drop_last_word_prefix(s: Seq<char>)
    ensures
        drop_last_word(s).len() <= s.len(),
        drop_last_word(s) == s.take(drop_last_word(s).len() as int),
    decreases s.len(),
{
    if s.len() > 0 && !is_white_space(s.last()) {
        lemma_drop_last_word_prefix(s.drop_last());
        let k = drop_last_word(s).len() as int;
        assert(s.drop_last().take(k) =~= s.take(k));
    } else {
        assert(s.take(s.len() as int) =~= s);
    }
}

/// What precedes the last word is a prefix.
pub proof fn lemma_word_left_prefix(s: Seq<char>)
    ensures
        word_left(s).len() <= s.len(),
        word_left(s) == s.take(word_left(s).len() as int),
{
    lemma_trim_end_prefix(s);
    lemma_drop_last_word_prefix(trim_end(s));
    let k = word_left(s).len() as int;
    assert(trim_end(s).take(k) =~= s.take(k));
}

proof fn lemma_trim_start_suffix(s: Seq<char>)
    ensures
        trim_start(s).len() <= s.len(),
        trim_start(s) == s.skip(s.len() - trim_start(s).len()),
    decreases s.len(),
{
    if s.len() > 0 && is_white_space(s[0]) {
        lemma_trim_start_suffix(s.drop_first());
        let t = s.drop_first();
        let n = trim_start(s).len();
        assert(t.skip(t.len() - n) =~= s.skip(s.len() - n));
    } else {
        assert(s.skip(0) =~= s);
    }
}

proof fn lemma_drop_first_word_suffix(s: Seq<char>)
    ensures
        drop_first_word(s).len() <= s.len(),
        drop_first_word(s) == s.skip(s.len() - drop_first_word(s).len()),
    decreases s.len(),
{
    if s.len() > 0 && !is_white_space(s[0]) {
        lemma_drop_first_word_suffix(s.drop_first());
        let t = s.drop_first();
        let n = drop_first_word(s).len();
        assert(t.skip(t.len() - n) =~= s.skip(s.len() - n));
    } else {
        assert(s.skip(0) =~= s);
    }
}

/// What follows the first word is a suffix.
pub proof fn lemma_word_right_suffix(s: Seq<char>)
    ensures
        word_right(s).len() <= s.len(),
        word_right(s) == s.skip(s.len() - word_right(s).len()),
{
    lemma_drop_first_word_suffix(s);
    let d = drop_first_word(s);
    lemma_trim_start_suffix(d);
    let n = word_right(s).len();
    assert(d.skip(d.len() - n) =~= s.skip(s.len() - n));
}

// ---------------------------------------------------------------------------
// Doing it
// ---------------------------------------------------------------------------

/// The text in front of and behind the position.
pub fn split_caret<'a>(content: &'a str, cursor: usize) -> (r: (&'a str, &'a str))
    requires
        on_boundary(content@, cursor as int),
    ensures
        (Caret { before: r.0@, after: r.1@ }) == caret_at(content@, cursor as int),
        content@ == r.0@ + r.1@,
        byte_len(r.0@) == cursor,
{
    let r = split_str(content, cursor);
    proof {
        lemma_caret_between(r.0@, r.1@);
    }
    r
}

/// The text made of two parts, and the position between them.
pub(crate) fn place_caret(before: &str, after: &str) -> (r: (String, usize))
    ensures
        r.0@ == before@ + after@,
        on_boundary(r.0@, r.1 as int),
        caret_at(r.0@, r.1 as int) == (Caret { before: before@, after: after@ }),
{
    let mut content = before.to_owned();
    content.append(after);
    let cursor = byte_count(before);
    proof {
        lemma_caret_between(before@, after@);
    }
    (content, cursor)
}

/// Byte position before the character that precedes the position.
pub fn left_of(content: &str, cursor: usize) -> (r: usize)
    requires
        on_boundary(content@, cursor as int),
    ensures
        on_boundary(content@, r as int),
        caret_at(content@, r as int) == caret_left(caret_at(content@, cursor as int)),
{
    let (before, after) = split_caret(content, cursor);
    let chars = chars_of(before);
    let n: usize = chars.len();
    if n == 0 {
        cursor
    } else {
        let (front, _last) = split_chars(before, n - 1);
        proof {
            let c = caret_left(caret_at(content@, cursor as int));
            assert(front@ =~= c.before);
            assert(content@ =~= c.before + c.after);
            lemma_caret_between(c.before, c.after);
        }
        byte_count(front)
    }
}

/// Byte position behind the character that follows the position.
pub fn right_of(content: &str, cursor: usize) -> (r: usize)
    requires
        on_boundary(content@, cursor as int),
    ensures
        on_boundary(content@, r as int),
        caret_at(content@, r as int) == caret_right(caret_at(content@, cursor as int)),
{
    let (before, after) = split_caret(content, cursor);
    match next_char(after) {
        None => cursor,
        Some((_c, tail)) => {
            let total = byte_count(content);
            let rest = byte_count(tail);
            proof {
                let k = caret_right(caret_at(content@, cursor as int));
                assert(content@ =~= k.before + k.after);
                lemma_caret_between(k.before, k.after);
                lemma_byte_len_concat(k.before, k.after);
            }
            total - rest
        },
    }
}

/// Delete the character that precedes the position.
pub fn backspace_at(content: &mut String, cursor: &mut usize)
    requires
        on_boundary(old(content)@, *old(cursor) as int),
    ensures
        on_boundary(final(content)@, *final(cursor) as int),
        caret_at(final(content)@, *final(cursor) as int) == caret_backspace(
            caret_at(old(content)@, *old(cursor) as int),
        ),
        final(content)@ == caret_backspace(
            caret_at(old(content)@, *old(cursor) as int),
        ).before + caret_backspace(caret_at(old(content)@, *old(cursor) as int)).after,
{
    proof {
        lemma_caret_splits(content@, *cursor as int);
    }
    let (before, after) = split_caret(content.as_str(), *cursor);
    let chars = chars_of(before);
    let n: usize = chars.len();
    if n > 0 {
        let (front, _last) = split_chars(before, n - 1);
        proof {
            assert(front@ =~= before@.drop_last());
        }
        let (text, at) = place_caret(front, after);
        *content = text;
        *cursor = at;
    }
}

/// Delete the character that follows the position.
pub fn delete_at(content: &mut String, cursor: usize)
    requires
        on_boundary(old(content)@, cursor as int),
    ensures
        on_boundary(final(content)@, cursor as int),
        caret_at(final(content)@, cursor as int) == caret_delete(
            caret_at(old(content)@, cursor as int),
        ),
        final(content)@ == caret_delete(caret_at(old(content)@, cursor as int)).before
            + caret_delete(caret_at(old(content)@, cursor as int)).after,
{
    proof {
        lemma_caret_splits(content@, cursor as int);
    }
    let (before, after) = split_caret(content.as_str(), cursor);
    match next_char(after) {
        None => {},
        Some((_c, tail)) => {
            let (text, _at) = place_caret(before, tail);
            proof {
                lemma_caret_between(before@, tail@);
            }
            *content = text;
        },
    }
}

/// Insert `text` at the position, which moves behind it.
pub fn insert_at(content: &mut String, cursor: &mut usize, text: &str)
    requires
        on_boundary(old(content)@, *old(cursor) as int),
    ensures
        on_boundary(final(content)@, *final(cursor) as int),
        caret_at(final(content)@, *final(cursor) as int) == caret_insert(
            caret_at(old(content)@, *old(cursor) as int),
            text@,
        ),
        final(content)@ == caret_insert(
            caret_at(old(content)@, *old(cursor) as int),
            text@,
        ).before + caret_at(old(content)@, *old(cursor) as int).after,
{
    let (before, after) = split_caret(content.as_str(), *cursor);
    let mut front = before.to_owned();
    front.append(text);
    let (all, at) = place_caret(front.as_str(), after);
    *content = all;
    *cursor = at;
}

/// Insert the character `c` at the position, which moves behind it.
pub fn insert_char_at(content: &mut String, cursor: &mut usize, c: char)
    requires
        on_boundary(old(content)@, *old(cursor) as int),
    ensures
        on_boundary(final(content)@, *final(cursor) as int),
        caret_at(final(content)@, *final(cursor) as int) == caret_insert(
            caret_at(old(content)@, *old(cursor) as int),
            seq![c],
        ),
        final(content)@ == caret_insert(
            caret_at(old(content)@, *old(cursor) as int),
            seq![c],
        ).before + caret_at(old(content)@, *old(cursor) as int).after,
{
    let mut text = String::new();
    text.push(c);
    proof {
        assert(text@ =~= seq![c]);
    }
    insert_at(content, cursor, text.as_str());
}

/// Return the byte offset within `before_cursor` where the previous word begins.
/// Skips trailing whitespace, then skips backwards over the word characters.
pub fn word_left_pos(before_cursor: &str) -> (r: usize)
    ensures
        r == byte_len(word_left(before_cursor@)),
{
    let chars = chars_of(before_cursor);
    let mut i: usize = chars.len();
    let ghost s = before_cursor@;
    proof {
        assert(s.take(i as int) =~= s);
    }
    while i > 0 && chars[i - 1].is_whitespace()
        invariant
            chars@ == s,
            i <= s.len(),
            trim_end(s.take(i as int)) == trim_end(s),
        decreases i,
    {
        proof {
            assert(s.take(i as int).drop_last() =~= s.take(i - 1));
        }
        i = i - 1;
    }
    proof {
        assert(trim_end(s) == s.take(i as int));
    }
    while i > 0 && !chars[i - 1].is_whitespace()
        invariant
            chars@ == s,
            i <= s.len(),
            drop_last_word(s.take(i as int)) == word_left(s),
        decreases i,
    {
        proof {
            assert(s.take(i as int).drop_last() =~= s.take(i - 1));
        }
        i = i - 1;
    }
    byte_count(split_chars(before_cursor, i).0)
}

/// Return the byte offset within `after_cursor` where the next word begins.
/// Skips forward over the current word characters, then over any whitespace.
pub fn word_right_pos(after_cursor: &str) -> (r: usize)
    ensures
        r == byte_len(after_cursor@) - byte_len(word_right(after_cursor@)),
{
    let total = byte_count(after_cursor);
    let mut rest: &str = after_cursor;
    loop
        invariant
            drop_first_word(rest@) == drop_first_word(after_cursor@),
        ensures
            rest@ == drop_first_word(after_cursor@),
        decreases rest@.len(),
    {
        match next_char(rest) {
            None => {
                break;
            },
            Some((c, tail)) => {
                if c.is_whitespace() {
                    break;
                }
                rest = tail;
            },
        }
    }
    loop
        invariant
            trim_start(rest@) == word_right(after_cursor@),
        ensures
            rest@ == word_right(after_cursor@),
        decreases rest@.len(),
    {
        match next_char(rest) {
            None => {
                break;
            },
            Some((c, tail)) => {
                if !c.is_whitespace() {
                    break;
                }
                rest = tail;
            },
        }
    }
    proof {
        lemma_word_right_suffix(after_cursor@);
        let k = after_cursor@.len() - rest@.len();
        assert(after_cursor@ =~= after_cursor@.take(k) + rest@);
        lemma_byte_len_concat(after_cursor@.take(k), rest@);
    }
    total - byte_count(rest)
}

} // verus!
