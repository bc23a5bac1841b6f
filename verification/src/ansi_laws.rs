//! What holds of control sequences, line indexes and styled lines as a whole.
use vstd::prelude::*;
use vstd::utf8::{encode_scalar, encode_utf8};

use crate::ansi::{
    apply_sgr, default_state, empty_index, extended_index, final_byte_at, index_of, is_final_byte,
    is_letter, lemma_final_byte_at, lemma_letter_at, lemma_skip_token_bytes, letter_at, scan,
    skip_token, starts_escape, starts_escape_bytes, strip, strip_bytes, token, IndexView, Token,
};
use crate::ansi_lines::{
    ends_in_newline, flush, index_fits, line_start, parse, seek, step, visible_lines, window_lines,
    window_start, Highlights, ParseState,
};
use crate::style::{spans_text, SpanView};
use crate::text::{
    byte_len, chars_from, first_of, lemma_byte_len_at_least, lemma_byte_len_concat,
    lemma_char_width, lemma_chars_from_prefix, lemma_first_of, lemma_prefix_boundary,
    lemma_scalar_bytes, split_on,
};

verus! {

// ---------------------------------------------------------------------------
// Cutting a text in two
// ---------------------------------------------------------------------------

/// Whether a text leaves no control sequence open: wherever its reading comes
/// to an `ESC` that starts no complete sequence, what follows rules out that
/// one starts there.
pub open spec fn closed_text(s: Seq<char>) -> bool
    decreases s.len(),
{
    s.len() == 0 || {
        &&& s[0] == '\u{1b}' && !starts_escape(s) ==> s.len() >= 2 && s[1] != '['
        &&& closed_text(skip_token(s))
    }
}

proof fn lemma_letter_at_concat(a: Seq<char>, b: Seq<char>, from: int)
    requires
        0 <= from <= a.len(),
        letter_at(a, from) < a.len(),
    ensures
        letter_at(a + b, from) == letter_at(a, from),
    decreases a.len() - from,
{
    if from < a.len() && !is_letter(a[from]) {
        assert((a + b)[from] == a[from]);
        lemma_letter_at_concat(a, b, from + 1);
    }
}

/// The first token of a closed text is not affected by what follows the text.
proof fn lemma_token_concat(a: Seq<char>, b: Seq<char>)
    requires
        a.len() > 0,
        closed_text(a),
    ensures
        token(a + b) == token(a),
        skip_token(a + b) == skip_token(a) + b,
        closed_text(skip_token(a)),
{
    let s = a + b;
    assert(s[0] == a[0]);
    if starts_escape(a) {
        lemma_letter_at_concat(a, b, 2);
        let k = letter_at(a, 2);
        assert(s.subrange(2, k) =~= a.subrange(2, k));
        assert(s.skip(k + 1) =~= a.skip(k + 1) + b);
    } else {
        if a[0] == '\u{1b}' {
            assert(s[1] == a[1]);
        }
        assert(s.drop_first() =~= a.drop_first() + b);
    }
}

/// A text that continues a closed text is closed if the continuation is.
pub proof fn law_closed_concat(a: Seq<char>, b: Seq<char>)
    requires
        closed_text(a),
    ensures
        closed_text(a + b) == closed_text(b),
    decreases a.len(),
{
    if a.len() == 0 {
        assert(a + b =~= b);
    } else {
        lemma_token_concat(a, b);
        law_closed_concat(skip_token(a), b);
        assert((a + b)[0] == a[0]);
        if starts_escape(a) {
            lemma_letter_at_concat(a, b, 2);
        } else if a[0] == '\u{1b}' {
            assert((a + b)[1] == a[1]);
        }
    }
}

/// Removing control sequences can be done piece by piece, as long as no piece
/// ends inside a sequence.
pub proof fn law_strip_concat(a: Seq<char>, b: Seq<char>)
    requires
        closed_text(a),
    ensures
        strip(a + b) == strip(a) + strip(b),
    decreases a.len(),
{
    if a.len() == 0 {
        assert(a + b =~= b);
        assert(strip(a) + strip(b) =~= strip(b));
    } else {
        lemma_token_concat(a, b);
        law_strip_concat(skip_token(a), b);
        assert(strip(a + b) =~= strip(a) + strip(b));
    }
}

/// The same for a stream of bytes.
pub open spec fn closed_bytes(s: Seq<u8>) -> bool
    decreases s.len(),
{
    s.len() == 0 || {
        &&& s[0] == 0x1b && !starts_escape_bytes(s) ==> s.len() >= 2 && s[1] != 0x5b
        &&& closed_bytes(
            if starts_escape_bytes(s) {
                s.skip(final_byte_at(s, 2) + 1)
            } else {
                s.drop_first()
            },
        )
    }
}

proof fn lemma_final_byte_at_concat(a: Seq<u8>, b: Seq<u8>, from: int)
    requires
        0 <= from <= a.len(),
        final_byte_at(a, from) < a.len(),
    ensures
        final_byte_at(a + b, from) == final_byte_at(a, from),
    decreases a.len() - from,
{
    if from < a.len() && !is_final_byte(a[from]) {
        assert((a + b)[from] == a[from]);
        lemma_final_byte_at_concat(a, b, from + 1);
    }
}

/// Removing control sequences from bytes can be done piece by piece, as long as
/// no piece ends inside a sequence.
pub proof fn law_strip_bytes_concat(a: Seq<u8>, b: Seq<u8>)
    requires
        closed_bytes(a),
    ensures
        strip_bytes(a + b) == strip_bytes(a) + strip_bytes(b),
    decreases a.len(),
{
    if a.len() == 0 {
        assert(a + b =~= b);
        assert(strip_bytes(a) + strip_bytes(b) =~= strip_bytes(b));
    } else {
        let s = a + b;
        assert(s[0] == a[0]);
        if starts_escape_bytes(a) {
            lemma_final_byte_at_concat(a, b, 2);
            let k = final_byte_at(a, 2);
            assert(s.skip(k + 1) =~= a.skip(k + 1) + b);
            law_strip_bytes_concat(a.skip(k + 1), b);
        } else {
            if a[0] == 0x1b {
                assert(s[1] == a[1]);
            }
            assert(s.drop_first() =~= a.drop_first() + b);
            law_strip_bytes_concat(a.drop_first(), b);
            assert(strip_bytes(s) =~= strip_bytes(a) + strip_bytes(b));
        }
    }
}

/// Text without `ESC` is kept as it is.
pub proof fn law_strip_keeps_plain_text(s: Seq<char>)
    requires
        !s.contains('\u{1b}'),
    ensures
        strip(s) == s,
    decreases s.len(),
{
    if s.len() > 0 {
        assert(s.contains(s[0]));
        let t = s.drop_first();
        assert forall|c: char| t.contains(c) implies s.contains(c) by {
            let i = t.index_of(c);
            assert(s[i + 1] == c);
        }
        law_strip_keeps_plain_text(t);
        assert(seq![s[0]] + t =~= s);
    }
}

/// Bytes without `ESC` are kept as they are.
pub proof fn law_strip_bytes_keeps_plain(s: Seq<u8>)
    requires
        !s.contains(0x1b),
    ensures
        strip_bytes(s) == s,
    decreases s.len(),
{
    if s.len() > 0 {
        assert(s.contains(s[0]));
        let t = s.drop_first();
        assert forall|c: u8| t.contains(c) implies s.contains(c) by {
            let i = t.index_of(c);
            assert(s[i + 1] == c);
        }
        law_strip_bytes_keeps_plain(t);
        assert(seq![s[0]] + t =~= s);
    }
}

/// Whether every `ESC [` of a text is followed by parameters, from space to
/// `?`, and a letter.
pub open spec fn well_formed(s: Seq<char>) -> bool {
    forall|i: int|
        #![trigger s[i]]
        0 <= i < s.len() - 1 && s[i] == '\u{1b}' && s[i + 1] == '[' ==> sequence_at(s, i)
}

/// Whether a control sequence stands at position `i`, where `ESC [` is.
pub open spec fn sequence_at(s: Seq<char>, i: int) -> bool {
    exists|k: int| #[trigger] sequence_ends(s, i + 2, k)
}

/// Whether parameters stand from `from` to the letter at `k`.
pub open spec fn sequence_ends(s: Seq<char>, from: int, k: int) -> bool {
    &&& from <= k < s.len()
    &&& is_letter(s[k])
    &&& forall|j: int| from <= j < k ==> ' ' <= #[trigger] s[j] <= '?'
}

proof fn lemma_well_formed_rest(s: Seq<char>, n: int)
    requires
        well_formed(s),
        0 <= n <= s.len(),
    ensures
        well_formed(s.skip(n)),
{
    let t = s.skip(n);
    assert forall|i: int|
        #![trigger t[i]]
        0 <= i < t.len() - 1 && t[i] == '\u{1b}' && t[i + 1] == '[' implies sequence_at(t, i) by {
        assert(s[i + n] == t[i]);
        assert(s[i + n + 1] == t[i + 1]);
        assert(sequence_at(s, i + n));
        let k = choose|k: int| #[trigger] sequence_ends(s, i + n + 2, k);
        assert(t[k - n] == s[k]);
        assert forall|j: int| i + 2 <= j < k - n implies ' ' <= #[trigger] t[j] <= '?' by {
            assert(t[j] == s[j + n]);
        }
        assert(sequence_ends(t, i + 2, k - n));
    }
}

/// Bytes other than `ESC` are kept.
proof fn lemma_strip_bytes_front(a: Seq<u8>, b: Seq<u8>)
    requires
        forall|i: int| 0 <= i < a.len() ==> #[trigger] a[i] != 0x1b,
    ensures
        strip_bytes(a + b) == a + strip_bytes(b),
    decreases a.len(),
{
    if a.len() == 0 {
        assert(a + b =~= b);
        assert(a + strip_bytes(b) =~= strip_bytes(b));
    } else {
        let t = a.drop_first();
        assert forall|i: int| 0 <= i < t.len() implies #[trigger] t[i] != 0x1b by {
            assert(t[i] == a[i + 1]);
        }
        lemma_strip_bytes_front(t, b);
        assert((a + b)[0] == a[0]);
        assert((a + b).drop_first() =~= t + b);
        assert(seq![a[0]] + (t + strip_bytes(b)) =~= a + strip_bytes(b));
    }
}

/// ASCII text has one byte for each character, at the same place.
proof fn lemma_ascii_front(a: Seq<char>, b: Seq<char>)
    requires
        forall|i: int| 0 <= i < a.len() ==> (#[trigger] a[i] as u32) < 0x80,
    ensures
        encode_utf8(a + b).len() == a.len() + encode_utf8(b).len(),
        forall|i: int| 0 <= i < a.len() ==> #[trigger] encode_utf8(a + b)[i] == a[i] as u8,
        encode_utf8(a + b).skip(a.len() as int) == encode_utf8(b),
    decreases a.len(),
{
    if a.len() == 0 {
        assert(a + b =~= b);
        assert(encode_utf8(b).skip(0) =~= encode_utf8(b));
    } else {
        let t = a.drop_first();
        assert forall|i: int| 0 <= i < t.len() implies (#[trigger] t[i] as u32) < 0x80 by {
            assert(t[i] == a[i + 1]);
        }
        lemma_ascii_front(t, b);
        assert((a + b).drop_first() =~= t + b);
        assert((a + b)[0] == a[0]);
        assert((a[0] as u32) < 0x80);
        lemma_scalar_bytes(a[0]);
        let e = encode_utf8(a + b);
        assert(e =~= seq![a[0] as u8] + encode_utf8(t + b));
        assert forall|i: int| 0 <= i < a.len() implies #[trigger] e[i] == a[i] as u8 by {
            if i > 0 {
                assert(e[i] == encode_utf8(t + b)[i - 1]);
                assert(t[i - 1] == a[i]);
            }
        }
        assert(e.skip(a.len() as int) =~= encode_utf8(t + b).skip(t.len() as int));
    }
}

/// Where every control sequence of a text is well formed, removing them from
/// the text and from its bytes comes to the same.
pub proof fn law_strip_bytes_agrees_with_strip(s: Seq<char>)
    requires
        well_formed(s),
    ensures
        strip_bytes(encode_utf8(s)) == encode_utf8(strip(s)),
    decreases s.len(),
{
    let e = encode_utf8(s);
    if s.len() == 0 {
        assert(strip_bytes(e) =~= encode_utf8(strip(s)));
    } else if s.len() >= 2 && s[0] == '\u{1b}' && s[1] == '[' {
        assert(sequence_at(s, 0));
        let k = choose|k: int| #[trigger] sequence_ends(s, 2, k);
        assert forall|i: int| 2 <= i < k implies !is_letter(#[trigger] s[i]) by {}
        lemma_letter_at(s, 2, k);
        let front = s.take(k + 1);
        let rest = s.skip(k + 1);
        assert(s =~= front + rest);
        assert forall|i: int| 0 <= i < front.len() implies (#[trigger] front[i] as u32) < 0x80 by {
            assert(front[i] == s[i]);
        }
        lemma_ascii_front(front, rest);
        assert forall|i: int| 0 <= i <= k implies #[trigger] e[i] == s[i] as u8 by {
            assert(front[i] == s[i]);
        }
        assert forall|i: int| 2 <= i < k implies !is_final_byte(#[trigger] e[i]) by {
            assert(e[i] == s[i] as u8);
            assert(' ' <= s[i] <= '?');
        }
        assert(e[k] == s[k] as u8);
        assert(e[0] == s[0] as u8);
        assert(e[1] == s[1] as u8);
        lemma_final_byte_at(e, 2, k);
        lemma_well_formed_rest(s, k + 1);
        law_strip_bytes_agrees_with_strip(rest);
    } else {
        let rest = s.drop_first();
        let c = s[0];
        assert(rest =~= s.skip(1));
        lemma_well_formed_rest(s, 1);
        law_strip_bytes_agrees_with_strip(rest);
        let b = encode_scalar(c as u32);
        assert(e == b + encode_utf8(rest));
        assert(!starts_escape(s));
        assert(strip(s) == seq![c] + strip(rest));
        assert((seq![c] + strip(rest)).drop_first() =~= strip(rest));
        assert(encode_utf8(strip(s)) == b + encode_utf8(strip(rest)));
        lemma_scalar_bytes(c);
        if c == '\u{1b}' {
            assert(e[0] == 0x1b);
            assert(e.drop_first() =~= encode_utf8(rest));
            if rest.len() > 0 {
                let d = rest[0];
                assert(d == s[1]);
                lemma_scalar_bytes(d);
                lemma_char_width(d);
                assert(e.len() >= 2 && e[1] == encode_scalar(d as u32)[0]);
                assert(e[1] != 0x5b);
            }
            assert(!starts_escape_bytes(e));
        } else {
            lemma_strip_bytes_front(b, encode_utf8(rest));
        }
    }
}

// ---------------------------------------------------------------------------
// The line index
// ---------------------------------------------------------------------------

/// Reading `a` and then `b` is reading `a + b`, for a closed `a`.
proof fn lemma_scan_concat(m: IndexView, a: Seq<char>, b: Seq<char>, total: nat)
    requires
        closed_text(a),
        total >= byte_len(b),
    ensures
        scan(m, a + b, total) == scan(
            scan(m, a, (total - byte_len(b)) as nat),
            b,
            total,
        ),
    decreases a.len(),
{
    if a.len() == 0 {
        assert(a + b =~= b);
    } else {
        lemma_token_concat(a, b);
        let rest = skip_token(a);
        lemma_byte_len_concat(rest, b);
        let next = match token(a) {
            Token::Sgr(p) => IndexView { trailing: apply_sgr(p, m.trailing), ..m },
            Token::Control => m,
            Token::Text(c) => if c == '\n' {
                IndexView {
                    offsets: m.offsets.push((total - byte_len(rest + b)) as usize),
                    styles: m.styles.push(m.trailing),
                    ..m
                }
            } else {
                m
            },
        };
        lemma_scan_concat(next, rest, b, total);
    }
}

proof fn lemma_scan_ignores_scanned(m: IndexView, s: Seq<char>, total: nat, n: nat)
    ensures
        scan(IndexView { scanned: n, ..m }, s, total) == (IndexView {
            scanned: n,
            ..scan(m, s, total)
        }),
    decreases s.len(),
{
    if s.len() > 0 {
        let rest = skip_token(s);
        let next = match token(s) {
            Token::Sgr(p) => IndexView { trailing: apply_sgr(p, m.trailing), ..m },
            Token::Control => m,
            Token::Text(c) => if c == '\n' {
                IndexView {
                    offsets: m.offsets.push((total - byte_len(rest)) as usize),
                    styles: m.styles.push(m.trailing),
                    ..m
                }
            } else {
                m
            },
        };
        lemma_scan_ignores_scanned(next, rest, total, n);
    }
}

/// An index that grew with its text is the index of the whole text, as long as
/// the text was not cut inside a control sequence.
pub proof fn law_index_grows_with_text(a: Seq<char>, b: Seq<char>)
    requires
        closed_text(a),
    ensures
        extended_index(index_of(a), a + b) == index_of(a + b),
{
    lemma_byte_len_concat(a, b);
    lemma_byte_len_at_least(a);
    lemma_byte_len_at_least(b);
    lemma_byte_len_at_least(a + b);
    let e = empty_index();
    assert(chars_from(a, 0) == a);
    assert(chars_from(a + b, 0) == a + b);
    lemma_chars_from_prefix(a, b);
    if a.len() == 0 {
        assert(a + b =~= b);
    } else if b.len() == 0 {
        assert(a + b =~= a);
    } else {
        lemma_scan_concat(e, a, b, byte_len(a + b));
        crate::ansi::lemma_scan_keeps_scanned(e, a, byte_len(a));
        crate::ansi::lemma_scan_keeps_scanned(scan(e, a, byte_len(a)), b, byte_len(a + b));
        lemma_scan_ignores_scanned(scan(e, a, byte_len(a)), b, byte_len(a + b), byte_len(a));
    }
}

/// Extending an index by a text that it has read already changes nothing.
pub proof fn law_index_extend_twice(m: IndexView, text: Seq<char>)
    ensures
        extended_index(extended_index(m, text), text) == extended_index(m, text),
{
}

/// Reading on from line `line`, whose index entry is the last of `m`, to line
/// `target` leads to the place and state that the finished index holds for it.
proof fn lemma_scan_seek(m: IndexView, pre: Seq<char>, s: Seq<char>, text: Seq<char>, target: int)
    requires
        text == pre + s,
        byte_len(text) <= usize::MAX,
        m.offsets.len() == m.styles.len(),
        m.offsets.len() > 0,
        m.offsets.len() <= target,
    ensures
        ({
            let f = scan(m, s, byte_len(text));
            let (rest, style, line) = seek(s, m.trailing, m.offsets.len() - 1, target);
            &&& f.offsets.len() == f.styles.len()
            &&& f.offsets.len() >= m.offsets.len()
            &&& f.offsets.subrange(0, m.offsets.len() as int) == m.offsets
            &&& f.styles.subrange(0, m.styles.len() as int) == m.styles
            &&& target < f.offsets.len() ==> {
                &&& line == target
                &&& style == f.styles[target]
                &&& f.offsets[target] == byte_len(text) - byte_len(rest)
                &&& exists|before: Seq<char>| text == #[trigger] (before + rest)
            }
            &&& target >= f.offsets.len() ==> rest.len() == 0 && line == f.offsets.len() - 1
        }),
    decreases s.len(),
{
    let total = byte_len(text);
    if s.len() == 0 {
        assert(m.offsets.subrange(0, m.offsets.len() as int) =~= m.offsets);
        assert(m.styles.subrange(0, m.styles.len() as int) =~= m.styles);
    } else {
        let tok = lemma_skip_token_bytes(s);
        let rest = skip_token(s);
        assert(pre + s =~= (pre + tok) + rest);
        match token(s) {
            Token::Sgr(p) => {
                lemma_scan_seek(
                    IndexView { trailing: apply_sgr(p, m.trailing), ..m },
                    pre + tok,
                    rest,
                    text,
                    target,
                );
            },
            Token::Control => {
                lemma_scan_seek(m, pre + tok, rest, text, target);
            },
            Token::Text(c) => {
                if c == '\n' {
                    let next = IndexView {
                        offsets: m.offsets.push((total - byte_len(rest)) as usize),
                        styles: m.styles.push(m.trailing),
                        ..m
                    };
                    lemma_byte_len_concat(pre + tok, rest);
                    if target > m.offsets.len() {
                        lemma_scan_seek(next, pre + tok, rest, text, target);
                    } else {
                        // the line that starts here is the one looked for
                        lemma_scan_seek(next, pre + tok, rest, text, target + 1);
                        let f = scan(next, rest, total);
                        assert(f.offsets[target] == f.offsets.subrange(
                            0,
                            next.offsets.len() as int,
                        )[target]);
                        assert(f.styles[target] == f.styles.subrange(
                            0,
                            next.styles.len() as int,
                        )[target]);
                        assert(seek(s, m.trailing, m.offsets.len() - 1, target) == seek(
                            rest,
                            m.trailing,
                            m.offsets.len() as int,
                            target,
                        ));
                        assert(text == (pre + tok) + rest);
                    }
                    let f = scan(m, s, total);
                    assert(f.offsets.subrange(0, m.offsets.len() as int) =~= f.offsets.subrange(
                        0,
                        next.offsets.len() as int,
                    ).drop_last());
                    assert(f.styles.subrange(0, m.styles.len() as int) =~= f.styles.subrange(
                        0,
                        next.styles.len() as int,
                    ).drop_last());
                    assert(next.offsets.drop_last() =~= m.offsets);
                    assert(next.styles.drop_last() =~= m.styles);
                } else {
                    lemma_scan_seek(m, pre + tok, rest, text, target);
                }
            },
        }
    }
}

/// The place that the index of a text gives for a line is the place that
/// reading the text from the top leads to.
proof fn lemma_index_start(text: Seq<char>, start: int)
    requires
        start >= 0,
        byte_len(text) <= usize::MAX,
    ensures
        window_start(text, start, Some(index_of(text))) == window_start(text, start, None),
        index_fits(text, start, Some(index_of(text))),
{
    let e = empty_index();
    lemma_byte_len_at_least(text);
    assert(chars_from(text, 0) == text);
    let f = scan(e, text, byte_len(text));
    assert(Seq::<char>::empty() + text =~= text);
    let target = if start == 0 {
        1
    } else {
        start
    };
    lemma_scan_seek(e, Seq::empty(), text, text, target);
    assert(index_of(text).offsets == f.offsets);
    assert(index_of(text).styles == f.styles);
    if start == 0 {
        assert(f.offsets[0] == f.offsets.subrange(0, 1)[0]);
        assert(f.styles[0] == f.styles.subrange(0, 1)[0]);
        lemma_prefix_boundary(Seq::empty(), text);
    } else if start < f.offsets.len() {
        let (rest, style, line) = seek(text, default_state(), 0, start);
        let before = choose|before: Seq<char>| text == #[trigger] (before + rest);
        lemma_byte_len_concat(before, rest);
        lemma_chars_from_prefix(before, rest);
        lemma_prefix_boundary(before, rest);
    }
}

/// Jumping to a line with the text's index shows the same lines as reading the
/// text from the top, wherever the window is and whatever is marked.
pub proof fn law_index_shows_same_lines(
    text: Seq<char>,
    start: int,
    end: int,
    h: Highlights,
)
    requires
        start >= 0,
        byte_len(text) <= usize::MAX,
    ensures
        index_fits(text, start, Some(index_of(text))),
        visible_lines(text, start, end, h, Some(index_of(text))) == visible_lines(
            text,
            start,
            end,
            h,
            None,
        ),
{
    lemma_index_start(text, start);
}

// ---------------------------------------------------------------------------
// Styled lines
// ---------------------------------------------------------------------------

/// The text of a list of lines, each followed by a newline.
pub open spec fn terminated_lines(lines: Seq<Seq<SpanView>>) -> Seq<char>
    decreases lines.len(),
{
    if lines.len() == 0 {
        Seq::empty()
    } else {
        terminated_lines(lines.drop_last()) + spans_text(lines.last()).push('\n')
    }
}

/// The text of a list of lines with newlines between them.
pub open spec fn joined_lines(lines: Seq<Seq<SpanView>>) -> Seq<char> {
    if lines.len() == 0 {
        Seq::empty()
    } else {
        terminated_lines(lines.drop_last()) + spans_text(lines.last())
    }
}

/// All text that a parse has taken up so far.
spec fn taken(p: ParseState) -> Seq<char> {
    terminated_lines(p.lines) + spans_text(p.spans) + p.segment
}

spec fn segment_has_key(p: ParseState) -> bool {
    p.segment.len() > 0 ==> p.key is Some
}

proof fn lemma_flush_keeps_text(p: ParseState)
    requires
        segment_has_key(p),
    ensures
        taken(flush(p)) == taken(p),
        flush(p).segment.len() == 0,
        flush(p).lines == p.lines,
        flush(p).line == p.line,
{
    let q = flush(p);
    if p.segment.len() > 0 {
        assert(q.spans.drop_last() =~= p.spans);
        assert(taken(q) =~= taken(p));
    } else {
        assert(p.segment =~= Seq::<char>::empty());
    }
}

/// How often `c` occurs in `s`.
pub open spec fn char_count(s: Seq<char>, c: char) -> nat
    decreases s.len(),
{
    if s.len() == 0 {
        0
    } else {
        char_count(s.drop_first(), c) + if s[0] == c {
            1nat
        } else {
            0nat
        }
    }
}

pub proof fn lemma_char_count_concat(a: Seq<char>, b: Seq<char>, c: char)
    ensures
        char_count(a + b, c) == char_count(a, c) + char_count(b, c),
    decreases a.len(),
{
    if a.len() == 0 {
        assert(a + b =~= b);
    } else {
        assert((a + b).drop_first() =~= a.drop_first() + b);
        lemma_char_count_concat(a.drop_first(), b, c);
    }
}

pub proof fn lemma_no_count(s: Seq<char>, c: char)
    requires
        forall|i: int| 0 <= i < s.len() ==> #[trigger] s[i] != c,
    ensures
        char_count(s, c) == 0,
    decreases s.len(),
{
    if s.len() > 0 {
        assert forall|i: int| 0 <= i < s.len() - 1 implies #[trigger] s.drop_first()[i] != c by {
            assert(s.drop_first()[i] == s[i + 1]);
        }
        assert(s[0] != c);
        lemma_no_count(s.drop_first(), c);
    }
}

/// A text has one piece more than it has separators.
pub proof fn lemma_split_count(s: Seq<char>, c: char)
    ensures
        split_on(s, c).len() == char_count(s, c) + 1,
    decreases s.len(),
{
    lemma_first_of(s, c);
    let k = first_of(s, c);
    if k < s.len() {
        let rest = s.skip(k + 1);
        lemma_split_count(rest, c);
        assert(s =~= s.take(k) + seq![c] + rest);
        assert forall|i: int| 0 <= i < k implies #[trigger] s.take(k)[i] != c by {
            assert(s.take(k)[i] == s[i]);
        }
        lemma_no_count(s.take(k), c);
        lemma_char_count_concat(s.take(k) + seq![c], rest, c);
        lemma_char_count_concat(s.take(k), seq![c], c);
        reveal_with_fuel(char_count, 2);
    } else {
        lemma_no_count(s, c);
    }
}

/// What is left of the newlines after the first token.
proof fn lemma_newlines_left(s: Seq<char>)
    requires
        s.len() > 0,
    ensures
        char_count(strip(s), '\n') == char_count(strip(skip_token(s)), '\n') + (if token(s)
            == Token::Text('\n') {
            1nat
        } else {
            0nat
        }),
{
    match token(s) {
        Token::Text(c) => {
            assert(strip(s).drop_first() =~= strip(skip_token(s)));
        },
        _ => {},
    }
}

proof fn lemma_parse_keeps_text(p: ParseState, s: Seq<char>, end: int, h: Highlights)
    requires
        segment_has_key(p),
        p.line + char_count(strip(s), '\n') < end,
    ensures
        ({
            let q = parse(p, s, end, h);
            &&& taken(q) == taken(p) + strip(s)
            &&& segment_has_key(q)
            &&& q.line < end
        }),
    decreases s.len(),
{
    if s.len() == 0 {
        assert(taken(p) + strip(s) =~= taken(p));
    } else {
        let t = token(s);
        let q = step(p, t, h);
        lemma_newlines_left(s);
        lemma_flush_keeps_text(p);
        let f = flush(p);
        match t {
            Token::Sgr(_) => {
                assert(taken(q) =~= taken(p));
            },
            Token::Control => {},
            Token::Text(c) => {
                if c == '\n' {
                    assert(q.lines.drop_last() =~= p.lines);
                    assert(spans_text(q.spans) =~= Seq::<char>::empty());
                    assert(taken(q) =~= taken(p).push('\n'));
                } else {
                    assert(taken(q) =~= taken(p).push(c));
                }
                assert(taken(p) + strip(s) =~= taken(p).push(c) + strip(skip_token(s)));
            },
        }
        lemma_parse_keeps_text(q, skip_token(s), end, h);
    }
}

/// Styling a text, with or without marks, changes none of it: the lines read
/// together are the text without its control sequences. Left out are texts in
/// which only control sequences follow the last newline, where the empty line
/// after that newline is not shown.
pub proof fn law_styling_keeps_text(text: Seq<char>, end: int, h: Highlights)
    requires
        char_count(strip(text), '\n') < end,
        ends_in_newline(strip(text)) ==> ends_in_newline(text),
    ensures
        joined_lines(visible_lines(text, 0, end, h, None)) == strip(text),
{
    let p = line_start(default_state(), 0);
    assert(seek(text, default_state(), 0, 0) == (text, default_state(), 0int));
    lemma_parse_keeps_text(p, text, end, h);
    assert(taken(p) =~= Seq::<char>::empty());
    assert(taken(p) + strip(text) =~= strip(text));
    let q = parse(p, text, end, h);
    lemma_parse_line_bound(p, text, end, h);
    lemma_flush_keeps_text(q);
    let f = flush(q);
    let lines = window_lines(q, 0, end, ends_in_newline(text));
    if f.spans.len() > 0 || ends_in_newline(text) {
        assert(lines.drop_last() =~= q.lines);
        assert(joined_lines(lines) =~= taken(f));
    } else {
        assert(spans_text(f.spans) =~= Seq::<char>::empty());
        assert(f.segment =~= Seq::<char>::empty());
        assert(taken(f) =~= terminated_lines(q.lines));
        if q.lines.len() > 0 {
            assert(terminated_lines(q.lines).last() == '\n');
            assert(false);
        }
    }
}

proof fn lemma_parse_line_bound(p: ParseState, s: Seq<char>, end: int, h: Highlights)
    ensures
        parse(p, s, end, h).line >= p.line,
    decreases s.len(),
{
    if s.len() > 0 && p.line < end {
        lemma_parse_line_bound(step(p, token(s), h), skip_token(s), end, h);
    }
}

proof fn lemma_parse_counts_newlines(p: ParseState, s: Seq<char>, end: int, h: Highlights)
    requires
        p.line + char_count(strip(s), '\n') < end,
    ensures
        parse(p, s, end, h).line == p.line + char_count(strip(s), '\n'),
    decreases s.len(),
{
    if s.len() > 0 {
        lemma_newlines_left(s);
        lemma_parse_counts_newlines(step(p, token(s), h), skip_token(s), end, h);
    }
}

/// A text is shown in one line more than it has newlines. Left out are texts of
/// which nothing is shown, and those in which only control sequences follow the
/// last newline.
pub proof fn law_line_count(text: Seq<char>, end: int, h: Highlights)
    requires
        char_count(strip(text), '\n') < end,
        strip(text).len() > 0,
        ends_in_newline(strip(text)) ==> ends_in_newline(text),
    ensures
        visible_lines(text, 0, end, h, None).len() == char_count(strip(text), '\n') + 1,
{
    let p = line_start(default_state(), 0);
    assert(seek(text, default_state(), 0, 0) == (text, default_state(), 0int));
    lemma_parse_keeps_text(p, text, end, h);
    lemma_parse_counts_newlines(p, text, end, h);
    lemma_parse_count(p, text, end, h);
    lemma_parse_line_bound(p, text, end, h);
    assert(taken(p) + strip(text) =~= strip(text));
    let q = parse(p, text, end, h);
    lemma_flush_keeps_text(q);
    let f = flush(q);
    if f.spans.len() == 0 && !ends_in_newline(text) {
        assert(spans_text(f.spans) =~= Seq::<char>::empty());
        assert(f.segment =~= Seq::<char>::empty());
        assert(taken(f) =~= terminated_lines(q.lines));
        if q.lines.len() > 0 {
            assert(terminated_lines(q.lines).last() == '\n');
        }
        assert(false);
    }
}

/// The text of each line.
pub open spec fn line_texts(lines: Seq<Seq<SpanView>>) -> Seq<Seq<char>> {
    Seq::new(lines.len(), |i: int| spans_text(lines[i]))
}

/// Nothing that a parse has taken up into a line is a newline.
spec fn no_newlines(p: ParseState) -> bool {
    &&& forall|i: int| 0 <= i < p.lines.len() ==> !spans_text(#[trigger] p.lines[i]).contains('\n')
    &&& !spans_text(p.spans).contains('\n')
    &&& !p.segment.contains('\n')
}

proof fn lemma_flush_no_newlines(p: ParseState)
    requires
        segment_has_key(p),
        no_newlines(p),
    ensures
        no_newlines(flush(p)),
{
    let q = flush(p);
    if p.segment.len() > 0 {
        assert(q.spans.drop_last() =~= p.spans);
        assert(spans_text(q.spans) =~= spans_text(p.spans) + p.segment);
        if spans_text(q.spans).contains('\n') {
            let i = spans_text(q.spans).index_of('\n');
            if i < spans_text(p.spans).len() {
                assert(spans_text(p.spans)[i] == '\n');
            } else {
                assert(p.segment[i - spans_text(p.spans).len()] == '\n');
            }
        }
    }
}

proof fn lemma_parse_no_newlines(p: ParseState, s: Seq<char>, end: int, h: Highlights)
    requires
        segment_has_key(p),
        no_newlines(p),
    ensures
        no_newlines(parse(p, s, end, h)),
        segment_has_key(parse(p, s, end, h)),
    decreases s.len(),
{
    if s.len() > 0 && p.line < end {
        let t = token(s);
        let q = step(p, t, h);
        lemma_flush_no_newlines(p);
        lemma_flush_keeps_text(p);
        let f = flush(p);
        match t {
            Token::Text(c) => {
                if c == '\n' {
                    assert(spans_text(q.spans) =~= Seq::<char>::empty());
                    assert forall|i: int| 0 <= i < q.lines.len() implies !spans_text(
                        #[trigger] q.lines[i],
                    ).contains('\n') by {
                        if i < p.lines.len() {
                            assert(q.lines[i] == p.lines[i]);
                        }
                    }
                } else {
                    if q.segment.contains('\n') {
                        let i = q.segment.index_of('\n');
                        assert(i < q.segment.len() - 1);
                        assert(q.segment.drop_last()[i] == '\n');
                        assert(q.segment.drop_last().contains('\n'));
                        assert(q.segment.drop_last() =~= p.segment || q.segment.drop_last()
                            =~= f.segment);
                    }
                }
            },
            _ => {},
        }
        lemma_parse_no_newlines(q, skip_token(s), end, h);
    }
}

proof fn lemma_terminated_first(first: Seq<SpanView>, rest: Seq<Seq<SpanView>>)
    ensures
        terminated_lines(seq![first] + rest) == spans_text(first).push('\n') + terminated_lines(
            rest,
        ),
    decreases rest.len(),
{
    let all = seq![first] + rest;
    if rest.len() == 0 {
        assert(all.drop_last() =~= Seq::<Seq<SpanView>>::empty());
        reveal_with_fuel(terminated_lines, 2);
        assert(terminated_lines(all) =~= spans_text(first).push('\n') + terminated_lines(rest));
    } else {
        assert(all.drop_last() =~= seq![first] + rest.drop_last());
        lemma_terminated_first(first, rest.drop_last());
        assert(terminated_lines(all) =~= spans_text(first).push('\n') + terminated_lines(rest));
    }
}

proof fn lemma_split_joined(lines: Seq<Seq<SpanView>>)
    requires
        lines.len() > 0,
        forall|i: int|
            0 <= i < lines.len() ==> !spans_text(#[trigger] lines[i]).contains('\n'),
    ensures
        split_on(joined_lines(lines), '\n') == line_texts(lines),
    decreases lines.len(),
{
    let s = joined_lines(lines);
    let head = spans_text(lines[0]);
    assert(!spans_text(lines[0]).contains('\n'));
    lemma_first_of(s, '\n');
    let k = first_of(s, '\n');
    if lines.len() == 1 {
        assert(lines.drop_last() =~= Seq::<Seq<SpanView>>::empty());
        assert(s =~= head);
        if k < s.len() {
            assert(head.contains(s[k]));
        }
        assert(split_on(s, '\n') =~= line_texts(lines));
    } else {
        let rest = lines.drop_first();
        assert forall|i: int| 0 <= i < rest.len() implies !spans_text(#[trigger] rest[i]).contains(
            '\n',
        ) by {
            assert(rest[i] == lines[i + 1]);
        }
        lemma_split_joined(rest);
        assert(lines.drop_last() =~= seq![lines[0]] + rest.drop_last());
        lemma_terminated_first(lines[0], rest.drop_last());
        assert(s =~= head.push('\n') + joined_lines(rest));
        assert(s[head.len() as int] == '\n');
        if k < head.len() {
            assert(head[k] == s[k]);
            assert(head.contains(s[k]));
        }
        if k > head.len() {
            assert(s[head.len() as int] != '\n');
        }
        assert(s.take(k) =~= head);
        assert(s.skip(k + 1) =~= joined_lines(rest));
        assert(split_on(s, '\n') =~= line_texts(lines));
    }
}

/// What ends in a newline still does without its control sequences.
proof fn lemma_strip_keeps_last_newline(s: Seq<char>)
    requires
        ends_in_newline(s),
    ensures
        ends_in_newline(strip(s)),
    decreases s.len(),
{
    let rest = skip_token(s);
    if starts_escape(s) {
        assert(is_letter(s[letter_at(s, 2)])) by {
            lemma_letter_at_is_letter(s, 2);
        }
        assert(rest.len() > 0);
    }
    if rest.len() > 0 {
        assert(rest.last() == s.last());
        lemma_strip_keeps_last_newline(rest);
        assert(strip(s).last() == strip(rest).last());
    } else {
        assert(strip(rest) =~= Seq::<char>::empty());
        assert(strip(s) =~= seq![s[0]]);
    }
}

proof fn lemma_letter_at_is_letter(s: Seq<char>, from: int)
    requires
        0 <= from,
        letter_at(s, from) < s.len(),
    ensures
        from <= letter_at(s, from),
        is_letter(s[letter_at(s, from)]),
    decreases s.len() - from,
{
    if from < s.len() && !is_letter(s[from]) {
        lemma_letter_at_is_letter(s, from + 1);
    }
}

/// Whether the last piece of a text without control sequences is not shown as a
/// line: nothing is shown, or only control sequences follow the last newline.
pub open spec fn last_piece_is_hidden(text: Seq<char>) -> bool {
    strip(text).len() == 0 || (ends_in_newline(strip(text)) && !ends_in_newline(text))
}

/// The lines that are shown are the lines of the text without its control
/// sequences, one for one, whatever is marked in them, but for the last where
/// nothing but control sequences is in it. So what is found in a line of the one
/// is in the line of the same number of the other.
pub proof fn law_shown_lines_are_text_lines(text: Seq<char>, end: int, h: Highlights)
    requires
        char_count(strip(text), '\n') < end,
    ensures
        ({
            let pieces = split_on(strip(text), '\n');
            line_texts(visible_lines(text, 0, end, h, None)) == if last_piece_is_hidden(text) {
                pieces.drop_last()
            } else {
                pieces
            }
        }),
{
    let p = line_start(default_state(), 0);
    assert(seek(text, default_state(), 0, 0) == (text, default_state(), 0int));
    assert(spans_text(p.spans) =~= Seq::<char>::empty());
    lemma_parse_keeps_text(p, text, end, h);
    lemma_parse_no_newlines(p, text, end, h);
    lemma_parse_count(p, text, end, h);
    lemma_parse_line_bound(p, text, end, h);
    assert(taken(p) + strip(text) =~= strip(text));
    let q = parse(p, text, end, h);
    lemma_flush_keeps_text(q);
    lemma_flush_no_newlines(q);
    let f = flush(q);
    if ends_in_newline(text) {
        lemma_strip_keeps_last_newline(text);
    }
    // all pieces, of which the last one may be hidden
    let all = q.lines.push(f.spans);
    assert(all.drop_last() =~= q.lines);
    assert(f.segment =~= Seq::<char>::empty());
    assert(joined_lines(all) =~= taken(f));
    assert forall|i: int| 0 <= i < all.len() implies !spans_text(#[trigger] all[i]).contains(
        '\n',
    ) by {
        if i < q.lines.len() {
            assert(all[i] == q.lines[i]);
        }
    }
    lemma_split_joined(all);
    assert(line_texts(all).drop_last() =~= line_texts(q.lines));
    if f.spans.len() == 0 {
        assert(spans_text(f.spans) =~= Seq::<char>::empty());
        if q.lines.len() > 0 {
            assert(terminated_lines(q.lines).last() == '\n');
            assert(strip(text) =~= terminated_lines(q.lines));
        } else {
            assert(strip(text) =~= Seq::<char>::empty());
        }
    } else {
        lemma_last_text_not_empty(p, text, end, h);
        let t = spans_text(f.spans);
        assert(strip(text).last() == t.last());
        assert(t.contains(t.last()));
    }
}

/// Every span that is being read has text.
spec fn spans_have_text(p: ParseState) -> bool {
    forall|i: int| 0 <= i < p.spans.len() ==> (#[trigger] p.spans[i]).content.len() > 0
}

proof fn lemma_spans_have_text(p: ParseState, s: Seq<char>, end: int, h: Highlights)
    requires
        spans_have_text(p),
    ensures
        spans_have_text(parse(p, s, end, h)),
    decreases s.len(),
{
    if s.len() > 0 && p.line < end {
        lemma_spans_have_text(step(p, token(s), h), skip_token(s), end, h);
    }
}

proof fn lemma_last_text_not_empty(p: ParseState, s: Seq<char>, end: int, h: Highlights)
    requires
        p.spans.len() == 0,
    ensures
        ({
            let f = flush(parse(p, s, end, h));
            f.spans.len() > 0 ==> spans_text(f.spans).len() > 0
        }),
{
    lemma_spans_have_text(p, s, end, h);
    let f = flush(parse(p, s, end, h));
    if f.spans.len() > 0 {
        assert(f.spans.last().content.len() > 0);
    }
}

/// An empty text has no lines.
pub proof fn law_no_lines(end: int, h: Highlights)
    ensures
        visible_lines(Seq::empty(), 0, end, h, None).len() == 0,
{
}

/// Lines finished earlier stay in front of those that a parse adds.
proof fn lemma_parse_lines_prefix(
    p: ParseState,
    before: Seq<Seq<SpanView>>,
    s: Seq<char>,
    end: int,
    h: Highlights,
)
    ensures
        parse(ParseState { lines: before + p.lines, ..p }, s, end, h) == (ParseState {
            lines: before + parse(p, s, end, h).lines,
            ..parse(p, s, end, h)
        }),
    decreases s.len(),
{
    if s.len() > 0 && p.line < end {
        let t = token(s);
        let q = step(p, t, h);
        let p2 = ParseState { lines: before + p.lines, ..p };
        assert(step(p2, t, h).lines =~= before + q.lines);
        assert(step(p2, t, h) == (ParseState { lines: before + q.lines, ..q }));
        lemma_parse_lines_prefix(q, before, skip_token(s), end, h);
    }
}

proof fn lemma_parse_count(p: ParseState, s: Seq<char>, end: int, h: Highlights)
    ensures
        ({
            let q = parse(p, s, end, h);
            q.lines.len() - p.lines.len() == q.line - p.line
        }),
    decreases s.len(),
{
    if s.len() > 0 && p.line < end {
        lemma_parse_count(step(p, token(s), h), skip_token(s), end, h);
    }
}

/// Parsing on to a later line passes through every earlier one.
proof fn lemma_parse_in_two(p: ParseState, s: Seq<char>, mid: int, end: int, h: Highlights) -> (r: (
    ParseState,
    Seq<char>,
))
    requires
        mid <= end,
    ensures
        parse(p, s, end, h) == parse(r.0, r.1, end, h),
        r.0 == parse(p, s, mid, h),
        r.1.len() == 0 || r.0.line >= mid,
        seek(s, p.style, p.line, mid) == (r.1, r.0.style, r.0.line),
        r.0.line >= mid && p.line < mid ==> r.0.line == mid && r.0.col == 0 && r.0.key is None
            && r.0.spans.len() == 0 && (segment_has_key(p) ==> r.0.segment.len() == 0),
    decreases s.len(),
{
    if s.len() == 0 || p.line >= mid {
        (p, s)
    } else {
        let q = step(p, token(s), h);
        if segment_has_key(p) {
            lemma_flush_keeps_text(p);
        }
        lemma_parse_in_two(q, skip_token(s), mid, end, h)
    }
}

/// A window shows the lines of the whole text that lie in it.
pub proof fn law_window_is_part_of_whole(
    text: Seq<char>,
    start: int,
    end: int,
    limit: int,
    h: Highlights,
)
    requires
        0 <= start <= end <= limit,
        char_count(strip(text), '\n') < limit,
    ensures
        ({
            let all = visible_lines(text, 0, limit, h, None);
            let from = if start < all.len() {
                start
            } else {
                all.len() as int
            };
            let to = if end < all.len() {
                end
            } else {
                all.len() as int
            };
            visible_lines(text, start, end, h, None) == all.subrange(from, to)
        }),
{
    let p0 = line_start(default_state(), 0);
    let nl = ends_in_newline(text);
    assert(seek(text, default_state(), 0, 0) == (text, default_state(), 0int));
    let whole = parse(p0, text, limit, h);
    let all = visible_lines(text, 0, limit, h, None);
    lemma_parse_keeps_text(p0, text, limit, h);
    lemma_parse_count(p0, text, limit, h);
    lemma_parse_line_bound(p0, text, limit, h);
    // up to the window
    let (a, s) = lemma_parse_in_two(p0, text, start, limit, h);
    lemma_parse_count(p0, text, start, h);
    lemma_parse_line_bound(p0, text, start, h);
    if a.line < start {
        // the text ends before the window
        assert(whole == a);
        assert(visible_lines(text, start, end, h, None) =~= Seq::<Seq<SpanView>>::empty());
        assert(all.len() <= start);
    } else {
        let w0 = line_start(a.style, a.line);
        assert(a.lines + w0.lines =~= a.lines);
        assert(a.spans =~= w0.spans);
        assert(a.segment =~= w0.segment);
        assert(a == (ParseState { lines: a.lines + w0.lines, ..w0 }));
        // through the window
        let (b, t) = lemma_parse_in_two(a, s, end, limit, h);
        lemma_parse_lines_prefix(w0, a.lines, s, end, h);
        let w = parse(w0, s, end, h);
        assert(b == (ParseState { lines: a.lines + w.lines, ..w }));
        assert(visible_lines(text, start, end, h, None) == window_lines(w, start, end, nl));
        lemma_parse_line_bound(a, s, end, h);
        lemma_parse_count(w0, s, end, h);
        // after the window
        let rest0 = ParseState { lines: Seq::empty(), ..b };
        assert(b.lines + rest0.lines =~= b.lines);
        lemma_parse_lines_prefix(rest0, b.lines, t, limit, h);
        let rest = parse(rest0, t, limit, h);
        assert(whole.lines == b.lines + rest.lines);
        lemma_parse_count(rest0, t, limit, h);
        lemma_parse_line_bound(rest0, t, limit, h);
        if w.line >= end {
            assert(visible_lines(text, start, end, h, None) == w.lines);
            if start < end {
                assert(b.line == end);
            }
            assert(all.subrange(start, end) =~= w.lines);
        } else {
            assert(t.len() == 0);
            assert(whole == b);
            assert(flush(w).spans == flush(b).spans);
            assert(visible_lines(text, start, end, h, None) =~= all.subrange(
                start,
                all.len() as int,
            ));
        }
    }
}

} // verus!
