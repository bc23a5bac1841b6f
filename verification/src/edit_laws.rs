//! What each key does to a text that is being edited.
use vstd::prelude::*;

use crate::caret::{drop_first_word, drop_last_word, word_left, word_right, Caret};
use crate::editor::{editor_with, key_edit, EditorView};
use crate::keys::{KeyCode, KeyEvent, KeyModifiers};
use crate::split_laws::all_white;
use crate::text::is_white_space;
use crate::text_tools::{trim_end, trim_start};

verus! {

/// A key without modifiers.
pub open spec fn plain(code: KeyCode) -> KeyEvent {
    KeyEvent { code, modifiers: KeyModifiers { shift: false, control: false, alt: false } }
}

/// A key with the control key.
pub open spec fn ctrl(code: KeyCode) -> KeyEvent {
    KeyEvent { code, modifiers: KeyModifiers { shift: false, control: true, alt: false } }
}

/// An editor with the given text in front of and behind its cursor.
pub open spec fn editor_at(v: EditorView, before: Seq<char>, after: Seq<char>) -> EditorView {
    EditorView { caret: Caret { before, after }, ..v }
}

/// A character is inserted in front of the cursor; Backspace removes the one in
/// front of it and Delete the one behind it, at an end of the text nothing.
pub proof fn law_typing(v: EditorView, a: Seq<char>, b: Seq<char>, c: char, d: char)
    ensures
        key_edit(editor_at(v, a, b), plain(KeyCode::Char(c))) == Some(editor_at(v, a.push(c), b)),
        key_edit(editor_at(v, a.push(c), b), plain(KeyCode::Backspace)) == Some(
            editor_at(v, a, b),
        ),
        key_edit(editor_at(v, Seq::empty(), b), plain(KeyCode::Backspace)) == Some(
            editor_at(v, Seq::empty(), b),
        ),
        key_edit(editor_at(v, a, seq![d] + b), plain(KeyCode::Delete)) == Some(editor_at(v, a, b)),
        key_edit(editor_at(v, a, Seq::empty()), plain(KeyCode::Delete)) == Some(
            editor_at(v, a, Seq::empty()),
        ),
{
    assert(a + seq![c] =~= a.push(c));
    assert(a.push(c).drop_last() =~= a);
    assert((seq![d] + b).drop_first() =~= b);
}

/// Left and Right move the cursor by one character, Home and Ctrl+A to the start
/// of the text, End and Ctrl+E to its end; at an end there is no way on.
pub proof fn law_moving(v: EditorView, a: Seq<char>, b: Seq<char>, c: char)
    ensures
        key_edit(editor_at(v, a.push(c), b), plain(KeyCode::Left)) == Some(
            editor_at(v, a, seq![c] + b),
        ),
        key_edit(editor_at(v, Seq::empty(), b), plain(KeyCode::Left)) == Some(
            editor_at(v, Seq::empty(), b),
        ),
        key_edit(editor_at(v, a, seq![c] + b), plain(KeyCode::Right)) == Some(
            editor_at(v, a.push(c), b),
        ),
        key_edit(editor_at(v, a, Seq::empty()), plain(KeyCode::Right)) == Some(
            editor_at(v, a, Seq::empty()),
        ),
        key_edit(editor_at(v, a, b), plain(KeyCode::Home)) == Some(
            editor_at(v, Seq::empty(), a + b),
        ),
        key_edit(editor_at(v, a, b), ctrl(KeyCode::Char('a'))) == Some(
            editor_at(v, Seq::empty(), a + b),
        ),
        key_edit(editor_at(v, a, b), plain(KeyCode::End)) == Some(
            editor_at(v, a + b, Seq::empty()),
        ),
        key_edit(editor_at(v, a, b), ctrl(KeyCode::Char('e'))) == Some(
            editor_at(v, a + b, Seq::empty()),
        ),
{
    assert(a.push(c).drop_last() =~= a);
    assert((seq![c] + b).drop_first() =~= b);
}

/// Ctrl+K cuts what is behind the cursor and Ctrl+U what is in front of it;
/// Ctrl+Y puts what was cut last in front of the cursor, as often as one likes.
pub proof fn law_cutting(v: EditorView, a: Seq<char>, b: Seq<char>)
    ensures
        key_edit(editor_at(v, a, b), ctrl(KeyCode::Char('k'))) == Some(
            EditorView { cut: b, ..editor_at(v, a, Seq::empty()) },
        ),
        key_edit(editor_at(v, a, b), ctrl(KeyCode::Char('u'))) == Some(
            EditorView { cut: a, ..editor_at(v, Seq::empty(), b) },
        ),
        key_edit(editor_at(v, a, b), ctrl(KeyCode::Char('y'))) == Some(
            editor_at(v, a + v.cut, b),
        ),
{
}

/// Other characters with the control key, and keys that mean nothing in a text,
/// are left to others.
pub proof fn law_other_keys_are_not_taken(v: EditorView, c: char)
    ensures
        c != 'a' && c != 'e' && c != 'k' && c != 'u' && c != 'y' ==> key_edit(
            v,
            ctrl(KeyCode::Char(c)),
        ) is None,
        key_edit(v, plain(KeyCode::Enter)) is None,
        key_edit(v, plain(KeyCode::Esc)) is None,
        key_edit(v, plain(KeyCode::Up)) is None,
        key_edit(v, plain(KeyCode::Down)) is None,
        key_edit(v, plain(KeyCode::Tab)) is None,
{
}

/// Whether a text has no white space.
pub open spec fn no_white(s: Seq<char>) -> bool {
    forall|i: int| 0 <= i < s.len() ==> !is_white_space(#[trigger] s[i])
}

proof fn lemma_trim_end_white(a: Seq<char>, w: Seq<char>)
    requires
        all_white(w),
        a.len() > 0 ==> !is_white_space(a.last()),
    ensures
        trim_end(a + w) == a,
    decreases w.len(),
{
    if w.len() == 0 {
        assert(a + w =~= a);
    } else {
        let s = a + w;
        assert(s.last() == w[w.len() - 1]);
        assert(s.drop_last() =~= a + w.drop_last());
        lemma_trim_end_white(a, w.drop_last());
    }
}

proof fn lemma_trim_start_white(w: Seq<char>, a: Seq<char>)
    requires
        all_white(w),
        a.len() > 0 ==> !is_white_space(a[0]),
    ensures
        trim_start(w + a) == a,
    decreases w.len(),
{
    if w.len() == 0 {
        assert(w + a =~= a);
    } else {
        let t = w.drop_first();
        assert forall|i: int| 0 <= i < t.len() implies is_white_space(#[trigger] t[i]) by {
            assert(t[i] == w[i + 1]);
        }
        assert((w + a)[0] == w[0]);
        assert((w + a).drop_first() =~= t + a);
        lemma_trim_start_white(t, a);
    }
}

proof fn lemma_drop_last_word(a: Seq<char>, x: Seq<char>)
    requires
        no_white(x),
        a.len() > 0 ==> is_white_space(a.last()),
    ensures
        drop_last_word(a + x) == a,
    decreases x.len(),
{
    if x.len() == 0 {
        assert(a + x =~= a);
    } else {
        let s = a + x;
        assert(s.last() == x[x.len() - 1]);
        assert(s.drop_last() =~= a + x.drop_last());
        lemma_drop_last_word(a, x.drop_last());
    }
}

proof fn lemma_drop_first_word(x: Seq<char>, a: Seq<char>)
    requires
        no_white(x),
        a.len() > 0 ==> is_white_space(a[0]),
    ensures
        drop_first_word(x + a) == a,
    decreases x.len(),
{
    if x.len() == 0 {
        assert(x + a =~= a);
    } else {
        let t = x.drop_first();
        assert forall|i: int| 0 <= i < t.len() implies !is_white_space(#[trigger] t[i]) by {
            assert(t[i] == x[i + 1]);
        }
        assert((x + a)[0] == x[0]);
        assert((x + a).drop_first() =~= t + a);
        lemma_drop_first_word(t, a);
    }
}

/// Ctrl+Left moves to the start of the word in front of the cursor, over the
/// white space behind the word; Ctrl+Right moves over the word behind the cursor
/// and the white space that follows it.
pub proof fn law_moving_by_words(
    v: EditorView,
    a: Seq<char>,
    word: Seq<char>,
    white: Seq<char>,
    b: Seq<char>,
)
    requires
        no_white(word),
        all_white(white),
    ensures
        word.len() > 0 && (a.len() > 0 ==> is_white_space(a.last())) ==> key_edit(
            editor_at(v, a + word + white, b),
            ctrl(KeyCode::Left),
        ) == Some(editor_at(v, a, word + white + b)),
        (word + white + b).len() > 0 && (b.len() > 0 ==> !is_white_space(b[0]) && white.len() > 0)
            ==> key_edit(editor_at(v, a, word + white + b), ctrl(KeyCode::Right)) == Some(
            editor_at(v, a + word + white, b),
        ),
{
    if word.len() > 0 && (a.len() > 0 ==> is_white_space(a.last())) {
        let s = a + word + white;
        assert((a + word).last() == word[word.len() - 1]);
        lemma_trim_end_white(a + word, white);
        lemma_drop_last_word(a, word);
        assert(word_left(s) == a);
        assert(s.take(a.len() as int) =~= a);
        assert(s.skip(a.len() as int) + b =~= word + white + b);
    }
    if b.len() > 0 ==> !is_white_space(b[0]) && white.len() > 0 {
        let s = word + white + b;
        if white.len() > 0 {
            assert((white + b)[0] == white[0]);
        } else {
            assert(white + b =~= Seq::<char>::empty());
        }
        lemma_drop_first_word(word, white + b);
        assert(word + (white + b) =~= s);
        lemma_trim_start_white(white, b);
        assert(word_right(s) == b);
        let k = s.len() - b.len();
        assert(s.take(k) =~= word + white);
        assert(s.skip(k) =~= b);
        assert(a + s.take(k) =~= a + word + white);
    }
}

/// An editor starts with its cursor behind the text, unscrolled, with nothing to
/// paste.
pub proof fn law_editor_starts_at_end(text: Seq<char>)
    ensures
        editor_with(text).caret.before == text,
        editor_with(text).caret.after.len() == 0,
        editor_with(text).scroll_x == 0,
        editor_with(text).cut.len() == 0,
        editor_with(text).text() == text,
{
    assert(editor_with(text).text() =~= text);
}

} // verus!
