//! The inline text editor.
use vstd::prelude::*;

pub use crate::caret::{word_left_pos, word_right_pos};
use crate::caret::{
    backspace_at, caret_at, caret_backspace, caret_delete, caret_end, caret_home, caret_insert,
    caret_left, caret_right, caret_word_left, caret_word_right, delete_at, insert_at,
    insert_char_at, left_of, lemma_caret_between, lemma_caret_ends, lemma_caret_splits,
    lemma_word_left_prefix, lemma_word_right_suffix, on_boundary, right_of, split_caret,
    word_right, Caret,
};
use crate::keys::{KeyCode, KeyEvent};
use crate::text::{byte_count, chars_of, lemma_byte_len_concat};

verus! {

/// Result of [`EditorState::handle_key`].
///
/// Common editing keys (movement, insertion, deletion) are handled internally
/// and return [`Handled`](EditorKeyResult::Handled).  Action keys that depend
/// on the context (Enter, Esc, Tab, …) are returned as
/// [`Unhandled`](EditorKeyResult::Unhandled) so that each call-site can
/// provide its own behaviour.
#[derive(Clone, Copy, Debug, PartialEq, Eq, Structural)]
pub enum EditorKeyResult {
    /// The key was consumed by the editor (text was modified or cursor moved).
    Handled,
    /// The key was **not** consumed — the caller should handle it.
    Unhandled,
}

/// Inline text-editor state (used for command editing and save-to-file dialogs).
#[derive(Debug)]
pub struct EditorState {
    /// The text being edited.
    pub content: String,
    /// Cursor position within `content` (byte index).
    pub cursor: usize,
    /// Horizontal scroll offset (in display columns).
    pub scroll_x: usize,
    /// Kill buffer for Ctrl+K / Ctrl+U / Ctrl+Y (yank) functionality.
    pub cut_buffer: String,
}

/// What an [`EditorState`] stands for.
#[verifier::ext_equal]
pub struct EditorView {
    pub caret: Caret,
    pub scroll_x: int,
    pub cut: Seq<char>,
}

impl EditorView {
    /// The text being edited.
    pub open spec fn text(self) -> Seq<char> {
        self.caret.before + self.caret.after
    }
}

impl View for EditorState {
    type V = EditorView;

    open spec fn view(&self) -> EditorView {
        EditorView {
            caret: caret_at(self.content@, self.cursor as int),
            scroll_x: self.scroll_x as int,
            cut: self.cut_buffer@,
        }
    }
}

/// An editor that holds `text`, with the cursor at its end.
pub open spec fn editor_with(text: Seq<char>) -> EditorView {
    EditorView {
        caret: Caret { before: text, after: Seq::empty() },
        scroll_x: 0,
        cut: Seq::empty(),
    }
}

/// What a key does to the text, if the editor consumes the key.
pub open spec fn key_edit(v: EditorView, key: KeyEvent) -> Option<EditorView> {
    let c = v.caret;
    let control = key.modifiers.control;
    match key.code {
        KeyCode::Backspace => Some(EditorView { caret: caret_backspace(c), ..v }),
        KeyCode::Delete => Some(EditorView { caret: caret_delete(c), ..v }),
        KeyCode::Left => Some(
            EditorView {
                caret: if control {
                    caret_word_left(c)
                } else {
                    caret_left(c)
                },
                ..v
            },
        ),
        KeyCode::Right => Some(
            EditorView {
                caret: if control {
                    caret_word_right(c)
                } else {
                    caret_right(c)
                },
                ..v
            },
        ),
        KeyCode::Home => Some(EditorView { caret: caret_home(c), ..v }),
        KeyCode::End => Some(EditorView { caret: caret_end(c), ..v }),
        KeyCode::Char(ch) => if !control {
            Some(EditorView { caret: caret_insert(c, seq![ch]), ..v })
        } else if ch == 'a' {
            Some(EditorView { caret: caret_home(c), ..v })
        } else if ch == 'e' {
            Some(EditorView { caret: caret_end(c), ..v })
        } else if ch == 'k' {
            Some(
                EditorView {
                    caret: Caret { before: c.before, after: Seq::empty() },
                    cut: c.after,
                    ..v
                },
            )
        } else if ch == 'u' {
            Some(
                EditorView {
                    caret: Caret { before: Seq::empty(), after: c.after },
                    cut: c.before,
                    ..v
                },
            )
        } else if ch == 'y' {
            Some(EditorView { caret: caret_insert(c, v.cut), ..v })
        } else {
            None
        },
        _ => None,
    }
}

/// The column range of a text area of `inner_width` columns that keeps the
/// column `col` in view, moved as little as possible from `scroll_x`.
pub open spec fn scroll_for(scroll_x: int, col: int, inner_width: int) -> int {
    if inner_width == 0 {
        scroll_x
    } else if col >= scroll_x + inner_width {
        col + 1 - inner_width
    } else if col < scroll_x {
        col
    } else {
        scroll_x
    }
}

impl EditorState {
    /// The cursor is between two characters or at an end of the text.
    pub open spec fn wf(&self) -> bool {
        on_boundary(self.content@, self.cursor as int)
    }

    /// Create a new editor pre-filled with `content`, cursor at the end.
    pub fn new(content: String) -> (r: EditorState)
        ensures
            r.wf(),
            r.content@ == content@,
            r@ == editor_with(content@),
    {
        let cursor = byte_count(content.as_str());
        proof {
            lemma_caret_ends(content@);
        }
        EditorState { content, cursor, scroll_x: 0, cut_buffer: String::new() }
    }

    /// Create an empty editor.
    pub fn empty() -> (r: EditorState)
        ensures
            r.wf(),
            r.content@ == Seq::<char>::empty(),
            r@ == editor_with(Seq::empty()),
    {
        proof {
            lemma_caret_ends(Seq::empty());
        }
        EditorState {
            content: String::new(),
            cursor: 0,
            scroll_x: 0,
            cut_buffer: String::new(),
        }
    }

    /// Adjust horizontal scroll so the cursor stays visible within `inner_width` columns.
    pub fn update_scroll(&mut self, inner_width: usize)
        requires
            old(self).wf(),
        ensures
            final(self).wf(),
            final(self).content@ == old(self).content@,
            final(self)@ == (EditorView {
                scroll_x: scroll_for(
                    old(self)@.scroll_x,
                    old(self)@.caret.before.len() as int,
                    inner_width as int,
                ),
                ..old(self)@
            }),
    {
        if inner_width == 0 {
            return;
        }
        let (before, _after) = split_caret(self.content.as_str(), self.cursor);
        self.scroll_x = compute_editor_scroll(self.scroll_x, before, inner_width);
    }

    /// Handle a key event that mutates the editor buffer (movement, insertion, deletion).
    ///
    /// Returns [`EditorKeyResult::Handled`] when the key was consumed (text
    /// editing or cursor movement).  Returns [`EditorKeyResult::Unhandled`]
    /// for action keys (Enter, Esc, Tab, etc.) that should be handled by
    /// the caller's context-specific logic.
    pub fn handle_key(&mut self, key: KeyEvent) -> (r: EditorKeyResult)
        requires
            old(self).wf(),
        ensures
            final(self).wf(),
            match key_edit(old(self)@, key) {
                Some(v) => r == EditorKeyResult::Handled && final(self)@ == v,
                None => r == EditorKeyResult::Unhandled && final(self)@ == old(self)@,
            },
    {
        let control = key.modifiers.control;
        let ghost c = caret_at(self.content@, self.cursor as int);
        proof {
            lemma_caret_splits(self.content@, self.cursor as int);
            lemma_caret_ends(self.content@);
        }
        match key.code {
            KeyCode::Backspace => {
                backspace_at(&mut self.content, &mut self.cursor);
            },
            KeyCode::Delete => {
                delete_at(&mut self.content, self.cursor);
            },
            KeyCode::Left => {
                if control {
                    let (before, _after) = split_caret(self.content.as_str(), self.cursor);
                    self.cursor = word_left_pos(before);
                    proof {
                        lemma_word_left_prefix(c.before);
                        let n = caret_word_left(c);
                        assert(n.before + n.after =~= self.content@);
                        lemma_caret_between(n.before, n.after);
                    }
                } else {
                    self.cursor = left_of(self.content.as_str(), self.cursor);
                }
            },
            KeyCode::Right => {
                if control {
                    let (_before, after) = split_caret(self.content.as_str(), self.cursor);
                    let total = byte_count(self.content.as_str());
                    proof {
                        lemma_word_right_suffix(c.after);
                        let n = caret_word_right(c);
                        assert(n.before + n.after =~= self.content@);
                        assert(n.after == word_right(c.after));
                        lemma_caret_between(n.before, n.after);
                        lemma_byte_len_concat(c.before, c.after);
                        lemma_byte_len_concat(n.before, n.after);
                    }
                    self.cursor = self.cursor + word_right_pos(after);
                } else {
                    self.cursor = right_of(self.content.as_str(), self.cursor);
                }
            },
            KeyCode::Home => {
                self.cursor = 0;
            },
            KeyCode::End => {
                self.cursor = byte_count(self.content.as_str());
            },
            KeyCode::Char(ch) => {
                if !control {
                    insert_char_at(&mut self.content, &mut self.cursor, ch);
                } else if ch == 'a' {
                    self.cursor = 0;
                } else if ch == 'e' {
                    self.cursor = byte_count(self.content.as_str());
                } else if ch == 'k' {
                    let (before, after) = split_caret(self.content.as_str(), self.cursor);
                    let (kept, cut) = (before.to_owned(), after.to_owned());
                    proof {
                        lemma_caret_ends(c.before);
                    }
                    self.content = kept;
                    self.cut_buffer = cut;
                } else if ch == 'u' {
                    let (before, after) = split_caret(self.content.as_str(), self.cursor);
                    let (cut, kept) = (before.to_owned(), after.to_owned());
                    proof {
                        lemma_caret_ends(c.after);
                    }
                    self.content = kept;
                    self.cut_buffer = cut;
                    self.cursor = 0;
                } else if ch == 'y' {
                    insert_at(&mut self.content, &mut self.cursor, self.cut_buffer.as_str());
                } else {
                    return EditorKeyResult::Unhandled;
                }
            },
            _ => {
                return EditorKeyResult::Unhandled;
            },
        }
        EditorKeyResult::Handled
    }
}

impl Clone for EditorState {
    fn clone(&self) -> (r: EditorState)
        ensures
            r@ == self@,
            r.content@ == self.content@,
            self.wf() ==> r.wf(),
    {
        EditorState {
            content: self.content.clone(),
            cursor: self.cursor,
            scroll_x: self.scroll_x,
            cut_buffer: self.cut_buffer.clone(),
        }
    }
}

/// Compute the new horizontal scroll offset so `before_cursor` (text before the cursor)
/// keeps the cursor visible within a text area of `inner_width` columns.
///
/// * Scrolls right if the cursor column has moved past the right edge.
/// * Scrolls left  if the cursor column has moved before the left edge.
/// * Leaves `current_scroll_x` unchanged when the cursor is already in view.
pub fn compute_editor_scroll(
    current_scroll_x: usize,
    before_cursor: &str,
    inner_width: usize,
) -> (r: usize)
    ensures
        r == scroll_for(
            current_scroll_x as int,
            before_cursor@.len() as int,
            inner_width as int,
        ),
{
    if inner_width == 0 {
        return current_scroll_x;
    }
    let cursor_col: usize = chars_of(before_cursor).len();
    if cursor_col < current_scroll_x {
        cursor_col
    } else if cursor_col - current_scroll_x >= inner_width {
        cursor_col - (inner_width - 1)
    } else {
        current_scroll_x
    }
}

/// Compute the inner text width for an editor dialog given the terminal width.
pub fn editor_inner_width(terminal_width: u16, dialog_max_width: u16) -> (r: usize)
    ensures
        r == inner_width_of(terminal_width as int, dialog_max_width as int),
{
    let dialog_width = terminal_width.saturating_sub(4);
    let dialog_width = if dialog_width < dialog_max_width {
        dialog_width
    } else {
        dialog_max_width
    };
    dialog_width.saturating_sub(2) as usize
}

/// The width of a dialog: a margin of two columns on each side of the terminal,
/// and at most `max_width`.
pub open spec fn dialog_width_of(terminal_width: int, max_width: int) -> int {
    let w = if terminal_width < 4 {
        0
    } else {
        terminal_width - 4
    };
    if w < max_width {
        w
    } else {
        max_width
    }
}

/// The width of a dialog without its two borders.
pub open spec fn inner_width_of(terminal_width: int, max_width: int) -> int {
    let w = dialog_width_of(terminal_width, max_width);
    if w < 2 {
        0
    } else {
        w - 2
    }
}

// ---------------------------------------------------------------------------
// Laws
// ---------------------------------------------------------------------------

/// The press of a character with the control key held down.
pub open spec fn control_key(ch: char) -> KeyEvent {
    KeyEvent {
        code: KeyCode::Char(ch),
        modifiers: crate::keys::KeyModifiers { shift: false, control: true, alt: false },
    }
}

/// The press of a key alone.
pub open spec fn plain_key(code: KeyCode) -> KeyEvent {
    KeyEvent {
        code,
        modifiers: crate::keys::KeyModifiers { shift: false, control: false, alt: false },
    }
}

/// What was cut can be put back: after cutting to the end of the text, yanking
/// restores the text; after cutting to its start, yanking restores the text and
/// the cursor.
pub proof fn law_yank_restores_cut(v: EditorView)
    ensures
        ({
            let k = key_edit(v, control_key('k'))->0;
            let back = key_edit(k, control_key('y'))->0;
            &&& k.cut == v.caret.after
            &&& back.text() == v.text()
            &&& back.caret == caret_end(v.caret)
        }),
        ({
            let u = key_edit(v, control_key('u'))->0;
            let back = key_edit(u, control_key('y'))->0;
            &&& u.cut == v.caret.before
            &&& back.text() == v.text()
            &&& back.caret == v.caret
        }),
{
    let k = key_edit(v, control_key('k'))->0;
    let back = key_edit(k, control_key('y'))->0;
    assert(back.text() =~= v.text());
    let u = key_edit(v, control_key('u'))->0;
    let back2 = key_edit(u, control_key('y'))->0;
    assert(back2.caret.before =~= v.caret.before);
    assert(back2.text() =~= v.text());
}

/// Deleting backwards undoes the insertion of a character.
pub proof fn law_backspace_undoes_insert(v: EditorView, ch: char)
    ensures
        key_edit(key_edit(v, plain_key(KeyCode::Char(ch)))->0, plain_key(KeyCode::Backspace))
            == Some(v),
{
    let i = key_edit(v, plain_key(KeyCode::Char(ch)))->0;
    assert(i.caret.before.drop_last() =~= v.caret.before);
    assert(key_edit(i, plain_key(KeyCode::Backspace))->0 =~= v);
}

/// One step to the left and one to the right lead back, unless the cursor was
/// at the start.
pub proof fn law_right_undoes_left(v: EditorView)
    requires
        v.caret.before.len() > 0,
    ensures
        key_edit(key_edit(v, plain_key(KeyCode::Left))->0, plain_key(KeyCode::Right)) == Some(v),
{
    let l = key_edit(v, plain_key(KeyCode::Left))->0;
    let r = key_edit(l, plain_key(KeyCode::Right))->0;
    assert(r.caret.before =~= v.caret.before);
    assert(r.caret.after =~= v.caret.after);
    assert(r =~= v);
}

/// Moving the cursor, by whatever key, leaves the text as it is.
pub proof fn law_movement_keeps_text(v: EditorView, key: KeyEvent)
    requires
        key.code is Left || key.code is Right || key.code is Home || key.code is End,
    ensures
        key_edit(v, key) matches Some(w) && w.text() == v.text() && w.cut == v.cut,
{
    lemma_word_left_prefix(v.caret.before);
    lemma_word_right_suffix(v.caret.after);
    let w = key_edit(v, key)->0;
    assert(w.text() =~= v.text());
}

/// After the scroll is adjusted the cursor's column is in view, and adjusting it
/// again changes nothing.
pub proof fn law_scroll_shows_cursor(scroll_x: int, col: int, inner_width: int)
    requires
        scroll_x >= 0,
        col >= 0,
        inner_width > 0,
    ensures
        scroll_for(scroll_x, col, inner_width) >= 0,
        scroll_for(scroll_x, col, inner_width) <= col < scroll_for(scroll_x, col, inner_width)
            + inner_width,
        scroll_for(scroll_for(scroll_x, col, inner_width), col, inner_width) == scroll_for(
            scroll_x,
            col,
            inner_width,
        ),
{
}

} // verus!
