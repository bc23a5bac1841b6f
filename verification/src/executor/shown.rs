//! The text that a stream of bytes is shown as, kept up while the stream grows.
use vstd::prelude::*;
use vstd::utf8::{decode_utf8, valid_utf8};

use crate::ansi::{empty_index, index_of, next_token, AnsiLineIndex, Tok};
use crate::ansi_laws::{closed_text, law_closed_concat, law_index_grows_with_text};
use crate::bytes::{decode_lossy, decode_strict, lemma_decode_concat, shown_text};
use crate::text::next_char;

verus! {

/// The text of a stream, with an index of its lines.
#[derive(Debug)]
pub struct ShownText {
    pub text: String,
    /// Line index of `text`.
    pub index: AnsiLineIndex,
    /// Whether the bytes so far are UTF-8.
    pub utf8: bool,
    /// Whether `text` leaves no control sequence open.
    pub closed: bool,
}

/// Whether a text leaves no control sequence open.
fn is_closed(text: &str) -> (r: bool)
    ensures
        r == closed_text(text@),
{
    let mut rest: &str = text;
    loop
        invariant
            closed_text(rest@) == closed_text(text@),
        ensures
            closed_text(text@),
        decreases rest@.len(),
    {
        match next_token(rest) {
            None => {
                break;
            },
            Some((t, after)) => {
                match t {
                    Tok::Text(c) => if c == '\u{1b}' {
                        proof {
                            assert(rest@.len() >= 2 ==> after@[0] == rest@[1]);
                        }
                        match next_char(after) {
                            None => {
                                return false;
                            },
                            Some((d, _)) => if d == '[' {
                                return false;
                            },
                        }
                    },
                    _ => {},
                }
                rest = after;
            },
        }
    }
    true
}

impl ShownText {
    /// The text is that of `bytes`, and what is kept beside it fits.
    pub open spec fn shows(&self, bytes: Seq<u8>) -> bool {
        &&& self.text@ == shown_text(bytes)
        &&& self.index@ == index_of(self.text@)
        &&& self.utf8 == valid_utf8(bytes)
        &&& self.closed == closed_text(self.text@)
    }

    /// The text of a stream that has put out nothing.
    pub fn new() -> (r: ShownText)
        ensures
            r.shows(Seq::empty()),
            r.text@ == Seq::<char>::empty(),
            r.index@ == empty_index(),
    {
        proof {
            assert(decode_utf8(Seq::<u8>::empty()) =~= Seq::<char>::empty());
            assert(crate::text::byte_len(Seq::<char>::empty()) == 0);
        }
        ShownText { text: String::new(), index: AnsiLineIndex::new(), utf8: true, closed: true }
    }

    /// The text of `bytes`.
    pub fn of(bytes: &[u8]) -> (r: ShownText)
        ensures
            r.shows(bytes@),
    {
        let utf8 = decode_strict(bytes).is_some();
        let text = decode_lossy(bytes);
        let mut index = AnsiLineIndex::new();
        index.extend(text.as_str());
        let closed = is_closed(text.as_str());
        ShownText { text, index, utf8, closed }
    }
}

/// Append `new_bytes`, the last of `full_buf`, to the text of those before them.
///
/// Where all bytes so far and the new ones are UTF-8, the new text is pushed
/// onto the existing one. Otherwise a character may straddle the two, or what
/// was read as invalid may have become valid, so that `full_buf` is read anew.
/// The index goes on from where it stopped, unless that was inside a control
/// sequence.
pub fn append_text_incremental(shown: &mut ShownText, new_bytes: &[u8], full_buf: &[u8])
    requires
        new_bytes@.len() <= full_buf@.len(),
        full_buf@.skip(full_buf@.len() - new_bytes@.len()) == new_bytes@,
        old(shown).shows(full_buf@.take(full_buf@.len() - new_bytes@.len())),
    ensures
        final(shown).shows(full_buf@),
{
    let ghost earlier = full_buf@.take(full_buf@.len() - new_bytes@.len());
    proof {
        assert(earlier + new_bytes@ =~= full_buf@);
    }
    if new_bytes.len() == 0 {
        proof {
            assert(full_buf@ =~= earlier);
        }
        return;
    }
    if shown.utf8 {
        if let Some(more) = decode_strict(new_bytes) {
            let ghost before = shown.text@;
            proof {
                lemma_decode_concat(earlier, new_bytes@);
            }
            shown.text.append(more);
            if shown.closed {
                proof {
                    law_index_grows_with_text(before, more@);
                    law_closed_concat(before, more@);
                }
                shown.index.extend(shown.text.as_str());
                shown.closed = is_closed(more);
            } else {
                let mut index = AnsiLineIndex::new();
                index.extend(shown.text.as_str());
                shown.index = index;
                shown.closed = is_closed(shown.text.as_str());
            }
            return;
        }
    }
    *shown = ShownText::of(full_buf);
}

impl Clone for ShownText {
    fn clone(&self) -> (r: ShownText)
        ensures
            r.text@ == self.text@,
            r.index@ == self.index@,
            r.utf8 == self.utf8,
            r.closed == self.closed,
    {
        ShownText {
            text: self.text.clone(),
            index: self.index.clone(),
            utf8: self.utf8,
            closed: self.closed,
        }
    }
}

} // verus!
