//! Which lines of a text that came in as pieces of two streams are from stderr.
use vstd::prelude::*;

use crate::ansi_laws::{char_count, lemma_char_count_concat, lemma_no_count};
use crate::ansi_lines::{ends_in_newline, ends_with_newline};
use crate::bytes::decode_lossy;
use crate::executor::output::{
    combined_text, combined_view, lemma_encoded_newlines, CombinedLine, LineView,
};
use crate::text::{first_of, lemma_first_of};
use crate::text_tools::text_lines;

verus! {

/// Whether the last line of a text has not ended.
pub open spec fn unfinished(text: Seq<char>) -> bool {
    text.len() > 0 && !ends_in_newline(text)
}

/// Number of lines of a text, the last of which need not end in a newline.
pub open spec fn line_number(text: Seq<char>) -> nat {
    char_count(text, '\n') + if unfinished(text) {
        1nat
    } else {
        0nat
    }
}

/// For each line of the text of the first `n` pieces, whether it is from
/// stderr. A line is from the stream of the piece in which it starts.
pub open spec fn line_flags(pieces: Seq<LineView>, n: int) -> Seq<bool>
    decreases n,
{
    if n <= 0 {
        Seq::empty()
    } else {
        let before = line_flags(pieces, n - 1);
        let total = line_number(combined_text(pieces, n));
        before + Seq::new((total - before.len()) as nat, |i: int| pieces[n - 1].is_stderr)
    }
}

/// Text that comes in ends the lines that its newlines end, and starts one where
/// none was left unfinished.
proof fn lemma_line_number_concat(a: Seq<char>, b: Seq<char>)
    ensures
        b.len() == 0 ==> a + b == a,
        b.len() > 0 ==> unfinished(a + b) == unfinished(b),
        line_number(a + b) >= line_number(a),
        b.len() > 0 ==> line_number(a + b) == line_number(a) + char_count(b, '\n') + (if unfinished(
            b,
        ) {
            1int
        } else {
            0int
        }) - (if unfinished(a) {
            1int
        } else {
            0int
        }),
{
    lemma_char_count_concat(a, b, '\n');
    if b.len() == 0 {
        assert(a + b =~= a);
    } else {
        assert((a + b).last() == b.last());
        if !unfinished(b) {
            assert(b =~= b.drop_last() + seq!['\n']);
            lemma_char_count_concat(b.drop_last(), seq!['\n'], '\n');
            reveal_with_fuel(char_count, 2);
        }
    }
}

/// Number of newlines in a text, and whether its last line has not ended.
fn line_ends(text: &str) -> (r: (usize, bool))
    ensures
        r.0 == char_count(text@, '\n'),
        r.1 == unfinished(text@),
        r.1 ==> r.0 < usize::MAX,
        text@.len() > 0 && !r.1 ==> r.0 > 0,
{
    let bytes = text.as_bytes();
    let n = bytecount::count(bytes, 0x0a);
    let open = !text.is_empty() && !ends_with_newline(text);
    proof {
        lemma_encoded_newlines(text@);
        crate::bytes::lemma_count_at_most(bytes@, 0x0a);
        lemma_line_number_concat(Seq::empty(), text@);
        assert(Seq::<char>::empty() + text@ =~= text@);
        if open {
            crate::ansi_lines::lemma_last_byte(text@);
            assert(bytes.len() <= usize::MAX);
        }
        if text@.len() > 0 && !open {
            assert(text@ =~= text@.drop_last() + seq!['\n']);
            lemma_char_count_concat(text@.drop_last(), seq!['\n'], '\n');
            reveal_with_fuel(char_count, 2);
        }
    }
    (n, open)
}

/// For each line of the text of `pieces`, whether it is from stderr.
pub fn flag_lines(pieces: &Vec<CombinedLine>) -> (r: Vec<bool>)
    ensures
        r@ == line_flags(combined_view(pieces@), pieces@.len() as int),
{
    let ghost all = combined_view(pieces@);
    let mut out: Vec<bool> = Vec::new();
    // whether the last line so far has not ended yet
    let mut open = false;
    let mut i: usize = 0;
    while i < pieces.len()
        invariant
            all == combined_view(pieces@),
            i <= pieces@.len(),
            out@ == line_flags(all, i as int),
            out@.len() == line_number(combined_text(all, i as int)),
            open == unfinished(combined_text(all, i as int)),
        decreases pieces@.len() - i,
    {
        let ghost before = combined_text(all, i as int);
        let text = decode_lossy(pieces[i].content.as_slice());
        let (ended, ends_open) = line_ends(text.as_str());
        let mut starts: usize = ended;
        proof {
            lemma_line_number_concat(before, text@);
        }
        if text.as_str().is_empty() {
            proof {
                assert(text@ =~= Seq::<char>::empty());
            }
        } else {
            if ends_open {
                starts = starts + 1;
            }
            if open {
                starts = starts - 1;
            }
            open = ends_open;
        }
        let is_stderr = pieces[i].is_stderr;
        let ghost flags = out@;
        let mut k: usize = 0;
        while k < starts
            invariant
                k <= starts,
                out@.len() == flags.len() + k,
                forall|j: int| 0 <= j < flags.len() ==> #[trigger] out@[j] == flags[j],
                forall|j: int| flags.len() <= j < out@.len() ==> #[trigger] out@[j] == is_stderr,
            decreases starts - k,
        {
            out.push(is_stderr);
            k = k + 1;
        }
        i = i + 1;
        proof {
            assert(combined_text(all, i as int) == before + text@);
            assert(out@ =~= line_flags(all, i as int));
        }
    }
    out
}

/// There is one flag for each line of the text.
pub proof fn law_one_flag_per_line(pieces: Seq<LineView>, n: int)
    requires
        0 <= n <= pieces.len(),
    ensures
        line_flags(pieces, n).len() == text_lines(combined_text(pieces, n)).len(),
{
    lemma_flag_count(pieces, n);
    lemma_line_number(combined_text(pieces, n));
}

proof fn lemma_flag_count(pieces: Seq<LineView>, n: int)
    requires
        0 <= n <= pieces.len(),
    ensures
        line_flags(pieces, n).len() == line_number(combined_text(pieces, n)),
    decreases n,
{
    if n > 0 {
        lemma_flag_count(pieces, n - 1);
        lemma_line_number_concat(
            combined_text(pieces, n - 1),
            crate::bytes::shown_text(pieces[n - 1].content),
        );
    }
}

proof fn lemma_line_number(s: Seq<char>)
    ensures
        text_lines(s).len() == line_number(s),
    decreases s.len(),
{
    lemma_first_of(s, '\n');
    let k = first_of(s, '\n');
    if s.len() > 0 {
        if k < s.len() {
            let rest = s.skip(k + 1);
            lemma_line_number(rest);
            assert(s =~= s.take(k) + seq!['\n'] + rest);
            assert forall|i: int| 0 <= i < k implies #[trigger] s.take(k)[i] != '\n' by {
                assert(s.take(k)[i] == s[i]);
            }
            lemma_no_count(s.take(k), '\n');
            lemma_char_count_concat(s.take(k) + seq!['\n'], rest, '\n');
            lemma_char_count_concat(s.take(k), seq!['\n'], '\n');
            reveal_with_fuel(char_count, 2);
            if rest.len() > 0 {
                assert(rest.last() == s.last());
            }
        } else {
            lemma_no_count(s, '\n');
        }
    }
}

} // verus!
