//! What the control sequences that select a style mean.
use vstd::prelude::*;

use crate::ansi::{apply_code, apply_parts, apply_sgr, AnsiStyleState};
use crate::number::{digit_char, digits_value, is_digit, parse_number};
use crate::style::Color;
use crate::text::{first_of, lemma_first_of, split_on};

verus! {

/// A text without `;` is one parameter.
proof fn lemma_one_part(p: Seq<char>)
    requires
        !p.contains(';'),
    ensures
        split_on(p, ';') == seq![p],
{
    lemma_first_of(p, ';');
    let k = first_of(p, ';');
    if k < p.len() {
        assert(p.contains(p[k]));
    }
}

proof fn lemma_two_parts(p: Seq<char>, rest: Seq<char>)
    requires
        !p.contains(';'),
    ensures
        split_on(p + seq![';'] + rest, ';') == seq![p] + split_on(rest, ';'),
{
    let s = p + seq![';'] + rest;
    lemma_first_of(s, ';');
    let k = first_of(s, ';');
    assert(s[p.len() as int] == ';');
    if k < p.len() {
        assert(p.contains(p[k]));
        assert(s[k] == p[k]);
    }
    if k > p.len() {
        assert(s[p.len() as int] != ';');
    }
    assert(s.take(k) =~= p);
    assert(s.skip(k + 1) =~= rest);
}

proof fn lemma_one_digit(a: char)
    requires
        '0' <= a <= '9',
    ensures
        parse_number(seq![a], 65535) == Some(a as int - 48),
        !seq![a].contains(';'),
{
    let s = seq![a];
    assert(s.drop_last() =~= Seq::<char>::empty());
    reveal_with_fuel(digits_value, 2);
    assert(is_digit(s[0]));
}

proof fn lemma_two_digits(a: char, b: char)
    requires
        '0' <= a <= '9',
        '0' <= b <= '9',
    ensures
        parse_number(seq![a, b], 65535) == Some((a as int - 48) * 10 + (b as int - 48)),
        !seq![a, b].contains(';'),
{
    let s = seq![a, b];
    assert(s.drop_last() =~= seq![a]);
    assert(seq![a].drop_last() =~= Seq::<char>::empty());
    reveal_with_fuel(digits_value, 3);
    assert(is_digit(s[0]) && is_digit(s[1]));
}

proof fn lemma_three_digits(a: char, b: char, c: char)
    requires
        '0' <= a <= '9',
        '0' <= b <= '9',
        '0' <= c <= '9',
    ensures
        parse_number(seq![a, b, c], 65535) == Some(
            (a as int - 48) * 100 + (b as int - 48) * 10 + (c as int - 48),
        ),
        !seq![a, b, c].contains(';'),
{
    let s = seq![a, b, c];
    assert(s.drop_last() =~= seq![a, b]);
    assert(seq![a, b].drop_last() =~= seq![a]);
    assert(seq![a].drop_last() =~= Seq::<char>::empty());
    reveal_with_fuel(digits_value, 4);
    assert(is_digit(s[0]) && is_digit(s[1]) && is_digit(s[2]));
}

/// A single parameter is the code that it spells.
proof fn lemma_single(p: Seq<char>, n: int, st: AnsiStyleState)
    requires
        !p.contains(';'),
        parse_number(p, 65535) == Some(n),
        n != 38,
        n != 48,
    ensures
        apply_sgr(p, st) == apply_code(n, st),
{
    lemma_one_part(p);
    reveal_with_fuel(apply_parts, 2);
    assert(seq![p].drop_first() =~= Seq::<Seq<char>>::empty());
}

/// The codes `30` to `37` select the eight basic colours of the text, `40` to
/// `47` the same colours of the background, `90` to `97` and `100` to `107` the
/// light ones. Whatever else is selected stays.
pub proof fn law_basic_colours(d: char, st: AnsiStyleState)
    requires
        '0' <= d <= '7',
    ensures
        ({
            let fg = apply_sgr(seq!['3', d], st).fg;
            let light = apply_sgr(seq!['9', d], st).fg;
            &&& d == '0' ==> fg == Some(Color::Black) && light == Some(Color::DarkGray)
            &&& d == '1' ==> fg == Some(Color::Red) && light == Some(Color::LightRed)
            &&& d == '2' ==> fg == Some(Color::Green) && light == Some(Color::LightGreen)
            &&& d == '3' ==> fg == Some(Color::Yellow) && light == Some(Color::LightYellow)
            &&& d == '4' ==> fg == Some(Color::Blue) && light == Some(Color::LightBlue)
            &&& d == '5' ==> fg == Some(Color::Magenta) && light == Some(Color::LightMagenta)
            &&& d == '6' ==> fg == Some(Color::Cyan) && light == Some(Color::LightCyan)
            &&& d == '7' ==> fg == Some(Color::Gray) && light == Some(Color::White)
            &&& apply_sgr(seq!['3', d], st) == (AnsiStyleState { fg, ..st })
            &&& apply_sgr(seq!['4', d], st) == (AnsiStyleState { bg: fg, ..st })
            &&& apply_sgr(seq!['9', d], st) == (AnsiStyleState { fg: light, ..st })
            &&& apply_sgr(seq!['1', '0', d], st) == (AnsiStyleState { bg: light, ..st })
        }),
{
    let n = d as int - 48;
    lemma_two_digits('3', d);
    lemma_two_digits('4', d);
    lemma_two_digits('9', d);
    lemma_three_digits('1', '0', d);
    lemma_single(seq!['3', d], 30 + n, st);
    lemma_single(seq!['4', d], 40 + n, st);
    lemma_single(seq!['9', d], 90 + n, st);
    lemma_single(seq!['1', '0', d], 100 + n, st);
}

/// `1` makes the text bold and `22` makes it normal again; `39` and `49` give
/// back the default colours; `0`, and a sequence without parameters, give back
/// the default of everything.
pub proof fn law_weight_and_reset(st: AnsiStyleState)
    ensures
        apply_sgr(seq!['1'], st) == (AnsiStyleState { bold: true, ..st }),
        apply_sgr(seq!['2', '2'], st) == (AnsiStyleState { bold: false, ..st }),
        apply_sgr(seq!['3', '9'], st) == (AnsiStyleState { fg: None, ..st }),
        apply_sgr(seq!['4', '9'], st) == (AnsiStyleState { bg: None, ..st }),
        apply_sgr(seq!['0'], st) == (AnsiStyleState { fg: None, bg: None, bold: false }),
        apply_sgr(Seq::empty(), st) == (AnsiStyleState { fg: None, bg: None, bold: false }),
{
    lemma_one_digit('1');
    lemma_one_digit('0');
    lemma_two_digits('2', '2');
    lemma_two_digits('3', '9');
    lemma_two_digits('4', '9');
    lemma_single(seq!['1'], 1, st);
    lemma_single(seq!['0'], 0, st);
    lemma_single(seq!['2', '2'], 22, st);
    lemma_single(seq!['3', '9'], 39, st);
    lemma_single(seq!['4', '9'], 49, st);
    let e = Seq::<char>::empty();
    lemma_one_part(e);
    reveal_with_fuel(apply_parts, 2);
    assert(seq![e].drop_first() =~= Seq::<Seq<char>>::empty());
}

/// Codes that select nothing that is shown here change nothing: italics,
/// underlining, blinking and the like.
pub proof fn law_other_codes_change_nothing(a: char, b: char, st: AnsiStyleState)
    requires
        '0' <= a <= '9',
        '0' <= b <= '9',
    ensures
        '2' <= b <= '9' ==> apply_sgr(seq![b], st) == st,
        a == '1' || (a == '2' && b != '2') || '5' <= a <= '8' ==> apply_sgr(seq![a, b], st) == st,
        a == '9' && '8' <= b ==> apply_sgr(seq![a, b], st) == st,
{
    lemma_one_digit(b);
    lemma_two_digits(a, b);
    let n = (a as int - 48) * 10 + (b as int - 48);
    if '2' <= b {
        lemma_single(seq![b], b as int - 48, st);
    }
    if n != 38 && n != 48 {
        lemma_single(seq![a, b], n, st);
    }
}

/// What is not a number counts as `0`.
pub proof fn law_no_number_resets(p: Seq<char>, st: AnsiStyleState)
    requires
        !p.contains(';'),
        exists|i: int| 0 <= i < p.len() && !('0' <= #[trigger] p[i] <= '9') && p[i] != '+',
    ensures
        apply_sgr(p, st) == (AnsiStyleState { fg: None, bg: None, bold: false }),
{
    lemma_one_part(p);
    reveal_with_fuel(apply_parts, 2);
    assert(seq![p].drop_first() =~= Seq::<Seq<char>>::empty());
    let i = choose|i: int| 0 <= i < p.len() && !('0' <= #[trigger] p[i] <= '9') && p[i] != '+';
    let d = crate::number::unsigned_part(p);
    if p[0] == '+' {
        assert(d[i - 1] == p[i]);
        assert(!is_digit(d[i - 1]));
    } else {
        assert(!is_digit(d[i]));
    }
}

/// Several codes in one sequence have the effect of one sequence for each, in
/// the order in which they stand. Left out is a first code that takes the
/// parameters behind it.
pub proof fn law_codes_take_effect_in_order(p: Seq<char>, rest: Seq<char>, st: AnsiStyleState)
    requires
        !p.contains(';'),
        parse_number(p, 65535) != Some(38int),
        parse_number(p, 65535) != Some(48int),
    ensures
        apply_sgr(p + seq![';'] + rest, st) == apply_sgr(rest, apply_sgr(p, st)),
{
    lemma_two_parts(p, rest);
    lemma_one_part(p);
    let parts = split_on(p + seq![';'] + rest, ';');
    assert(parts.drop_first() =~= split_on(rest, ';'));
    reveal_with_fuel(apply_parts, 2);
    assert(seq![p].drop_first() =~= Seq::<Seq<char>>::empty());
}

/// `38;5;n` selects colour `n` of the palette for the text and `48;5;n` for the
/// background; what follows takes effect after that. A number beyond the palette
/// counts as its last.
pub proof fn law_palette_colours(n: Seq<char>, v: int, rest: Seq<char>, st: AnsiStyleState)
    requires
        !n.contains(';'),
        parse_number(n, 65535) == Some(v),
    ensures
        ({
            let c = Some(
                Color::Indexed(
                    if v > 255 {
                        255u8
                    } else {
                        v as u8
                    },
                ),
            );
            let more = seq![';'] + rest;
            &&& apply_sgr(seq!['3', '8', ';', '5', ';'] + n, st) == (AnsiStyleState {
                fg: c,
                ..st
            })
            &&& apply_sgr(seq!['4', '8', ';', '5', ';'] + n, st) == (AnsiStyleState {
                bg: c,
                ..st
            })
            &&& apply_sgr(seq!['3', '8', ';', '5', ';'] + n + more, st) == apply_sgr(
                rest,
                AnsiStyleState { fg: c, ..st },
            )
            &&& apply_sgr(seq!['4', '8', ';', '5', ';'] + n + more, st) == apply_sgr(
                rest,
                AnsiStyleState { bg: c, ..st },
            )
        }),
{
    lemma_palette('3', n, v, rest, st);
    lemma_palette('4', n, v, rest, st);
}

proof fn lemma_palette(a: char, n: Seq<char>, v: int, rest: Seq<char>, st: AnsiStyleState)
    requires
        a == '3' || a == '4',
        !n.contains(';'),
        parse_number(n, 65535) == Some(v),
    ensures
        ({
            let c = Some(
                Color::Indexed(
                    if v > 255 {
                        255u8
                    } else {
                        v as u8
                    },
                ),
            );
            let after = if a == '3' {
                AnsiStyleState { fg: c, ..st }
            } else {
                AnsiStyleState { bg: c, ..st }
            };
            let s = seq![a, '8', ';', '5', ';'] + n;
            &&& apply_sgr(s, st) == after
            &&& apply_sgr(s + (seq![';'] + rest), st) == apply_sgr(rest, after)
        }),
{
    lemma_two_digits(a, '8');
    lemma_one_digit('5');
    let s = seq![a, '8', ';', '5', ';'] + n;
    let p0 = seq![a, '8'];
    let p1 = seq!['5'];
    lemma_one_part(n);
    lemma_two_parts(p1, n);
    lemma_two_parts(p0, p1 + seq![';'] + n);
    assert(s =~= p0 + seq![';'] + (p1 + seq![';'] + n));
    let parts = split_on(s, ';');
    assert(parts =~= seq![p0, p1, n]);
    reveal_with_fuel(apply_parts, 2);
    let t = s + (seq![';'] + rest);
    lemma_two_parts(n, rest);
    lemma_two_parts(p1, n + seq![';'] + rest);
    lemma_two_parts(p0, p1 + seq![';'] + (n + seq![';'] + rest));
    assert(t =~= p0 + seq![';'] + (p1 + seq![';'] + (n + seq![';'] + rest)));
    let more = split_on(t, ';');
    assert(more =~= seq![p0, p1, n] + split_on(rest, ';'));
    assert(more.skip(3) =~= split_on(rest, ';'));
}

/// `38;2;r;g;b` selects the colour with these components for the text and
/// `48;2;r;g;b` for the background, in this order; what follows takes effect
/// after that. A component beyond its range counts as its largest.
pub proof fn law_true_colours(
    r: (Seq<char>, int),
    g: (Seq<char>, int),
    b: (Seq<char>, int),
    rest: Seq<char>,
    st: AnsiStyleState,
)
    requires
        !r.0.contains(';') && parse_number(r.0, 65535) == Some(r.1),
        !g.0.contains(';') && parse_number(g.0, 65535) == Some(g.1),
        !b.0.contains(';') && parse_number(b.0, 65535) == Some(b.1),
    ensures
        ({
            let c = Some(Color::Rgb(at_most_255(r.1), at_most_255(g.1), at_most_255(b.1)));
            let rgb = r.0 + seq![';'] + (g.0 + seq![';'] + b.0);
            let more = seq![';'] + rest;
            &&& apply_sgr(seq!['3', '8', ';', '2', ';'] + rgb, st) == (AnsiStyleState {
                fg: c,
                ..st
            })
            &&& apply_sgr(seq!['4', '8', ';', '2', ';'] + rgb, st) == (AnsiStyleState {
                bg: c,
                ..st
            })
            &&& apply_sgr(seq!['3', '8', ';', '2', ';'] + rgb + more, st) == apply_sgr(
                rest,
                AnsiStyleState { fg: c, ..st },
            )
            &&& apply_sgr(seq!['4', '8', ';', '2', ';'] + rgb + more, st) == apply_sgr(
                rest,
                AnsiStyleState { bg: c, ..st },
            )
        }),
{
    lemma_true_colour('3', r, g, b, rest, st);
    lemma_true_colour('4', r, g, b, rest, st);
}

/// A number, or 255 where it is larger.
pub open spec fn at_most_255(v: int) -> u8 {
    if v > 255 {
        255
    } else {
        v as u8
    }
}

proof fn lemma_true_colour(
    a: char,
    r: (Seq<char>, int),
    g: (Seq<char>, int),
    b: (Seq<char>, int),
    rest: Seq<char>,
    st: AnsiStyleState,
)
    requires
        a == '3' || a == '4',
        !r.0.contains(';') && parse_number(r.0, 65535) == Some(r.1),
        !g.0.contains(';') && parse_number(g.0, 65535) == Some(g.1),
        !b.0.contains(';') && parse_number(b.0, 65535) == Some(b.1),
    ensures
        ({
            let c = Some(Color::Rgb(at_most_255(r.1), at_most_255(g.1), at_most_255(b.1)));
            let rgb = r.0 + seq![';'] + (g.0 + seq![';'] + b.0);
            let after = if a == '3' {
                AnsiStyleState { fg: c, ..st }
            } else {
                AnsiStyleState { bg: c, ..st }
            };
            let s = seq![a, '8', ';', '2', ';'] + rgb;
            &&& apply_sgr(s, st) == after
            &&& apply_sgr(s + (seq![';'] + rest), st) == apply_sgr(rest, after)
        }),
{
    let gb = g.0 + seq![';'] + b.0;
    let rgb = r.0 + seq![';'] + gb;
    let s = seq![a, '8', ';', '2', ';'] + rgb;
    lemma_four_parts(a, r.0, g.0, b.0);
    lemma_one_part(b.0);
    let five = seq![seq![a, '8'], seq!['2'], r.0, g.0, b.0];
    assert(split_on(s, ';') =~= five + Seq::<Seq<char>>::empty());
    lemma_true_colour_parts(a, r, g, b, Seq::empty(), st);
    assert(apply_parts(Seq::empty(), st) == st);
    let b2 = b.0 + seq![';'] + rest;
    let t = s + (seq![';'] + rest);
    assert(t =~= seq![a, '8', ';', '2', ';'] + (r.0 + seq![';'] + (g.0 + seq![';'] + b2)));
    lemma_four_parts(a, r.0, g.0, b2);
    lemma_two_parts(b.0, rest);
    assert(split_on(t, ';') =~= five + split_on(rest, ';'));
    lemma_true_colour_parts(a, r, g, b, split_on(rest, ';'), st);
}

proof fn lemma_four_parts(a: char, r: Seq<char>, g: Seq<char>, last: Seq<char>)
    requires
        a == '3' || a == '4',
        !r.contains(';'),
        !g.contains(';'),
    ensures
        split_on(
            seq![a, '8', ';', '2', ';'] + (r + seq![';'] + (g + seq![';'] + last)),
            ';',
        ) == seq![seq![a, '8'], seq!['2'], r, g] + split_on(last, ';'),
{
    lemma_two_digits(a, '8');
    lemma_one_digit('2');
    let p0 = seq![a, '8'];
    let p1 = seq!['2'];
    let gl = g + seq![';'] + last;
    let rgl = r + seq![';'] + gl;
    lemma_two_parts(g, last);
    lemma_two_parts(r, gl);
    lemma_two_parts(p1, rgl);
    lemma_two_parts(p0, p1 + seq![';'] + rgl);
    assert(seq![a, '8', ';', '2', ';'] + rgl =~= p0 + seq![';'] + (p1 + seq![';'] + rgl));
    assert(seq![p0] + (seq![p1] + (seq![r] + (seq![g] + split_on(last, ';')))) =~= seq![
        p0,
        p1,
        r,
        g,
    ] + split_on(last, ';'));
}

proof fn lemma_true_colour_parts(
    a: char,
    r: (Seq<char>, int),
    g: (Seq<char>, int),
    b: (Seq<char>, int),
    tail: Seq<Seq<char>>,
    st: AnsiStyleState,
)
    requires
        a == '3' || a == '4',
        parse_number(r.0, 65535) == Some(r.1),
        parse_number(g.0, 65535) == Some(g.1),
        parse_number(b.0, 65535) == Some(b.1),
    ensures
        ({
            let c = Some(Color::Rgb(at_most_255(r.1), at_most_255(g.1), at_most_255(b.1)));
            apply_parts(seq![seq![a, '8'], seq!['2'], r.0, g.0, b.0] + tail, st) == apply_parts(
                tail,
                if a == '3' {
                    AnsiStyleState { fg: c, ..st }
                } else {
                    AnsiStyleState { bg: c, ..st }
                },
            )
        }),
{
    lemma_two_digits(a, '8');
    lemma_one_digit('2');
    let parts = seq![seq![a, '8'], seq!['2'], r.0, g.0, b.0] + tail;
    assert(crate::ansi::drop_parts(parts, 5) =~= tail);
}

/// Numbers are read in base ten: the digits of a number, written one after the
/// other, spell it, and another digit behind them makes it ten times as large
/// and adds the digit.
pub proof fn law_numbers_are_decimal(s: Seq<char>, v: int, d: char, max: int)
    requires
        parse_number(s, max) == Some(v),
        '0' <= d <= '9',
        v * 10 + (d as int - 48) <= max,
    ensures
        parse_number(s.push(d), max) == Some(v * 10 + (d as int - 48)),
{
    let u = crate::number::unsigned_part(s);
    let w = crate::number::unsigned_part(s.push(d));
    assert(w =~= u.push(d));
    assert(w.drop_last() =~= u);
    assert forall|i: int| 0 <= i < w.len() implies is_digit(#[trigger] w[i]) by {
        if i < u.len() {
            assert(w[i] == u[i]);
        }
    }
}

/// A single digit spells its number; nothing, a sign alone and anything with
/// another character in it spells none, nor does a number beyond the limit.
pub proof fn law_what_is_a_number(s: Seq<char>, d: char, max: int)
    requires
        '0' <= d <= '9',
        max >= 9,
    ensures
        parse_number(seq![d], max) == Some(d as int - 48),
        parse_number(seq!['+', d], max) == Some(d as int - 48),
        parse_number(Seq::empty(), max) is None,
        parse_number(seq!['+'], max) is None,
        (exists|i: int| 0 <= i < s.len() && !('0' <= #[trigger] s[i] <= '9') && (i > 0 || s[i]
            != '+')) ==> parse_number(s, max) is None,
        parse_number(s, max) matches Some(v) ==> 0 <= v <= max,
{
    reveal_with_fuel(digits_value, 2);
    let one = seq![d];
    assert(one.drop_last() =~= Seq::<char>::empty());
    assert(is_digit(one[0]));
    assert(seq!['+', d].drop_first() =~= one);
    assert(seq!['+'].drop_first() =~= Seq::<char>::empty());
    let u = crate::number::unsigned_part(s);
    if exists|i: int| 0 <= i < s.len() && !('0' <= #[trigger] s[i] <= '9') && (i > 0 || s[i] != '+')
    {
        let i = choose|i: int|
            0 <= i < s.len() && !('0' <= #[trigger] s[i] <= '9') && (i > 0 || s[i] != '+');
        if s[0] == '+' {
            assert(u[i - 1] == s[i]);
            assert(!is_digit(u[i - 1]));
        } else {
            assert(!is_digit(u[i]));
        }
    }
    if parse_number(s, max) is Some {
        crate::number::lemma_digits_value_positive(u);
    }
}

/// Writing a number and reading it gives it back; a number below ten is written
/// as its digit.
pub proof fn law_written_numbers_are_read_back(n: nat, max: int)
    requires
        n <= max,
    ensures
        parse_number(crate::number::decimal(n), max) == Some(n as int),
        n == 0 ==> crate::number::decimal(n) == seq!['0'],
        n == 7 ==> crate::number::decimal(n) == seq!['7'],
        n > 0 ==> crate::number::decimal(n)[0] != '0',
        crate::number::decimal(n).len() > 0,
    decreases n,
{
    let s = crate::number::decimal(n);
    if n < 10 {
        let d = digit_char(n);
        assert('0' <= d <= '9' && d as int == 48 + n);
        reveal_with_fuel(digits_value, 2);
        assert(s.drop_last() =~= Seq::<char>::empty());
        assert(is_digit(s[0]));
    } else {
        law_written_numbers_are_read_back(n / 10, max);
        let d = digit_char(n % 10);
        assert('0' <= d <= '9' && d as int == 48 + n % 10);
        law_numbers_are_decimal(crate::number::decimal(n / 10), (n / 10) as int, d, max);
    }
}

} // verus!
