//! Which shell runs the stages, and with which options.
use vstd::prelude::*;

use crate::executor::shell::{
    chosen_shell, file_name, ppid_in, ppid_of_line, shell_args_of, shell_path,
};
use crate::number::parse_number;
use crate::options::{no_overrides, resolved, OptionsView, OverridesView};
use crate::split_laws::all_white;
use crate::text::{first_of, lemma_first_of, split_on};
use crate::text_tools::begins_with;

verus! {

/// A name without slashes that is neither empty nor a dot or two.
pub open spec fn is_file_name(s: Seq<char>) -> bool {
    &&& !s.contains('/')
    &&& s.len() > 0
    &&& s != seq!['.']
    &&& s != seq!['.', '.']
}

proof fn lemma_split_last(a: Seq<char>, name: Seq<char>)
    requires
        !name.contains('/'),
    ensures
        split_on(name, '/') == seq![name],
        split_on(a + seq!['/'] + name, '/') == split_on(a, '/').push(name),
    decreases a.len(),
{
    lemma_first_of(name, '/');
    if first_of(name, '/') < name.len() {
        assert(name.contains(name[first_of(name, '/')]));
    }
    assert(split_on(name, '/') =~= seq![name]);
    let s = a + seq!['/'] + name;
    lemma_first_of(s, '/');
    lemma_first_of(a, '/');
    let k = first_of(s, '/');
    assert(s[a.len() as int] == '/');
    assert(k <= a.len());
    if k == a.len() {
        assert forall|i: int| 0 <= i < a.len() implies a[i] != '/' by {
            assert(s[i] == a[i]);
        }
        assert(first_of(a, '/') == a.len());
        assert(s.take(k) =~= a);
        assert(s.skip(k + 1) =~= name);
        assert(split_on(s, '/') =~= split_on(a, '/').push(name));
    } else {
        assert(a[k] == s[k]);
        assert(first_of(a, '/') == k) by {
            let j = first_of(a, '/');
            if j < k {
                assert(s[j] == a[j]);
            }
        }
        let rest = a.skip(k + 1);
        lemma_split_last(rest, name);
        assert(s.skip(k + 1) =~= rest + seq!['/'] + name);
        assert(s.take(k) =~= a.take(k));
        assert(split_on(s, '/') =~= split_on(a, '/').push(name));
    }
}

/// A program is a shell if its name ends in `sh`, wherever it lies.
pub proof fn law_shells_are_known_by_name(dir: Seq<char>, name: Seq<char>)
    requires
        is_file_name(name),
    ensures
        ({
            let n = name.len() as int;
            let is_sh = n >= 2 && name[n - 2] == 's' && name[n - 1] == 'h';
            &&& shell_path(name) == is_sh
            &&& shell_path(dir + seq!['/'] + name) == is_sh
        }),
{
    reveal_strlit("");
    reveal_strlit(".");
    reveal_strlit("..");
    assert("."@ =~= seq!['.']);
    assert(".."@ =~= seq!['.', '.']);
    lemma_split_last(dir, name);
    let parts = split_on(dir, '/').push(name);
    assert(parts.last() == name);
    assert(seq![name].last() == name);
}

/// Slashes behind a path, and dots that stand for a directory itself, do not
/// matter; a path that ends in two dots, or that has no name in it, is no shell.
pub proof fn law_ends_of_paths(dir: Seq<char>)
    ensures
        shell_path(dir + seq!['/']) == shell_path(dir),
        shell_path(dir + seq!['/', '.']) == shell_path(dir),
        !shell_path(dir + seq!['/', '.', '.']),
        !shell_path(Seq::empty()),
{
    reveal_strlit("");
    reveal_strlit(".");
    reveal_strlit("..");
    assert("."@ =~= seq!['.']);
    assert(".."@ =~= seq!['.', '.']);
    let none = Seq::<char>::empty();
    assert(""@ =~= none);
    let parts = split_on(dir, '/');
    lemma_split_last(dir, none);
    lemma_split_last(dir, seq!['.']);
    lemma_split_last(dir, seq!['.', '.']);
    assert(dir + seq!['/'] + none =~= dir + seq!['/']);
    assert(dir + seq!['/'] + seq!['.'] =~= dir + seq!['/', '.']);
    assert(dir + seq!['/'] + seq!['.', '.'] =~= dir + seq!['/', '.', '.']);
    assert(parts.push(none).drop_last() =~= parts);
    assert(parts.push(seq!['.']).drop_last() =~= parts);
    assert(seq![none].drop_last() =~= Seq::<Seq<char>>::empty());
    reveal_with_fuel(file_name, 2);
}

/// Stages run in the shell from which the program was started; if it was not
/// started from one, in the one that is set, and if none is, in `sh`.
pub proof fn law_choosing_a_shell(exe: Seq<char>, var: Seq<char>, other: Option<Seq<char>>)
    ensures
        shell_path(exe) ==> chosen_shell(Some(exe), other) == exe,
        !shell_path(exe) ==> chosen_shell(Some(exe), Some(var)) == var,
        !shell_path(exe) ==> chosen_shell(Some(exe), None) == seq!['s', 'h'],
        chosen_shell(None, Some(var)) == var,
        chosen_shell(None, None) == seq!['s', 'h'],
{
    reveal_strlit("sh");
    assert("sh"@ =~= seq!['s', 'h']);
}

/// The command is one argument, behind `-c`; an interactive shell gets `-i`
/// before that.
pub proof fn law_shell_arguments(command: Seq<char>)
    ensures
        shell_args_of(command, false) == seq![seq!['-', 'c'], command],
        shell_args_of(command, true) == seq![seq!['-', 'i'], seq!['-', 'c'], command],
{
    reveal_strlit("-c");
    reveal_strlit("-i");
    assert("-c"@ =~= seq!['-', 'c']);
    assert("-i"@ =~= seq!['-', 'i']);
}

/// The parent process is the number in the first line of a status that begins
/// with `PPid:` and has one, with any white space around it. Lines in front of
/// it that do not begin so do not matter.
pub proof fn law_finding_the_parent(
    before: Seq<Seq<char>>,
    a: Seq<char>,
    number: Seq<char>,
    b: Seq<char>,
    after: Seq<Seq<char>>,
    n: int,
)
    requires
        forall|i: int|
            0 <= i < before.len() ==> !begins_with(
                #[trigger] before[i],
                seq!['P', 'P', 'i', 'd', ':'],
            ),
        all_white(a),
        all_white(b),
        number.len() > 0,
        !crate::text::is_white_space(number[0]),
        !crate::text::is_white_space(number.last()),
        parse_number(number, u32::MAX as int) == Some(n),
    ensures
        ppid_in(before) is None,
        ppid_in(before + seq![seq!['P', 'P', 'i', 'd', ':'] + a + number + b] + after) == Some(n),
    decreases before.len(),
{
    reveal_strlit("PPid:");
    let key = seq!['P', 'P', 'i', 'd', ':'];
    assert("PPid:"@ =~= key);
    let line = key + a + number + b;
    let all = before + seq![line] + after;
    if before.len() == 0 {
        crate::split_laws::law_trimming_keeps_text(a, number, b);
        assert(line.skip(5) =~= a + number + b);
        assert(line.take(5) =~= key);
        assert(all[0] == line);
        assert(begins_with(line, key));
        assert(ppid_of_line(line) == Some(n));
    } else {
        let rest = before.drop_first();
        assert forall|i: int| 0 <= i < rest.len() implies !begins_with(
            #[trigger] rest[i],
            key,
        ) by {
            assert(!begins_with(before[i + 1], key));
        }
        law_finding_the_parent(rest, a, number, b, after, n);
        assert(!begins_with(before[0], key));
        assert(all.drop_first() =~= rest + seq![line] + after);
        assert(all[0] == before[0]);
    }
}

/// Options of a stage go before the defaults, each by itself.
pub proof fn law_options_of_a_stage(
    o: OverridesView,
    defaults: OptionsView,
    interactive: bool,
    shell: Seq<char>,
)
    ensures
        ({
            let r = resolved(o, defaults);
            &&& o.interactive == Some(interactive) ==> r.interactive == interactive
            &&& o.interactive is None ==> r.interactive == defaults.interactive
            &&& o.shell == Some(shell) ==> r.shell == Some(shell)
            &&& o.shell is None ==> r.shell == defaults.shell
            &&& o == no_overrides() <==> o.interactive is None && o.shell is None
        }),
{
}

} // verus!
