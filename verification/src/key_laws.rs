//! What each key is for.
use vstd::prelude::*;

use crate::ansi::strip;
use crate::app_model::{
    current_text, event_handled, first_match_view, max_scroll, next_match_view, prev_match_view,
    rows_of, started, AppModel, ModeView, SnapshotView, ViewView,
};
use crate::edit_laws::{ctrl, plain};
use crate::editor::{key_edit, EditorView};
use crate::executor::output::{OutputMode, OutputView};
use crate::executor::run_laws::passes_on;
use crate::keys::{Event, KeyCode, KeyEvent, KeyModifiers};
use crate::pipeline::StageView;
use crate::search::{
    matches_in, nav_down, nav_revert, nav_up, query_pushed, SearchHistoryView, SearchView,
};
use crate::split_laws::{all_white, stage_of};
use crate::text::byte_len;

verus! {

// ---------------------------------------------------------------------------
// Words for what is seen
// ---------------------------------------------------------------------------

/// The state after a key.
pub open spec fn press(m: AppModel, key: KeyEvent) -> AppModel {
    event_handled(m, Event::Key(key)).0
}

/// Whether a key ends the application.
pub open spec fn quits(m: AppModel, key: KeyEvent) -> bool {
    event_handled(m, Event::Key(key)).1
}

/// Nothing but the pipeline and its output is on the screen.
pub open spec fn at_rest(m: AppModel) -> bool {
    &&& m.mode == ModeView::Normal
    &&& !m.show_help
    &&& 0 <= m.pipeline.selected
    &&& m.pipeline.selected < m.pipeline.stages.len() || m.pipeline.selected == 0
}

/// A view in which nothing was chosen yet.
pub open spec fn fresh_view() -> ViewView {
    ViewView {
        output_mode: OutputMode::Stdout,
        search: SearchView {
            query: Seq::empty(),
            cursor: 0,
            matches: Seq::empty(),
            match_idx: 0,
        },
        scroll: 0,
    }
}

/// The view of the selected stage.
pub open spec fn seen(m: AppModel) -> ViewView {
    if m.pipeline.selected < m.views.len() {
        m.views[m.pipeline.selected]
    } else {
        fresh_view()
    }
}

/// Whether `r` is `m` with `v` for the view of the selected stage, and nothing
/// else changed.
pub open spec fn only_view(m: AppModel, r: AppModel, v: ViewView) -> bool {
    &&& seen(r) == v
    &&& r == (AppModel { views: r.views, ..m })
    &&& r.views.len() >= m.views.len()
    &&& forall|i: int|
        0 <= i < m.views.len() && i != m.pipeline.selected ==> #[trigger] r.views[i] == m.views[i]
}

/// An output of which nothing has come in.
pub open spec fn is_blank(o: OutputView) -> bool {
    &&& o.stdout.len() == 0
    &&& o.stderr.len() == 0
    &&& o.combined.len() == 0
    &&& o.exit_code is None
    &&& o.stdout_text.len() == 0
    &&& o.stderr_text.len() == 0
}

/// Whether a run of everything up to the selected stage was asked for, with the
/// commands, streams and shells of the stages as they are in `r`: what was shown
/// before is gone, and an output for each stage waits to be filled.
pub open spec fn asks_for_run(r: AppModel, force: bool) -> bool {
    &&& r.running
    &&& r.error is None
    &&& r.outputs.len() == r.pipeline.selected + 1
    &&& forall|i: int| 0 <= i < r.outputs.len() ==> is_blank(#[trigger] r.outputs[i])
    &&& r.request matches Some(q) && {
        &&& q.force == force
        &&& q.up_to == r.pipeline.selected
        &&& q.commands.len() == r.pipeline.stages.len()
        &&& forall|i: int|
            0 <= i < q.commands.len() ==> #[trigger] q.commands[i] == r.pipeline.stages[i].command
        &&& q.modes.len() == r.views.len()
        &&& forall|i: int|
            0 <= i < q.modes.len() ==> #[trigger] q.modes[i] == r.views[i].output_mode
        &&& q.interactive.len() == r.pipeline.stages.len()
        &&& forall|i: int|
            0 <= i < q.interactive.len() ==> #[trigger] q.interactive[i] == (
            match r.pipeline.stages[i].overrides.interactive {
                Some(b) => b,
                None => r.defaults.interactive,
            })
    }
}

/// What is on the undo stack after a change of `m`.
pub open spec fn can_undo_to(m: AppModel, r: AppModel) -> bool {
    &&& r.undo.len() == m.undo.len() + 1
    &&& r.undo.drop_last() == m.undo
    &&& r.undo.last().pipeline == m.pipeline
    &&& r.undo.last().modes.len() == m.pipeline.stages.len()
    &&& forall|i: int|
        0 <= i < m.pipeline.stages.len() ==> #[trigger] r.undo.last().modes[i] == (if i
            < m.views.len() {
            m.views[i].output_mode
        } else {
            OutputMode::Stdout
        })
    &&& r.redo.len() == 0
}

/// The smaller of two numbers.
pub open spec fn lesser(a: int, b: int) -> int {
    if a <= b {
        a
    } else {
        b
    }
}

// ---------------------------------------------------------------------------
// Leaving, help and commands
// ---------------------------------------------------------------------------

/// `q` and Ctrl+C end the application, and change nothing; no other key does
/// while the pipeline is looked at, and no event but a key ever does.
pub proof fn law_quitting(m: AppModel, key: KeyEvent)
    requires
        at_rest(m),
    ensures
        quits(m, plain(KeyCode::Char('q'))) && press(m, plain(KeyCode::Char('q'))) == m,
        quits(m, ctrl(KeyCode::Char('c'))) && press(m, ctrl(KeyCode::Char('c'))) == m,
        quits(m, key) ==> key.code == KeyCode::Char('q') || (key.code == KeyCode::Char('c')
            && key.modifiers.control),
        event_handled(m, Event::Other) == (m, false),
{
}

/// While something is being entered, no key ends the application, except that
/// Enter does on the command `q` or `quit`.
pub proof fn law_no_key_quits_while_entering(m: AppModel, key: KeyEvent)
    requires
        !(m.mode is Normal),
        quits(m, key),
    ensures
        key.code == KeyCode::Enter,
        m.mode is Command,
{
}

/// `?` shows the help, and `:` asks for a command.
pub proof fn law_help_and_command(m: AppModel)
    requires
        at_rest(m),
    ensures
        press(m, plain(KeyCode::Char('?'))) == (AppModel { show_help: true, ..m }),
        ({
            let r = press(m, plain(KeyCode::Char(':')));
            &&& r.mode matches ModeView::Command(e) && e.caret.before.len() == 0
                && e.caret.after.len() == 0
            &&& r == (AppModel { mode: r.mode, ..m })
        }),
{
}

/// The commands `q` and `quit` end the application, `h` and `help` show the
/// help, with whatever white space around them; any other command does nothing,
/// and Esc does nothing.
pub proof fn law_commands(m: AppModel, a: Seq<char>, cmd: Seq<char>, b: Seq<char>)
    requires
        !m.show_help,
        all_white(a),
        all_white(b),
        cmd.len() > 0 ==> !crate::text::is_white_space(cmd[0]) && !crate::text::is_white_space(
            cmd.last(),
        ),
        m.mode matches ModeView::Command(e) && e.caret.before + e.caret.after == a + cmd + b,
    ensures
        ({
            let enter = plain(KeyCode::Enter);
            let n = AppModel { mode: ModeView::Normal, ..m };
            let quit = cmd == seq!['q'] || cmd == seq!['q', 'u', 'i', 't'];
            let help = cmd == seq!['h'] || cmd == seq!['h', 'e', 'l', 'p'];
            &&& quits(m, enter) == quit
            &&& help ==> press(m, enter) == (AppModel { show_help: true, ..n })
            &&& !help ==> press(m, enter) == n
            &&& press(m, plain(KeyCode::Esc)) == n
        }),
{
    crate::split_laws::law_trimming_keeps_text(a, cmd, b);
    reveal_strlit("h");
    reveal_strlit("help");
    reveal_strlit("q");
    reveal_strlit("quit");
    assert("h"@ =~= seq!['h']);
    assert("help"@ =~= seq!['h', 'e', 'l', 'p']);
    assert("q"@ =~= seq!['q']);
    assert("quit"@ =~= seq!['q', 'u', 'i', 't']);
}

/// Tab completes the beginning of a command: of `help`, or else of `quit`.
pub proof fn law_commands_are_completed(m: AppModel, e: EditorView, k: int)
    requires
        !m.show_help,
        m.mode == ModeView::Command(e),
    ensures
        ({
            let help = seq!['h', 'e', 'l', 'p'];
            let quit = seq!['q', 'u', 'i', 't'];
            let text = e.caret.before + e.caret.after;
            let r = press(m, plain(KeyCode::Tab));
            let entered = r.mode->Command_0.caret;
            &&& r.mode is Command
            &&& r == (AppModel { mode: r.mode, ..m })
            &&& 0 <= k <= 4 && text == help.take(k) ==> entered.before == help
                && entered.after.len() == 0
            &&& 1 <= k <= 4 && text == quit.take(k) ==> entered.before == quit
                && entered.after.len() == 0
            &&& (forall|j: int|
                0 <= j <= 4 ==> text != #[trigger] help.take(j) && text != quit.take(j)) ==> r == m
        }),
{
    reveal_strlit("help");
    reveal_strlit("quit");
    let help = seq!['h', 'e', 'l', 'p'];
    let quit = seq!['q', 'u', 'i', 't'];
    assert("help"@ =~= help);
    assert("quit"@ =~= quit);
    let text = e.caret.before + e.caret.after;
    if 1 <= k <= 4 && text == quit.take(k) {
        assert(text[0] == 'q');
        assert(help.take(text.len() as int)[0] == 'h');
    }
    if forall|j: int| 0 <= j <= 4 ==> text != #[trigger] help.take(j) && text != quit.take(j) {
        assert(text.len() <= 4 ==> text != help.take(text.len() as int) && text != quit.take(
            text.len() as int,
        ));
    }
}

// ---------------------------------------------------------------------------
// Stages
// ---------------------------------------------------------------------------

/// Whether `r` is `m` with stage `to` selected: it is run if it has no output
/// yet, and else shown as it is; its search is made up to date.
pub open spec fn moved_to(m: AppModel, r: AppModel, to: int) -> bool {
    &&& r.pipeline.selected == to
    &&& r.pipeline.stages == m.pipeline.stages
    &&& r.mode == m.mode
    &&& r.undo == m.undo && r.redo == m.redo
    &&& to < m.outputs.len() || m.pipeline.stages.len() == 0 ==> r.outputs == m.outputs
        && r.request == m.request && r.running == m.running && r.error == m.error
    &&& to >= m.outputs.len() && m.pipeline.stages.len() > 0 ==> r.running && r.error is None
        && r.outputs.len() == to + 1 && (r.request matches Some(q) && q.up_to == to && !q.force
        && q.commands.len() == m.pipeline.stages.len())
    &&& seen(r).search.matches == matches_in(seen(r).search.query, strip(current_text(r)))
    &&& forall|i: int|
        0 <= i < m.views.len() ==> (#[trigger] r.views[i]).output_mode == m.views[i].output_mode
            && r.views[i].scroll == m.views[i].scroll && r.views[i].search.query
            == m.views[i].search.query
}

/// Right and `l` select the next stage, Left and `h` the previous one; at the
/// ends the selection stays.
pub proof fn law_selecting_stages(m: AppModel)
    requires
        at_rest(m),
    ensures
        ({
            let n = m.pipeline.stages.len() as int;
            let s = m.pipeline.selected;
            let next = if s + 1 < n {
                s + 1
            } else {
                s
            };
            let prev = if s > 0 {
                s - 1
            } else {
                s
            };
            &&& moved_to(m, press(m, plain(KeyCode::Right)), next)
            &&& moved_to(m, press(m, plain(KeyCode::Char('l'))), next)
            &&& moved_to(m, press(m, plain(KeyCode::Left)), prev)
            &&& moved_to(m, press(m, plain(KeyCode::Char('h'))), prev)
        }),
{
}

/// Whether `r` has a new empty stage at `at`, selected and being entered, with
/// all other stages of `m` in their order, and can be undone.
pub open spec fn has_new_stage(m: AppModel, r: AppModel, at: int) -> bool {
    &&& r.pipeline.stages == m.pipeline.stages.insert(at, stage_of(Seq::empty()))
    &&& r.pipeline.selected == at
    &&& r.mode matches ModeView::Editing { editor, pending } && pending
        && editor.caret.before.len() == 0 && editor.caret.after.len() == 0
    &&& can_undo_to(m, r)
    &&& r.outputs == m.outputs && r.request == m.request && r.running == m.running
}

/// `o` and `|` insert a stage behind the selected one, `O` in front of it.
pub proof fn law_inserting_stages(m: AppModel)
    requires
        at_rest(m),
    ensures
        ({
            let behind = if m.pipeline.stages.len() == 0 {
                0
            } else {
                m.pipeline.selected + 1
            };
            &&& has_new_stage(m, press(m, plain(KeyCode::Char('o'))), behind)
            &&& has_new_stage(m, press(m, plain(KeyCode::Char('|'))), behind)
            &&& has_new_stage(m, press(m, plain(KeyCode::Char('O'))), m.pipeline.selected)
        }),
{
    let p = press(m, plain(KeyCode::Char('o')));
    assert(p.undo.drop_last() =~= m.undo);
    let q = press(m, plain(KeyCode::Char('O')));
    assert(q.undo.drop_last() =~= m.undo);
    let s = m.pipeline.selected;
    assert(p.pipeline.stages[p.pipeline.selected].command =~= Seq::<char>::empty());
    assert(q.pipeline.stages[q.pipeline.selected].command =~= Seq::<char>::empty());
}

/// `e` edits the command of the selected stage, with the cursor behind it, and
/// changes nothing else; without stages it does nothing.
pub proof fn law_editing_a_stage(m: AppModel)
    requires
        at_rest(m),
    ensures
        ({
            let r = press(m, plain(KeyCode::Char('e')));
            &&& m.pipeline.stages.len() == 0 ==> r == m
            &&& m.pipeline.stages.len() > 0 ==> {
                &&& r == (AppModel { mode: r.mode, ..m })
                &&& r.mode matches ModeView::Editing { editor, pending } && !pending
                    && editor.caret.before == m.pipeline.stages[m.pipeline.selected].command
                    && editor.caret.after.len() == 0
            }
        }),
{
}

/// Whether `r` is `m` without its selected stage and the view of it: the stage
/// behind it is selected, or else the one in front of it; what is left is run.
pub open spec fn lost_selected(m: AppModel, r: AppModel) -> bool {
    let s = m.pipeline.selected;
    let n = m.pipeline.stages.len() as int;
    &&& r.pipeline.stages == m.pipeline.stages.remove(s)
    &&& r.pipeline.selected == (if s + 1 < n || s == 0 {
        s
    } else {
        s - 1
    })
    &&& s < m.views.len() ==> r.views == m.views.remove(s)
    &&& s >= m.views.len() ==> r.views == m.views
    &&& can_undo_to(m, r)
    &&& n > 1 ==> asks_for_run(r, false)
    &&& n == 1 ==> r.outputs.len() == 0 && !r.running && r.request == m.request
    &&& r.mode is Normal
}

/// `d` and Delete delete the last stage at once; any other stage only after
/// that was confirmed with `y`, and every other key keeps it.
pub proof fn law_deleting_stages(m: AppModel, key: KeyEvent)
    requires
        at_rest(m),
    ensures
        ({
            let n = m.pipeline.stages.len() as int;
            let asked = AppModel { mode: ModeView::ConfirmingDelete, ..m };
            let r = press(m, plain(KeyCode::Char('d')));
            let yes = key.code == KeyCode::Char('y') || key.code == KeyCode::Char('Y');
            &&& press(m, plain(KeyCode::Delete)) == r
            &&& n == 0 ==> r == m
            &&& n > 0 && m.pipeline.selected == n - 1 ==> lost_selected(m, r)
            &&& n > 0 && m.pipeline.selected < n - 1 ==> r == asked
            &&& n > 0 && yes ==> lost_selected(m, press(asked, key))
            &&& !yes ==> press(asked, key) == m
        }),
{
    let asked = AppModel { mode: ModeView::ConfirmingDelete, ..m };
    let r = press(m, plain(KeyCode::Char('d')));
    assert(r.undo.len() > m.undo.len() ==> r.undo.drop_last() =~= m.undo);
    let k = press(asked, key);
    assert(k.undo.len() > m.undo.len() ==> k.undo.drop_last() =~= m.undo);
    assert(press(asked, key).mode is Normal);
}

/// Whether `r` shows what the snapshot holds, with fresh views, and runs it.
pub open spec fn brings_back(s: SnapshotView, r: AppModel) -> bool {
    &&& r.pipeline == s.pipeline
    &&& r.views.len() == s.modes.len()
    &&& forall|i: int|
        0 <= i < s.modes.len() ==> #[trigger] r.views[i] == (ViewView {
            output_mode: s.modes[i],
            ..fresh_view()
        })
    &&& r.pipeline.stages.len() == 0 ==> r.outputs.len() == 0 && !r.running
    &&& r.pipeline.stages.len() > 0 && 0 <= r.pipeline.selected < r.pipeline.stages.len()
        ==> asks_for_run(r, false)
}

/// `u` and Ctrl+Z take back the last change of the pipeline, Ctrl+R and
/// Ctrl+Shift+Z make it again; each can be reverted by the other. Without
/// anything to take back or to make again they do nothing.
pub proof fn law_undo_and_redo_keys(m: AppModel)
    requires
        at_rest(m),
    ensures
        ({
            let u = press(m, plain(KeyCode::Char('u')));
            let r = press(m, ctrl(KeyCode::Char('r')));
            let shift = KeyEvent {
                code: KeyCode::Char('z'),
                modifiers: KeyModifiers { shift: true, control: true, alt: false },
            };
            &&& press(m, ctrl(KeyCode::Char('z'))) == u
            &&& press(m, shift) == r
            &&& m.undo.len() == 0 ==> u == m
            &&& m.redo.len() == 0 ==> r == m
            &&& m.undo.len() > 0 ==> brings_back(m.undo.last(), u) && u.undo
                == m.undo.drop_last() && u.redo.len() == m.redo.len() + 1 && u.redo.drop_last()
                == m.redo && u.redo.last().pipeline == m.pipeline
            &&& m.redo.len() > 0 ==> brings_back(m.redo.last(), r) && r.redo
                == m.redo.drop_last() && r.undo.len() == m.undo.len() + 1 && r.undo.drop_last()
                == m.undo && r.undo.last().pipeline == m.pipeline
        }),
{
    let u = press(m, plain(KeyCode::Char('u')));
    let r = press(m, ctrl(KeyCode::Char('r')));
    if m.undo.len() > 0 {
        assert(u.redo.drop_last() =~= m.redo);
    }
    if m.redo.len() > 0 {
        assert(r.undo.drop_last() =~= m.undo);
    }
}

/// `r` runs everything up to the selected stage again, without the cache;
/// without stages it does nothing.
pub proof fn law_running_again(m: AppModel)
    requires
        at_rest(m),
    ensures
        ({
            let r = press(m, plain(KeyCode::Char('r')));
            &&& m.pipeline.stages.len() == 0 ==> r == m
            &&& m.pipeline.stages.len() > 0 ==> asks_for_run(r, true) && r.pipeline == m.pipeline
                && r.views == m.views && r.request->0.pre_fill.len() == 0
        }),
{
}

// ---------------------------------------------------------------------------
// Entering a command or a file name
// ---------------------------------------------------------------------------

/// Enter makes the entered text the command of the selected stage and runs it,
/// unless it is the command already; other stages keep their commands. Esc
/// leaves the command as it was.
pub proof fn law_entering_a_command(m: AppModel, e: EditorView)
    requires
        !m.show_help,
        m.mode == (ModeView::Editing { editor: e, pending: false }),
        0 <= m.pipeline.selected < m.pipeline.stages.len(),
    ensures
        ({
            let s = m.pipeline.selected;
            let text = e.caret.before + e.caret.after;
            let r = press(m, plain(KeyCode::Enter));
            let n = AppModel { mode: ModeView::Normal, ..m };
            &&& text == m.pipeline.stages[s].command ==> r == n
            &&& text != m.pipeline.stages[s].command ==> {
                &&& r.mode is Normal
                &&& r.pipeline.selected == s
                &&& r.pipeline.stages.len() == m.pipeline.stages.len()
                &&& r.pipeline.stages[s] == (StageView { command: text, ..m.pipeline.stages[s] })
                &&& forall|i: int|
                    0 <= i < m.pipeline.stages.len() && i != s ==> #[trigger] r.pipeline.stages[i]
                        == m.pipeline.stages[i]
                &&& r.views == m.views
                &&& can_undo_to(m, r)
                &&& asks_for_run(r, false)
            }
            &&& press(m, plain(KeyCode::Esc)) == n
        }),
{
    let r = press(m, plain(KeyCode::Enter));
    if r.undo.len() > m.undo.len() {
        assert(r.undo.drop_last() =~= m.undo);
    }
}

/// Tab runs the entered text as the command of the selected stage without
/// leaving the editor.
pub proof fn law_trying_a_command(m: AppModel, e: EditorView, pending: bool)
    requires
        !m.show_help,
        m.mode == (ModeView::Editing { editor: e, pending }),
        0 <= m.pipeline.selected < m.pipeline.stages.len(),
    ensures
        ({
            let r = press(m, plain(KeyCode::Tab));
            let s = m.pipeline.selected;
            let text = e.caret.before + e.caret.after;
            &&& r.mode == m.mode
            &&& r.pipeline.selected == s
            &&& r.pipeline.stages == m.pipeline.stages.update(
                s,
                StageView { command: text, ..m.pipeline.stages[s] },
            )
            &&& r.views == m.views
            &&& text == m.pipeline.stages[s].command || pending ==> r.undo == m.undo && r.redo
                == m.redo
            &&& text != m.pipeline.stages[s].command && !pending ==> can_undo_to(m, r)
            &&& asks_for_run(r, false)
            &&& r.request->0.pre_fill.len() == 0
        }),
{
    let r = press(m, plain(KeyCode::Tab));
    let s = m.pipeline.selected;
    let text = e.caret.before + e.caret.after;
    if text == m.pipeline.stages[s].command {
        assert(m.pipeline.stages.update(s, StageView { command: text, ..m.pipeline.stages[s] })
            =~= m.pipeline.stages);
    }
    if r.undo.len() > m.undo.len() {
        assert(r.undo.drop_last() =~= m.undo);
    }
}

/// A stage that was only inserted gets its command with Enter, and while a run
/// is on, the stages in front of it go on with what they have put out; Esc
/// removes the stage.
pub proof fn law_entering_a_new_stage(m: AppModel, e: EditorView)
    requires
        !m.show_help,
        m.mode == (ModeView::Editing { editor: e, pending: true }),
        0 <= m.pipeline.selected < m.pipeline.stages.len(),
    ensures
        ({
            let s = m.pipeline.selected;
            let text = e.caret.before + e.caret.after;
            let r = press(m, plain(KeyCode::Enter));
            let c = press(m, plain(KeyCode::Esc));
            let kept = lesser(s, m.outputs.len() as int);
            &&& text == m.pipeline.stages[s].command ==> r == (AppModel {
                mode: ModeView::Normal,
                ..m
            })
            &&& text != m.pipeline.stages[s].command ==> {
                &&& r.mode is Normal
                &&& r.pipeline.stages == m.pipeline.stages.update(
                    s,
                    StageView { command: text, ..m.pipeline.stages[s] },
                )
                &&& r.pipeline.selected == s
                &&& r.undo == m.undo
                &&& asks_for_run(r, false)
                &&& !m.running ==> r.request->0.pre_fill.len() == 0
                &&& m.running ==> {
                    &&& r.request->0.pre_fill.len() == kept
                    &&& forall|i: int|
                        0 <= i < kept ==> {
                            &&& (#[trigger] r.request->0.pre_fill[i]).command
                                == r.pipeline.stages[i].command
                            &&& r.request->0.pre_fill[i].output == m.outputs[i]
                        }
                    &&& kept > 0 ==> r.request->0.pre_fill[0].stdin.len() == 0
                    &&& forall|i: int|
                        1 <= i < kept ==> (#[trigger] r.request->0.pre_fill[i]).stdin == passes_on(
                            m.outputs[i - 1],
                            r.request->0.modes,
                            i - 1,
                        )
                }
            }
            &&& c.mode is Normal
            &&& c.pipeline.stages == m.pipeline.stages.remove(s)
            &&& c.outputs == m.outputs && c.request == m.request
        }),
{
}

/// `s` asks for a file name; Enter asks for the output that is looked at to be
/// written to that file: what stdout, stderr or both together have put out,
/// whichever of them is looked at. Without a name, and with Esc, nothing is
/// written.
pub proof fn law_what_is_saved_is_what_is_seen(m: AppModel, e: EditorView)
    requires
        !m.show_help,
        m.mode == ModeView::Saving(e),
        0 <= m.pipeline.selected,
    ensures
        ({
            let name = e.caret.before + e.caret.after;
            let r = press(m, plain(KeyCode::Enter));
            let n = AppModel { mode: ModeView::Normal, ..m };
            let shown = m.outputs[lesser(m.pipeline.selected, m.outputs.len() - 1)];
            let has_output = m.pipeline.stages.len() > 0 && m.outputs.len() > 0;
            let mode = seen(m).output_mode;
            &&& name.len() == 0 ==> r == n
            &&& name.len() > 0 ==> {
                &&& r == (AppModel { save: r.save, ..n })
                &&& r.save matches Some(f) && f.path == name
                &&& !has_output ==> r.save->0.content.len() == 0
                &&& has_output && mode == OutputMode::Stdout ==> r.save->0.content
                    == shown.stdout_text
                &&& has_output && mode == OutputMode::Stderr ==> r.save->0.content
                    == shown.stderr_text
                &&& has_output && mode == OutputMode::Combined ==> r.save->0.content
                    == crate::executor::output::combined_text(
                    shown.combined,
                    shown.combined.len() as int,
                )
                &&& r.save->0.content == current_text(m)
            }
            &&& press(m, plain(KeyCode::Esc)) == n
        }),
        ({
            let r = press(AppModel { mode: ModeView::Normal, ..m }, plain(KeyCode::Char('s')));
            &&& r.mode matches ModeView::Saving(f) && f.caret.before.len() == 0
                && f.caret.after.len() == 0
            &&& r == (AppModel { mode: r.mode, ..m })
        }),
{
}

// ---------------------------------------------------------------------------
// What is looked at
// ---------------------------------------------------------------------------

/// The text that is looked at is that of the selected stage, or of the last one
/// that has an output, in the stream that was chosen for the selected stage.
pub proof fn law_text_that_is_seen(m: AppModel)
    requires
        0 <= m.pipeline.selected,
    ensures
        ({
            let shown = m.outputs[lesser(m.pipeline.selected, m.outputs.len() - 1)];
            let mode = seen(m).output_mode;
            let text = current_text(m);
            &&& m.pipeline.stages.len() == 0 || m.outputs.len() == 0 ==> text.len() == 0
            &&& m.pipeline.stages.len() > 0 && m.outputs.len() > 0 ==> {
                &&& mode == OutputMode::Stdout ==> text == shown.stdout_text
                &&& mode == OutputMode::Stderr ==> text == shown.stderr_text
                &&& mode == OutputMode::Combined ==> text
                    == crate::executor::output::combined_text(
                    shown.combined,
                    shown.combined.len() as int,
                )
            }
        }),
{
}

/// Whether `r` is `m` with the selected stage looked at in `mode`, from the top:
/// the outputs behind it are gone, since it passes something else on.
pub open spec fn looks_at(m: AppModel, r: AppModel, mode: OutputMode) -> bool {
    let s = m.pipeline.selected;
    &&& seen(r).output_mode == mode
    &&& seen(r).scroll == 0
    &&& seen(r).search.query == seen(m).search.query
    &&& seen(r).search.matches == matches_in(seen(r).search.query, strip(current_text(r)))
    &&& r.pipeline == m.pipeline && r.mode == m.mode && r.request == m.request
    &&& m.outputs.len() <= s + 1 ==> r.outputs == m.outputs
    &&& m.outputs.len() > s + 1 ==> r.outputs == m.outputs.take(s + 1)
    &&& forall|i: int|
        0 <= i < m.views.len() && i != s ==> #[trigger] r.views[i] == m.views[i]
}

/// `1`, `2` and `3` look at stdout, stderr and both; `m` goes from each to the
/// next and from the last to the first.
pub proof fn law_choosing_streams(m: AppModel)
    requires
        at_rest(m),
    ensures
        looks_at(m, press(m, plain(KeyCode::Char('1'))), OutputMode::Stdout),
        looks_at(m, press(m, plain(KeyCode::Char('2'))), OutputMode::Stderr),
        looks_at(m, press(m, plain(KeyCode::Char('3'))), OutputMode::Combined),
        ({
            let r = press(m, plain(KeyCode::Char('m')));
            &&& seen(m).output_mode == OutputMode::Stdout ==> looks_at(m, r, OutputMode::Stderr)
            &&& seen(m).output_mode == OutputMode::Stderr ==> looks_at(m, r, OutputMode::Combined)
            &&& seen(m).output_mode == OutputMode::Combined ==> looks_at(m, r, OutputMode::Stdout)
        }),
{
}

/// Whether `r` is `m` scrolled to `line`.
pub open spec fn scrolls_to(m: AppModel, r: AppModel, line: int) -> bool {
    only_view(m, r, ViewView { scroll: line, ..seen(m) })
}

/// Down and `j` scroll by one line towards the end, Up and `k` towards the top;
/// Ctrl+D and Ctrl+U by half of what is visible, PageDown, PageUp, Ctrl+F and
/// Ctrl+B by all of it, at least by one line. Neither goes beyond the top or
/// beyond the point at which the end is in view. Home and `g` go to the top, End
/// and `G` to the end.
pub proof fn law_scrolling_keys(m: AppModel)
    requires
        at_rest(m),
    ensures
        ({
            let at = seen(m).scroll;
            let end = max_scroll(m);
            let v = m.visible_lines;
            let page = if v >= 1 {
                v
            } else {
                1
            };
            let half = if v >= 2 {
                v / 2
            } else {
                1
            };
            let up = |n: int|
                if at - n >= 0 {
                    at - n
                } else {
                    0
                };
            &&& scrolls_to(m, press(m, plain(KeyCode::Down)), lesser(at + 1, end))
            &&& scrolls_to(m, press(m, plain(KeyCode::Char('j'))), lesser(at + 1, end))
            &&& scrolls_to(m, press(m, plain(KeyCode::Up)), up(1))
            &&& scrolls_to(m, press(m, plain(KeyCode::Char('k'))), up(1))
            &&& scrolls_to(m, press(m, ctrl(KeyCode::Char('d'))), lesser(at + half, end))
            &&& scrolls_to(m, press(m, ctrl(KeyCode::Char('u'))), up(half))
            &&& scrolls_to(m, press(m, plain(KeyCode::PageDown)), lesser(at + page, end))
            &&& scrolls_to(m, press(m, ctrl(KeyCode::Char('f'))), lesser(at + page, end))
            &&& scrolls_to(m, press(m, plain(KeyCode::PageUp)), up(page))
            &&& scrolls_to(m, press(m, ctrl(KeyCode::Char('b'))), up(page))
            &&& scrolls_to(m, press(m, plain(KeyCode::Home)), 0)
            &&& scrolls_to(m, press(m, plain(KeyCode::Char('g'))), 0)
            &&& scrolls_to(m, press(m, plain(KeyCode::End)), end)
            &&& scrolls_to(m, press(m, plain(KeyCode::Char('G'))), end)
        }),
{
}

/// A line takes up as many rows as it needs at the given width, and at least
/// one.
pub proof fn law_rows_of_a_line(len: int, width: int)
    requires
        len >= 0,
        width >= 1,
    ensures
        ({
            let r = rows_of(len, width);
            &&& len == 0 ==> r == 1
            &&& len > 0 ==> (r - 1) * width < len <= r * width
        }),
        rows_of(len, 0) == rows_of(len, 1),
{
    if len > 0 {
        let x = len + width - 1;
        let r = rows_of(len, width);
        assert(x == width * (x / width) + x % width && 0 <= x % width < width) by (nonlinear_arith)
            requires
                width > 0,
        ;
        assert((r - 1) * width == width * r - width) by (nonlinear_arith);
        assert(r * width == width * r) by (nonlinear_arith);
    }
}

// ---------------------------------------------------------------------------
// Searching
// ---------------------------------------------------------------------------

/// A view without a search.
pub open spec fn unsearched(v: ViewView) -> ViewView {
    ViewView { search: fresh_view().search, ..v }
}

/// `/` asks for a query, from scratch; Esc, also while the query is entered,
/// forgets the search. The history of searches starts at a blank draft again.
pub proof fn law_starting_and_leaving_a_search(m: AppModel)
    requires
        at_rest(m),
    ensures
        ({
            let s = press(m, plain(KeyCode::Char('/')));
            let e = press(m, plain(KeyCode::Esc));
            let x = press(AppModel { mode: ModeView::Searching, ..m }, plain(KeyCode::Esc));
            let h = SearchHistoryView {
                nav: None,
                draft: Seq::empty(),
                edits: Map::empty(),
                ..m.history
            };
            let n = AppModel { history: h, ..m };
            &&& only_view(
                AppModel { mode: ModeView::Searching, ..n },
                s,
                unsearched(seen(m)),
            )
            &&& only_view(n, e, unsearched(seen(m)))
            &&& only_view(n, x, unsearched(seen(m)))
        }),
{
}

/// `n` goes to the next match, `N` and `p` to the previous one, and nothing but
/// what is looked at changes.
pub proof fn law_stepping_keys(m: AppModel)
    requires
        at_rest(m),
    ensures
        only_view(m, press(m, plain(KeyCode::Char('n'))), next_match_view(seen(m))),
        only_view(m, press(m, plain(KeyCode::Char('N'))), prev_match_view(seen(m))),
        only_view(m, press(m, plain(KeyCode::Char('p'))), prev_match_view(seen(m))),
{
}

/// Enter commits the query: it is remembered, its matches in the text that is
/// looked at are found, and the first one from where one looks is shown.
pub proof fn law_confirming_a_search(m: AppModel)
    requires
        m.mode is Searching,
        !m.show_help,
        0 <= m.pipeline.selected,
    ensures
        ({
            let r = press(m, plain(KeyCode::Enter));
            let query = seen(m).search.query;
            let found = ViewView {
                search: SearchView {
                    matches: matches_in(query, strip(current_text(m))),
                    match_idx: 0,
                    ..seen(m).search
                },
                ..seen(m)
            };
            only_view(
                AppModel { mode: ModeView::Normal, history: query_pushed(m.history, query), ..m },
                r,
                first_match_view(found),
            )
        }),
{
    let r = press(m, plain(KeyCode::Enter));
    let n = AppModel {
        mode: ModeView::Normal,
        history: query_pushed(m.history, seen(m).search.query),
        ..m
    };
    assert(r =~= (AppModel { views: r.views, ..n }));
}

/// Typing enters characters into the query at the cursor, and Backspace takes
/// them back; Left, Right, Home and End move the cursor.
pub proof fn law_typing_a_query(m: AppModel, a: Seq<char>, c: char, b: Seq<char>)
    requires
        m.mode is Searching,
        !m.show_help,
        0 <= m.pipeline.selected,
        seen(m).search.query == a.push(c) + b,
    ensures
        ({
            let s = seen(m).search;
            let with = |q: Seq<char>, before: Seq<char>|
                ViewView {
                    search: SearchView { query: q, cursor: byte_len(before) as int, ..s },
                    ..seen(m)
                };
            let q = s.query;
            let e = Seq::<char>::empty();
            &&& s.cursor == byte_len(a.push(c)) ==> {
                &&& only_view(
                    m,
                    press(m, plain(KeyCode::Char(c))),
                    with(a.push(c).push(c) + b, a.push(c).push(c)),
                )
                &&& only_view(m, press(m, plain(KeyCode::Backspace)), with(a + b, a))
                &&& only_view(m, press(m, plain(KeyCode::Left)), with(q, a))
            }
            &&& s.cursor == byte_len(a) ==> {
                &&& only_view(m, press(m, plain(KeyCode::Delete)), with(a + b, a))
                &&& only_view(m, press(m, plain(KeyCode::Right)), with(q, a.push(c)))
            }
            &&& only_view(m, press(m, plain(KeyCode::Home)), with(q, e))
            &&& only_view(m, press(m, plain(KeyCode::End)), with(q, q))
        }),
{
    let s = seen(m).search;
    let x = a.push(c);
    let y = seq![c] + b;
    assert(x + b =~= a + y);
    crate::caret::lemma_caret_between(x, b);
    crate::caret::lemma_caret_between(a, y);
    assert(x.drop_last() =~= a);
    assert(x + seq![c] =~= x.push(c));
    assert(y.drop_first() =~= b);
    assert(a.push(y[0]) =~= x);
    assert(seq![x.last()] + b =~= y);
    assert(a + y =~= s.query);
    assert(byte_len(Seq::<char>::empty()) == 0);
}

/// Up and Down show older and newer queries, Alt+R the query as it was
/// committed; the cursor goes to the end of what is shown. Other characters with
/// Ctrl or Alt do nothing, and neither do other keys.
pub proof fn law_walking_through_queries(m: AppModel, c: char, key: KeyEvent)
    requires
        m.mode is Searching,
        !m.show_help,
        0 <= m.pipeline.selected,
    ensures
        ({
            let q = seen(m).search.query;
            let alt_r = KeyEvent {
                code: KeyCode::Char('r'),
                modifiers: KeyModifiers { shift: false, control: false, alt: true },
            };
            let up = nav_up(m.history, q);
            let down = nav_down(m.history, q);
            let back = nav_revert(m.history);
            &&& shows_query(m, press(m, plain(KeyCode::Up)), up.0, up.1)
            &&& shows_query(m, press(m, plain(KeyCode::Down)), down.0, down.1)
            &&& shows_query(m, press(m, alt_r), back.0, back.1)
            &&& press(m, ctrl(KeyCode::Char(c))) == m
            &&& key.code == KeyCode::Char(c) && c != 'r' && key.modifiers.alt ==> press(m, key) == m
            &&& key.code == KeyCode::Tab || key.code == KeyCode::PageUp || key.code
                == KeyCode::PageDown ==> press(m, key) == m
        }),
{
}

/// Whether `r` is `m` with another state of the search history, and with the
/// given query where there is one.
pub open spec fn shows_query(
    m: AppModel,
    r: AppModel,
    history: SearchHistoryView,
    query: Option<Seq<char>>,
) -> bool {
    let n = AppModel { history, ..m };
    match query {
        None => r == n,
        Some(q) => only_view(
            n,
            r,
            ViewView {
                search: SearchView { query: q, cursor: byte_len(q) as int, ..seen(m).search },
                ..seen(m)
            },
        ),
    }
}

// ---------------------------------------------------------------------------
// Other keys
// ---------------------------------------------------------------------------

/// Shift and Alt make no difference while the pipeline is looked at, except that
/// Shift turns Ctrl+Z round; and Ctrl makes none for keys that are no characters
/// and for characters other than those that have a meaning with it.
pub proof fn law_modifiers(m: AppModel, key: KeyEvent)
    requires
        at_rest(m),
    ensures
        ({
            let special = key.code matches KeyCode::Char(c) && (c == 'z' || c == 'Z' || c == 'r'
                || c == 'd' || c == 'u' || c == 'f' || c == 'b' || c == 'c');
            let k = KeyEvent {
                modifiers: KeyModifiers { alt: false, ..key.modifiers },
                ..key
            };
            let upper = KeyEvent {
                code: KeyCode::Char('Z'),
                modifiers: KeyModifiers { control: true, ..key.modifiers },
            };
            &&& !key.modifiers.control || !special ==> press(m, key) == press(m, plain(key.code))
            &&& press(m, key) == press(m, k)
            &&& press(m, upper) == press(m, ctrl(KeyCode::Char('r')))
        }),
{
}

/// Every character that has no meaning is ignored, and so are the keys for which
/// there is none.
pub proof fn law_other_keys_do_nothing(m: AppModel, c: char)
    requires
        at_rest(m),
        c != 'l' && c != 'h' && c != 'e' && c != 'o' && c != '|' && c != 'O' && c != 'n' && c != 'N'
            && c != 'p' && c != 'd' && c != 'u' && c != 'r' && c != 's' && c != 'm' && c != '1' && c
            != '2' && c != '3' && c != 'j' && c != 'k' && c != 'g' && c != 'G' && c != '/' && c
            != '?' && c != ':' && c != 'q',
    ensures
        press(m, plain(KeyCode::Char(c))) == m,
        press(m, plain(KeyCode::Enter)) == m,
        press(m, plain(KeyCode::Tab)) == m,
        press(m, plain(KeyCode::BackTab)) == m,
        press(m, plain(KeyCode::Backspace)) == m,
        press(m, plain(KeyCode::Insert)) == m,
        press(m, plain(KeyCode::Other)) == m,
{
}

/// Whatever is being entered, a command for a stage, a file name or a command for
/// the application, every key but Esc, Tab and Enter edits its text, and changes
/// nothing else.
pub proof fn law_keys_go_to_the_editor(m: AppModel, e: EditorView, pending: bool, key: KeyEvent)
    requires
        !m.show_help,
        key.code != KeyCode::Esc && key.code != KeyCode::Tab && key.code != KeyCode::Enter,
    ensures
        ({
            let edited = match key_edit(e, key) {
                Some(v) => v,
                None => e,
            };
            let editing = AppModel { mode: ModeView::Editing { editor: e, pending }, ..m };
            let saving = AppModel { mode: ModeView::Saving(e), ..m };
            let command = AppModel { mode: ModeView::Command(e), ..m };
            &&& press(editing, key) == (AppModel {
                mode: ModeView::Editing { editor: edited, pending },
                ..m
            })
            &&& press(saving, key) == (AppModel { mode: ModeView::Saving(edited), ..m })
            &&& press(command, key) == (AppModel { mode: ModeView::Command(edited), ..m })
        }),
{
}

// ---------------------------------------------------------------------------
// The start
// ---------------------------------------------------------------------------

/// The application starts with its pipeline and nothing run, entered, shown or
/// to be undone.
pub proof fn law_the_start(
    pipeline: crate::pipeline::PipelineView,
    history: SearchHistoryView,
)
    ensures
        ({
            let m = started(pipeline, history);
            &&& m.pipeline == pipeline
            &&& m.mode is Normal
            &&& !m.show_help && !m.running
            &&& m.outputs.len() == 0 && m.undo.len() == 0 && m.redo.len() == 0
            &&& m.error is None && m.request is None && m.save is None
            &&& m.views.len() == pipeline.stages.len()
            &&& forall|i: int| 0 <= i < m.views.len() ==> #[trigger] m.views[i] == fresh_view()
            &&& !m.defaults.interactive && m.defaults.shell is None
        }),
{
}

} // verus!
