//! Running a pipeline stage after stage, with what is remembered of each.
use vstd::prelude::*;

use crate::executor::cache::{key_of, CacheMap, ExecutorCache, KeyView};
use crate::executor::output::{extract_relay_bytes, relayed, OutputMode, OutputView, StageOutput};
use crate::text::strings;

verus! {

/// Whether `f` may be called with any command and input, and gives consistent
/// outputs.
pub open spec fn executes<E, F: Fn(&str, &[u8]) -> Result<StageOutput, E>>(f: F) -> bool {
    &&& forall|c: &str, s: &[u8]| #[trigger] f.requires((c, s))
    &&& forall|c: &str, s: &[u8], r: Result<StageOutput, E>| #[trigger]
        f.ensures((c, s), r) ==> (match r {
            Ok(out) => out.wf(),
            Err(_) => true,
        })
}

/// Whether `f` can give the output `out` for a command and its input.
pub open spec fn gives<E, F: Fn(&str, &[u8]) -> Result<StageOutput, E>>(
    f: F,
    command: Seq<char>,
    stdin: Seq<u8>,
    out: OutputView,
) -> bool {
    exists|c: &str, s: &[u8], o: StageOutput|
        c@ == command && s@ == stdin && o@ == out && #[trigger] f.ensures(
            (c, s),
            Ok::<StageOutput, E>(o),
        )
}

/// Whether `f` can fail with `e` for a command and its input.
pub open spec fn fails<E, F: Fn(&str, &[u8]) -> Result<StageOutput, E>>(
    f: F,
    command: Seq<char>,
    stdin: Seq<u8>,
    e: E,
) -> bool {
    exists|c: &str, s: &[u8]|
        c@ == command && s@ == stdin && #[trigger] f.ensures(
            (c, s),
            Err::<StageOutput, E>(e),
        )
}

/// Whether the output of a stage is taken from the cache.
pub open spec fn is_hit(m: CacheMap, command: Seq<char>, stdin: Seq<u8>, force: bool) -> bool {
    !force && m.contains_key(key_of(command, stdin))
}

/// One stage has run: its output comes from the cache, which stays as it is, or
/// from `f`, and is then remembered.
pub open spec fn stage_ran<E, F: Fn(&str, &[u8]) -> Result<StageOutput, E>>(
    f: F,
    before: CacheMap,
    after: CacheMap,
    command: Seq<char>,
    stdin: Seq<u8>,
    force: bool,
    out: OutputView,
) -> bool {
    if is_hit(before, command, stdin, force) {
        out == before[key_of(command, stdin)] && after == before
    } else {
        gives::<E, F>(f, command, stdin, out) && after == before.insert(
            key_of(command, stdin),
            out,
        )
    }
}

/// The mode of stage `i`, which is stdout where none is given.
pub open spec fn mode_at(modes: Seq<OutputMode>, i: int) -> OutputMode {
    if 0 <= i < modes.len() {
        modes[i]
    } else {
        OutputMode::Stdout
    }
}

/// What stage `i` reads, where `outs` are the outputs of the stages before it.
pub open spec fn stage_stdin(outs: Seq<OutputView>, modes: Seq<OutputMode>, i: int) -> Seq<u8> {
    if i <= 0 {
        Seq::empty()
    } else {
        relayed(outs[i - 1], mode_at(modes, i - 1))
    }
}

/// Stages `0..n` have run one after the other; `caches[i]` is the cache before
/// stage `i`.
pub open spec fn stages_ran<E, F: Fn(&str, &[u8]) -> Result<StageOutput, E>>(
    f: F,
    caches: Seq<CacheMap>,
    commands: Seq<Seq<char>>,
    modes: Seq<OutputMode>,
    force: bool,
    outs: Seq<OutputView>,
    n: int,
) -> bool {
    &&& caches.len() == n + 1
    &&& outs.len() == n
    &&& n <= commands.len()
    &&& forall|i: int|
        0 <= i < n ==> stage_ran::<E, F>(
            f,
            caches[i],
            #[trigger] caches[i + 1],
            commands[i],
            stage_stdin(outs, modes, i),
            force,
            outs[i],
        )
}

/// What a list of outputs stands for.
pub open spec fn outputs_view(outs: Seq<StageOutput>) -> Seq<OutputView> {
    Seq::new(outs.len(), |i: int| outs[i]@)
}

/// How many stages are run when those up to and including `up_to` are wanted.
pub open spec fn stage_total(len: nat, up_to: int) -> int {
    if up_to + 1 < len {
        up_to + 1
    } else {
        len as int
    }
}

/// Number of stages to run for a pipeline of `len` stages up to `up_to`.
pub fn stage_count(len: usize, up_to: usize) -> (r: usize)
    ensures
        r == stage_total(len as nat, up_to as int),
{
    if up_to < len {
        up_to + 1
    } else {
        len
    }
}

/// The mode of stage `i`, which is stdout where none is given.
pub fn mode_of(modes: &[OutputMode], i: usize) -> (r: OutputMode)
    ensures
        r == mode_at(modes@, i as int),
{
    if i < modes.len() {
        modes[i]
    } else {
        OutputMode::Stdout
    }
}

impl ExecutorCache {
    /// Run a shell command with the given stdin bytes.
    /// Returns a cached result if available; otherwise executes and caches.
    pub fn run<E, F: Fn(&str, &[u8]) -> Result<StageOutput, E>>(
        &mut self,
        command: &str,
        stdin: &[u8],
        force: bool,
        execute: &F,
    ) -> (r: Result<StageOutput, E>)
        requires
            old(self).wf(),
            executes::<E, F>(*execute),
        ensures
            final(self).wf(),
            match r {
                Ok(out) => out.wf() && stage_ran::<E, F>(
                    *execute,
                    old(self)@,
                    final(self)@,
                    command@,
                    stdin@,
                    force,
                    out@,
                ),
                Err(e) => {
                    &&& !is_hit(old(self)@, command@, stdin@, force)
                    &&& fails::<E, F>(*execute, command@, stdin@, e)
                    &&& final(self)@ == old(self)@
                },
            },
    {
        if !force {
            match self.lookup(command, stdin) {
                Some(cached) => {
                    return Ok(cached.clone());
                },
                None => {},
            }
        }
        let result = execute(command, stdin);
        match result {
            Ok(output) => {
                let kept = output.clone();
                self.store(command, stdin, kept);
                Ok(output)
            },
            Err(e) => Err(e),
        }
    }
}

/// Execute all stages of the pipeline up to and including `up_to`.
/// Returns the outputs for each stage.
///
/// `output_modes[i]` controls which output of stage `i` is piped as stdin to
/// stage `i+1`. The first error ends the run; what ran before it stays cached.
pub fn execute_pipeline_stages<E, F: Fn(&str, &[u8]) -> Result<StageOutput, E>>(
    cache: &mut ExecutorCache,
    commands: &[String],
    up_to: usize,
    force: bool,
    output_modes: &[OutputMode],
    execute: &F,
) -> (r: Result<Vec<StageOutput>, E>)
    requires
        old(cache).wf(),
        executes::<E, F>(*execute),
    ensures
        final(cache).wf(),
        match r {
            Ok(outs) => {
                &&& outs@.len() == stage_total(commands@.len(), up_to as int)
                &&& forall|i: int| 0 <= i < outs@.len() ==> (#[trigger] outs@[i]).wf()
                &&& exists|caches: Seq<CacheMap>| #[trigger]
                    stages_ran::<E, F>(
                        *execute,
                        caches,
                        strings(commands@),
                        output_modes@,
                        force,
                        outputs_view(outs@),
                        outs@.len() as int,
                    ) && caches[0] == old(cache)@ && caches.last() == final(cache)@
            },
            Err(e) => exists|caches: Seq<CacheMap>, outs: Seq<OutputView>| #[trigger]
                stages_ran::<E, F>(
                    *execute,
                    caches,
                    strings(commands@),
                    output_modes@,
                    force,
                    outs,
                    outs.len() as int,
                ) && caches[0] == old(cache)@ && caches.last() == final(cache)@ && outs.len()
                    < stage_total(commands@.len(), up_to as int) && !is_hit(
                    final(cache)@,
                    commands@[outs.len() as int]@,
                    stage_stdin(outs, output_modes@, outs.len() as int),
                    force,
                ) && fails::<E, F>(
                    *execute,
                    commands@[outs.len() as int]@,
                    stage_stdin(outs, output_modes@, outs.len() as int),
                    e,
                ),
        },
{
    let mut outputs: Vec<StageOutput> = Vec::new();
    let mut stdin: Vec<u8> = Vec::new();
    let total = stage_count(commands.len(), up_to);
    let ghost mut caches: Seq<CacheMap> = seq![cache@];
    let mut i: usize = 0;
    proof {
        assert(stdin@ =~= Seq::<u8>::empty());
    }
    while i < total
        invariant
            i <= total <= commands@.len(),
            total == stage_total(commands@.len(), up_to as int),
            cache.wf(),
            executes::<E, F>(*execute),
            outputs@.len() == i,
            forall|j: int| 0 <= j < outputs@.len() ==> (#[trigger] outputs@[j]).wf(),
            stages_ran::<E, F>(
                *execute,
                caches,
                strings(commands@),
                output_modes@,
                force,
                outputs_view(outputs@),
                i as int,
            ),
            caches[0] == old(cache)@,
            caches.last() == cache@,
            stdin@ == stage_stdin(outputs_view(outputs@), output_modes@, i as int),
        decreases total - i,
    {
        let ghost before = outputs_view(outputs@);
        match cache.run(commands[i].as_str(), stdin.as_slice(), force, execute) {
            Ok(out) => {
                let mode = mode_of(output_modes, i);
                stdin = extract_relay_bytes(&out, mode);
                proof {
                    let after = outputs_view(outputs@.push(out));
                    assert(after =~= before.push(out@));
                    let grown = caches.push(cache@);
                    assert forall|j: int| 0 <= j < i + 1 implies stage_ran::<E, F>(
                        *execute,
                        grown[j],
                        #[trigger] grown[j + 1],
                        strings(commands@)[j],
                        stage_stdin(after, output_modes@, j),
                        force,
                        after[j],
                    ) by {
                        assert(stage_stdin(after, output_modes@, j) == stage_stdin(
                            before,
                            output_modes@,
                            j,
                        ));
                        if j < i {
                            assert(grown[j + 1] == caches[j + 1]);
                        }
                    }
                    caches = grown;
                }
                outputs.push(out);
            },
            Err(e) => {
                proof {
                    assert(stages_ran::<E, F>(
                        *execute,
                        caches,
                        strings(commands@),
                        output_modes@,
                        force,
                        before,
                        before.len() as int,
                    ));
                }
                return Err(e);
            },
        }
        i = i + 1;
    }
    proof {
        assert(stages_ran::<E, F>(
            *execute,
            caches,
            strings(commands@),
            output_modes@,
            force,
            outputs_view(outputs@),
            outputs@.len() as int,
        ));
        assert(exists|trace: Seq<CacheMap>| #[trigger]
            stages_ran::<E, F>(
                *execute,
                trace,
                strings(commands@),
                output_modes@,
                force,
                outputs_view(outputs@),
                outputs@.len() as int,
            ) && trace[0] == old(cache)@ && trace.last() == cache@);
    }
    Ok(outputs)
}

// ---------------------------------------------------------------------------
// Laws
// ---------------------------------------------------------------------------

/// The outputs of stages `0..n` if the cache remembers all of them.
pub open spec fn remembered(
    m: CacheMap,
    commands: Seq<Seq<char>>,
    modes: Seq<OutputMode>,
    n: int,
) -> Option<Seq<OutputView>>
    decreases n,
{
    if n <= 0 {
        Some(Seq::empty())
    } else {
        match remembered(m, commands, modes, n - 1) {
            None => None,
            Some(outs) => {
                let key = key_of(commands[n - 1], stage_stdin(outs, modes, n - 1));
                if m.contains_key(key) {
                    Some(outs.push(m[key]))
                } else {
                    None
                }
            },
        }
    }
}

/// Whatever one cache remembers, the other remembers too.
pub open spec fn remembers_all(m: CacheMap, of: CacheMap) -> bool {
    forall|k: KeyView| #[trigger]
        of.contains_key(k) ==> m.contains_key(k) && m[k] == of[k]
}

proof fn lemma_caches_grow<E, F: Fn(&str, &[u8]) -> Result<StageOutput, E>>(
    f: F,
    caches: Seq<CacheMap>,
    commands: Seq<Seq<char>>,
    modes: Seq<OutputMode>,
    outs: Seq<OutputView>,
    i: int,
)
    requires
        stages_ran::<E, F>(f, caches, commands, modes, false, outs, outs.len() as int),
        0 <= i <= outs.len(),
    ensures
        remembers_all(caches.last(), caches[i]),
    decreases outs.len() - i,
{
    if i < outs.len() {
        lemma_caches_grow::<E, F>(f, caches, commands, modes, outs, i + 1);
        let after = caches[i + 1];
        assert(stage_ran::<E, F>(
            f,
            caches[i],
            caches[i + 1],
            commands[i],
            stage_stdin(outs, modes, i),
            false,
            outs[i],
        ));
        assert forall|k: KeyView| #[trigger] caches[i].contains_key(k) implies
            caches.last().contains_key(k) && caches.last()[k] == caches[i][k] by {
            assert(after.contains_key(k));
        }
    }
}

proof fn lemma_run_is_remembered<E, F: Fn(&str, &[u8]) -> Result<StageOutput, E>>(
    f: F,
    caches: Seq<CacheMap>,
    commands: Seq<Seq<char>>,
    modes: Seq<OutputMode>,
    outs: Seq<OutputView>,
    n: int,
)
    requires
        stages_ran::<E, F>(f, caches, commands, modes, false, outs, outs.len() as int),
        0 <= n <= outs.len(),
    ensures
        remembered(caches.last(), commands, modes, n) == Some(outs.take(n)),
    decreases n,
{
    if n == 0 {
        assert(outs.take(0) =~= Seq::<OutputView>::empty());
    } else {
        lemma_run_is_remembered::<E, F>(f, caches, commands, modes, outs, n - 1);
        lemma_caches_grow::<E, F>(f, caches, commands, modes, outs, n);
        let before = outs.take(n - 1);
        assert(stage_stdin(before, modes, n - 1) == stage_stdin(outs, modes, n - 1));
        assert(stage_ran::<E, F>(
            f,
            caches[n - 1],
            caches[(n - 1) + 1],
            commands[n - 1],
            stage_stdin(outs, modes, n - 1),
            false,
            outs[n - 1],
        ));
        let key = key_of(commands[n - 1], stage_stdin(outs, modes, n - 1));
        assert(caches[n].contains_key(key) && caches[n][key] == outs[n - 1]);
        assert(caches.last().contains_key(key));
        assert(outs.take(n) =~= before.push(outs[n - 1]));
    }
}

/// After a run that was not forced, the cache remembers every stage of it with
/// the output that the run gave.
pub proof fn law_run_is_remembered<E, F: Fn(&str, &[u8]) -> Result<StageOutput, E>>(
    f: F,
    caches: Seq<CacheMap>,
    commands: Seq<Seq<char>>,
    modes: Seq<OutputMode>,
    outs: Seq<OutputView>,
)
    requires
        stages_ran::<E, F>(f, caches, commands, modes, false, outs, outs.len() as int),
    ensures
        remembered(caches.last(), commands, modes, outs.len() as int) == Some(outs),
{
    lemma_run_is_remembered::<E, F>(f, caches, commands, modes, outs, outs.len() as int);
    assert(outs.take(outs.len() as int) =~= outs);
}

/// Where the cache remembers every stage, an unforced run executes nothing: it
/// gives the remembered outputs and leaves the cache as it was.
pub proof fn law_remembered_run_executes_nothing<
    E,
    F: Fn(&str, &[u8]) -> Result<StageOutput, E>,
>(
    f: F,
    caches: Seq<CacheMap>,
    commands: Seq<Seq<char>>,
    modes: Seq<OutputMode>,
    outs: Seq<OutputView>,
    n: int,
)
    requires
        0 <= n <= outs.len(),
        stages_ran::<E, F>(f, caches, commands, modes, false, outs, outs.len() as int),
        remembered(caches[0], commands, modes, n) is Some,
    ensures
        remembered(caches[0], commands, modes, n) == Some(outs.take(n)),
        caches[n] == caches[0],
    decreases n,
{
    if n == 0 {
        assert(outs.take(0) =~= Seq::<OutputView>::empty());
    } else {
        law_remembered_run_executes_nothing::<E, F>(f, caches, commands, modes, outs, n - 1);
        let before = outs.take(n - 1);
        assert(stage_stdin(before, modes, n - 1) == stage_stdin(outs, modes, n - 1));
        assert(stage_ran::<E, F>(
            f,
            caches[n - 1],
            caches[(n - 1) + 1],
            commands[n - 1],
            stage_stdin(outs, modes, n - 1),
            false,
            outs[n - 1],
        ));
        assert(outs.take(n) =~= before.push(outs[n - 1]));
    }
}

/// Changing a stage leaves the stages before it remembered: what the cache
/// holds of the first `n` stages depends on their commands and on how they pass
/// their output on, and on nothing that comes later.
pub proof fn law_earlier_stages_stay_remembered(
    m: CacheMap,
    commands: Seq<Seq<char>>,
    modes: Seq<OutputMode>,
    other_commands: Seq<Seq<char>>,
    other_modes: Seq<OutputMode>,
    n: int,
)
    requires
        forall|i: int| 0 <= i < n ==> commands[i] == #[trigger] other_commands[i],
        forall|i: int| 0 <= i < n - 1 ==> mode_at(modes, i) == #[trigger] mode_at(other_modes, i),
    ensures
        remembered(m, commands, modes, n) == remembered(m, other_commands, other_modes, n),
    decreases n,
{
    if n > 0 {
        law_earlier_stages_stay_remembered(
            m,
            commands,
            modes,
            other_commands,
            other_modes,
            n - 1,
        );
        assert(commands[n - 1] == other_commands[n - 1]);
        if n > 1 {
            assert(mode_at(modes, n - 2) == mode_at(other_modes, n - 2));
        }
    }
}

proof fn lemma_remembers_all(
    m: CacheMap,
    of: CacheMap,
    commands: Seq<Seq<char>>,
    modes: Seq<OutputMode>,
    n: int,
)
    requires
        remembers_all(m, of),
        remembered(of, commands, modes, n) is Some,
    ensures
        remembered(m, commands, modes, n) == remembered(of, commands, modes, n),
    decreases n,
{
    if n > 0 {
        lemma_remembers_all(m, of, commands, modes, n - 1);
        let outs = remembered(of, commands, modes, n - 1)->0;
        assert(of.contains_key(key_of(commands[n - 1], stage_stdin(outs, modes, n - 1))));
    }
}

/// What was remembered of a pipeline stays remembered while it is run in other
/// ways, such as with other output modes, so that switching back is served from
/// the cache.
pub proof fn law_switching_back_is_remembered<
    E,
    F: Fn(&str, &[u8]) -> Result<StageOutput, E>,
>(
    f: F,
    caches: Seq<CacheMap>,
    commands: Seq<Seq<char>>,
    modes: Seq<OutputMode>,
    outs: Seq<OutputView>,
    before_commands: Seq<Seq<char>>,
    before_modes: Seq<OutputMode>,
    before_outs: Seq<OutputView>,
    n: int,
)
    requires
        stages_ran::<E, F>(f, caches, commands, modes, false, outs, outs.len() as int),
        remembered(caches[0], before_commands, before_modes, n) == Some(before_outs),
    ensures
        remembered(caches.last(), before_commands, before_modes, n) == Some(before_outs),
{
    lemma_caches_grow::<E, F>(f, caches, commands, modes, outs, 0);
    lemma_remembers_all(caches.last(), caches[0], before_commands, before_modes, n);
}

/// Storing further outputs forgets nothing that has another key.
pub proof fn law_store_keeps_others(
    m: CacheMap,
    command: Seq<char>,
    stdin: Seq<u8>,
    out: OutputView,
    k: KeyView,
)
    ensures
        m.insert(key_of(command, stdin), out).contains_key(key_of(command, stdin)),
        m.insert(key_of(command, stdin), out)[key_of(command, stdin)] == out,
        k != key_of(command, stdin) ==> (m.insert(key_of(command, stdin), out).contains_key(k)
            <==> m.contains_key(k)),
        k != key_of(command, stdin) && m.contains_key(k) ==> m.insert(
            key_of(command, stdin),
            out,
        )[k] == m[k],
{
}

} // verus!
