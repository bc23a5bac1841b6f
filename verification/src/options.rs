//! Options of a stage, and the defaults that it inherits.
use vstd::prelude::*;

use crate::text::opt_string;

verus! {

/// Options that a stage sets for itself.
#[derive(Debug)]
pub struct StageOverrides {
    /// Whether the stage runs in an interactive shell.
    pub interactive: Option<bool>,
    /// The shell that runs the stage.
    pub shell: Option<String>,
}

/// Options of all stages that set none for themselves.
#[derive(Debug)]
pub struct GlobalDefaults {
    pub interactive: bool,
    /// The shell to use, or `None` to detect it.
    pub shell: Option<String>,
}

/// The options that a stage runs with.
#[derive(Debug)]
pub struct StageOptions {
    pub interactive: bool,
    pub shell: Option<String>,
}

/// What [`StageOverrides`] stand for.
#[verifier::ext_equal]
pub struct OverridesView {
    pub interactive: Option<bool>,
    pub shell: Option<Seq<char>>,
}

/// What [`GlobalDefaults`] and [`StageOptions`] stand for.
#[verifier::ext_equal]
pub struct OptionsView {
    pub interactive: bool,
    pub shell: Option<Seq<char>>,
}

impl View for StageOverrides {
    type V = OverridesView;

    open spec fn view(&self) -> OverridesView {
        OverridesView { interactive: self.interactive, shell: opt_string(self.shell) }
    }
}

impl View for GlobalDefaults {
    type V = OptionsView;

    open spec fn view(&self) -> OptionsView {
        OptionsView { interactive: self.interactive, shell: opt_string(self.shell) }
    }
}

impl View for StageOptions {
    type V = OptionsView;

    open spec fn view(&self) -> OptionsView {
        OptionsView { interactive: self.interactive, shell: opt_string(self.shell) }
    }
}

/// A stage that sets no options.
pub open spec fn no_overrides() -> OverridesView {
    OverridesView { interactive: None, shell: None }
}

/// What a stage runs with: its own options where it has them, else the defaults.
pub open spec fn resolved(o: OverridesView, defaults: OptionsView) -> OptionsView {
    OptionsView {
        interactive: match o.interactive {
            Some(b) => b,
            None => defaults.interactive,
        },
        shell: match o.shell {
            Some(s) => Some(s),
            None => defaults.shell,
        },
    }
}

pub(crate) fn copy_shell(s: &Option<String>) -> (r: Option<String>)
    ensures
        opt_string(r) == opt_string(*s),
{
    match s {
        Some(t) => Some(t.clone()),
        None => None,
    }
}

impl StageOverrides {
    /// No options.
    pub fn none() -> (r: StageOverrides)
        ensures
            r@ == no_overrides(),
    {
        StageOverrides { interactive: None, shell: None }
    }

    /// The options that a stage with these overrides runs with.
    pub fn resolve(&self, defaults: &GlobalDefaults) -> (r: StageOptions)
        ensures
            r@ == resolved(self@, defaults@),
    {
        StageOptions {
            interactive: match self.interactive {
                Some(b) => b,
                None => defaults.interactive,
            },
            shell: match &self.shell {
                Some(s) => Some(s.clone()),
                None => copy_shell(&defaults.shell),
            },
        }
    }

    /// Whether any option is set.
    pub fn has_overrides(&self) -> (r: bool)
        ensures
            r == (self@ != no_overrides()),
    {
        let a = match self.interactive {
            Some(_) => true,
            None => false,
        };
        let b = match &self.shell {
            Some(_) => true,
            None => false,
        };
        proof {
            if !a && !b {
                assert(self@ =~= no_overrides());
            }
        }
        a || b
    }
}

impl Clone for StageOverrides {
    fn clone(&self) -> (r: StageOverrides)
        ensures
            r@ == self@,
    {
        StageOverrides { interactive: self.interactive, shell: copy_shell(&self.shell) }
    }
}

impl Default for GlobalDefaults {
    fn default() -> (r: GlobalDefaults)
        ensures
            r@ == (OptionsView { interactive: false, shell: None }),
    {
        GlobalDefaults { interactive: false, shell: None }
    }
}

/// A stage without options of its own runs with the defaults.
pub proof fn law_no_overrides_inherit(defaults: OptionsView)
    ensures
        resolved(no_overrides(), defaults) == defaults,
{
}

} // verus!
