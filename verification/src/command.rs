use vstd::prelude::*;

use crate::binding::ShowWindowCommand;
use crate::child::{is_create_request, Child, CreateRequest};
use crate::env_block::{EnvChange, EnvVar};

verus! {

/// Builder for starting a Windows process.
///
/// It holds what the new process is made with: the command line, whether
/// handles are inherited, the working directory and the changes to the
/// environment, and how its window is shown; strings are UTF-16 code units,
/// as Windows takes them.
#[derive(Debug)]
pub struct Command {
    command: Vec<u16>,
    inherit_handles: bool,
    current_directory: Option<Vec<u16>>,
    env_clear: bool,
    env_vars: Vec<EnvChange>,
    show_window: Option<ShowWindowCommand>,
}

/// The settings of a `Command`.
pub struct CommandView {
    /// The command line (executable and arguments).
    pub command: Seq<u16>,
    /// Whether handles are inherited by the child.
    pub inherit_handles: bool,
    /// The working directory of the child, if one is set.
    pub current_directory: Option<Seq<u16>>,
    /// Whether the child starts from an empty environment rather than the
    /// environment of the current process.
    pub env_clear: bool,
    /// The environment changes, in the order they were made.
    pub env_vars: Seq<EnvChange>,
    /// The show-window command for the child's primary window, if one is
    /// set.
    pub show_window: Option<u16>,
}

impl View for Command {
    type V = CommandView;

    closed spec fn view(&self) -> CommandView {
        CommandView {
            command: self.command@,
            inherit_handles: self.inherit_handles,
            current_directory: match self.current_directory {
                Some(d) => Some(d@),
                None => None,
            },
            env_clear: self.env_clear,
            env_vars: self.env_vars@,
            show_window: match self.show_window {
                Some(c) => Some(c@),
                None => None,
            },
        }
    }
}

/// `vars` as changes that set each key to its value, in order.
pub open spec fn settings(vars: Seq<EnvVar>) -> Seq<EnvChange> {
    Seq::new(vars.len(), |i: int| (vars[i].0, Some(vars[i].1)))
}

/// `vars` turned into changes: one change per pair, in the same order,
/// each setting the pair's key to the pair's value.
pub proof fn law_settings(vars: Seq<EnvVar>)
    ensures
        settings(vars).len() == vars.len(),
        forall|i: int|
            0 <= i < vars.len() ==> #[trigger] settings(vars)[i] == (vars[i].0, Some(vars[i].1)),
{
}

impl Command {
    /// A builder for `command` (an executable path or a command line) that
    /// does not inherit handles, sets no working directory and leaves the
    /// environment as the current process has it.
    pub fn new(command: Vec<u16>) -> (r: Command)
        ensures
            r@.command == command@,
            !r@.inherit_handles,
            r@.current_directory is None,
            !r@.env_clear,
            r@.env_vars.len() == 0,
            r@.show_window is None,
    {
        Command {
            command,
            inherit_handles: false,
            current_directory: None,
            env_clear: false,
            env_vars: Vec::new(),
            show_window: None,
        }
    }

    /// Sets whether handles are inherited by the child.
    pub fn inherit_handles(&mut self, inherit: bool) -> (r: &mut Command)
        ensures
            r@ == (CommandView { inherit_handles: inherit, ..old(self)@ }),
            *final(self) == *final(r),
    {
        self.inherit_handles = inherit;
        self
    }

    /// Sets the working directory of the child.
    pub fn current_dir(&mut self, dir: Vec<u16>) -> (r: &mut Command)
        ensures
            r@ == (CommandView { current_directory: Some(dir@), ..old(self)@ }),
            *final(self) == *final(r),
    {
        self.current_directory = Some(dir);
        self
    }

    /// Sets how the child's primary window is shown: the child starts with
    /// `STARTF_USESHOWWINDOW` and this command in its startup information.
    pub fn show_window(&mut self, command: ShowWindowCommand) -> (r: &mut Command)
        ensures
            r@ == (CommandView { show_window: Some(command@), ..old(self)@ }),
            *final(self) == *final(r),
    {
        self.show_window = Some(command);
        self
    }

    /// Sets (or overrides) the environment variable `key` to `val` in the
    /// child.
    pub fn env(&mut self, key: Vec<u16>, val: Vec<u16>) -> (r: &mut Command)
        ensures
            r@ == (CommandView { env_vars: old(self)@.env_vars.push((key, Some(val))), ..old(self)@ }),
            *final(self) == *final(r),
    {
        self.env_vars.push((key, Some(val)));
        self
    }

    /// Sets each of `vars`, in order, as `env` does.
    pub fn envs(&mut self, vars: Vec<EnvVar>) -> (r: &mut Command)
        ensures
            r@ == (CommandView { env_vars: old(self)@.env_vars + settings(vars@), ..old(self)@ }),
            r@.env_vars.len() == old(self)@.env_vars.len() + vars@.len(),
            forall|i: int|
                0 <= i < old(self)@.env_vars.len() ==> #[trigger] r@.env_vars[i]
                    == old(self)@.env_vars[i],
            forall|i: int|
                0 <= i < vars@.len() ==> #[trigger] r@.env_vars[old(self)@.env_vars.len() + i] == (
                    vars@[i].0,
                    Some(vars@[i].1),
                ),
            *final(self) == *final(r),
    {
        let ghost start = self.env_vars@;
        let ghost all = vars@;
        let mut rest = vars;
        while rest.len() > 0
            invariant
                rest@.len() <= all.len(),
                rest@ == all.skip(all.len() - rest@.len()),
                self.env_vars@ == start + settings(all.take(all.len() - rest@.len())),
                self.command == old(self).command,
                self.inherit_handles == old(self).inherit_handles,
                self.current_directory == old(self).current_directory,
                self.env_clear == old(self).env_clear,
                self.show_window == old(self).show_window,
            decreases rest.len(),
        {
            let ghost k = all.len() - rest@.len();
            assert(rest@[0] == all[k]);
            let (key, val) = rest.remove(0);
            self.env_vars.push((key, Some(val)));
            assert(self.env_vars@ =~= start + settings(all.take(k + 1)));
            assert(rest@ =~= all.skip(k + 1));
        }
        assert(all.take(all.len() as int) =~= all);
        self
    }

    /// Removes the environment variable `key` from the child.
    pub fn env_remove(&mut self, key: Vec<u16>) -> (r: &mut Command)
        ensures
            r@ == (CommandView { env_vars: old(self)@.env_vars.push((key, None)), ..old(self)@ }),
            *final(self) == *final(r),
    {
        self.env_vars.push((key, None));
        self
    }

    /// Starts the child from an empty environment and drops the
    /// environment changes made so far; later `env` and `env_remove` calls
    /// apply to the empty environment.
    pub fn env_clear(&mut self) -> (r: &mut Command)
        ensures
            r@ == (CommandView { env_clear: true, env_vars: Seq::empty(), ..old(self)@ }),
            *final(self) == *final(r),
    {
        self.env_clear = true;
        self.env_vars.clear();
        self
    }

    /// Prepares the `CreateProcessW` call that spawns the child, given the
    /// environment of the current process; the environment changes are
    /// taken out of the builder, the other settings stay.
    pub fn prepare_spawn(&mut self, inherited: Vec<EnvVar>) -> (r: CreateRequest)
        ensures
            is_create_request(
                r,
                old(self)@.command,
                old(self)@.inherit_handles,
                old(self)@.current_directory,
                old(self)@.env_clear,
                old(self)@.env_vars,
                inherited@,
                old(self)@.show_window,
            ),
            final(self)@ == (CommandView { env_vars: Seq::empty(), ..old(self)@ }),
    {
        let mut env_vars: Vec<EnvChange> = Vec::new();
        std::mem::swap(&mut env_vars, &mut self.env_vars);
        let current_directory = match &self.current_directory {
            Some(d) => Some(d),
            None => None,
        };
        Child::create_request(
            &self.command,
            self.inherit_handles,
            current_directory,
            self.env_clear,
            env_vars,
            inherited,
            self.show_window,
        )
    }
}

} // verus!
