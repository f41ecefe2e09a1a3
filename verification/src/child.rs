use vstd::prelude::*;

use crate::binding::{
    ShowWindowCommand, CREATE_UNICODE_ENVIRONMENT, STARTF_USESHOWWINDOW, STATUS_PENDING, WAIT_OBJECT_0,
};
use crate::env_block::{append_units, build_env_block, encode_block, environment, EnvChange, EnvVar};
use crate::exit_status::ExitStatus;

verus! {

/// What `CreateProcessW` reports about a new process: the handles of the
/// process and of its primary thread (as the integers that the handles
/// are), the process id and the thread id.
#[derive(Clone, Copy, Debug, PartialEq, Eq, Structural)]
pub struct ProcessInformation {
    pub process: isize,
    pub thread: isize,
    pub process_id: u32,
    pub thread_id: u32,
}

/// Everything that goes into the `CreateProcessW` call for a child: the
/// NUL-terminated command line, whether handles are inherited (the
/// process and thread security attributes then allow inheritance too), the
/// NUL-terminated working directory, the creation flags, the environment
/// block, and the `STARTUPINFOW` flags with the show-window value that
/// goes into `wShowWindow`.
pub struct CreateRequest {
    pub command_line: Vec<u16>,
    pub inherit_handles: bool,
    pub current_directory: Option<Vec<u16>>,
    pub creation_flags: u32,
    pub environment: Option<Vec<u16>>,
    pub startup_flags: u32,
    pub show_window: u16,
}

/// `r` is the request for starting `command` with the given settings:
/// the strings are NUL-terminated, the environment block is the one that
/// `build_env_block` builds, `CREATE_UNICODE_ENVIRONMENT` is set exactly
/// when there is a block, and `STARTF_USESHOWWINDOW` is set, with the
/// value in `show_window`, exactly when a show-window command is given.
pub open spec fn is_create_request(
    r: CreateRequest,
    command: Seq<u16>,
    inherit_handles: bool,
    current_directory: Option<Seq<u16>>,
    env_clear: bool,
    env_vars: Seq<EnvChange>,
    inherited: Seq<EnvVar>,
    show_window: Option<u16>,
) -> bool {
    &&& r.command_line@ == command.push(0u16)
    &&& r.inherit_handles == inherit_handles
    &&& match current_directory {
        None => r.current_directory is None,
        Some(d) => r.current_directory matches Some(w) && w@ == d.push(0u16),
    }
    &&& (r.environment is None <==> (!env_clear && env_vars.len() == 0))
    &&& (r.environment matches Some(b) ==> b@ == encode_block(
        environment(env_clear, inherited, env_vars),
    ))
    &&& r.creation_flags == (if r.environment is Some {
        CREATE_UNICODE_ENVIRONMENT
    } else {
        0u32
    })
    &&& r.startup_flags == (if show_window is Some {
        STARTF_USESHOWWINDOW
    } else {
        0u32
    })
    &&& r.show_window == (match show_window {
        Some(v) => v,
        None => 0u16,
    })
}

/// What a create request holds, in terms of its inputs: the command line
/// and the working directory (none when none is given) end in one NUL;
/// handle inheritance is passed through; the creation flags are
/// `CREATE_UNICODE_ENVIRONMENT` (0x400) with a block and 0 without; the
/// startup flags are `STARTF_USESHOWWINDOW` (1) with the given
/// show-window value when one is given, and 0 with value 0 otherwise.
pub proof fn law_create_request(
    r: CreateRequest,
    command: Seq<u16>,
    inherit_handles: bool,
    current_directory: Option<Seq<u16>>,
    env_clear: bool,
    env_vars: Seq<EnvChange>,
    inherited: Seq<EnvVar>,
    show_window: Option<u16>,
)
    requires
        is_create_request(
            r,
            command,
            inherit_handles,
            current_directory,
            env_clear,
            env_vars,
            inherited,
            show_window,
        ),
    ensures
        r.command_line@.len() == command.len() + 1,
        r.command_line@.last() == 0,
        r.command_line@.take(command.len() as int) == command,
        r.inherit_handles == inherit_handles,
        current_directory is None ==> r.current_directory is None,
        current_directory matches Some(d) ==> (r.current_directory matches Some(w) && w@.len()
            == d.len() + 1 && w@.last() == 0 && w@.take(d.len() as int) == d),
        r.environment is Some ==> r.creation_flags == 0x400,
        r.environment is None ==> r.creation_flags == 0,
        show_window matches Some(v) ==> r.startup_flags == 1 && r.show_window == v,
        show_window is None ==> r.startup_flags == 0 && r.show_window == 0,
{
    assert(command.push(0u16).take(command.len() as int) =~= command);
    if let Some(d) = current_directory {
        assert(d.push(0u16).take(d.len() as int) =~= d);
    }
}

/// How a non-blocking look at a child's exit code came out.
#[derive(Clone, Copy, Debug, PartialEq, Eq, Structural)]
pub enum TryWait {
    /// `GetExitCodeProcess` failed.
    Failed,
    /// The process is still running.
    Running,
    /// The process has exited with this status; its handles can be closed.
    Exited(ExitStatus),
}

fn nul_terminated(s: &Vec<u16>) -> (r: Vec<u16>)
    ensures
        r@ == s@.push(0u16),
{
    let mut r: Vec<u16> = Vec::new();
    append_units(&mut r, s);
    r.push(0u16);
    assert(r@ =~= s@.push(0u16));
    r
}

/// A process started by `CreateProcessW`.
pub struct Child {
    process_information: ProcessInformation,
    handles_open: bool,
}

/// The state of a `Child`: what `CreateProcessW` reported about it, and
/// whether its process and thread handles are still open. Every operation
/// on the child needs them open.
pub struct ChildView {
    pub process_information: ProcessInformation,
    pub handles_open: bool,
}

impl View for Child {
    type V = ChildView;

    closed spec fn view(&self) -> ChildView {
        ChildView { process_information: self.process_information, handles_open: self.handles_open }
    }
}

impl Child {
    /// The request for starting a child: the command line and the working
    /// directory NUL-terminated, the environment block built from
    /// `env_clear`, `env_vars` and `inherited` (the environment of the
    /// current process), and `CREATE_UNICODE_ENVIRONMENT` among the
    /// creation flags exactly when there is a block; with a show-window
    /// command, `STARTF_USESHOWWINDOW` and the command's value for the
    /// startup information.
    pub fn create_request(
        command: &Vec<u16>,
        inherit_handles: bool,
        current_directory: Option<&Vec<u16>>,
        env_clear: bool,
        env_vars: Vec<EnvChange>,
        inherited: Vec<EnvVar>,
        show_window: Option<ShowWindowCommand>,
    ) -> (r: CreateRequest)
        ensures
            is_create_request(
                r,
                command@,
                inherit_handles,
                match current_directory {
                    Some(d) => Some(d@),
                    None => None,
                },
                env_clear,
                env_vars@,
                inherited@,
                match show_window {
                    Some(c) => Some(c@),
                    None => None,
                },
            ),
    {
        let environment = build_env_block(env_clear, env_vars, inherited);
        let creation_flags: u32 = match &environment {
            Some(_) => CREATE_UNICODE_ENVIRONMENT,
            None => 0,
        };
        let current_directory = match current_directory {
            Some(d) => Some(nul_terminated(d)),
            None => None,
        };
        let (startup_flags, show_window): (u32, u16) = match show_window {
            Some(c) => (STARTF_USESHOWWINDOW, c.as_u16()),
            None => (0, 0),
        };
        CreateRequest {
            command_line: nul_terminated(command),
            inherit_handles,
            current_directory,
            creation_flags,
            environment,
            startup_flags,
            show_window,
        }
    }

    /// The child that `CreateProcessW` created, given what it returned: a
    /// child, with its handles open, exactly when it returned a non-zero
    /// `BOOL`.
    pub fn from_creation(result: i32, process_information: ProcessInformation) -> (r: Option<
        Child,
    >)
        ensures
            r is Some <==> result != 0,
            r matches Some(c) ==> c@ == (ChildView { process_information, handles_open: true }),
    {
        if result != 0 {
            Some(Child { process_information, handles_open: true })
        } else {
            None
        }
    }

    /// What `CreateProcessW` reported about the child.
    pub fn process_information(&self) -> (r: ProcessInformation)
        ensures
            r == self@.process_information,
    {
        self.process_information
    }

    /// The process identifier (PID) of the child.
    pub fn id(&self) -> (r: u32)
        ensures
            r == self@.process_information.process_id,
    {
        self.process_information.process_id
    }

    /// Whether the child's process and thread handles are still open; they
    /// are closed once a wait has returned its exit status.
    pub fn handles_open(&self) -> (r: bool)
        ensures
            r == self@.handles_open,
    {
        self.handles_open
    }

    /// Whether `TerminateProcess` on the child succeeded, given what it
    /// returned.
    pub fn kill_succeeded(&self, result: i32) -> (r: bool)
        requires
            self@.handles_open,
        ensures
            r == (result != 0),
    {
        result != 0
    }

    /// Whether `WaitForSingleObject` on the child reports that its process
    /// handle was signaled, i.e. that the process has exited.
    pub fn wait_signaled(&self, wait_result: u32) -> (r: bool)
        requires
            self@.handles_open,
        ensures
            r == (wait_result == WAIT_OBJECT_0),
    {
        wait_result == WAIT_OBJECT_0
    }

    /// The exit status once a wait has seen the process exit, given what
    /// `GetExitCodeProcess` returned and the code it wrote: the status when
    /// the call succeeded, and then the handles are to be closed and count
    /// as closed; `None` when it failed, and the child is unchanged.
    pub fn status_after_wait(&mut self, query_result: i32, exit_code: u32) -> (r: Option<
        ExitStatus,
    >)
        requires
            old(self)@.handles_open,
        ensures
            r == (if query_result != 0 {
                Some(ExitStatus(exit_code))
            } else {
                None
            }),
            final(self)@ == (ChildView { handles_open: r is None, ..old(self)@ }),
    {
        if query_result != 0 {
            self.handles_open = false;
            Some(ExitStatus(exit_code))
        } else {
            None
        }
    }

    /// What a create request holds, in terms of its inputs: the command line
/// and the working directory (none when none is given) end in one NUL;
/// handle inheritance is passed through; the creation flags are
/// `CREATE_UNICODE_ENVIRONMENT` (0x400) with a block and 0 without; the
/// startup flags are `STARTF_USESHOWWINDOW` (1) with the given
/// show-window value when one is given, and 0 with value 0 otherwise.
pub proof fn law_create_request(
    r: CreateRequest,
    command: Seq<u16>,
    inherit_handles: bool,
    current_directory: Option<Seq<u16>>,
    env_clear: bool,
    env_vars: Seq<EnvChange>,
    inherited: Seq<EnvVar>,
    show_window: Option<u16>,
)
    requires
        is_create_request(
            r,
            command,
            inherit_handles,
            current_directory,
            env_clear,
            env_vars,
            inherited,
            show_window,
        ),
    ensures
        r.command_line@.len() == command.len() + 1,
        r.command_line@.last() == 0,
        r.command_line@.take(command.len() as int) == command,
        r.inherit_handles == inherit_handles,
        current_directory is None ==> r.current_directory is None,
        current_directory matches Some(d) ==> (r.current_directory matches Some(w) && w@.len()
            == d.len() + 1 && w@.last() == 0 && w@.take(d.len() as int) == d),
        r.environment is Some ==> r.creation_flags == 0x400,
        r.environment is None ==> r.creation_flags == 0,
        show_window matches Some(v) ==> r.startup_flags == 1 && r.show_window == v,
        show_window is None ==> r.startup_flags == 0 && r.show_window == 0,
{
    assert(command.push(0u16).take(command.len() as int) =~= command);
    if let Some(d) = current_directory {
        assert(d.push(0u16).take(d.len() as int) =~= d);
    }
}

/// How a non-blocking look at the exit code came out, given what
    /// `GetExitCodeProcess` returned and the code it wrote: failed when
    /// the call failed, still running when the code is `STATUS_PENDING`,
    /// otherwise exited with that code, and then the handles are to be
    /// closed and count as closed.
    pub fn try_wait_outcome(&mut self, query_result: i32, exit_code: u32) -> (r: TryWait)
        requires
            old(self)@.handles_open,
        ensures
            r == (if query_result == 0 {
                TryWait::Failed
            } else if exit_code == STATUS_PENDING {
                TryWait::Running
            } else {
                TryWait::Exited(ExitStatus(exit_code))
            }),
            final(self)@ == (ChildView { handles_open: !(r is Exited), ..old(self)@ }),
    {
        if query_result == 0 {
            TryWait::Failed
        } else if exit_code == STATUS_PENDING {
            TryWait::Running
        } else {
            self.handles_open = false;
            TryWait::Exited(ExitStatus(exit_code))
        }
    }
}

} // verus!
