//! Building blocks for starting Windows processes with `CreateProcessW`:
//! the command builder, the environment block it hands to Windows, the
//! request for the call and the decisions on what the Windows calls
//! return, the process-information record and the exit status of a
//! finished child.
pub mod binding;
pub mod child;
pub mod command;
pub mod env_block;
pub mod env_laws;
pub mod exit_status;

pub use binding::ShowWindowCommand;
pub use child::{Child, ChildView, CreateRequest, ProcessInformation, TryWait};
pub use command::{Command, CommandView};
pub use exit_status::ExitStatus;
