use vstd::prelude::*;

verus! {

/// `WaitForSingleObject` timeout that waits until the handle is signaled,
/// however long that takes.
pub const INFINITE: u32 = 0xFFFF_FFFFu32;

/// `WaitForSingleObject` result: the handle was signaled.
pub const WAIT_OBJECT_0: u32 = 0x0000_0000u32;

/// Exit code that `GetExitCodeProcess` reports while the process is still
/// running.
pub const STATUS_PENDING: u32 = 0x0000_0103u32;

/// Process creation flag: the environment block holds UTF-16 text.
pub const CREATE_UNICODE_ENVIRONMENT: u32 = 0x0000_0400u32;

/// `STARTUPINFOW.dwFlags` bit: use `wShowWindow`.
pub const STARTF_USESHOWWINDOW: u32 = 0x0000_0001u32;

/// Handle information flag: the handle is inherited by child processes.
pub const HANDLE_FLAG_INHERIT: u32 = 0x0000_0001u32;

/// Value for `STARTUPINFOW.wShowWindow`: how the primary window of a new
/// process is shown (minimized, maximized, restored, hidden, ...).
///
/// Several named values share a number (`SW_NORMAL` and `SW_SHOWNORMAL`
/// are both `1`).
#[derive(Clone, Copy, Debug, PartialEq, Eq, Structural)]
pub struct ShowWindowCommand(pub(crate) u16);

impl View for ShowWindowCommand {
    type V = u16;

    /// The numeric value that goes into `wShowWindow`.
    closed spec fn view(&self) -> u16 {
        self.0
    }
}

impl ShowWindowCommand {
    /// Hides the window and activates another window.
    #[allow(non_snake_case)]
    pub fn SW_HIDE() -> (r: ShowWindowCommand)
        ensures
            r@ == 0,
    {
        ShowWindowCommand(0)
    }

    /// Activates and displays a window, restoring a minimized, maximized or
    /// arranged window to its original size and position; for showing a
    /// window the first time.
    #[allow(non_snake_case)]
    pub fn SW_SHOWNORMAL() -> (r: ShowWindowCommand)
        ensures
            r@ == 1,
    {
        ShowWindowCommand(1)
    }

    /// The same value as `SW_SHOWNORMAL`.
    #[allow(non_snake_case)]
    pub fn SW_NORMAL() -> (r: ShowWindowCommand)
        ensures
            r@ == 1,
    {
        ShowWindowCommand(1)
    }

    /// Activates the window and displays it minimized.
    #[allow(non_snake_case)]
    pub fn SW_SHOWMINIMIZED() -> (r: ShowWindowCommand)
        ensures
            r@ == 2,
    {
        ShowWindowCommand(2)
    }

    /// Activates the window and displays it maximized.
    #[allow(non_snake_case)]
    pub fn SW_SHOWMAXIMIZED() -> (r: ShowWindowCommand)
        ensures
            r@ == 3,
    {
        ShowWindowCommand(3)
    }

    /// The same value as `SW_SHOWMAXIMIZED`.
    #[allow(non_snake_case)]
    pub fn SW_MAXIMIZE() -> (r: ShowWindowCommand)
        ensures
            r@ == 3,
    {
        ShowWindowCommand(3)
    }

    /// Displays a window in its most recent size and position, without
    /// activating it.
    #[allow(non_snake_case)]
    pub fn SW_SHOWNOACTIVATE() -> (r: ShowWindowCommand)
        ensures
            r@ == 4,
    {
        ShowWindowCommand(4)
    }

    /// Activates and displays the window in its current size and position.
    #[allow(non_snake_case)]
    pub fn SW_SHOW() -> (r: ShowWindowCommand)
        ensures
            r@ == 5,
    {
        ShowWindowCommand(5)
    }

    /// Minimizes the window and activates the next top-level window in the
    /// Z order.
    #[allow(non_snake_case)]
    pub fn SW_MINIMIZE() -> (r: ShowWindowCommand)
        ensures
            r@ == 6,
    {
        ShowWindowCommand(6)
    }

    /// Displays the window minimized, without activating it.
    #[allow(non_snake_case)]
    pub fn SW_SHOWMINNOACTIVE() -> (r: ShowWindowCommand)
        ensures
            r@ == 7,
    {
        ShowWindowCommand(7)
    }

    /// Displays the window in its current size and position, without
    /// activating it.
    #[allow(non_snake_case)]
    pub fn SW_SHOWNA() -> (r: ShowWindowCommand)
        ensures
            r@ == 8,
    {
        ShowWindowCommand(8)
    }

    /// Activates and displays the window, restoring a minimized, maximized or
    /// arranged window to its original size and position.
    #[allow(non_snake_case)]
    pub fn SW_RESTORE() -> (r: ShowWindowCommand)
        ensures
            r@ == 9,
    {
        ShowWindowCommand(9)
    }

    /// Takes the show state from the `STARTUPINFO` that the program that
    /// started the application passed to `CreateProcess`.
    #[allow(non_snake_case)]
    pub fn SW_SHOWDEFAULT() -> (r: ShowWindowCommand)
        ensures
            r@ == 10,
    {
        ShowWindowCommand(10)
    }

    /// Minimizes a window even if the thread that owns it is not responding;
    /// for minimizing windows from a different thread.
    #[allow(non_snake_case)]
    pub fn SW_FORCEMINIMIZE() -> (r: ShowWindowCommand)
        ensures
            r@ == 11,
    {
        ShowWindowCommand(11)
    }

    /// The numeric value of the command.
    pub fn as_u16(self) -> (r: u16)
        ensures
            r == self@,
    {
        self.0
    }
}

} // verus!
