//! State of the terminal status line. The rendering itself is I/O and lives
//! outside the library; this tracks whether a status line is on screen, so a
//! renderer knows when to restore the cursor and when to save it.
use vstd::prelude::*;

verus! {

/// Terminal user interface state.
pub struct TUI {
    pub status_printed: bool,
}

impl TUI {
    pub fn new() -> (r: TUI)
        ensures
            !r.status_printed,
    {
        TUI { status_printed: false }
    }

    /// Called before printing the status line: reports whether a previous
    /// status line must be overwritten (else the cursor position is to be
    /// saved first), and records that one is now on screen.
    pub fn begin_status(&mut self) -> (restore: bool)
        ensures
            restore == old(self).status_printed,
            final(self).status_printed,
    {
        let r = self.status_printed;
        self.status_printed = true;
        r
    }

    /// Called before printing anything else: reports whether a status line
    /// is on screen and must be cleared, and records that none is.
    pub fn clear_status(&mut self) -> (clear: bool)
        ensures
            clear == old(self).status_printed,
            !final(self).status_printed,
    {
        let r = self.status_printed;
        self.status_printed = false;
        r
    }
}

} // verus!
