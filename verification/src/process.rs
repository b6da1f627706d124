use vstd::prelude::*;
use vstd::string::{StrSliceExecFns, StringExecFns};

use crate::numbers::{dec_str, u32_to_string};

verus! {

/// Whether a wait status reports a normal exit, as the C macro
/// `WIFEXITED` reads it.
pub open spec fn wifexited(status: i32) -> bool {
    status & 0x7f == 0
}

/// The exit code carried by a wait status, as the C macro `WEXITSTATUS`
/// reads it.
pub open spec fn wexitstatus(status: i32) -> i32 {
    (status >> 8) & 0xff
}

/// How a child process terminated.
pub struct ExitOutcome {
    pub exited_normally: bool,
    pub code: i32,
}

/// Classify what waiting for a child reported: `None` when the wait itself
/// failed, otherwise the termination kind and code read from the status.
pub fn classify_wait(ret: i32, status: i32) -> (r: Option<ExitOutcome>)
    ensures
        match r {
            None => ret == -1,
            Some(o) => ret != -1 && o.exited_normally == wifexited(status) && o.code
                == wexitstatus(status),
        },
{
    if ret == -1 {
        None
    } else {
        Some(ExitOutcome { exited_normally: (status & 0x7f) == 0, code: (status >> 8) & 0xff })
    }
}

/// The diagnostic that one wait deserves: one line when the wait failed,
/// one line naming the code when the child exited normally with a non-zero
/// code, and none otherwise.
pub open spec fn wait_message(ret: i32, status: i32) -> Option<Seq<char>> {
    if ret == -1 {
        Some("waitpid error"@)
    } else if wifexited(status) && wexitstatus(status) != 0 {
        Some("the program terminated with code "@ + dec_str(wexitstatus(status) as int))
    } else {
        None
    }
}

/// Work out the single diagnostic line that the outcome of one wait
/// deserves, if any.
pub fn wait_diagnostic(ret: i32, status: i32) -> (r: Option<String>)
    ensures
        match r {
            Some(s) => wait_message(ret, status) == Some(s@),
            None => wait_message(ret, status) is None,
        },
{
    if ret == -1 {
        return Some("waitpid error".to_owned());
    }
    if (status & 0x7f) == 0 {
        let code = (status >> 8) & 0xff;
        proof {
            assert(0 <= ((status >> 8) & 0xff) <= 255) by (bit_vector);
        }
        if code != 0 {
            let mut msg = "the program terminated with code ".to_owned();
            let tail = u32_to_string(code as u32);
            msg.append(tail.as_str());
            return Some(msg);
        }
    }
    None
}

} // verus!
