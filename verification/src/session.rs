//! The start-up decisions of a session, taken from the parsed command-line
//! flags: whether the interactive menu runs, how the initial state is
//! transformed first, and which notice is printed instead of a menu. The
//! flag parsing itself and all printing stay with the front end.

use vstd::prelude::*;

use crate::editor::{spec_block_all, spec_unblock_all, State, StateView};
use crate::pass::is_challenge;

verus! {

/// What is reported when the menu does not run.
#[derive(Clone, Copy, PartialEq, Eq, Structural, Debug)]
pub enum StartupNotice {
    /// Print the usage text and exit.
    Usage,
    /// All entries were blocked non-interactively.
    HostsBlocked,
    /// Non-interactive unblocking is not permitted in this build.
    UnblockDisabled,
    /// Nothing to report.
    NoNotice,
}

/// What start-up does, given the flags. Help wins over blocking, blocking
/// over unblocking. Blocking all entries is done without a menu; unblocking
/// all entries, where permitted, still routes through the interactive
/// Password confirmation, since unblocking is always gated.
pub open spec fn spec_plan_startup(
    s: StateView,
    help: bool,
    block: bool,
    unblock: bool,
    unblock_allowed: bool,
    chal: Seq<char>,
) -> (bool, StateView, StartupNotice) {
    if help {
        (false, s, StartupNotice::Usage)
    } else if block {
        (false, spec_block_all(s), StartupNotice::HostsBlocked)
    } else if unblock {
        if unblock_allowed {
            (true, spec_unblock_all(s, chal), StartupNotice::NoNotice)
        } else {
            (false, s, StartupNotice::UnblockDisabled)
        }
    } else {
        (true, s, StartupNotice::NoNotice)
    }
}

/// Applies the command-line flags to the freshly loaded state. The first
/// component says whether the interactive menu runs.
pub fn plan_startup(
    state: State,
    help: bool,
    block: bool,
    unblock: bool,
    unblock_allowed: bool,
) -> (r: (bool, State, StartupNotice))
    ensures
        (r.0, r.1@, r.2) == spec_plan_startup(
            state@,
            help,
            block,
            unblock,
            unblock_allowed,
            r.1@.correct_pass,
        ),
        !help && !block && unblock && unblock_allowed ==> is_challenge(
            r.1@.correct_pass,
            state@.challenge_words,
        ),
{
    if help {
        (false, state, StartupNotice::Usage)
    } else if block {
        (false, crate::editor::block_all(state), StartupNotice::HostsBlocked)
    } else if unblock {
        if unblock_allowed {
            (true, crate::editor::unblock_all(state), StartupNotice::NoNotice)
        } else {
            (false, state, StartupNotice::UnblockDisabled)
        }
    } else {
        (true, state, StartupNotice::NoNotice)
    }
}

} // verus!
