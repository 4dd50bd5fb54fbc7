//! What a client is told about its switches.

use crate::text::join3;
use vstd::prelude::*;

verus! {

/// How the daemon is managed.
pub open spec fn management_text(linux: bool) -> Seq<char> {
    if linux {
        "Daemon management (systemd):\n\n systemctl --user {start | stop | restart | status} julia-daemon\n"@
    } else {
        "Daemon management:\n\n pgrep -f julia-conductor   (status)\n pkill -f julia-conductor   (stop)\n"@
    }
}

/// The switches.
pub open spec fn switches_text() -> Seq<char> {
    "\n    juliaclient [switches] -- [programfile] [args...]\n\nSwitches (a '*' marks the default value, if applicable):\n\n-v, --version              Display version information\n-h, --help                 Print this message\n--project[=<dir>|@.]       Set <dir> as the home project/environment\n-e, --eval <expr>          Evaluate <expr>\n-E, --print <expr>         Evaluate <expr> and display the result\n-L, --load <file>          Load <file> immediately on all processors\n-i                         Interactive mode; REPL runs and `isinteractive()` is true\n--banner={yes|no|auto*}    Enable or disable startup banner\n--color={yes|no|auto*}     Enable or disable color text\n--history-file={yes*|no}   Load or save history\n\nClient-specific switches:\n\n-a, --address <addr>       Connect to conductor at <addr> instead of default\n--session[=<label>]        Reuse worker state in Main module.\n--sync                     Attach to shared REPL (requires --session=<label>)\n--revise[=yes|no*]         Enable or disable Revise.jl integration\n--restart                  Kill workers for the project and exit\n--sandbox                  Run in an isolated sandbox (Linux only)\n-t, --threads <spec>       Worker thread count (N, auto, or N,M for default,interactive)\n--status[=live|json]       Show conductor/worker status; live redraws in place\n\n"@
}

pub fn client_help(linux: bool) -> (r: String)
    ensures
        r@ == switches_text() + management_text(linux) + "\n"@,
{
    let management = if linux {
        "Daemon management (systemd):\n\n systemctl --user {start | stop | restart | status} julia-daemon\n"
    } else {
        "Daemon management:\n\n pgrep -f julia-conductor   (status)\n pkill -f julia-conductor   (stop)\n"
    };
    join3(
        "\n    juliaclient [switches] -- [programfile] [args...]\n\nSwitches (a '*' marks the default value, if applicable):\n\n-v, --version              Display version information\n-h, --help                 Print this message\n--project[=<dir>|@.]       Set <dir> as the home project/environment\n-e, --eval <expr>          Evaluate <expr>\n-E, --print <expr>         Evaluate <expr> and display the result\n-L, --load <file>          Load <file> immediately on all processors\n-i                         Interactive mode; REPL runs and `isinteractive()` is true\n--banner={yes|no|auto*}    Enable or disable startup banner\n--color={yes|no|auto*}     Enable or disable color text\n--history-file={yes*|no}   Load or save history\n\nClient-specific switches:\n\n-a, --address <addr>       Connect to conductor at <addr> instead of default\n--session[=<label>]        Reuse worker state in Main module.\n--sync                     Attach to shared REPL (requires --session=<label>)\n--revise[=yes|no*]         Enable or disable Revise.jl integration\n--restart                  Kill workers for the project and exit\n--sandbox                  Run in an isolated sandbox (Linux only)\n-t, --threads <spec>       Worker thread count (N, auto, or N,M for default,interactive)\n--status[=live|json]       Show conductor/worker status; live redraws in place\n\n",
        management,
        "\n",
    )
}

} // verus!
