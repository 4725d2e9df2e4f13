//! Assembling the pre-flight system report from the individual probe
//! results.  The probes themselves — the effective-user check, the
//! process-filesystem access check and the tracing-scope read — are the
//! surrounding application's, which hands their outcomes in as plain
//! values.

use vstd::prelude::*;

use vstd::string::StringExecFns;

verus! {

/// What the pre-flight checks learned about the host.
#[derive(Debug)]
pub struct SystemInfo {
    /// The operating system name.
    pub os: String,
    /// Whether the process runs with superuser privileges.
    pub has_sudo: bool,
    /// Whether the per-process filesystem is accessible.
    pub can_read_proc: bool,
    /// The kernel's tracing-scope setting, where the platform has one.
    pub ptrace_scope: Option<u32>,
}

/// Builds the system report from the probe outcomes: the tracing-scope
/// value is carried only on Linux, where it is meaningful.
pub fn system_checks(
    os: String,
    has_sudo: bool,
    can_read_proc: bool,
    ptrace_scope: Option<u32>,
) -> (r: Result<SystemInfo, String>)
    ensures
        match r {
            Ok(info) => {
                &&& info.os == os
                &&& info.has_sudo == has_sudo
                &&& info.can_read_proc == can_read_proc
                &&& info.ptrace_scope == (if os@ == "Linux"@ {
                    ptrace_scope
                } else {
                    None::<u32>
                })
            },
            Err(_) => false,
        },
{
    let linux = String::from_str("Linux");
    let is_linux = os.eq(&linux);
    let scope: Option<u32> = if is_linux {
        ptrace_scope
    } else {
        None
    };
    Ok(SystemInfo { os, has_sudo, can_read_proc, ptrace_scope: scope })
}

} // verus!
