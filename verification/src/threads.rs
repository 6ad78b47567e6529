//! Resolution of the requested decoder thread count.
//!
//! The command line may carry a thread-count argument. A positive value is
//! used directly; `-1` asks for the host's detected logical core count and
//! earns an informational message; any other non-positive or unparsable
//! value falls back to one thread with a warning; an omitted argument is one
//! thread, silently.

use vstd::prelude::*;

verus! {

/// The thread-count argument as the command line handed it over.
#[derive(Clone, Copy, Debug, PartialEq, Eq, Structural)]
pub enum ThreadArg {
    /// No second argument was given.
    Omitted,
    /// A second argument was given but did not parse as an integer.
    Unparsable,
    /// The parsed integer value of the argument.
    Value(i32),
}

/// What the resolution asks the caller to print alongside the count.
#[derive(Clone, Copy, Debug, PartialEq, Eq, Structural)]
pub enum ThreadNotice {
    /// Nothing to print.
    Silent,
    /// The count is the detected core count; say so.
    CoreCount,
    /// The argument was invalid and the count fell back to one; warn.
    InvalidWarning,
}

/// A resolved thread count together with the message it calls for.
#[derive(Clone, Copy, Debug, PartialEq, Eq, Structural)]
pub struct ThreadDecision {
    /// The number of decoder threads to configure, always at least one.
    pub count: usize,
    /// The message the resolution calls for.
    pub notice: ThreadNotice,
}

/// The decision for a given argument on a host with `cores` logical cores.
pub open spec fn decision_spec(arg: ThreadArg, cores: usize) -> ThreadDecision {
    match arg {
        ThreadArg::Omitted => ThreadDecision { count: 1, notice: ThreadNotice::Silent },
        ThreadArg::Unparsable => ThreadDecision { count: 1, notice: ThreadNotice::InvalidWarning },
        ThreadArg::Value(p) => if p == -1 {
            ThreadDecision { count: cores, notice: ThreadNotice::CoreCount }
        } else if p >= 1 {
            ThreadDecision { count: p as usize, notice: ThreadNotice::Silent }
        } else {
            ThreadDecision { count: 1, notice: ThreadNotice::InvalidWarning }
        },
    }
}

/// Resolves the thread-count argument against a known core count.
pub fn resolve_thread_count(arg: ThreadArg, cores: usize) -> (d: ThreadDecision)
    requires
        1 <= cores,
    ensures
        d == decision_spec(arg, cores),
        1 <= d.count,
{
    match arg {
        ThreadArg::Omitted => ThreadDecision { count: 1, notice: ThreadNotice::Silent },
        ThreadArg::Unparsable => ThreadDecision { count: 1, notice: ThreadNotice::InvalidWarning },
        ThreadArg::Value(p) => {
            if p == -1 {
                ThreadDecision { count: cores, notice: ThreadNotice::CoreCount }
            } else if p >= 1 {
                ThreadDecision { count: p as usize, notice: ThreadNotice::Silent }
            } else {
                ThreadDecision { count: 1, notice: ThreadNotice::InvalidWarning }
            }
        },
    }
}

/// Relies on num_cpus::get: the detected logical core count, which its
/// documentation promises to be at least one.
#[verifier::external_body]
fn detected_cores() -> (n: usize)
    ensures
        1 <= n,
{
    num_cpus::get()
}

/// Resolves the thread-count argument on this host, detecting the core
/// count when the argument asks for it. Whatever core count the host
/// reports, the decision is the one `decision_spec` gives for it; for every
/// argument other than `-1` the host plays no part.
pub fn resolve_thread_count_auto(arg: ThreadArg) -> (d: ThreadDecision)
    ensures
        1 <= d.count,
        arg == ThreadArg::Omitted ==> d == decision_spec(arg, 1),
        arg == ThreadArg::Unparsable ==> d == decision_spec(arg, 1),
        arg matches ThreadArg::Value(p) && p != -1 ==> d == decision_spec(arg, 1),
        arg == ThreadArg::Value(-1i32) ==> d.notice == ThreadNotice::CoreCount,
{
    let cores: usize = detected_cores();
    let d = resolve_thread_count(arg, cores);
    d
}

} // verus!
