//! Process handles and the signals the supervisor sends.

use vstd::prelude::*;

verus! {

/// Handle of a process: a positive integer issued by the kernel.
///
/// Zero and negative numbers address process groups when used as the target
/// of a signal, so a `Pid` can never hold one.
#[derive(Clone, Copy, Debug, PartialEq, Eq, Structural)]
pub struct Pid {
    raw: i32,
}

impl View for Pid {
    type V = int;

    closed spec fn view(&self) -> int {
        self.raw as int
    }
}

impl Pid {
    #[verifier::type_invariant]
    spec fn positive(self) -> bool {
        self.raw > 0
    }

    /// The handle whose number is `value`.
    pub closed spec fn of(value: int) -> Pid {
        Pid { raw: value as i32 }
    }

    /// Whether `value` is the number of some process handle.
    pub open spec fn valid(value: int) -> bool {
        0 < value <= i32::MAX
    }

    /// The handle with the number `raw`, if `raw` is positive.
    pub fn from_raw(raw: i32) -> (pid: Option<Pid>)
        ensures
            pid is Some <==> Pid::valid(raw as int),
            pid is Some ==> pid->0 == Pid::of(raw as int) && pid->0@ == raw,
    {
        if raw > 0 {
            Some(Pid { raw })
        } else {
            None
        }
    }

    /// The number of this handle.
    pub fn as_raw(self) -> (raw: i32)
        ensures
            raw == self@,
            Pid::valid(raw as int),
    {
        proof {
            use_type_invariant(&self);
        }
        self.raw
    }

    /// A handle is determined by its number.
    pub proof fn lemma_of_view(self)
        ensures
            Pid::of(self@) == self,
    {
    }

    /// A valid number is the number of the handle made from it.
    pub proof fn lemma_view_of(value: int)
        requires
            Pid::valid(value),
        ensures
            Pid::of(value)@ == value,
    {
    }
}

/// The two signals the supervisor sends.
#[derive(Clone, Copy, Debug, PartialEq, Eq, Structural)]
pub enum Signal {
    /// Asks the process to shut down; the process may catch it.
    Terminate,
    /// Ends the process at once; the process cannot catch it.
    Kill,
}

} // verus!
