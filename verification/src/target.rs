//! What the supervisor launches: the program named on its command line and
//! the argument vector that the program is started with.

use vstd::prelude::*;
use vstd::slice::slice_subrange;
use vstd::slice::slice_to_vec;

verus! {

/// The slash, which separates the segments of a path.
pub const SLASH: u8 = 0x2f;

/// The dot.
pub const DOT: u8 = 0x2e;

/// Whether `path[from..to]` is a segment of `path`: a stretch without a
/// slash that reaches from the start of the path or a slash to the next
/// slash or the end of the path.
pub open spec fn is_segment(path: Seq<u8>, from: int, to: int) -> bool {
    &&& 0 <= from <= to <= path.len()
    &&& from == 0 || path[from - 1] == SLASH
    &&& to == path.len() || path[to] == SLASH
    &&& forall|k: int| from <= k < to ==> path[k] != SLASH
}

/// Whether a segment names an entry: it is neither empty nor the single dot
/// that stands for the directory itself.
pub open spec fn is_name(segment: Seq<u8>) -> bool {
    segment.len() > 0 && segment != seq![DOT]
}

/// Whether `path[from..to]` is the last segment of `path` that names an
/// entry.
pub open spec fn is_last_name(path: Seq<u8>, from: int, to: int) -> bool {
    &&& is_segment(path, from, to)
    &&& is_name(path.subrange(from, to))
    &&& forall|f: int, t: int|
        to < f && #[trigger] is_segment(path, f, t) ==> !is_name(path.subrange(f, t))
}

/// The base name of `path`: its last segment that names an entry, unless
/// that segment is the double dot that stands for the parent directory. A
/// path without such a segment has no base name.
pub open spec fn base_name(path: Seq<u8>) -> Option<Seq<u8>> {
    if exists|from: int, to: int| is_last_name(path, from, to) {
        let (from, to) = choose|from: int, to: int| is_last_name(path, from, to);
        let name = path.subrange(from, to);
        if name == seq![DOT, DOT] {
            None
        } else {
            Some(name)
        }
    } else {
        None
    }
}

/// A path has at most one last name.
pub proof fn lemma_last_name_unique(path: Seq<u8>, from: int, to: int, f: int, t: int)
    requires
        is_last_name(path, from, to),
        is_last_name(path, f, t),
    ensures
        from == f,
        to == t,
{
    if to < f {
        assert(is_segment(path, f, t));
    } else if t < from {
        assert(is_segment(path, from, to));
    } else {
        if from < f {
            assert(path[f - 1] == SLASH);
        }
        if f < from {
            assert(path[from - 1] == SLASH);
        }
        if to < t {
            assert(path[to] == SLASH);
        }
        if t < to {
            assert(path[t] == SLASH);
        }
    }
}

/// Where the last name of a path lies, there lies its base name, unless it
/// is the double dot.
pub proof fn lemma_base_name_at(path: Seq<u8>, from: int, to: int)
    requires
        is_last_name(path, from, to),
    ensures
        base_name(path) == if path.subrange(from, to) == seq![DOT, DOT] {
            None
        } else {
            Some(path.subrange(from, to))
        },
{
    let (f, t) = choose|f: int, t: int| is_last_name(path, f, t);
    lemma_last_name_unique(path, from, to, f, t);
}

/// A base name is the name of a single entry: it is not empty, holds no
/// slash, and is neither the dot nor the double dot.
pub proof fn lemma_base_name_is_a_name(path: Seq<u8>)
    requires
        base_name(path) is Some,
    ensures
        base_name(path)->0.len() > 0,
        !base_name(path)->0.contains(SLASH),
        base_name(path)->0 != seq![DOT],
        base_name(path)->0 != seq![DOT, DOT],
{
    let (from, to) = choose|from: int, to: int| is_last_name(path, from, to);
    let name = path.subrange(from, to);
    assert forall|i: int| 0 <= i < name.len() implies name[i] != SLASH by {
        assert(name[i] == path[from + i]);
    }
}

/// Computes the base name of `path`.
pub fn file_name(path: &[u8]) -> (name: Option<Vec<u8>>)
    ensures
        match name {
            Some(n) => base_name(path@) == Some(n@),
            None => base_name(path@) is None,
        },
{
    let mut end: usize = path.len();
    loop
        invariant
            end <= path@.len(),
            end == path@.len() || path@[end as int] == SLASH,
            forall|f: int, t: int|
                end < f && #[trigger] is_segment(path@, f, t) ==> !is_name(path@.subrange(f, t)),
        ensures
            base_name(path@) is None,
        decreases end,
    {
        if end == 0 {
            proof {
                assert forall|from: int, to: int| !is_last_name(path@, from, to) by {
                    if is_last_name(path@, from, to) {
                        if from == 0 {
                            assert(to == 0);
                        }
                    }
                }
            }
            break;
        }
        if path[end - 1] == SLASH {
            proof {
                assert forall|f: int, t: int|
                    end - 1 < f && #[trigger] is_segment(path@, f, t) implies !is_name(
                    path@.subrange(f, t),
                ) by {
                    if f == end {
                        assert(t == f);
                    }
                }
            }
            end = end - 1;
        } else {
            let mut start: usize = end - 1;
            while start > 0 && path[start - 1] != SLASH
                invariant
                    start < end <= path@.len(),
                    forall|k: int| start <= k < end ==> path@[k] != SLASH,
                decreases start,
            {
                start = start - 1;
            }
            assert(is_segment(path@, start as int, end as int));
            let segment: &[u8] = slice_subrange(path, start, end);
            if end - start == 1 && segment[0] == DOT {
                proof {
                    assert(segment@ =~= seq![DOT]);
                    assert forall|f: int, t: int|
                        start < f && #[trigger] is_segment(path@, f, t) implies !is_name(
                        path@.subrange(f, t),
                    ) by {
                        if f <= end {
                            assert(path@[f - 1] == SLASH);
                        }
                    }
                }
                if start == 0 {
                    proof {
                        assert forall|from: int, to: int| !is_last_name(path@, from, to) by {
                            if is_last_name(path@, from, to) {
                                assert(from == 0);
                                assert(to == end) by {
                                    if to < end {
                                        assert(path@[to] == SLASH);
                                    }
                                    if to > end {
                                        assert(path@[end as int] == SLASH);
                                    }
                                }
                            }
                        }
                    }
                    break;
                }
                end = start - 1;
            } else {
                proof {
                    assert(segment@ != seq![DOT]) by {
                        if segment@ == seq![DOT] {
                            assert(segment@.len() == 1);
                            assert(segment@[0] == DOT);
                        }
                    }
                    lemma_base_name_at(path@, start as int, end as int);
                }
                if end - start == 2 && segment[0] == DOT && segment[1] == DOT {
                    assert(segment@ =~= seq![DOT, DOT]);
                    return None;
                }
                proof {
                    if segment@ == seq![DOT, DOT] {
                        assert(segment@.len() == 2);
                        assert(segment@[0] == DOT);
                        assert(segment@[1] == DOT);
                    }
                }
                return Some(slice_to_vec(segment));
            }
        }
    }
    None
}

/// Why a target cannot be launched.
#[derive(Clone, Copy, Debug, PartialEq, Eq, Structural)]
pub enum LaunchError {
    /// The command line names no program.
    NotEnoughArguments,
    /// The program's path has no base name to start it under.
    NoBaseName,
}

/// The program to launch and the arguments to hand to it, as they stand on
/// the supervisor's command line.
#[derive(Debug)]
pub struct TargetSpec {
    /// Path of the program.
    pub program: Vec<u8>,
    /// The arguments after the program's path.
    pub arguments: Vec<Vec<u8>>,
}

/// The byte strings that `strings` holds.
pub open spec fn contents(strings: Seq<Vec<u8>>) -> Seq<Seq<u8>> {
    strings.map_values(|s: Vec<u8>| s@)
}

/// A target as plain sequences of bytes.
pub struct Target {
    /// Path of the program.
    pub program: Seq<u8>,
    /// The arguments after the program's path.
    pub arguments: Seq<Seq<u8>>,
}

impl View for TargetSpec {
    type V = Target;

    open spec fn view(&self) -> Target {
        Target { program: self.program@, arguments: contents(self.arguments@) }
    }
}

/// The target that the command line `args` names. The first argument is the
/// supervisor itself, the second the program, the rest the program's
/// arguments; a command line of fewer than two arguments names no target.
pub open spec fn target_of(args: Seq<Seq<u8>>) -> Option<Target> {
    if args.len() >= 2 {
        Some(Target { program: args[1], arguments: args.skip(2) })
    } else {
        None
    }
}

/// The argument vector that `target` is started with: the base name of the
/// program, then the target's arguments as they are. A program without a
/// base name cannot be started.
pub open spec fn exec_argv(target: Target) -> Option<Seq<Seq<u8>>> {
    match base_name(target.program) {
        Some(name) => Some(seq![name] + target.arguments),
        None => None,
    }
}

impl TargetSpec {
    /// Takes the target from the supervisor's own command line.
    pub fn from_args(args: Vec<Vec<u8>>) -> (target: Result<TargetSpec, LaunchError>)
        ensures
            match target {
                Ok(t) => target_of(contents(args@)) == Some(t@),
                Err(e) => target_of(contents(args@)) is None && e
                    == LaunchError::NotEnoughArguments,
            },
    {
        let mut args = args;
        if args.len() < 2 {
            return Err(LaunchError::NotEnoughArguments);
        }
        let ghost all = contents(args@);
        let _ = args.remove(0);
        let program: Vec<u8> = args.remove(0);
        proof {
            assert(contents(args@) =~= all.skip(2));
        }
        Ok(TargetSpec { program, arguments: args })
    }

    /// The argument vector to start the program with.
    pub fn argv(&self) -> (argv: Result<Vec<Vec<u8>>, LaunchError>)
        ensures
            match argv {
                Ok(v) => exec_argv(self@) == Some(contents(v@)),
                Err(e) => exec_argv(self@) is None && e == LaunchError::NoBaseName,
            },
    {
        match file_name(self.program.as_slice()) {
            None => Err(LaunchError::NoBaseName),
            Some(name) => {
                let mut argv: Vec<Vec<u8>> = Vec::new();
                argv.push(name);
                proof {
                    assert(contents(argv@) =~= seq![name@] + contents(self.arguments@).take(0));
                }
                let mut i: usize = 0;
                while i < self.arguments.len()
                    invariant
                        i <= self.arguments@.len(),
                        contents(argv@) == seq![name@] + contents(self.arguments@).take(
                            i as int,
                        ),
                    decreases self.arguments@.len() - i,
                {
                    let ghost before = contents(argv@);
                    let argument: Vec<u8> = slice_to_vec(self.arguments[i].as_slice());
                    argv.push(argument);
                    proof {
                        assert(contents(argv@) =~= before.push(argument@));
                        assert(contents(self.arguments@).take(i + 1) =~= contents(
                            self.arguments@,
                        ).take(i as int).push(argument@));
                    }
                    i += 1;
                }
                proof {
                    assert(contents(self.arguments@).take(i as int) =~= contents(
                        self.arguments@,
                    ));
                }
                Ok(argv)
            },
        }
    }
}

/// The program is started under its base name, and the arguments that
/// follow it on the command line are handed to it unchanged and in order.
pub proof fn lemma_launch_arguments(
    supervisor: Seq<u8>,
    program: Seq<u8>,
    arguments: Seq<Seq<u8>>,
)
    requires
        base_name(program) is Some,
    ensures
        ({
            let target = target_of(seq![supervisor, program] + arguments);
            &&& target is Some
            &&& target->0.program == program
            &&& exec_argv(target->0) is Some
            &&& exec_argv(target->0)->0[0] == base_name(program)->0
            &&& exec_argv(target->0)->0.skip(1) == arguments
        }),
{
    let args = seq![supervisor, program] + arguments;
    assert(args.skip(2) =~= arguments);
    assert((seq![base_name(program)->0] + arguments).skip(1) =~= arguments);
}

} // verus!
