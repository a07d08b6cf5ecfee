//! Outcomes: the deferred units of work that run when an answer is chosen.
//!
//! An outcome is plain data.  Executing one is a side effect (spawning a
//! process, calling back into a surrounding application), so execution lives
//! with the driver of the session; the library describes *what* to run.
//! Closure- and store-mutating outcomes are represented by a handle that the
//! driver maps to the actual captured computation, which keeps the captured
//! state out of the store and the store free of aliases.

use vstd::prelude::*;
use vstd::string::StrSliceExecFns;

verus! {

/// Identifier of an [`Outcome`] inside a store; the store hands it out on
/// insertion.
pub type OutcomeId = usize;

/// Ghost model of an [`Outcome`]: the same three kinds over mathematical
/// values.
#[verifier::ext_equal]
pub enum OutcomeModel {
    /// A computation, named by its driver-side handle, that may mutate the
    /// owning store before returning text.
    Modify(usize),
    /// An external process invocation; the field is the full command line.
    Command(Seq<char>),
    /// A captured computation, named by its driver-side handle, that returns
    /// text or fails.
    Closure(usize),
}

/// A deferred, possibly side-effecting unit of work.  Each kind produces a
/// textual result or fails when the driver executes it.
#[derive(Debug, Clone, PartialEq)]
pub enum Outcome {
    /// A computation that is allowed to mutate the owning store; the handle
    /// names the driver-side action.
    Modify(usize),
    /// Invoke an external process; the string is the command line, split on
    /// single spaces into the program name and its arguments.
    Command(String),
    /// A captured computation held by the driver under this handle.
    Closure(usize),
}

impl View for Outcome {
    type V = OutcomeModel;

    closed spec fn view(&self) -> OutcomeModel {
        match self {
            Outcome::Modify(h) => OutcomeModel::Modify(*h),
            Outcome::Command(s) => OutcomeModel::Command(s@),
            Outcome::Closure(h) => OutcomeModel::Closure(*h),
        }
    }
}

impl Outcome {
    /// Build a process-invocation outcome from a command line.
    pub fn new_cmd(cmd: String) -> (r: Self)
        ensures
            r@ == OutcomeModel::Command(cmd@),
    {
        Outcome::Command(cmd)
    }

    /// Build a closure outcome from the handle under which the driver holds
    /// the captured computation.
    pub fn new_closure(handle: usize) -> (r: Self)
        ensures
            r@ == OutcomeModel::Closure(handle),
    {
        Outcome::Closure(handle)
    }

    /// A copy of this outcome with the same model.
    pub fn duplicate(&self) -> (r: Self)
        ensures
            r@ == self@,
    {
        match self {
            Outcome::Modify(h) => Outcome::Modify(*h),
            Outcome::Command(s) => Outcome::Command(s.clone()),
            Outcome::Closure(h) => Outcome::Closure(*h),
        }
    }
}

/// The pieces of `s` between single spaces, in order.  Splitting the empty
/// sequence gives one empty piece, and every space separates two pieces, so
/// the result always holds at least one piece.
pub open spec fn split_spaces(s: Seq<char>) -> Seq<Seq<char>>
    decreases s.len(),
{
    if s.len() == 0 {
        seq![Seq::<char>::empty()]
    } else if s.last() == ' ' {
        split_spaces(s.drop_last()).push(Seq::<char>::empty())
    } else {
        let r = split_spaces(s.drop_last());
        r.update(r.len() - 1, r.last().push(s.last()))
    }
}

/// Splitting never yields an empty piece list.
pub proof fn lemma_split_spaces_len(s: Seq<char>)
    ensures
        split_spaces(s).len() >= 1,
    decreases s.len(),
{
    if s.len() != 0 {
        lemma_split_spaces_len(s.drop_last());
    }
}

/// The argument vector of a command line: the command split on single
/// spaces, program name first.  This is the decision half of running an
/// external process; the driver hands the result to the operating system.
pub fn cmd_argv(cmd: &str) -> (r: Vec<String>)
    ensures
        r.deep_view() == split_spaces(cmd@),
        r.len() >= 1,
{
    let n: usize = cmd.unicode_len();
    let mut r: Vec<String> = Vec::new();
    let mut start: usize = 0;
    let mut i: usize = 0;
    while i < n
        invariant
            n == cmd@.len(),
            0 <= start <= i <= n,
            split_spaces(cmd@.take(i as int)) =~~= r.deep_view().push(
                cmd@.subrange(start as int, i as int),
            ),
        decreases n - i,
    {
        let c = cmd.get_char(i);
        proof {
            assert(cmd@.take(i + 1).drop_last() =~= cmd@.take(i as int));
        }
        if c == ' ' {
            let ghost prev = r.deep_view();
            let piece = cmd.substring_char(start, i).to_owned();
            r.push(piece);
            proof {
                assert(r.deep_view() =~= prev.push(cmd@.subrange(start as int, i as int)));
            }
            start = i + 1;
            proof {
                assert(cmd@.subrange(start as int, start as int) =~= Seq::<char>::empty());
            }
        } else {
            proof {
                lemma_split_spaces_len(cmd@.take(i as int));
                assert(cmd@.subrange(start as int, i as int).push(cmd@[i as int]) =~= cmd@
                    .subrange(start as int, i + 1));
            }
        }
        i = i + 1;
    }
    let ghost prev = r.deep_view();
    let piece = cmd.substring_char(start, n).to_owned();
    r.push(piece);
    proof {
        assert(r.deep_view() =~= prev.push(cmd@.subrange(start as int, n as int)));
        assert(cmd@.take(n as int) =~= cmd@);
    }
    r
}

} // verus!
