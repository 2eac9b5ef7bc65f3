//! The value side of running an external command: the invocation a
//! caller hands to the process-spawning shell around the library, the
//! human-readable trace line for it, and the folding of a finished
//! process's captured output into a success or failure value. The
//! spawning itself is input/output and stands outside the library; it
//! reports back with plain values that these functions judge.

use vstd::prelude::*;

use crate::text::trimmed;
use crate::text::trim;

verus! {

/// An external command to run: an executable name and its arguments as
/// discrete tokens. Arguments are never joined into a shell string for
/// execution, so whitespace inside an argument cannot split it.
#[derive(Debug)]
pub struct Invocation {
    pub program: String,
    pub args: Vec<String>,
}

impl View for Invocation {
    type V = (Seq<char>, Seq<Seq<char>>);

    open spec fn view(&self) -> (Seq<char>, Seq<Seq<char>>) {
        (self.program@, self.args.deep_view())
    }
}

/// Why running a command produced no usable output: the process could
/// not be started at all, or it exited with a non-zero status.
#[derive(Debug)]
pub enum CmdError {
    /// The executable was missing or not runnable; carries the operating
    /// system's description.
    SpawnFailed { message: String },
    /// The process ran and exited non-zero; carries the exit status and
    /// the trimmed captured standard error.
    CommandFailed { status: i32, stderr: String },
}

/// The given parts joined with single spaces, in order.
pub open spec fn joined_with_spaces(parts: Seq<Seq<char>>) -> Seq<char>
    decreases parts.len(),
{
    if parts.len() == 0 {
        Seq::empty()
    } else if parts.len() == 1 {
        parts[0]
    } else {
        parts[0] + seq![' '] + joined_with_spaces(parts.subrange(1, parts.len() as int))
    }
}

/// Joining one more part appends a space and that part.
proof fn lemma_join_push(parts: Seq<Seq<char>>, x: Seq<char>)
    ensures
        parts.len() == 0 ==> joined_with_spaces(parts.push(x)) == x,
        parts.len() > 0 ==> joined_with_spaces(parts.push(x)) =~= joined_with_spaces(parts)
            + seq![' '] + x,
    decreases parts.len(),
{
    let whole = parts.push(x);
    if parts.len() == 0 {
        assert(whole.len() == 1);
        assert(joined_with_spaces(whole) == whole[0]);
    } else {
        let tail = parts.subrange(1, parts.len() as int);
        lemma_join_push(tail, x);
        assert(whole.subrange(1, whole.len() as int) =~= tail.push(x));
        if parts.len() == 1 {
            assert(joined_with_spaces(whole) =~= parts[0] + seq![' '] + x);
        } else {
            assert(joined_with_spaces(whole) =~= parts[0] + seq![' '] + (joined_with_spaces(tail)
                + seq![' '] + x));
            assert(parts[0] + seq![' '] + (joined_with_spaces(tail) + seq![' '] + x) =~= (parts[0]
                + seq![' '] + joined_with_spaces(tail)) + seq![' '] + x);
        }
    }
}

/// Joins the given strings with single spaces.
fn join_with_spaces(parts: &Vec<String>) -> (r: String)
    ensures
        r@ == joined_with_spaces(parts.deep_view()),
{
    let n = parts.len();
    let mut acc = String::new();
    let mut i: usize = 0;
    proof {
        assert(parts.deep_view().subrange(0, 0) =~= Seq::<Seq<char>>::empty());
    }
    while i < n
        invariant
            0 <= i <= n,
            n == parts@.len(),
            parts.deep_view().len() == n,
            acc@ == joined_with_spaces(parts.deep_view().subrange(0, i as int)),
        decreases n - i,
    {
        if i > 0 {
            acc.append(" ");
            proof {
                reveal_strlit(" ");
                assert(" "@ =~= seq![' ']);
            }
        }
        acc.append(parts[i].as_str());
        proof {
            let dv = parts.deep_view();
            assert(dv[i as int] == parts@[i as int]@);
            assert(dv.subrange(0, i + 1) =~= dv.subrange(0, i as int).push(dv[i as int]));
            lemma_join_push(dv.subrange(0, i as int), dv[i as int]);
            assert(acc@ =~= joined_with_spaces(dv.subrange(0, i + 1)));
        }
        i = i + 1;
    }
    proof {
        assert(parts.deep_view().subrange(0, n as int) =~= parts.deep_view());
    }
    acc
}

/// The trace line for an invocation: the program name and its arguments,
/// space-separated.
pub open spec fn rendered_invocation(inv: (Seq<char>, Seq<Seq<char>>)) -> Seq<char> {
    if inv.1.len() == 0 {
        inv.0
    } else {
        inv.0 + seq![' '] + joined_with_spaces(inv.1)
    }
}

/// Renders the invocation for the trace that is printed before running
/// it: program and arguments, space-separated.
pub fn render_invocation(inv: &Invocation) -> (r: String)
    ensures
        r@ == rendered_invocation(inv@),
{
    let mut acc = inv.program.clone();
    if inv.args.len() > 0 {
        acc.append(" ");
        let joined = join_with_spaces(&inv.args);
        acc.append(joined.as_str());
        proof {
            reveal_strlit(" ");
            assert(" "@ =~= seq![' ']);
            assert(acc@ =~= rendered_invocation(inv@));
        }
    }
    acc
}

/// Folds a finished process's captured output into the runner's result:
/// on success the trimmed standard output, on a non-zero exit a
/// [`CmdError::CommandFailed`] carrying the exit status and the trimmed
/// standard error.
pub fn command_outcome(success: bool, status: i32, stdout: &str, stderr: &str) -> (r: Result<
    String,
    CmdError,
>)
    ensures
        success ==> (r matches Ok(out) && out@ == trimmed(stdout@)),
        !success ==> (r matches Err(CmdError::CommandFailed { status: st, stderr: se }) && st
            == status && se@ == trimmed(stderr@)),
{
    if success {
        Ok(trim(stdout))
    } else {
        Err(CmdError::CommandFailed { status, stderr: trim(stderr) })
    }
}

} // verus!
