//! Commands for the system to run, and what it says of how they ran.

use crate::text::texts;
use vstd::prelude::*;
use vstd::string::*;

verus! {

/// A program to run, with its arguments.
#[derive(Debug)]
pub struct Invocation {
    pub program: String,
    pub args: Vec<String>,
}

/// The mathematical value of an [`Invocation`].
pub struct InvocationView {
    pub program: Seq<char>,
    pub args: Seq<Seq<char>>,
}

impl View for Invocation {
    type V = InvocationView;

    open spec fn view(&self) -> InvocationView {
        InvocationView { program: self.program@, args: texts(self.args@) }
    }
}

/// One step of a plan: a command, and whether the plan goes on when the
/// command fails.
#[derive(Debug)]
pub struct Step {
    pub invocation: Invocation,
    pub must_succeed: bool,
}

/// The mathematical value of a [`Step`].
pub struct StepView {
    pub invocation: InvocationView,
    pub must_succeed: bool,
}

impl View for Step {
    type V = StepView;

    open spec fn view(&self) -> StepView {
        StepView { invocation: self.invocation@, must_succeed: self.must_succeed }
    }
}

/// The mathematical values of a plan.
pub open spec fn steps_view(steps: Seq<Step>) -> Seq<StepView> {
    steps.map_values(|s: Step| s@)
}

/// How a command ran.
#[derive(Debug)]
pub struct Output {
    pub success: bool,
    pub stdout: String,
    pub stderr: String,
}

/// The texts of a list of string slices.
pub open spec fn slices(list: Seq<&str>) -> Seq<Seq<char>> {
    list.map_values(|s: &str| s@)
}

/// Owned copies of a list of texts.
pub fn owned(list: &[&str]) -> (out: Vec<String>)
    ensures
        texts(out@) == slices(list@),
{
    let mut out: Vec<String> = Vec::new();
    let mut i: usize = 0;
    while i < list.len()
        invariant
            i <= list@.len(),
            texts(out@) == slices(list@).take(i as int),
        decreases list@.len() - i,
    {
        let ghost before = texts(out@);
        let item = String::from_str(list[i]);
        let ghost text = item@;
        out.push(item);
        assert(texts(out@) =~= before.push(text));
        assert(slices(list@).take(i + 1) =~= slices(list@).take(i as int).push(list@[i as int]@));
        i = i + 1;
    }
    assert(slices(list@).take(i as int) =~= slices(list@));
    out
}

/// The command that runs `program` with `args`.
pub fn invoke(program: &str, args: &[&str]) -> (invocation: Invocation)
    ensures
        invocation@ == (InvocationView { program: program@, args: slices(args@) }),
{
    Invocation { program: String::from_str(program), args: owned(args) }
}

/// `prefix` followed by `detail`.
pub fn prefixed(prefix: &str, detail: &str) -> (text: String)
    ensures
        text@ == prefix@ + detail@,
{
    let mut text = String::from_str(prefix);
    text.append(detail);
    text
}

} // verus!
