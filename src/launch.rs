//! What one launch of a child consists of, decided from its process record.
//!
//! Standard input is always the null device: a child never receives input.
//! Each output stream goes to the null device or is appended to a file, as
//! the record says; such a file is created if missing, opened just before
//! the spawn and released once the child is reaped.
use vstd::prelude::*;
use crate::args::strings_view;
use crate::process::{Process, StreamTarget, TargetModel, opt_view};

verus! {

/// Where a child's standard input comes from.
#[derive(PartialEq, Eq, Structural, Clone, Copy, Debug)]
pub enum InputSource {
    /// The null device: the child never receives input.
    Null,
}

/// Everything needed to start one child instance.
#[derive(Clone, Debug, PartialEq, Eq)]
pub struct LaunchPlan {
    pub program: String,
    pub args: Vec<String>,
    /// The working directory; `None` inherits the supervisor's.
    pub cwd: Option<String>,
    pub stdin: InputSource,
    pub stdout: StreamTarget,
    pub stderr: StreamTarget,
}

/// The view of a `LaunchPlan`.
pub struct LaunchPlanModel {
    pub program: Seq<char>,
    pub args: Seq<Seq<char>>,
    pub cwd: Option<Seq<char>>,
    pub stdin: InputSource,
    pub stdout: TargetModel,
    pub stderr: TargetModel,
}

impl View for LaunchPlan {
    type V = LaunchPlanModel;

    open spec fn view(&self) -> LaunchPlanModel {
        LaunchPlanModel {
            program: self.program@,
            args: strings_view(self.args@),
            cwd: opt_view(self.cwd),
            stdin: self.stdin,
            stdout: self.stdout@,
            stderr: self.stderr@,
        }
    }
}

/// A copy of a list of strings.
fn copy_strings(v: &Vec<String>) -> (r: Vec<String>)
    ensures
        strings_view(r@) == strings_view(v@),
{
    let mut out: Vec<String> = Vec::new();
    let mut i: usize = 0;
    while i < v.len()
        invariant
            i <= v.len(),
            strings_view(out@) == strings_view(v@).take(i as int),
        decreases v.len() - i,
    {
        let ghost before = out@;
        out.push(v[i].clone());
        assert(strings_view(out@) =~= strings_view(v@).take(i + 1)) by {
            assert(strings_view(out@) =~= strings_view(before).push(v@[i as int]@));
        }
        i = i + 1;
    }
    assert(strings_view(v@).take(v.len() as int) =~= strings_view(v@));
    out
}

/// A copy of a stream target.
fn copy_target(t: &StreamTarget) -> (r: StreamTarget)
    ensures
        r@ == t@,
{
    match t {
        StreamTarget::Discard => StreamTarget::Discard,
        StreamTarget::Append(p) => StreamTarget::Append(p.clone()),
    }
}

/// The plan for launching `p`: its executable, its arguments in order, its
/// working directory if set, standard input from the null device, and the
/// disposition of its two output streams.
pub fn launch_plan(p: &Process) -> (r: LaunchPlan)
    ensures
        r@ == (LaunchPlanModel {
            program: p@.path,
            args: p@.args,
            cwd: p@.cwd,
            stdin: InputSource::Null,
            stdout: p@.stdout_target,
            stderr: p@.stderr_target,
        }),
{
    let cwd = match &p.cwd {
        Some(c) => Some(c.clone()),
        None => None,
    };
    LaunchPlan {
        program: p.path.clone(),
        args: copy_strings(&p.args),
        cwd,
        stdin: InputSource::Null,
        stdout: copy_target(&p.stdout_target),
        stderr: copy_target(&p.stderr_target),
    }
}

/// The line announcing that `name` is being started.
pub fn start_notice(name: &str) -> (r: String)
    ensures
        r@ == "starting process "@ + name@,
{
    let line = String::from_str("starting process ");
    line.concat(name)
}

} // verus!
