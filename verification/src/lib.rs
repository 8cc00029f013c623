//! Core of a sandboxed build/judging pipeline: the build driver that walks a
//! toolchain's commands inside an isolated environment and reduces their
//! outcomes to one terminal status, the task sources that discover units of
//! work and record their terminal reports, and the request front door's
//! response policy.

use vstd::prelude::*;

pub mod cli_source;
pub mod db_source;
pub mod driver;
pub mod server;
pub mod sandbox;
pub mod text;

verus! {

/// A terminal category for one build attempt.
#[derive(Clone, Copy, PartialEq, Eq, Structural, Debug)]
pub enum StatusKind {
    NotSet,
    CompilationError,
}

/// Outcome of one build attempt: a category and a short machine-readable label.
#[derive(Clone, Debug)]
pub struct Status {
    pub kind: StatusKind,
    pub code: String,
}

impl Status {
    /// Every command exited zero: the submission is built.
    pub fn built() -> (r: Status)
        ensures
            r.kind == StatusKind::NotSet,
            r.code@ == "BUILT"@,
    {
        Status { kind: StatusKind::NotSet, code: "BUILT".to_owned() }
    }

    /// A command exited with a nonzero code.
    pub fn compiler_failed() -> (r: Status)
        ensures
            r.kind == StatusKind::CompilationError,
            r.code@ == "COMPILER_FAILED"@,
    {
        Status { kind: StatusKind::CompilationError, code: "COMPILER_FAILED".to_owned() }
    }

    /// A command overran the per-command ceiling and was killed.
    pub fn compilation_timed_out() -> (r: Status)
        ensures
            r.kind == StatusKind::CompilationError,
            r.code@ == "COMPILATION_TIMED_OUT"@,
    {
        Status { kind: StatusKind::CompilationError, code: "COMPILATION_TIMED_OUT".to_owned() }
    }

    /// The submission names a toolchain the configuration does not hold.
    pub fn unknown_toolchain() -> (r: Status)
        ensures
            r.kind == StatusKind::CompilationError,
            r.code@ == "UNKNOWN_TOOLCHAIN"@,
    {
        Status { kind: StatusKind::CompilationError, code: "UNKNOWN_TOOLCHAIN".to_owned() }
    }
}

/// A terminal status, as a copyable tag. `render` yields the corresponding
/// kind/label record.
#[derive(Clone, Copy, PartialEq, Eq, Structural, Debug)]
pub enum StatusCode {
    Built,
    CompilerFailed,
    CompilationTimedOut,
    UnknownToolchain,
}

/// The kind a status tag renders to.
pub open spec fn kind_of(c: StatusCode) -> StatusKind {
    match c {
        StatusCode::Built => StatusKind::NotSet,
        _ => StatusKind::CompilationError,
    }
}

/// The machine-readable label a status tag renders to.
pub open spec fn label_of(c: StatusCode) -> Seq<char> {
    match c {
        StatusCode::Built => "BUILT"@,
        StatusCode::CompilerFailed => "COMPILER_FAILED"@,
        StatusCode::CompilationTimedOut => "COMPILATION_TIMED_OUT"@,
        StatusCode::UnknownToolchain => "UNKNOWN_TOOLCHAIN"@,
    }
}

/// `s` carries exactly the given kind and label.
pub open spec fn status_is(s: Status, c: StatusCode) -> bool {
    s.kind == kind_of(c) && s.code@ == label_of(c)
}

impl StatusCode {
    pub fn render(self) -> (r: Status)
        ensures
            status_is(r, self),
    {
        match self {
            StatusCode::Built => Status::built(),
            StatusCode::CompilerFailed => Status::compiler_failed(),
            StatusCode::CompilationTimedOut => Status::compilation_timed_out(),
            StatusCode::UnknownToolchain => Status::unknown_toolchain(),
        }
    }
}

/// One unit of build/judge work handed from a task source to the controller.
#[derive(Clone, Debug)]
pub struct InvokeTask {
    pub revision: u32,
    pub toolchain_id: String,
    pub problem_id: String,
    pub invocation_id: u32,
    pub run_dir: String,
    pub invocation_dir: String,
}

/// The terminal outcome of one invocation, as reported to its task source.
#[derive(Clone, Copy, PartialEq, Eq, Structural, Debug)]
pub enum InvocationFinishReason {
    CompileError,
    Fault,
    JudgeDone,
}

/// The terminal reason the controller reports for a build status: a
/// compilation-error status is a compile error; everything else judged
/// through is done.
pub fn finish_reason_for(status: &Status) -> (r: InvocationFinishReason)
    ensures
        r == (if status.kind == StatusKind::CompilationError {
            InvocationFinishReason::CompileError
        } else {
            InvocationFinishReason::JudgeDone
        }),
{
    match status.kind {
        StatusKind::CompilationError => InvocationFinishReason::CompileError,
        StatusKind::NotSet => InvocationFinishReason::JudgeDone,
    }
}

} // verus!
