//! The build driver: walks a toolchain's build commands in order inside one
//! isolated environment and reduces the per-command wait outcomes to a single
//! terminal status. The operating-system backend performs the actual spawn,
//! wait and kill; this module decides, for each observed outcome, whether to
//! go on, stop with a status, or kill first.

use vstd::prelude::*;
use crate::sandbox::{ChildProcessOptions, Dominion, DominionOptions, InputSpecification,
    OutputSpecification, TimeSpan};
use crate::text::{dec_str, u32_to_string};
use crate::{Status, StatusCode, status_is};

verus! {

/// One build command: an argv vector whose head is the executable.
#[derive(Clone, Debug)]
pub struct Command {
    pub argv: Vec<String>,
}

/// A named, ordered sequence of build commands.
#[derive(Clone, Debug)]
pub struct Toolchain {
    pub name: String,
    pub build_commands: Vec<Command>,
}

/// The configuration set toolchains are looked up in.
#[derive(Clone, Debug)]
pub struct Config {
    pub sysroot: String,
    pub toolchains: Vec<Toolchain>,
}

/// A piece of submitted work: an id and the name of the toolchain to build
/// it with.
#[derive(Clone, Debug)]
pub struct Submission {
    pub id: u32,
    pub toolchain_name: String,
}

/// Every command of the toolchain names an executable.
pub open spec fn toolchain_wf(t: Toolchain) -> bool {
    forall|i: int| 0 <= i < t.build_commands@.len() ==> t.build_commands@[i].argv@.len() >= 1
}

/// What a bounded wait on a spawned command reports.
#[derive(Clone, Copy, PartialEq, Eq, Structural, Debug)]
pub enum WaitOutcome {
    Exited(i32),
    Timeout,
    AlreadyFinished,
}

/// The per-command wait ceiling, in seconds: how long the driver waits on
/// one spawned command before killing it. Independent of the dominion's own
/// wall-clock limit.
pub const PER_COMMAND_WAIT_SECS: u64 = 3;

/// A command outcome lets the build go on only when it is a zero exit.
pub open spec fn cmd_ok(o: WaitOutcome) -> bool {
    o == WaitOutcome::Exited(0i32)
}

/// The index of the first outcome in `[i, n)` that stops the build, or `n`
/// when every one of them is a zero exit.
pub open spec fn stop_from(outs: Seq<WaitOutcome>, i: int, n: int) -> int
    decreases n - i,
{
    if i < 0 || n <= i {
        n
    } else if !cmd_ok(outs[i]) {
        i
    } else {
        stop_from(outs, i + 1, n)
    }
}

/// `stop_from` is pinned by a prefix of zero exits followed by a stopping
/// outcome (or by the end of the command list).
proof fn lemma_stop_from_pinned(outs: Seq<WaitOutcome>, j: int, i: int, n: int)
    requires
        0 <= j <= i <= n,
        forall|k: int| j <= k < i ==> cmd_ok(outs[k]),
        i < n ==> !cmd_ok(outs[i]),
    ensures
        stop_from(outs, j, n) == i,
    decreases i - j,
{
    if j < i {
        lemma_stop_from_pinned(outs, j + 1, i, n);
    }
}

/// Waiting on a process that was already waited on is a logic error inside
/// the driver, reported as an internal fault rather than a user-facing status.
#[derive(Clone, Copy, PartialEq, Eq, Structural, Debug)]
pub struct BuildFault;

/// What the driver asks its caller to do next.
#[derive(Clone, Copy, PartialEq, Eq, Structural, Debug)]
pub enum BuildStep {
    /// Spawn the command with this index and wait on it.
    Spawn(usize),
    /// The build is over with this status.
    Finish(StatusCode),
    /// An internal fault was observed; no user-facing status exists.
    Fault,
}

/// The sequential driver for one submission's build: commands are spawned in
/// declared order, and the first stopping outcome is terminal.
#[derive(Clone, Copy, PartialEq, Eq, Structural, Debug)]
pub struct BuildDriver {
    /// How many commands the toolchain declares.
    pub total: usize,
    /// The index of the next command to spawn; also how many were spawned.
    pub next: usize,
    /// The terminal status, once one is decided.
    pub finished: Option<StatusCode>,
    /// How many kill calls were issued.
    pub kills: usize,
    /// An already-waited-on process was observed.
    pub fault: bool,
}

impl BuildDriver {
    pub open spec fn wf(self) -> bool {
        &&& self.next <= self.total
        &&& self.kills <= self.next
    }

    pub fn new(total: usize) -> (r: BuildDriver)
        ensures
            r == (BuildDriver { total, next: 0, finished: None::<StatusCode>, kills: 0, fault: false }),
    {
        BuildDriver { total, next: 0, finished: None, kills: 0, fault: false }
    }

    /// The next action: report a decided status, spawn the next command, or
    /// report success once every command was spawned and exited zero.
    pub fn next_step(&self) -> (r: BuildStep)
        requires
            self.wf(),
        ensures
            r == (if self.fault {
                BuildStep::Fault
            } else {
                match self.finished {
                    Some(c) => BuildStep::Finish(c),
                    None => if self.next < self.total {
                        BuildStep::Spawn(self.next)
                    } else {
                        BuildStep::Finish(StatusCode::Built)
                    },
                }
            }),
    {
        if self.fault {
            BuildStep::Fault
        } else {
            match self.finished {
                Some(c) => BuildStep::Finish(c),
                None => {
                    if self.next < self.total {
                        BuildStep::Spawn(self.next)
                    } else {
                        BuildStep::Finish(StatusCode::Built)
                    }
                }
            }
        }
    }

    /// Consumes the wait outcome of the command just spawned. Returns whether
    /// the caller must kill the still-running process (exactly on a timeout).
    /// A nonzero exit or a timeout decides the terminal status; a zero exit
    /// moves on to the next command.
    pub fn on_outcome(&mut self, o: WaitOutcome) -> (kill: bool)
        requires
            old(self).wf(),
            !old(self).fault,
            old(self).finished is None,
            old(self).next < old(self).total,
        ensures
            final(self).wf(),
            final(self).total == old(self).total,
            final(self).next == old(self).next + 1,
            kill == (o == WaitOutcome::Timeout),
            final(self).kills == old(self).kills + (if o == WaitOutcome::Timeout { 1int } else { 0 }),
            final(self).finished == (match o {
                WaitOutcome::Exited(c) => if c == 0 {
                    None::<StatusCode>
                } else {
                    Some(StatusCode::CompilerFailed)
                },
                WaitOutcome::Timeout => Some(StatusCode::CompilationTimedOut),
                WaitOutcome::AlreadyFinished => None::<StatusCode>,
            }),
            final(self).fault == (o == WaitOutcome::AlreadyFinished),
    {
        self.next = self.next + 1;
        match o {
            WaitOutcome::Exited(c) => {
                if c != 0 {
                    self.finished = Some(StatusCode::CompilerFailed);
                }
                false
            }
            WaitOutcome::Timeout => {
                self.finished = Some(StatusCode::CompilationTimedOut);
                self.kills = self.kills + 1;
                true
            }
            WaitOutcome::AlreadyFinished => {
                self.fault = true;
                false
            }
        }
    }

    /// What a `BuildStep::Spawn(self.next)` means: spawn the next command
    /// with its argv head as the executable, the rest as arguments, empty
    /// stdin, ignored stdout and stderr, the root directory as working
    /// directory, inside the given dominion — and wait on it up to the
    /// per-command ceiling.
    pub fn spawn_options(&self, toolchain: &Toolchain, dominion: Dominion) -> (r: (
        ChildProcessOptions,
        TimeSpan,
    ))
        requires
            self.wf(),
            self.next < toolchain.build_commands@.len(),
            toolchain_wf(*toolchain),
        ensures
            ({
                let cmd = toolchain.build_commands@[self.next as int];
                &&& r.0.path@ == cmd.argv@[0]@
                &&& r.0.arguments@.len() == cmd.argv@.len() - 1
                &&& (forall|i: int| 0 <= i < r.0.arguments@.len() ==>
                    r.0.arguments@[i]@ == cmd.argv@[i + 1]@)
                &&& r.0.environment@ == Seq::<(String, String)>::empty()
                &&& r.0.dominion == dominion
                &&& r.0.stdio.stdin == InputSpecification::Empty
                &&& r.0.stdio.stdout == OutputSpecification::Ignore
                &&& r.0.stdio.stderr == OutputSpecification::Ignore
                &&& r.0.pwd@ == "/"@
                &&& r.1 == (TimeSpan { secs: PER_COMMAND_WAIT_SECS, nanos: 0 })
            }),
    {
        let opts = command_child_options(&toolchain.build_commands[self.next], dominion);
        (opts, TimeSpan { secs: PER_COMMAND_WAIT_SECS, nanos: 0 })
    }
}

/// The reduction of one build attempt: its terminal status, how many
/// commands were spawned, and how many kill calls were issued.
#[derive(Clone, Debug)]
pub struct BuildReport {
    pub status: Status,
    pub spawned: usize,
    pub kills: usize,
}

/// Runs the driver over the toolchain's commands, reading the outcome of the
/// `i`-th spawned command from `outcomes[i]`.
///
/// With `k` the position of the first outcome that is not a zero exit:
/// every command up to and including `k` is spawned and none after it; all
/// zero exits yield the success status; a nonzero exit at `k` yields
/// `COMPILER_FAILED`; a timeout at `k` yields `COMPILATION_TIMED_OUT` with
/// exactly one kill; an already-waited-on report at `k` is an internal fault.
pub fn run_build(toolchain: &Toolchain, outcomes: &Vec<WaitOutcome>) -> (r: Result<
    BuildReport,
    BuildFault,
>)
    requires
        outcomes@.len() >= toolchain.build_commands@.len(),
    ensures
        ({
            let n = toolchain.build_commands@.len() as int;
            let k = stop_from(outcomes@, 0, n);
            match r {
                Ok(rep) => {
                    &&& !(k < n && outcomes@[k] == WaitOutcome::AlreadyFinished)
                    &&& rep.spawned == (if k < n { k + 1 } else { n })
                    &&& (k == n ==> status_is(rep.status, StatusCode::Built) && rep.kills == 0)
                    &&& (k < n && outcomes@[k] == WaitOutcome::Timeout ==> status_is(
                        rep.status,
                        StatusCode::CompilationTimedOut,
                    ) && rep.kills == 1)
                    &&& (k < n && outcomes@[k] is Exited && outcomes@[k]->Exited_0 != 0 ==>
                        status_is(rep.status, StatusCode::CompilerFailed) && rep.kills == 0)
                }
                Err(_) => k < n && outcomes@[k] == WaitOutcome::AlreadyFinished,
            }
        }),
{
    let n = toolchain.build_commands.len();
    let mut driver = BuildDriver::new(n);
    while driver.next < n && !driver.fault && driver.finished.is_none()
        invariant
            n == toolchain.build_commands@.len(),
            n <= outcomes@.len(),
            driver.total == n,
            driver.wf(),
            driver.finished is None || driver.finished == Some(StatusCode::CompilerFailed)
                || driver.finished == Some(StatusCode::CompilationTimedOut),
            !driver.fault && driver.finished is None ==> {
                &&& (forall|j: int| 0 <= j < driver.next ==> cmd_ok(outcomes@[j]))
                &&& driver.kills == 0
            },
            driver.fault ==> {
                &&& 1 <= driver.next
                &&& (forall|j: int| 0 <= j < driver.next - 1 ==> cmd_ok(outcomes@[j]))
                &&& outcomes@[driver.next - 1] == WaitOutcome::AlreadyFinished
                &&& driver.kills == 0
                &&& driver.finished is None
            },
            driver.finished == Some(StatusCode::CompilerFailed) ==> {
                &&& !driver.fault
                &&& 1 <= driver.next
                &&& (forall|j: int| 0 <= j < driver.next - 1 ==> cmd_ok(outcomes@[j]))
                &&& (outcomes@[driver.next - 1] is Exited && outcomes@[driver.next - 1]->Exited_0 != 0)
                &&& driver.kills == 0
            },
            driver.finished == Some(StatusCode::CompilationTimedOut) ==> {
                &&& !driver.fault
                &&& 1 <= driver.next
                &&& (forall|j: int| 0 <= j < driver.next - 1 ==> cmd_ok(outcomes@[j]))
                &&& outcomes@[driver.next - 1] == WaitOutcome::Timeout
                &&& driver.kills == 1
            },
        decreases n - driver.next,
    {
        let o = outcomes[driver.next];
        let _kill = driver.on_outcome(o);
    }
    let ghost n_int = n as int;
    if driver.fault {
        proof {
            lemma_stop_from_pinned(outcomes@, 0, driver.next - 1, n_int);
        }
        Err(BuildFault)
    } else {
        match driver.finished {
            None => {
                proof {
                    lemma_stop_from_pinned(outcomes@, 0, n_int, n_int);
                }
                Ok(BuildReport { status: StatusCode::Built.render(), spawned: driver.next, kills: driver.kills })
            }
            Some(c) => {
                proof {
                    lemma_stop_from_pinned(outcomes@, 0, driver.next - 1, n_int);
                }
                Ok(BuildReport { status: c.render(), spawned: driver.next, kills: driver.kills })
            }
        }
    }
}

/// The first toolchain of the configuration whose name is the one looked up,
/// if any.
pub open spec fn toolchain_lookup(ts: Seq<Toolchain>, name: Seq<char>) -> Option<Toolchain>
    decreases ts.len(),
{
    if ts.len() == 0 {
        None
    } else if ts[0].name@ == name {
        Some(ts[0])
    } else {
        toolchain_lookup(ts.drop_first(), name)
    }
}

/// A miss at every index up to `i` answers as the suffix from `i` does.
proof fn lemma_toolchain_lookup_skip(ts: Seq<Toolchain>, i: int, name: Seq<char>)
    requires
        0 <= i <= ts.len(),
        forall|j: int| 0 <= j < i ==> ts[j].name@ != name,
    ensures
        toolchain_lookup(ts, name) == toolchain_lookup(ts.skip(i), name),
    decreases i,
{
    if i > 0 {
        assert(ts.drop_first().skip(i - 1) =~= ts.skip(i));
        lemma_toolchain_lookup_skip(ts.drop_first(), i - 1, name);
    } else {
        assert(ts.skip(0) =~= ts);
    }
}

/// Resolves the submission's toolchain by name; absence is recoverable, not
/// a crash.
pub fn get_toolchain<'a>(submission: &Submission, cfg: &'a Config) -> (r: Option<&'a Toolchain>)
    ensures
        match r {
            Some(t) => toolchain_lookup(cfg.toolchains@, submission.toolchain_name@) == Some(*t),
            None => toolchain_lookup(cfg.toolchains@, submission.toolchain_name@) is None,
        },
{
    let n = cfg.toolchains.len();
    let mut i: usize = 0;
    while i < n
        invariant
            n == cfg.toolchains@.len(),
            i <= n,
            forall|j: int| 0 <= j < i ==> cfg.toolchains@[j].name@ != submission.toolchain_name@,
        decreases n - i,
    {
        if crate::sandbox::string_eq(&cfg.toolchains[i].name, &submission.toolchain_name) {
            proof {
                lemma_toolchain_lookup_skip(cfg.toolchains@, i as int, submission.toolchain_name@);
                assert(cfg.toolchains@.skip(i as int)[0] == cfg.toolchains@[i as int]);
            }
            return Some(&cfg.toolchains[i]);
        }
        i += 1;
    }
    proof {
        lemma_toolchain_lookup_skip(cfg.toolchains@, n as int, submission.toolchain_name@);
        assert(cfg.toolchains@.skip(n as int) =~= Seq::<Toolchain>::empty());
    }
    None
}

/// The deterministic isolation root for one submission's build, keyed by the
/// system root and the submission id.
pub fn isolation_root_for(sysroot: &str, submission_id: u32) -> (r: String)
    ensures
        r@ == sysroot@ + "/var/jjs/build/s-"@ + dec_str(submission_id as nat),
{
    let mut root = sysroot.to_owned();
    root.append("/var/jjs/build/s-");
    let id = u32_to_string(submission_id);
    root.append(id.as_str());
    root
}

/// The environment one submission's build runs in: no network, no incidental
/// filesystem I/O, a bounded process count, a one-second wall-clock limit,
/// and the dedicated isolation root.
pub fn build_dominion_options(isolation_root: String) -> (r: DominionOptions)
    ensures
        !r.allow_network,
        !r.allow_file_io,
        r.max_alive_process_count == 16,
        r.memory_limit == 0,
        r.time_limit == (TimeSpan { secs: 1, nanos: 0 }),
        r.isolation_root == isolation_root,
        r.exposed_paths@ == Seq::<String>::empty(),
{
    DominionOptions {
        allow_network: false,
        allow_file_io: false,
        max_alive_process_count: 16,
        memory_limit: 0,
        time_limit: TimeSpan::from_millis(1000),
        isolation_root,
        exposed_paths: Vec::new(),
    }
}

/// How one build command is spawned: its argv head as the executable, the
/// rest as arguments, empty stdin, ignored stdout and stderr, and the root
/// directory as working directory.
pub fn command_child_options(cmd: &Command, dominion: Dominion) -> (r: ChildProcessOptions)
    requires
        cmd.argv@.len() >= 1,
    ensures
        r.path@ == cmd.argv@[0]@,
        r.arguments@.len() == cmd.argv@.len() - 1,
        forall|i: int| 0 <= i < r.arguments@.len() ==> r.arguments@[i]@ == cmd.argv@[i + 1]@,
        r.environment@ == Seq::<(String, String)>::empty(),
        r.dominion == dominion,
        r.stdio.stdin == InputSpecification::Empty,
        r.stdio.stdout == OutputSpecification::Ignore,
        r.stdio.stderr == OutputSpecification::Ignore,
        r.pwd@ == "/"@,
{
    let mut arguments: Vec<String> = Vec::new();
    let n = cmd.argv.len();
    let mut i: usize = 1;
    while i < n
        invariant
            1 <= i <= n,
            n == cmd.argv@.len(),
            arguments@.len() == i - 1,
            forall|j: int| 0 <= j < arguments@.len() ==> arguments@[j]@ == cmd.argv@[j + 1]@,
        decreases n - i,
    {
        arguments.push(cmd.argv[i].clone());
        i += 1;
    }
    ChildProcessOptions {
        path: cmd.argv[0].clone(),
        arguments,
        environment: Vec::new(),
        dominion,
        stdio: crate::sandbox::StdioSpecification {
            stdin: InputSpecification::Empty,
            stdout: OutputSpecification::Ignore,
            stderr: OutputSpecification::Ignore,
        },
        pwd: "/".to_owned(),
    }
}

/// Builds one submission: resolves its toolchain (an unknown toolchain is an
/// immediate `UNKNOWN_TOOLCHAIN` status with nothing spawned), then runs the
/// driver over the toolchain's commands and the observed outcomes.
pub fn build(submission: &Submission, cfg: &Config, outcomes: &Vec<WaitOutcome>) -> (r: Result<
    BuildReport,
    BuildFault,
>)
    requires
        (toolchain_lookup(cfg.toolchains@, submission.toolchain_name@) matches Some(t) ==>
            outcomes@.len() >= t.build_commands@.len()),
    ensures
        match toolchain_lookup(cfg.toolchains@, submission.toolchain_name@) {
            None => r matches Ok(rep) && status_is(rep.status, StatusCode::UnknownToolchain)
                && rep.spawned == 0 && rep.kills == 0,
            Some(t) => ({
                let n = t.build_commands@.len() as int;
                let k = stop_from(outcomes@, 0, n);
                match r {
                    Ok(rep) => {
                        &&& !(k < n && outcomes@[k] == WaitOutcome::AlreadyFinished)
                        &&& rep.spawned == (if k < n { k + 1 } else { n })
                        &&& (k == n ==> status_is(rep.status, StatusCode::Built) && rep.kills == 0)
                        &&& (k < n && outcomes@[k] == WaitOutcome::Timeout ==> status_is(
                            rep.status,
                            StatusCode::CompilationTimedOut,
                        ) && rep.kills == 1)
                        &&& (k < n && outcomes@[k] is Exited && outcomes@[k]->Exited_0 != 0 ==>
                            status_is(rep.status, StatusCode::CompilerFailed) && rep.kills == 0)
                    }
                    Err(_) => k < n && outcomes@[k] == WaitOutcome::AlreadyFinished,
                }
            }),
        },
{
    let toolchain = get_toolchain(submission, cfg);
    match toolchain {
        None => Ok(BuildReport {
            status: StatusCode::UnknownToolchain.render(),
            spawned: 0,
            kills: 0,
        }),
        Some(t) => run_build(t, outcomes),
    }
}

/// Judges one submission under the minimal policy: the build status is the
/// verdict.
pub fn judge(submission: &Submission, cfg: &Config, outcomes: &Vec<WaitOutcome>) -> (r: Result<
    Status,
    BuildFault,
>)
    requires
        (toolchain_lookup(cfg.toolchains@, submission.toolchain_name@) matches Some(t) ==>
            outcomes@.len() >= t.build_commands@.len()),
    ensures
        match toolchain_lookup(cfg.toolchains@, submission.toolchain_name@) {
            None => r matches Ok(s) && status_is(s, StatusCode::UnknownToolchain),
            Some(t) => ({
                let n = t.build_commands@.len() as int;
                let k = stop_from(outcomes@, 0, n);
                match r {
                    Ok(s) => {
                        &&& !(k < n && outcomes@[k] == WaitOutcome::AlreadyFinished)
                        &&& (k == n ==> status_is(s, StatusCode::Built))
                        &&& (k < n && outcomes@[k] == WaitOutcome::Timeout ==> status_is(
                            s,
                            StatusCode::CompilationTimedOut,
                        ))
                        &&& (k < n && outcomes@[k] is Exited && outcomes@[k]->Exited_0 != 0 ==>
                            status_is(s, StatusCode::CompilerFailed))
                    }
                    Err(_) => k < n && outcomes@[k] == WaitOutcome::AlreadyFinished,
                }
            }),
        },
{
    match build(submission, cfg, outcomes) {
        Ok(rep) => Ok(rep.status),
        Err(f) => Err(f),
    }
}

/// Law: a run whose every outcome is a zero exit stops nowhere, so the
/// driver spawns every command and, by `run_build`'s contract, reports the
/// success status with no kill.
pub proof fn all_zero_exits_build(outs: Seq<WaitOutcome>, n: int)
    requires
        0 <= n,
        forall|j: int| 0 <= j < n ==> cmd_ok(outs[j]),
    ensures
        stop_from(outs, 0, n) == n,
{
    lemma_stop_from_pinned(outs, 0, n, n);
}

/// Law: with the first nonzero exit at position `k`, the stop position is
/// `k`, so by `run_build`'s contract exactly `k + 1` commands are spawned
/// and the status label is `COMPILER_FAILED`.
pub proof fn first_nonzero_exit_stops(outs: Seq<WaitOutcome>, n: int, k: int)
    requires
        0 <= k < n,
        forall|j: int| 0 <= j < k ==> cmd_ok(outs[j]),
        outs[k] is Exited && outs[k]->Exited_0 != 0,
    ensures
        stop_from(outs, 0, n) == k,
{
    lemma_stop_from_pinned(outs, 0, k, n);
}

/// Law: with the first stopping outcome a timeout at position `k`, the stop
/// position is `k`, so by `run_build`'s contract the timed-out process is
/// killed exactly once, the status label is `COMPILATION_TIMED_OUT`, and no
/// later command is spawned.
pub proof fn timeout_stops_and_kills(outs: Seq<WaitOutcome>, n: int, k: int)
    requires
        0 <= k < n,
        forall|j: int| 0 <= j < k ==> cmd_ok(outs[j]),
        outs[k] == WaitOutcome::Timeout,
    ensures
        stop_from(outs, 0, n) == k,
{
    lemma_stop_from_pinned(outs, 0, k, n);
}

} // verus!
