use invoker_core::cli_source::{BackgroundSource, CliInvokeTask, CliSource, convert_task};
use invoker_core::db_source::{DbModel, DbSource, InvocationRow, InvocationState, RunRow,
    WINDOW_SIZE, WINDOW_STEP, DbError};
use invoker_core::driver::{build, command_child_options, get_toolchain, isolation_root_for,
    run_build, BuildDriver, BuildStep, Command, Config, Submission, Toolchain, WaitOutcome};
use invoker_core::sandbox::{ChildProcessOptions, Dominion, DominionOptions, InputSpecification,
    OutputSpecification, StdioMember, TimeSpan};
use invoker_core::server::{address_from_parts, parse_listen_address, route_exec, route_ready,
    AddressError, ListenAddress, UrlParts};
use invoker_core::text::u32_to_string;
use invoker_core::{finish_reason_for, InvocationFinishReason, Status, StatusKind};

fn tc(cmds: Vec<Vec<&str>>) -> Toolchain {
    Toolchain {
        name: "gcc".to_string(),
        build_commands: cmds
            .into_iter()
            .map(|argv| Command { argv: argv.into_iter().map(|s| s.to_string()).collect() })
            .collect(),
    }
}

#[test]
fn all_zero_exits_give_built() {
    let t = tc(vec![vec!["true"], vec!["make"]]);
    let outcomes = vec![WaitOutcome::Exited(0), WaitOutcome::Exited(0)];
    let rep = run_build(&t, &outcomes).unwrap();
    assert_eq!(rep.status.kind, StatusKind::NotSet);
    assert_eq!(rep.status.code, "BUILT");
    assert_eq!(rep.spawned, 2);
    assert_eq!(rep.kills, 0);
}

#[test]
fn nonzero_exit_stops_after_k_plus_one_spawns() {
    let t = tc(vec![vec!["a"], vec!["false"], vec!["never"]]);
    let outcomes = vec![WaitOutcome::Exited(0), WaitOutcome::Exited(1), WaitOutcome::Exited(0)];
    let rep = run_build(&t, &outcomes).unwrap();
    assert_eq!(rep.status.kind, StatusKind::CompilationError);
    assert_eq!(rep.status.code, "COMPILER_FAILED");
    assert_eq!(rep.spawned, 2);
    assert_eq!(rep.kills, 0);
}

#[test]
fn timeout_kills_and_stops() {
    let t = tc(vec![vec!["sleep", "10"], vec!["never"]]);
    let outcomes = vec![WaitOutcome::Timeout, WaitOutcome::Exited(0)];
    let rep = run_build(&t, &outcomes).unwrap();
    assert_eq!(rep.status.code, "COMPILATION_TIMED_OUT");
    assert_eq!(rep.status.kind, StatusKind::CompilationError);
    assert_eq!(rep.spawned, 1);
    assert_eq!(rep.kills, 1);
}

#[test]
fn already_finished_is_internal_fault() {
    let t = tc(vec![vec!["a"]]);
    let outcomes = vec![WaitOutcome::AlreadyFinished];
    assert!(run_build(&t, &outcomes).is_err());
}

#[test]
fn unknown_toolchain_is_immediate_error() {
    let cfg = Config { sysroot: "/".to_string(), toolchains: vec![tc(vec![vec!["true"]])] };
    let sub = Submission { id: 1, toolchain_name: "rustc".to_string() };
    let rep = build(&sub, &cfg, &vec![]).unwrap();
    assert_eq!(rep.status.code, "UNKNOWN_TOOLCHAIN");
    assert_eq!(rep.status.kind, StatusKind::CompilationError);
    assert_eq!(rep.spawned, 0);
}

#[test]
fn known_toolchain_is_found_by_name() {
    let cfg = Config { sysroot: "/".to_string(), toolchains: vec![tc(vec![vec!["true"]])] };
    let sub = Submission { id: 1, toolchain_name: "gcc".to_string() };
    assert_eq!(get_toolchain(&sub, &cfg).unwrap().name, "gcc");
}

#[test]
fn driver_steps_through_commands() {
    let mut d = BuildDriver::new(2);
    assert!(matches!(d.next_step(), BuildStep::Spawn(0)));
    let kill = d.on_outcome(WaitOutcome::Exited(0));
    assert!(!kill);
    assert!(matches!(d.next_step(), BuildStep::Spawn(1)));
    let kill = d.on_outcome(WaitOutcome::Timeout);
    assert!(kill);
    assert!(matches!(d.next_step(), BuildStep::Finish(_)));
}

#[test]
fn decimal_rendering_is_exact() {
    assert_eq!(u32_to_string(0), "0");
    assert_eq!(u32_to_string(7), "7");
    assert_eq!(u32_to_string(1234567890), "1234567890");
}

#[test]
fn isolation_root_is_keyed_by_submission() {
    assert_eq!(isolation_root_for("/sys", 42), "/sys/var/jjs/build/s-42");
}

#[test]
fn time_span_normalizes_nanoseconds() {
    let t = TimeSpan::new(1, 1_500_000_000);
    assert_eq!(t.secs, 2);
    assert_eq!(t.nanos, 500_000_000);
    let m = TimeSpan::from_millis(1000);
    assert_eq!(m.secs, 1);
    assert_eq!(m.nanos, 0);
}

#[test]
fn dominion_options_start_neutral() {
    let mut o = DominionOptions::new();
    assert!(!o.allow_network);
    assert!(!o.allow_file_io);
    assert_eq!(o.max_alive_process_count, 0);
    o.set_process_limit(16);
    o.set_time_limit(3, 0);
    o.set_isolation_root("/jail".to_string());
    assert_eq!(o.max_alive_process_count, 16);
    assert_eq!(o.time_limit, TimeSpan { secs: 3, nanos: 0 });
    assert_eq!(o.isolation_root, "/jail");
}

#[test]
fn dominion_duplicate_names_same_environment() {
    let d = Dominion { id: 9 };
    let (a, b) = d.duplicate();
    assert_eq!(a, d);
    assert_eq!(b, d);
}

#[test]
fn child_options_env_replaces_by_key() {
    let mut o = ChildProcessOptions::new(Dominion { id: 1 });
    o.add_env("PATH".to_string(), "/bin".to_string());
    o.add_env("HOME".to_string(), "/root".to_string());
    o.add_env("PATH".to_string(), "/usr/bin".to_string());
    assert_eq!(o.environment.len(), 2);
    assert_eq!(o.environment[0], ("PATH".to_string(), "/usr/bin".to_string()));
    o.add_arg("-v".to_string());
    assert_eq!(o.arguments, vec!["-v".to_string()]);
    o.set_stdio_handle(StdioMember::Stderr, 5);
    assert_eq!(o.stdio.stderr, OutputSpecification::RawHandle(5));
    assert_eq!(o.stdio.stdin, InputSpecification::Null);
}

#[test]
fn build_command_spawns_with_sandboxed_stdio() {
    let cmd = Command { argv: vec!["gcc".to_string(), "-O2".to_string(), "m.c".to_string()] };
    let o = command_child_options(&cmd, Dominion { id: 3 });
    assert_eq!(o.path, "gcc");
    assert_eq!(o.arguments, vec!["-O2".to_string(), "m.c".to_string()]);
    assert_eq!(o.stdio.stdin, InputSpecification::Empty);
    assert_eq!(o.stdio.stdout, OutputSpecification::Ignore);
    assert_eq!(o.stdio.stderr, OutputSpecification::Ignore);
    assert_eq!(o.pwd, "/");
}

fn sample_db() -> DbModel {
    DbModel {
        invocations: vec![
            InvocationRow { id: 1, state: InvocationState::Waiting, run_id: 11, revision: 1 },
            InvocationRow { id: 2, state: InvocationState::JudgeDone, run_id: 12, revision: 1 },
            InvocationRow { id: 3, state: InvocationState::Waiting, run_id: 12, revision: 2 },
        ],
        runs: vec![
            RunRow { id: 11, toolchain_id: "gcc".to_string(), problem_id: "a-plus-b".to_string() },
            RunRow { id: 12, toolchain_id: "rustc".to_string(), problem_id: "sort".to_string() },
        ],
        outcome_headers: vec![],
        kv: vec![],
    }
}

#[test]
fn window_overlap_constants() {
    assert!(WINDOW_SIZE > WINDOW_STEP);
}

#[test]
fn load_tasks_returns_waiting_rows_in_order() {
    let mut src = DbSource::new(sample_db(), "/data");
    let tasks = src.load_tasks(10).unwrap();
    assert_eq!(tasks.len(), 2);
    assert_eq!(tasks[0].invocation_id, 1);
    assert_eq!(tasks[0].toolchain_id, "gcc");
    assert_eq!(tasks[0].problem_id, "a-plus-b");
    assert_eq!(tasks[0].revision, 1);
    assert_eq!(tasks[0].run_dir, "/data/var/runs/run.11");
    assert_eq!(tasks[0].invocation_dir, "/data/var/runs/run.11/inv.1");
    assert_eq!(tasks[1].invocation_id, 3);
    assert_eq!(tasks[1].run_dir, "/data/var/runs/run.12");
    assert_eq!(tasks[1].invocation_dir, "/data/var/runs/run.12/inv.2");
    // a second poll finds nothing new
    let again = src.load_tasks(10).unwrap();
    assert_eq!(again.len(), 0);
}

#[test]
fn load_tasks_never_exceeds_the_request() {
    let mut src = DbSource::new(sample_db(), "/data");
    let tasks = src.load_tasks(1).unwrap();
    assert_eq!(tasks.len(), 1);
    let rest = src.load_tasks(5).unwrap();
    assert_eq!(rest.len(), 1);
}

#[test]
fn run_mapping_lives_until_set_finished() {
    let mut src = DbSource::new(sample_db(), "/data");
    let tasks = src.load_tasks(10).unwrap();
    let id = tasks[0].invocation_id;
    // mapping entry exists: a live status update is routed to the run's key
    src.deliver_live_status_update(id, "judging".to_string()).unwrap();
    assert_eq!(src.db.kv[0], ("lsu-11".to_string(), "judging".to_string()));
    // after the terminal report the entry is gone and the update fails loudly
    src.set_finished(id, InvocationFinishReason::JudgeDone).unwrap();
    assert_eq!(
        src.deliver_live_status_update(id, "late".to_string()),
        Err(DbError::UnknownInvocation)
    );
    assert_eq!(src.db.invocations[0].state, InvocationState::JudgeDone);
}

#[test]
fn set_finished_tolerates_unknown_ids() {
    let mut src = DbSource::new(sample_db(), "/data");
    assert_eq!(
        src.set_finished(77, InvocationFinishReason::Fault),
        Err(DbError::UnknownInvocation)
    );
}

#[test]
fn finish_reasons_persist_as_states() {
    let mut src = DbSource::new(sample_db(), "/data");
    src.load_tasks(10).unwrap();
    src.set_finished(1, InvocationFinishReason::CompileError).unwrap();
    src.set_finished(3, InvocationFinishReason::Fault).unwrap();
    assert_eq!(src.db.invocations[0].state, InvocationState::CompileError);
    assert_eq!(src.db.invocations[2].state, InvocationState::InvokeFailed);
}

#[test]
fn outcome_headers_append_to_known_invocations() {
    let mut src = DbSource::new(sample_db(), "/data");
    src.add_outcome_header(2, "judge: full score".to_string()).unwrap();
    assert_eq!(src.db.outcome_headers, vec![(2, "judge: full score".to_string())]);
    assert_eq!(
        src.add_outcome_header(99, "lost".to_string()),
        Err(DbError::UnknownInvocation)
    );
}

fn wire_task(id: u32) -> CliInvokeTask {
    CliInvokeTask {
        revision: 4,
        toolchain_id: "gcc".to_string(),
        problem_id: "a-plus-b".to_string(),
        invocation_id: id,
        run_dir: "/r".to_string(),
        invocation_dir: "/r/i".to_string(),
    }
}

#[test]
fn convert_task_keeps_every_field() {
    let t = convert_task(wire_task(8));
    assert_eq!(t.revision, 4);
    assert_eq!(t.toolchain_id, "gcc");
    assert_eq!(t.problem_id, "a-plus-b");
    assert_eq!(t.invocation_id, 8);
    assert_eq!(t.run_dir, "/r");
    assert_eq!(t.invocation_dir, "/r/i");
}

#[test]
fn reader_skips_bad_lines_without_blocking_good_ones() {
    let mut src = CliSource::new();
    assert!(!src.state.read_iteration(None));
    assert!(src.state.read_iteration(Some(wire_task(1))));
    assert!(!src.state.read_iteration(None));
    assert!(src.state.read_iteration(Some(wire_task(2))));
    let tasks = src.state.load_tasks(10);
    assert_eq!(tasks.len(), 2);
    assert_eq!(tasks[0].invocation_id, 1);
    assert_eq!(tasks[1].invocation_id, 2);
}

#[test]
fn message_queue_is_first_in_first_out() {
    let mut q = BackgroundSource::new();
    assert_eq!(q.pop_msg(), None);
    q.add_message("one".to_string());
    q.add_message("two".to_string());
    assert_eq!(q.pop_msg(), Some("one".to_string()));
    assert_eq!(q.pop_msg(), Some("two".to_string()));
    assert_eq!(q.pop_msg(), None);
}

#[test]
fn tcp_listen_address_parses() {
    match parse_listen_address("tcp://127.0.0.1:8000") {
        Ok(ListenAddress::Tcp { host, port }) => {
            assert_eq!(host, "127.0.0.1");
            assert_eq!(port, 8000);
        }
        other => panic!("unexpected: {:?}", other),
    }
}

#[test]
fn unix_listen_address_parses() {
    match parse_listen_address("unix:///tmp/invoker.sock") {
        Ok(ListenAddress::Uds { path }) => assert_eq!(path, "/tmp/invoker.sock"),
        other => panic!("unexpected: {:?}", other),
    }
}

#[test]
fn bad_listen_addresses_are_rejected_at_startup() {
    assert!(matches!(parse_listen_address("::"), Err(AddressError::InvalidUrl)));
    assert!(matches!(
        parse_listen_address("http://host:1"),
        Err(AddressError::UnknownScheme)
    ));
    assert!(matches!(
        parse_listen_address("tcp://127.0.0.1"),
        Err(AddressError::MissingPort)
    ));
}

#[test]
fn tcp_host_must_be_an_ip_literal() {
    assert!(matches!(
        parse_listen_address("tcp://example.com:1"),
        Err(AddressError::HostNotIp)
    ));
    match parse_listen_address("tcp://8.8.8.8:53") {
        Ok(ListenAddress::Tcp { host, port }) => {
            assert_eq!(host, "8.8.8.8");
            assert_eq!(port, 53);
        }
        other => panic!("unexpected: {:?}", other),
    }
}

#[test]
fn spawn_step_carries_sandboxed_options_and_ceiling() {
    let t = tc(vec![vec!["gcc", "-O2"]]);
    let d = BuildDriver::new(1);
    let (opts, ceiling) = d.spawn_options(&t, Dominion { id: 4 });
    assert_eq!(opts.path, "gcc");
    assert_eq!(opts.arguments, vec!["-O2".to_string()]);
    assert_eq!(opts.dominion, Dominion { id: 4 });
    assert_eq!(opts.stdio.stdin, InputSpecification::Empty);
    assert_eq!(opts.pwd, "/");
    assert_eq!(ceiling, TimeSpan { secs: 3, nanos: 0 });
}

#[test]
fn address_parts_select_by_scheme() {
    let parts = UrlParts {
        scheme: "tcp".to_string(),
        host: None,
        port: Some(1),
        path: "".to_string(),
    };
    assert!(matches!(address_from_parts(parts), Err(AddressError::MissingHost)));
}

#[test]
fn exec_route_answers_200_with_payload() {
    let r = route_exec(Ok(b"{\"score\":100}".to_vec()));
    assert_eq!(r.status, 200);
    assert!(r.error_uuid.is_none());
    assert_eq!(r.body, b"{\"score\":100}".to_vec());
}

#[test]
fn exec_route_failure_is_opaque_500_with_correlation_id() {
    let r = route_exec(Err("database exploded".to_string()));
    assert_eq!(r.status, 500);
    assert!(r.body.is_empty());
    let id = r.error_uuid.expect("correlation id");
    assert_eq!(id.len(), 36);
    // the error detail never reaches the caller
    assert!(!id.contains("database"));
}

#[test]
fn ready_route_answers_ok() {
    let (status, body) = route_ready();
    assert_eq!(status, 200);
    assert_eq!(body, "OK");
}

#[test]
fn build_status_maps_to_finish_reason() {
    let s = Status::compiler_failed();
    assert_eq!(finish_reason_for(&s), InvocationFinishReason::CompileError);
    let s = Status::built();
    assert_eq!(finish_reason_for(&s), InvocationFinishReason::JudgeDone);
}
