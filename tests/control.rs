use l7_flood::addr::{ClientBuildError, IpAddress};
use l7_flood::client::{target_of, ClientIpSelectMode, ClientPool};
use l7_flood::command::{
    is_eligible, timestamp_from_wire, CommandError, CommandMsg, ParallelCommands, RemoteCommand, RequestCommand,
    RequestCommandMsg, RequestMethod, ShellCommandMsg, Timestamp,
};
use l7_flood::executor::{ClientStatus, HeartbeatError, NextOperation, ServerCommandExecutor, ServerResponse, WorkerAction};
use l7_flood::header::HeadersConfig;
use l7_flood::statistic::StatusCounter;
use l7_flood::output::OutputMode;
use l7_flood::worker::{
    build_full_requests, next_step, BenchmarkBuilder, BenchmarkExecutor, FullRequest, RequestError, ShutdownFlag, WorkerStep,
};

fn msg(url: &str) -> RequestCommandMsg {
    RequestCommandMsg {
        concurrent_count: 4,
        url: url.to_string(),
        time: Some(2),
        ip: None,
        header: vec![],
        method: 0,
        body: None,
        timeout: None,
        start_at: None,
        abort_if_after: None,
        enable_random: false,
    }
}

#[test]
fn target_reads_host_and_port() {
    let t = target_of("https://example.com/a?b=1").unwrap();
    assert_eq!(t.host, "example.com");
    assert_eq!(t.port, 443);
    let t = target_of("http://example.com:8080/").unwrap();
    assert_eq!(t.port, 8080);
    let t = target_of("http://example.com/").unwrap();
    assert_eq!(t.port, 80);
    assert!(matches!(target_of("not a url"), Err(ClientBuildError::InvalidUrl(_))));
    assert!(matches!(target_of("unix:/run/sock"), Err(ClientBuildError::URLMissingHost)));
}

#[test]
fn resolve_modes() {
    let a = IpAddress::V4(9, 9, 9, 9);
    assert_eq!(ClientIpSelectMode::Locked(a).resolve("h", Ok(vec![])).unwrap(), vec![a]);
    assert_eq!(ClientIpSelectMode::Random(vec![a, a]).resolve("h", Ok(vec![])).unwrap(), vec![a]);
    assert_eq!(ClientIpSelectMode::Resolve.resolve("h", Ok(vec![a, a])).unwrap(), vec![a]);
    assert!(matches!(ClientIpSelectMode::Random(vec![]).resolve("h", Ok(vec![])), Err(ClientBuildError::NoValidIpInFile)));
    assert_eq!(ClientIpSelectMode::Resolve.resolve("h", Ok(vec![a])).unwrap(), vec![a]);
    assert!(matches!(ClientIpSelectMode::Resolve.resolve("h", Ok(vec![])), Err(ClientBuildError::NoIpAddressesFound(h)) if h == "h"));
    assert!(matches!(ClientIpSelectMode::Resolve.resolve("h", Err("boom".to_string())), Err(ClientBuildError::DNSLookupFailed(m)) if m == "boom"));
}

#[test]
fn pool_keeps_built_clients() {
    let p = ClientPool::from_built(vec![None, Some(7u32), None, Some(9u32)]).unwrap();
    assert_eq!(p.len(), 2);
    assert_eq!(*p.get(0), 7);
    assert_eq!(*p.get(1), 9);
    let picks = p.pick_indices(50);
    assert_eq!(picks.len(), 50);
    assert!(picks.iter().all(|i| *i < 2));
}

#[test]
fn pool_of_nothing_fails() {
    assert!(matches!(ClientPool::<u32>::from_built(vec![]), Err(ClientBuildError::NoClientsBuilt)));
    assert!(matches!(ClientPool::<u32>::from_built(vec![None, None]), Err(ClientBuildError::NoClientsBuilt)));
}

#[test]
fn plan_one_client_per_address() {
    let t = target_of("https://example.com/").unwrap();
    let addrs = vec![IpAddress::V4(1, 1, 1, 1), IpAddress::V4(2, 2, 2, 2)];
    let h = HeadersConfig::from(vec![]);
    let plans = l7_flood::client::plan_clients(&t, &addrs, &h);
    assert_eq!(plans.len(), 2);
    assert_eq!(plans[1].addr, addrs[1]);
    assert_eq!(plans[1].port, 443);
    assert!(plans[0].cookie.is_none());
}

#[test]
fn request_command_decoding() {
    let c = RequestCommand::try_from(msg("https://a.b/"), false).unwrap();
    assert_eq!(c.method, RequestMethod::Get);
    assert_eq!(c.concurrent_count, 4);
    let mut bad = msg("https://a.b/");
    bad.method = 7;
    assert!(matches!(RequestCommand::try_from(bad, false), Err(CommandError::InvalidMethod)));
    let mut bad = msg("https://a.b/");
    bad.ip = Some("nope".to_string());
    assert!(matches!(RequestCommand::try_from(bad, false), Err(CommandError::InvalidIp)));
    let mut good = msg("https://a.b/");
    good.ip = Some("8.8.4.4".to_string());
    assert_eq!(RequestCommand::try_from(good, true).unwrap().ip, Some(IpAddress::V4(8, 8, 4, 4)));
    let mut bad = msg("https://a.b/");
    bad.start_at = Some(u64::MAX / 2);
    assert!(matches!(RequestCommand::try_from(bad, false), Err(CommandError::InvalidStartTime)));
}

#[test]
fn timestamps() {
    assert_eq!(timestamp_from_wire(1_700_000_000), Some(Timestamp { secs: 1_700_000_000 }));
    assert_eq!(timestamp_from_wire(u64::MAX / 2), None);
}

#[test]
fn missing_command_is_refused() {
    assert!(matches!(RemoteCommand::try_from(None), Err(CommandError::NoCommand)));
    assert!(matches!(ParallelCommands::try_from(vec![Some(CommandMsg::Request(msg("http://x/"))), None]), Err(CommandError::NoCommand)));
}

#[test]
fn eligibility_by_abort_time() {
    let now = Timestamp { secs: 1000 };
    let mut past = msg("http://x/");
    past.abort_if_after = Some(999);
    let mut future = msg("http://x/");
    future.abort_if_after = Some(1001);
    let mut later = msg("http://x/");
    later.start_at = Some(2000);
    let p = RemoteCommand::try_from(Some(CommandMsg::Request(past))).unwrap();
    let f = RemoteCommand::try_from(Some(CommandMsg::Request(future))).unwrap();
    let l = RemoteCommand::try_from(Some(CommandMsg::Request(later))).unwrap();
    assert!(!is_eligible(&p, now));
    assert!(is_eligible(&f, now));
    assert!(!is_eligible(&l, now));
}

#[test]
fn executor_runs_only_eligible_requests() {
    let now = Timestamp { secs: 1000 };
    let mut past = msg("http://past/");
    past.abort_if_after = Some(10);
    let batch = ParallelCommands::try_from(vec![
        Some(CommandMsg::Request(past)),
        Some(CommandMsg::Request(msg("http://now/"))),
        Some(CommandMsg::SingleRequest(msg("http://one/"))),
        Some(CommandMsg::Shell(ShellCommandMsg {
            shell: None,
            command: "true".to_string(),
            work_dir: None,
            timeout: None,
            start_at: None,
            abort_if_after: None,
        })),
    ])
    .unwrap();
    let mut ex = ServerCommandExecutor::new();
    let actions = ex.execute(batch, 5, now);
    assert_eq!(ex.status(), ClientStatus::Executing { id: 5 });
    assert_eq!(actions.len(), 2);
    match &actions[0] {
        WorkerAction::Flood { command, timeout_secs, stop_after } => {
            assert_eq!(command.url, "http://now/");
            assert_eq!(*timeout_secs, 10);
            assert_eq!(*stop_after, Some(2));
        }
        _ => panic!("expected a flood"),
    }
    assert!(matches!(&actions[1], WorkerAction::SingleRequest(c) if c.url == "http://one/"));
    ex.shutdown_workers();
    assert_eq!(ex.status(), ClientStatus::Idle);
    ex.shutdown_workers();
    assert_eq!(ex.status(), ClientStatus::Idle);
}

#[test]
fn heartbeat_round_trip() {
    let mut ex = ServerCommandExecutor::new();
    let now = Timestamp { secs: 1000 };
    let r = ex
        .on_response(
            ServerResponse {
                server_timestamp: 1010,
                command_id: Some(3),
                next_operation: Some(NextOperation::Execute(vec![Some(CommandMsg::Request(msg("http://x/")))])),
            },
            now,
        )
        .unwrap();
    assert!(!r.stop);
    assert_eq!(r.start.len(), 1);
    assert_eq!(ex.time_diff(), 10);
    assert_eq!(ex.status(), ClientStatus::Executing { id: 3 });
    let hb = ex.heartbeat(now, "1.2.3.4".to_string(), 4, &StatusCounter::new());
    assert_eq!(hb.current_command_id, Some(3));
    assert_eq!(hb.command_result.len(), 1);
    let hb = ex.heartbeat(now, "1.2.3.4".to_string(), 0, &StatusCounter::new());
    assert_eq!(hb.current_command_id, None);
    let r = ex
        .on_response(ServerResponse { server_timestamp: 990, command_id: None, next_operation: Some(NextOperation::StopCurrent) }, now)
        .unwrap();
    assert!(r.stop);
    assert_eq!(ex.time_diff(), -10);
    let bad = ex.on_response(ServerResponse { server_timestamp: u64::MAX / 2, command_id: None, next_operation: None }, now);
    assert!(matches!(bad, Err(HeartbeatError::InvalidServerTimestamp)));
}

#[test]
fn refused_batch_starts_nothing() {
    let mut ex = ServerCommandExecutor::new();
    let r = ex
        .on_response(
            ServerResponse { server_timestamp: 5, command_id: Some(1), next_operation: Some(NextOperation::StopAndExecute(vec![None])) },
            Timestamp { secs: 5 },
        )
        .unwrap();
    assert!(r.stop);
    assert!(r.start.is_empty());
    assert_eq!(r.refused, Some(CommandError::NoCommand));
    assert_eq!(ex.status(), ClientStatus::Idle);
}

#[test]
fn worker_stops_on_shutdown() {
    let mut f = ShutdownFlag::new();
    assert_eq!(next_step(f.requested()), WorkerStep::Send);
    f.request();
    f.request();
    assert_eq!(next_step(f.requested()), WorkerStep::Exit);
}

#[test]
fn full_requests_and_urls() {
    let pool = ClientPool::from_built(vec![Some(()), Some(())]).unwrap();
    let reqs = build_full_requests(&pool, 3, &"http://x/[a]{2}".to_string(), &vec![], &"GET".to_string(), 10, &None, true);
    assert_eq!(reqs.len(), 3);
    let g = l7_flood::template::template_generator("http://x/[a]{2}").unwrap();
    assert_eq!(reqs[0].get_url(&Some(g)).unwrap(), "http://x/aa");
    assert!(matches!(reqs[0].get_url(&None), Err(RequestError::GeneratorMissing)));
    let plain = FullRequest { random: false, ..reqs[0].clone() };
    assert_eq!(plain.get_url(&None).unwrap(), "http://x/[a]{2}");
}

#[test]
fn output_modes() {
    let d = OutputMode::default();
    assert_eq!(d, OutputMode::Terminal { refresh_rate_ms: 200 });
    assert!(d.redraws());
    assert_eq!(OutputMode::normal().refresh_rate_ms(), 2000);
    assert!(!OutputMode::normal().redraws());
}

#[test]
fn executor_from_builder() {
    let config = BenchmarkBuilder::new()
        .url("https://example.com/x".to_string())
        .fixed_ip(IpAddress::V4(1, 2, 3, 4))
        .method("POST".to_string())
        .build()
        .unwrap();
    let ex = BenchmarkExecutor::from_builder(config, vec![Some(1u8), None]).unwrap();
    assert_eq!(ex.pool().len(), 1);
    let reqs = ex.request_ready(5, 3, Some("b".to_string()), false);
    assert_eq!(reqs.len(), 5);
    assert!(reqs.iter().all(|r| r.client == 0 && r.method == "POST" && r.url == "https://example.com/x" && r.timeout_secs == 3));
    assert!(matches!(BenchmarkBuilder::new().build(), Err(ClientBuildError::UrlIsRequired)));
}

#[test]
fn builder_from_pool_file() {
    let b = BenchmarkBuilder::new().random_ip_from_file("1.1.1.1\n2.2.2.2\n1.1.1.1").unwrap();
    assert!(matches!(b.ip_mode, ClientIpSelectMode::Random(ref p) if p.len() == 2));
    assert!(BenchmarkBuilder::new().random_ip_from_file("").is_err());
}

#[test]
fn command_ready_settings() {
    let mut m = msg("http://h/");
    m.ip = Some("::1".to_string());
    m.method = 1;
    let c = RequestCommand::try_from(m, false).unwrap();
    let b = c.ready();
    assert_eq!(b.method, "POST");
    assert_eq!(b.url.as_deref(), Some("http://h/"));
    assert_eq!(b.ip_mode, ClientIpSelectMode::Locked(IpAddress::V6(0, 0, 0, 0, 0, 0, 0, 1)));
}

#[test]
fn abort_time_and_shell_decoding() {
    let mut bad = msg("http://x/");
    bad.abort_if_after = Some(u64::MAX / 2);
    assert!(matches!(RequestCommand::try_from(bad, false), Err(CommandError::InvalidAbortTime)));
    let shell = ShellCommandMsg {
        shell: Some("sh".to_string()),
        command: "echo hi".to_string(),
        work_dir: None,
        timeout: Some(3),
        start_at: Some(100),
        abort_if_after: None,
    };
    match RemoteCommand::try_from(Some(CommandMsg::Shell(shell))).unwrap() {
        RemoteCommand::Shell(s) => {
            assert_eq!(s.command, "echo hi");
            assert_eq!(s.start_at, Some(Timestamp { secs: 100 }));
        }
        _ => panic!("expected a shell command"),
    }
}

#[test]
fn largest_status_code_is_other() {
    assert_eq!(l7_flood::statistic::classify_status(u16::MAX), l7_flood::statistic::StatusBucket::Other);
    assert_eq!(l7_flood::statistic::classify_status(0), l7_flood::statistic::StatusBucket::Other);
}

#[test]
fn failed_heartbeat_keeps_results() {
    let mut ex = ServerCommandExecutor::new();
    ex.push_result(l7_flood::executor::CommandResultItem::SingleRequest { code: 200, content: "a".to_string(), timestamp: 1 });
    let hb = ex.heartbeat(Timestamp { secs: 5 }, String::new(), 0, &StatusCounter::new());
    assert_eq!(hb.command_result.len(), 2);
    ex.push_result(l7_flood::executor::CommandResultItem::SingleRequest { code: 500, content: "b".to_string(), timestamp: 2 });
    ex.restore_results(hb.command_result);
    let hb = ex.heartbeat(Timestamp { secs: 6 }, String::new(), 0, &StatusCounter::new());
    assert_eq!(hb.command_result.len(), 3);
    assert!(matches!(&hb.command_result[0], l7_flood::executor::CommandResultItem::SingleRequest { code: 200, .. }));
    assert!(matches!(&hb.command_result[1], l7_flood::executor::CommandResultItem::SingleRequest { code: 500, .. }));
    let hb = ex.heartbeat(Timestamp { secs: 7 }, String::new(), 0, &StatusCounter::new());
    assert_eq!(hb.command_result.len(), 1);
}

#[test]
fn commands_encode_to_wire() {
    let mut m = msg("http://x/");
    m.ip = Some("::ffff:1.2.3.4".to_string());
    m.method = 1;
    m.start_at = Some(77);
    m.body = Some("payload".to_string());
    m.header = vec![l7_flood::command::HttpHeader("a".to_string(), "b".to_string())];
    let c = RequestCommand::try_from(m, true).unwrap();
    let w = c.to_msg();
    assert_eq!(w.ip.as_deref(), Some("::ffff:1.2.3.4"));
    assert_eq!(w.method, 1);
    assert_eq!(w.start_at, Some(77));
    assert_eq!(w.body.as_deref(), Some("payload"));
    assert_eq!(w.header[0].1, "b");
    assert!(matches!(RemoteCommand::Request(c).to_msg(), CommandMsg::SingleRequest(_)));
}

#[test]
fn requests_carry_headers_and_body() {
    let pool = ClientPool::from_built(vec![Some(())]).unwrap();
    let headers = vec![l7_flood::header::HeadersPair { key: "x-k".to_string(), value: "v".to_string() }];
    let reqs = build_full_requests(&pool, 2, &"http://x/".to_string(), &headers, &"POST".to_string(), 1, &Some("data".to_string()), false);
    assert!(reqs.iter().all(|r| r.body.as_deref() == Some("data") && r.headers.len() == 1 && r.headers[0].value == "v"));
}

#[test]
fn builder_setters_keep_other_fields() {
    let h = HeadersConfig::from(vec![l7_flood::header::HeadersPair { key: "cookie".to_string(), value: "a=1".to_string() }]);
    let b = BenchmarkBuilder::new()
        .headers_config(h)
        .url("http://x/".to_string())
        .fixed_ip(IpAddress::V4(1, 1, 1, 1))
        .method("PUT".to_string());
    assert_eq!(b.headers_config.cookie.as_deref(), Some("a=1"));
    assert_eq!(b.method, "PUT");
    let b = b.random_ip_from_file("2.2.2.2").unwrap();
    assert_eq!(b.headers_config.cookie.as_deref(), Some("a=1"));
    assert_eq!(BenchmarkBuilder::new().method, "GET");
}
