use base64::engine::general_purpose::URL_SAFE_NO_PAD;
use base64::Engine;
use pm3::commands::{aad, err_text, frame_line, log_text, ok_text, parse_request, Request};
use pm3::config_validator::{
    parse_query, url_decode, validate_proc_name, verify_start_config, ConfigError,
};
use pm3::daemon_config::{Config, DaemonConfig};
use pm3::encryption::{decrypt_token_to_reply, decrypt_wire_line, encrypt_reply_to_token, DecryptError};
use pm3::logging::{log_stream_step, relay_step, FinalStep, LogAction, LogEvent, LogBuffers, LogChunk, LoggingService, RelayAction, RelayFinal, RotationStep, StreamKind, MAX_BUF_PER_PROC};
use pm3::metrics::{
    list_body, metrics_body, stream_header, ChunkedBytesWriter, MetricsBatch, MetricsRow,
    MetricsService, MAX_BATCH,
};
use pm3::pm3_config::PmProcessConfig;
use pm3::process::{alloc_id, IdCounter, PmProcess, PmProcessStatus, PmProcessStatusInfo};
use pm3::runner::{already_exists_reply, dump_reply, list_reply, restart_reply, revive_reply, started_reply, stop_reply, ProcessTable, RestartStep, StartStep, StopStep};

const KEY: [u8; 32] = [7u8; 32];

fn cfg(name: &str) -> PmProcessConfig {
    PmProcessConfig {
        proc_name: name.to_string(),
        exec_dir: "/srv".to_string(),
        exec_name: "/srv/app".to_string(),
        exec_args: vec!["-v".to_string(), "x".to_string()],
        active: true,
        extra: Vec::new(),
    }
}

#[test]
fn token_round_trip() {
    let a = aad();
    assert_eq!(a, b"pm3:tcp:v1".to_vec());
    let token = encrypt_reply_to_token(&KEY, b"list", &a).unwrap();
    assert!(!token.contains('+') && !token.contains('/') && !token.contains('='));
    assert_eq!(decrypt_token_to_reply(&KEY, &token, &a).ok(), Some(b"list".to_vec()));
    // A different key, or different associated data, does not open it.
    assert!(matches!(decrypt_token_to_reply(&[8u8; 32], &token, &a), Err(DecryptError::Crypto)));
    assert!(matches!(decrypt_token_to_reply(&KEY, &token, b"other"), Err(DecryptError::Crypto)));
}

#[test]
fn tokens_use_fresh_nonces() {
    let a = aad();
    let t1 = encrypt_reply_to_token(&KEY, b"x", &a).unwrap();
    let t2 = encrypt_reply_to_token(&KEY, b"x", &a).unwrap();
    assert_ne!(t1, t2);
}

#[test]
fn decrypt_errors() {
    let a = aad();
    assert!(matches!(decrypt_token_to_reply(&KEY, "!!!", &a), Err(DecryptError::BadBase64(_))));
    assert!(matches!(decrypt_token_to_reply(&KEY, "AAAA", &a), Err(DecryptError::TooShort)));
    // 29 bytes whose first byte (the version) is 2.
    let mut raw = vec![2u8];
    raw.extend_from_slice(&[0u8; 28]);
    let t = pm3_b64(&raw);
    assert!(matches!(decrypt_token_to_reply(&KEY, &t, &a), Err(DecryptError::BadVersion(2))));
}

fn pm3_b64(bytes: &[u8]) -> String {
    URL_SAFE_NO_PAD.encode(bytes)
}

#[test]
fn wire_lines() {
    let a = aad();
    let line = frame_line(&KEY, "ping").unwrap();
    assert!(line.starts_with("ENC ") && line.ends_with('\n'));
    assert_eq!(decrypt_wire_line(&KEY, &line, &a).ok(), Some(b"ping".to_vec()));
    assert!(matches!(parse_request(&KEY, &line), Request::Ping));
    let stop = frame_line(&KEY, "STOP 1 web").unwrap();
    match parse_request(&KEY, &stop) {
        Request::Stop(ps) => assert_eq!(ps, vec!["1".to_string(), "web".to_string()]),
        _ => panic!("expected stop"),
    }
    let logs = frame_line(&KEY, "logs --lines=5 3 --lines=x").unwrap();
    match parse_request(&KEY, &logs) {
        Request::Logs { lines, programs } => {
            assert_eq!(lines, 5);
            assert_eq!(programs, vec!["3".to_string()]);
        }
        _ => panic!("expected logs"),
    }
    assert!(matches!(parse_request(&KEY, "hello\n"), Request::Unknown));
    assert!(matches!(parse_request(&KEY, &frame_line(&KEY, "list-programs").unwrap()), Request::ListPrograms));
    assert!(matches!(parse_request(&KEY, &frame_line(&KEY, "start").unwrap()), Request::Start(None)));
}

#[test]
fn reply_texts() {
    assert_eq!(ok_text("pong"), "OK pong\n");
    assert_eq!(err_text("unknown command"), "ERR unknown command\n");
    assert_eq!(log_text("3 stdout hi"), "LOG 3 stdout hi\n");
    assert_eq!(LogChunk::Eof.to_text(), "EOF");
    assert_eq!(LogChunk::Ping.to_text(), "PING");
    assert_eq!(LogChunk::Line("x".to_string()).to_text(), "x");
}

#[test]
fn start_request_validation() {
    let q = "proc_name=web&exec_dir=%2Fsrv&exec_name=%2Fsrv%2Fbin%2Fapp&active=1&exec_args=-p+80";
    let c = verify_start_config(q).ok().unwrap();
    assert_eq!(c.proc_name, "web");
    assert_eq!(c.exec_dir, "/srv");
    assert_eq!(c.exec_name, "/srv/bin/app");
    assert_eq!(c.exec_args, vec!["-p".to_string(), "80".to_string()]);
    assert!(c.active);
    assert!(verify_start_config("proc_name=a&exec_dir=/srv&exec_name=/srv/x&active=YES").ok().unwrap().active);
    let wrapped = format!("[\"{}\"]", q);
    assert!(verify_start_config(&wrapped).is_ok());
    assert!(matches!(verify_start_config("  "), Err(ConfigError::EmptyQuery)));
    assert!(matches!(
        verify_start_config("proc_name=a&exec_dir=/srv&exec_name=/etc/x&active=1"),
        Err(ConfigError::NotWithin(_, _))
    ));
    assert!(matches!(
        verify_start_config("proc_name=a&exec_dir=srv&exec_name=/srv/x&active=1"),
        Err(ConfigError::NotAbsolute(_, _))
    ));
    assert!(matches!(
        verify_start_config("proc_name=a&exec_dir=/srv&exec_name=/srv/x&active=maybe"),
        Err(ConfigError::BadActive(_))
    ));
    assert!(matches!(
        verify_start_config("proc_name=a&exec_dir=/srv&active=1"),
        Err(ConfigError::MissingParam(_))
    ));
    assert!(matches!(verify_start_config("a=1&a=2"), Err(ConfigError::DuplicateKey(_))));
    assert!(matches!(verify_start_config("=1"), Err(ConfigError::EmptyKey(_))));
    assert!(matches!(verify_start_config("a=%4"), Err(ConfigError::BadPercent(_))));
    assert!(matches!(verify_start_config("a=%zz"), Err(ConfigError::InvalidHex(b'z'))));
    assert!(matches!(verify_start_config("a=%ff"), Err(ConfigError::InvalidUtf8(_, _))));
}

#[test]
fn proc_names() {
    assert!(validate_proc_name("web-1_ok").is_ok());
    assert!(matches!(validate_proc_name(""), Err(ConfigError::ProcNameEmpty)));
    assert!(matches!(validate_proc_name("a b"), Err(ConfigError::ProcNameInvalidChars)));
    let long = "x".repeat(200);
    assert!(matches!(validate_proc_name(&long), Err(ConfigError::ProcNameTooLong)));
}

#[test]
fn percent_decoding() {
    let chars: Vec<char> = "a%20b+c%C3%A9".chars().collect();
    assert_eq!(url_decode(&chars).ok(), Some("a b cé".to_string()));
    let q: Vec<char> = "x=1&&y=%41".chars().collect();
    let ps = parse_query(&q).ok().unwrap();
    assert_eq!(ps, vec![("x".to_string(), "1".to_string()), ("y".to_string(), "A".to_string())]);
}

#[test]
fn config_file_round_trip() {
    let c = cfg("web");
    let text = c.dump();
    assert_eq!(text, "proc_name=web\nexec_dir=/srv\nexec_name=/srv/app\nexec_args=-v x\nactive=1\n");
    let back = PmProcessConfig::from_str(&text).ok().unwrap();
    assert_eq!(back.proc_name, "web");
    assert_eq!(back.exec_dir, "/srv");
    assert_eq!(back.exec_name, "/srv/app");
    assert_eq!(back.exec_args, c.exec_args);
    assert!(back.active);
    assert!(back.extra.is_empty());
}

#[test]
fn config_file_reading() {
    let text = "# comment\n\n proc_name = api \nexec_dir=/a\nexec_name=/a/b\nactive=false\ncolor=blue\n";
    let c = PmProcessConfig::from_str(text).ok().unwrap();
    assert_eq!(c.proc_name, "api");
    assert!(!c.active);
    assert!(c.exec_args.is_empty());
    assert_eq!(c.extra, vec![("color".to_string(), "blue".to_string())]);
    assert_eq!(PmProcessConfig::from_str("nonsense").err(), Some("Invalid line: nonsense".to_string()));
    assert_eq!(PmProcessConfig::from_str("exec_dir=/a").err(), Some("missing proc_name".to_string()));
}

#[test]
fn process_numbers() {
    let mut ids = IdCounter::new();
    assert_eq!(alloc_id(&mut ids), 1);
    assert_eq!(alloc_id(&mut ids), 2);
    ids.reset();
    assert_eq!(alloc_id(&mut ids), 1);
}

#[test]
fn process_table_commands() {
    let mut t = ProcessTable::new();
    assert_eq!(t.add(cfg("api")), 1);
    assert_eq!(t.add(cfg("web")), 2);
    assert_eq!(t.add(cfg("db")), 3);
    assert!(t.has_name("web"));
    assert!(!t.has_name("cache"));
    assert_eq!(t.list_programs_reply(), "1 api 2 web 3 db");
    assert_eq!(t.resolve("2"), Some(1));
    assert_eq!(t.resolve("db"), Some(2));
    assert_eq!(t.resolve("9"), None);
    assert_eq!(t.resolve_id("web"), None);
    let (removed, reply) = t.delete_programs(&vec!["2".to_string(), "api".to_string(), "2".to_string()]);
    assert_eq!(removed.len(), 1);
    assert_eq!(removed[0].idx, 2);
    assert_eq!(reply, "Deleted 2 successfully");
    assert_eq!(t.list_programs_reply(), "1 api 3 db");
    assert_eq!(t.resolve_id("2"), None);
    let (none, reply) = t.delete_programs(&vec!["x".to_string()]);
    assert!(none.is_empty());
    assert_eq!(reply, "No processes were deleted");
    t.reset();
    assert_eq!(t.list_programs_reply(), "");
    assert_eq!(t.add(cfg("again")), 1);
}

#[test]
fn runner_replies() {
    assert_eq!(stop_reply(&vec!["1".to_string(), "3".to_string()]), "Stopped 1, 3 successfully");
    assert_eq!(stop_reply(&Vec::new()), "No processes were stopped");
    assert_eq!(restart_reply(&vec!["2".to_string()]), "Restarted 2 successfully");
    assert_eq!(list_reply(&Vec::new()), "0\n");
    assert_eq!(list_reply(&vec!["a".to_string(), "b".to_string()]), "2\na\nb\n");
    assert_eq!(dump_reply(2), "2 configs saved to ~/.pm3/configs (backup created in ~/.pm3/configs.old)");
    assert_eq!(revive_reply(4), "PM3 has started 4 processes from ~/.pm3/configs");
}

#[test]
fn process_lifecycle() {
    let mut p = PmProcess::new(cfg("api"), 5);
    assert_eq!(p.status, PmProcessStatus::NotStarted);
    assert!(p.is_active());
    assert_eq!(p.awake_not_found(), "Executable not found: /srv/app");
    assert_eq!(p.status, PmProcessStatus::InitializingFailed);
    assert!(!p.is_active());
    assert_eq!(p.take_child().err(), Some("Error stopping program: api(5)".to_string()));
    p.awake_spawned(Some(77));
    assert_eq!(p.status, PmProcessStatus::Running);
    let info = p.status_info(None);
    assert_eq!(info.pid, Some(77));
    assert_eq!(info.status, PmProcessStatus::Running);
    p.exited(Some(0));
    assert_eq!(p.status, PmProcessStatus::Finished(0));
    p.exited(Some(3));
    assert_eq!(p.status, PmProcessStatus::Exited(3));
    let mut inactive = cfg("off");
    inactive.active = false;
    assert_eq!(PmProcess::new(inactive, 1).status, PmProcessStatus::Disabled);
}

#[test]
fn status_lines() {
    let info = PmProcessStatusInfo {
        id: 4,
        name: "my app".to_string(),
        status: PmProcessStatus::Exited(-1),
        pid: Some(12),
        uptime: Some(30),
        cpu_text: Some("1.25".to_string()),
        memory_usage: Some(2048),
        user: None,
    };
    assert_eq!(
        info.to_qs_line(),
        "id=4&name=my%20app&status=exited&exit_code=-1&pid=12&uptime=30&cpu=1.25&mem=2048"
    );
}

#[test]
fn log_rotation() {
    assert_eq!(LoggingService::old_log_path("/l/p/stdout.log"), "/l/p/stdout.old.log");
    assert_eq!(LoggingService::old_log_path("/l/p/out.txt"), "/l/p/out.txt.old.log");
    assert_eq!(LoggingService::get_max_log_size_bytes(Some(2)), Some(2 * 1048576));
    assert_eq!(LoggingService::get_max_log_size_bytes(Some(u64::MAX)), Some(u64::MAX));
    assert_eq!(LoggingService::get_max_log_size_bytes(None), None);
    assert!(matches!(LoggingService::rotation_step(0, 10, 95, 100), RotationStep::Write { from: 0, to: 5 }));
    assert!(matches!(LoggingService::rotation_step(5, 10, 100, 100), RotationStep::Rotate));
    assert!(matches!(LoggingService::rotation_step(10, 10, 0, 100), RotationStep::Done));
    assert!(matches!(LoggingService::rotation_step(2, 10, 0, 100), RotationStep::Write { from: 2, to: 10 }));
    let (o, e) = LoggingService::log_paths("/h/.pm3", "web");
    assert_eq!(o, "/h/.pm3/processes/web/stdout.log");
    assert_eq!(e, "/h/.pm3/processes/web/stderr.log");
}

#[test]
fn log_buffering() {
    let mut b = LogBuffers::new();
    assert!(!b.accept(1, StreamKind::Stdout, b"hello"));
    assert!(!b.accept(1, StreamKind::Stderr, b"err"));
    assert_eq!(b.procs.len(), 1);
    assert_eq!(b.procs[0].out, b"hello".to_vec());
    assert_eq!(b.procs[0].err, b"err".to_vec());
    assert_eq!(b.bytes_recent, 8);
    let big = vec![0u8; MAX_BUF_PER_PROC];
    assert!(b.accept(2, StreamKind::Stdout, &big));
}

#[test]
fn metrics_pieces() {
    assert_eq!(MetricsService::mem_kib(1536), 2);
    assert_eq!(MetricsService::mem_kib(511), 0);
    assert_eq!(MetricsService::cleanup_cutoff(100000), 100000 - 86400);
    let (ps, lines) = MetricsService::parse_programs_and_line_from_query("p=1&p=x&lines=40&p=3").unwrap();
    assert_eq!(ps, vec!["1".to_string(), "3".to_string()]);
    assert_eq!(lines, 40);
    assert_eq!(MetricsService::parse_programs_and_line_from_query("").unwrap().1, 15);
    assert_eq!(MetricsService::parse_since_from_query("a=1&since=-5"), Some(-5));
    assert_eq!(MetricsService::parse_since_from_query("since=x"), None);
    assert_eq!(list_body(&vec![(1, "api".to_string()), (2, "web".to_string())]), "1: api\n2: web\n");
    assert_eq!(metrics_body(&vec![(10, 125, 300), (11, -15, 0)]), "10: 12, 300\n11: -1, 0\n");
    assert_eq!(stream_header(), b"PM3M\x01\x0e".to_vec());
    let mut rec = [0u8; 14];
    MetricsService::encode_metric_record(0x0102, 0x0304, 0x05060708, &mut rec);
    assert_eq!(rec, [2, 1, 0, 0, 0, 0, 0, 0, 4, 3, 8, 7, 6, 5]);
    assert_eq!(MetricsService::record_of_row(-1, 70000, -3), (0, u16::MAX, 0));
}

#[test]
fn metrics_batches_and_chunks() {
    let mut b = MetricsBatch::new();
    for i in 0..(MAX_BATCH - 1) {
        assert!(!b.push(MetricsRow { external_id: 1, ts: i as i64, cpu_x10: 0, mem_kib: 0 }));
    }
    assert!(b.push(MetricsRow { external_id: 1, ts: 0, cpu_x10: 0, mem_kib: 0 }));
    assert_eq!(b.take().len(), MAX_BATCH);
    assert!(b.rows.is_empty());
    let mut w = ChunkedBytesWriter::new(4);
    assert_eq!(w.write(b"ab"), None);
    assert_eq!(w.write(b"cde"), Some(b"abcde".to_vec()));
    assert_eq!(w.flush_chunk(), None);
    assert_eq!(w.write(b"z"), None);
    assert_eq!(w.flush_chunk(), Some(b"z".to_vec()));
}

#[test]
fn daemon_settings() {
    let key_text = DaemonConfig::encode_key(&KEY);
    let c = DaemonConfig {
        port: 8046,
        key_b64: key_text.clone(),
        metrics_api_port: 8096,
        metrics_api_addr: "127.0.0.1".to_string(),
    };
    assert_eq!(c.key(), KEY);
    assert_eq!(c.checked_key(), Some(KEY));
    let file = c.config_file_text();
    assert_eq!(file, format!("port=8046\ntoken={}", key_text));
    let client = Config::parse(&file).unwrap();
    assert_eq!(client.port, 8046);
    assert_eq!(client.key, key_text);
    assert_eq!(client.key(), KEY);
    assert!(Config::parse("port=abc").is_none());
    assert_eq!(DaemonConfig::env_file_text(9000), "PM3_IP=127.0.0.1\nPM3_API_PORT=9000\n");
    assert_eq!(DaemonConfig::api_port_from_env(Some("70000")), 8096);
    assert_eq!(DaemonConfig::api_port_from_env(Some("9001")), 9001);
    assert_eq!(DaemonConfig::api_addr_from_env(None), "127.0.0.1");
}

#[test]
fn config_error_messages() {
    assert_eq!(verify_start_config(" ").err().unwrap().message(), "empty query");
    assert_eq!(verify_start_config("a=1&a=2").err().unwrap().message(), "duplicate key 'a'");
    assert_eq!(verify_start_config("=1").err().unwrap().message(), "empty key in query: '=1'");
    assert_eq!(verify_start_config("a=%4").err().unwrap().message(), "bad percent-encoding in '%4'");
    assert_eq!(verify_start_config("a=%zz").err().unwrap().message(), "invalid hex digit 'z'");
    assert_eq!(
        verify_start_config("a=%ff").err().unwrap().message(),
        "invalid utf-8 sequence of 1 bytes from index 0"
    );
    assert_eq!(
        verify_start_config("proc_name=a&exec_dir=/srv&active=1").err().unwrap().message(),
        "missing required param: exec_name"
    );
    assert_eq!(
        verify_start_config("proc_name=a&exec_dir=srv&exec_name=/srv/x&active=1").err().unwrap().message(),
        "exec_dir must be absolute path: 'srv'"
    );
    assert_eq!(
        verify_start_config("proc_name=a&exec_dir=/srv&exec_name=/srv/x&active=2").err().unwrap().message(),
        "active must be 0/1/true/false, got '2'"
    );
    assert_eq!(
        verify_start_config("proc_name=a&exec_dir=/srv&exec_name=/etc/x&active=1").err().unwrap().message(),
        "exec_name must be within exec_dir: exec_name='/etc/x' exec_dir='/srv'"
    );
    assert_eq!(ConfigError::ProcNameEmpty.message(), "proc_name is empty");
    assert_eq!(ConfigError::ProcNameTooLong.message(), "proc_name too long");
    assert_eq!(ConfigError::ProcNameInvalidChars.message(), "proc_name contains invalid characters");
    assert_eq!(ConfigError::InvalidUtf8(3, None).message(), "incomplete utf-8 byte sequence from index 3");
    assert_eq!(
        verify_start_config("a=x%e2%82").err().unwrap().message(),
        "incomplete utf-8 byte sequence from index 1"
    );
    assert_eq!(
        verify_start_config("a=ab%e2%28").err().unwrap().message(),
        "invalid utf-8 sequence of 1 bytes from index 2"
    );
}

#[test]
fn log_buffer_flushing() {
    let mut b = LogBuffers::new();
    assert_eq!(b.pending(1), None);
    b.accept(1, StreamKind::Stdout, b"out");
    b.accept(2, StreamKind::Stderr, b"err");
    let pos = b.pending(1).unwrap();
    b.clear_out(pos);
    assert!(b.procs[pos].out.is_empty());
    assert_eq!(b.pending(1), None);
    assert_eq!(b.stats_line(), "[pm3][stats] received 6 bytes in last 15s (~0 B/s)");
    assert_eq!(b.bytes_recent, 0);
    let idle = b.idle_check();
    assert_eq!(idle, vec![(1, false, true), (2, true, false)]);
    let again = b.idle_check();
    assert_eq!(again, vec![(1, true, true), (2, true, true)]);
    let pos2 = b.pending(2).unwrap();
    b.clear_err(pos2);
    assert_eq!(b.pending(2), None);
}

#[test]
fn status_line_read_back() {
    let info = PmProcessStatusInfo {
        id: 3,
        name: "web-1".to_string(),
        status: PmProcessStatus::Exited(-2),
        pid: Some(42),
        uptime: Some(7),
        cpu_text: Some("0.50000".to_string()),
        memory_usage: Some(1024),
        user: Some("root".to_string()),
    };
    let line = info.to_qs_line();
    let m = pm3::status::parse_process(line.as_bytes(), true).expect("monitor reads the line");
    assert_eq!(m.id, 3);
    assert_eq!(m.name, "web-1");
    assert_eq!(m.status, pm3::status::ProcessStatus::Exited);
    assert_eq!(m.pid, Some(42));
    assert_eq!(m.uptime, Some(7));
    assert_eq!(m.cpu_raw, Some(b"0.50000".to_vec()));
    assert_eq!(m.mem, Some(1024));
    assert_eq!(m.user, Some("root".to_string()));
    assert_eq!(m.exit_code, Some(-2));
    let t = pm3::status::parse_process(line.as_bytes(), false).expect("the table reads the line");
    assert_eq!(t.exit_code, Some(0));
    assert_eq!(t.name, "web-1");

    let running = PmProcessStatusInfo {
        id: 9,
        name: "api".to_string(),
        status: PmProcessStatus::Running,
        pid: None,
        uptime: None,
        cpu_text: None,
        memory_usage: None,
        user: None,
    };
    let r = pm3::status::parse_process(running.to_qs_line().as_bytes(), false).unwrap();
    assert_eq!(r.id, 9);
    assert_eq!(r.status, pm3::status::ProcessStatus::Running);
    assert_eq!(r.pid, None);
    assert_eq!(r.exit_code, None);
}

#[test]
fn stop_and_restart_steps() {
    let mut t = ProcessTable::new();
    t.add(cfg("api"));
    t.add(cfg("web"));
    t.processes[1].set_status(PmProcessStatus::Stopped);
    assert_eq!(t.stop_step("1"), StopStep::Stop(0));
    assert_eq!(t.stop_step("api"), StopStep::Stop(0));
    assert_eq!(t.stop_step("web"), StopStep::AlreadyStopped(1));
    assert_eq!(t.stop_step("nope"), StopStep::Skip);
    assert_eq!(t.restart_step("2"), RestartStep::Restart { pos: 1, stop_first: false });
    t.processes[0].awake_spawned(Some(42));
    assert_eq!(t.restart_step("api"), RestartStep::Restart { pos: 0, stop_first: true });
    assert_eq!(t.restart_step("7"), RestartStep::Skip);
}

#[test]
fn start_command_read_back() {
    let c = pm3::cli::NewProcessConfig::new(
        "web".to_string(),
        "/srv".to_string(),
        "/srv/bin/app".to_string(),
        vec!["-v".to_string(), "x".to_string()],
    );
    let cmd = c.start_command();
    assert_eq!(cmd, "start \"proc_name=web&exec_dir=%2Fsrv&exec_name=%2Fsrv%2Fbin%2Fapp&active=1&args=-v%20x\"");
    assert_eq!(cmd, format!("start {:?}", c.to_url_encoded()));
    let words: Vec<&str> = cmd.split_whitespace().collect();
    let word: Vec<char> = words[0].chars().collect();
    let req = pm3::commands::request_of(&word, words[1..].iter().map(|s| s.to_string()).collect());
    let arg = match req {
        Request::Start(Some(a)) => a,
        _ => panic!("not a start request"),
    };
    let cfg = match verify_start_config(&arg) {
        Ok(c) => c,
        Err(e) => panic!("refused: {}", e.message()),
    };
    assert_eq!(cfg.proc_name, "web");
    assert_eq!(cfg.exec_dir, "/srv");
    assert_eq!(cfg.exec_name, "/srv/bin/app");
    assert!(cfg.active);
    assert!(cfg.exec_args.is_empty());

    let outside = pm3::cli::NewProcessConfig::new("w".to_string(), "/srv".to_string(), "/opt/app".to_string(), Vec::new());
    let cmd = outside.start_command();
    let arg = cmd.split_whitespace().nth(1).unwrap().to_string();
    assert!(matches!(verify_start_config(&arg), Err(ConfigError::NotWithin(_, _))));
}

#[test]
fn compressed_metrics_stream() {
    let rows = vec![(0x0102i64, 0x0304i64, 0x05060708i64), (-5, 70000, -1)];
    let payload = pm3::metrics::metrics_payload(&rows);
    let mut expected = b"PM3M\x01\x0e".to_vec();
    expected.extend_from_slice(&[0x02, 0x01, 0, 0, 0, 0, 0, 0, 0x04, 0x03, 0x08, 0x07, 0x06, 0x05]);
    expected.extend_from_slice(&[0, 0, 0, 0, 0, 0, 0, 0, 0xff, 0xff, 0, 0, 0, 0]);
    assert_eq!(payload, expected);
    let compressed = MetricsService::compressed_metrics(&rows).unwrap();
    assert_ne!(compressed, payload);
    assert_eq!(&compressed[..4], &[0x28, 0xb5, 0x2f, 0xfd]);
    let back = zstd::stream::decode_all(compressed.as_slice()).unwrap();
    assert_eq!(back, payload);
}

#[test]
fn fresh_keys() {
    let a = DaemonConfig::fresh_key_text().unwrap();
    let b = DaemonConfig::fresh_key_text().unwrap();
    assert_eq!(a.len(), 43);
    assert!(pm3::daemon_config::decode_key(&a).is_some());
    assert!(pm3::daemon_config::decode_key(&b).is_some());
    assert_ne!(a, b);
}

#[test]
fn list_reply_read_back() {
    let a = PmProcessStatusInfo {
        id: 1,
        name: "api".to_string(),
        status: PmProcessStatus::Running,
        pid: Some(100),
        uptime: Some(5),
        cpu_text: Some("1.00000".to_string()),
        memory_usage: Some(4096),
        user: Some("svc".to_string()),
    };
    let b = PmProcessStatusInfo {
        id: 2,
        name: "web".to_string(),
        status: PmProcessStatus::Stopped,
        pid: None,
        uptime: None,
        cpu_text: None,
        memory_usage: None,
        user: None,
    };
    let reply = ok_text(&list_reply(&vec![a.to_qs_line(), b.to_qs_line()]));
    let text = pm3::logview::reply_text(reply.as_bytes());
    let got = pm3::status::parse_status_reply(&text, false);
    assert_eq!(got.len(), 2);
    assert_eq!(got[0].id, 1);
    assert_eq!(got[0].name, "api");
    assert_eq!(got[0].status, pm3::status::ProcessStatus::Running);
    assert_eq!(got[0].pid, Some(100));
    assert_eq!(got[0].mem, Some(4096));
    assert_eq!(got[0].user, Some("svc".to_string()));
    assert_eq!(got[1].id, 2);
    assert_eq!(got[1].status, pm3::status::ProcessStatus::Stopped);
    assert_eq!(got[1].pid, None);
    let empty = pm3::logview::reply_text(ok_text(&list_reply(&Vec::new())).as_bytes());
    assert!(pm3::status::parse_status_reply(&empty, true).is_empty());
}

#[test]
fn program_names_read_back() {
    let mut t = ProcessTable::new();
    t.add(cfg("api"));
    t.add(cfg("web"));
    let text = pm3::logview::reply_text(ok_text(&t.list_programs_reply()).as_bytes());
    let names = pm3::cli::get_process_names(&text);
    assert_eq!(names, vec![("1".to_string(), "api".to_string()), ("2".to_string(), "web".to_string())]);
    let empty = ProcessTable::new();
    let text = pm3::logview::reply_text(ok_text(&empty.list_programs_reply()).as_bytes());
    assert!(pm3::cli::get_process_names(&text).is_empty());
}

#[test]
fn unix_seconds() {
    assert_eq!(pm3::metrics::unix_secs_of(Some(1_700_000_000)), 1_700_000_000);
    assert_eq!(pm3::metrics::unix_secs_of(None), 0);
    assert_eq!(pm3::metrics::unix_secs_of(Some(u64::MAX)), -1);
    assert!(pm3::metrics::now_unix_secs() > 1_600_000_000);
}

#[test]
fn fresh_ids_count_up() {
    let mut c = IdCounter::new();
    let ids: Vec<u64> = (0..5).map(|_| alloc_id(&mut c)).collect();
    assert_eq!(ids, vec![1, 2, 3, 4, 5]);
    assert_eq!(c.next, 6);
    let mut last = IdCounter { next: u64::MAX };
    assert_eq!(alloc_id(&mut last), u64::MAX);
    assert_eq!(last.next, 0);
}

#[test]
fn wire_line_forms() {
    let a = aad();
    let t = encrypt_reply_to_token(&KEY, b"OK pong\n", &a).unwrap();
    for line in [format!("ENC {t}\n"), format!("  {t} "), format!("\t ENC {t}\r\n"), t.clone()] {
        assert_eq!(decrypt_wire_line(&KEY, &line, &a).ok(), Some(b"OK pong\n".to_vec()));
    }
}

#[test]
fn log_stream_steps() {
    assert!(matches!(log_stream_step(LogEvent::Tick), LogAction::Send(t) if t == "ping\n"));
    assert!(matches!(log_stream_step(LogEvent::Chunk(LogChunk::Line("a".to_string()))), LogAction::Send(t) if t == "a\n"));
    assert!(matches!(log_stream_step(LogEvent::Chunk(LogChunk::Line("b\n".to_string()))), LogAction::Send(t) if t == "b\n"));
    assert!(matches!(log_stream_step(LogEvent::Chunk(LogChunk::Ping)), LogAction::Wait));
    match log_stream_step(LogEvent::Chunk(LogChunk::Eof)) {
        LogAction::Finish(s) => {
            assert_eq!(s.len(), 2);
            assert!(matches!(&s[0], FinalStep::Send(t) if t == "eof\n"));
            assert!(matches!(&s[1], FinalStep::Unsubscribe));
        }
        _ => panic!("eof ends the stream"),
    }
    match log_stream_step(LogEvent::SourceClosed) {
        LogAction::Finish(s) => {
            assert!(matches!(&s[0], FinalStep::Unsubscribe));
            assert!(matches!(&s[1], FinalStep::Send(t) if t == "eof\n"));
        }
        _ => panic!("a closed source ends the stream"),
    }
    assert!(matches!(log_stream_step(LogEvent::SendFailed), LogAction::Finish(s) if s.len() == 1 && matches!(s[0], FinalStep::Unsubscribe)));
    assert!(matches!(log_stream_step(LogEvent::SubscribeFailed), LogAction::Finish(s) if s.len() == 1));
}

#[test]
fn tokens_under_a_given_nonce() {
    let a = aad();
    let nonce = [9u8; 12];
    let t1 = pm3::encryption::encrypt_with_nonce(&KEY, &nonce, b"hello", &a);
    let t2 = pm3::encryption::encrypt_with_nonce(&KEY, &nonce, b"hello", &a);
    assert_eq!(t1, t2);
    let raw = URL_SAFE_NO_PAD.decode(&t1).unwrap();
    assert_eq!(raw[0], 1);
    assert_eq!(&raw[1..13], &nonce);
    assert_eq!(raw.len(), 13 + 5 + 16);
    assert_eq!(decrypt_token_to_reply(&KEY, &t1, &a).ok(), Some(b"hello".to_vec()));
    assert!(pm3::commands::fits_on_wire("ping"));
}

#[test]
fn start_steps() {
    let mut t = ProcessTable::new();
    assert_eq!(t.start_step(cfg("api")), StartStep::Added { pos: 0, idx: 1 });
    assert_eq!(t.start_step(cfg("web")), StartStep::Added { pos: 1, idx: 2 });
    // A taken name leaves the table and the numbering as they were.
    assert_eq!(t.start_step(cfg("api")), StartStep::AlreadyExists);
    assert_eq!(t.processes.len(), 2);
    assert_eq!(t.list_programs_reply(), "1 api 2 web");
    assert_eq!(t.start_step(cfg("db")), StartStep::Added { pos: 2, idx: 3 });
    assert_eq!(t.processes[2].proc_name, "db");
    assert_eq!(already_exists_reply(), "Process already exists");
    assert_eq!(started_reply(), "Started successfully");
}

#[test]
fn relay_steps() {
    assert!(matches!(relay_step(LogEvent::Tick), RelayAction::Send(LogChunk::Ping)));
    assert!(matches!(relay_step(LogEvent::Chunk(LogChunk::Line("a b".to_string()))), RelayAction::Send(LogChunk::Line(l)) if l == "a b"));
    assert!(matches!(relay_step(LogEvent::Chunk(LogChunk::Ping)), RelayAction::Wait));
    match relay_step(LogEvent::Chunk(LogChunk::Eof)) {
        RelayAction::Finish(s) => {
            assert_eq!(s.len(), 2);
            assert!(matches!(s[0], RelayFinal::SendEof));
            assert!(matches!(s[1], RelayFinal::Unsubscribe));
        }
        _ => panic!("the end of the stream ends the relay"),
    }
    match relay_step(LogEvent::SourceClosed) {
        RelayAction::Finish(s) => {
            assert_eq!(s.len(), 2);
            assert!(matches!(s[0], RelayFinal::Unsubscribe));
            assert!(matches!(s[1], RelayFinal::SendEof));
        }
        _ => panic!("a closed source ends the relay"),
    }
    assert!(matches!(relay_step(LogEvent::SendFailed), RelayAction::Finish(s) if s.len() == 1 && matches!(s[0], RelayFinal::Unsubscribe)));
    assert!(matches!(relay_step(LogEvent::SubscribeFailed), RelayAction::Finish(s) if s.len() == 1 && matches!(s[0], RelayFinal::SendEof)));
}

#[test]
fn output_counters() {
    let mut b = LogBuffers::new();
    b.accept(1, StreamKind::Stdout, b"abc");
    b.accept(1, StreamKind::Stdout, b"de");
    b.accept(1, StreamKind::Stderr, b"x");
    assert_eq!(b.procs[0].out_recent, 5);
    assert_eq!(b.procs[0].err_recent, 1);
    b.accept(2, StreamKind::Stderr, b"zz");
    assert_eq!(b.procs[1].out_recent, 0);
    assert_eq!(b.procs[1].err_recent, 2);
    assert_eq!(b.idle_check(), vec![(1, false, false), (2, true, false)]);
    assert_eq!(b.procs[0].out_recent, 0);
}

#[test]
fn revive_resets_only_a_full_table() {
    let mut t = ProcessTable::new();
    t.add(cfg("api"));
    t.remove_at(0);
    // An empty table keeps its numbering.
    assert!(!t.revive_reset());
    assert_eq!(t.add(cfg("web")), 2);
    // A table that holds processes is emptied and numbers from 1 again.
    assert!(t.revive_reset());
    assert!(t.processes.is_empty());
    assert_eq!(t.add(cfg("db")), 1);
}

#[test]
fn accept_keeps_other_buffers() {
    let mut b = LogBuffers::new();
    b.accept(1, StreamKind::Stdout, b"one");
    b.accept(2, StreamKind::Stderr, b"two");
    b.accept(3, StreamKind::Stdout, b"three");
    b.accept(2, StreamKind::Stdout, b"more");
    assert_eq!(b.procs.len(), 3);
    assert_eq!(b.procs[0].out, b"one".to_vec());
    assert_eq!(b.procs[1].err, b"two".to_vec());
    assert_eq!(b.procs[1].out, b"more".to_vec());
    assert_eq!(b.procs[2].out, b"three".to_vec());
}

#[test]
fn state_changes_keep_the_configuration() {
    let mut p = PmProcess::new(cfg("api"), 1);
    p.awake_spawned(Some(5));
    p.stopped();
    p.exited(Some(1));
    assert_eq!(p.config.proc_name, "api");
    assert_eq!(p.config.exec_name, "/srv/app");
    assert_eq!(p.config.exec_args, vec!["-v".to_string(), "x".to_string()]);
}
