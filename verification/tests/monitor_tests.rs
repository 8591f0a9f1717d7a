use pm3::logview::{read_log_message, read_monitor_message, LogOutput, LogStream, MonitorLog};
use pm3::monitor::{
    key_for_char, metrics_url, monitor_logs_command, open_monitor, since_for, sort_processes,
    LogLineStyle, MonitorAction, MonitorKey, MonitorState, MAX_LOG_LINES, log_line_style,
};
use pm3::status::{parse_status_reply, PmProcessStatusInfo, ProcessStatus};
use pm3::table::{
    exit_cell, fmt_pid, fmt_uptime, monitor_uptime, status_cell, status_label, text_or_dash,
};

fn info(id: u64, name: &str, status: ProcessStatus) -> PmProcessStatusInfo {
    PmProcessStatusInfo {
        id,
        name: name.to_string(),
        status,
        pid: None,
        uptime: None,
        cpu_raw: None,
        mem: None,
        user: None,
        exit_code: None,
    }
}

fn with_processes(ids: &[u64]) -> MonitorState {
    let mut m = open_monitor();
    let v = ids.iter().map(|i| info(*i, "p", ProcessStatus::Running)).collect();
    m.apply_status(Ok(v));
    m
}

#[test]
fn monitor_opens_empty() {
    let m = open_monitor();
    assert!(m.processes.is_empty());
    assert_eq!(m.selected, 0);
    assert_eq!(m.list_selected, Some(0));
    assert_eq!(m.status_message, "Connecting...");
    assert_eq!(m.selected_process_id(), None);
    assert_eq!(m.stream_target(), None);
}

#[test]
fn refresh_sorts_and_keeps_selection_by_id() {
    let mut m = with_processes(&[3, 1, 2]);
    let ids: Vec<u64> = m.processes.iter().map(|p| p.id).collect();
    assert_eq!(ids, vec![1, 2, 3]);
    assert_eq!(m.status_message, "Connected • 3 process(es)");
    assert_eq!(m.selected_process_id(), Some(1));
    assert!(m.move_down());
    assert!(m.move_down());
    assert_eq!(m.selected_process_id(), Some(3));
    // Process 3 now comes first: the selection follows it.
    m.apply_status(Ok(vec![info(3, "c", ProcessStatus::Stopped), info(7, "d", ProcessStatus::Running)]));
    assert_eq!(m.selected, 0);
    assert_eq!(m.selected_process_id(), Some(3));
    // Process 3 is gone: the selection stays on the list.
    m.apply_status(Ok(vec![info(5, "e", ProcessStatus::Running)]));
    assert_eq!(m.selected, 0);
    assert_eq!(m.selected_process_id(), Some(5));
}

#[test]
fn refresh_outcomes() {
    let mut m = with_processes(&[1]);
    m.apply_status(Err("timeout".to_string()));
    assert_eq!(m.status_message, "Status refresh failed: timeout");
    assert_eq!(m.processes.len(), 1);
    m.apply_status(Ok(Vec::new()));
    assert!(m.processes.is_empty());
    assert_eq!(m.list_selected, None);
    assert_eq!(m.status_message, "No processes managed by daemon");
}

#[test]
fn moving_the_selection() {
    let mut m = with_processes(&[1, 2]);
    assert!(!m.move_up());
    assert!(m.move_down());
    assert!(!m.move_down());
    assert_eq!(m.selected, 1);
    assert!(m.move_up());
    assert_eq!(m.selected, 0);
    let mut e = open_monitor();
    assert!(!e.move_down());
    assert!(!e.move_up());
}

#[test]
fn stable_sort_by_id() {
    let v = vec![info(2, "a", ProcessStatus::Running), info(1, "b", ProcessStatus::Running), info(2, "c", ProcessStatus::Running)];
    let s = sort_processes(v);
    let names: Vec<&str> = s.iter().map(|p| p.name.as_str()).collect();
    assert_eq!(names, vec!["b", "a", "c"]);
}

#[test]
fn log_pane_keeps_the_last_lines() {
    let mut m = open_monitor();
    for i in 0..(MAX_LOG_LINES + 3) {
        m.push_log_line(format!("line {i}"));
    }
    assert_eq!(m.logs.len(), MAX_LOG_LINES);
    assert_eq!(m.logs[0], "line 3");
    assert_eq!(m.logs[MAX_LOG_LINES - 1], format!("line {}", MAX_LOG_LINES + 2));
    m.clear_logs();
    assert!(m.logs.is_empty());
}

#[test]
fn keys_and_actions() {
    assert_eq!(key_for_char('q'), MonitorKey::Quit);
    assert_eq!(key_for_char('k'), MonitorKey::Up);
    assert_eq!(key_for_char('j'), MonitorKey::Down);
    assert_eq!(key_for_char('c'), MonitorKey::ClearLogs);
    assert_eq!(key_for_char('s'), MonitorKey::Stop);
    assert_eq!(key_for_char('r'), MonitorKey::Restart);
    assert_eq!(key_for_char('x'), MonitorKey::Other);
    let mut m = with_processes(&[4, 9]);
    assert!(matches!(m.handle_key(MonitorKey::Stop), MonitorAction::Send(c) if c == "stop 4"));
    assert!(matches!(m.handle_key(MonitorKey::Down), MonitorAction::SelectionMoved));
    assert!(matches!(m.handle_key(MonitorKey::Restart), MonitorAction::Send(c) if c == "restart 9"));
    assert!(matches!(m.handle_key(MonitorKey::Down), MonitorAction::Nothing));
    m.show_all_logs = true;
    assert!(matches!(m.handle_key(MonitorKey::Up), MonitorAction::Nothing));
    assert_eq!(m.selected, 0);
    assert!(matches!(m.handle_key(MonitorKey::Quit), MonitorAction::Quit));
    let mut e = open_monitor();
    assert!(matches!(e.handle_key(MonitorKey::Stop), MonitorAction::Nothing));
}

#[test]
fn log_scrolling() {
    let mut m = open_monitor();
    for i in 0..10 {
        m.push_log_line(format!("{i}"));
    }
    // 5 rows of a 7-row pane show the last five lines.
    assert_eq!(m.log_window(7), (5, 10));
    m.handle_key(MonitorKey::PageUp);
    m.handle_key(MonitorKey::PageUp);
    assert_eq!(m.log_scroll, 2);
    assert_eq!(m.log_window(7), (3, 8));
    for _ in 0..10 {
        m.handle_key(MonitorKey::PageUp);
    }
    assert_eq!(m.log_scroll, 5);
    m.handle_key(MonitorKey::PageDown);
    assert_eq!(m.log_scroll, 4);
    // A taller pane shows everything and clamps the scroll.
    assert_eq!(m.log_window(40), (0, 10));
    assert_eq!(m.log_scroll, 0);
}

#[test]
fn process_list_scrolling() {
    let ids: Vec<u64> = (1..=20).collect();
    let mut m = with_processes(&ids);
    for _ in 0..12 {
        m.move_down();
    }
    assert_eq!(m.selected, 12);
    // 6 rows: the list moves so the selection is two rows from the bottom.
    let (start, rows, row) = m.process_window(8);
    assert_eq!(rows, 6);
    assert_eq!(start, 8);
    assert_eq!(row, 4);
    let (start, _, row) = m.process_window(0);
    assert_eq!(start, 12);
    assert_eq!(row, 0);
}

#[test]
fn monitor_commands() {
    assert_eq!(monitor_logs_command(Some(12)), "logs --lines=40 12");
    assert_eq!(monitor_logs_command(None), "logs --lines=40");
    assert_eq!(metrics_url(3, 100), "http://localhost:8096/api/v1/get_metrics/3?since=100");
    assert_eq!(since_for(100), 70);
    assert_eq!(since_for(10), 0);
}

#[test]
fn log_line_styles() {
    match log_line_style("[1:err] boom") {
        LogLineStyle::Split { prefix, msg, err } => {
            assert_eq!(prefix, "[1:err]");
            assert_eq!(msg, "boom");
            assert!(err);
        }
        LogLineStyle::Plain => panic!("expected a split line"),
    }
    match log_line_style("[2:out] fine") {
        LogLineStyle::Split { err, .. } => assert!(!err),
        LogLineStyle::Plain => panic!("expected a split line"),
    }
    assert!(matches!(log_line_style("logs: EOF"), LogLineStyle::Plain));
}

#[test]
fn cli_log_messages() {
    assert!(matches!(read_log_message(b"OK EOF"), LogOutput::Stop));
    assert!(matches!(read_log_message(b"  LOGS \n"), LogOutput::Skip));
    match read_log_message(b"LOG 3 stderr  oops  ") {
        LogOutput::Item { pid, stream, text } => {
            assert_eq!(pid, "3");
            assert_eq!(stream, LogStream::Stderr);
            assert_eq!(text, "oops");
        }
        _ => panic!("expected an item"),
    }
    assert!(matches!(read_log_message(b"LOG 3 other x"), LogOutput::Skip));
    assert!(matches!(read_log_message(b"LOG 3 stdout"), LogOutput::Skip));
    assert!(matches!(read_log_message(b"hello"), LogOutput::Print(s) if s == "hello"));
}

#[test]
fn monitor_log_messages() {
    assert!(matches!(read_monitor_message(b"PING"), MonitorLog::Skip));
    assert!(matches!(read_monitor_message(b"OK EOF"), MonitorLog::ShowAndStop(s) if s == "logs: EOF"));
    assert!(matches!(read_monitor_message(b"LOG 7 STDERR bad"), MonitorLog::Show(s) if s == "[7:err] bad"));
    assert!(matches!(read_monitor_message(b"LOG 7 stdout good day"), MonitorLog::Show(s) if s == "[7:out] good day"));
    assert!(matches!(read_monitor_message(b"LOG 7"), MonitorLog::Skip));
    assert!(matches!(read_monitor_message(b"ERR no such process"), MonitorLog::Show(s) if s == "logs error: no such process"));
    assert!(matches!(read_monitor_message(b"other"), MonitorLog::Show(s) if s == "other"));
}

#[test]
fn table_cells() {
    assert_eq!(fmt_uptime(None), "-");
    assert_eq!(fmt_uptime(Some(0)), "0s");
    assert_eq!(fmt_uptime(Some(61)), "1m 1s");
    assert_eq!(fmt_uptime(Some(3 * 3600 + 120)), "3h 2m");
    assert_eq!(fmt_uptime(Some(86400)), "1 day");
    assert_eq!(fmt_uptime(Some(3 * 86400 + 5)), "3 days");
    assert_eq!(fmt_uptime(Some(2592000)), "1 month");
    assert_eq!(fmt_uptime(Some(2 * 31536000)), "2 years");
    assert_eq!(monitor_uptime(Some(90061)), "1d 1h");
    assert_eq!(monitor_uptime(Some(3700)), "1h 1m");
    assert_eq!(monitor_uptime(Some(59)), "59s");
    assert_eq!(monitor_uptime(None), "-");
    assert_eq!(fmt_pid(Some(1234)), "1234");
    assert_eq!(fmt_pid(None), "-");
    assert_eq!(status_cell(&ProcessStatus::Running, None), "RUNNING");
    assert_eq!(status_cell(&ProcessStatus::Stopped, Some(1)), "STOPPED");
    assert_eq!(status_cell(&ProcessStatus::Exited, Some(-2)), "EXITED (-2)");
    assert_eq!(status_cell(&ProcessStatus::Exited, None), "EXITED");
    assert_eq!(status_label(&ProcessStatus::Exited), "EXITED");
    assert_eq!(exit_cell(Some(0)), "0");
    assert_eq!(exit_cell(None), "-");
    assert_eq!(text_or_dash(&Some("bob".to_string())), "bob");
    assert_eq!(text_or_dash(&None), "-");
}

#[test]
fn monitor_reads_exit_codes_as_numbers() {
    let ps = parse_status_reply("OK 1\nid=1&name=a&status=exited&exit_code=-4\nid=2&name=b&exit_code=x\n", true);
    assert_eq!(ps.len(), 2);
    assert_eq!(ps[0].exit_code, Some(-4));
    assert_eq!(ps[1].exit_code, None);
    let plain = parse_status_reply("OK 1\nid=1&name=a&exit_code=-4\n", false);
    assert_eq!(plain[0].exit_code, Some(0));
}

#[test]
fn paging_and_clearing_keep_the_rest() {
    let mut m = with_processes(&[1, 2, 3]);
    m.move_down();
    for i in 0..4 {
        m.push_log_line(format!("{i}"));
    }
    assert_eq!(m.status_message, "Connected • 3 process(es)");
    m.handle_key(MonitorKey::PageUp);
    m.handle_key(MonitorKey::PageDown);
    assert_eq!(m.selected, 1);
    assert_eq!(m.list_selected, Some(1));
    assert!(matches!(m.handle_key(MonitorKey::ClearLogs), MonitorAction::Nothing));
    assert!(m.logs.is_empty());
    assert_eq!(m.selected, 1);
    assert_eq!(m.status_message, "Connected • 3 process(es)");
}
