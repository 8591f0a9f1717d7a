use pm3::cli::{
    delete_program, dump_program, get_process_names, has_path_separators, is_script_ext,
    logs_needs_listing, normalize_path, ping_server, process_name_for, request_logs,
    request_status, restart_program, revive_program, runner_for_ext, start_proc_name,
    stop_program, CliError, NewProcessConfig,
};
use pm3::status::ProcessStatus;

fn strings(v: &[&str]) -> Vec<String> {
    v.iter().map(|s| s.to_string()).collect()
}

#[test]
fn url_encoded_start_request() {
    let cfg = NewProcessConfig::new(
        "my app".to_string(),
        "/home/u/dir".to_string(),
        "/usr/bin/python3".to_string(),
        strings(&["main.py", "--port=80"]),
    );
    assert!(cfg.active);
    assert_eq!(
        cfg.to_url_encoded(),
        "proc_name=my%20app&exec_dir=%2Fhome%2Fu%2Fdir&exec_name=%2Fusr%2Fbin%2Fpython3&active=1&args=main.py%20--port%3D80"
    );
}

#[test]
fn url_encoded_without_args_and_inactive() {
    let mut cfg = NewProcessConfig::new("a".to_string(), "d".to_string(), "e".to_string(), Vec::new());
    cfg.active = false;
    assert_eq!(cfg.to_url_encoded(), "proc_name=a&exec_dir=d&exec_name=e&active=0");
}

#[test]
fn url_encoded_utf8_bytes() {
    let cfg = NewProcessConfig::new("é".to_string(), "~".to_string(), "x".to_string(), Vec::new());
    assert_eq!(cfg.to_url_encoded(), "proc_name=%C3%A9&exec_dir=~&exec_name=x&active=1");
}

#[test]
fn path_separators() {
    assert!(has_path_separators("./run.sh"));
    assert!(has_path_separators("C:\\bin\\x.exe"));
    assert!(!has_path_separators("node"));
    assert!(!has_path_separators(""));
}

#[test]
fn script_extensions() {
    assert!(is_script_ext("app.py"));
    assert!(is_script_ext("/srv/APP.JS"));
    assert!(is_script_ext("x.swift"));
    assert!(is_script_ext("tool.R"));
    assert!(!is_script_ext("binary"));
    assert!(!is_script_ext(".py"));
    assert!(!is_script_ext("a.exe"));
    assert!(!is_script_ext("dir/.."));
}

#[test]
fn runners_by_extension() {
    assert_eq!(runner_for_ext("main.py"), Some("python3"));
    assert_eq!(runner_for_ext("main.PYW"), Some("python3"));
    assert_eq!(runner_for_ext("a/b/c.mjs"), Some("node"));
    assert_eq!(runner_for_ext("x.tsx"), Some("ts-node"));
    assert_eq!(runner_for_ext("x.sh"), Some("bash"));
    assert_eq!(runner_for_ext("x.zsh"), Some("zsh"));
    assert_eq!(runner_for_ext("x.fish"), Some("fish"));
    assert_eq!(runner_for_ext("x.bat"), Some("cmd"));
    assert_eq!(runner_for_ext("x.ps1"), Some("powershell"));
    assert_eq!(runner_for_ext("x.rb"), Some("ruby"));
    assert_eq!(runner_for_ext("x.php"), Some("php"));
    assert_eq!(runner_for_ext("x.pl"), Some("perl"));
    assert_eq!(runner_for_ext("x.lua"), Some("lua"));
    assert_eq!(runner_for_ext("x.dart"), None);
    assert_eq!(runner_for_ext("noext"), None);
}

#[test]
fn normalizing_paths() {
    assert_eq!(normalize_path("/a/b/../c/./d"), "/a/c/d");
    assert_eq!(normalize_path("../x"), "../x");
    assert_eq!(normalize_path("a/../../b"), "../b");
    assert_eq!(normalize_path("/.."), "/..");
    assert_eq!(normalize_path("./"), "");
}

#[test]
fn default_process_names() {
    assert_eq!(start_proc_name("/srv/app/server.py", None), "server");
    assert_eq!(start_proc_name("node", None), "node");
    assert_eq!(start_proc_name("archive.tar.gz", None), "archive.tar");
    assert_eq!(start_proc_name("..", None), "..");
    assert_eq!(start_proc_name("x.py", Some("given".to_string())), "given");
}

#[test]
fn stop_command_text() {
    assert_eq!(stop_program(&strings(&["1", "web"])), "stop 1 web");
    assert_eq!(stop_program(&Vec::new()), "stop ");
}

#[test]
fn fixed_command_texts() {
    assert_eq!(dump_program(), "dump");
    assert_eq!(revive_program(), "revive");
    assert_eq!(ping_server("OK pong"), "Response from daemon: OK pong");
}

#[test]
fn delete_command_text() {
    assert_eq!(delete_program(&strings(&["3", "web"]), ""), Ok("delete 3 web".to_string()));
    // `all` takes the words at even positions of the listing, without repeats.
    assert_eq!(
        delete_program(&strings(&["2", "all"]), "1 api 2 web 3"),
        Ok("delete 2 1 3".to_string())
    );
    assert_eq!(delete_program(&Vec::new(), "1 a"), Err(CliError::NoProgramsSpecified));
    assert_eq!(delete_program(&strings(&["all"]), ""), Err(CliError::NoProgramsFound));
}

#[test]
fn restart_command_text() {
    let listing = "OK 1 api 2 web 3 db";
    assert_eq!(restart_program(&strings(&["web", "3"]), listing), Ok("restart 2 3".to_string()));
    assert_eq!(restart_program(&strings(&["all"]), listing), Ok("restart 1 2 3".to_string()));
    assert_eq!(restart_program(&strings(&["nope"]), listing), Err(CliError::NoProgramsFound));
    assert_eq!(restart_program(&Vec::new(), listing), Err(CliError::NoProgramsSpecified));
    // A last id without a name is not listed.
    assert_eq!(restart_program(&strings(&["all"]), "1 a 2"), Ok("restart 1".to_string()));
}

#[test]
fn cli_error_messages() {
    assert_eq!(CliError::NoProgramsSpecified.message(), "no programs specified");
    assert_eq!(CliError::NoProgramsFound.message(), "no programs found");
}

#[test]
fn logs_command_text() {
    assert!(logs_needs_listing(&Vec::new()));
    assert!(logs_needs_listing(&strings(&["a", "all"])));
    assert!(!logs_needs_listing(&strings(&["a"])));
    assert_eq!(request_logs(Some(10), &strings(&["web"]), ""), "logs --lines=10 web");
    assert_eq!(request_logs(None, &strings(&["all", "x"]), "OK 1 a"), "logs OK 1 a");
    assert_eq!(request_logs(None, &Vec::new(), ""), "logs");
}

#[test]
fn process_names_from_listing() {
    let names = get_process_names("OK 1 api 2 web 1 again 9");
    assert_eq!(names.len(), 3);
    assert_eq!(process_name_for(&names, "1"), "again");
    assert_eq!(process_name_for(&names, "2"), "web");
    assert_eq!(process_name_for(&names, "9"), "?");
}

#[test]
fn status_reply_is_read() {
    let reply = "OK 2\nid=1&name=api&status=running&pid=42&uptime=7&cpu=1.5&mem=100&user=bob\nbroken\nid=2&name=web&status=exited&exit_code=3\n";
    let ps = request_status(reply);
    assert_eq!(ps.len(), 2);
    assert_eq!(ps[0].id, 1);
    assert_eq!(ps[0].name, "api");
    assert!(ps[0].status == ProcessStatus::Running);
    assert_eq!(ps[0].pid, Some(42));
    assert_eq!(ps[0].uptime, Some(7));
    assert_eq!(ps[0].cpu_raw, Some(b"1.5".to_vec()));
    assert_eq!(ps[0].mem, Some(100));
    assert_eq!(ps[0].user, Some("bob".to_string()));
    assert_eq!(ps[1].id, 2);
    assert!(ps[1].status == ProcessStatus::Exited);
    assert_eq!(ps[1].exit_code, Some(3));
    assert!(request_status("").is_empty());
}

fn read_back(text: &str) -> pm3::commands::Request {
    let words: Vec<&str> = text.split_whitespace().collect();
    let first: Vec<char> = words[0].chars().collect();
    pm3::commands::request_of(&first, words[1..].iter().map(|s| s.to_string()).collect())
}

#[test]
fn logs_command_read_back() {
    let text = request_logs(Some(10), &strings(&["web", "api"]), "");
    match read_back(&text) {
        pm3::commands::Request::Logs { lines, programs } => {
            assert_eq!(lines, 10);
            assert_eq!(programs, strings(&["web", "api"]));
        }
        _ => panic!("not a logs request"),
    }
    match read_back(&request_logs(None, &strings(&["all"]), "1 web 2 api")) {
        pm3::commands::Request::Logs { lines, programs } => {
            assert_eq!(lines, 25);
            assert_eq!(programs, strings(&["1", "web", "2", "api"]));
        }
        _ => panic!("not a logs request"),
    }
    match read_back(&request_logs(None, &Vec::new(), "")) {
        pm3::commands::Request::Logs { lines, programs } => {
            assert_eq!(lines, 25);
            assert!(programs.is_empty());
        }
        _ => panic!("not a logs request"),
    }
}
