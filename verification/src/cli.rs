//! The command-line client: its commands and their arguments, the start
//! request it builds, the command texts it sends to the daemon for each
//! command, and its reading of the daemon's replies.
use vstd::prelude::*;
use crate::paths::{
    components, extension, file_name, file_name_exec, name_stem, name_stem_exec, normalize_comps,
    normalized, path_components, path_extension, render, render_comps,
};
use crate::pm3_config::{map_get, pairs_map, pairs_view, strings_view};
use crate::status::{infos_fields, parse_status_reply, parsed_lines, status_lines, PmProcessStatusInfo};
use crate::process::{pct_enc_str, percent_encode};
use crate::text::{
    append_chars, ascii_lower_exec, ascii_lower_str, chars_eq, chars_of, chars_views, join_chars,
    dec, join_sep, lemma_words_join, lemma_words_plain, lemma_words_word_then, lemma_words_ws_then,
    is_ws, lemma_join_sep_snoc, plain_word, push_dec, trim, split_ws, starts_with, str_eq, string_of, strings_chars, sub_vec, words,
};
use crate::commands::{request_of_text, RequestView};

verus! {

broadcast use vstd::seq_lib::group_seq_properties;

// ---------------------------------------------------------------------------
// Commands and arguments.
// ---------------------------------------------------------------------------

/// The parsed command line.
pub struct Cli {
    pub command: Commands,
}

/// The client's commands.
pub enum Commands {
    Ping,
    Start(StartArgs),
    Stop(StopArgs),
    Restart(RestartArgs),
    Reload(ReloadArgs),
    Delete(DeleteArgs),
    Status,
    List,
    Ls,
    Logs(LogsArgs),
    Monit,
    Monitor,
}

/// `start <program> [args..] [--interpreter X] [--name N]`.
pub struct StartArgs {
    pub program: String,
    pub args: Vec<String>,
    pub interpreter: Option<String>,
    pub name: Option<String>,
}

pub struct StopArgs {
    pub programs: Vec<String>,
}

pub struct RestartArgs {
    pub programs: Vec<String>,
}

pub struct ReloadArgs {
    pub programs: Vec<String>,
}

pub struct DeleteArgs {
    pub programs: Vec<String>,
}

/// `logs [--lines N] [programs..]`.
pub struct LogsArgs {
    pub lines: Option<u64>,
    pub programs: Vec<String>,
}

// ---------------------------------------------------------------------------
// The start request.
// ---------------------------------------------------------------------------

/// A process to start, as the client describes it to the daemon.
pub struct NewProcessConfig {
    pub proc_name: String,
    /// The working directory, as path text.
    pub exec_dir: String,
    pub exec_name: String,
    pub exec_args: Vec<String>,
    pub active: bool,
}

/// `key=value` with the value percent-encoded, after a `&` unless it is the
/// first pair.
pub open spec fn kv(first: bool, k: Seq<char>, v: Seq<char>) -> Seq<char> {
    (if first {
        seq![]
    } else {
        seq!['&']
    }) + k + seq!['='] + pct_enc_str(v)
}

impl NewProcessConfig {
    /// The query string that `to_url_encoded` produces.
    pub open spec fn url_encoded_spec(&self) -> Seq<char> {
        kv(true, "proc_name"@, self.proc_name@) + kv(false, "exec_dir"@, self.exec_dir@) + kv(
            false,
            "exec_name"@,
            self.exec_name@,
        ) + kv(
            false,
            "active"@,
            if self.active {
                "1"@
            } else {
                "0"@
            },
        ) + (if self.exec_args@.len() > 0 {
            kv(false, "args"@, join_sep(strings_view(self.exec_args@), seq![' ']))
        } else {
            seq![]
        })
    }

    /// A new, active process description.
    pub fn new(process_name: String, exec_dir: String, exec_name: String, exec_args: Vec<String>) -> (r: NewProcessConfig)
        ensures
            r.proc_name@ == process_name@,
            r.exec_dir@ == exec_dir@,
            r.exec_name@ == exec_name@,
            r.exec_args@ == exec_args@,
            r.active,
    {
        NewProcessConfig { proc_name: process_name, exec_dir, exec_name, exec_args, active: true }
    }

    /// The description as a query string: `proc_name`, `exec_dir`,
    /// `exec_name`, `active` (`1` or `0`) and, when there are arguments,
    /// `args` (the arguments joined with spaces); keys as they are, values
    /// percent-encoded.
    pub fn to_url_encoded(&self) -> (r: String)
        ensures
            r@ == self.url_encoded_spec(),
    {
        proof {
            reveal_strlit("proc_name");
        }
        let mut q: Vec<char> = Vec::new();
        push_kv(&mut q, "proc_name", self.proc_name.as_str());
        assert(q@.len() > 0);
        push_kv(&mut q, "exec_dir", self.exec_dir.as_str());
        push_kv(&mut q, "exec_name", self.exec_name.as_str());
        let active = if self.active {
            "1"
        } else {
            "0"
        };
        push_kv(&mut q, "active", active);
        let ghost before_args = q@;
        if self.exec_args.len() > 0 {
            let parts = strings_chars(&self.exec_args);
            let sep: [char; 1] = [' '];
            let joined = join_chars(&parts, &sep);
            assert(sep@ =~= seq![' ']);
            let js = string_of(&joined);
            push_kv(&mut q, "args", js.as_str());
            proof {
                assert(chars_views(parts@) == strings_view(self.exec_args@));
            }
        } else {
            assert(q@ =~= before_args + Seq::<char>::empty());
        }
        string_of(&q)
    }
}

impl NewProcessConfig {
    /// The text of the `start` command: `start "<query>"`.
    pub open spec fn start_command_spec(&self) -> Seq<char> {
        "start "@ + seq!['"'] + self.url_encoded_spec() + seq!['"']
    }

    /// The `start` command for this description: the word `start` and the
    /// query in double quotes. The query holds only letters, digits,
    /// `-._~%&=`, which `{:?}` formatting writes as they are, so the quotes
    /// are all it adds.
    pub fn start_command(&self) -> (r: String)
        ensures
            r@ == self.start_command_spec(),
    {
        let mut out = chars_of("start ");
        out.push('"');
        append_chars(&mut out, &chars_of(self.to_url_encoded().as_str()));
        out.push('"');
        string_of(&out)
    }
}

fn push_kv(dst: &mut Vec<char>, key: &str, val: &str)
    ensures
        final(dst)@ == old(dst)@ + kv(old(dst)@.len() == 0, key@, val@),
{
    let ghost d0 = dst@;
    let first = dst.len() == 0;
    if !first {
        dst.push('&');
    }
    append_chars(dst, &chars_of(key));
    dst.push('=');
    let ve = percent_encode(val);
    append_chars(dst, &ve);
    assert(dst@ =~= d0 + kv(first, key@, val@));
}

// ---------------------------------------------------------------------------
// Start helpers.
// ---------------------------------------------------------------------------

/// Whether a program is given as a path rather than a bare name.
pub fn has_path_separators(s: &str) -> (r: bool)
    ensures
        r == (s@.contains('/') || s@.contains('\\')),
{
    let cs = chars_of(s);
    let mut i: usize = 0;
    while i < cs.len()
        invariant
            cs@ == s@,
            i <= cs@.len(),
            forall|j: int| 0 <= j < i ==> cs@[j] != '/' && cs@[j] != '\\',
        decreases cs.len() - i,
    {
        if cs[i] == '/' || cs[i] == '\\' {
            assert(s@[i as int] == cs@[i as int]);
            return true;
        }
        i = i + 1;
    }
    false
}

/// The extension of a path, in ASCII lower case.
pub open spec fn lower_ext(s: Seq<char>) -> Option<Seq<char>> {
    match extension(s) {
        Some(e) => Some(ascii_lower_str(e)),
        None => None,
    }
}

fn lower_ext_exec(path: &str) -> (r: Option<String>)
    ensures
        r matches Some(e) ==> lower_ext(path@) == Some(e@),
        r is None ==> lower_ext(path@) is None,
{
    match path_extension(&chars_of(path)) {
        Some(e) => Some(string_of(&ascii_lower_exec(&e))),
        None => None,
    }
}

/// Extensions of script files.
pub open spec fn is_script(e: Seq<char>) -> bool {
    e == "py"@ || e == "pyw"@ || e == "js"@ || e == "mjs"@ || e == "cjs"@ || e == "ts"@ || e
        == "tsx"@ || e == "sh"@ || e == "bash"@ || e == "zsh"@ || e == "fish"@ || e == "bat"@
        || e == "cmd"@ || e == "ps1"@ || e == "rb"@ || e == "php"@ || e == "pl"@ || e == "lua"@
        || e == "r"@ || e == "groovy"@ || e == "kts"@ || e == "dart"@ || e == "swift"@
}

/// Whether the path names a script, by its extension (case-insensitive in
/// ASCII).
pub fn is_script_ext(path: &str) -> (r: bool)
    ensures
        r == (lower_ext(path@) matches Some(e) && is_script(e)),
{
    match lower_ext_exec(path) {
        None => false,
        Some(es) => {
            let e = es.as_str();
            str_eq(e, "py") || str_eq(e, "pyw") || str_eq(e, "js") || str_eq(e, "mjs") || str_eq(
                e,
                "cjs",
            ) || str_eq(e, "ts") || str_eq(e, "tsx") || str_eq(e, "sh") || str_eq(e, "bash")
                || str_eq(e, "zsh") || str_eq(e, "fish") || str_eq(e, "bat") || str_eq(e, "cmd")
                || str_eq(e, "ps1") || str_eq(e, "rb") || str_eq(e, "php") || str_eq(e, "pl")
                || str_eq(e, "lua") || str_eq(e, "r") || str_eq(e, "groovy") || str_eq(e, "kts")
                || str_eq(e, "dart") || str_eq(e, "swift")
        },
    }
}

/// The program that runs scripts with a given (lower-case) extension.
pub open spec fn runner_of(e: Seq<char>) -> Option<Seq<char>> {
    if e == "py"@ || e == "pyw"@ {
        Some("python3"@)
    } else if e == "js"@ || e == "mjs"@ || e == "cjs"@ {
        Some("node"@)
    } else if e == "ts"@ || e == "tsx"@ {
        Some("ts-node"@)
    } else if e == "sh"@ || e == "bash"@ {
        Some("bash"@)
    } else if e == "zsh"@ {
        Some("zsh"@)
    } else if e == "fish"@ {
        Some("fish"@)
    } else if e == "bat"@ || e == "cmd"@ {
        Some("cmd"@)
    } else if e == "ps1"@ {
        Some("powershell"@)
    } else if e == "rb"@ {
        Some("ruby"@)
    } else if e == "php"@ {
        Some("php"@)
    } else if e == "pl"@ {
        Some("perl"@)
    } else if e == "lua"@ {
        Some("lua"@)
    } else {
        None
    }
}

/// The interpreter table, read by interpreter: each interpreter is chosen
/// for exactly these extensions, and every other extension has none.
pub proof fn lemma_runner_table(e: Seq<char>)
    ensures
        runner_of(e) == Some("python3"@) <==> (e == "py"@ || e == "pyw"@),
        runner_of(e) == Some("node"@) <==> (e == "js"@ || e == "mjs"@ || e == "cjs"@),
        runner_of(e) == Some("ts-node"@) <==> (e == "ts"@ || e == "tsx"@),
        runner_of(e) == Some("bash"@) <==> (e == "sh"@ || e == "bash"@),
        runner_of(e) == Some("zsh"@) <==> e == "zsh"@,
        runner_of(e) == Some("fish"@) <==> e == "fish"@,
        runner_of(e) == Some("cmd"@) <==> (e == "bat"@ || e == "cmd"@),
        runner_of(e) == Some("powershell"@) <==> e == "ps1"@,
        runner_of(e) == Some("ruby"@) <==> e == "rb"@,
        runner_of(e) == Some("php"@) <==> e == "php"@,
        runner_of(e) == Some("perl"@) <==> e == "pl"@,
        runner_of(e) == Some("lua"@) <==> e == "lua"@,
        runner_of(e) is None <==> !(e == "py"@ || e == "pyw"@ || e == "js"@ || e == "mjs"@ || e
            == "cjs"@ || e == "ts"@ || e == "tsx"@ || e == "sh"@ || e == "bash"@ || e == "zsh"@
            || e == "fish"@ || e == "bat"@ || e == "cmd"@ || e == "ps1"@ || e == "rb"@ || e
            == "php"@ || e == "pl"@ || e == "lua"@),
{
    reveal_strlit("python3");
    reveal_strlit("node");
    reveal_strlit("ts-node");
    reveal_strlit("bash");
    reveal_strlit("zsh");
    reveal_strlit("fish");
    reveal_strlit("cmd");
    reveal_strlit("powershell");
    reveal_strlit("ruby");
    reveal_strlit("php");
    reveal_strlit("perl");
    reveal_strlit("lua");
    reveal_strlit("py");
    reveal_strlit("pyw");
    reveal_strlit("js");
    reveal_strlit("mjs");
    reveal_strlit("cjs");
    reveal_strlit("ts");
    reveal_strlit("tsx");
    reveal_strlit("sh");
    reveal_strlit("bat");
    reveal_strlit("ps1");
    reveal_strlit("rb");
    reveal_strlit("pl");
    assert("python3"@.len() == 7 && "python3"@[0] == 'p' && "python3"@[1] == 'y' && "python3"@[2] == 't' && "python3"@[3] == 'h' && "python3"@[4] == 'o' && "python3"@[5] == 'n' && "python3"@[6] == '3');
    assert("node"@.len() == 4 && "node"@[0] == 'n' && "node"@[1] == 'o' && "node"@[2] == 'd' && "node"@[3] == 'e');
    assert("ts-node"@.len() == 7 && "ts-node"@[0] == 't' && "ts-node"@[1] == 's' && "ts-node"@[2] == '-' && "ts-node"@[3] == 'n' && "ts-node"@[4] == 'o' && "ts-node"@[5] == 'd' && "ts-node"@[6] == 'e');
    assert("bash"@.len() == 4 && "bash"@[0] == 'b' && "bash"@[1] == 'a' && "bash"@[2] == 's' && "bash"@[3] == 'h');
    assert("zsh"@.len() == 3 && "zsh"@[0] == 'z' && "zsh"@[1] == 's' && "zsh"@[2] == 'h');
    assert("fish"@.len() == 4 && "fish"@[0] == 'f' && "fish"@[1] == 'i' && "fish"@[2] == 's' && "fish"@[3] == 'h');
    assert("cmd"@.len() == 3 && "cmd"@[0] == 'c' && "cmd"@[1] == 'm' && "cmd"@[2] == 'd');
    assert("powershell"@.len() == 10 && "powershell"@[0] == 'p' && "powershell"@[1] == 'o' && "powershell"@[2] == 'w' && "powershell"@[3] == 'e' && "powershell"@[4] == 'r' && "powershell"@[5] == 's' && "powershell"@[6] == 'h' && "powershell"@[7] == 'e' && "powershell"@[8] == 'l' && "powershell"@[9] == 'l');
    assert("ruby"@.len() == 4 && "ruby"@[0] == 'r' && "ruby"@[1] == 'u' && "ruby"@[2] == 'b' && "ruby"@[3] == 'y');
    assert("php"@.len() == 3 && "php"@[0] == 'p' && "php"@[1] == 'h' && "php"@[2] == 'p');
    assert("perl"@.len() == 4 && "perl"@[0] == 'p' && "perl"@[1] == 'e' && "perl"@[2] == 'r' && "perl"@[3] == 'l');
    assert("lua"@.len() == 3 && "lua"@[0] == 'l' && "lua"@[1] == 'u' && "lua"@[2] == 'a');
    assert("py"@.len() == 2 && "py"@[0] == 'p' && "py"@[1] == 'y');
    assert("pyw"@.len() == 3 && "pyw"@[0] == 'p' && "pyw"@[1] == 'y' && "pyw"@[2] == 'w');
    assert("js"@.len() == 2 && "js"@[0] == 'j' && "js"@[1] == 's');
    assert("mjs"@.len() == 3 && "mjs"@[0] == 'm' && "mjs"@[1] == 'j' && "mjs"@[2] == 's');
    assert("cjs"@.len() == 3 && "cjs"@[0] == 'c' && "cjs"@[1] == 'j' && "cjs"@[2] == 's');
    assert("ts"@.len() == 2 && "ts"@[0] == 't' && "ts"@[1] == 's');
    assert("tsx"@.len() == 3 && "tsx"@[0] == 't' && "tsx"@[1] == 's' && "tsx"@[2] == 'x');
    assert("sh"@.len() == 2 && "sh"@[0] == 's' && "sh"@[1] == 'h');
    assert("bat"@.len() == 3 && "bat"@[0] == 'b' && "bat"@[1] == 'a' && "bat"@[2] == 't');
    assert("ps1"@.len() == 3 && "ps1"@[0] == 'p' && "ps1"@[1] == 's' && "ps1"@[2] == '1');
    assert("rb"@.len() == 2 && "rb"@[0] == 'r' && "rb"@[1] == 'b');
    assert("pl"@.len() == 2 && "pl"@[0] == 'p' && "pl"@[1] == 'l');
}

/// The interpreter for a script, by the path's extension.
pub fn runner_for_ext(path: &str) -> (r: Option<&'static str>)
    ensures
        r matches Some(x) ==> (lower_ext(path@) matches Some(e) && runner_of(e) == Some(x@)),
        r is None ==> (lower_ext(path@) matches Some(e) ==> runner_of(e) is None),
{
    let es = match lower_ext_exec(path) {
        None => return None,
        Some(es) => es,
    };
    let e = es.as_str();
    if str_eq(e, "py") || str_eq(e, "pyw") {
        Some("python3")
    } else if str_eq(e, "js") || str_eq(e, "mjs") || str_eq(e, "cjs") {
        Some("node")
    } else if str_eq(e, "ts") || str_eq(e, "tsx") {
        Some("ts-node")
    } else if str_eq(e, "sh") || str_eq(e, "bash") {
        Some("bash")
    } else if str_eq(e, "zsh") {
        Some("zsh")
    } else if str_eq(e, "fish") {
        Some("fish")
    } else if str_eq(e, "bat") || str_eq(e, "cmd") {
        Some("cmd")
    } else if str_eq(e, "ps1") {
        Some("powershell")
    } else if str_eq(e, "rb") {
        Some("ruby")
    } else if str_eq(e, "php") {
        Some("php")
    } else if str_eq(e, "pl") {
        Some("perl")
    } else if str_eq(e, "lua") {
        Some("lua")
    } else {
        None
    }
}

/// Lexical normalisation of a path: `.` dropped, `..` removing the
/// component before it, or kept where there is none to remove.
pub fn normalize_path(path: &str) -> (r: String)
    ensures
        r@ == render(normalized(path@, true)),
{
    let cs = path_components(&chars_of(path));
    let n = normalize_comps(&cs, true);
    string_of(&render_comps(&n))
}

/// The name a started process gets when none is given: the file stem of
/// the program's path, or the program text itself when it has none.
pub open spec fn default_proc_name(program: Seq<char>) -> Seq<char> {
    match file_name(components(program)) {
        Some(n) => name_stem(n),
        None => program,
    }
}

/// The process name for `start`: the given name, else the default.
pub fn start_proc_name(program: &str, name: Option<String>) -> (r: String)
    ensures
        r@ == match name {
            Some(n) => n@,
            None => default_proc_name(program@),
        },
{
    match name {
        Some(n) => n,
        None => {
            let cs = path_components(&chars_of(program));
            match file_name_exec(&cs) {
                Some(f) => string_of(&name_stem_exec(&f)),
                None => string_of(&chars_of(program)),
            }
        },
    }
}

// ---------------------------------------------------------------------------
// Command texts.
// ---------------------------------------------------------------------------

/// Why the client refuses a command before sending it.
#[derive(Debug, PartialEq, Eq, Structural)]
pub enum CliError {
    /// The command needs programs and none were given.
    NoProgramsSpecified,
    /// No program matched.
    NoProgramsFound,
}

impl CliError {
    /// The message the client reports.
    pub fn message(&self) -> (r: String)
        ensures
            r@ == match self {
                CliError::NoProgramsSpecified => "no programs specified"@,
                CliError::NoProgramsFound => "no programs found"@,
            },
    {
        match self {
            CliError::NoProgramsSpecified => string_of(&chars_of("no programs specified")),
            CliError::NoProgramsFound => string_of(&chars_of("no programs found")),
        }
    }
}

/// A space.
pub open spec fn space() -> Seq<char> {
    seq![' ']
}

fn space_chars() -> (r: Vec<char>)
    ensures
        r@ == space(),
{
    let mut v: Vec<char> = Vec::new();
    v.push(' ');
    v
}

/// `<word> <programs joined by spaces>`.
fn command_with(word: &str, programs: &Vec<Vec<char>>) -> (r: String)
    ensures
        r@ == word@ + space() + join_sep(chars_views(programs@), space()),
{
    let mut out = chars_of(word);
    out.push(' ');
    let joined = join_chars(programs, &space_chars());
    append_chars(&mut out, &joined);
    string_of(&out)
}

/// The command text for `stop`: `stop` and the programs, joined by spaces.
pub fn stop_program(programs: &Vec<String>) -> (r: String)
    ensures
        r@ == "stop "@ + join_sep(strings_view(programs@), space()),
{
    proof {
        reveal_strlit("stop ");
        reveal_strlit("stop");
    }
    let ps = strings_chars(programs);
    command_with("stop", &ps)
}

/// The command text for `dump`.
pub fn dump_program() -> (r: String)
    ensures
        r@ == "dump"@,
{
    string_of(&chars_of("dump"))
}

/// The command text for `revive`.
pub fn revive_program() -> (r: String)
    ensures
        r@ == "revive"@,
{
    string_of(&chars_of("revive"))
}

/// What `ping` prints for the daemon's reply.
pub fn ping_server(reply: &str) -> (r: String)
    ensures
        r@ == "Response from daemon: "@ + reply@,
{
    let mut out = chars_of("Response from daemon: ");
    append_chars(&mut out, &chars_of(reply));
    string_of(&out)
}

/// Whether one of the strings is `s`.
fn contains_str(ps: &Vec<String>, s: &str) -> (r: bool)
    ensures
        r == strings_view(ps@).contains(s@),
{
    let mut i: usize = 0;
    while i < ps.len()
        invariant
            i <= ps@.len(),
            forall|j: int| 0 <= j < i ==> ps@[j]@ != s@,
        decreases ps.len() - i,
    {
        if str_eq(ps[i].as_str(), s) {
            assert(strings_view(ps@)[i as int] == s@);
            return true;
        }
        i = i + 1;
    }
    proof {
        if strings_view(ps@).contains(s@) {
            let j = choose|j: int| 0 <= j < strings_view(ps@).len() && strings_view(ps@)[j] == s@;
            assert(ps@[j]@ == s@);
        }
    }
    false
}

/// Whether one of the words is `w`.
fn contains_chars(ws: &Vec<Vec<char>>, w: &[char]) -> (r: bool)
    ensures
        r == chars_views(ws@).contains(w@),
{
    let mut i: usize = 0;
    while i < ws.len()
        invariant
            i <= ws@.len(),
            forall|j: int| 0 <= j < i ==> ws@[j]@ != w@,
        decreases ws.len() - i,
    {
        if chars_eq(&ws[i], w) {
            assert(chars_views(ws@)[i as int] == w@);
            return true;
        }
        i = i + 1;
    }
    proof {
        if chars_views(ws@).contains(w@) {
            let j = choose|j: int| 0 <= j < chars_views(ws@).len() && chars_views(ws@)[j] == w@;
            assert(ws@[j]@ == w@);
        }
    }
    false
}

/// The words at even positions (the ids of an `id name id name ..` list).
pub open spec fn even_words(ws: Seq<Seq<char>>) -> Seq<Seq<char>> {
    Seq::new(((ws.len() + 1) / 2) as nat, |i: int| ws[2 * i])
}

/// `ts` with each of `ids` that it does not hold yet appended, in order.
pub open spec fn add_new(ts: Seq<Seq<char>>, ids: Seq<Seq<char>>) -> Seq<Seq<char>>
    decreases ids.len(),
{
    if ids.len() == 0 {
        ts
    } else {
        let t = add_new(ts, ids.drop_last());
        if t.contains(ids.last()) {
            t
        } else {
            t.push(ids.last())
        }
    }
}

/// The targets of `delete`: each argument as given, and for `all` the
/// ids of the program list (the words at even positions of the listing)
/// that are not targets yet.
pub open spec fn delete_targets(args: Seq<Seq<char>>, listing: Seq<char>) -> Seq<Seq<char>>
    decreases args.len(),
{
    if args.len() == 0 {
        seq![]
    } else {
        let t = delete_targets(args.drop_last(), listing);
        if args.last() == "all"@ {
            add_new(t, even_words(words(listing)))
        } else {
            t.push(args.last())
        }
    }
}

pub open spec fn delete_spec(args: Seq<Seq<char>>, listing: Seq<char>) -> Result<Seq<char>, CliError> {
    if args.len() == 0 {
        Err(CliError::NoProgramsSpecified)
    } else {
        let t = delete_targets(args, listing);
        if t.len() == 0 {
            Err(CliError::NoProgramsFound)
        } else {
            Ok("delete "@ + join_sep(t, space()))
        }
    }
}

/// The command text for `delete`, given the daemon's reply to
/// `list-programs` (read only when an argument is `all`).
pub fn delete_program(programs: &Vec<String>, listing: &str) -> (r: Result<String, CliError>)
    ensures
        match delete_spec(strings_view(programs@), listing@) {
            Ok(t) => r matches Ok(x) && x@ == t,
            Err(e) => r == Err::<String, CliError>(e),
        },
{
    proof {
        reveal_strlit("delete ");
        reveal_strlit("delete");
    }
    if programs.len() == 0 {
        return Err(CliError::NoProgramsSpecified);
    }
    let ghost args = strings_view(programs@);
    let ws = split_ws(&chars_of(listing));
    let ghost ids = even_words(words(listing@));
    let mut targets: Vec<Vec<char>> = Vec::new();
    let mut i: usize = 0;
    while i < programs.len()
        invariant
            i <= programs@.len(),
            args == strings_view(programs@),
            chars_views(ws@) == words(listing@),
            ids == even_words(words(listing@)),
            chars_views(targets@) == delete_targets(args.take(i as int), listing@),
        decreases programs.len() - i,
    {
        let arg = programs[i].as_str();
        let ghost t0 = chars_views(targets@);
        proof {
            assert(args.take(i + 1).drop_last() =~= args.take(i as int));
            assert(args.take(i + 1).last() == arg@);
        }
        if str_eq(arg, "all") {
            let nw = ws.len();
            let nid = (nw - nw / 2);
            assert(nid == (ws@.len() + 1) / 2);
            let mut k: usize = 0;
            proof {
                assert(ids.take(0) =~= Seq::<Seq<char>>::empty());
            }
            while k < nid
                invariant
                    k <= nid == ids.len(),
                    nw == ws@.len(),
                    nid == (ws@.len() + 1) / 2,
                    chars_views(ws@) == words(listing@),
                    ids == even_words(words(listing@)),
                    chars_views(targets@) == add_new(t0, ids.take(k as int)),
                decreases nid - k,
            {
                assert(2 * k < nw) by (nonlinear_arith)
                    requires
                        k < nid,
                        nid == (nw + 1) / 2,
                ;
                let id = &ws[2 * k];
                proof {
                    let pre = ids.take(k + 1);
                    assert(pre.drop_last() =~= ids.take(k as int));
                    assert(pre.last() == chars_views(ws@)[2 * k]);
                }
                if !contains_chars(&targets, id) {
                    let c = sub_vec(id, 0, id.len());
                    targets.push(c);
                    assert(chars_views(targets@) =~= chars_views(targets@.drop_last()).push(c@));
                }
                k = k + 1;
            }
            assert(ids.take(k as int) =~= ids);
        } else {
            let c = chars_of(arg);
            targets.push(c);
            assert(chars_views(targets@) =~= chars_views(targets@.drop_last()).push(c@));
        }
        i = i + 1;
    }
    assert(args.take(programs@.len() as int) =~= args);
    if targets.len() == 0 {
        return Err(CliError::NoProgramsFound);
    }
    Ok(command_with("delete", &targets))
}

/// The text after an `OK ` prefix, or the whole text without one.
pub open spec fn strip_ok(s: Seq<char>) -> Seq<char> {
    if s.len() >= 3 && s.take(3) == seq!['O', 'K', ' '] {
        s.skip(3)
    } else {
        s
    }
}

pub fn strip_ok_exec(s: &[char]) -> (r: Vec<char>)
    ensures
        r@ == strip_ok(s@),
{
    let p: [char; 3] = ['O', 'K', ' '];
    assert(p@ =~= seq!['O', 'K', ' ']);
    if starts_with(s, &p) {
        sub_vec(s, 3, s.len())
    } else {
        sub_vec(s, 0, s.len())
    }
}

/// Whether a listed program (id and name) is a target of `restart`.
pub open spec fn restart_match(progs: Seq<Seq<char>>, id: Seq<char>, name: Seq<char>) -> bool {
    progs.contains("all"@) || progs.contains(id) || progs.contains(name)
}

/// The ids among the first `n` listed programs that `restart` targets.
pub open spec fn restart_pick(ws: Seq<Seq<char>>, progs: Seq<Seq<char>>, n: nat) -> Seq<Seq<char>>
    decreases n,
{
    if n == 0 {
        seq![]
    } else {
        let k = n - 1;
        let prev = restart_pick(ws, progs, k as nat);
        if restart_match(progs, ws[2 * k], ws[2 * k + 1]) {
            prev.push(ws[2 * k])
        } else {
            prev
        }
    }
}

pub open spec fn restart_spec(progs: Seq<Seq<char>>, listing: Seq<char>) -> Result<Seq<char>, CliError> {
    if progs.len() == 0 {
        Err(CliError::NoProgramsSpecified)
    } else {
        let ws = words(strip_ok(listing));
        let t = restart_pick(ws, progs, ws.len() / 2);
        if t.len() == 0 {
            Err(CliError::NoProgramsFound)
        } else {
            Ok("restart "@ + join_sep(t, space()))
        }
    }
}

/// The command text for `restart`, given the daemon's reply to
/// `list-programs` (`id name` pairs, after an optional `OK `): the ids of
/// the listed programs whose id or name is one of the arguments, or all of
/// them when an argument is `all`.
pub fn restart_program(programs: &Vec<String>, listing: &str) -> (r: Result<String, CliError>)
    ensures
        match restart_spec(strings_view(programs@), listing@) {
            Ok(t) => r matches Ok(x) && x@ == t,
            Err(e) => r == Err::<String, CliError>(e),
        },
{
    proof {
        reveal_strlit("restart ");
        reveal_strlit("restart");
    }
    if programs.len() == 0 {
        return Err(CliError::NoProgramsSpecified);
    }
    let ghost progs = strings_view(programs@);
    let all = contains_str(programs, "all");
    let clean = strip_ok_exec(&chars_of(listing));
    let ws = split_ws(&clean);
    let nw = ws.len();
    let np = nw / 2;
    let mut out: Vec<Vec<char>> = Vec::new();
    let mut k: usize = 0;
    while k < np
        invariant
            k <= np,
            np == nw / 2,
            nw == ws@.len(),
            progs == strings_view(programs@),
            all == progs.contains("all"@),
            chars_views(out@) == restart_pick(chars_views(ws@), progs, k as nat),
        decreases np - k,
    {
        assert(2 * k + 1 < nw) by (nonlinear_arith)
            requires
                k < np,
                np == nw / 2,
        ;
        let id = &ws[2 * k];
        let name = &ws[2 * k + 1];
        let hit = all || contains_str(programs, string_of(id).as_str()) || contains_str(
            programs,
            string_of(name).as_str(),
        );
        if hit {
            let c = sub_vec(id, 0, id.len());
            out.push(c);
            assert(chars_views(out@) =~= chars_views(out@.drop_last()).push(c@));
        }
        k = k + 1;
    }
    if out.len() == 0 {
        return Err(CliError::NoProgramsFound);
    }
    Ok(command_with("restart", &out))
}

/// The processes of the daemon's reply to `list`, as `status` shows them.
pub fn request_status(reply: &str) -> (r: Vec<PmProcessStatusInfo>)
    ensures
        infos_fields(r@) == parsed_lines(status_lines(reply@), false),
{
    parse_status_reply(reply, false)
}

// ---------------------------------------------------------------------------
// Logs.
// ---------------------------------------------------------------------------

/// Whether `logs` asks the daemon for the program list first: when no
/// program is named, or one of them is `all`.
pub fn logs_needs_listing(programs: &Vec<String>) -> (r: bool)
    ensures
        r == (programs@.len() == 0 || strings_view(programs@).contains("all"@)),
{
    programs.len() == 0 || contains_str(programs, "all")
}

/// The programs `logs` asks for: `all` stands for none named, and with
/// none named, every word of the daemon's reply to `list-programs`.
pub open spec fn logs_targets(progs: Seq<Seq<char>>, listing: Seq<char>) -> Seq<Seq<char>> {
    let p = if progs.contains("all"@) {
        seq![]
    } else {
        progs
    };
    if p.len() == 0 {
        words(listing)
    } else {
        p
    }
}

pub open spec fn logs_command_spec(lines: Option<u64>, progs: Seq<Seq<char>>, listing: Seq<char>) -> Seq<char> {
    let t = logs_targets(progs, listing);
    "logs"@ + (match lines {
        Some(n) => " --lines="@ + dec(n as nat),
        None => seq![],
    }) + (if t.len() > 0 {
        space() + join_sep(t, space())
    } else {
        seq![]
    })
}

/// The command text for `logs`: `logs`, then ` --lines=N` when a count is
/// given, then the programs (see `logs_targets`), space-separated.
pub fn request_logs(lines: Option<u64>, programs: &Vec<String>, listing: &str) -> (r: String)
    ensures
        r@ == logs_command_spec(lines, strings_view(programs@), listing@),
{
    let all = contains_str(programs, "all");
    let targets = if all || programs.len() == 0 {
        split_ws(&chars_of(listing))
    } else {
        strings_chars(programs)
    };
    let mut out = chars_of("logs");
    let ghost o0 = out@;
    match lines {
        Some(n) => {
            append_chars(&mut out, &chars_of(" --lines="));
            push_dec(&mut out, n);
        },
        None => {},
    }
    let ghost o1 = out@;
    if targets.len() > 0 {
        out.push(' ');
        append_chars(&mut out, &join_chars(&targets, &space_chars()));
    } else {
        assert(out@ =~= o1 + Seq::<char>::empty());
    }
    proof {
        if lines is None {
            assert(o1 =~= o0 + Seq::<char>::empty());
        }
    }
    string_of(&out)
}

/// The `id name` pairs of the daemon's reply to `list-programs` (after an
/// optional `OK `); a last word without a partner is left out.
pub open spec fn name_pairs(listing: Seq<char>) -> Seq<(Seq<char>, Seq<char>)> {
    let ws = words(strip_ok(listing));
    Seq::new(ws.len() / 2, |i: int| (ws[2 * i], ws[2 * i + 1]))
}

/// The names of the programs by id, as `logs` reads them from the daemon's
/// reply to `list-programs`: a later pair for an id replaces an earlier one.
pub fn get_process_names(listing: &str) -> (r: Vec<(String, String)>)
    ensures
        pairs_view(r@) == name_pairs(listing@),
{
    let clean = strip_ok_exec(&chars_of(listing));
    let ws = split_ws(&clean);
    let nw = ws.len();
    let np = nw / 2;
    let ghost target = name_pairs(listing@);
    let mut out: Vec<(String, String)> = Vec::new();
    let mut k: usize = 0;
    while k < np
        invariant
            k <= np,
            np == nw / 2,
            nw == ws@.len(),
            chars_views(ws@) == words(strip_ok(listing@)),
            target == name_pairs(listing@),
            target.len() == np,
            pairs_view(out@) == target.take(k as int),
        decreases np - k,
    {
        assert(2 * k + 1 < nw) by (nonlinear_arith)
            requires
                k < np,
                np == nw / 2,
        ;
        let id = string_of(&ws[2 * k]);
        let name = string_of(&ws[2 * k + 1]);
        let ghost wv = chars_views(ws@);
        assert(target[k as int] == (wv[2 * k], wv[2 * k + 1]));
        assert(id@ == wv[2 * k] && name@ == wv[2 * k + 1]);
        let ghost o = out@;
        out.push((id, name));
        assert(pairs_view(out@) =~= pairs_view(o).push(target[k as int]));
        assert(target.take(k + 1) =~= target.take(k as int).push(target[k as int]));
        k = k + 1;
    }
    assert(target.take(np as int) =~= target);
    out
}

/// The name shown for a process id in the log output: its listed name, or
/// `?`.
pub fn process_name_for(names: &Vec<(String, String)>, pid: &str) -> (r: String)
    ensures
        r@ == if pairs_map(pairs_view(names@)).contains_key(pid@) {
            pairs_map(pairs_view(names@))[pid@]
        } else {
            "?"@
        },
{
    match map_get(names, &chars_of(pid)) {
        Some(i) => string_of(&chars_of(names[i].1.as_str())),
        None => string_of(&chars_of("?")),
    }
}

// ---------------------------------------------------------------------------
// The daemon reads what the client sends.
// ---------------------------------------------------------------------------

/// The words of `<command> <targets joined by spaces>`.
pub proof fn lemma_command_words(cmd: Seq<char>, targets: Seq<Seq<char>>)
    requires
        plain_word(cmd),
        forall|i: int| 0 <= i < targets.len() ==> plain_word(#[trigger] targets[i]),
    ensures
        words(cmd + space() + join_sep(targets, space())) == seq![cmd] + targets,
{
    let j = join_sep(targets, space());
    lemma_words_join(targets);
    lemma_words_ws_then(' ', j);
    lemma_words_word_then(cmd, space() + j);
    assert(cmd + space() + j =~= cmd + (space() + j));
}

/// The daemon reads the client's `stop` command as a stop of the same
/// programs, when each is given as a word (a number or a name without
/// whitespace).
pub proof fn lemma_stop_command_read(programs: Seq<Seq<char>>)
    requires
        forall|i: int| 0 <= i < programs.len() ==> plain_word(#[trigger] programs[i]),
    ensures
        request_of_text("stop "@ + join_sep(programs, space())) == RequestView::Stop(programs),
{
    reveal_strlit("stop ");
    reveal_strlit("stop");
    reveal_strlit("ping");
    reveal_strlit("start");
    let t = "stop "@ + join_sep(programs, space());
    assert("stop "@ =~= "stop"@ + space());
    lemma_command_words("stop"@, programs);
    let ws = seq!["stop"@] + programs;
    assert(words(t) == ws);
    assert(ws[0] == "stop"@);
    assert(ws.drop_first() =~= programs);
    assert(ascii_lower_str("stop"@) =~= "stop"@);
    assert("stop"@[1] != "ping"@[1]);
    assert("stop"@ != "ping"@);
    assert("stop"@.len() != "start"@.len());
}

/// The daemon reads the `restart` command that the client builds as a
/// restart of exactly the ids the client picked.
pub proof fn lemma_restart_command_read(programs: Seq<Seq<char>>, listing: Seq<char>)
    ensures
        restart_spec(programs, listing) matches Ok(t) ==> request_of_text(t) == RequestView::Restart(
            restart_pick(words(strip_ok(listing)), programs, words(strip_ok(listing)).len() / 2),
        ),
{
    if let Ok(t) = restart_spec(programs, listing) {
        reveal_strlit("restart ");
        reveal_strlit("restart");
        reveal_strlit("ping");
        reveal_strlit("start");
        reveal_strlit("stop");
        reveal_strlit("list");
        reveal_strlit("list-programs");
        reveal_strlit("logs");
        let ws = words(strip_ok(listing));
        let n = ws.len() / 2;
        let picked = restart_pick(ws, programs, n);
        lemma_words_plain(strip_ok(listing));
        lemma_restart_pick_words(ws, programs, n);
        assert("restart "@ =~= "restart"@ + space());
        lemma_command_words("restart"@, picked);
        assert(t == "restart"@ + space() + join_sep(picked, space()));
        assert(words(t)[0] == "restart"@);
        assert(words(t).drop_first() =~= picked);
        assert(ascii_lower_str("restart"@) =~= "restart"@);
    }
}

proof fn lemma_restart_pick_words(ws: Seq<Seq<char>>, progs: Seq<Seq<char>>, n: nat)
    requires
        2 * n <= ws.len(),
        forall|i: int| 0 <= i < ws.len() ==> plain_word(#[trigger] ws[i]),
    ensures
        forall|i: int| 0 <= i < restart_pick(ws, progs, n).len() ==> plain_word(
            #[trigger] restart_pick(ws, progs, n)[i],
        ),
    decreases n,
{
    if n > 0 {
        let k = n - 1;
        lemma_restart_pick_words(ws, progs, k as nat);
        let prev = restart_pick(ws, progs, k as nat);
        assert(plain_word(ws[2 * k]));
        assert forall|i: int| 0 <= i < restart_pick(ws, progs, n).len() implies plain_word(
            #[trigger] restart_pick(ws, progs, n)[i],
        ) by {
            if i < prev.len() {
                assert(restart_pick(ws, progs, n)[i] == prev[i]);
            }
        }
    }
}

proof fn lemma_add_new_words(ts: Seq<Seq<char>>, ids: Seq<Seq<char>>)
    requires
        forall|i: int| 0 <= i < ts.len() ==> plain_word(#[trigger] ts[i]),
        forall|i: int| 0 <= i < ids.len() ==> plain_word(#[trigger] ids[i]),
    ensures
        forall|i: int| 0 <= i < add_new(ts, ids).len() ==> plain_word(#[trigger] add_new(ts, ids)[i]),
    decreases ids.len(),
{
    if ids.len() > 0 {
        lemma_add_new_words(ts, ids.drop_last());
        let t = add_new(ts, ids.drop_last());
        assert(plain_word(ids[ids.len() - 1]));
        assert forall|i: int| 0 <= i < add_new(ts, ids).len() implies plain_word(#[trigger] add_new(ts, ids)[i]) by {
            if i < t.len() {
                assert(add_new(ts, ids)[i] == t[i]);
            }
        }
    }
}

proof fn lemma_delete_targets_words(args: Seq<Seq<char>>, listing: Seq<char>)
    requires
        forall|i: int| 0 <= i < args.len() ==> plain_word(#[trigger] args[i]),
    ensures
        forall|i: int| 0 <= i < delete_targets(args, listing).len() ==> plain_word(
            #[trigger] delete_targets(args, listing)[i],
        ),
    decreases args.len(),
{
    if args.len() > 0 {
        let rest = args.drop_last();
        assert forall|i: int| 0 <= i < rest.len() implies plain_word(#[trigger] rest[i]) by {
            assert(rest[i] == args[i]);
        }
        lemma_delete_targets_words(rest, listing);
        let t = delete_targets(rest, listing);
        if args.last() == "all"@ {
            let ws = words(listing);
            lemma_words_plain(listing);
            let ids = even_words(ws);
            assert forall|i: int| 0 <= i < ids.len() implies plain_word(#[trigger] ids[i]) by {
                assert(ids[i] == ws[2 * i]);
            }
            lemma_add_new_words(t, ids);
        } else {
            assert(plain_word(args[args.len() - 1]));
            assert forall|i: int| 0 <= i < t.push(args.last()).len() implies plain_word(#[trigger] t.push(args.last())[i]) by {
                if i < t.len() {
                    assert(t.push(args.last())[i] == t[i]);
                }
            }
        }
    }
}

/// The daemon reads the `delete` command that the client builds as a
/// delete of exactly the targets the client chose, when the arguments are
/// given as words.
pub proof fn lemma_delete_command_read(programs: Seq<Seq<char>>, listing: Seq<char>)
    requires
        forall|i: int| 0 <= i < programs.len() ==> plain_word(#[trigger] programs[i]),
    ensures
        delete_spec(programs, listing) matches Ok(t) ==> request_of_text(t) == RequestView::Delete(
            delete_targets(programs, listing),
        ),
{
    if let Ok(t) = delete_spec(programs, listing) {
        reveal_strlit("delete ");
        reveal_strlit("delete");
        reveal_strlit("ping");
        reveal_strlit("start");
        reveal_strlit("stop");
        reveal_strlit("list");
        reveal_strlit("list-programs");
        reveal_strlit("logs");
        reveal_strlit("restart");
        let targets = delete_targets(programs, listing);
        lemma_delete_targets_words(programs, listing);
        assert("delete "@ =~= "delete"@ + space());
        lemma_command_words("delete"@, targets);
        assert(t == "delete"@ + space() + join_sep(targets, space()));
        assert(words(t)[0] == "delete"@);
        assert(words(t).drop_first() =~= targets);
        assert(ascii_lower_str("delete"@) =~= "delete"@);
    }
}


/// The daemon reads the client's `start` command as a start request whose
/// argument is the quoted query, and its validator reads that query back as
/// the process that the client described (see `lemma_start_validated`).
pub proof fn lemma_start_command_read(c: NewProcessConfig)
    ensures
        request_of_text(c.start_command_spec()) == RequestView::Start(
            Some(crate::config_validator::quoted_query(c)),
        ),
        crate::config_validator::verify_start_spec(crate::config_validator::quoted_query(c))
            == crate::config_validator::start_fields_check(
            c.proc_name@,
            c.exec_dir@,
            c.exec_name@,
            c.active,
        ),
{
    crate::config_validator::lemma_start_validated(c);
    crate::config_validator::lemma_start_query(c);
    reveal_strlit("start ");
    reveal_strlit("start");
    reveal_strlit("ping");
    let s = crate::config_validator::quoted_query(c);
    let q = c.url_encoded_spec();
    assert forall|i: int| 0 <= i < s.len() implies !is_ws(#[trigger] s[i]) by {
        if i > 0 && i < s.len() - 1 {
            assert(s[i] == q[i - 1]);
            assert(crate::config_validator::query_char(q[i - 1]));
        }
    }
    assert(plain_word(s));
    assert(plain_word("start"@));
    lemma_command_words("start"@, seq![s]);
    crate::text::lemma_join_sep_snoc(seq![s], space());
    assert(c.start_command_spec() =~= "start"@ + space() + join_sep(seq![s], space()));
    let ws = seq!["start"@] + seq![s];
    assert(ws[0] == "start"@);
    assert(ws.drop_first() =~= seq![s]);
    assert(ascii_lower_str("start"@) =~= "start"@);
    assert("start"@.len() != "ping"@.len());
}


/// The daemon reads the client's `logs` command as a request for the
/// programs the client picked (see `logs_targets`) with the count of lines
/// it gave (25 without one), as long as each program is given as a word
/// that is no `--lines=` option.
pub proof fn lemma_logs_command_read(lines: Option<u64>, programs: Seq<Seq<char>>, listing: Seq<char>)
    requires
        forall|i: int| 0 <= i < programs.len() ==> plain_word(#[trigger] programs[i]),
        forall|i: int|
            0 <= i < logs_targets(programs, listing).len() ==> !crate::commands::lines_option(
                #[trigger] logs_targets(programs, listing)[i],
            ),
    ensures
        request_of_text(logs_command_spec(lines, programs, listing)) == (RequestView::Logs {
            lines: match lines {
                Some(n) => n,
                None => 25u64,
            },
            programs: logs_targets(programs, listing),
        }),
{
    reveal_strlit("logs");
    reveal_strlit("ping");
    reveal_strlit("start");
    reveal_strlit("stop");
    reveal_strlit("list");
    reveal_strlit("list-programs");
    reveal_strlit(" --lines=");
    reveal_strlit("--lines=");
    let t = logs_targets(programs, listing);
    assert forall|i: int| 0 <= i < t.len() implies plain_word(#[trigger] t[i]) by {
        lemma_words_plain(listing);
    }
    let opt: Seq<Seq<char>> = match lines {
        Some(n) => seq!["--lines="@ + dec(n as nat)],
        None => seq![],
    };
    let args = opt + t;
    let n0: u64 = match lines {
        Some(n) => n,
        None => 0,
    };
    crate::commands::lemma_logs_args_lines(n0);
    crate::commands::lemma_logs_args_append(opt, t);
    assert forall|i: int| 0 <= i < opt.len() implies plain_word(#[trigger] opt[i]) by {
        let a = "--lines="@ + dec(n0 as nat);
        crate::text::lemma_dec_digits(n0 as nat);
        assert(opt[i] == a);
        assert forall|j: int| 0 <= j < a.len() implies !is_ws(#[trigger] a[j]) by {
            if j >= 8 {
                assert(a[j] == dec(n0 as nat)[j - 8]);
                assert(crate::text::is_digit(dec(n0 as nat)[j - 8]));
            }
        }
    }
    assert forall|i: int| 0 <= i < args.len() implies plain_word(#[trigger] args[i]) by {
        if i < opt.len() {
            assert(args[i] == opt[i]);
        } else {
            assert(args[i] == t[i - opt.len()]);
        }
    }
    let text = logs_command_spec(lines, programs, listing);
    if args.len() > 0 {
        if opt.len() > 0 && t.len() > 0 {
            crate::text::lemma_join_sep_cons(args, space());
            assert(args.drop_first() =~= t);
            assert(args[0] == opt[0]);
        } else if opt.len() > 0 {
            crate::text::lemma_join_sep_snoc(args, space());
            assert(args[0] == opt[0]);
        } else {
            assert(args =~= t);
        }
        assert(text =~= "logs"@ + space() + join_sep(args, space()));
        lemma_command_words("logs"@, args);
        assert(words(text)[0] == "logs"@);
        assert(words(text).drop_first() =~= args);
    } else {
        assert(text =~= "logs"@ + Seq::<char>::empty());
        lemma_words_word_then("logs"@, Seq::<char>::empty());
        assert(words(Seq::<char>::empty()) =~= Seq::<Seq<char>>::empty());
        assert(words(text) =~= seq!["logs"@]);
        assert(words(text).drop_first() =~= args);
    }
    assert(opt + t =~= args);
    assert(Seq::<Seq<char>>::empty() + t =~= t);
    assert(ascii_lower_str("logs"@) =~= "logs"@);
    assert("logs"@[1] != "ping"@[1]);
    assert("logs"@[0] != "start"@[0]);
    assert("logs"@[0] != "stop"@[0]);
    assert("logs"@[1] != "list"@[1]);
}


/// The numbers and names of processes, one after the other.
pub open spec fn program_words(ps: Seq<crate::process::PmProcess>) -> Seq<Seq<char>>
    decreases ps.len(),
{
    if ps.len() == 0 {
        seq![]
    } else {
        program_words(ps.drop_last()).push(dec(ps.last().idx as nat)).push(ps.last().proc_name@)
    }
}

proof fn lemma_program_words(ps: Seq<crate::process::PmProcess>)
    ensures
        program_words(ps).len() == 2 * ps.len(),
        forall|i: int|
            0 <= i < ps.len() ==> program_words(ps)[2 * i] == dec(#[trigger] ps[i].idx as nat)
                && program_words(ps)[2 * i + 1] == ps[i].proc_name@,
        join_sep(ps.map_values(|p: crate::process::PmProcess| crate::runner::program_entry(p)), space())
            == join_sep(program_words(ps), space()),
    decreases ps.len(),
{
    let es = ps.map_values(|p: crate::process::PmProcess| crate::runner::program_entry(p));
    if ps.len() > 0 {
        let d = ps.drop_last();
        lemma_program_words(d);
        let w = program_words(ps);
        let wd = program_words(d);
        assert forall|i: int| 0 <= i < ps.len() implies w[2 * i] == dec(#[trigger] ps[i].idx as nat)
            && w[2 * i + 1] == ps[i].proc_name@ by {
            if i < d.len() {
                assert(d[i] == ps[i]);
                assert(w[2 * i] == wd[2 * i]);
                assert(w[2 * i + 1] == wd[2 * i + 1]);
            }
        }
        let ed = d.map_values(|p: crate::process::PmProcess| crate::runner::program_entry(p));
        assert(es.drop_last() =~= ed);
        lemma_join_sep_snoc(es, space());
        lemma_join_sep_snoc(w, space());
        lemma_join_sep_snoc(w.drop_last(), space());
        assert(w.drop_last() =~= wd.push(dec(ps.last().idx as nat)));
        assert(w.drop_last().drop_last() =~= wd);
        if d.len() == 0 {
            assert(es.len() == 1);
            assert(es[0] == crate::runner::program_entry(ps[0]));
        }
    } else {
        assert(es =~= Seq::<Seq<char>>::empty());
    }
}

proof fn lemma_program_words_plain(ps: Seq<crate::process::PmProcess>)
    requires
        forall|i: int| 0 <= i < ps.len() ==> plain_word(#[trigger] ps[i].proc_name@),
    ensures
        forall|i: int| 0 <= i < program_words(ps).len() ==> plain_word(#[trigger] program_words(ps)[i]),
{
    lemma_program_words(ps);
    let w = program_words(ps);
    assert forall|i: int| 0 <= i < w.len() implies plain_word(#[trigger] w[i]) by {
        let k = i / 2;
        assert(0 <= k < ps.len());
        crate::text::lemma_dec_digits(ps[k].idx as nat);
        if i % 2 == 0 {
            assert(i == 2 * k);
            assert(w[i] == dec(ps[k].idx as nat));
            assert forall|m: int| 0 <= m < w[i].len() implies !is_ws(#[trigger] w[i][m]) by {
                assert(crate::text::is_digit(dec(ps[k].idx as nat)[m]));
            }
        } else {
            assert(i == 2 * k + 1);
            assert(w[i] == ps[k].proc_name@);
        }
    }
}

/// The trimmed reply without its `OK `: the entries joined by spaces, or
/// `OK` alone when there are none.
proof fn lemma_programs_reply_trim(ps: Seq<crate::process::PmProcess>)
    requires
        forall|i: int| 0 <= i < ps.len() ==> plain_word(#[trigger] ps[i].proc_name@),
    ensures
        strip_ok(trim("OK "@ + crate::runner::list_programs_spec(ps) + seq!['\n'])) == if ps.len() == 0 {
            seq!['O', 'K']
        } else {
            join_sep(program_words(ps), space())
        },
{
    reveal_strlit("OK ");
    lemma_program_words(ps);
    let w = program_words(ps);
    let j = join_sep(w, space());
    let t = "OK "@ + crate::runner::list_programs_spec(ps) + seq!['\n'];
    assert(!is_ws(t[0]));
    lemma_join_sep_snoc(w, space());
    if ps.len() == 0 {
        assert(t =~= "OK "@ + seq!['\n']);
        assert(t.drop_last() =~= "OK "@);
        assert("OK "@.drop_last() =~= seq!['O', 'K']);
        crate::text::lemma_trim_id(seq!['O', 'K']);
        assert(crate::text::trim_end(t) == crate::text::trim_end(t.drop_last()));
        assert(crate::text::trim_end("OK "@) == crate::text::trim_end(seq!['O', 'K']));
    } else {
        let u = "OK "@ + j;
        assert(w.last() == ps.last().proc_name@) by {
            assert(w.len() - 1 == 2 * (ps.len() - 1) + 1);
        }
        assert(plain_word(ps[ps.len() - 1].proc_name@));
        assert(j.len() > 0 && j.last() == w.last().last());
        assert(t =~= u + seq!['\n']);
        assert(t.drop_last() =~= u);
        crate::text::lemma_trim_id(u);
        assert(crate::text::trim_end(t) == crate::text::trim_end(t.drop_last()));
        assert(u.take(3) =~= seq!['O', 'K', ' ']);
        assert(u.skip(3) =~= j);
    }
}

/// The client reads the daemon's reply to `list-programs` back as the
/// number and name of each process, in order, as long as every name is a
/// word.
pub proof fn lemma_program_names_read(ps: Seq<crate::process::PmProcess>)
    requires
        forall|i: int| 0 <= i < ps.len() ==> plain_word(#[trigger] ps[i].proc_name@),
    ensures
        name_pairs(trim("OK "@ + crate::runner::list_programs_spec(ps) + seq!['\n'])) == ps.map_values(
            |p: crate::process::PmProcess| (dec(p.idx as nat), p.proc_name@),
        ),
{
    lemma_programs_reply_trim(ps);
    lemma_program_words(ps);
    let w = program_words(ps);
    let target = ps.map_values(|p: crate::process::PmProcess| (dec(p.idx as nat), p.proc_name@));
    let t = "OK "@ + crate::runner::list_programs_spec(ps) + seq!['\n'];
    if ps.len() == 0 {
        lemma_words_word_then(seq!['O', 'K'], Seq::<char>::empty());
        assert(seq!['O', 'K'] + Seq::<char>::empty() =~= seq!['O', 'K']);
        assert(words(Seq::<char>::empty()) =~= Seq::<Seq<char>>::empty());
        assert(words(strip_ok(trim(t))).len() == 1);
        assert(name_pairs(trim(t)) =~= target);
    } else {
        lemma_program_words_plain(ps);
        lemma_words_join(w);
        assert(words(strip_ok(trim(t))) == w);
        assert(name_pairs(trim(t)) =~= target);
    }
}

} // verus!
