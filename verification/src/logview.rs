//! Reading the daemon's log stream on the client side. Each decrypted
//! message is read as text (lossily), trimmed, and stripped of an `OK `
//! prefix; it is then a `LOG <id> <stream> <text>` item, a control word, an
//! error, or text to show. The `logs` command and the monitor read the
//! stream slightly differently; both readings are here.
use vstd::prelude::*;
use crate::cli::strip_ok;
use crate::text::{
    append_chars, ascii_lower_exec, ascii_lower_str, chars_of, chars_views, find_char,
    first_index_of, starts_with, str_eq, string_from_utf8_lossy, string_of, sub_vec, trim,
    trimmed, utf8_lossy, lossy_text, lemma_first_index_at,
};

verus! {

broadcast use vstd::seq_lib::group_seq_properties;

/// `str::splitn(3, ' ')`: the text up to the first space, the text up to
/// the second, and the rest.
#[verifier::opaque]
pub open spec fn splitn3(s: Seq<char>) -> Seq<Seq<char>> {
    match first_index_of(s, ' ') {
        None => seq![s],
        Some(i) => {
            let a = s.take(i);
            let r = s.skip(i + 1);
            match first_index_of(r, ' ') {
                None => seq![a, r],
                Some(j) => seq![a, r.take(j), r.skip(j + 1)],
            }
        },
    }
}

fn splitn3_exec(s: &[char]) -> (r: Vec<Vec<char>>)
    ensures
        chars_views(r@) == splitn3(s@),
        r@.len() >= 1,
{
    let mut out: Vec<Vec<char>> = Vec::new();
    match find_char(s, ' ') {
        None => {
            out.push(sub_vec(s, 0, s.len()));
            assert(s@.take(s@.len() as int) =~= s@);
        },
        Some(i) => {
            let n = s.len();
            assert(i < n);
            out.push(sub_vec(s, 0, i));
            let r = sub_vec(s, i + 1, n);
            match find_char(&r, ' ') {
                None => {
                    out.push(r);
                },
                Some(j) => {
                    let m = r.len();
                    assert(j < m);
                    out.push(sub_vec(&r, 0, j));
                    out.push(sub_vec(&r, j + 1, m));
                },
            }
        },
    }
    proof {
        reveal(splitn3);
    }
    assert(chars_views(out@) =~= splitn3(s@));
    out
}

/// The text of a decrypted message: read lossily, trimmed, without an
/// `OK ` prefix.
pub open spec fn message_text(bytes: Seq<u8>) -> Seq<char> {
    strip_ok(trim(lossy_text(bytes)))
}

fn message_text_exec(bytes: &[u8]) -> (r: Vec<char>)
    ensures
        r@ == message_text(bytes@),
{
    let s = string_from_utf8_lossy(bytes);
    let t = trimmed(&chars_of(s.as_str()));
    crate::cli::strip_ok_exec(&t)
}

/// The text of a decrypted reply, as the client reports it: read lossily
/// and trimmed.
pub fn reply_text(decrypted: &[u8]) -> (r: String)
    ensures
        r@ == trim(lossy_text(decrypted@)),
{
    let s = string_from_utf8_lossy(decrypted);
    string_of(&trimmed(&chars_of(s.as_str())))
}

/// Whether `s` starts with `p`.
pub open spec fn has_prefix(s: Seq<char>, p: Seq<char>) -> bool {
    p.len() <= s.len() && s.take(p.len() as int) == p
}

/// The stream a log item came from.
#[derive(Debug, PartialEq, Eq, Structural)]
pub enum LogStream {
    Stdout,
    Stderr,
}

/// What the `logs` command does with one message.
pub enum LogOutput {
    /// The stream is over.
    Stop,
    /// Nothing to show.
    Skip,
    /// A log item: the process id, its stream and the text.
    Item { pid: String, stream: LogStream, text: String },
    /// Text to print as it is.
    Print(String),
}

pub enum LogOutputView {
    Stop,
    Skip,
    Item(Seq<char>, LogStream, Seq<char>),
    Print(Seq<char>),
}

impl View for LogOutput {
    type V = LogOutputView;

    open spec fn view(&self) -> LogOutputView {
        match self {
            LogOutput::Stop => LogOutputView::Stop,
            LogOutput::Skip => LogOutputView::Skip,
            LogOutput::Item { pid, stream, text } => LogOutputView::Item(pid@, *stream, text@),
            LogOutput::Print(s) => LogOutputView::Print(s@),
        }
    }
}

/// The `logs` command's reading of a message: `EOF` ends the stream,
/// `LOGS` is skipped; `LOG id stream text` is an item when all three parts
/// are there, the stream is `stdout` or `stderr` and the trimmed text is
/// not empty (else it is skipped); anything else is printed.
pub open spec fn cli_log_spec(msg: Seq<char>) -> LogOutputView {
    if msg == "EOF"@ {
        LogOutputView::Stop
    } else if msg == "LOGS"@ {
        LogOutputView::Skip
    } else if has_prefix(msg, "LOG "@) {
        let parts = splitn3(msg.skip(4));
        if parts.len() < 3 {
            LogOutputView::Skip
        } else {
            let text = trim(parts[2]);
            if text.len() == 0 {
                LogOutputView::Skip
            } else if parts[1] == "stdout"@ {
                LogOutputView::Item(parts[0], LogStream::Stdout, text)
            } else if parts[1] == "stderr"@ {
                LogOutputView::Item(parts[0], LogStream::Stderr, text)
            } else {
                LogOutputView::Skip
            }
        }
    } else {
        LogOutputView::Print(msg)
    }
}

/// Reads one decrypted message of the `logs` stream.
pub fn read_log_message(decrypted: &[u8]) -> (r: LogOutput)
    ensures
        r@ == cli_log_spec(message_text(decrypted@)),
{
    proof {
        reveal_strlit("LOG ");
    }
    let msg = message_text_exec(decrypted);
    let ms = string_of(&msg);
    if str_eq(ms.as_str(), "EOF") {
        return LogOutput::Stop;
    }
    if str_eq(ms.as_str(), "LOGS") {
        return LogOutput::Skip;
    }
    if starts_with(&msg, &chars_of("LOG ")) {
        let rest = sub_vec(&msg, 4, msg.len());
        let parts = splitn3_exec(&rest);
        if parts.len() < 3 {
            return LogOutput::Skip;
        }
        let text = trimmed(&parts[2]);
        if text.len() == 0 {
            return LogOutput::Skip;
        }
        let st = string_of(&parts[1]);
        let stream = if str_eq(st.as_str(), "stdout") {
            LogStream::Stdout
        } else if str_eq(st.as_str(), "stderr") {
            LogStream::Stderr
        } else {
            return LogOutput::Skip;
        };
        return LogOutput::Item { pid: string_of(&parts[0]), stream, text: string_of(&text) };
    }
    LogOutput::Print(ms)
}

/// What the monitor does with one message of its log stream.
pub enum MonitorLog {
    Skip,
    /// A line to add to the log pane.
    Show(String),
    /// A last line to add; the stream is over.
    ShowAndStop(String),
}

pub enum MonitorLogView {
    Skip,
    Show(Seq<char>),
    ShowAndStop(Seq<char>),
}

impl View for MonitorLog {
    type V = MonitorLogView;

    open spec fn view(&self) -> MonitorLogView {
        match self {
            MonitorLog::Skip => MonitorLogView::Skip,
            MonitorLog::Show(s) => MonitorLogView::Show(s@),
            MonitorLog::ShowAndStop(s) => MonitorLogView::ShowAndStop(s@),
        }
    }
}

/// The monitor's line for a log item: `[id:err] text` for the standard
/// error stream (in any ASCII case), else `[id:out] text`.
pub open spec fn item_line(id: Seq<char>, stream: Seq<char>, text: Seq<char>) -> Seq<char> {
    "["@ + id + ":"@ + (if ascii_lower_str(stream) == "stderr"@ {
        "err"@
    } else {
        "out"@
    }) + "] "@ + text
}

/// The monitor's reading of a message: `LOGS` and `PING` are skipped,
/// `EOF` shows `logs: EOF` and ends the stream, a `LOG` item with text
/// shows as `item_line` (missing parts read as `?` and empty text), an
/// `ERR` message as `logs error: ..`, anything else as it is.
pub open spec fn monitor_log_spec(msg: Seq<char>) -> MonitorLogView {
    if msg == "LOGS"@ || msg == "PING"@ {
        MonitorLogView::Skip
    } else if msg == "EOF"@ {
        MonitorLogView::ShowAndStop("logs: EOF"@)
    } else if has_prefix(msg, "LOG "@) {
        let parts = splitn3(msg.skip(4));
        let stream = if parts.len() > 1 {
            parts[1]
        } else {
            "?"@
        };
        let text = trim(
            if parts.len() > 2 {
                parts[2]
            } else {
                seq![]
            },
        );
        if text.len() == 0 {
            MonitorLogView::Skip
        } else {
            MonitorLogView::Show(item_line(parts[0], stream, text))
        }
    } else if has_prefix(msg, "ERR "@) {
        MonitorLogView::Show("logs error: "@ + msg.skip(4))
    } else {
        MonitorLogView::Show(msg)
    }
}

/// Reads one decrypted message of the monitor's log stream.
pub fn read_monitor_message(decrypted: &[u8]) -> (r: MonitorLog)
    ensures
        r@ == monitor_log_spec(message_text(decrypted@)),
{
    proof {
        reveal_strlit("LOG ");
        reveal_strlit("ERR ");
    }
    let msg = message_text_exec(decrypted);
    let ms = string_of(&msg);
    if str_eq(ms.as_str(), "LOGS") || str_eq(ms.as_str(), "PING") {
        return MonitorLog::Skip;
    }
    if str_eq(ms.as_str(), "EOF") {
        return MonitorLog::ShowAndStop(string_of(&chars_of("logs: EOF")));
    }
    if starts_with(&msg, &chars_of("LOG ")) {
        let rest = sub_vec(&msg, 4, msg.len());
        let parts = splitn3_exec(&rest);
        let stream = if parts.len() > 1 {
            sub_vec(&parts[1], 0, parts[1].len())
        } else {
            chars_of("?")
        };
        let text = if parts.len() > 2 {
            trimmed(&parts[2])
        } else {
            let e: Vec<char> = Vec::new();
            trimmed(&e)
        };
        if text.len() == 0 {
            return MonitorLog::Skip;
        }
        let mut line = chars_of("[");
        append_chars(&mut line, &parts[0]);
        append_chars(&mut line, &chars_of(":"));
        let lower = string_of(&ascii_lower_exec(&stream));
        if str_eq(lower.as_str(), "stderr") {
            append_chars(&mut line, &chars_of("err"));
        } else {
            append_chars(&mut line, &chars_of("out"));
        }
        append_chars(&mut line, &chars_of("] "));
        append_chars(&mut line, &text);
        return MonitorLog::Show(string_of(&line));
    }
    if starts_with(&msg, &chars_of("ERR ")) {
        let mut line = chars_of("logs error: ");
        append_chars(&mut line, &sub_vec(&msg, 4, msg.len()));
        return MonitorLog::Show(string_of(&line));
    }
    MonitorLog::Show(ms)
}


/// The `logs` command reads `LOG <id> <stream> <text>`, with an id
/// without spaces, `stdout` or `stderr` as the stream, and a text that is
/// not blank and has no whitespace at either end, as an item of that id and
/// stream whose text is the whole rest of the message, spaces included.
pub proof fn lemma_log_item_read(id: Seq<char>, stdout: bool, text: Seq<char>)
    requires
        forall|i: int| 0 <= i < id.len() ==> id[i] != ' ',
        text.len() > 0,
        trim(text) == text,
    ensures
        cli_log_spec(log_item_message(id, stdout, text)) == LogOutputView::Item(
            id,
            if stdout {
                LogStream::Stdout
            } else {
                LogStream::Stderr
            },
            text,
        ),
{
    let st = stream_word(stdout);
    lemma_stream_word(stdout);
    let body = id + seq![' '] + st + seq![' '] + text;
    lemma_splitn3_three(id, st, text);
    let msg = log_item_message(id, stdout, text);
    assert(msg =~= "LOG "@ + body);
    lemma_log_prefix(body, msg);
    lemma_cli_log_item(msg, id, st, text);
}

/// `stdout` or `stderr`.
pub open spec fn stream_word(stdout: bool) -> Seq<char> {
    if stdout {
        "stdout"@
    } else {
        "stderr"@
    }
}

/// The message of one log item: `LOG <id> <stream> <text>`.
pub open spec fn log_item_message(id: Seq<char>, stdout: bool, text: Seq<char>) -> Seq<char> {
    "LOG "@ + id + seq![' '] + stream_word(stdout) + seq![' '] + text
}

proof fn lemma_stream_word(stdout: bool)
    ensures
        stream_word(stdout).len() == 6,
        forall|k: int| 0 <= k < 6 ==> stream_word(stdout)[k] != ' ',
        stream_word(stdout) == "stdout"@ <==> stdout,
        stream_word(stdout) == "stderr"@ <==> !stdout,
{
    reveal_strlit("stdout");
    reveal_strlit("stderr");
    assert("stdout"@[3] != "stderr"@[3]);
}

proof fn lemma_cli_log_item(msg: Seq<char>, id: Seq<char>, st: Seq<char>, text: Seq<char>)
    requires
        msg != "EOF"@,
        msg != "LOGS"@,
        has_prefix(msg, "LOG "@),
        splitn3(msg.skip(4)) == seq![id, st, text],
        text.len() > 0,
        trim(text) == text,
        st == "stdout"@ || st == "stderr"@,
        "stdout"@ != "stderr"@,
    ensures
        cli_log_spec(msg) == LogOutputView::Item(
            id,
            if st == "stdout"@ {
                LogStream::Stdout
            } else {
                LogStream::Stderr
            },
            text,
        ),
{
    let parts = splitn3(msg.skip(4));
    assert(parts.len() == 3 && parts[0] == id && parts[1] == st && parts[2] == text);
}

/// A message made of `LOG ` and a body is neither `EOF` nor `LOGS`, and
/// starts with `LOG `.
proof fn lemma_log_prefix(body: Seq<char>, msg: Seq<char>)
    requires
        body.len() > 0,
        msg == "LOG "@ + body,
    ensures
        msg != "EOF"@,
        msg != "LOGS"@,
        has_prefix(msg, "LOG "@),
        msg.skip(4) == body,
{
    reveal_strlit("LOG ");
    reveal_strlit("EOF");
    reveal_strlit("LOGS");
    assert(msg.len() > 4);
    assert(msg.take(4) =~= "LOG "@);
    assert(msg.skip(4) =~= body);
}

/// `splitn3` of three pieces joined by spaces, the first two without one.
proof fn lemma_splitn3_three(a: Seq<char>, b: Seq<char>, c: Seq<char>)
    requires
        forall|k: int| 0 <= k < a.len() ==> a[k] != ' ',
        forall|k: int| 0 <= k < b.len() ==> b[k] != ' ',
    ensures
        splitn3(a + seq![' '] + b + seq![' '] + c) == seq![a, b, c],
{
    reveal(splitn3);
    let s = a + seq![' '] + b + seq![' '] + c;
    assert(s[a.len() as int] == ' ');
    assert forall|k: int| 0 <= k < a.len() implies s[k] != ' ' by {
        assert(s[k] == a[k]);
    }
    lemma_first_index_at(s, ' ', a.len() as int);
    assert(s.take(a.len() as int) =~= a);
    let r = s.skip(a.len() as int + 1);
    assert(r =~= b + seq![' '] + c);
    assert(r[b.len() as int] == ' ');
    assert forall|k: int| 0 <= k < b.len() implies r[k] != ' ' by {
        assert(r[k] == b[k]);
    }
    lemma_first_index_at(r, ' ', b.len() as int);
    assert(r.take(b.len() as int) =~= b);
    assert(r.skip(b.len() as int + 1) =~= c);
}


/// The `logs` command's reading of other messages: `EOF` ends the stream,
/// `LOGS` is skipped, and a message that does not start with `LOG ` is
/// printed as it is.
pub proof fn lemma_log_other_messages(msg: Seq<char>)
    ensures
        msg == "EOF"@ ==> cli_log_spec(msg) == LogOutputView::Stop,
        msg == "LOGS"@ ==> cli_log_spec(msg) == LogOutputView::Skip,
        msg != "EOF"@ && msg != "LOGS"@ && (msg.len() < 4 || msg.take(4) != "LOG "@) ==> cli_log_spec(
            msg,
        ) == LogOutputView::Print(msg),
{
    assert("EOF"@ != "LOGS"@) by {
        reveal_strlit("EOF");
        reveal_strlit("LOGS");
        assert("EOF"@.len() != "LOGS"@.len());
    }
    assert("LOG "@.len() == 4) by {
        reveal_strlit("LOG ");
    }
}

} // verus!
