//! Process logs: where they are kept, how a log file is rotated when it
//! reaches its size limit, and how output is buffered before it is written.
use vstd::prelude::*;
use crate::paths::{comps_view, file_name_exec, path_components, render, render_comps, Comp, PathComp};
use crate::text::{append_chars, chars_of, dec, ends_with, push_dec, string_of, sub_vec};

verus! {

broadcast use vstd::seq_lib::group_seq_properties;

/// Which output stream of a process.
#[derive(Debug, PartialEq, Eq, Structural)]
pub enum StreamKind {
    Stdout,
    Stderr,
}

/// A piece of output read from a process.
pub struct LogMsg {
    /// The number of the process.
    pub idx: u64,
    pub proc_name: String,
    pub stream: StreamKind,
    pub bytes: Vec<u8>,
}

/// Where the logs of a process are kept.
pub struct ProcLogMeta {
    pub proc_name: String,
    pub stdout_path: String,
    pub stderr_path: String,
}

/// An item of a log stream.
pub enum LogChunk {
    Line(String),
    Eof,
    Ping,
}

impl LogChunk {
    pub open spec fn text_spec(&self) -> Seq<char> {
        match self {
            LogChunk::Line(s) => s@,
            LogChunk::Eof => "EOF"@,
            LogChunk::Ping => "PING"@,
        }
    }

    /// The text of the item: the line itself, `EOF` or `PING`.
    pub fn to_text(&self) -> (r: String)
        ensures
            r@ == self.text_spec(),
    {
        match self {
            LogChunk::Line(s) => string_of(&chars_of(s.as_str())),
            LogChunk::Eof => string_of(&chars_of("EOF")),
            LogChunk::Ping => string_of(&chars_of("PING")),
        }
    }
}

// ---------------------------------------------------------------------------
// A log stream of the metrics API.
// ---------------------------------------------------------------------------

/// What happens to a log stream that a client of the API follows.
pub enum LogEvent {
    /// The subscription could not be registered.
    SubscribeFailed,
    /// The keep-alive interval came round.
    Tick,
    /// An item arrived from the subscription.
    Chunk(LogChunk),
    /// The subscription's source closed.
    SourceClosed,
    /// The last text could not be sent to the client.
    SendFailed,
}

/// One of the last steps of a log stream, in order.
pub enum FinalStep {
    /// Send this text to the client (whether it arrives no longer matters).
    Send(String),
    /// Drop the subscription.
    Unsubscribe,
}

/// What the stream does next.
pub enum LogAction {
    /// Send this text to the client, and report `SendFailed` if it fails.
    Send(String),
    /// Nothing.
    Wait,
    /// Take these steps in order, and end the stream.
    Finish(Vec<FinalStep>),
}

pub enum FinalStepView {
    Send(Seq<char>),
    Unsubscribe,
}

pub enum LogActionView {
    Send(Seq<char>),
    Wait,
    Finish(Seq<FinalStepView>),
}

impl View for FinalStep {
    type V = FinalStepView;

    open spec fn view(&self) -> FinalStepView {
        match self {
            FinalStep::Send(s) => FinalStepView::Send(s@),
            FinalStep::Unsubscribe => FinalStepView::Unsubscribe,
        }
    }
}

impl View for LogAction {
    type V = LogActionView;

    open spec fn view(&self) -> LogActionView {
        match self {
            LogAction::Send(s) => LogActionView::Send(s@),
            LogAction::Wait => LogActionView::Wait,
            LogAction::Finish(v) => LogActionView::Finish(v@.map_values(|f: FinalStep| f@)),
        }
    }
}

/// A line as it is sent: with a line break at the end, added when missing.
pub open spec fn with_newline(l: Seq<char>) -> Seq<char> {
    if l.len() > 0 && l.last() == '\n' {
        l
    } else {
        l.push('\n')
    }
}

/// The decision of a log stream for each event: a keep-alive sends `ping`,
/// a line is sent with its line break, the end of the stream sends `eof`
/// and then drops the subscription, a closed source drops the subscription
/// and then sends `eof`, a failed send drops the subscription, a failed
/// subscription only sends `eof`; every one of these but a send ends the
/// stream. A keep-alive item from the source does nothing.
pub open spec fn log_stream_step_spec(ev: LogEvent) -> LogActionView {
    match ev {
        LogEvent::SubscribeFailed => LogActionView::Finish(seq![FinalStepView::Send("eof\n"@)]),
        LogEvent::Tick => LogActionView::Send("ping\n"@),
        LogEvent::Chunk(LogChunk::Line(l)) => LogActionView::Send(with_newline(l@)),
        LogEvent::Chunk(LogChunk::Eof) => LogActionView::Finish(
            seq![FinalStepView::Send("eof\n"@), FinalStepView::Unsubscribe],
        ),
        LogEvent::Chunk(LogChunk::Ping) => LogActionView::Wait,
        LogEvent::SourceClosed => LogActionView::Finish(
            seq![FinalStepView::Unsubscribe, FinalStepView::Send("eof\n"@)],
        ),
        LogEvent::SendFailed => LogActionView::Finish(seq![FinalStepView::Unsubscribe]),
    }
}

fn eof_step() -> (r: FinalStep)
    ensures
        r@ == FinalStepView::Send("eof\n"@),
{
    FinalStep::Send(string_of(&chars_of("eof\n")))
}

/// What a log stream does on an event.
pub fn log_stream_step(ev: LogEvent) -> (r: LogAction)
    ensures
        r@ == log_stream_step_spec(ev),
{
    match ev {
        LogEvent::SubscribeFailed => {
            let v = vec![eof_step()];
            assert(v@.map_values(|f: FinalStep| f@) =~= seq![FinalStepView::Send("eof\n"@)]);
            LogAction::Finish(v)
        },
        LogEvent::Tick => LogAction::Send(string_of(&chars_of("ping\n"))),
        LogEvent::Chunk(LogChunk::Line(l)) => {
            let mut cs = chars_of(l.as_str());
            let n = cs.len();
            if !(n > 0 && cs[n - 1] == '\n') {
                cs.push('\n');
            }
            LogAction::Send(string_of(&cs))
        },
        LogEvent::Chunk(LogChunk::Eof) => {
            let v = vec![eof_step(), FinalStep::Unsubscribe];
            assert(v@.map_values(|f: FinalStep| f@) =~= seq![
                FinalStepView::Send("eof\n"@),
                FinalStepView::Unsubscribe,
            ]);
            LogAction::Finish(v)
        },
        LogEvent::Chunk(LogChunk::Ping) => LogAction::Wait,
        LogEvent::SourceClosed => {
            let v = vec![FinalStep::Unsubscribe, eof_step()];
            assert(v@.map_values(|f: FinalStep| f@) =~= seq![
                FinalStepView::Unsubscribe,
                FinalStepView::Send("eof\n"@),
            ]);
            LogAction::Finish(v)
        },
        LogEvent::SendFailed => {
            let v = vec![FinalStep::Unsubscribe];
            assert(v@.map_values(|f: FinalStep| f@) =~= seq![FinalStepView::Unsubscribe]);
            LogAction::Finish(v)
        },
    }
}

/// An item of a log stream, as mathematical text.
pub enum LogChunkView {
    Line(Seq<char>),
    Eof,
    Ping,
}

impl View for LogChunk {
    type V = LogChunkView;

    open spec fn view(&self) -> LogChunkView {
        match self {
            LogChunk::Line(s) => LogChunkView::Line(s@),
            LogChunk::Eof => LogChunkView::Eof,
            LogChunk::Ping => LogChunkView::Ping,
        }
    }
}

/// One of the last steps of a relayed log stream (the `logs` command), in
/// order.
pub enum RelayFinal {
    /// Send the end-of-stream item (whether it arrives no longer matters).
    SendEof,
    /// Drop the subscription.
    Unsubscribe,
}

/// What the relay of a `logs` command does next.
pub enum RelayAction {
    /// Pass this item on to the client, and report `SendFailed` if it fails.
    Send(LogChunk),
    /// Nothing.
    Wait,
    /// Take these steps in order, and end the relay.
    Finish(Vec<RelayFinal>),
}

pub enum RelayActionView {
    Send(LogChunkView),
    Wait,
    Finish(Seq<RelayFinal>),
}

impl View for RelayAction {
    type V = RelayActionView;

    open spec fn view(&self) -> RelayActionView {
        match self {
            RelayAction::Send(c) => RelayActionView::Send(c@),
            RelayAction::Wait => RelayActionView::Wait,
            RelayAction::Finish(v) => RelayActionView::Finish(v@),
        }
    }
}

/// The decision of the relay of a `logs` command for each event: a
/// keep-alive passes a keep-alive item on, a line is passed on as it is,
/// the end of the stream passes the end on and then drops the
/// subscription, a closed source drops the subscription and then sends the
/// end, a failed send drops the subscription, a failed subscription only
/// sends the end; every one of these but passing an item on ends the relay.
/// A keep-alive item from the source does nothing.
pub open spec fn relay_step_spec(ev: LogEvent) -> RelayActionView {
    match ev {
        LogEvent::SubscribeFailed => RelayActionView::Finish(seq![RelayFinal::SendEof]),
        LogEvent::Tick => RelayActionView::Send(LogChunkView::Ping),
        LogEvent::Chunk(LogChunk::Line(l)) => RelayActionView::Send(LogChunkView::Line(l@)),
        LogEvent::Chunk(LogChunk::Eof) => RelayActionView::Finish(
            seq![RelayFinal::SendEof, RelayFinal::Unsubscribe],
        ),
        LogEvent::Chunk(LogChunk::Ping) => RelayActionView::Wait,
        LogEvent::SourceClosed => RelayActionView::Finish(
            seq![RelayFinal::Unsubscribe, RelayFinal::SendEof],
        ),
        LogEvent::SendFailed => RelayActionView::Finish(seq![RelayFinal::Unsubscribe]),
    }
}

/// What the relay of a `logs` command does on an event.
pub fn relay_step(ev: LogEvent) -> (r: RelayAction)
    ensures
        r@ == relay_step_spec(ev),
{
    match ev {
        LogEvent::SubscribeFailed => {
            let v = vec![RelayFinal::SendEof];
            assert(v@ =~= seq![RelayFinal::SendEof]);
            RelayAction::Finish(v)
        },
        LogEvent::Tick => RelayAction::Send(LogChunk::Ping),
        LogEvent::Chunk(LogChunk::Line(l)) => RelayAction::Send(LogChunk::Line(l)),
        LogEvent::Chunk(LogChunk::Eof) => {
            let v = vec![RelayFinal::SendEof, RelayFinal::Unsubscribe];
            assert(v@ =~= seq![RelayFinal::SendEof, RelayFinal::Unsubscribe]);
            RelayAction::Finish(v)
        },
        LogEvent::Chunk(LogChunk::Ping) => RelayAction::Wait,
        LogEvent::SourceClosed => {
            let v = vec![RelayFinal::Unsubscribe, RelayFinal::SendEof];
            assert(v@ =~= seq![RelayFinal::Unsubscribe, RelayFinal::SendEof]);
            RelayAction::Finish(v)
        },
        LogEvent::SendFailed => {
            let v = vec![RelayFinal::Unsubscribe];
            assert(v@ =~= seq![RelayFinal::Unsubscribe]);
            RelayAction::Finish(v)
        },
    }
}

/// The logging service: log paths, rotation and buffering.
pub struct LoggingService;

/// Buffers are flushed when a process has this much output waiting.
pub const MAX_BUF_PER_PROC: usize = 8388608;

/// Seconds between flushes.
pub const FLUSH_SECS: u64 = 15;

/// The capacity that an emptied buffer is brought back to.
pub const BASE_BUF_CAP: usize = 4096;

/// The capacity of a vector (`Vec::capacity`); nothing is stated of it.
#[verifier::external_body]
fn vec_capacity(v: &Vec<u8>) -> usize {
    v.capacity()
}

/// `Vec::shrink_to`: the contents stay.
#[verifier::external_body]
fn vec_shrink_to(v: &mut Vec<u8>, cap: usize)
    ensures
        final(v)@ == old(v)@,
{
    v.shrink_to(cap)
}

/// The name that a rotated log takes: `x.log` becomes `x.old.log`, any other
/// name gets `.old.log` appended.
pub open spec fn old_name(name: Seq<char>) -> Seq<char> {
    if name.len() >= 4 && name.skip(name.len() - 4) == ".log"@ {
        name.take(name.len() - 4) + ".old.log"@
    } else {
        name + ".old.log"@
    }
}

/// The components of the directory of a path (`Path::parent`, empty when
/// there is none).
pub open spec fn parent_comps(cs: Seq<Comp>) -> Seq<Comp> {
    if cs.len() > 0 && !(cs.last() is Root) {
        cs.drop_last()
    } else {
        seq![]
    }
}

/// Where the previous log of a path is kept: beside it, under its old name
/// (`log.log` when the path names no file).
pub open spec fn old_log_path_spec(cs: Seq<Comp>) -> Seq<char> {
    let name = if cs.len() > 0 && cs.last() is Normal {
        cs.last()->Normal_0
    } else {
        "log.log"@
    };
    render(parent_comps(cs).push(Comp::Normal(old_name(name))))
}

/// The maximum log size in bytes, from a limit in MiB (saturating).
pub open spec fn max_log_bytes_spec(mb: Option<u64>) -> Option<u64> {
    match mb {
        Some(m) => Some(if m * 1048576 > u64::MAX {
            u64::MAX
        } else {
            (m * 1048576) as u64
        }),
        None => None,
    }
}

/// What to do next while writing `data_len` bytes from `offset` to a log file
/// that holds `current_size` bytes and may hold `max_bytes`.
pub enum RotationStep {
    /// Everything is written.
    Done,
    /// The file is full: move it aside and start a new one.
    Rotate,
    /// Write `data[from..to]`.
    Write { from: usize, to: usize },
}

pub open spec fn rotation_step_spec(offset: usize, data_len: usize, current_size: u64, max_bytes: u64) -> RotationStep {
    if offset >= data_len {
        RotationStep::Done
    } else if current_size >= max_bytes {
        RotationStep::Rotate
    } else {
        let free = max_bytes - current_size;
        let left = data_len - offset;
        RotationStep::Write { from: offset, to: (offset + if free < left { free } else { left }) as usize }
    }
}

impl LoggingService {
    /// Where the previous log of `path` is kept.
    pub fn old_log_path(path: &str) -> (r: String)
        ensures
            r@ == old_log_path_spec(crate::paths::components(path@)),
    {
        let mut cs = path_components(&chars_of(path));
        let name = match file_name_exec(&cs) {
            Some(n) => n,
            None => chars_of("log.log"),
        };
        let n = cs.len();
        let poppable = n > 0 && !matches!(cs[n - 1], PathComp::Root);
        let ghost cv = comps_view(cs@);
        if poppable {
            cs.pop();
            assert(comps_view(cs@) =~= cv.drop_last());
        } else {
            cs = Vec::new();
            assert(comps_view(cs@) =~= Seq::<Comp>::empty());
        }
        let suffix = chars_of(".log");
        proof {
            reveal_strlit(".log");
        }
        let mut old = if ends_with(&name, &suffix) {
            sub_vec(&name, 0, name.len() - 4)
        } else {
            sub_vec(&name, 0, name.len())
        };
        append_chars(&mut old, &chars_of(".old.log"));
        let ghost before = comps_view(cs@);
        cs.push(PathComp::Normal(old));
        assert(comps_view(cs@) =~= before.push(Comp::Normal(old_name(if cv.len() > 0 && cv.last() is Normal {
            cv.last()->Normal_0
        } else {
            "log.log"@
        }))));
        string_of(&render_comps(&cs))
    }

    /// The size limit of a log in bytes, from the limit in MiB that the
    /// process's configuration gives, if any.
    pub fn get_max_log_size_bytes(mb: Option<u64>) -> (r: Option<u64>)
        ensures
            r == max_log_bytes_spec(mb),
    {
        match mb {
            Some(m) => Some(if m > u64::MAX / 1048576 {
                u64::MAX
            } else {
                m * 1048576
            }),
            None => None,
        }
    }

    /// Gives an emptied buffer's memory back beyond the base capacity.
    pub fn shrink_buf(buf: &mut Vec<u8>)
        ensures
            final(buf)@ == old(buf)@,
    {
        if vec_capacity(buf) > BASE_BUF_CAP {
            vec_shrink_to(buf, BASE_BUF_CAP);
        }
    }

    /// The next step of writing to a log file with a size limit.
    pub fn rotation_step(offset: usize, data_len: usize, current_size: u64, max_bytes: u64) -> (r: RotationStep)
        ensures
            r == rotation_step_spec(offset, data_len, current_size, max_bytes),
    {
        if offset >= data_len {
            RotationStep::Done
        } else if current_size >= max_bytes {
            RotationStep::Rotate
        } else {
            let free = max_bytes - current_size;
            let left = data_len - offset;
            let to = if free < left as u64 {
                offset + free as usize
            } else {
                offset + left
            };
            RotationStep::Write { from: offset, to }
        }
    }

    /// The log files of a process: `<home>/processes/<name>/stdout.log` and
    /// `stderr.log`.
    pub fn log_paths(pm3_home: &str, proc_name: &str) -> (r: (String, String))
        ensures
            r.0@ == pm3_home@ + "/processes/"@ + proc_name@ + "/stdout.log"@,
            r.1@ == pm3_home@ + "/processes/"@ + proc_name@ + "/stderr.log"@,
    {
        let mut dir = chars_of(pm3_home);
        append_chars(&mut dir, &chars_of("/processes/"));
        append_chars(&mut dir, &chars_of(proc_name));
        let mut out = sub_vec(&dir, 0, dir.len());
        append_chars(&mut out, &chars_of("/stdout.log"));
        let mut err = sub_vec(&dir, 0, dir.len());
        append_chars(&mut err, &chars_of("/stderr.log"));
        (string_of(&out), string_of(&err))
    }
}

/// The rotation law: a write step never takes the file past its limit, and
/// it always writes something.
pub proof fn lemma_rotation_write_bounded(offset: usize, data_len: usize, current_size: u64, max_bytes: u64)
    ensures
        rotation_step_spec(offset, data_len, current_size, max_bytes) matches RotationStep::Write { from, to } ==> {
            &&& from == offset
            &&& from < to <= data_len
            &&& current_size + (to - from) <= max_bytes
        },
{
}


/// The old and the current log file after writing `data` from `offset` on,
/// one rotation step at a time, or none when more than `fuel` steps are
/// needed. A rotation makes the current file the old one and starts an
/// empty current file; a write appends `data[from..to]` to the current
/// file.
pub open spec fn rotation_run(
    old: Seq<u8>,
    cur: Seq<u8>,
    data: Seq<u8>,
    offset: usize,
    max_bytes: u64,
    fuel: nat,
) -> Option<(Seq<u8>, Seq<u8>)>
    decreases fuel,
{
    if fuel == 0 {
        None
    } else {
        match rotation_step_spec(offset, data.len() as usize, cur.len() as u64, max_bytes) {
            RotationStep::Done => Some((old, cur)),
            RotationStep::Rotate => rotation_run(cur, Seq::empty(), data, offset, max_bytes, (fuel - 1) as nat),
            RotationStep::Write { from, to } => rotation_run(
                old,
                cur + data.subrange(from as int, to as int),
                data,
                to,
                max_bytes,
                (fuel - 1) as nat,
            ),
        }
    }
}

/// The rotation law over a whole write: with a limit of at least one byte
/// and at most that much data, the steps end within four; the current file
/// is then within the limit, the old and the current file together end
/// with the data, and when the data fits beside what the current file held,
/// the data is simply appended and the old file is left alone.
pub proof fn lemma_rotation_run(old: Seq<u8>, cur: Seq<u8>, data: Seq<u8>, max_bytes: u64)
    requires
        1 <= max_bytes,
        0 < data.len() <= max_bytes,
        data.len() <= usize::MAX,
        cur.len() <= u64::MAX,
    ensures
        rotation_run(old, cur, data, 0, max_bytes, 4) matches Some((o, c)) && {
            &&& c.len() <= max_bytes
            &&& data.len() <= (o + c).len()
            &&& (o + c).subrange((o + c).len() - data.len(), (o + c).len() as int) == data
            &&& cur.len() + data.len() <= max_bytes ==> o == old && c == cur + data
        },
{
    reveal_with_fuel(rotation_run, 5);
    let n = data.len();
    assert(data.subrange(0, n as int) =~= data);
    if cur.len() >= max_bytes {
        let r = rotation_run(old, cur, data, 0, max_bytes, 4);
        assert(rotation_run(cur, Seq::empty(), data, 0, max_bytes, 3) == r);
        assert(Seq::<u8>::empty() + data =~= data);
        assert(r == Some((cur, data)));
        assert((cur + data).subrange((cur + data).len() - n, (cur + data).len() as int) =~= data);
    } else if cur.len() + n <= max_bytes {
        let r = rotation_run(old, cur, data, 0, max_bytes, 4);
        assert(r == Some((old, cur + data)));
        let oc = old + (cur + data);
        assert(oc.subrange(oc.len() - n, oc.len() as int) =~= data);
    } else {
        let free = (max_bytes - cur.len()) as usize;
        let c1 = cur + data.subrange(0, free as int);
        assert(c1.len() == max_bytes);
        let rest = data.subrange(free as int, n as int);
        assert(Seq::<u8>::empty() + rest =~= rest);
        let r = rotation_run(old, cur, data, 0, max_bytes, 4);
        assert(r == rotation_run(old, c1, data, free, max_bytes, 3));
        assert(rotation_run(old, c1, data, free, max_bytes, 3) == rotation_run(c1, Seq::empty(), data, free, max_bytes, 2));
        assert(r == Some((c1, rest)));
        let oc = c1 + rest;
        assert(oc =~= cur + data);
        assert(oc.subrange(oc.len() - n, oc.len() as int) =~= data);
    }
}

// ---------------------------------------------------------------------------
// Buffering of process output.
// ---------------------------------------------------------------------------

/// The waiting output of one process, and how much it wrote since the last
/// idle check.
pub struct ProcBuffers {
    pub idx: u64,
    pub out: Vec<u8>,
    pub err: Vec<u8>,
    pub out_recent: u64,
    pub err_recent: u64,
}

/// The output waiting to be written, per process.
pub struct LogBuffers {
    pub procs: Vec<ProcBuffers>,
    /// Bytes received since the last statistics line.
    pub bytes_recent: u64,
}

/// Index of the buffers of a process.
pub open spec fn buf_index(ps: Seq<ProcBuffers>, idx: u64) -> Option<int> {
    if exists|i: int| 0 <= i < ps.len() && ps[i].idx == idx {
        Some(choose|i: int| 0 <= i < ps.len() && ps[i].idx == idx)
    } else {
        None
    }
}

pub open spec fn wrap_add(a: u64, b: u64) -> u64 {
    ((a as nat + b as nat) % 18446744073709551616) as u64
}

fn wrapping_add_u64(a: u64, b: u64) -> (r: u64)
    ensures
        r == wrap_add(a, b),
{
    let s: u128 = a as u128 + b as u128;
    (s % 18446744073709551616u128) as u64
}

impl LogBuffers {
    /// No process has a buffer yet.
    pub fn new() -> (r: LogBuffers)
        ensures
            r.procs@.len() == 0,
            r.bytes_recent == 0,
    {
        LogBuffers { procs: Vec::new(), bytes_recent: 0 }
    }

    /// Each process has at most one buffer.
    pub open spec fn wf(&self) -> bool {
        forall|i: int, j: int| 0 <= i < j < self.procs@.len() ==> self.procs@[i].idx != self.procs@[j].idx
    }

    fn find(&self, idx: u64) -> (r: Option<usize>)
        ensures
            r matches Some(i) ==> i < self.procs@.len() && self.procs@[i as int].idx == idx,
            r is None ==> forall|i: int| 0 <= i < self.procs@.len() ==> self.procs@[i].idx != idx,
    {
        let mut i: usize = 0;
        while i < self.procs.len()
            invariant
                i <= self.procs@.len(),
                forall|j: int| 0 <= j < i ==> self.procs@[j].idx != idx,
            decreases self.procs.len() - i,
        {
            if self.procs[i].idx == idx {
                return Some(i);
            }
            i = i + 1;
        }
        None
    }

    /// Takes output of a process: it is appended to the buffer of its stream
    /// and counted; the result tells whether the process now has at least
    /// `MAX_BUF_PER_PROC` bytes waiting, so that they must be written now.
    pub fn accept(&mut self, idx: u64, stream: StreamKind, bytes: &[u8]) -> (flush: bool)
        requires
            old(self).wf(),
        ensures
            final(self).wf(),
            final(self).bytes_recent == wrap_add(old(self).bytes_recent, bytes@.len() as u64),
            buf_index(final(self).procs@, idx) matches Some(i) && {
                let b = final(self).procs@[i];
                let before = match buf_index(old(self).procs@, idx) {
                    Some(k) => (old(self).procs@[k].out@, old(self).procs@[k].err@),
                    None => (Seq::<u8>::empty(), Seq::<u8>::empty()),
                };
                let counted = match buf_index(old(self).procs@, idx) {
                    Some(k) => (old(self).procs@[k].out_recent, old(self).procs@[k].err_recent),
                    None => (0u64, 0u64),
                };
                &&& stream == StreamKind::Stdout ==> b.out@ == before.0 + bytes@ && b.err@ == before.1
                &&& stream == StreamKind::Stderr ==> b.err@ == before.1 + bytes@ && b.out@ == before.0
                &&& stream == StreamKind::Stdout ==> b.out_recent == wrap_add(counted.0, bytes@.len() as u64)
                    && b.err_recent == counted.1
                &&& stream == StreamKind::Stderr ==> b.err_recent == wrap_add(counted.1, bytes@.len() as u64)
                    && b.out_recent == counted.0
                &&& flush == (b.out@.len() + b.err@.len() >= MAX_BUF_PER_PROC)
            },
            match buf_index(old(self).procs@, idx) {
                Some(k) => final(self).procs@ == old(self).procs@.update(k, final(self).procs@[k]),
                None => final(self).procs@ == old(self).procs@.push(final(self).procs@.last()),
            },
    {
        let n = bytes.len() as u64;
        self.bytes_recent = wrapping_add_u64(self.bytes_recent, n);
        let pos = match self.find(idx) {
            Some(i) => i,
            None => {
                self.procs.push(ProcBuffers { idx, out: Vec::new(), err: Vec::new(), out_recent: 0, err_recent: 0 });
                self.procs.len() - 1
            },
        };
        let ghost mid = self.procs@;
        let mut b = self.procs.remove(pos);
        let ghost b0 = b;
        let mut k: usize = 0;
        match stream {
            StreamKind::Stdout => {
                b.out_recent = wrapping_add_u64(b.out_recent, n);
                while k < bytes.len()
                    invariant
                        k <= bytes@.len(),
                        b.out@ == b0.out@ + bytes@.take(k as int),
                        b.err@ == b0.err@,
                        b.idx == idx,
                        b.out_recent == wrap_add(b0.out_recent, n),
                        b.err_recent == b0.err_recent,
                    decreases bytes.len() - k,
                {
                    b.out.push(bytes[k]);
                    assert(bytes@.take(k + 1) =~= bytes@.take(k as int).push(bytes@[k as int]));
                    k = k + 1;
                }
            },
            StreamKind::Stderr => {
                b.err_recent = wrapping_add_u64(b.err_recent, n);
                while k < bytes.len()
                    invariant
                        k <= bytes@.len(),
                        b.err@ == b0.err@ + bytes@.take(k as int),
                        b.out@ == b0.out@,
                        b.idx == idx,
                        b.err_recent == wrap_add(b0.err_recent, n),
                        b.out_recent == b0.out_recent,
                    decreases bytes.len() - k,
                {
                    b.err.push(bytes[k]);
                    assert(bytes@.take(k + 1) =~= bytes@.take(k as int).push(bytes@[k as int]));
                    k = k + 1;
                }
            },
        }
        assert(bytes@.take(bytes@.len() as int) =~= bytes@);
        let total_big = b.out.len() >= MAX_BUF_PER_PROC || b.err.len() >= MAX_BUF_PER_PROC - b.out.len();
        self.procs.insert(pos, b);
        proof {
            let ps = self.procs@;
            assert(ps =~= mid.update(pos as int, b));
            assert forall|i: int, j: int| 0 <= i < j < ps.len() implies ps[i].idx != ps[j].idx by {
                if i != pos && j != pos {
                    assert(ps[i] == mid[i] && ps[j] == mid[j]);
                }
            }
            let bi = buf_index(ps, idx);
            assert(ps[pos as int].idx == idx);
            let ci = bi->Some_0;
            assert(ci == pos);
            match buf_index(old(self).procs@, idx) {
                Some(kk) => {
                    assert(old(self).procs@[kk].idx == idx);
                    assert(old(self).procs@[pos as int].idx == idx);
                    if kk != pos as int {
                        if kk < pos as int {
                            assert(old(self).procs@[kk].idx != old(self).procs@[pos as int].idx);
                        } else {
                            assert(old(self).procs@[pos as int].idx != old(self).procs@[kk].idx);
                        }
                    }
                    assert(mid =~= old(self).procs@);
                    assert(ps =~= old(self).procs@.update(kk, ps[kk]));
                },
                None => {
                    assert(mid =~= old(self).procs@.push(mid.last()));
                    assert(ps =~= old(self).procs@.push(ps.last()));
                },
            }
        }
        total_big
    }
}

impl LogBuffers {
    /// The position of the buffers of a process that has output waiting.
    pub fn pending(&self, idx: u64) -> (r: Option<usize>)
        requires
            self.wf(),
        ensures
            r matches Some(i) ==> i < self.procs@.len() && self.procs@[i as int].idx == idx && (
            self.procs@[i as int].out@.len() > 0 || self.procs@[i as int].err@.len() > 0),
            r is None ==> forall|i: int| 0 <= i < self.procs@.len() && self.procs@[i].idx == idx
                ==> self.procs@[i].out@.len() == 0 && self.procs@[i].err@.len() == 0,
    {
        match self.find(idx) {
            Some(i) => if self.procs[i].out.len() > 0 || self.procs[i].err.len() > 0 {
                Some(i)
            } else {
                proof {
                    assert forall|j: int| 0 <= j < self.procs@.len() && self.procs@[j].idx == idx implies self.procs@[j].out@.len() == 0 && self.procs@[j].err@.len() == 0 by {
                        if j != i {
                            assert(self.procs@[j].idx != self.procs@[i as int].idx);
                        }
                    }
                }
                None
            },
            None => None,
        }
    }

    /// The standard output waiting at a position was written: it is
    /// dropped, and its memory given back beyond the base capacity.
    pub fn clear_out(&mut self, pos: usize)
        requires
            old(self).wf(),
            pos < old(self).procs@.len(),
        ensures
            final(self).wf(),
            final(self).bytes_recent == old(self).bytes_recent,
            final(self).procs@.len() == old(self).procs@.len(),
            final(self).procs@[pos as int].out@.len() == 0,
            final(self).procs@[pos as int].err@ == old(self).procs@[pos as int].err@,
            final(self).procs@[pos as int].idx == old(self).procs@[pos as int].idx,
            final(self).procs@[pos as int].out_recent == old(self).procs@[pos as int].out_recent,
            final(self).procs@[pos as int].err_recent == old(self).procs@[pos as int].err_recent,
            forall|j: int| 0 <= j < final(self).procs@.len() && j != pos ==> final(self).procs@[j] == old(self).procs@[j],
    {
        let mut b = self.procs.remove(pos);
        b.out = Vec::new();
        LoggingService::shrink_buf(&mut b.out);
        self.procs.insert(pos, b);
        proof {
            let ps = self.procs@;
            assert forall|i: int, j: int| 0 <= i < j < ps.len() implies ps[i].idx != ps[j].idx by {
                assert(ps[i].idx == old(self).procs@[i].idx);
                assert(ps[j].idx == old(self).procs@[j].idx);
            }
        }
    }

    /// The standard error waiting at a position was written: it is dropped.
    pub fn clear_err(&mut self, pos: usize)
        requires
            old(self).wf(),
            pos < old(self).procs@.len(),
        ensures
            final(self).wf(),
            final(self).bytes_recent == old(self).bytes_recent,
            final(self).procs@.len() == old(self).procs@.len(),
            final(self).procs@[pos as int].err@.len() == 0,
            final(self).procs@[pos as int].out@ == old(self).procs@[pos as int].out@,
            final(self).procs@[pos as int].idx == old(self).procs@[pos as int].idx,
            final(self).procs@[pos as int].out_recent == old(self).procs@[pos as int].out_recent,
            final(self).procs@[pos as int].err_recent == old(self).procs@[pos as int].err_recent,
            forall|j: int| 0 <= j < final(self).procs@.len() && j != pos ==> final(self).procs@[j] == old(self).procs@[j],
    {
        let mut b = self.procs.remove(pos);
        b.err = Vec::new();
        LoggingService::shrink_buf(&mut b.err);
        self.procs.insert(pos, b);
        proof {
            let ps = self.procs@;
            assert forall|i: int, j: int| 0 <= i < j < ps.len() implies ps[i].idx != ps[j].idx by {
                assert(ps[i].idx == old(self).procs@[i].idx);
                assert(ps[j].idx == old(self).procs@[j].idx);
            }
        }
    }

    /// The idle check after a flush: for each process, whether its standard
    /// output and its standard error were silent since the last check (their
    /// log files can be closed); the counters start again from zero.
    pub fn idle_check(&mut self) -> (r: Vec<(u64, bool, bool)>)
        requires
            old(self).wf(),
        ensures
            final(self).wf(),
            r@.len() == old(self).procs@.len(),
            final(self).procs@.len() == old(self).procs@.len(),
            final(self).bytes_recent == old(self).bytes_recent,
            forall|i: int| 0 <= i < r@.len() ==> #[trigger] r@[i] == (
                old(self).procs@[i].idx,
                old(self).procs@[i].out_recent == 0,
                old(self).procs@[i].err_recent == 0,
            ),
            forall|i: int| 0 <= i < final(self).procs@.len() ==> {
                &&& (#[trigger] final(self).procs@[i]).idx == old(self).procs@[i].idx
                &&& final(self).procs@[i].out@ == old(self).procs@[i].out@
                &&& final(self).procs@[i].err@ == old(self).procs@[i].err@
                &&& final(self).procs@[i].out_recent == 0
                &&& final(self).procs@[i].err_recent == 0
            },
    {
        let mut r: Vec<(u64, bool, bool)> = Vec::new();
        let n = self.procs.len();
        let mut i: usize = 0;
        while i < n
            invariant
                i <= n == self.procs@.len() == old(self).procs@.len(),
                self.bytes_recent == old(self).bytes_recent,
                r@.len() == i,
                forall|k: int| 0 <= k < i ==> #[trigger] r@[k] == (
                    old(self).procs@[k].idx,
                    old(self).procs@[k].out_recent == 0,
                    old(self).procs@[k].err_recent == 0,
                ),
                forall|k: int| 0 <= k < n ==> {
                    &&& (#[trigger] self.procs@[k]).idx == old(self).procs@[k].idx
                    &&& self.procs@[k].out@ == old(self).procs@[k].out@
                    &&& self.procs@[k].err@ == old(self).procs@[k].err@
                },
                forall|k: int| 0 <= k < i ==> (#[trigger] self.procs@[k]).out_recent == 0 && self.procs@[k].err_recent == 0,
                forall|k: int| i <= k < n ==> (#[trigger] self.procs@[k]).out_recent == old(self).procs@[k].out_recent && self.procs@[k].err_recent == old(self).procs@[k].err_recent,
            decreases n - i,
        {
            let mut b = self.procs.remove(i);
            r.push((b.idx, b.out_recent == 0, b.err_recent == 0));
            b.out_recent = 0;
            b.err_recent = 0;
            self.procs.insert(i, b);
            i = i + 1;
        }
        proof {
            let ps = self.procs@;
            assert forall|a: int, c: int| 0 <= a < c < ps.len() implies ps[a].idx != ps[c].idx by {
                assert(ps[a].idx == old(self).procs@[a].idx);
                assert(ps[c].idx == old(self).procs@[c].idx);
            }
        }
        r
    }

    /// The statistics line of a flush tick, `[pm3][stats] received <n>
    /// bytes in last 15s (~<n/15> B/s)`; the count starts again from zero.
    pub fn stats_line(&mut self) -> (r: String)
        ensures
            r@ == "[pm3][stats] received "@ + dec(old(self).bytes_recent as nat) + " bytes in last 15s (~"@
                + dec((old(self).bytes_recent / FLUSH_SECS) as nat) + " B/s)"@,
            final(self).bytes_recent == 0,
            final(self).procs@ == old(self).procs@,
    {
        let b = self.bytes_recent;
        let mut out = chars_of("[pm3][stats] received ");
        push_dec(&mut out, b);
        append_chars(&mut out, &chars_of(" bytes in last 15s (~"));
        push_dec(&mut out, b / FLUSH_SECS);
        append_chars(&mut out, &chars_of(" B/s)"));
        self.bytes_recent = 0;
        string_of(&out)
    }
}

} // verus!
