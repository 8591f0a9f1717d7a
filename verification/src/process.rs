//! A managed process as the daemon tracks it: its status, the status line
//! that `list` reports, and the numbering of processes.
use vstd::prelude::*;
use vstd::utf8::*;
use crate::pm3_config::{ConfigView, PmProcessConfig};
use crate::text::{append_chars, chars_of, dec, dec_int, i64_to_chars, string_of, u64_to_chars};

verus! {

broadcast use vstd::seq_lib::group_seq_properties;

/// The status of a managed process.
#[derive(Debug, PartialEq, Eq, Structural)]
pub enum PmProcessStatus {
    Disabled,
    NotStarted,
    Initializing,
    InitializingFailed,
    Running,
    Stopped,
    Exited(i32),
    Finished(i32),
}

impl PmProcessStatus {
    pub open spec fn spec_is_active(&self) -> bool {
        match self {
            PmProcessStatus::NotStarted => true,
            PmProcessStatus::Initializing => true,
            PmProcessStatus::Running => true,
            _ => false,
        }
    }

    /// Whether the process is meant to run: not started yet, starting, or
    /// running.
    pub fn is_active(&self) -> (r: bool)
        ensures
            r == self.spec_is_active(),
    {
        match self {
            PmProcessStatus::NotStarted => true,
            PmProcessStatus::Initializing => true,
            PmProcessStatus::Running => true,
            _ => false,
        }
    }

    /// The default status, `NotStarted`.
    pub fn default_status() -> (r: PmProcessStatus)
        ensures
            r == PmProcessStatus::NotStarted,
    {
        PmProcessStatus::NotStarted
    }

    pub fn copy(&self) -> (r: PmProcessStatus)
        ensures
            r == *self,
    {
        match self {
            PmProcessStatus::Disabled => PmProcessStatus::Disabled,
            PmProcessStatus::NotStarted => PmProcessStatus::NotStarted,
            PmProcessStatus::Initializing => PmProcessStatus::Initializing,
            PmProcessStatus::InitializingFailed => PmProcessStatus::InitializingFailed,
            PmProcessStatus::Running => PmProcessStatus::Running,
            PmProcessStatus::Stopped => PmProcessStatus::Stopped,
            PmProcessStatus::Exited(c) => PmProcessStatus::Exited(*c),
            PmProcessStatus::Finished(c) => PmProcessStatus::Finished(*c),
        }
    }
}

/// The status after the child exited with the given exit code (`None`
/// when it was ended by a signal, which counts as `-1`): `Finished(0)` for
/// a clean exit, `Exited(code)` otherwise.
pub open spec fn status_after_exit_spec(code: Option<i32>) -> PmProcessStatus {
    let c = match code {
        Some(c) => c,
        None => -1i32,
    };
    if c == 0 {
        PmProcessStatus::Finished(c)
    } else {
        PmProcessStatus::Exited(c)
    }
}

pub fn status_after_exit(code: Option<i32>) -> (r: PmProcessStatus)
    ensures
        r == status_after_exit_spec(code),
{
    let c = match code {
        Some(c) => c,
        None => -1,
    };
    if c == 0 {
        PmProcessStatus::Finished(c)
    } else {
        PmProcessStatus::Exited(c)
    }
}

// ---------------------------------------------------------------------------
// Process numbers.
// ---------------------------------------------------------------------------

/// The counter that numbers processes. It starts at 1 and counts up (with
/// wrap-around, as an atomic `fetch_add` does).
pub struct IdCounter {
    pub next: u64,
}

impl IdCounter {
    /// A fresh counter.
    pub open spec fn new_spec() -> IdCounter {
        IdCounter { next: 1 }
    }

    pub fn new() -> (r: IdCounter)
        ensures
            r.next == 1,
            r == Self::new_spec(),
    {
        IdCounter { next: 1 }
    }

    /// Back to 1, as `revive` does.
    pub fn reset(&mut self)
        ensures
            final(self).next == 1,
    {
        self.next = 1;
    }
}

/// The counter after handing out `n`: one more, wrapping at the end.
pub open spec fn next_id(n: u64) -> u64 {
    if n == u64::MAX {
        0
    } else {
        (n + 1) as u64
    }
}

/// The counter after `k` numbers were handed out from `start`.
pub open spec fn counter_after(start: u64, k: nat) -> u64
    decreases k,
{
    if k == 0 {
        start
    } else {
        next_id(counter_after(start, (k - 1) as nat))
    }
}

/// The numbers that `n` calls of `alloc_id` hand out from `start`, in order.
pub open spec fn ids_from(start: u64, n: nat) -> Seq<u64>
    decreases n,
{
    if n == 0 {
        seq![]
    } else {
        ids_from(start, (n - 1) as nat).push(counter_after(start, (n - 1) as nat))
    }
}

/// Hands out the next process number.
pub fn alloc_id(counter: &mut IdCounter) -> (r: u64)
    ensures
        r == old(counter).next,
        final(counter).next == next_id(old(counter).next),
        final(counter).next == (if old(counter).next == u64::MAX {
            0
        } else {
            old(counter).next + 1
        }),
{
    let r = counter.next;
    counter.next = if r == u64::MAX {
        0
    } else {
        r + 1
    };
    r
}

proof fn lemma_counter_after(k: nat)
    requires
        k < u64::MAX,
    ensures
        counter_after(1, k) == k + 1,
    decreases k,
{
    if k > 0 {
        lemma_counter_after((k - 1) as nat);
    }
}

proof fn lemma_ids_from(n: nat)
    requires
        n <= u64::MAX,
    ensures
        ids_from(1, n).len() == n,
        forall|i: int| 0 <= i < n ==> #[trigger] ids_from(1, n)[i] == i + 1,
    decreases n,
{
    if n > 0 {
        lemma_ids_from((n - 1) as nat);
        lemma_counter_after((n - 1) as nat);
        let s = ids_from(1, n);
        assert forall|i: int| 0 <= i < n implies #[trigger] s[i] == i + 1 by {
            if i < n - 1 {
                assert(s[i] == ids_from(1, (n - 1) as nat)[i]);
            }
        }
    }
}

/// The numbering law: from a fresh counter, `n` calls of `alloc_id` hand
/// out 1, 2, .., n, each one more than the last, no two alike, and leave
/// the counter at n + 1 (at 0 after the last number there is).
pub proof fn lemma_fresh_ids(n: nat)
    requires
        n <= u64::MAX,
    ensures
        ids_from(IdCounter::new_spec().next, n) == Seq::new(n, |i: int| (i + 1) as u64),
        forall|i: int, j: int| 0 <= i < j < n ==> ids_from(1, n)[i] != ids_from(1, n)[j],
        forall|i: int| 0 <= i < n - 1 ==> ids_from(1, n)[i + 1] == #[trigger] ids_from(1, n)[i] + 1,
        counter_after(1, n) == if n < u64::MAX {
            n + 1
        } else {
            0
        },
{
    lemma_ids_from(n);
    assert(ids_from(1, n) =~= Seq::new(n, |i: int| (i + 1) as u64));
    if n < u64::MAX {
        lemma_counter_after(n);
    } else {
        lemma_counter_after((n - 1) as nat);
    }
}

// ---------------------------------------------------------------------------
// The status line of `list`.
// ---------------------------------------------------------------------------

/// The snapshot of a process that `list` reports. `cpu_text` is the CPU
/// reading already written with five decimals (the daemon measures it as a
/// float).
pub struct PmProcessStatusInfo {
    pub id: u64,
    pub name: String,
    pub status: PmProcessStatus,
    pub pid: Option<u32>,
    pub uptime: Option<u64>,
    pub cpu_text: Option<String>,
    pub memory_usage: Option<u64>,
    pub user: Option<String>,
}

/// Bytes that percent-encoding keeps as they are.
pub open spec fn is_unreserved(b: u8) -> bool {
    (65 <= b <= 90) || (97 <= b <= 122) || (48 <= b <= 57) || b == 45 || b == 46 || b == 95 || b
        == 126
}

/// An upper-case hex digit.
pub open spec fn hex_digit(d: u8) -> char {
    if d < 10 {
        ((d + 48) as u8) as char
    } else {
        ((d + 55) as u8) as char
    }
}

/// One byte, percent-encoded.
pub open spec fn enc_byte(b: u8) -> Seq<char> {
    if is_unreserved(b) {
        seq![b as char]
    } else {
        seq!['%', hex_digit(b / 16), hex_digit(b % 16)]
    }
}

/// Percent-encoding of bytes: unreserved bytes as themselves, any other
/// byte as `%XX` in upper-case hex.
#[verifier::opaque]
pub open spec fn pct_enc(b: Seq<u8>) -> Seq<char>
    decreases b.len(),
{
    if b.len() == 0 {
        seq![]
    } else {
        pct_enc(b.drop_last()) + enc_byte(b.last())
    }
}

pub proof fn lemma_pct_enc_snoc(b: Seq<u8>)
    ensures
        b.len() == 0 ==> pct_enc(b) == Seq::<char>::empty(),
        b.len() > 0 ==> pct_enc(b) == pct_enc(b.drop_last()) + enc_byte(b.last()),
{
    reveal(pct_enc);
}

/// Percent-encoding of the UTF-8 bytes of a text.
pub open spec fn pct_enc_str(s: Seq<char>) -> Seq<char> {
    pct_enc(encode_utf8(s))
}

fn hex_digit_exec(d: u8) -> (r: char)
    requires
        d < 16,
    ensures
        r == hex_digit(d),
{
    if d < 10 {
        (d + 48) as char
    } else {
        (d + 55) as char
    }
}

/// Percent-encodes the UTF-8 bytes of `s`.
pub fn percent_encode(s: &str) -> (r: Vec<char>)
    ensures
        r@ == pct_enc_str(s@),
{
    let bytes = s.as_bytes();
    let mut out: Vec<char> = Vec::new();
    let mut i: usize = 0;
    proof {
        assert(bytes@.take(0) =~= Seq::<u8>::empty());
        lemma_pct_enc_snoc(Seq::<u8>::empty());
    }
    while i < bytes.len()
        invariant
            i <= bytes@.len(),
            out@ == pct_enc(bytes@.take(i as int)),
        decreases bytes.len() - i,
    {
        let b = bytes[i];
        let ok = (65 <= b && b <= 90) || (97 <= b && b <= 122) || (48 <= b && b <= 57) || b == 45
            || b == 46 || b == 95 || b == 126;
        let ghost old_out = out@;
        if ok {
            out.push(b as char);
        } else {
            out.push('%');
            out.push(hex_digit_exec(b / 16));
            out.push(hex_digit_exec(b % 16));
        }
        proof {
            let pre = bytes@.take(i + 1);
            lemma_pct_enc_snoc(pre);
            assert(pre.drop_last() =~= bytes@.take(i as int));
            assert(pre.last() == b);
            assert(out@ =~= old_out + enc_byte(b));
        }
        i = i + 1;
    }
    assert(bytes@.take(bytes@.len() as int) =~= bytes@);
    out
}

/// `k=v`, both percent-encoded, after a `&` unless it is the first pair.
pub open spec fn qs_pair(first: bool, k: Seq<char>, v: Seq<char>) -> Seq<char> {
    (if first {
        seq![]
    } else {
        seq!['&']
    }) + pct_enc_str(k) + seq!['='] + pct_enc_str(v)
}

/// The word for a status on the status line, with the exit code it carries.
pub open spec fn status_word(s: PmProcessStatus) -> (Seq<char>, Option<i32>) {
    match s {
        PmProcessStatus::Running => ("running"@, None),
        PmProcessStatus::Exited(c) => ("exited"@, Some(c)),
        PmProcessStatus::Finished(c) => ("exited"@, Some(c)),
        _ => ("stopped"@, None),
    }
}

/// A pair that is written only when its value is known.
pub open spec fn opt_pair(k: Seq<char>, v: Option<Seq<char>>) -> Seq<char> {
    match v {
        Some(x) => qs_pair(false, k, x),
        None => seq![],
    }
}

pub open spec fn opt_dec(v: Option<u64>) -> Option<Seq<char>> {
    match v {
        Some(x) => Some(dec(x as nat)),
        None => None,
    }
}

pub open spec fn opt_str(v: Option<String>) -> Option<Seq<char>> {
    match v {
        Some(x) => Some(x@),
        None => None,
    }
}

fn push_opt_pair(dst: &mut Vec<char>, k: &str, v: Option<&str>)
    requires
        old(dst)@.len() > 0,
    ensures
        final(dst)@ == old(dst)@ + opt_pair(k@, match v {
            Some(x) => Some(x@),
            None => None,
        }),
        final(dst)@.len() > 0,
{
    match v {
        Some(x) => push_pair(dst, k, x),
        None => {
            assert(dst@ =~= dst@ + Seq::<char>::empty());
        },
    }
}

fn push_pair(dst: &mut Vec<char>, k: &str, v: &str)
    ensures
        final(dst)@ == old(dst)@ + qs_pair(old(dst)@.len() == 0, k@, v@),
        final(dst)@.len() > 0,
{
    let ghost d0 = dst@;
    let first = dst.len() == 0;
    if !first {
        dst.push('&');
    }
    let ghost d1 = dst@;
    assert(d1 =~= d0 + (if first {
        Seq::<char>::empty()
    } else {
        seq!['&']
    }));
    let ke = percent_encode(k);
    append_chars(dst, &ke);
    dst.push('=');
    let ve = percent_encode(v);
    append_chars(dst, &ve);
    assert(dst@ =~= d0 + qs_pair(first, k@, v@));
}


impl PmProcessStatusInfo {
    /// The status line, as spec text.
    pub open spec fn qs_line_spec(&self) -> Seq<char> {
        let (word, exit) = status_word(self.status);
        qs_pair(true, "id"@, dec(self.id as nat)) + qs_pair(false, "name"@, self.name@) + qs_pair(
            false,
            "status"@,
            word,
        ) + opt_pair(
            "exit_code"@,
            match exit {
                Some(c) => Some(dec_int(c as int)),
                None => None,
            },
        ) + opt_pair(
            "pid"@,
            match self.pid {
                Some(p) => Some(dec(p as nat)),
                None => None,
            },
        ) + opt_pair("uptime"@, opt_dec(self.uptime)) + opt_pair("cpu"@, opt_str(self.cpu_text))
            + opt_pair("mem"@, opt_dec(self.memory_usage)) + opt_pair("user"@, opt_str(self.user))
    }

    /// The status line that `list` sends for this process:
    /// `id=..&name=..&status=..` then, when known, `exit_code`, `pid`,
    /// `uptime`, `cpu`, `mem` and `user`, every key and value
    /// percent-encoded.
    pub fn to_qs_line(&self) -> (r: String)
        ensures
            r@ == self.qs_line_spec(),
    {
        let mut s: Vec<char> = Vec::new();
        let id = string_of(&u64_to_chars(self.id));
        push_pair(&mut s, "id", id.as_str());
        push_pair(&mut s, "name", self.name.as_str());
        let mut exit_code: Option<i32> = None;
        let status: &str = match self.status {
            PmProcessStatus::Running => "running",
            PmProcessStatus::Exited(code) => {
                exit_code = Some(code);
                "exited"
            },
            PmProcessStatus::Finished(code) => {
                exit_code = Some(code);
                "exited"
            },
            _ => "stopped",
        };
        assert(status_word(self.status) == (status@, exit_code));
        push_pair(&mut s, "status", status);
        let ghost base = s@;
        let e = match exit_code {
            Some(code) => Some(string_of(&i64_to_chars(code as i64))),
            None => None,
        };
        push_opt_pair(&mut s, "exit_code", match &e { Some(x) => Some(x.as_str()), None => None });
        let p = match self.pid {
            Some(pid) => Some(string_of(&u64_to_chars(pid as u64))),
            None => None,
        };
        push_opt_pair(&mut s, "pid", match &p { Some(x) => Some(x.as_str()), None => None });
        let u = match self.uptime {
            Some(v) => Some(string_of(&u64_to_chars(v))),
            None => None,
        };
        push_opt_pair(&mut s, "uptime", match &u { Some(x) => Some(x.as_str()), None => None });
        push_opt_pair(&mut s, "cpu", match &self.cpu_text { Some(x) => Some(x.as_str()), None => None });
        let m = match self.memory_usage {
            Some(v) => Some(string_of(&u64_to_chars(v))),
            None => None,
        };
        push_opt_pair(&mut s, "mem", match &m { Some(x) => Some(x.as_str()), None => None });
        push_opt_pair(&mut s, "user", match &self.user { Some(x) => Some(x.as_str()), None => None });
        assert(s@ =~= self.qs_line_spec());
        string_of(&s)
    }
}


// ---------------------------------------------------------------------------
// A managed process.
// ---------------------------------------------------------------------------

/// The child of a running process, as far as the decisions need it: its
/// pid, which the operating system may no longer report.
pub struct ChildInfo {
    pub pid: Option<u32>,
}

/// What the system reports of a live process. `cpu_text` is the CPU usage
/// written with five decimals.
pub struct ProcStats {
    pub run_time: u64,
    pub cpu_text: String,
    pub memory: u64,
    pub user: Option<String>,
}

/// A managed process: its number, name, configuration, status and the
/// child it runs (the daemon keeps the operating system's handle beside it).
pub struct PmProcess {
    pub idx: u64,
    pub proc_name: String,
    pub config: PmProcessConfig,
    pub status: PmProcessStatus,
    pub child: Option<ChildInfo>,
}

pub fn copy_string(s: &String) -> (r: String)
    ensures
        r@ == s@,
{
    string_of(&chars_of(s.as_str()))
}

impl PmProcess {
    /// A process from its configuration: `NotStarted` when the configuration
    /// is active, `Disabled` otherwise; no child yet.
    pub fn new(cfg: PmProcessConfig, idx: u64) -> (r: PmProcess)
        ensures
            r.idx == idx,
            r.proc_name@ == cfg.proc_name@,
            r.config@ == cfg@,
            r.status == (if cfg.active {
                PmProcessStatus::NotStarted
            } else {
                PmProcessStatus::Disabled
            }),
            r.child is None,
    {
        let starting_status = if cfg.active {
            PmProcessStatus::NotStarted
        } else {
            PmProcessStatus::Disabled
        };
        let proc_name = copy_string(&cfg.proc_name);
        PmProcess { idx, proc_name, config: cfg, status: starting_status, child: None }
    }

    pub fn is_active(&self) -> (r: bool)
        ensures
            r == self.status.spec_is_active(),
    {
        self.status.is_active()
    }

    pub fn set_status(&mut self, status: PmProcessStatus)
        ensures
            final(self).status == status,
            final(self).idx == old(self).idx,
            final(self).proc_name@ == old(self).proc_name@,
            final(self).config == old(self).config,
            final(self).child == old(self).child,
    {
        self.status = status;
    }

    /// Starting failed.
    pub fn not_initialized(&mut self)
        ensures
            final(self).status == PmProcessStatus::InitializingFailed,
            final(self).idx == old(self).idx,
            final(self).proc_name@ == old(self).proc_name@,
            final(self).config == old(self).config,
            final(self).child == old(self).child,
    {
        self.status = PmProcessStatus::InitializingFailed;
    }

    /// The executable to start was not found: the status becomes
    /// `InitializingFailed` and the error names the executable.
    pub fn awake_not_found(&mut self) -> (r: String)
        ensures
            final(self).status == PmProcessStatus::InitializingFailed,
            final(self).idx == old(self).idx,
            final(self).proc_name@ == old(self).proc_name@,
            final(self).config == old(self).config,
            final(self).child == old(self).child,
            r@ == "Executable not found: "@ + old(self).config.exec_name@,
    {
        self.status = PmProcessStatus::InitializingFailed;
        let mut m = chars_of("Executable not found: ");
        append_chars(&mut m, &chars_of(self.config.exec_name.as_str()));
        string_of(&m)
    }

    /// The child was spawned: it is held and the process is `Running`.
    pub fn awake_spawned(&mut self, pid: Option<u32>)
        ensures
            final(self).status == PmProcessStatus::Running,
            final(self).child == Some(ChildInfo { pid }),
            final(self).idx == old(self).idx,
            final(self).proc_name@ == old(self).proc_name@,
            final(self).config == old(self).config,
    {
        self.child = Some(ChildInfo { pid });
        self.status = PmProcessStatus::Running;
    }

    /// Taking the child to stop it; without a child, the error that `stop`
    /// reports.
    pub fn take_child(&mut self) -> (r: Result<ChildInfo, String>)
        ensures
            final(self).child is None,
            final(self).status == old(self).status,
            final(self).idx == old(self).idx,
            final(self).proc_name@ == old(self).proc_name@,
            final(self).config == old(self).config,
            old(self).child matches Some(c) ==> r == Ok::<ChildInfo, String>(c),
            old(self).child is None ==> (r matches Err(m) && m@ == "Error stopping program: "@
                + old(self).proc_name@ + seq!['('] + dec(old(self).idx as nat) + seq![')']),
    {
        match self.child.take() {
            Some(c) => Ok(c),
            None => {
                let mut m = chars_of("Error stopping program: ");
                append_chars(&mut m, &chars_of(self.proc_name.as_str()));
                m.push('(');
                append_chars(&mut m, &u64_to_chars(self.idx));
                m.push(')');
                Err(string_of(&m))
            },
        }
    }

    /// Killing the child failed: it is held again.
    pub fn restore_child(&mut self, c: ChildInfo)
        ensures
            final(self).child == Some(c),
            final(self).status == old(self).status,
            final(self).idx == old(self).idx,
            final(self).proc_name@ == old(self).proc_name@,
            final(self).config == old(self).config,
    {
        self.child = Some(c);
    }

    /// The child was killed.
    pub fn stopped(&mut self)
        ensures
            final(self).status == PmProcessStatus::Stopped,
            final(self).child == old(self).child,
            final(self).idx == old(self).idx,
            final(self).proc_name@ == old(self).proc_name@,
            final(self).config == old(self).config,
    {
        self.status = PmProcessStatus::Stopped;
    }

    /// The child exited with the given code: it is released, and the status
    /// records the code.
    pub fn exited(&mut self, code: Option<i32>)
        ensures
            final(self).child is None,
            final(self).status == status_after_exit_spec(code),
            final(self).idx == old(self).idx,
            final(self).proc_name@ == old(self).proc_name@,
            final(self).config == old(self).config,
    {
        self.child = None;
        self.status = status_after_exit(code);
    }

    /// The snapshot that `list` reports: without a child, `Stopped` with
    /// nothing measured; with a child whose pid is gone, the default status
    /// (`NotStarted`) with nothing measured; with a pid that the system no
    /// longer lists, the status and pid; otherwise the full measurements.
    pub fn status_info(&self, stats: Option<ProcStats>) -> (r: PmProcessStatusInfo)
        ensures
            r.id == self.idx,
            r.name@ == self.proc_name@,
            self.child is None ==> r.status == PmProcessStatus::Stopped && r.pid is None
                && r.uptime is None && r.cpu_text is None && r.memory_usage is None
                && r.user is None,
            self.child matches Some(c) ==> (c.pid is None ==> r.status
                == PmProcessStatus::NotStarted && r.pid is None && r.uptime is None
                && r.cpu_text is None && r.memory_usage is None && r.user is None),
            self.child matches Some(c) ==> (c.pid is Some ==> r.status == self.status && r.pid
                == c.pid),
            self.child matches Some(c) ==> (c.pid is Some ==> match stats {
                None => r.uptime is None && r.cpu_text is None && r.memory_usage is None
                    && r.user is None,
                Some(st) => r.uptime == Some(st.run_time) && opt_str(r.cpu_text) == Some(
                    st.cpu_text@,
                ) && r.memory_usage == Some(st.memory) && opt_str(r.user) == opt_str(st.user),
            }),
    {
        let name = copy_string(&self.proc_name);
        match &self.child {
            None => PmProcessStatusInfo {
                id: self.idx,
                name,
                status: PmProcessStatus::Stopped,
                pid: None,
                uptime: None,
                cpu_text: None,
                memory_usage: None,
                user: None,
            },
            Some(c) => match c.pid {
                None => PmProcessStatusInfo {
                    id: self.idx,
                    name,
                    status: PmProcessStatus::default_status(),
                    pid: None,
                    uptime: None,
                    cpu_text: None,
                    memory_usage: None,
                    user: None,
                },
                Some(pid) => match stats {
                    None => PmProcessStatusInfo {
                        id: self.idx,
                        name,
                        status: self.status.copy(),
                        pid: Some(pid),
                        uptime: None,
                        cpu_text: None,
                        memory_usage: None,
                        user: None,
                    },
                    Some(st) => PmProcessStatusInfo {
                        id: self.idx,
                        name,
                        status: self.status.copy(),
                        pid: Some(pid),
                        uptime: Some(st.run_time),
                        cpu_text: Some(st.cpu_text),
                        memory_usage: Some(st.memory),
                        user: st.user,
                    },
                },
            },
        }
    }
}

} // verus!
