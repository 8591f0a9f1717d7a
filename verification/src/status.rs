//! The client's reading of the daemon's `list` reply: one status line per
//! process, `key=value` pairs separated by `&`.
use vstd::prelude::*;
use vstd::utf8::*;
use crate::text::{
    bytes_views, chars_of, chars_views, lines_exec, lines_spec, string_of, find_byte, first_index_of_byte, parse_i32, parse_signed_spec,
    split_byte, split_on_byte, string_from_utf8, string_from_utf8_lossy, sub_vec, utf8_lossy, lossy_text,
};

verus! {

broadcast use vstd::seq_lib::group_seq_properties;

/// The status of a process as the client shows it.
#[derive(Debug, PartialEq, Eq, Structural)]
pub enum ProcessStatus {
    Running,
    Stopped,
    Exited,
}

/// A process as the client reads it from a status line. `cpu_raw` holds
/// the text of the CPU reading, which the client reads as a float.
pub struct PmProcessStatusInfo {
    pub id: u64,
    pub name: String,
    pub status: ProcessStatus,
    pub pid: Option<u32>,
    pub uptime: Option<u64>,
    pub cpu_raw: Option<Vec<u8>>,
    pub mem: Option<u64>,
    pub user: Option<String>,
    pub exit_code: Option<i32>,
}

/// `memchr::memchr`: the index of the first occurrence of a byte. The
/// contract states exactly that.
#[verifier::external_body]
fn memchr_byte(needle: u8, hay: &[u8]) -> (r: Option<usize>)
    ensures
        r matches Some(i) ==> i < hay@.len() && hay@[i as int] == needle && forall|j: int|
            0 <= j < i ==> hay@[j] != needle,
        r is None ==> forall|j: int| 0 <= j < hay@.len() ==> hay@[j] != needle,
{
    memchr::memchr(needle, hay)
}

// ---------------------------------------------------------------------------
// Numbers.
// ---------------------------------------------------------------------------

pub open spec fn is_digit_byte(b: u8) -> bool {
    48 <= b <= 57
}

/// Number of leading ASCII digits.
pub open spec fn digit_prefix_len(b: Seq<u8>) -> nat
    decreases b.len(),
{
    if b.len() > 0 && is_digit_byte(b[0]) {
        1 + digit_prefix_len(b.drop_first())
    } else {
        0
    }
}

/// The value of a string of digit bytes.
pub open spec fn bytes_val(b: Seq<u8>) -> nat
    decreases b.len(),
{
    if b.len() == 0 {
        0
    } else {
        bytes_val(b.drop_last()) * 10 + (b.last() - 48) as nat
    }
}

/// `atoi`: the value of the leading digits, modulo 2^64 (the arithmetic
/// wraps, as in a release build).
pub open spec fn atoi_spec(b: Seq<u8>) -> u64 {
    (bytes_val(b.take(digit_prefix_len(b) as int)) % 18446744073709551616) as u64
}

proof fn lemma_digit_prefix(b: Seq<u8>, i: int)
    requires
        0 <= i <= b.len(),
        forall|j: int| 0 <= j < i ==> is_digit_byte(b[j]),
        i == b.len() || !is_digit_byte(b[i]),
    ensures
        digit_prefix_len(b) == i,
    decreases i,
{
    if i > 0 {
        assert forall|j: int| 0 <= j < i - 1 implies is_digit_byte(b.drop_first()[j]) by {
            assert(b.drop_first()[j] == b[j + 1]);
        }
        if i < b.len() {
            assert(b.drop_first()[i - 1] == b[i]);
        }
        lemma_digit_prefix(b.drop_first(), i - 1);
    }
}

/// `atoi`: the leading digits as a number.
pub fn atoi(bytes: &[u8]) -> (r: u64)
    ensures
        r == atoi_spec(bytes@),
{
    let mut n: u64 = 0;
    let mut i: usize = 0;
    assert(bytes@.take(0) =~= Seq::<u8>::empty());
    while i < bytes.len() && 48 <= bytes[i] && bytes[i] <= 57
        invariant
            i <= bytes@.len(),
            forall|j: int| 0 <= j < i ==> is_digit_byte(bytes@[j]),
            n as nat == bytes_val(bytes@.take(i as int)) % 18446744073709551616,
        decreases bytes.len() - i,
    {
        let d = bytes[i] - 48;
        proof {
            let pre = bytes@.take(i + 1);
            assert(pre.drop_last() =~= bytes@.take(i as int));
            let v = bytes_val(bytes@.take(i as int));
            vstd::arithmetic::div_mod::lemma_mul_mod_noop_left(v as int, 10, 18446744073709551616);
            vstd::arithmetic::div_mod::lemma_add_mod_noop((v * 10) as int, d as int, 18446744073709551616);
            vstd::arithmetic::div_mod::lemma_add_mod_noop(((v % 18446744073709551616) * 10) as int, d as int, 18446744073709551616);
            vstd::arithmetic::div_mod::lemma_small_mod(d as nat, 18446744073709551616);
        }
        let next: u128 = (n as u128) * 10 + d as u128;
        n = (next % 18446744073709551616u128) as u64;
        i = i + 1;
    }
    proof {
        lemma_digit_prefix(bytes@, i as int);
    }
    n
}

// ---------------------------------------------------------------------------
// Status lines.
// ---------------------------------------------------------------------------

/// What has been read of a status line so far.
pub struct Fields {
    pub id: u64,
    pub name: Option<Seq<char>>,
    pub status: ProcessStatus,
    pub pid: Option<u32>,
    pub uptime: Option<u64>,
    pub cpu: Option<Seq<u8>>,
    pub mem: Option<u64>,
    pub user: Option<Seq<char>>,
    pub exit_code: Option<i32>,
    /// The monitor's reading gives up on an exit code that is not UTF-8.
    pub failed: bool,
}

pub open spec fn fields_init() -> Fields {
    Fields {
        id: 0,
        name: None,
        status: ProcessStatus::Stopped,
        pid: None,
        uptime: None,
        cpu: None,
        mem: None,
        user: None,
        exit_code: None,
        failed: false,
    }
}

pub open spec fn key_is(k: Seq<u8>, lit: &str) -> bool {
    k == encode_utf8(lit@)
}

/// Reading one `key=value` field. The client's table (`monitor == false`)
/// reads `exit_code` as leading digits cast to `i32`; the monitor reads it
/// as an `i32` and gives up the whole line when it is not UTF-8.
pub open spec fn field_step(acc: Fields, field: Seq<u8>, monitor: bool) -> Fields {
    match first_index_of_byte(field, 61) {
        None => acc,
        Some(eq) => {
            let k = field.take(eq);
            let v = field.skip(eq + 1);
            if key_is(k, "id") {
                Fields { id: atoi_spec(v), ..acc }
            } else if key_is(k, "name") {
                Fields { name: Some(lossy_text(v)), ..acc }
            } else if key_is(k, "status") {
                Fields {
                    status: if key_is(v, "running") {
                        ProcessStatus::Running
                    } else if key_is(v, "exited") {
                        ProcessStatus::Exited
                    } else {
                        ProcessStatus::Stopped
                    },
                    ..acc
                }
            } else if key_is(k, "pid") {
                Fields { pid: Some(atoi_spec(v) as u32), ..acc }
            } else if key_is(k, "uptime") {
                Fields { uptime: Some(atoi_spec(v)), ..acc }
            } else if key_is(k, "cpu") {
                Fields { cpu: Some(v), ..acc }
            } else if key_is(k, "mem") {
                Fields { mem: Some(atoi_spec(v)), ..acc }
            } else if key_is(k, "user") {
                Fields { user: Some(lossy_text(v)), ..acc }
            } else if key_is(k, "exit_code") {
                if !monitor {
                    Fields { exit_code: Some(atoi_spec(v) as i32), ..acc }
                } else if !valid_utf8(v) {
                    Fields { failed: true, ..acc }
                } else {
                    Fields {
                        exit_code: match parse_signed_spec(decode_utf8(v), 0x8000_0000, i32::MAX as nat) {
                            Some(c) => Some(c as i32),
                            None => None,
                        },
                        ..acc
                    }
                }
            } else {
                acc
            }
        },
    }
}

#[verifier::opaque]
pub open spec fn fields_from(acc: Fields, fs: Seq<Seq<u8>>, monitor: bool) -> Fields
    decreases fs.len(),
{
    if fs.len() == 0 || acc.failed {
        acc
    } else {
        fields_from(field_step(acc, fs[0], monitor), fs.drop_first(), monitor)
    }
}

/// What a status line reads as: nothing without a name (or when the
/// monitor gave up), else the fields read.
pub open spec fn parse_process_spec(line: Seq<u8>, monitor: bool) -> Option<Fields> {
    let f = fields_from(fields_init(), split_byte(line, 38), monitor);
    if f.failed || f.name is None {
        None
    } else {
        Some(f)
    }
}

impl PmProcessStatusInfo {
    pub open spec fn fields(&self) -> Fields {
        Fields {
            id: self.id,
            name: Some(self.name@),
            status: self.status,
            pid: self.pid,
            uptime: self.uptime,
            cpu: match self.cpu_raw {
                Some(c) => Some(c@),
                None => None,
            },
            mem: self.mem,
            user: match self.user {
                Some(u) => Some(u@),
                None => None,
            },
            exit_code: self.exit_code,
            failed: false,
        }
    }
}

fn bytes_eq(a: &[u8], b: &[u8]) -> (r: bool)
    ensures
        r == (a@ == b@),
{
    if a.len() != b.len() {
        return false;
    }
    let mut i: usize = 0;
    while i < a.len()
        invariant
            i <= a@.len() == b@.len(),
            forall|j: int| 0 <= j < i ==> a@[j] == b@[j],
        decreases a.len() - i,
    {
        if a[i] != b[i] {
            return false;
        }
        i = i + 1;
    }
    assert(a@ =~= b@);
    true
}

fn is_key(k: &[u8], lit: &str) -> (r: bool)
    ensures
        r == key_is(k@, lit),
{
    bytes_eq(k, lit.as_bytes())
}

/// Reads one status line.
pub fn parse_process(line: &[u8], monitor: bool) -> (r: Option<PmProcessStatusInfo>)
    ensures
        match parse_process_spec(line@, monitor) {
            None => r is None,
            Some(f) => r matches Some(p) && p.fields() == f,
        },
{
    let fields = split_on_byte(line, 38);
    let mut id: u64 = 0;
    let mut name: Option<String> = None;
    let mut status = ProcessStatus::Stopped;
    let mut pid: Option<u32> = None;
    let mut uptime: Option<u64> = None;
    let mut cpu: Option<Vec<u8>> = None;
    let mut mem: Option<u64> = None;
    let mut user: Option<String> = None;
    let mut exit_code: Option<i32> = None;
    let mut i: usize = 0;
    let ghost cur = |id: u64, name: Option<String>, status: ProcessStatus, pid: Option<u32>, uptime: Option<u64>, cpu: Option<Vec<u8>>, mem: Option<u64>, user: Option<String>, exit_code: Option<i32>| Fields {
        id,
        name: match name { Some(n) => Some(n@), None => None },
        status,
        pid,
        uptime,
        cpu: match cpu { Some(c) => Some(c@), None => None },
        mem,
        user: match user { Some(u) => Some(u@), None => None },
        exit_code,
        failed: false,
    };
    proof {
        assert(bytes_views(fields@).skip(0) =~= bytes_views(fields@));
        assert(cur(id, name, status, pid, uptime, cpu, mem, user, exit_code) == fields_init());
    }
    while i < fields.len()
        invariant
            i <= fields@.len(),
            bytes_views(fields@) == split_byte(line@, 38),
            fields_from(fields_init(), split_byte(line@, 38), monitor) == fields_from(cur(id, name, status, pid, uptime, cpu, mem, user, exit_code), bytes_views(fields@).skip(i as int), monitor),
            cur == (|id: u64, name: Option<String>, status: ProcessStatus, pid: Option<u32>, uptime: Option<u64>, cpu: Option<Vec<u8>>, mem: Option<u64>, user: Option<String>, exit_code: Option<i32>| Fields {
                id,
                name: match name { Some(n) => Some(n@), None => None },
                status,
                pid,
                uptime,
                cpu: match cpu { Some(c) => Some(c@), None => None },
                mem,
                user: match user { Some(u) => Some(u@), None => None },
                exit_code,
                failed: false,
            }),
        decreases fields.len() - i,
    {
        let ghost acc = cur(id, name, status, pid, uptime, cpu, mem, user, exit_code);
        let ghost rest = bytes_views(fields@).skip(i as int);
        proof {
            reveal(fields_from);
            assert(rest.drop_first() =~= bytes_views(fields@).skip(i + 1));
            assert(rest[0] == fields@[i as int]@);
        }
        let field = &fields[i];
        match memchr_byte(61, field) {
            None => {
                assert(first_index_of_byte(field@, 61) is None);
            },
            Some(eq) => {
                proof {
                    let c = choose|c: int| 0 <= c < field@.len() && field@[c] == 61u8 && forall|j: int| 0 <= j < c ==> field@[j] != 61u8;
                    assert(0 <= eq < field@.len() && field@[eq as int] == 61u8 && forall|j: int| 0 <= j < eq ==> field@[j] != 61u8);
                    if c < eq {} else if c > eq {}
                    assert(first_index_of_byte(field@, 61) == Some(eq as int));
                }
                let k = sub_vec(field, 0, eq);
                let n = field.len();
                let v = sub_vec(field, eq + 1, n);
                assert(k@ =~= field@.take(eq as int));
                assert(v@ =~= field@.skip(eq + 1));
                if is_key(&k, "id") {
                    id = atoi(&v);
                } else if is_key(&k, "name") {
                    name = Some(string_from_utf8_lossy(&v));
                } else if is_key(&k, "status") {
                    status = if is_key(&v, "running") {
                        ProcessStatus::Running
                    } else if is_key(&v, "exited") {
                        ProcessStatus::Exited
                    } else {
                        ProcessStatus::Stopped
                    };
                } else if is_key(&k, "pid") {
                    pid = Some(atoi(&v) as u32);
                } else if is_key(&k, "uptime") {
                    uptime = Some(atoi(&v));
                } else if is_key(&k, "cpu") {
                    cpu = Some(v);
                } else if is_key(&k, "mem") {
                    mem = Some(atoi(&v));
                } else if is_key(&k, "user") {
                    user = Some(string_from_utf8_lossy(&v));
                } else if is_key(&k, "exit_code") {
                    if !monitor {
                        exit_code = Some(atoi(&v) as i32);
                    } else {
                        match string_from_utf8(v) {
                            Err(_) => {
                                proof {
                                    reveal(fields_from);
                                    let f2 = field_step(acc, rest[0], monitor);
                                    assert(f2.failed);
                                    assert(fields_from(f2, rest.drop_first(), monitor) == f2);
                                }
                                return None;
                            },
                            Ok(s) => {
                                exit_code = match parse_i32(&chars_of(s.as_str())) {
                                    Some(c) => Some(c),
                                    None => None,
                                };
                            },
                        }
                    }
                }
            },
        }
        assert(cur(id, name, status, pid, uptime, cpu, mem, user, exit_code) == field_step(acc, rest[0], monitor));
        i = i + 1;
    }
    proof {
        reveal(fields_from);
    }
    match name {
        None => None,
        Some(n) => Some(PmProcessStatusInfo { id, name: n, status, pid, uptime, cpu_raw: cpu, mem, user, exit_code }),
    }
}


/// The processes that status lines read as, in order; lines that read as
/// nothing are left out.
pub open spec fn parsed_lines(ls: Seq<Seq<char>>, monitor: bool) -> Seq<Fields>
    decreases ls.len(),
{
    if ls.len() == 0 {
        seq![]
    } else {
        let p = parsed_lines(ls.drop_last(), monitor);
        match parse_process_spec(encode_utf8(ls.last()), monitor) {
            Some(f) => p.push(f),
            None => p,
        }
    }
}

/// The lines of a `list` reply after its first (`OK <count>`) line.
pub open spec fn status_lines(reply: Seq<char>) -> Seq<Seq<char>> {
    let ls = lines_spec(reply);
    if ls.len() == 0 {
        ls
    } else {
        ls.drop_first()
    }
}

pub open spec fn infos_fields(v: Seq<PmProcessStatusInfo>) -> Seq<Fields> {
    v.map_values(|p: PmProcessStatusInfo| p.fields())
}

/// Reads a `list` reply: every line after the first that reads as a
/// process, in order.
pub fn parse_status_reply(reply: &str, monitor: bool) -> (r: Vec<PmProcessStatusInfo>)
    ensures
        infos_fields(r@) == parsed_lines(status_lines(reply@), monitor),
{
    let ls = lines_exec(&chars_of(reply));
    let ghost body = status_lines(reply@);
    let mut out: Vec<PmProcessStatusInfo> = Vec::new();
    if ls.len() == 0 {
        return out;
    }
    let mut i: usize = 1;
    proof {
        assert(body.take(0) =~= Seq::<Seq<char>>::empty());
    }
    while i < ls.len()
        invariant
            1 <= i <= ls@.len(),
            chars_views(ls@) == lines_spec(reply@),
            body == chars_views(ls@).drop_first(),
            infos_fields(out@) == parsed_lines(body.take(i - 1), monitor),
        decreases ls.len() - i,
    {
        let line = string_of(&ls[i]);
        let ghost pre = body.take(i as int);
        proof {
            assert(pre.drop_last() =~= body.take(i - 1));
            assert(pre.last() == ls@[i as int]@);
        }
        match parse_process(line.as_str().as_bytes(), monitor) {
            Some(p) => {
                out.push(p);
                assert(infos_fields(out@) =~= infos_fields(out@.drop_last()).push(out@.last().fields()));
            },
            None => {},
        }
        i = i + 1;
    }
    assert(body.take(ls@.len() - 1) =~= body);
    out
}

} // verus!
