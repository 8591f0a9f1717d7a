//! Process metrics: the rows that the daemon stores, how they are batched,
//! and how the metrics API reads its queries and writes its answers.
use vstd::prelude::*;
use crate::text::{
    append_chars, chars_eq, chars_of, chars_views, dec, dec_int, i64_to_chars, parse_i64,
    parse_signed_spec, parse_u64, parse_unsigned_spec, split_char, split_on_char, split_once,
    split_once_exec, string_of, u64_to_chars,
};

verus! {

broadcast use vstd::seq_lib::group_seq_properties;

/// The metrics service: rows, batches, and the metrics API.
pub struct MetricsService;

/// One stored measurement: the process number, the time in Unix seconds,
/// the CPU usage in tenths of a percent, and the memory in KiB.
#[derive(Debug, PartialEq, Eq, Structural)]
pub struct MetricsRow {
    pub external_id: u64,
    pub ts: i64,
    pub cpu_x10: u16,
    pub mem_kib: u32,
}

/// Rows are sent to the database in batches of at most this many.
pub const MAX_BATCH: usize = 256;

/// Rows older than this many seconds are removed.
pub const RETENTION_SECS: i64 = 86400;

/// Memory in KiB, rounded to the nearest KiB and capped at `u32::MAX`.
pub open spec fn mem_kib_spec(bytes: u64) -> u32 {
    let k = (bytes + 512) / 1024;
    if k > u32::MAX {
        u32::MAX
    } else {
        k as u32
    }
}

/// The time elapsed since the Unix epoch (`UNIX_EPOCH.elapsed()`), none
/// when the clock is before the epoch. Nothing is stated of the value.
#[verifier::external_body]
fn time_since_epoch() -> (r: Option<core::time::Duration>) {
    std::time::UNIX_EPOCH.elapsed().ok()
}

/// `Duration::as_secs`, the whole seconds of a duration; nothing is stated
/// of it.
pub assume_specification[ core::time::Duration::as_secs ](d: &core::time::Duration) -> u64;

/// Unix seconds from the whole seconds elapsed since the epoch (none when
/// the clock is before it): the seconds as an `i64`, or 0.
pub fn unix_secs_of(elapsed: Option<u64>) -> (r: i64)
    ensures
        r == match elapsed {
            Some(s) => s as i64,
            None => 0i64,
        },
{
    match elapsed {
        Some(s) => s as i64,
        None => 0,
    }
}

/// The current time in Unix seconds, 0 when the clock is before the epoch.
pub fn now_unix_secs() -> (r: i64) {
    let elapsed = match time_since_epoch() {
        Some(d) => Some(d.as_secs()),
        None => None,
    };
    unix_secs_of(elapsed)
}

impl MetricsService {
    /// The memory of a measurement in KiB, rounded to the nearest KiB and
    /// capped at `u32::MAX`.
    pub fn mem_kib(bytes: u64) -> (r: u32)
        requires
            bytes <= u64::MAX - 512,
        ensures
            r == mem_kib_spec(bytes),
    {
        let kib = (bytes + 512) / 1024;
        if kib > u32::MAX as u64 {
            u32::MAX
        } else {
            kib as u32
        }
    }

    /// The time before which rows are removed.
    pub fn cleanup_cutoff(now: i64) -> (r: i64)
        requires
            now >= i64::MIN + RETENTION_SECS,
        ensures
            r == now - RETENTION_SECS,
    {
        now - RETENTION_SECS
    }
}

/// The rows waiting to be stored.
pub struct MetricsBatch {
    pub rows: Vec<MetricsRow>,
}

impl MetricsBatch {
    pub fn new() -> (r: MetricsBatch)
        ensures
            r.rows@.len() == 0,
    {
        MetricsBatch { rows: Vec::new() }
    }

    /// Adds a row; the result tells whether the batch is full and must be
    /// sent now.
    pub fn push(&mut self, row: MetricsRow) -> (full: bool)
        ensures
            final(self).rows@ == old(self).rows@.push(row),
            full == (final(self).rows@.len() >= MAX_BATCH),
    {
        self.rows.push(row);
        self.rows.len() >= MAX_BATCH
    }

    /// Hands over the waiting rows and starts an empty batch.
    pub fn take(&mut self) -> (r: Vec<MetricsRow>)
        ensures
            r@ == old(self).rows@,
            final(self).rows@.len() == 0,
    {
        let mut out: Vec<MetricsRow> = Vec::new();
        std::mem::swap(&mut out, &mut self.rows);
        out
    }
}

// ---------------------------------------------------------------------------
// The metrics API.
// ---------------------------------------------------------------------------

/// Reading one `key=value` pair of a log subscription query.
pub open spec fn logs_query_step(acc: (Seq<Seq<char>>, u64), pair: Seq<char>) -> (Seq<Seq<char>>, u64) {
    match split_once(pair, '=') {
        None => acc,
        Some(kv) => if kv.0 == seq!['p'] {
            if parse_unsigned_spec(kv.1, u64::MAX as nat) is Some {
                (acc.0.push(kv.1), acc.1)
            } else {
                acc
            }
        } else if kv.0 == "lines"@ {
            match parse_unsigned_spec(kv.1, u64::MAX as nat) {
                Some(n) => (acc.0, n as u64),
                None => acc,
            }
        } else {
            acc
        },
    }
}

#[verifier::opaque]
pub open spec fn logs_query_from(acc: (Seq<Seq<char>>, u64), ps: Seq<Seq<char>>) -> (Seq<Seq<char>>, u64)
    decreases ps.len(),
{
    if ps.len() == 0 {
        acc
    } else {
        logs_query_from(logs_query_step(acc, ps[0]), ps.drop_first())
    }
}

/// The programs (`p=<number>`, others ignored) and the number of lines
/// (`lines=<n>`, 15 by default) of a log subscription query.
pub open spec fn logs_query_spec(q: Seq<char>) -> (Seq<Seq<char>>, u64) {
    if q.len() == 0 {
        (seq![], 15)
    } else {
        logs_query_from((seq![], 15), split_char(q, '&'))
    }
}

pub open spec fn sv(v: Seq<String>) -> Seq<Seq<char>> {
    v.map_values(|s: String| s@)
}

/// The `since=<t>` of a metrics query: the first valid one; but a pair
/// without `=` before it ends the search with nothing.
#[verifier::opaque]
pub open spec fn since_from(ps: Seq<Seq<char>>) -> Option<i64>
    decreases ps.len(),
{
    if ps.len() == 0 {
        None
    } else {
        match split_once(ps[0], '=') {
            None => None,
            Some(kv) => if kv.0 == "since"@ && parse_signed_spec(kv.1, 0x8000_0000_0000_0000, i64::MAX as nat) is Some {
                Some(parse_signed_spec(kv.1, 0x8000_0000_0000_0000, i64::MAX as nat)->Some_0 as i64)
            } else {
                since_from(ps.drop_first())
            },
        }
    }
}

impl MetricsService {
    /// Reads a log subscription query.
    pub fn parse_programs_and_line_from_query(query: &str) -> (r: Option<(Vec<String>, u64)>)
        ensures
            r matches Some(p) && (sv(p.0@), p.1) == logs_query_spec(query@),
    {
        let mut programs: Vec<String> = Vec::new();
        let mut lines: u64 = 15;
        let q = chars_of(query);
        if q.len() == 0 {
            assert(sv(programs@) =~= Seq::<Seq<char>>::empty());
            return Some((programs, lines));
        }
        let pieces = split_on_char(&q, '&');
        let mut i: usize = 0;
        proof {
            reveal_strlit("lines");
            assert(chars_views(pieces@).skip(0) =~= chars_views(pieces@));
            assert(sv(programs@) =~= Seq::<Seq<char>>::empty());
        }
        while i < pieces.len()
            invariant
                i <= pieces@.len(),
                q@ == query@,
                q@.len() > 0,
                chars_views(pieces@) == split_char(q@, '&'),
                logs_query_from((seq![], 15), split_char(q@, '&')) == logs_query_from((sv(programs@), lines), chars_views(pieces@).skip(i as int)),
            decreases pieces.len() - i,
        {
            let ghost rest = chars_views(pieces@).skip(i as int);
            proof {
                reveal(logs_query_from);
                assert(rest.drop_first() =~= chars_views(pieces@).skip(i + 1));
                assert(rest[0] == pieces@[i as int]@);
            }
            let ghost acc = (sv(programs@), lines);
            match split_once_exec(&pieces[i], '=') {
                None => {},
                Some((k, v)) => {
                    assert(split_once(rest[0], '=') == Some((k@, v@)));
                    let is_p = k.len() == 1 && k[0] == 'p';
                    proof {
                        if k@ == seq!['p'] {
                            assert(k@[0] == 'p');
                        }
                        if is_p {
                            assert(k@ =~= seq!['p']);
                        }
                    }
                    if is_p {
                        if parse_u64(&v).is_some() {
                            let s = string_of(&v);
                            programs.push(s);
                            assert(sv(programs@) =~= sv(programs@.drop_last()).push(s@));
                        }
                    } else if chars_eq(&k, &chars_of("lines")) {
                        match parse_u64(&v) {
                            Some(n) => {
                                lines = n;
                            },
                            None => {},
                        }
                    }
                    assert((sv(programs@), lines) == logs_query_step(acc, rest[0]));
                },
            }
            i = i + 1;
        }
        proof {
            reveal(logs_query_from);
        }
        Some((programs, lines))
    }

    /// Reads the `since` of a metrics query.
    pub fn parse_since_from_query(query: &str) -> (r: Option<i64>)
        ensures
            r == since_from(split_char(query@, '&')),
    {
        let pieces = split_on_char(&chars_of(query), '&');
        let mut i: usize = 0;
        proof {
            assert(chars_views(pieces@).skip(0) =~= chars_views(pieces@));
        }
        while i < pieces.len()
            invariant
                i <= pieces@.len(),
                chars_views(pieces@) == split_char(query@, '&'),
                since_from(split_char(query@, '&')) == since_from(chars_views(pieces@).skip(i as int)),
            decreases pieces.len() - i,
        {
            let ghost rest = chars_views(pieces@).skip(i as int);
            proof {
                reveal(since_from);
                assert(rest.drop_first() =~= chars_views(pieces@).skip(i + 1));
                assert(rest[0] == pieces@[i as int]@);
            }
            match split_once_exec(&pieces[i], '=') {
                None => {
                    return None;
                },
                Some((k, v)) => {
                    if chars_eq(&k, &chars_of("since")) {
                        match parse_i64(&v) {
                            Some(t) => {
                                return Some(t);
                            },
                            None => {},
                        }
                    }
                },
            }
            i = i + 1;
        }
        proof {
            reveal(since_from);
        }
        None
    }
}

/// `<id>: <name>` and a newline, for each process.
pub open spec fn list_body_spec(rows: Seq<(i64, Seq<char>)>) -> Seq<char>
    decreases rows.len(),
{
    if rows.len() == 0 {
        seq![]
    } else {
        list_body_spec(rows.drop_last()) + dec_int(rows.last().0 as int) + ": "@ + rows.last().1 + seq!['\n']
    }
}

/// The answer of the process list of the metrics API.
pub fn list_body(rows: &Vec<(i64, String)>) -> (r: String)
    ensures
        r@ == list_body_spec(rows@.map_values(|p: (i64, String)| (p.0, p.1@))),
{
    let mut out: Vec<char> = Vec::new();
    let mut i: usize = 0;
    let ghost rv = rows@.map_values(|p: (i64, String)| (p.0, p.1@));
    assert(rv.take(0) =~= Seq::<(i64, Seq<char>)>::empty());
    while i < rows.len()
        invariant
            i <= rows@.len(),
            rv == rows@.map_values(|p: (i64, String)| (p.0, p.1@)),
            out@ == list_body_spec(rv.take(i as int)),
        decreases rows.len() - i,
    {
        append_chars(&mut out, &i64_to_chars(rows[i].0));
        append_chars(&mut out, &chars_of(": "));
        append_chars(&mut out, &chars_of(rows[i].1.as_str()));
        out.push('\n');
        assert(rv.take(i + 1).drop_last() =~= rv.take(i as int));
        i = i + 1;
    }
    assert(rv.take(rows@.len() as int) =~= rv);
    string_of(&out)
}

/// Division by ten as Rust does it on signed integers (toward zero).
pub open spec fn div10_trunc(x: i64) -> int {
    if x >= 0 {
        (x / 10) as int
    } else {
        -(((-(x as int)) / 10) as int)
    }
}

/// `<ts>: <cpu>, <mem>` and a newline for each row, the CPU in whole
/// percent.
pub open spec fn metrics_body_spec(rows: Seq<(i64, i64, i64)>) -> Seq<char>
    decreases rows.len(),
{
    if rows.len() == 0 {
        seq![]
    } else {
        let r = rows.last();
        metrics_body_spec(rows.drop_last()) + dec_int(r.0 as int) + ": "@ + dec_int(div10_trunc(r.1)) + ", "@ + dec_int(r.2 as int) + seq!['\n']
    }
}

/// The answer of the metrics of one process, from its rows
/// `(ts, cpu_x10, mem_kib)`.
pub fn metrics_body(rows: &Vec<(i64, i64, i64)>) -> (r: String)
    ensures
        r@ == metrics_body_spec(rows@),
{
    let mut out: Vec<char> = Vec::new();
    let mut i: usize = 0;
    assert(rows@.take(0) =~= Seq::<(i64, i64, i64)>::empty());
    while i < rows.len()
        invariant
            i <= rows@.len(),
            out@ == metrics_body_spec(rows@.take(i as int)),
        decreases rows.len() - i,
    {
        let (ts, c, m) = rows[i];
        let cpu: i64 = if c >= 0 {
            c / 10
        } else {
            (0i128 - ((0i128 - c as i128) / 10)) as i64
        };
        append_chars(&mut out, &i64_to_chars(ts));
        append_chars(&mut out, &chars_of(": "));
        append_chars(&mut out, &i64_to_chars(cpu));
        append_chars(&mut out, &chars_of(", "));
        append_chars(&mut out, &i64_to_chars(m));
        out.push('\n');
        assert(rows@.take(i + 1).drop_last() =~= rows@.take(i as int));
        i = i + 1;
    }
    assert(rows@.take(rows@.len() as int) =~= rows@);
    string_of(&out)
}

// ---------------------------------------------------------------------------
// The compressed metrics stream.
// ---------------------------------------------------------------------------

/// The header of the metrics stream: `PM3M`, version 1, record size 14.
pub open spec fn stream_header_spec() -> Seq<u8> {
    seq![80u8, 77, 51, 77, 1, 14]
}

pub fn stream_header() -> (r: Vec<u8>)
    ensures
        r@ == stream_header_spec(),
{
    let r = vec![80u8, 77, 51, 77, 1, 14];
    assert(r@ =~= stream_header_spec());
    r
}

/// The `k` low bytes of `v`, least significant first.
pub open spec fn le_bytes(v: nat, k: nat) -> Seq<u8>
    decreases k,
{
    if k == 0 {
        seq![]
    } else {
        seq![(v % 256) as u8] + le_bytes(v / 256, (k - 1) as nat)
    }
}

/// A metrics record: the time (8 bytes), the CPU in tenths (2 bytes) and
/// the memory in KiB (4 bytes), all little-endian.
pub open spec fn record_spec(ts: u64, cpu_x10: u16, mem_kib: u32) -> Seq<u8> {
    le_bytes(ts as nat, 8) + le_bytes(cpu_x10 as nat, 2) + le_bytes(mem_kib as nat, 4)
}

fn put_le(out: &mut [u8; 14], at: usize, v: u64, k: usize)
    requires
        at + k <= 14,
    ensures
        final(out)@ == old(out)@.subrange(0, at as int) + le_bytes(v as nat, k as nat) + old(out)@.subrange(at + k, 14),
    decreases k,
{
    if k > 0 {
        out[at] = (v % 256) as u8;
        let ghost mid = out@;
        put_le(out, at + 1, v / 256, k - 1);
        assert(out@ =~= old(out)@.subrange(0, at as int) + le_bytes(v as nat, k as nat) + old(out)@.subrange(at + k, 14));
    } else {
        assert(out@ =~= old(out)@.subrange(0, at as int) + le_bytes(v as nat, k as nat) + old(out)@.subrange(at + k, 14));
    }
}

impl MetricsService {
    /// Writes a record into `out`.
    pub fn encode_metric_record(ts: u64, cpu_x10: u16, mem_kib: u32, out: &mut [u8; 14])
        ensures
            final(out)@ == record_spec(ts, cpu_x10, mem_kib),
    {
        put_le(out, 0, ts, 8);
        put_le(out, 8, cpu_x10 as u64, 2);
        put_le(out, 10, mem_kib as u64, 4);
        assert(out@ =~= record_spec(ts, cpu_x10, mem_kib));
    }

    /// The record of a stored row `(ts, cpu_x10, mem_kib)`: each value is
    /// clamped to the range of its field.
    pub fn record_of_row(ts: i64, cpu_x10: i64, mem_kib: i64) -> (r: (u64, u16, u32))
        ensures
            r.0 == (if ts < 0 { 0 } else { ts as u64 }),
            r.1 == (if cpu_x10 < 0 { 0 } else if cpu_x10 > u16::MAX { u16::MAX } else { cpu_x10 as u16 }),
            r.2 == (if mem_kib < 0 { 0 } else if mem_kib > u32::MAX { u32::MAX } else { mem_kib as u32 }),
    {
        let t = if ts < 0 { 0 } else { ts as u64 };
        let c = if cpu_x10 < 0 { 0 } else if cpu_x10 > u16::MAX as i64 { u16::MAX } else { cpu_x10 as u16 };
        let m = if mem_kib < 0 { 0 } else if mem_kib > u32::MAX as i64 { u32::MAX } else { mem_kib as u32 };
        (t, c, m)
    }
}

/// The record of a stored row, its values clamped to their fields.
pub open spec fn row_record(r: (i64, i64, i64)) -> Seq<u8> {
    record_spec(
        if r.0 < 0 {
            0
        } else {
            r.0 as u64
        },
        if r.1 < 0 {
            0
        } else if r.1 > u16::MAX {
            u16::MAX
        } else {
            r.1 as u16
        },
        if r.2 < 0 {
            0
        } else if r.2 > u32::MAX {
            u32::MAX
        } else {
            r.2 as u32
        },
    )
}

/// The records of the rows, one after the other.
pub open spec fn records_spec(rows: Seq<(i64, i64, i64)>) -> Seq<u8>
    decreases rows.len(),
{
    if rows.len() == 0 {
        seq![]
    } else {
        records_spec(rows.drop_last()) + row_record(rows.last())
    }
}

/// The uncompressed metrics stream: the header, then one record per row.
pub open spec fn payload_spec(rows: Seq<(i64, i64, i64)>) -> Seq<u8> {
    stream_header_spec() + records_spec(rows)
}

/// The uncompressed metrics stream of some rows `(ts, cpu_x10, mem_kib)`.
pub fn metrics_payload(rows: &Vec<(i64, i64, i64)>) -> (r: Vec<u8>)
    ensures
        r@ == payload_spec(rows@),
{
    let mut out = stream_header();
    let mut rec = [0u8; 14];
    let mut i: usize = 0;
    assert(rows@.take(0) =~= Seq::<(i64, i64, i64)>::empty());
    while i < rows.len()
        invariant
            i <= rows@.len(),
            out@ == stream_header_spec() + records_spec(rows@.take(i as int)),
        decreases rows.len() - i,
    {
        let (ts, c, m) = rows[i];
        let (t, cc, mm) = MetricsService::record_of_row(ts, c, m);
        MetricsService::encode_metric_record(t, cc, mm, &mut rec);
        let mut k: usize = 0;
        let ghost before = out@;
        while k < 14
            invariant
                k <= 14,
                rec@.len() == 14,
                out@ == before + rec@.take(k as int),
            decreases 14 - k,
        {
            out.push(rec[k]);
            assert(rec@.take(k + 1) =~= rec@.take(k as int).push(rec@[k as int]));
            k = k + 1;
        }
        assert(rec@.take(14) =~= rec@);
        assert(rows@.take(i + 1).drop_last() =~= rows@.take(i as int));
        assert(rows@.take(i + 1).last() == rows@[i as int]);
        i = i + 1;
    }
    assert(rows@.take(rows@.len() as int) =~= rows@);
    out
}

/// The zstd frame that `zstd::stream::encode_all` makes of some bytes at a
/// compression level.
pub uninterp spec fn zstd_frame(data: Seq<u8>, level: i32) -> Seq<u8>;

/// `zstd::stream::encode_all(data, level)`, which compresses the bytes as
/// an `Encoder` does, from a slice into a fresh `Vec`. The contract claims
/// that a result it gives is the frame of the bytes at that level, and that
/// at level 3 it gives one (reading a slice and writing a `Vec` do not fail;
/// only running out of memory would). Its error (an I/O error) is handed
/// back as text.
#[verifier::external_body]
fn zstd_encode_all(data: &[u8], level: i32) -> (r: Result<Vec<u8>, String>)
    ensures
        r matches Ok(v) ==> v@ == zstd_frame(data@, level),
        level == 3 ==> r is Ok,
{
    zstd::stream::encode_all(data, level).map_err(|e| format!("zstd error: {}", e))
}

impl MetricsService {
    /// The compressed metrics stream of some rows: the header and records,
    /// compressed with zstd at level 3. The chunks that go out are cut by
    /// `ChunkedBytesWriter`.
    pub fn compressed_metrics(rows: &Vec<(i64, i64, i64)>) -> (r: Result<Vec<u8>, String>)
        ensures
            r is Ok,
            r matches Ok(v) ==> v@ == zstd_frame(payload_spec(rows@), 3),
    {
        let payload = metrics_payload(rows);
        zstd_encode_all(payload.as_slice(), 3)
    }
}

/// The bytes of a chunk handed back, none for no chunk.
pub open spec fn chunk_bytes(c: Option<Vec<u8>>) -> Seq<u8> {
    match c {
        Some(v) => v@,
        None => seq![],
    }
}

/// Collects the compressed stream into chunks before it is sent.
pub struct ChunkedBytesWriter {
    pub buf: Vec<u8>,
    pub chunk_size: usize,
}

impl ChunkedBytesWriter {
    pub fn new(chunk_size: usize) -> (r: ChunkedBytesWriter)
        ensures
            r.buf@.len() == 0,
            r.chunk_size == chunk_size,
    {
        ChunkedBytesWriter { buf: Vec::new(), chunk_size }
    }

    /// Adds bytes; when the buffer reaches the chunk size, the whole buffer
    /// is handed back to be sent and the buffer starts empty.
    pub fn write(&mut self, src: &[u8]) -> (r: Option<Vec<u8>>)
        ensures
            final(self).chunk_size == old(self).chunk_size,
            old(self).buf@.len() + src@.len() >= old(self).chunk_size ==> final(self).buf@.len() == 0,
            old(self).buf@.len() + src@.len() >= old(self).chunk_size && old(self).buf@.len() + src@.len() > 0 ==> (r matches Some(c) && c@ == old(self).buf@ + src@),
            old(self).buf@.len() + src@.len() == 0 ==> r is None,
            old(self).buf@.len() + src@.len() < old(self).chunk_size ==> (r is None && final(self).buf@ == old(self).buf@ + src@),
            chunk_bytes(r) + final(self).buf@ == old(self).buf@ + src@,
    {
        let mut k: usize = 0;
        while k < src.len()
            invariant
                k <= src@.len(),
                self.buf@ == old(self).buf@ + src@.take(k as int),
                self.chunk_size == old(self).chunk_size,
            decreases src.len() - k,
        {
            self.buf.push(src[k]);
            assert(src@.take(k + 1) =~= src@.take(k as int).push(src@[k as int]));
            k = k + 1;
        }
        assert(src@.take(src@.len() as int) =~= src@);
        if self.buf.len() >= self.chunk_size {
            self.flush_chunk()
        } else {
            None
        }
    }

    /// Hands back whatever is buffered, if anything.
    pub fn flush_chunk(&mut self) -> (r: Option<Vec<u8>>)
        ensures
            final(self).chunk_size == old(self).chunk_size,
            final(self).buf@.len() == 0,
            old(self).buf@.len() == 0 ==> r is None,
            old(self).buf@.len() > 0 ==> (r matches Some(c) && c@ == old(self).buf@),
            chunk_bytes(r) + final(self).buf@ == old(self).buf@,
    {
        if self.buf.len() == 0 {
            return None;
        }
        let mut out: Vec<u8> = Vec::new();
        std::mem::swap(&mut out, &mut self.buf);
        Some(out)
    }
}

} // verus!
