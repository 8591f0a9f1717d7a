//! The status line of a `list` reply, from both ends: what the daemon writes
//! for a process is what the client reads back.
use vstd::prelude::*;
use vstd::utf8::*;
use crate::config_validator::ascii_bytes;
use crate::process::{
    enc_byte, is_unreserved, lemma_pct_enc_snoc, opt_dec, opt_pair, opt_str, pct_enc, pct_enc_str,
    qs_pair, status_word, PmProcessStatus,
};
use crate::status::{
    atoi_spec, bytes_val, digit_prefix_len, field_step, fields_from, fields_init, is_digit_byte,
    key_is, parse_process_spec, parsed_lines, status_lines, Fields, ProcessStatus,
};
use crate::text::{
    all_digits, dec, dec_int, digits_val, first_index_of_byte, is_digit, is_ws, join_sep, lacks,
    lemma_dec_digits, lemma_join_sep_cons, lemma_join_sep_snoc, lemma_parse_dec,
    lemma_split_byte_step, lemma_split_char_none, lemma_split_join, lemma_trim_id, lossy_text,
    parse_signed_spec, split_byte, split_char, strip_cr, trim, trim_end, trim_start,
};

verus! {

broadcast use vstd::seq_lib::group_seq_properties;

/// A character that percent-encoding writes as itself: an ASCII letter or
/// digit, or one of `-._~`.
pub open spec fn safe_char(c: char) -> bool {
    '\0' <= c <= '\u{7f}' && is_unreserved(c as u8)
}

/// Text that percent-encoding leaves as it is.
pub open spec fn url_safe(s: Seq<char>) -> bool {
    forall|i: int| 0 <= i < s.len() ==> safe_char(#[trigger] s[i])
}

/// A character of a status line: a safe character, `&` or `=`.
pub open spec fn line_char(c: char) -> bool {
    safe_char(c) || c == '&' || c == '='
}

/// Text made of status-line characters.
pub open spec fn line_text(l: Seq<char>) -> bool {
    forall|i: int| 0 <= i < l.len() ==> line_char(#[trigger] l[i])
}

/// Status-line text is ASCII.
proof fn lemma_line_text_ascii(l: Seq<char>)
    requires
        line_text(l),
    ensures
        is_ascii_chars(l),
{
    assert forall|i: int| 0 <= i < l.len() implies '\0' <= #[trigger] l[i] <= '\u{7f}' by {
        assert(line_char(l[i]));
    }
}

/// Whether the byte does not occur.
pub open spec fn lacks_byte(s: Seq<u8>, c: u8) -> bool {
    forall|k: int| 0 <= k < s.len() ==> s[k] != c
}

proof fn lemma_safe_bytes(s: Seq<char>)
    requires
        url_safe(s),
    ensures
        is_ascii_chars(s),
        encode_utf8(s) == ascii_bytes(s),
        forall|i: int| 0 <= i < s.len() ==> is_unreserved(#[trigger] ascii_bytes(s)[i]),
        valid_utf8(ascii_bytes(s)),
        decode_utf8(ascii_bytes(s)) == s,
        lossy_text(ascii_bytes(s)) == s,
{
    assert forall|i: int| 0 <= i < s.len() implies '\0' <= #[trigger] s[i] <= '\u{7f}' by {
        assert(safe_char(s[i]));
    }
    is_ascii_chars_encode_utf8(s);
    assert(encode_utf8(s) =~= ascii_bytes(s));
    assert forall|i: int| 0 <= i < s.len() implies is_unreserved(#[trigger] ascii_bytes(s)[i]) by {
        assert(safe_char(s[i]));
    }
    encode_utf8_valid_utf8(s);
    encode_utf8_decode_utf8(s);
}

/// Percent-encoding leaves safe text as it is.
pub proof fn lemma_pct_safe(s: Seq<char>)
    requires
        url_safe(s),
    ensures
        pct_enc(ascii_bytes(s)) == s,
        pct_enc_str(s) == s,
    decreases s.len(),
{
    let b = ascii_bytes(s);
    lemma_pct_enc_snoc(b);
    lemma_safe_bytes(s);
    if s.len() > 0 {
        let t = s.drop_last();
        assert forall|i: int| 0 <= i < t.len() implies safe_char(#[trigger] t[i]) by {
            assert(t[i] == s[i]);
        }
        lemma_pct_safe(t);
        assert(b.drop_last() =~= ascii_bytes(t));
        let c = s.last();
        assert(safe_char(c));
        assert(b.last() == c as u8);
        assert(enc_byte(b.last()) =~= seq![c]);
        assert(s =~= t + seq![c]);
    } else {
        assert(s =~= Seq::<char>::empty());
    }
}

/// Decimal numbers are safe text.
proof fn lemma_dec_safe(n: nat)
    ensures
        url_safe(dec(n)),
{
    lemma_dec_digits(n);
    let d = dec(n);
    assert forall|i: int| 0 <= i < d.len() implies safe_char(#[trigger] d[i]) by {
        assert(is_digit(d[i]));
    }
}

proof fn lemma_dec_int_safe(c: int)
    ensures
        url_safe(dec_int(c)),
{
    if c < 0 {
        lemma_dec_safe((-c) as nat);
        let d = dec((-c) as nat);
        let s = seq!['-'] + d;
        assert forall|i: int| 0 <= i < s.len() implies safe_char(#[trigger] s[i]) by {
            if i > 0 {
                assert(s[i] == d[i - 1]);
            }
        }
    } else {
        lemma_dec_safe(c as nat);
    }
}

/// The keys and words of a status line: each is safe text, and they are
/// told apart.
proof fn lemma_words()
    ensures
        url_safe("id"@),
        url_safe("name"@),
        url_safe("status"@),
        url_safe("exit_code"@),
        url_safe("pid"@),
        url_safe("uptime"@),
        url_safe("cpu"@),
        url_safe("mem"@),
        url_safe("user"@),
        url_safe("running"@),
        url_safe("exited"@),
        url_safe("stopped"@),
        "name"@ != "id"@,
        "status"@ != "id"@ && "status"@ != "name"@,
        "exit_code"@ != "id"@ && "exit_code"@ != "name"@ && "exit_code"@ != "status"@
            && "exit_code"@ != "pid"@ && "exit_code"@ != "uptime"@ && "exit_code"@ != "cpu"@
            && "exit_code"@ != "mem"@ && "exit_code"@ != "user"@,
        "pid"@ != "id"@ && "pid"@ != "name"@ && "pid"@ != "status"@,
        "uptime"@ != "id"@ && "uptime"@ != "name"@ && "uptime"@ != "status"@ && "uptime"@
            != "pid"@,
        "cpu"@ != "id"@ && "cpu"@ != "name"@ && "cpu"@ != "status"@ && "cpu"@ != "pid"@ && "cpu"@
            != "uptime"@,
        "mem"@ != "id"@ && "mem"@ != "name"@ && "mem"@ != "status"@ && "mem"@ != "pid"@ && "mem"@
            != "uptime"@ && "mem"@ != "cpu"@,
        "user"@ != "id"@ && "user"@ != "name"@ && "user"@ != "status"@ && "user"@ != "pid"@
            && "user"@ != "uptime"@ && "user"@ != "cpu"@ && "user"@ != "mem"@,
        "exited"@ != "running"@,
        "stopped"@ != "running"@ && "stopped"@ != "exited"@,
{
    reveal_strlit("id");
    reveal_strlit("name");
    reveal_strlit("status");
    reveal_strlit("exit_code");
    reveal_strlit("pid");
    reveal_strlit("uptime");
    reveal_strlit("cpu");
    reveal_strlit("mem");
    reveal_strlit("user");
    reveal_strlit("running");
    reveal_strlit("exited");
    reveal_strlit("stopped");
    assert("name"@[0] != "user"@[0]);
    assert("status"@[0] != "uptime"@[0]);
    assert("pid"@[0] != "cpu"@[0]);
    assert("pid"@[0] != "mem"@[0]);
    assert("cpu"@[0] != "mem"@[0]);
    assert("stopped"@[0] != "running"@[0]);
    assert("stopped"@[0] != "exited"@[0]);
    assert("exited"@[0] != "running"@[0]);
}

/// The bytes of a decimal number's digits have the number's value.
proof fn lemma_bytes_val_digits(s: Seq<char>)
    requires
        all_digits(s),
    ensures
        bytes_val(ascii_bytes(s)) == digits_val(s),
        forall|j: int| 0 <= j < s.len() ==> is_digit_byte(#[trigger] ascii_bytes(s)[j]),
    decreases s.len(),
{
    let b = ascii_bytes(s);
    assert forall|j: int| 0 <= j < s.len() implies is_digit_byte(#[trigger] b[j]) by {
        assert(is_digit(s[j]));
    }
    if s.len() > 0 {
        let t = s.drop_last();
        assert(all_digits(t)) by {
            assert forall|j: int| 0 <= j < t.len() implies is_digit(#[trigger] t[j]) by {
                assert(t[j] == s[j]);
            }
        }
        lemma_bytes_val_digits(t);
        assert(b.drop_last() =~= ascii_bytes(t));
        assert(is_digit(s.last()));
        assert(b.last() as nat == s.last() as nat);
    }
}

/// `atoi` reads the decimal text of a number that fits back as the number.
proof fn lemma_atoi_dec(n: nat)
    requires
        n < 18446744073709551616,
    ensures
        atoi_spec(ascii_bytes(dec(n))) == n,
{
    lemma_dec_digits(n);
    let b = ascii_bytes(dec(n));
    lemma_bytes_val_digits(dec(n));
    lemma_digit_prefix_all(b);
    assert(b.take(b.len() as int) =~= b);
    vstd::arithmetic::div_mod::lemma_small_mod(n, 18446744073709551616);
}

proof fn lemma_digit_prefix_all(b: Seq<u8>)
    requires
        forall|j: int| 0 <= j < b.len() ==> is_digit_byte(#[trigger] b[j]),
    ensures
        digit_prefix_len(b) == b.len(),
    decreases b.len(),
{
    if b.len() > 0 {
        assert forall|j: int| 0 <= j < b.drop_first().len() implies is_digit_byte(
            #[trigger] b.drop_first()[j],
        ) by {
            assert(b.drop_first()[j] == b[j + 1]);
        }
        lemma_digit_prefix_all(b.drop_first());
    }
}

/// The client's table reads a negative exit code as 0, a non-negative one
/// as itself.
proof fn lemma_atoi_dec_int(c: i32)
    ensures
        atoi_spec(ascii_bytes(dec_int(c as int))) as i32 == if c < 0 {
            0
        } else {
            c
        },
{
    if c < 0 {
        let b = ascii_bytes(dec_int(c as int));
        assert(b[0] == 45u8);
        assert(digit_prefix_len(b) == 0);
        assert(b.take(0) =~= Seq::<u8>::empty());
        assert(bytes_val(Seq::<u8>::empty()) == 0);
    } else {
        lemma_atoi_dec(c as nat);
    }
}

/// The monitor reads an exit code back as itself.
proof fn lemma_parse_dec_int(c: i32)
    ensures
        parse_signed_spec(dec_int(c as int), 0x8000_0000, i32::MAX as nat) == Some(c as int),
{
    if c < 0 {
        let s = dec_int(c as int);
        lemma_dec_digits((-c) as nat);
        assert(s.drop_first() =~= dec((-c) as nat));
    } else {
        lemma_dec_digits(c as nat);
        lemma_parse_dec(c as nat, i32::MAX as nat);
        assert(is_digit(dec(c as nat)[0]));
    }
}

/// A piece without the separator is split into itself.
proof fn lemma_split_byte_one(f: Seq<u8>, c: u8)
    requires
        lacks_byte(f, c),
    ensures
        split_byte(f, c) == seq![f],
{
    lemma_split_byte_step(f, c, 0, f.len() as int);
    assert(f.skip(0) =~= f);
    assert(f.subrange(0, f.len() as int) =~= f);
}

/// Adding the separator and a piece without it adds that piece.
proof fn lemma_split_byte_snoc(a: Seq<u8>, f: Seq<u8>, c: u8)
    requires
        lacks_byte(f, c),
    ensures
        split_byte(a + seq![c] + f, c) == split_byte(a, c).push(f),
    decreases a.len(),
{
    let s = a + seq![c] + f;
    assert(s.skip(0) =~= s);
    assert(a.skip(0) =~= a);
    if lacks_byte(a, c) {
        lemma_split_byte_step(s, c, 0, a.len() as int);
        assert(s.subrange(0, a.len() as int) =~= a);
        assert(s.skip(a.len() as int + 1) =~= f);
        lemma_split_byte_one(f, c);
        lemma_split_byte_one(a, c);
    } else {
        let j = choose|j: int| 0 <= j < a.len() && a[j] == c;
        let j0 = first_j(a, c, j);
        lemma_split_byte_step(a, c, 0, j0);
        lemma_split_byte_step(s, c, 0, j0);
        assert(s.subrange(0, j0) =~= a.subrange(0, j0));
        let rest = a.skip(j0 + 1);
        assert(s.skip(j0 + 1) =~= rest + seq![c] + f);
        lemma_split_byte_snoc(rest, f, c);
    }
}

/// The first occurrence of `c`, given one.
proof fn first_j(a: Seq<u8>, c: u8, j: int) -> (r: int)
    requires
        0 <= j < a.len(),
        a[j] == c,
    ensures
        0 <= r <= j,
        a[r] == c,
        forall|k: int| 0 <= k < r ==> a[k] != c,
    decreases j,
{
    if exists|k: int| 0 <= k < j && a[k] == c {
        let k = choose|k: int| 0 <= k < j && a[k] == c;
        first_j(a, c, k)
    } else {
        j
    }
}

/// Reading one more field after the others.
proof fn lemma_fields_snoc(acc: Fields, fs: Seq<Seq<u8>>, f: Seq<u8>, m: bool)
    ensures
        fields_from(acc, fs.push(f), m) == (if fields_from(acc, fs, m).failed {
            fields_from(acc, fs, m)
        } else {
            field_step(fields_from(acc, fs, m), f, m)
        }),
    decreases fs.len(),
{
    reveal(fields_from);
    if fs.len() == 0 {
        assert(fs.push(f).drop_first() =~= Seq::<Seq<u8>>::empty());
        assert(fs.push(f)[0] == f);
        assert(fields_from(acc, fs, m) == acc);
        let x = field_step(acc, f, m);
        assert(fields_from(x, Seq::<Seq<u8>>::empty(), m) == x);
    } else if !acc.failed {
        assert(fs.push(f).drop_first() =~= fs.drop_first().push(f));
        assert(fs.push(f)[0] == fs[0]);
        lemma_fields_snoc(field_step(acc, fs[0], m), fs.drop_first(), f, m);
    }
}

/// The bytes of a `key=value` field with safe key and value.
proof fn lemma_field_kv(k: Seq<char>, v: Seq<char>)
    requires
        url_safe(k),
        url_safe(v),
    ensures
        ({
            let f = ascii_bytes(k + seq!['='] + v);
            &&& first_index_of_byte(f, 61) == Some(k.len() as int)
            &&& f.take(k.len() as int) == ascii_bytes(k)
            &&& f.skip(k.len() as int + 1) == ascii_bytes(v)
            &&& lacks_byte(f, 38)
        }),
{
    let f = ascii_bytes(k + seq!['='] + v);
    lemma_safe_bytes(k);
    lemma_safe_bytes(v);
    assert(f =~= ascii_bytes(k) + seq![61u8] + ascii_bytes(v));
    assert forall|j: int| 0 <= j < k.len() implies f[j] != 61u8 by {
        assert(f[j] == ascii_bytes(k)[j]);
    }
    assert(f[k.len() as int] == 61u8);
    let i = choose|i: int| 0 <= i < f.len() && f[i] == 61u8 && forall|j: int| 0 <= j < i ==> f[j] != 61u8;
    assert(0 <= k.len() < f.len() && f[k.len() as int] == 61u8 && forall|j: int| 0 <= j < k.len() ==> f[j] != 61u8);
    assert(i == k.len()) by {
        if i < k.len() {
        } else if i > k.len() {
        }
    }
    assert(f.take(k.len() as int) =~= ascii_bytes(k));
    assert(f.skip(k.len() as int + 1) =~= ascii_bytes(v));
    assert forall|j: int| 0 <= j < f.len() implies f[j] != 38u8 by {
        if j < k.len() {
            assert(f[j] == ascii_bytes(k)[j]);
        } else if j > k.len() {
            assert(f[j] == ascii_bytes(v)[j - k.len() - 1]);
        }
    }
}

/// A key is read as the literal it equals.
proof fn lemma_key_is(k: Seq<char>, lit: &str)
    requires
        url_safe(k),
    ensures
        key_is(ascii_bytes(k), lit) <==> k == lit@,
{
    lemma_safe_bytes(k);
    encode_utf8_decode_utf8(k);
    encode_utf8_decode_utf8(lit@);
}

/// Reading a `key=value` field whose key is known as text.
pub open spec fn step_kv(acc: Fields, k: Seq<char>, v: Seq<u8>, monitor: bool) -> Fields {
    if k == "id"@ {
        Fields { id: atoi_spec(v), ..acc }
    } else if k == "name"@ {
        Fields { name: Some(lossy_text(v)), ..acc }
    } else if k == "status"@ {
        Fields {
            status: if key_is(v, "running") {
                ProcessStatus::Running
            } else if key_is(v, "exited") {
                ProcessStatus::Exited
            } else {
                ProcessStatus::Stopped
            },
            ..acc
        }
    } else if k == "pid"@ {
        Fields { pid: Some(atoi_spec(v) as u32), ..acc }
    } else if k == "uptime"@ {
        Fields { uptime: Some(atoi_spec(v)), ..acc }
    } else if k == "cpu"@ {
        Fields { cpu: Some(v), ..acc }
    } else if k == "mem"@ {
        Fields { mem: Some(atoi_spec(v)), ..acc }
    } else if k == "user"@ {
        Fields { user: Some(lossy_text(v)), ..acc }
    } else if k == "exit_code"@ {
        if !monitor {
            Fields { exit_code: Some(atoi_spec(v) as i32), ..acc }
        } else if !valid_utf8(v) {
            Fields { failed: true, ..acc }
        } else {
            Fields {
                exit_code: match parse_signed_spec(decode_utf8(v), 0x8000_0000, i32::MAX as nat) {
                    Some(c) => Some(c as i32),
                    None => None,
                },
                ..acc
            }
        }
    } else {
        acc
    }
}

proof fn lemma_step_kv(acc: Fields, k: Seq<char>, v: Seq<char>, m: bool)
    requires
        url_safe(k),
        url_safe(v),
    ensures
        field_step(acc, ascii_bytes(k + seq!['='] + v), m) == step_kv(acc, k, ascii_bytes(v), m),
{
    lemma_field_kv(k, v);
    lemma_key_is(k, "id");
    lemma_key_is(k, "name");
    lemma_key_is(k, "status");
    lemma_key_is(k, "pid");
    lemma_key_is(k, "uptime");
    lemma_key_is(k, "cpu");
    lemma_key_is(k, "mem");
    lemma_key_is(k, "user");
    lemma_key_is(k, "exit_code");
}

/// What reading the line so far gives.
pub open spec fn read_line(line: Seq<char>, monitor: bool) -> Fields {
    fields_from(fields_init(), split_byte(ascii_bytes(line), 38), monitor)
}

/// One more `&key=value` pair on a line is one more field read.
proof fn lemma_append_pair(p: Seq<char>, k: Seq<char>, v: Seq<char>, m: bool)
    requires
        url_safe(k),
        url_safe(v),
        line_text(p),
        !read_line(p, m).failed,
    ensures
        line_text(p + qs_pair(false, k, v)),
        read_line(p + qs_pair(false, k, v), m) == step_kv(read_line(p, m), k, ascii_bytes(v), m),
{
    lemma_pct_safe(k);
    lemma_pct_safe(v);
    lemma_safe_bytes(k);
    lemma_safe_bytes(v);
    let q = qs_pair(false, k, v);
    assert(q =~= seq!['&'] + k + seq!['='] + v);
    let fb = ascii_bytes(k + seq!['='] + v);
    assert(ascii_bytes(p + q) =~= ascii_bytes(p) + seq![38u8] + fb);
    lemma_field_kv(k, v);
    lemma_split_byte_snoc(ascii_bytes(p), fb, 38);
    lemma_fields_snoc(fields_init(), split_byte(ascii_bytes(p), 38), fb, m);
    lemma_step_kv(read_line(p, m), k, v, m);
    let l = p + q;
    assert forall|i: int| 0 <= i < l.len() implies line_char(#[trigger] l[i]) by {
        if i < p.len() {
            assert(l[i] == p[i]);
        } else if i > p.len() && i < p.len() + 1 + k.len() {
            assert(l[i] == k[i - p.len() - 1]);
            assert(safe_char(k[i - p.len() - 1]));
        } else if i > p.len() + 1 + k.len() {
            assert(l[i] == v[i - p.len() - 2 - k.len()]);
            assert(safe_char(v[i - p.len() - 2 - k.len()]));
        }
    }
}

/// An optional pair: nothing when the value is unknown.
proof fn lemma_append_opt(p: Seq<char>, k: Seq<char>, v: Option<Seq<char>>, m: bool)
    requires
        url_safe(k),
        v matches Some(x) ==> url_safe(x),
        line_text(p),
        !read_line(p, m).failed,
    ensures
        line_text(p + opt_pair(k, v)),
        read_line(p + opt_pair(k, v), m) == match v {
            Some(x) => step_kv(read_line(p, m), k, ascii_bytes(x), m),
            None => read_line(p, m),
        },
{
    match v {
        Some(x) => lemma_append_pair(p, k, x, m),
        None => {
            assert(p + opt_pair(k, v) =~= p);
        },
    }
}

/// The first pair of a line.
proof fn lemma_first_pair(k: Seq<char>, v: Seq<char>, m: bool)
    requires
        url_safe(k),
        url_safe(v),
    ensures
        line_text(qs_pair(true, k, v)),
        read_line(qs_pair(true, k, v), m) == step_kv(fields_init(), k, ascii_bytes(v), m),
{
    lemma_pct_safe(k);
    lemma_pct_safe(v);
    let q = qs_pair(true, k, v);
    assert(q =~= k + seq!['='] + v);
    let fb = ascii_bytes(q);
    lemma_field_kv(k, v);
    lemma_split_byte_one(fb, 38);
    lemma_fields_snoc(fields_init(), Seq::<Seq<u8>>::empty(), fb, m);
    assert(Seq::<Seq<u8>>::empty().push(fb) =~= seq![fb]);
    reveal(fields_from);
    assert(fields_from(fields_init(), Seq::<Seq<u8>>::empty(), m) == fields_init());
    lemma_step_kv(fields_init(), k, v, m);
    assert forall|i: int| 0 <= i < q.len() implies line_char(#[trigger] q[i]) by {
        if i < k.len() {
            assert(safe_char(k[i]));
        } else if i > k.len() {
            assert(q[i] == v[i - k.len() - 1]);
            assert(safe_char(v[i - k.len() - 1]));
        }
    }
}

/// The status the client shows for a process's status.
pub open spec fn client_status(s: PmProcessStatus) -> ProcessStatus {
    match s {
        PmProcessStatus::Running => ProcessStatus::Running,
        PmProcessStatus::Exited(_) => ProcessStatus::Exited,
        PmProcessStatus::Finished(_) => ProcessStatus::Exited,
        _ => ProcessStatus::Stopped,
    }
}

/// What the client reads of a process's status line: every field as the
/// daemon knew it; the client's table (`monitor == false`) reads a
/// negative exit code as 0.
pub open spec fn read_back(info: crate::process::PmProcessStatusInfo, monitor: bool) -> Fields {
    Fields {
        id: info.id,
        name: Some(info.name@),
        status: client_status(info.status),
        pid: info.pid,
        uptime: info.uptime,
        cpu: match info.cpu_text {
            Some(c) => Some(encode_utf8(c@)),
            None => None,
        },
        mem: info.memory_usage,
        user: opt_str(info.user),
        exit_code: match status_word(info.status).1 {
            Some(c) => Some(
                if monitor || c >= 0 {
                    c
                } else {
                    0
                },
            ),
            None => None,
        },
        failed: false,
    }
}

proof fn lemma_step_exit(acc: Fields, c: i32, m: bool)
    ensures
        step_kv(acc, "exit_code"@, ascii_bytes(dec_int(c as int)), m) == (Fields {
            exit_code: Some(
                if m || c >= 0 {
                    c
                } else {
                    0
                },
            ),
            ..acc
        }),
{
    lemma_words();
    lemma_dec_int_safe(c as int);
    lemma_safe_bytes(dec_int(c as int));
    lemma_atoi_dec_int(c);
    lemma_parse_dec_int(c);
}

proof fn lemma_step_pid(acc: Fields, p: u32, m: bool)
    ensures
        step_kv(acc, "pid"@, ascii_bytes(dec(p as nat)), m) == (Fields { pid: Some(p), ..acc }),
{
    lemma_words();
    lemma_atoi_dec(p as nat);
}

proof fn lemma_step_uptime(acc: Fields, u: u64, m: bool)
    ensures
        step_kv(acc, "uptime"@, ascii_bytes(dec(u as nat)), m) == (Fields { uptime: Some(u), ..acc }),
{
    lemma_words();
    lemma_atoi_dec(u as nat);
}

proof fn lemma_step_mem(acc: Fields, u: u64, m: bool)
    ensures
        step_kv(acc, "mem"@, ascii_bytes(dec(u as nat)), m) == (Fields { mem: Some(u), ..acc }),
{
    lemma_words();
    lemma_atoi_dec(u as nat);
}

proof fn lemma_step_cpu(acc: Fields, c: Seq<char>, m: bool)
    requires
        url_safe(c),
    ensures
        step_kv(acc, "cpu"@, ascii_bytes(c), m) == (Fields { cpu: Some(encode_utf8(c)), ..acc }),
{
    lemma_words();
    lemma_safe_bytes(c);
}

proof fn lemma_step_user(acc: Fields, u: Seq<char>, m: bool)
    requires
        url_safe(u),
    ensures
        step_kv(acc, "user"@, ascii_bytes(u), m) == (Fields { user: Some(u), ..acc }),
{
    lemma_words();
    lemma_safe_bytes(u);
}

/// The mandatory start of a status line: number, name and status.
pub open spec fn head_line(info: crate::process::PmProcessStatusInfo) -> Seq<char> {
    qs_pair(true, "id"@, dec(info.id as nat)) + qs_pair(false, "name"@, info.name@) + qs_pair(
        false,
        "status"@,
        status_word(info.status).0,
    )
}

proof fn lemma_head(info: crate::process::PmProcessStatusInfo, m: bool)
    requires
        url_safe(info.name@),
    ensures
        line_text(head_line(info)),
        read_line(head_line(info), m) == (Fields {
            id: info.id,
            name: Some(info.name@),
            status: client_status(info.status),
            ..fields_init()
        }),
{
    lemma_words();
    let word = status_word(info.status).0;
    assert(url_safe(word));
    lemma_dec_safe(info.id as nat);
    lemma_first_pair("id"@, dec(info.id as nat), m);
    lemma_atoi_dec(info.id as nat);
    let l0 = qs_pair(true, "id"@, dec(info.id as nat));
    let f0 = read_line(l0, m);
    assert(f0 == Fields { id: info.id, ..fields_init() });
    let l1 = l0 + qs_pair(false, "name"@, info.name@);
    lemma_append_pair(l0, "name"@, info.name@, m);
    lemma_safe_bytes(info.name@);
    let f1 = read_line(l1, m);
    assert(f1 == Fields { name: Some(info.name@), ..f0 });
    lemma_append_pair(l1, "status"@, word, m);
    lemma_key_is(word, "running");
    lemma_key_is(word, "exited");
}

/// The exit code's pair, when the status carries one.
pub open spec fn exit_value(s: PmProcessStatus) -> Option<Seq<char>> {
    match status_word(s).1 {
        Some(c) => Some(dec_int(c as int)),
        None => None,
    }
}

pub open spec fn pid_value(p: Option<u32>) -> Option<Seq<char>> {
    match p {
        Some(x) => Some(dec(x as nat)),
        None => None,
    }
}

/// The line up to the exit code, the pid, the uptime, the CPU text and the
/// memory.
pub open spec fn line_to_exit(info: crate::process::PmProcessStatusInfo) -> Seq<char> {
    head_line(info) + opt_pair("exit_code"@, exit_value(info.status))
}

pub open spec fn line_to_pid(info: crate::process::PmProcessStatusInfo) -> Seq<char> {
    line_to_exit(info) + opt_pair("pid"@, pid_value(info.pid))
}

pub open spec fn line_to_uptime(info: crate::process::PmProcessStatusInfo) -> Seq<char> {
    line_to_pid(info) + opt_pair("uptime"@, opt_dec(info.uptime))
}

pub open spec fn line_to_cpu(info: crate::process::PmProcessStatusInfo) -> Seq<char> {
    line_to_uptime(info) + opt_pair("cpu"@, opt_str(info.cpu_text))
}

pub open spec fn line_to_mem(info: crate::process::PmProcessStatusInfo) -> Seq<char> {
    line_to_cpu(info) + opt_pair("mem"@, opt_dec(info.memory_usage))
}

proof fn lemma_to_exit(info: crate::process::PmProcessStatusInfo, m: bool)
    requires
        url_safe(info.name@),
    ensures
        line_text(line_to_exit(info)),
        read_line(line_to_exit(info), m) == (if status_word(info.status).1 is Some {
            Fields { exit_code: read_back(info, m).exit_code, ..read_line(head_line(info), m) }
        } else {
            read_line(head_line(info), m)
        }),
{
    assert(url_safe("exit_code"@)) by {
        lemma_words();
    }
    lemma_head(info, m);
    let f = read_line(head_line(info), m);
    if let Some(c) = status_word(info.status).1 {
        lemma_dec_int_safe(c as int);
        lemma_step_exit(f, c, m);
    }
    lemma_append_opt(head_line(info), "exit_code"@, exit_value(info.status), m);
}

proof fn lemma_to_pid(info: crate::process::PmProcessStatusInfo, m: bool)
    requires
        line_text(line_to_exit(info)),
        !read_line(line_to_exit(info), m).failed,
    ensures
        line_text(line_to_pid(info)),
        read_line(line_to_pid(info), m) == (if info.pid is Some {
            Fields { pid: info.pid, ..read_line(line_to_exit(info), m) }
        } else {
            read_line(line_to_exit(info), m)
        }),
{
    assert(url_safe("pid"@)) by {
        lemma_words();
    }
    let f = read_line(line_to_exit(info), m);
    if let Some(p) = info.pid {
        lemma_dec_safe(p as nat);
        lemma_step_pid(f, p, m);
    }
    lemma_append_opt(line_to_exit(info), "pid"@, pid_value(info.pid), m);
}

proof fn lemma_to_uptime(info: crate::process::PmProcessStatusInfo, m: bool)
    requires
        line_text(line_to_pid(info)),
        !read_line(line_to_pid(info), m).failed,
    ensures
        line_text(line_to_uptime(info)),
        read_line(line_to_uptime(info), m) == (if info.uptime is Some {
            Fields { uptime: info.uptime, ..read_line(line_to_pid(info), m) }
        } else {
            read_line(line_to_pid(info), m)
        }),
{
    assert(url_safe("uptime"@)) by {
        lemma_words();
    }
    let f = read_line(line_to_pid(info), m);
    if let Some(u) = info.uptime {
        lemma_dec_safe(u as nat);
        lemma_step_uptime(f, u, m);
    }
    lemma_append_opt(line_to_pid(info), "uptime"@, opt_dec(info.uptime), m);
}

proof fn lemma_to_cpu(info: crate::process::PmProcessStatusInfo, m: bool)
    requires
        line_text(line_to_uptime(info)),
        !read_line(line_to_uptime(info), m).failed,
        info.cpu_text matches Some(c) ==> url_safe(c@),
    ensures
        line_text(line_to_cpu(info)),
        read_line(line_to_cpu(info), m) == (if info.cpu_text is Some {
            Fields { cpu: read_back(info, m).cpu, ..read_line(line_to_uptime(info), m) }
        } else {
            read_line(line_to_uptime(info), m)
        }),
{
    assert(url_safe("cpu"@)) by {
        lemma_words();
    }
    let f = read_line(line_to_uptime(info), m);
    if let Some(c) = info.cpu_text {
        lemma_step_cpu(f, c@, m);
    }
    lemma_append_opt(line_to_uptime(info), "cpu"@, opt_str(info.cpu_text), m);
}

proof fn lemma_to_mem(info: crate::process::PmProcessStatusInfo, m: bool)
    requires
        line_text(line_to_cpu(info)),
        !read_line(line_to_cpu(info), m).failed,
    ensures
        line_text(line_to_mem(info)),
        read_line(line_to_mem(info), m) == (if info.memory_usage is Some {
            Fields { mem: info.memory_usage, ..read_line(line_to_cpu(info), m) }
        } else {
            read_line(line_to_cpu(info), m)
        }),
{
    assert(url_safe("mem"@)) by {
        lemma_words();
    }
    let f = read_line(line_to_cpu(info), m);
    if let Some(u) = info.memory_usage {
        lemma_dec_safe(u as nat);
        lemma_step_mem(f, u, m);
    }
    lemma_append_opt(line_to_cpu(info), "mem"@, opt_dec(info.memory_usage), m);
}

proof fn lemma_to_user(info: crate::process::PmProcessStatusInfo, m: bool)
    requires
        line_text(line_to_mem(info)),
        !read_line(line_to_mem(info), m).failed,
        info.user matches Some(u) ==> url_safe(u@),
    ensures
        line_text(info.qs_line_spec()),
        read_line(info.qs_line_spec(), m) == (if info.user is Some {
            Fields { user: opt_str(info.user), ..read_line(line_to_mem(info), m) }
        } else {
            read_line(line_to_mem(info), m)
        }),
{
    assert(url_safe("user"@)) by {
        lemma_words();
    }
    let f = read_line(line_to_mem(info), m);
    if let Some(u) = info.user {
        lemma_step_user(f, u@, m);
    }
    lemma_append_opt(line_to_mem(info), "user"@, opt_str(info.user), m);
    assert(line_to_mem(info) + opt_pair("user"@, opt_str(info.user)) == info.qs_line_spec());
}

/// The client reads back the status line that the daemon writes for a
/// process: its number, name, status, pid, uptime, CPU text, memory, user
/// and exit code, as long as the name, the user and the CPU text are made
/// of characters that percent-encoding leaves as they are (the client does
/// not decode them).
pub proof fn lemma_status_line_read(info: crate::process::PmProcessStatusInfo, monitor: bool)
    requires
        url_safe(info.name@),
        info.cpu_text matches Some(c) ==> url_safe(c@),
        info.user matches Some(u) ==> url_safe(u@),
    ensures
        parse_process_spec(encode_utf8(info.qs_line_spec()), monitor) == Some(
            read_back(info, monitor),
        ),
{
    let m = monitor;
    lemma_head(info, m);
    lemma_to_exit(info, m);
    lemma_to_pid(info, m);
    lemma_to_uptime(info, m);
    lemma_to_cpu(info, m);
    lemma_to_mem(info, m);
    lemma_to_user(info, m);
    let l = info.qs_line_spec();
    lemma_line_text_ascii(l);
    is_ascii_chars_encode_utf8(l);
    assert(encode_utf8(l) =~= ascii_bytes(l));
    assert(read_line(l, m) == read_back(info, m));
}


/// A status line is non-empty status-line text.
proof fn lemma_line_shape(info: crate::process::PmProcessStatusInfo)
    requires
        url_safe(info.name@),
        info.cpu_text matches Some(c) ==> url_safe(c@),
        info.user matches Some(u) ==> url_safe(u@),
    ensures
        line_text(info.qs_line_spec()),
        info.qs_line_spec().len() > 0,
{
    let m = false;
    lemma_head(info, m);
    lemma_to_exit(info, m);
    lemma_to_pid(info, m);
    lemma_to_uptime(info, m);
    lemma_to_cpu(info, m);
    lemma_to_mem(info, m);
    lemma_to_user(info, m);
    assert(info.qs_line_spec().len() >= head_line(info).len());
    assert(qs_pair(true, "id"@, dec(info.id as nat)).len() > 0);
}

/// Whether a process's name, user and CPU text are safe text.
pub open spec fn listable(info: crate::process::PmProcessStatusInfo) -> bool {
    &&& url_safe(info.name@)
    &&& info.cpu_text matches Some(c) ==> url_safe(c@)
    &&& info.user matches Some(u) ==> url_safe(u@)
}

/// The status lines of some processes.
pub open spec fn listed_lines(infos: Seq<crate::process::PmProcessStatusInfo>) -> Seq<Seq<char>> {
    infos.map_values(|p: crate::process::PmProcessStatusInfo| p.qs_line_spec())
}

/// What the client reads of each process.
pub open spec fn read_backs(infos: Seq<crate::process::PmProcessStatusInfo>, monitor: bool) -> Seq<Fields> {
    infos.map_values(|p: crate::process::PmProcessStatusInfo| read_back(p, monitor))
}

proof fn lemma_parsed_all(infos: Seq<crate::process::PmProcessStatusInfo>, m: bool)
    requires
        forall|i: int| 0 <= i < infos.len() ==> listable(#[trigger] infos[i]),
    ensures
        parsed_lines(listed_lines(infos), m) == read_backs(infos, m),
    decreases infos.len(),
{
    if infos.len() > 0 {
        let d = infos.drop_last();
        assert forall|i: int| 0 <= i < d.len() implies listable(#[trigger] d[i]) by {
            assert(d[i] == infos[i]);
        }
        lemma_parsed_all(d, m);
        assert(listed_lines(infos).drop_last() =~= listed_lines(d));
        assert(listable(infos[infos.len() - 1]));
        lemma_status_line_read(infos.last(), m);
        assert(read_backs(infos, m) =~= read_backs(d, m).push(read_back(infos.last(), m)));
    } else {
        assert(listed_lines(infos) =~= Seq::<Seq<char>>::empty());
        assert(read_backs(infos, m) =~= Seq::<Fields>::empty());
    }
}


/// The reply that the daemon sends to `list` for some processes, before
/// it is encrypted: `OK `, the count, and one status line per process.
pub open spec fn list_reply_text(infos: Seq<crate::process::PmProcessStatusInfo>) -> Seq<char> {
    "OK "@ + crate::runner::list_reply_spec(listed_lines(infos)) + seq!['\n']
}

/// The last character of joined pieces is that of the last piece.
proof fn lemma_join_last(ws: Seq<Seq<char>>, sep: Seq<char>)
    requires
        ws.len() > 0,
        ws.last().len() > 0,
    ensures
        join_sep(ws, sep).len() > 0,
        join_sep(ws, sep).last() == ws.last().last(),
{
    lemma_join_sep_snoc(ws, sep);
}

/// What the reply looks like once trimmed: the first line, then (when there
/// are processes) a line break and the status lines joined by line breaks.
proof fn lemma_list_reply_trim(infos: Seq<crate::process::PmProcessStatusInfo>)
    requires
        forall|i: int| 0 <= i < infos.len() ==> listable(#[trigger] infos[i]),
    ensures
        ({
            let l = listed_lines(infos);
            let h = "OK "@ + dec(l.len());
            &&& trim(list_reply_text(infos)) == (if l.len() == 0 {
                h
            } else {
                h + seq!['\n'] + join_sep(l, seq!['\n'])
            })
            &&& lacks(h, '\n')
            &&& h.len() > 0 && h.last() != '\r'
            &&& forall|i: int| 0 <= i < l.len() ==> lacks(#[trigger] l[i], '\n') && l[i].len() > 0
                && l[i].last() != '\r'
        }),
{
    reveal_strlit("OK ");
    let l = listed_lines(infos);
    let k = l.len();
    lemma_dec_digits(k);
    let h = "OK "@ + dec(k);
    let t = list_reply_text(infos);
    assert forall|i: int| 0 <= i < l.len() implies lacks(#[trigger] l[i], '\n') && l[i].len() > 0
        && l[i].last() != '\r' by {
        assert(listable(infos[i]));
        lemma_line_shape(infos[i]);
        assert(l[i] == infos[i].qs_line_spec());
        reveal(lacks);
        assert(line_char(l[i].last()));
        assert forall|j: int| 0 <= j < l[i].len() implies l[i][j] != '\n' by {
            assert(line_char(l[i][j]));
        }
    }
    assert(lacks(h, '\n')) by {
        reveal(lacks);
        assert forall|j: int| 0 <= j < h.len() implies h[j] != '\n' by {
            if j >= 3 {
                assert(h[j] == dec(k)[j - 3]);
                assert(crate::text::is_digit(dec(k)[j - 3]));
            }
        }
    }
    assert(crate::text::is_digit(dec(k)[dec(k).len() - 1]));
    assert(h.last() == dec(k).last());
    let u = if k == 0 {
        h
    } else {
        h + seq!['\n'] + join_sep(l, seq!['\n'])
    };
    assert(t =~= u + seq!['\n'] + seq!['\n']);
    if k > 0 {
        lemma_join_last(l, seq!['\n']);
        assert(l[k - 1] == l.last());
        assert(u.last() == join_sep(l, seq!['\n']).last());
        assert(line_char(l.last().last())) by {
            assert(listable(infos[k - 1]));
            lemma_line_shape(infos[k - 1]);
            assert(l.last() == infos[k - 1].qs_line_spec());
        }
    }
    assert(!is_ws(u.last()));
    assert(u[0] == 'O');
    lemma_trim_id(u);
    assert(!is_ws(t[0]));
    assert(trim_start(t) == t);
    assert(t.drop_last() =~= u + seq!['\n']);
    assert((u + seq!['\n']).drop_last() =~= u);
    assert(trim_end(u + seq!['\n']) == trim_end(u));
    assert(trim_end(t) == trim_end(t.drop_last()));
}

/// The client's `status` reads back the processes that the daemon listed:
/// for each of them, in order, its number, name, status, pid, uptime, CPU
/// text, memory, user and exit code, as long as names, users and CPU texts
/// are safe text.
pub proof fn lemma_list_reply_read(infos: Seq<crate::process::PmProcessStatusInfo>, monitor: bool)
    requires
        forall|i: int| 0 <= i < infos.len() ==> listable(#[trigger] infos[i]),
    ensures
        parsed_lines(status_lines(trim(lossy_text(encode_utf8(list_reply_text(infos))))), monitor)
            == read_backs(infos, monitor),
{
    let t = list_reply_text(infos);
    encode_utf8_valid_utf8(t);
    encode_utf8_decode_utf8(t);
    assert(lossy_text(encode_utf8(t)) == t);
    lemma_list_reply_trim(infos);
    let l = listed_lines(infos);
    let h = "OK "@ + dec(l.len());
    let u = trim(t);
    let ps = seq![h] + l;
    assert forall|i: int| 0 <= i < ps.len() implies lacks(#[trigger] ps[i], '\n') by {
        if i > 0 {
            assert(ps[i] == l[i - 1]);
        }
    }
    if l.len() == 0 {
        lemma_split_char_none(h, '\n');
        assert(ps =~= seq![h]);
    } else {
        lemma_join_sep_cons(ps, seq!['\n']);
        assert(ps.drop_first() =~= l);
        lemma_split_join(ps, '\n');
    }
    assert(split_char(u, '\n') == ps);
    let n = ps.len();
    assert(ps.take(n - 1).map_values(|x: Seq<char>| strip_cr(x)) =~= ps.take(n - 1)) by {
        assert forall|i: int| 0 <= i < n - 1 implies strip_cr(#[trigger] ps[i]) == ps[i] by {
            if i > 0 {
                assert(ps[i] == l[i - 1]);
            }
        }
    }
    assert(ps[n - 1].len() > 0) by {
        if n > 1 {
            assert(ps[n - 1] == l[n - 2]);
        }
    }
    assert(ps.take(n - 1).push(ps[n - 1]) =~= ps);
    assert(crate::text::lines_spec(u) == ps);
    assert(status_lines(u) =~= l);
    lemma_parsed_all(infos, monitor);
}

} // verus!
