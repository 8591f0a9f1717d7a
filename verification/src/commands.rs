//! The daemon's command protocol: how an encrypted request line is read
//! into a command, and how replies are framed on the wire.
use vstd::prelude::*;
use vstd::utf8::*;
use crate::encryption::{decrypt_wire_line, decrypt_wire_spec, encrypt_reply_to_token, plaintext_fits, is_b64url_char, DecErr};
use crate::text::{
    append_chars, ascii_lower_exec, ascii_lower_str, chars_eq, chars_of, chars_views, parse_u64,
    parse_unsigned_spec, dec, lemma_parse_dec, split_ws, string_from_utf8_lossy, string_of, sub_vec, utf8_lossy, lossy_text, words,
};

verus! {

broadcast use vstd::seq_lib::group_seq_properties;

/// The associated data that binds every message to this protocol.
pub open spec fn aad_spec() -> Seq<u8> {
    seq![112u8, 109, 51, 58, 116, 99, 112, 58, 118, 49]
}

/// `b"pm3:tcp:v1"`.
pub fn aad() -> (r: Vec<u8>)
    ensures
        r@ == aad_spec(),
{
    let r = vec![112u8, 109, 51, 58, 116, 99, 112, 58, 118, 49];
    assert(r@ =~= aad_spec());
    r
}

/// A request to the daemon.
pub enum Request {
    Ping,
    /// `start` with its first argument, the query that describes the process.
    Start(Option<String>),
    Stop(Vec<String>),
    List,
    ListPrograms,
    Logs { lines: u64, programs: Vec<String> },
    Restart(Vec<String>),
    Delete(Vec<String>),
    Revive,
    Dump,
    Flush(Vec<String>),
    Unknown,
}

/// A request, as mathematical text.
pub enum RequestView {
    Ping,
    Start(Option<Seq<char>>),
    Stop(Seq<Seq<char>>),
    List,
    ListPrograms,
    Logs { lines: u64, programs: Seq<Seq<char>> },
    Restart(Seq<Seq<char>>),
    Delete(Seq<Seq<char>>),
    Revive,
    Dump,
    Flush(Seq<Seq<char>>),
    Unknown,
}

pub open spec fn sv(v: Seq<String>) -> Seq<Seq<char>> {
    v.map_values(|s: String| s@)
}

impl View for Request {
    type V = RequestView;

    open spec fn view(&self) -> RequestView {
        match self {
            Request::Ping => RequestView::Ping,
            Request::Start(a) => RequestView::Start(match a {
                Some(s) => Some(s@),
                None => None,
            }),
            Request::Stop(v) => RequestView::Stop(sv(v@)),
            Request::List => RequestView::List,
            Request::ListPrograms => RequestView::ListPrograms,
            Request::Logs { lines, programs } => RequestView::Logs {
                lines: *lines,
                programs: sv(programs@),
            },
            Request::Restart(v) => RequestView::Restart(sv(v@)),
            Request::Delete(v) => RequestView::Delete(sv(v@)),
            Request::Revive => RequestView::Revive,
            Request::Dump => RequestView::Dump,
            Request::Flush(v) => RequestView::Flush(sv(v@)),
            Request::Unknown => RequestView::Unknown,
        }
    }
}

/// The arguments of `logs`: `--lines=N` sets the number of lines (the last
/// valid one wins; 25 by default, and an invalid one is dropped); any other
/// argument names a program.
#[verifier::opaque]
pub open spec fn logs_args_spec(args: Seq<Seq<char>>) -> (u64, Seq<Seq<char>>)
    decreases args.len(),
{
    if args.len() == 0 {
        (25, seq![])
    } else {
        let (lines, progs) = logs_args_spec(args.drop_last());
        let a = args.last();
        if a.len() >= 8 && a.take(8) == "--lines="@ {
            match parse_unsigned_spec(a.skip(8), u64::MAX as nat) {
                Some(n) => (n as u64, progs),
                None => (lines, progs),
            }
        } else {
            (lines, progs.push(a))
        }
    }
}

/// Whether an argument of `logs` is a `--lines=` option.
pub open spec fn lines_option(a: Seq<char>) -> bool {
    a.len() >= 8 && a.take(8) == "--lines="@
}

/// Arguments that are no `--lines=` option are programs, after those
/// before them.
pub proof fn lemma_logs_args_append(pre: Seq<Seq<char>>, t: Seq<Seq<char>>)
    requires
        forall|i: int| 0 <= i < t.len() ==> !lines_option(#[trigger] t[i]),
    ensures
        logs_args_spec(pre + t) == (logs_args_spec(pre).0, logs_args_spec(pre).1 + t),
    decreases t.len(),
{
    reveal(logs_args_spec);
    if t.len() == 0 {
        assert(pre + t =~= pre);
        assert(logs_args_spec(pre).1 + t =~= logs_args_spec(pre).1);
    } else {
        let t0 = t.drop_last();
        assert forall|i: int| 0 <= i < t0.len() implies !lines_option(#[trigger] t0[i]) by {
            assert(t0[i] == t[i]);
        }
        lemma_logs_args_append(pre, t0);
        assert((pre + t).drop_last() =~= pre + t0);
        assert((pre + t).last() == t.last());
        assert(!lines_option(t[t.len() - 1]));
        assert(logs_args_spec(pre).1 + t0 + seq![t.last()] =~= logs_args_spec(pre).1 + t);
    }
}

/// No arguments: 25 lines and no program; a single `--lines=N`: N lines.
pub proof fn lemma_logs_args_lines(n: u64)
    ensures
        logs_args_spec(seq![]) == (25u64, Seq::<Seq<char>>::empty()),
        logs_args_spec(seq!["--lines="@ + dec(n as nat)]) == (n, Seq::<Seq<char>>::empty()),
        lines_option("--lines="@ + dec(n as nat)),
{
    reveal(logs_args_spec);
    reveal_strlit("--lines=");
    let a = "--lines="@ + dec(n as nat);
    let args = seq![a];
    assert(args.drop_last() =~= Seq::<Seq<char>>::empty());
    assert(args.last() == a);
    assert(a.take(8) =~= "--lines="@);
    assert(a.skip(8) =~= dec(n as nat));
    lemma_parse_dec(n as nat, u64::MAX as nat);
    assert(logs_args_spec(Seq::<Seq<char>>::empty()) == (25u64, Seq::<Seq<char>>::empty()));
}

/// The request that a command word and its arguments make. The word is
/// compared in ASCII lower case.
pub open spec fn request_spec(cmd: Seq<char>, args: Seq<Seq<char>>) -> RequestView {
    let c = ascii_lower_str(cmd);
    if c == "ping"@ {
        RequestView::Ping
    } else if c == "start"@ {
        RequestView::Start(if args.len() > 0 {
            Some(args[0])
        } else {
            None
        })
    } else if c == "stop"@ {
        RequestView::Stop(args)
    } else if c == "list"@ {
        RequestView::List
    } else if c == "list-programs"@ {
        RequestView::ListPrograms
    } else if c == "logs"@ {
        let (lines, programs) = logs_args_spec(args);
        RequestView::Logs { lines, programs }
    } else if c == "restart"@ {
        RequestView::Restart(args)
    } else if c == "delete"@ {
        RequestView::Delete(args)
    } else if c == "revive"@ {
        RequestView::Revive
    } else if c == "dump"@ {
        RequestView::Dump
    } else if c == "flush"@ {
        RequestView::Flush(args)
    } else {
        RequestView::Unknown
    }
}

/// The text of a request line: the decrypted bytes read as UTF-8 (lossily),
/// or `not_encrypted` when the line does not decrypt.
pub open spec fn request_text(key: Seq<u8>, line: Seq<char>) -> Seq<char> {
    match decrypt_wire_spec(key, line, aad_spec()) {
        Ok(b) => lossy_text(b),
        Err(_) => "not_encrypted"@,
    }
}

/// The request that an encrypted line makes: the first word of its text is
/// the command, the other words its arguments.
pub open spec fn parse_request_spec(key: Seq<u8>, line: Seq<char>) -> RequestView {
    request_of_text(request_text(key, line))
}

/// The request that a command text makes.
pub open spec fn request_of_text(t: Seq<char>) -> RequestView {
    let ws = words(t);
    if ws.len() == 0 {
        request_spec(seq![], seq![])
    } else {
        request_spec(ws[0], ws.drop_first())
    }
}

fn copy_strings(v: &Vec<Vec<char>>, lo: usize) -> (r: Vec<String>)
    requires
        lo <= v@.len(),
    ensures
        sv(r@) == chars_views(v@).skip(lo as int),
{
    let mut out: Vec<String> = Vec::new();
    let mut i = lo;
    while i < v.len()
        invariant
            lo <= i <= v@.len(),
            sv(out@) == chars_views(v@).subrange(lo as int, i as int),
        decreases v.len() - i,
    {
        let s = string_of(&v[i]);
        out.push(s);
        assert(sv(out@) =~= sv(out@.drop_last()).push(s@));
        assert(chars_views(v@).subrange(lo as int, i + 1) =~= chars_views(v@).subrange(lo as int, i as int).push(v@[i as int]@));
        i = i + 1;
    }
    out
}

/// The arguments of `logs`.
pub fn logs_args(args: &Vec<String>) -> (r: (u64, Vec<String>))
    ensures
        (r.0, sv(r.1@)) == logs_args_spec(sv(args@)),
{
    let mut lines: u64 = 25;
    let mut programs: Vec<String> = Vec::new();
    let prefix = chars_of("--lines=");
    proof {
        reveal_strlit("--lines=");
        reveal(logs_args_spec);
        assert(sv(args@).take(0) =~= Seq::<Seq<char>>::empty());
        assert(sv(programs@) =~= Seq::<Seq<char>>::empty());
    }
    let mut i: usize = 0;
    while i < args.len()
        invariant
            i <= args@.len(),
            prefix@ == "--lines="@,
            prefix@.len() == 8,
            (lines, sv(programs@)) == logs_args_spec(sv(args@).take(i as int)),
        decreases args.len() - i,
    {
        let a = chars_of(args[i].as_str());
        proof {
            reveal(logs_args_spec);
            assert(sv(args@).take(i + 1).drop_last() =~= sv(args@).take(i as int));
            assert(sv(args@).take(i + 1).last() == a@);
        }
        if crate::text::starts_with(&a, &prefix) {
            let rest = sub_vec(&a, 8, a.len());
            assert(rest@ =~= a@.skip(8));
            match parse_u64(&rest) {
                Some(n) => {
                    lines = n;
                },
                None => {},
            }
        } else {
            let s = string_of(&a);
            programs.push(s);
            assert(sv(programs@) =~= sv(programs@.drop_last()).push(s@));
        }
        i = i + 1;
    }
    assert(sv(args@).take(args@.len() as int) =~= sv(args@));
    (lines, programs)
}

fn is_word(c: &Vec<char>, w: &str) -> (r: bool)
    ensures
        r == (c@ == w@),
{
    chars_eq(c, &chars_of(w))
}

/// The request that a command word and its arguments make.
pub fn request_of(cmd: &[char], args: Vec<String>) -> (r: Request)
    ensures
        r@ == request_spec(cmd@, sv(args@)),
{
    let c = ascii_lower_exec(cmd);
    if is_word(&c, "ping") {
        Request::Ping
    } else if is_word(&c, "start") {
        if args.len() > 0 {
            Request::Start(Some(string_of(&chars_of(args[0].as_str()))))
        } else {
            Request::Start(None)
        }
    } else if is_word(&c, "stop") {
        Request::Stop(args)
    } else if is_word(&c, "list") {
        Request::List
    } else if is_word(&c, "list-programs") {
        Request::ListPrograms
    } else if is_word(&c, "logs") {
        let (lines, programs) = logs_args(&args);
        Request::Logs { lines, programs }
    } else if is_word(&c, "restart") {
        Request::Restart(args)
    } else if is_word(&c, "delete") {
        Request::Delete(args)
    } else if is_word(&c, "revive") {
        Request::Revive
    } else if is_word(&c, "dump") {
        Request::Dump
    } else if is_word(&c, "flush") {
        Request::Flush(args)
    } else {
        Request::Unknown
    }
}

/// Reads a request line: decrypts it under the key (a line that does not
/// decrypt reads as `not_encrypted`), splits its text on whitespace, and
/// makes the request of the first word and the others.
pub fn parse_request(key32: &[u8; 32], line: &str) -> (r: Request)
    ensures
        r@ == parse_request_spec(key32@, line@),
        decrypt_wire_spec(key32@, line@, aad_spec()) matches Ok(b) ==> (valid_utf8(b) ==> r@
            == request_of_text(decode_utf8(b))),
{
    let a = aad();
    let text = match decrypt_wire_line(key32, line, &a) {
        Ok(bytes) => string_from_utf8_lossy(&bytes),
        Err(_) => {
            let s = string_of(&chars_of("not_encrypted"));
            let t = string_from_utf8_lossy(s.as_str().as_bytes());
            proof {
                broadcast use vstd::utf8::encode_utf8_valid_utf8, vstd::utf8::encode_utf8_decode_utf8;
            }
            t
        },
    };
    let ws = split_ws(&chars_of(text.as_str()));
    assert(ws@.map_values(|w: Vec<char>| w@) =~= chars_views(ws@));
    if ws.len() == 0 {
        let empty: Vec<char> = Vec::new();
        let no_args: Vec<String> = Vec::new();
        assert(sv(no_args@) =~= Seq::<Seq<char>>::empty());
        request_of(&empty, no_args)
    } else {
        let args = copy_strings(&ws, 1);
        assert(chars_views(ws@).skip(1) =~= chars_views(ws@).drop_first());
        request_of(&ws[0], args)
    }
}

// ---------------------------------------------------------------------------
// Replies.
// ---------------------------------------------------------------------------

/// Whether a text is short enough to be encrypted onto the wire.
pub fn fits_on_wire(plain: &str) -> (r: bool)
    ensures
        r == plaintext_fits(encode_utf8(plain@).len()),
{
    let n = plain.as_bytes().len();
    n <= usize::MAX / 2 - 29 && n / 64 < u32::MAX as usize
}

/// A wire line for a plaintext: `ENC <token>` and a newline; none when the
/// random source fails.
pub fn frame_line(key32: &[u8; 32], plain: &str) -> (r: Option<String>)
    requires
        plaintext_fits(encode_utf8(plain@).len()),
    ensures
        r matches Some(l) ==> exists|token: Seq<char>|
            l@ == "ENC "@ + token + seq!['\n'] && token.len() > 0
                && crate::encryption::decrypt_token_spec(key32@, token, aad_spec()) == Ok::<Seq<u8>, DecErr>(encode_utf8(plain@))
                && forall|i: int| 0 <= i < token.len() ==> is_b64url_char(#[trigger] token[i]),
{
    let a = aad();
    let bytes = plain.as_bytes();
    match encrypt_reply_to_token(key32, bytes, &a) {
        None => None,
        Some(token) => {
            let mut out = chars_of("ENC ");
            append_chars(&mut out, &chars_of(token.as_str()));
            out.push('\n');
            let l = string_of(&out);
            assert(l@ == "ENC "@ + token@ + seq!['\n']);
            Some(l)
        },
    }
}

/// `OK <msg>` and a newline.
pub fn ok_text(msg: &str) -> (r: String)
    ensures
        r@ == "OK "@ + msg@ + seq!['\n'],
{
    let mut out = chars_of("OK ");
    append_chars(&mut out, &chars_of(msg));
    out.push('\n');
    string_of(&out)
}

/// `ERR <msg>` and a newline.
pub fn err_text(msg: &str) -> (r: String)
    ensures
        r@ == "ERR "@ + msg@ + seq!['\n'],
{
    let mut out = chars_of("ERR ");
    append_chars(&mut out, &chars_of(msg));
    out.push('\n');
    string_of(&out)
}

/// `LOG <text>` and a newline, for one item of a log stream.
pub fn log_text(item: &str) -> (r: String)
    ensures
        r@ == "LOG "@ + item@ + seq!['\n'],
{
    let mut out = chars_of("LOG ");
    append_chars(&mut out, &chars_of(item));
    out.push('\n');
    string_of(&out)
}


/// The law of the channel for requests: a command text that the client
/// encrypts as a token and sends as `ENC <token>` and a newline is what the
/// daemon decrypts, byte for byte, and it is valid UTF-8 that reads back as
/// the same text; so `parse_request` makes the request of that text.
pub proof fn lemma_request_roundtrip(key: Seq<u8>, token: Seq<char>, t: Seq<char>)
    requires
        crate::encryption::decrypt_token_spec(key, token, aad_spec()) == Ok::<Seq<u8>, DecErr>(encode_utf8(t)),
        token.len() > 0,
        forall|i: int| 0 <= i < token.len() ==> is_b64url_char(#[trigger] token[i]),
    ensures
        decrypt_wire_spec(key, "ENC "@ + token + seq!['\n'], aad_spec()) == Ok::<Seq<u8>, DecErr>(encode_utf8(t)),
        valid_utf8(encode_utf8(t)),
        decode_utf8(encode_utf8(t)) == t,
{
    crate::encryption::lemma_wire_line_roundtrip(key, token, aad_spec(), encode_utf8(t));
    encode_utf8_valid_utf8(t);
    encode_utf8_decode_utf8(t);
}

} // verus!
