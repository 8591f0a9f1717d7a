//! Validation of a `start` request: the argument is a query string
//! `proc_name=..&exec_dir=..&exec_name=..&active=..[&exec_args=..]`,
//! possibly wrapped in `["..."]` or `"..."`, percent-encoded.
use vstd::prelude::*;
use vstd::utf8::*;
use crate::paths::{comps_prefix, comps_prefix_exec, is_absolute, normalize_comps, normalized, path_components};
use crate::pm3_config::{to_strings, ConfigView, PmProcessConfig};
use crate::process::{enc_byte, hex_digit, is_unreserved, lemma_pct_enc_snoc, pct_enc, pct_enc_str};
use crate::status_line::{lemma_pct_safe, safe_char, url_safe};
use crate::text::{utf8_error_len, utf8_valid_up_to, lacks, lemma_first_index_at, lemma_split_char_concat, lemma_split_char_none, lemma_split_char_snoc, lemma_trim_id};
use crate::text::{
    ascii_lower_exec, ascii_lower_str, chars_of, chars_views, is_whitespace, is_ws, split_char,
    split_on_char, split_once, split_once_exec, split_ws, string_from_utf8, string_of, sub_vec,
    trim, trim_bounds, trimmed, words, chars_eq, append_chars, dec, push_dec, join_sep,
};

verus! {

broadcast use vstd::seq_lib::group_seq_properties;

/// Why a `start` request was refused.
pub enum ConfigError {
    /// The query is empty or whitespace.
    EmptyQuery,
    /// A pair decodes to an empty key; the pair as written.
    EmptyKey(String),
    /// A key occurs twice; the decoded key.
    DuplicateKey(String),
    /// A `%` is not followed by two characters; the text being decoded.
    BadPercent(String),
    /// A `%` is followed by a byte that is no hex digit.
    InvalidHex(u8),
    /// The decoded bytes are not UTF-8 (where the valid prefix ends, and the
    /// length of the bad sequence, as std reports them).
    InvalidUtf8(usize, Option<u8>),
    /// A required parameter is missing; its name.
    MissingParam(String),
    ProcNameEmpty,
    ProcNameTooLong,
    ProcNameInvalidChars,
    /// A path is not absolute; the parameter and the path.
    NotAbsolute(String, String),
    /// `active` is not a boolean; the value as given.
    BadActive(String),
    /// `exec_name` is not inside `exec_dir`; the two paths.
    NotWithin(String, String),
}

/// A refusal, as mathematical text.
pub enum CfgErr {
    EmptyQuery,
    EmptyKey(Seq<char>),
    DuplicateKey(Seq<char>),
    BadPercent(Seq<char>),
    InvalidHex(u8),
    InvalidUtf8(nat, Option<nat>),
    MissingParam(Seq<char>),
    ProcNameEmpty,
    ProcNameTooLong,
    ProcNameInvalidChars,
    NotAbsolute(Seq<char>, Seq<char>),
    BadActive(Seq<char>),
    NotWithin(Seq<char>, Seq<char>),
}

impl View for ConfigError {
    type V = CfgErr;

    open spec fn view(&self) -> CfgErr {
        match self {
            ConfigError::EmptyQuery => CfgErr::EmptyQuery,
            ConfigError::EmptyKey(s) => CfgErr::EmptyKey(s@),
            ConfigError::DuplicateKey(s) => CfgErr::DuplicateKey(s@),
            ConfigError::BadPercent(s) => CfgErr::BadPercent(s@),
            ConfigError::InvalidHex(b) => CfgErr::InvalidHex(*b),
            ConfigError::InvalidUtf8(at, len) => CfgErr::InvalidUtf8(
                *at as nat,
                match len {
                    Some(l) => Some(*l as nat),
                    None => None,
                },
            ),
            ConfigError::MissingParam(s) => CfgErr::MissingParam(s@),
            ConfigError::ProcNameEmpty => CfgErr::ProcNameEmpty,
            ConfigError::ProcNameTooLong => CfgErr::ProcNameTooLong,
            ConfigError::ProcNameInvalidChars => CfgErr::ProcNameInvalidChars,
            ConfigError::NotAbsolute(f, p) => CfgErr::NotAbsolute(f@, p@),
            ConfigError::BadActive(s) => CfgErr::BadActive(s@),
            ConfigError::NotWithin(a, b) => CfgErr::NotWithin(a@, b@),
        }
    }
}

impl ConfigError {
    /// The text of the refusal, as the daemon reports it.
    pub open spec fn message_spec(&self) -> Seq<char> {
        match self {
            ConfigError::EmptyQuery => "empty query"@,
            ConfigError::EmptyKey(p) => "empty key in query: '"@ + p@ + "'"@,
            ConfigError::DuplicateKey(k) => "duplicate key '"@ + k@ + "'"@,
            ConfigError::BadPercent(s) => "bad percent-encoding in '"@ + s@ + "'"@,
            ConfigError::InvalidHex(b) => "invalid hex digit '"@ + seq![*b as char] + "'"@,
            ConfigError::InvalidUtf8(at, len) => match len {
                Some(l) => "invalid utf-8 sequence of "@ + dec(*l as nat) + " bytes from index "@
                    + dec(*at as nat),
                None => "incomplete utf-8 byte sequence from index "@ + dec(*at as nat),
            },
            ConfigError::MissingParam(k) => "missing required param: "@ + k@,
            ConfigError::ProcNameEmpty => "proc_name is empty"@,
            ConfigError::ProcNameTooLong => "proc_name too long"@,
            ConfigError::ProcNameInvalidChars => "proc_name contains invalid characters"@,
            ConfigError::NotAbsolute(f, p) => f@ + " must be absolute path: '"@ + p@ + "'"@,
            ConfigError::BadActive(s) => "active must be 0/1/true/false, got '"@ + s@ + "'"@,
            ConfigError::NotWithin(e, d) => "exec_name must be within exec_dir: exec_name='"@ + e@
                + "' exec_dir='"@ + d@ + "'"@,
        }
    }

    /// The text of the refusal.
    pub fn message(&self) -> (r: String)
        ensures
            r@ == self.message_spec(),
    {
        let mut out: Vec<char> = Vec::new();
        match self {
            ConfigError::EmptyQuery => {
                append_chars(&mut out, &chars_of("empty query"));
            },
            ConfigError::EmptyKey(p) => {
                append_chars(&mut out, &chars_of("empty key in query: '"));
                append_chars(&mut out, &chars_of(p.as_str()));
                append_chars(&mut out, &chars_of("'"));
            },
            ConfigError::DuplicateKey(k) => {
                append_chars(&mut out, &chars_of("duplicate key '"));
                append_chars(&mut out, &chars_of(k.as_str()));
                append_chars(&mut out, &chars_of("'"));
            },
            ConfigError::BadPercent(t) => {
                append_chars(&mut out, &chars_of("bad percent-encoding in '"));
                append_chars(&mut out, &chars_of(t.as_str()));
                append_chars(&mut out, &chars_of("'"));
            },
            ConfigError::InvalidHex(b) => {
                append_chars(&mut out, &chars_of("invalid hex digit '"));
                out.push(*b as char);
                append_chars(&mut out, &chars_of("'"));
            },
            ConfigError::InvalidUtf8(at, len) => match len {
                Some(l) => {
                    append_chars(&mut out, &chars_of("invalid utf-8 sequence of "));
                    push_dec(&mut out, *l as u64);
                    append_chars(&mut out, &chars_of(" bytes from index "));
                    push_dec(&mut out, *at as u64);
                },
                None => {
                    append_chars(&mut out, &chars_of("incomplete utf-8 byte sequence from index "));
                    push_dec(&mut out, *at as u64);
                },
            },
            ConfigError::MissingParam(k) => {
                append_chars(&mut out, &chars_of("missing required param: "));
                append_chars(&mut out, &chars_of(k.as_str()));
            },
            ConfigError::ProcNameEmpty => {
                append_chars(&mut out, &chars_of("proc_name is empty"));
            },
            ConfigError::ProcNameTooLong => {
                append_chars(&mut out, &chars_of("proc_name too long"));
            },
            ConfigError::ProcNameInvalidChars => {
                append_chars(&mut out, &chars_of("proc_name contains invalid characters"));
            },
            ConfigError::NotAbsolute(f, p) => {
                append_chars(&mut out, &chars_of(f.as_str()));
                append_chars(&mut out, &chars_of(" must be absolute path: '"));
                append_chars(&mut out, &chars_of(p.as_str()));
                append_chars(&mut out, &chars_of("'"));
            },
            ConfigError::BadActive(t) => {
                append_chars(&mut out, &chars_of("active must be 0/1/true/false, got '"));
                append_chars(&mut out, &chars_of(t.as_str()));
                append_chars(&mut out, &chars_of("'"));
            },
            ConfigError::NotWithin(e, d) => {
                append_chars(&mut out, &chars_of("exec_name must be within exec_dir: exec_name='"));
                append_chars(&mut out, &chars_of(e.as_str()));
                append_chars(&mut out, &chars_of("' exec_dir='"));
                append_chars(&mut out, &chars_of(d.as_str()));
                append_chars(&mut out, &chars_of("'"));
            },
        }
        assert(out@ =~= self.message_spec());
        string_of(&out)
    }
}

// ---------------------------------------------------------------------------
// Percent-decoding.
// ---------------------------------------------------------------------------

/// The value of a hex digit.
pub open spec fn hex_val(b: u8) -> Option<u8> {
    if 48 <= b <= 57 {
        Some((b - 48) as u8)
    } else if 97 <= b <= 102 {
        Some((b - 87) as u8)
    } else if 65 <= b <= 70 {
        Some((b - 55) as u8)
    } else {
        None
    }
}

pub open spec fn prepend_ok(p: Seq<u8>, r: Result<Seq<u8>, Option<u8>>) -> Result<
    Seq<u8>,
    Option<u8>,
> {
    match r {
        Ok(x) => Ok(p + x),
        Err(e) => Err(e),
    }
}

/// Percent-decoding of bytes: `+` is a space, `%XY` the byte with hex value
/// `XY`. Errors: `Err(None)` when a `%` has fewer than two bytes after it,
/// `Err(Some(b))` when `b` after a `%` is no hex digit.
#[verifier::opaque]
pub open spec fn url_dec_bytes(b: Seq<u8>) -> Result<Seq<u8>, Option<u8>>
    decreases b.len(),
{
    if b.len() == 0 {
        Ok(seq![])
    } else if b[0] == 43 {
        prepend_ok(seq![32u8], url_dec_bytes(b.skip(1)))
    } else if b[0] == 37 {
        if b.len() <= 2 {
            Err(None)
        } else {
            match hex_val(b[1]) {
                None => Err(Some(b[1])),
                Some(h) => match hex_val(b[2]) {
                    None => Err(Some(b[2])),
                    Some(l) => prepend_ok(seq![(h * 16 + l) as u8], url_dec_bytes(b.skip(3))),
                },
            }
        }
    } else {
        prepend_ok(seq![b[0]], url_dec_bytes(b.skip(1)))
    }
}

/// `url_decode`: percent-decoding of the UTF-8 bytes of `s`, read back as
/// UTF-8.
pub open spec fn url_decode_spec(s: Seq<char>) -> Result<Seq<char>, CfgErr> {
    match url_dec_bytes(encode_utf8(s)) {
        Err(None) => Err(CfgErr::BadPercent(s)),
        Err(Some(b)) => Err(CfgErr::InvalidHex(b)),
        Ok(bytes) => if valid_utf8(bytes) {
            Ok(decode_utf8(bytes))
        } else {
            Err(CfgErr::InvalidUtf8(utf8_valid_up_to(bytes) as nat, utf8_error_len(bytes)))
        },
    }
}

pub fn from_hex(b: u8) -> (r: Result<u8, ConfigError>)
    ensures
        match hex_val(b) {
            Some(v) => r == Ok::<u8, ConfigError>(v),
            None => r matches Err(e) && e@ == CfgErr::InvalidHex(b),
        },
{
    if 48 <= b && b <= 57 {
        Ok(b - 48)
    } else if 97 <= b && b <= 102 {
        Ok(10 + (b - 97))
    } else if 65 <= b && b <= 70 {
        Ok(10 + (b - 65))
    } else {
        Err(ConfigError::InvalidHex(b))
    }
}

proof fn lemma_url_dec_unfold(b: Seq<u8>)
    ensures
        url_dec_bytes(b) == if b.len() == 0 {
            Ok(seq![])
        } else if b[0] == 43 {
            prepend_ok(seq![32u8], url_dec_bytes(b.skip(1)))
        } else if b[0] == 37 {
            if b.len() <= 2 {
                Err(None)
            } else {
                match hex_val(b[1]) {
                    None => Err(Some(b[1])),
                    Some(h) => match hex_val(b[2]) {
                        None => Err(Some(b[2])),
                        Some(l) => prepend_ok(seq![(h * 16 + l) as u8], url_dec_bytes(b.skip(3))),
                    },
                }
            }
        } else {
            prepend_ok(seq![b[0]], url_dec_bytes(b.skip(1)))
        },
{
    reveal(url_dec_bytes);
}

proof fn lemma_prepend_assoc(a: Seq<u8>, b: Seq<u8>, r: Result<Seq<u8>, Option<u8>>)
    ensures
        prepend_ok(a, prepend_ok(b, r)) == prepend_ok(a + b, r),
{
    match r {
        Ok(x) => {
            assert(a + (b + x) =~= (a + b) + x);
        },
        Err(_) => {},
    }
}

/// Percent-decoding of bytes.
fn url_decode_bytes(bytes: &[u8]) -> (r: Result<Vec<u8>, Option<u8>>)
    ensures
        match url_dec_bytes(bytes@) {
            Ok(x) => r matches Ok(v) && v@ == x,
            Err(e) => r matches Err(f) && f == e,
        },
{
    let n = bytes.len();
    let mut out: Vec<u8> = Vec::new();
    let mut i: usize = 0;
    assert(bytes@.skip(0) =~= bytes@);
    assert(prepend_ok(Seq::<u8>::empty(), url_dec_bytes(bytes@)) == url_dec_bytes(bytes@)) by {
        match url_dec_bytes(bytes@) {
            Ok(x) => {
                assert(Seq::<u8>::empty() + x =~= x);
            },
            Err(_) => {},
        }
    }
    while i < n
        invariant
            i <= n == bytes@.len(),
            url_dec_bytes(bytes@) == prepend_ok(out@, url_dec_bytes(bytes@.skip(i as int))),
        decreases n - i,
    {
        let ghost rest = bytes@.skip(i as int);
        proof {
            lemma_url_dec_unfold(rest);
        }
        let b = bytes[i];
        if b == 43 {
            proof {
                assert(rest.skip(1) =~= bytes@.skip(i + 1));
                lemma_prepend_assoc(out@, seq![32u8], url_dec_bytes(bytes@.skip(i + 1)));
            }
            let ghost old_out = out@;
            out.push(32);
            assert(out@ =~= old_out + seq![32u8]);
            i = i + 1;
        } else if b == 37 {
            if n - i <= 2 {
                return Err(None);
            }
            let hi = match from_hex(bytes[i + 1]) {
                Ok(h) => h,
                Err(_) => {
                    return Err(Some(bytes[i + 1]));
                },
            };
            let lo = match from_hex(bytes[i + 2]) {
                Ok(l) => l,
                Err(_) => {
                    return Err(Some(bytes[i + 2]));
                },
            };
            proof {
                assert(rest.skip(3) =~= bytes@.skip(i + 3));
                lemma_prepend_assoc(
                    out@,
                    seq![(hi * 16 + lo) as u8],
                    url_dec_bytes(bytes@.skip(i + 3)),
                );
            }
            let ghost old_out = out@;
            out.push(hi * 16 + lo);
            assert(out@ =~= old_out + seq![(hi * 16 + lo) as u8]);
            i = i + 3;
        } else {
            proof {
                assert(rest.skip(1) =~= bytes@.skip(i + 1));
                lemma_prepend_assoc(out@, seq![b], url_dec_bytes(bytes@.skip(i + 1)));
            }
            let ghost old_out = out@;
            out.push(b);
            assert(out@ =~= old_out + seq![b]);
            i = i + 1;
        }
    }
    proof {
        lemma_url_dec_unfold(bytes@.skip(i as int));
        assert(out@ + Seq::<u8>::empty() =~= out@);
    }
    Ok(out)
}

/// Percent-decodes `s` (`+` is a space) and reads the bytes back as UTF-8.
pub fn url_decode(s: &[char]) -> (r: Result<String, ConfigError>)
    ensures
        match url_decode_spec(s@) {
            Ok(x) => r matches Ok(v) && v@ == x,
            Err(e) => r matches Err(f) && f@ == e,
        },
{
    let st = string_of(s);
    let bytes = st.as_str().as_bytes();
    match url_decode_bytes(bytes) {
        Ok(out) => {
            let ghost out_view = out@;
            match string_from_utf8(out) {
                Ok(v) => Ok(v),
                Err((at, len)) => {
                    proof {
                        crate::text::lemma_valid_up_to_unique(out_view, at as int);
                    }
                    let l = match len {
                        Some(n) => Some(n as u8),
                        None => None,
                    };
                    Err(ConfigError::InvalidUtf8(at, l))
                },
            }
        },
        Err(None) => Err(ConfigError::BadPercent(st)),
        Err(Some(b)) => Err(ConfigError::InvalidHex(b)),
    }
}


// ---------------------------------------------------------------------------
// Query strings.
// ---------------------------------------------------------------------------

/// The value of the first pair with key `k`.
#[verifier::opaque]
pub open spec fn lookup(ps: Seq<(Seq<char>, Seq<char>)>, k: Seq<char>) -> Option<Seq<char>>
    decreases ps.len(),
{
    if ps.len() == 0 {
        None
    } else if ps[0].0 == k {
        Some(ps[0].1)
    } else {
        lookup(ps.drop_first(), k)
    }
}

proof fn lemma_lookup_push(ps: Seq<(Seq<char>, Seq<char>)>, p: (Seq<char>, Seq<char>), k: Seq<char>)
    ensures
        lookup(ps.push(p), k) == match lookup(ps, k) {
            Some(v) => Some(v),
            None => if p.0 == k {
                Some(p.1)
            } else {
                None
            },
        },
    decreases ps.len(),
{
    reveal(lookup);
    if ps.len() > 0 {
        assert(ps.push(p).drop_first() =~= ps.drop_first().push(p));
        lemma_lookup_push(ps.drop_first(), p, k);
    } else {
        assert(ps.push(p).drop_first() =~= Seq::<(Seq<char>, Seq<char>)>::empty());
    }
}

/// The pair `k=v` that a piece of a query stands for (a piece without `=`
/// is a key with an empty value).
pub open spec fn pair_parts(pair: Seq<char>) -> (Seq<char>, Seq<char>) {
    match split_once(pair, '=') {
        Some(p) => p,
        None => (pair, seq![]),
    }
}

/// Reading one `&`-separated piece of a query into the pairs read so far.
pub open spec fn query_step(acc: Seq<(Seq<char>, Seq<char>)>, pair: Seq<char>) -> Result<
    Seq<(Seq<char>, Seq<char>)>,
    CfgErr,
> {
    if pair.len() == 0 {
        Ok(acc)
    } else {
        let (kr, vr) = pair_parts(pair);
        match url_decode_spec(kr) {
            Err(e) => Err(e),
            Ok(k) => match url_decode_spec(vr) {
                Err(e) => Err(e),
                Ok(v) => if k.len() == 0 {
                    Err(CfgErr::EmptyKey(pair))
                } else if lookup(acc, k) is Some {
                    Err(CfgErr::DuplicateKey(k))
                } else {
                    Ok(acc.push((k, v)))
                },
            },
        }
    }
}

#[verifier::opaque]
pub open spec fn query_from(acc: Seq<(Seq<char>, Seq<char>)>, ps: Seq<Seq<char>>) -> Result<
    Seq<(Seq<char>, Seq<char>)>,
    CfgErr,
>
    decreases ps.len(),
{
    if ps.len() == 0 {
        Ok(acc)
    } else {
        match query_step(acc, ps[0]) {
            Err(e) => Err(e),
            Ok(a) => query_from(a, ps.drop_first()),
        }
    }
}

/// `parse_query`: the decoded pairs of `a=b&c=d`, in order, with no key
/// twice.
pub open spec fn parse_query_spec(q: Seq<char>) -> Result<Seq<(Seq<char>, Seq<char>)>, CfgErr> {
    if trim(q).len() == 0 {
        Err(CfgErr::EmptyQuery)
    } else {
        query_from(seq![], split_char(q, '&'))
    }
}

proof fn lemma_query_from_cons(acc: Seq<(Seq<char>, Seq<char>)>, ps: Seq<Seq<char>>)
    ensures
        ps.len() == 0 ==> query_from(acc, ps) == Ok::<_, CfgErr>(acc),
        ps.len() > 0 ==> query_from(acc, ps) == match query_step(acc, ps[0]) {
            Err(e) => Err(e),
            Ok(a) => query_from(a, ps.drop_first()),
        },
{
    reveal(query_from);
}

pub open spec fn params_view(v: Seq<(String, String)>) -> Seq<(Seq<char>, Seq<char>)> {
    crate::pm3_config::pairs_view(v)
}

/// The value of the first pair with key `k`.
pub fn lookup_param(ps: &Vec<(String, String)>, k: &[char]) -> (r: Option<usize>)
    ensures
        r matches Some(i) ==> i < ps@.len() && lookup(params_view(ps@), k@) == Some(
            ps@[i as int].1@,
        ),
        r is None ==> lookup(params_view(ps@), k@) is None,
{
    let mut i: usize = 0;
    proof {
        assert(params_view(ps@).skip(0) =~= params_view(ps@));
    }
    while i < ps.len()
        invariant
            i <= ps@.len(),
            lookup(params_view(ps@), k@) == lookup(params_view(ps@).skip(i as int), k@),
        decreases ps.len() - i,
    {
        let ghost rest = params_view(ps@).skip(i as int);
        proof {
            reveal(lookup);
            assert(rest.drop_first() =~= params_view(ps@).skip(i + 1));
        }
        let key = chars_of(ps[i].0.as_str());
        if chars_eq(&key, k) {
            return Some(i);
        }
        i = i + 1;
    }
    proof {
        reveal(lookup);
    }
    None
}

/// Parses a query string `a=b&c=d`: percent-decoding, `+` for a space, no
/// key twice.
pub fn parse_query(q: &[char]) -> (r: Result<Vec<(String, String)>, ConfigError>)
    ensures
        match parse_query_spec(q@) {
            Ok(x) => r matches Ok(v) && params_view(v@) == x,
            Err(e) => r matches Err(f) && f@ == e,
        },
{
    let t = trimmed(q);
    if t.len() == 0 {
        return Err(ConfigError::EmptyQuery);
    }
    let pieces = split_on_char(q, '&');
    let mut map: Vec<(String, String)> = Vec::new();
    let mut i: usize = 0;
    proof {
        assert(chars_views(pieces@).skip(0) =~= chars_views(pieces@));
        assert(params_view(map@) =~= Seq::<(Seq<char>, Seq<char>)>::empty());
    }
    while i < pieces.len()
        invariant
            i <= pieces@.len(),
            trim(q@).len() != 0,
            chars_views(pieces@) == split_char(q@, '&'),
            query_from(seq![], split_char(q@, '&')) == query_from(
                params_view(map@),
                chars_views(pieces@).skip(i as int),
            ),
        decreases pieces.len() - i,
    {
        let ghost rest = chars_views(pieces@).skip(i as int);
        let ghost acc = params_view(map@);
        proof {
            lemma_query_from_cons(acc, rest);
            assert(rest.drop_first() =~= chars_views(pieces@).skip(i + 1));
            assert(rest[0] == pieces@[i as int]@);
        }
        let pair = &pieces[i];
        if pair.len() == 0 {
            i = i + 1;
            continue;
        }
        let (k_raw, v_raw) = match split_once_exec(pair, '=') {
            Some(p) => p,
            None => (sub_vec(pair, 0, pair.len()), Vec::new()),
        };
        proof {
            assert(pair_parts(pair@) == (k_raw@, v_raw@));
        }
        let k = match url_decode(&k_raw) {
            Ok(k) => k,
            Err(e) => {
                proof {
                    let ee = url_decode_spec(k_raw@)->Err_0;
                    assert(query_step(acc, rest[0]) == Err::<Seq<(Seq<char>, Seq<char>)>, CfgErr>(
                        ee,
                    ));
                }
                return Err(e);
            },
        };
        let v = match url_decode(&v_raw) {
            Ok(v) => v,
            Err(e) => {
                proof {
                    let ee = url_decode_spec(v_raw@)->Err_0;
                    assert(query_step(acc, rest[0]) == Err::<Seq<(Seq<char>, Seq<char>)>, CfgErr>(
                        ee,
                    ));
                }
                return Err(e);
            },
        };
        let kc = chars_of(k.as_str());
        if kc.len() == 0 {
            return Err(ConfigError::EmptyKey(string_of(pair)));
        }
        if lookup_param(&map, &kc).is_some() {
            return Err(ConfigError::DuplicateKey(k));
        }
        map.push((k, v));
        proof {
            assert(params_view(map@) =~= acc.push((kc@, v@)));
        }
        i = i + 1;
    }
    proof {
        lemma_query_from_cons(params_view(map@), chars_views(pieces@).skip(i as int));
    }
    Ok(map)
}


// ---------------------------------------------------------------------------
// The checks of a start request.
// ---------------------------------------------------------------------------

/// Removes one `["` .. `"]` wrapper, then one `"` .. `"` wrapper. (Counting
/// characters or bytes gives the same answer here, as the wrappers are
/// ASCII.)
pub open spec fn strip_wrappers_spec(s: Seq<char>) -> Seq<char> {
    let s1 = if s.len() >= 4 && s[0] == '[' && s[1] == '"' && s[s.len() - 2] == '"' && s[s.len()
        - 1] == ']' {
        s.subrange(2, s.len() - 2)
    } else {
        s
    };
    if s1.len() >= 2 && s1[0] == '"' && s1[s1.len() - 1] == '"' {
        s1.subrange(1, s1.len() - 1)
    } else {
        s1
    }
}

pub fn strip_wrappers(s: &[char]) -> (r: Vec<char>)
    ensures
        r@ == strip_wrappers_spec(s@),
{
    let n = s.len();
    let s1 = if n >= 4 && s[0] == '[' && s[1] == '"' && s[n - 2] == '"' && s[n - 1] == ']' {
        sub_vec(s, 2, n - 2)
    } else {
        sub_vec(s, 0, n)
    };
    let m = s1.len();
    if m >= 2 && s1[0] == '"' && s1[m - 1] == '"' {
        sub_vec(&s1, 1, m - 1)
    } else {
        s1
    }
}

/// The check of a process name: not empty, at most 128 bytes of UTF-8, no
/// whitespace, `/` or `\`.
pub open spec fn proc_name_check(name: Seq<char>) -> Option<CfgErr> {
    if name.len() == 0 {
        Some(CfgErr::ProcNameEmpty)
    } else if encode_utf8(name).len() > 128 {
        Some(CfgErr::ProcNameTooLong)
    } else if exists|i: int|
        0 <= i < name.len() && (is_ws(#[trigger] name[i]) || name[i] == '/' || name[i] == '\\') {
        Some(CfgErr::ProcNameInvalidChars)
    } else {
        None
    }
}

pub fn validate_proc_name(name: &str) -> (r: Result<(), ConfigError>)
    ensures
        match proc_name_check(name@) {
            None => r is Ok,
            Some(e) => r matches Err(f) && f@ == e,
        },
{
    let cs = chars_of(name);
    if cs.len() == 0 {
        return Err(ConfigError::ProcNameEmpty);
    }
    if name.as_bytes().len() > 128 {
        return Err(ConfigError::ProcNameTooLong);
    }
    let mut i: usize = 0;
    while i < cs.len()
        invariant
            i <= cs@.len(),
            cs@ == name@,
            cs@.len() > 0,
            encode_utf8(name@).len() <= 128,
            forall|j: int|
                0 <= j < i ==> !(is_ws(#[trigger] name@[j]) || name@[j] == '/' || name@[j] == '\\'),
        decreases cs.len() - i,
    {
        let c = cs[i];
        if is_whitespace(c) || c == '/' || c == '\\' {
            assert(is_ws(name@[i as int]) || name@[i as int] == '/' || name@[i as int] == '\\');
            return Err(ConfigError::ProcNameInvalidChars);
        }
        i = i + 1;
    }
    Ok(())
}

/// `Path::is_absolute`, with the refusal naming the parameter.
pub fn validate_absolute_path(field: &str, p: &str) -> (r: Result<(), ConfigError>)
    ensures
        is_absolute(p@) ==> r is Ok,
        !is_absolute(p@) ==> (r matches Err(f) && f@ == CfgErr::NotAbsolute(field@, p@)),
{
    let cs = chars_of(p);
    if cs.len() > 0 && cs[0] == '/' {
        Ok(())
    } else {
        Err(ConfigError::NotAbsolute(string_of(&chars_of(field)), string_of(&cs)))
    }
}

/// The value of a boolean parameter: `1 true yes on` or `0 false no off`,
/// after trimming, in any ASCII case.
pub open spec fn parse_bool01_spec(s: Seq<char>) -> Option<bool> {
    let t = ascii_lower_str(trim(s));
    if t == "1"@ || t == "true"@ || t == "yes"@ || t == "on"@ {
        Some(true)
    } else if t == "0"@ || t == "false"@ || t == "no"@ || t == "off"@ {
        Some(false)
    } else {
        None
    }
}

pub fn parse_bool01(s: &str) -> (r: Result<bool, ConfigError>)
    ensures
        match parse_bool01_spec(s@) {
            Some(b) => r matches Ok(x) && x == b,
            None => r matches Err(f) && f@ == CfgErr::BadActive(s@),
        },
{
    let cs = chars_of(s);
    let t = ascii_lower_exec(&trimmed(&cs));
    if chars_eq(&t, &chars_of("1")) || chars_eq(&t, &chars_of("true")) || chars_eq(
        &t,
        &chars_of("yes"),
    ) || chars_eq(&t, &chars_of("on")) {
        Ok(true)
    } else if chars_eq(&t, &chars_of("0")) || chars_eq(&t, &chars_of("false")) || chars_eq(
        &t,
        &chars_of("no"),
    ) || chars_eq(&t, &chars_of("off")) {
        Ok(false)
    } else {
        Err(ConfigError::BadActive(string_of(&cs)))
    }
}

/// The value of a required parameter.
pub fn get_required(m: &Vec<(String, String)>, k: &str) -> (r: Result<String, ConfigError>)
    ensures
        match lookup(params_view(m@), k@) {
            Some(v) => r matches Ok(x) && x@ == v,
            None => r matches Err(f) && f@ == CfgErr::MissingParam(k@),
        },
{
    let kc = chars_of(k);
    match lookup_param(m, &kc) {
        Some(i) => Ok(string_of(&chars_of(m[i].1.as_str()))),
        None => Err(ConfigError::MissingParam(string_of(&kc))),
    }
}

/// `lexical_normalize`: the path with `.` removed and each `..` taking away
/// the component before it (a `..` with nothing to remove is dropped).
pub fn lexical_normalize(p: &str) -> (r: String)
    ensures
        r@ == crate::paths::render(normalized(p@, false)),
{
    let cs = path_components(&chars_of(p));
    let n = normalize_comps(&cs, false);
    string_of(&crate::paths::render_comps(&n))
}

/// Whether `child` lies within `parent`, judged on the text alone: after
/// lexical normalisation the components of `parent` begin those of `child`.
pub fn path_is_within(child: &str, parent: &str) -> (r: bool)
    ensures
        r == comps_prefix(normalized(parent@, false), normalized(child@, false)),
{
    let c = normalize_comps(&path_components(&chars_of(child)), false);
    let p = normalize_comps(&path_components(&chars_of(parent)), false);
    comps_prefix_exec(&p, &c)
}

/// `exec_args` split on whitespace.
pub fn split_args_simple(s: &str) -> (r: Vec<String>)
    ensures
        crate::pm3_config::strings_view(r@) == words(s@),
{
    let w = split_ws(&chars_of(s));
    proof {
        assert(w@.map_values(|x: Vec<char>| x@) =~= chars_views(w@));
    }
    to_strings(&w)
}

/// What `verify_start_config` accepts and what it makes of it.
pub open spec fn verify_start_spec(raw: Seq<char>) -> Result<ConfigView, CfgErr> {
    let q = strip_wrappers_spec(trim(raw));
    match parse_query_spec(q) {
        Err(e) => Err(e),
        Ok(ps) => match lookup(ps, "proc_name"@) {
            None => Err(CfgErr::MissingParam("proc_name"@)),
            Some(name) => match proc_name_check(name) {
                Some(e) => Err(e),
                None => match lookup(ps, "exec_dir"@) {
                    None => Err(CfgErr::MissingParam("exec_dir"@)),
                    Some(dir) => match lookup(ps, "exec_name"@) {
                        None => Err(CfgErr::MissingParam("exec_name"@)),
                        Some(exe) => if !is_absolute(dir) {
                            Err(CfgErr::NotAbsolute("exec_dir"@, dir))
                        } else if !is_absolute(exe) {
                            Err(CfgErr::NotAbsolute("exec_name"@, exe))
                        } else {
                            match lookup(ps, "active"@) {
                                None => Err(CfgErr::MissingParam("active"@)),
                                Some(a) => match parse_bool01_spec(a) {
                                    None => Err(CfgErr::BadActive(a)),
                                    Some(active) => {
                                        let args = match lookup(ps, "exec_args"@) {
                                            Some(x) => words(x),
                                            None => seq![],
                                        };
                                        if !comps_prefix(
                                            normalized(dir, false),
                                            normalized(exe, false),
                                        ) {
                                            Err(CfgErr::NotWithin(exe, dir))
                                        } else {
                                            Ok(
                                                ConfigView {
                                                    proc_name: name,
                                                    exec_dir: dir,
                                                    exec_name: exe,
                                                    exec_args: args,
                                                    active: active,
                                                    extra: Map::empty(),
                                                },
                                            )
                                        }
                                    },
                                },
                            }
                        },
                    },
                },
            },
        },
    }
}

/// Validates the argument of a `start` request and builds the process
/// configuration it describes.
pub fn verify_start_config(raw: &str) -> (r: Result<PmProcessConfig, ConfigError>)
    ensures
        match verify_start_spec(raw@) {
            Ok(c) => r matches Ok(x) && x@ == c,
            Err(e) => r matches Err(f) && f@ == e,
        },
{
    let q = strip_wrappers(&trimmed(&chars_of(raw)));
    let params = parse_query(&q)?;
    let proc_name = get_required(&params, "proc_name")?;
    validate_proc_name(proc_name.as_str())?;
    let exec_dir = get_required(&params, "exec_dir")?;
    let exec_name = get_required(&params, "exec_name")?;
    validate_absolute_path("exec_dir", exec_dir.as_str())?;
    validate_absolute_path("exec_name", exec_name.as_str())?;
    let active_raw = get_required(&params, "active")?;
    let active = parse_bool01(active_raw.as_str())?;
    let exec_args = match lookup_param(&params, &chars_of("exec_args")) {
        Some(i) => split_args_simple(params[i].1.as_str()),
        None => Vec::new(),
    };
    if !path_is_within(exec_name.as_str(), exec_dir.as_str()) {
        return Err(
            ConfigError::NotWithin(
                string_of(&chars_of(exec_name.as_str())),
                string_of(&chars_of(exec_dir.as_str())),
            ),
        );
    }
    let r = PmProcessConfig {
        proc_name,
        exec_dir,
        exec_name,
        exec_args,
        active,
        extra: Vec::new(),
    };
    proof {
        assert(crate::pm3_config::pairs_view(r.extra@) =~= Seq::<(Seq<char>, Seq<char>)>::empty());
        crate::pm3_config::lemma_pairs_map_empty();
        if lookup(params_view(params@), "exec_args"@) is None {
            assert(crate::pm3_config::strings_view(r.exec_args@) =~= Seq::<Seq<char>>::empty());
        }
    }
    Ok(r)
}


// ---------------------------------------------------------------------------
// Percent-encoding, read back.
// ---------------------------------------------------------------------------

/// The bytes of ASCII characters.
pub open spec fn ascii_bytes(cs: Seq<char>) -> Seq<u8> {
    Seq::new(cs.len(), |i: int| cs[i] as u8)
}

proof fn lemma_hex_digit(d: u8)
    requires
        d < 16,
    ensures
        hex_digit(d) as u8 as nat == hex_digit(d) as nat,
        (hex_digit(d) as nat) < 128,
        hex_val(hex_digit(d) as u8) == Some(d),
{
}

proof fn lemma_enc_byte_ascii(b: u8)
    ensures
        is_ascii_chars(enc_byte(b)),
        ascii_bytes(enc_byte(b)).len() >= 1,
        is_unreserved(b) ==> ascii_bytes(enc_byte(b)) == seq![b],
        !is_unreserved(b) ==> ascii_bytes(enc_byte(b)) == seq![37u8, hex_digit(b / 16) as u8, hex_digit(b % 16) as u8],
{
    lemma_hex_digit(b / 16);
    lemma_hex_digit(b % 16);
    if is_unreserved(b) {
        assert(ascii_bytes(enc_byte(b)) =~= seq![b]);
    } else {
        assert(ascii_bytes(enc_byte(b)) =~= seq![37u8, hex_digit(b / 16) as u8, hex_digit(b % 16) as u8]);
    }
}

proof fn lemma_pct_enc_cons(b: Seq<u8>)
    requires
        b.len() > 0,
    ensures
        pct_enc(b) == enc_byte(b[0]) + pct_enc(b.drop_first()),
    decreases b.len(),
{
    lemma_pct_enc_snoc(b);
    if b.len() == 1 {
        lemma_pct_enc_snoc(b.drop_last());
        lemma_pct_enc_snoc(b.drop_first());
        assert(b.drop_last() =~= Seq::<u8>::empty());
        assert(b.drop_first() =~= Seq::<u8>::empty());
        assert(pct_enc(b) =~= enc_byte(b[0]) + pct_enc(b.drop_first()));
    } else {
        lemma_pct_enc_cons(b.drop_last());
        lemma_pct_enc_snoc(b.drop_first());
        assert(b.drop_last().drop_first() =~= b.drop_first().drop_last());
        assert(b.drop_first().last() == b.last());
        assert(b.drop_last()[0] == b[0]);
        assert(pct_enc(b) =~= enc_byte(b[0]) + pct_enc(b.drop_first()));
    }
}

proof fn lemma_pct_enc_ascii(b: Seq<u8>)
    ensures
        is_ascii_chars(pct_enc(b)),
    decreases b.len(),
{
    lemma_pct_enc_snoc(b);
    if b.len() > 0 {
        lemma_pct_enc_ascii(b.drop_last());
        lemma_enc_byte_ascii(b.last());
        let x = pct_enc(b.drop_last());
        let y = enc_byte(b.last());
        assert forall|i: int| 0 <= i < (x + y).len() implies '\0' <= #[trigger] (x + y)[i] <= '\u{7f}' by {
            if i < x.len() {
                assert((x + y)[i] == x[i]);
            } else {
                assert((x + y)[i] == y[i - x.len()]);
            }
        }
    }
}

proof fn lemma_url_dec_pct(b: Seq<u8>)
    ensures
        url_dec_bytes(ascii_bytes(pct_enc(b))) == Ok::<Seq<u8>, Option<u8>>(b),
    decreases b.len(),
{
    reveal(url_dec_bytes);
    if b.len() == 0 {
        lemma_pct_enc_snoc(b);
        assert(ascii_bytes(pct_enc(b)) =~= Seq::<u8>::empty());
    } else {
        lemma_pct_enc_cons(b);
        lemma_enc_byte_ascii(b[0]);
        lemma_url_dec_pct(b.drop_first());
        let e = enc_byte(b[0]);
        let rest = pct_enc(b.drop_first());
        let x = ascii_bytes(pct_enc(b));
        assert(x =~= ascii_bytes(e) + ascii_bytes(rest));
        if is_unreserved(b[0]) {
            assert(x[0] == b[0]);
            assert(x.skip(1) =~= ascii_bytes(rest));
            assert(seq![b[0]] + b.drop_first() =~= b);
        } else {
            assert(x[0] == 37u8);
            assert(x[1] == hex_digit(b[0] / 16) as u8);
            assert(x[2] == hex_digit(b[0] % 16) as u8);
            lemma_hex_digit(b[0] / 16);
            lemma_hex_digit(b[0] % 16);
            assert(x.skip(3) =~= ascii_bytes(rest));
            assert(((b[0] / 16) * 16 + b[0] % 16) as u8 == b[0]);
            assert(seq![b[0]] + b.drop_first() =~= b);
        }
    }
}

/// What percent-encoding writes, percent-decoding reads back: the values
/// that the client encodes into a start request are, once the daemon
/// decodes them, the same text.
pub proof fn lemma_url_decode_percent_encoded(s: Seq<char>)
    ensures
        url_decode_spec(pct_enc_str(s)) == Ok::<Seq<char>, CfgErr>(s),
{
    let b = encode_utf8(s);
    let e = pct_enc(b);
    lemma_pct_enc_ascii(b);
    is_ascii_chars_encode_utf8(e);
    assert(encode_utf8(e) =~= ascii_bytes(e));
    lemma_url_dec_pct(b);
    encode_utf8_valid_utf8(s);
    encode_utf8_decode_utf8(s);
}


// ---------------------------------------------------------------------------
// The `start` request that the client sends, read by the validator.
// ---------------------------------------------------------------------------

/// The characters that percent-encoding writes: safe characters and `%`.
pub open spec fn pct_char(c: char) -> bool {
    safe_char(c) || c == '%'
}

proof fn lemma_pct_chars(b: Seq<u8>)
    ensures
        forall|i: int| 0 <= i < pct_enc(b).len() ==> pct_char(#[trigger] pct_enc(b)[i]),
    decreases b.len(),
{
    lemma_pct_enc_snoc(b);
    if b.len() > 0 {
        lemma_pct_chars(b.drop_last());
        let x = pct_enc(b.drop_last());
        let y = enc_byte(b.last());
        lemma_hex_digit(b.last() / 16);
        lemma_hex_digit(b.last() % 16);
        assert forall|i: int| 0 <= i < y.len() implies pct_char(#[trigger] y[i]) by {
            if is_unreserved(b.last()) {
                assert(y[i] == b.last() as char);
            } else if i == 1 {
                assert(y[i] == hex_digit(b.last() / 16));
            } else if i == 2 {
                assert(y[i] == hex_digit(b.last() % 16));
            }
        }
        assert forall|i: int| 0 <= i < (x + y).len() implies pct_char(#[trigger] (x + y)[i]) by {
            if i < x.len() {
                assert((x + y)[i] == x[i]);
            } else {
                assert((x + y)[i] == y[i - x.len()]);
            }
        }
    }
}

/// A piece `key=value` of the query, the value percent-encoded.
pub open spec fn qpiece(k: Seq<char>, v: Seq<char>) -> Seq<char> {
    k + seq!['='] + pct_enc_str(v)
}

/// The characters of a piece are safe characters, `%` and one `=`.
proof fn lemma_qpiece_chars(k: Seq<char>, v: Seq<char>)
    requires
        url_safe(k),
    ensures
        forall|i: int| 0 <= i < qpiece(k, v).len() ==> pct_char(#[trigger] qpiece(k, v)[i]) || qpiece(k, v)[i] == '=',
        lacks(qpiece(k, v), '&'),
{
    let p = qpiece(k, v);
    let e = pct_enc_str(v);
    lemma_pct_chars(encode_utf8(v));
    assert forall|i: int| 0 <= i < p.len() implies pct_char(#[trigger] p[i]) || p[i] == '=' by {
        if i < k.len() {
            assert(p[i] == k[i]);
            assert(safe_char(k[i]));
        } else if i > k.len() {
            assert(p[i] == e[i - k.len() - 1]);
        }
    }
    reveal(lacks);
    assert forall|i: int| 0 <= i < p.len() implies p[i] != '&' by {
        assert(pct_char(p[i]) || p[i] == '=');
    }
}

proof fn lemma_query_from_snoc(acc: Seq<(Seq<char>, Seq<char>)>, ps: Seq<Seq<char>>, p: Seq<char>)
    ensures
        query_from(acc, ps.push(p)) == match query_from(acc, ps) {
            Err(e) => Err(e),
            Ok(a) => query_step(a, p),
        },
    decreases ps.len(),
{
    lemma_query_from_cons(acc, ps.push(p));
    lemma_query_from_cons(acc, ps);
    if ps.len() == 0 {
        assert(ps.push(p).drop_first() =~= Seq::<Seq<char>>::empty());
        assert(ps.push(p)[0] == p);
        match query_step(acc, p) {
            Err(_) => {},
            Ok(a) => {
                lemma_query_from_cons(a, Seq::<Seq<char>>::empty());
            },
        }
    } else {
        assert(ps.push(p).drop_first() =~= ps.drop_first().push(p));
        assert(ps.push(p)[0] == ps[0]);
        match query_step(acc, ps[0]) {
            Err(_) => {},
            Ok(a) => {
                lemma_query_from_snoc(a, ps.drop_first(), p);
            },
        }
    }
}

proof fn lemma_qpiece_parts(k: Seq<char>, v: Seq<char>)
    requires
        url_safe(k),
    ensures
        pair_parts(qpiece(k, v)) == (k, pct_enc_str(v)),
        qpiece(k, v).len() > 0,
{
    let p = qpiece(k, v);
    assert forall|j: int| 0 <= j < k.len() implies p[j] != '=' by {
        assert(p[j] == k[j]);
        assert(safe_char(k[j]));
    }
    lemma_first_index_at(p, '=', k.len() as int);
    assert(p.take(k.len() as int) =~= k);
    assert(p.skip(k.len() as int + 1) =~= pct_enc_str(v));
}

proof fn lemma_url_decode_safe(k: Seq<char>)
    requires
        url_safe(k),
    ensures
        url_decode_spec(k) == Ok::<Seq<char>, CfgErr>(k),
{
    lemma_pct_safe(k);
    lemma_url_decode_percent_encoded(k);
}

/// Reading a piece with a safe, non-empty key: the pair is added unless the
/// key is already there.
proof fn lemma_query_step_kv(acc: Seq<(Seq<char>, Seq<char>)>, k: Seq<char>, v: Seq<char>)
    requires
        url_safe(k),
        k.len() > 0,
    ensures
        query_step(acc, qpiece(k, v)) == if lookup(acc, k) is Some {
            Err::<Seq<(Seq<char>, Seq<char>)>, CfgErr>(CfgErr::DuplicateKey(k))
        } else {
            Ok(acc.push((k, v)))
        },
{
    lemma_qpiece_parts(k, v);
    lemma_url_decode_safe(k);
    lemma_url_decode_percent_encoded(v);
}

proof fn lemma_lookup_empty(k: Seq<char>)
    ensures
        lookup(Seq::<(Seq<char>, Seq<char>)>::empty(), k) is None,
{
    reveal(lookup);
}


/// The keys of a start request and the values of its `active` flag.
proof fn lemma_start_keys()
    ensures
        url_safe("proc_name"@) && "proc_name"@.len() > 0 && "proc_name"@[0] == 'p',
        url_safe("exec_dir"@) && "exec_dir"@.len() > 0,
        url_safe("exec_name"@) && "exec_name"@.len() > 0,
        url_safe("active"@) && "active"@.len() > 0,
        url_safe("args"@) && "args"@.len() > 0,
        "exec_dir"@ != "proc_name"@,
        "exec_name"@ != "proc_name"@ && "exec_name"@ != "exec_dir"@,
        "active"@ != "proc_name"@ && "active"@ != "exec_dir"@ && "active"@ != "exec_name"@,
        "args"@ != "proc_name"@ && "args"@ != "exec_dir"@ && "args"@ != "exec_name"@ && "args"@
            != "active"@,
        "exec_args"@ != "proc_name"@ && "exec_args"@ != "exec_dir"@ && "exec_args"@ != "exec_name"@
            && "exec_args"@ != "active"@ && "exec_args"@ != "args"@,
        parse_bool01_spec("1"@) == Some(true),
        parse_bool01_spec("0"@) == Some(false),
        url_safe("1"@) && url_safe("0"@),
{
    reveal_strlit("proc_name");
    reveal_strlit("exec_dir");
    reveal_strlit("exec_name");
    reveal_strlit("active");
    reveal_strlit("args");
    reveal_strlit("exec_args");
    reveal_strlit("1");
    reveal_strlit("0");
    reveal_strlit("true");
    reveal_strlit("yes");
    reveal_strlit("on");
    assert("exec_dir"@[5] != "exec_name"@[5]);
    assert("exec_name"@[0] != "proc_name"@[0]);
    assert("exec_args"@[0] != "proc_name"@[0]);
    assert("exec_args"@[5] != "exec_dir"@[5]);
    assert("exec_args"@[5] != "exec_name"@[5]);
    assert("args"@[0] != "active"@[1]);
    assert("args"@[1] != "active"@[1]);
    lemma_trim_id("1"@);
    lemma_trim_id("0"@);
    assert(ascii_lower_str("1"@) =~= "1"@);
    assert(ascii_lower_str("0"@) =~= "0"@);
    assert("0"@[0] != "1"@[0]);
}

/// The text of the `active` flag in a start request.
pub open spec fn active_text(a: bool) -> Seq<char> {
    if a {
        "1"@
    } else {
        "0"@
    }
}

/// The arguments as the client sends them, joined with spaces, when there
/// are any.
pub open spec fn sent_args(c: crate::cli::NewProcessConfig) -> Option<Seq<char>> {
    if c.exec_args@.len() > 0 {
        Some(join_sep(crate::pm3_config::strings_view(c.exec_args@), seq![' ']))
    } else {
        None
    }
}

/// The pairs that the validator reads from the client's query, in order.
pub open spec fn start_pairs(c: crate::cli::NewProcessConfig) -> Seq<(Seq<char>, Seq<char>)> {
    let ps = Seq::<(Seq<char>, Seq<char>)>::empty().push(("proc_name"@, c.proc_name@)).push(
        ("exec_dir"@, c.exec_dir@),
    ).push(("exec_name"@, c.exec_name@)).push(("active"@, active_text(c.active)));
    match sent_args(c) {
        Some(j) => ps.push(("args"@, j)),
        None => ps,
    }
}


/// A character of the client's query: written by percent-encoding, or one
/// of the separators `&` and `=`.
pub open spec fn query_char(c: char) -> bool {
    pct_char(c) || c == '&' || c == '='
}

proof fn lemma_query_chars_append(a: Seq<char>, k: Seq<char>, v: Seq<char>)
    requires
        forall|i: int| 0 <= i < a.len() ==> query_char(#[trigger] a[i]),
        url_safe(k),
    ensures
        forall|i: int| 0 <= i < (a + seq!['&'] + qpiece(k, v)).len() ==> query_char(
            #[trigger] (a + seq!['&'] + qpiece(k, v))[i],
        ),
{
    let p = qpiece(k, v);
    let t = a + seq!['&'] + p;
    lemma_qpiece_chars(k, v);
    assert forall|i: int| 0 <= i < t.len() implies query_char(#[trigger] t[i]) by {
        if i < a.len() {
            assert(t[i] == a[i]);
        } else if i > a.len() {
            assert(t[i] == p[i - a.len() - 1]);
            assert(pct_char(p[i - a.len() - 1]) || p[i - a.len() - 1] == '=');
        }
    }
}

/// One more `&key=value` piece read from the query.
proof fn lemma_query_append(
    a: Seq<char>,
    ps: Seq<(Seq<char>, Seq<char>)>,
    k: Seq<char>,
    v: Seq<char>,
)
    requires
        query_from(seq![], split_char(a, '&')) == Ok::<Seq<(Seq<char>, Seq<char>)>, CfgErr>(ps),
        lookup(ps, k) is None,
        url_safe(k),
        k.len() > 0,
    ensures
        query_from(seq![], split_char(a + seq!['&'] + qpiece(k, v), '&')) == Ok::<
            Seq<(Seq<char>, Seq<char>)>,
            CfgErr,
        >(ps.push((k, v))),
{
    lemma_qpiece_chars(k, v);
    lemma_split_char_snoc(a, qpiece(k, v), '&');
    lemma_query_from_snoc(seq![], split_char(a, '&'), qpiece(k, v));
    lemma_query_step_kv(ps, k, v);
}

/// The first four pieces of the client's query, and the pairs read from them.
pub open spec fn base_query(name: Seq<char>, dir: Seq<char>, exe: Seq<char>, a: Seq<char>) -> Seq<char> {
    qpiece("proc_name"@, name) + seq!['&'] + qpiece("exec_dir"@, dir) + seq!['&'] + qpiece(
        "exec_name"@,
        exe,
    ) + seq!['&'] + qpiece("active"@, a)
}

pub open spec fn base_pairs(name: Seq<char>, dir: Seq<char>, exe: Seq<char>, a: Seq<char>) -> Seq<
    (Seq<char>, Seq<char>),
> {
    Seq::<(Seq<char>, Seq<char>)>::empty().push(("proc_name"@, name)).push(("exec_dir"@, dir)).push(
        ("exec_name"@, exe),
    ).push(("active"@, a))
}

/// Looking a key up in the four pairs.
proof fn lemma_base_lookup(name: Seq<char>, dir: Seq<char>, exe: Seq<char>, a: Seq<char>, k: Seq<char>)
    ensures
        lookup(base_pairs(name, dir, exe, a), k) == if k == "proc_name"@ {
            Some(name)
        } else if k == "exec_dir"@ {
            Some(dir)
        } else if k == "exec_name"@ {
            Some(exe)
        } else if k == "active"@ {
            Some(a)
        } else {
            None
        },
{
    let e = Seq::<(Seq<char>, Seq<char>)>::empty();
    let p1 = e.push(("proc_name"@, name));
    let p2 = p1.push(("exec_dir"@, dir));
    let p3 = p2.push(("exec_name"@, exe));
    lemma_lookup_empty(k);
    lemma_lookup_push(e, ("proc_name"@, name), k);
    lemma_lookup_push(p1, ("exec_dir"@, dir), k);
    lemma_lookup_push(p2, ("exec_name"@, exe), k);
    lemma_lookup_push(p3, ("active"@, a), k);
}

proof fn lemma_base_query(name: Seq<char>, dir: Seq<char>, exe: Seq<char>, a: Seq<char>)
    ensures
        query_from(seq![], split_char(base_query(name, dir, exe, a), '&')) == Ok::<
            Seq<(Seq<char>, Seq<char>)>,
            CfgErr,
        >(base_pairs(name, dir, exe, a)),
        forall|i: int| 0 <= i < base_query(name, dir, exe, a).len() ==> query_char(
            #[trigger] base_query(name, dir, exe, a)[i],
        ),
        base_query(name, dir, exe, a)[0] == 'p',
{
    let k1 = "proc_name"@;
    let k2 = "exec_dir"@;
    let k3 = "exec_name"@;
    let k4 = "active"@;
    assert(url_safe(k1) && k1.len() > 0 && k1[0] == 'p' && url_safe(k2) && k2.len() > 0 && url_safe(
        k3,
    ) && k3.len() > 0 && url_safe(k4) && k4.len() > 0 && k2 != k1 && k3 != k1 && k3 != k2 && k4
        != k1 && k4 != k2 && k4 != k3) by {
        lemma_start_keys();
    }
    let e = Seq::<(Seq<char>, Seq<char>)>::empty();
    let q1 = qpiece(k1, name);
    let ps1 = e.push((k1, name));
    assert(query_from(seq![], split_char(q1, '&')) == Ok::<Seq<(Seq<char>, Seq<char>)>, CfgErr>(ps1)) by {
        lemma_qpiece_chars(k1, name);
        lemma_split_char_none(q1, '&');
        lemma_query_from_cons(e, seq![q1]);
        lemma_query_from_cons(ps1, seq![q1].drop_first());
        lemma_lookup_empty(k1);
        lemma_query_step_kv(e, k1, name);
    }
    assert forall|i: int| 0 <= i < q1.len() implies query_char(#[trigger] q1[i]) by {
        lemma_qpiece_chars(k1, name);
        assert(pct_char(q1[i]) || q1[i] == '=');
    }
    let q2 = q1 + seq!['&'] + qpiece(k2, dir);
    let ps2 = ps1.push((k2, dir));
    assert(query_from(seq![], split_char(q2, '&')) == Ok::<Seq<(Seq<char>, Seq<char>)>, CfgErr>(ps2)) by {
        lemma_lookup_push(e, (k1, name), k2);
        lemma_lookup_empty(k2);
        lemma_query_append(q1, ps1, k2, dir);
    }
    lemma_query_chars_append(q1, k2, dir);
    let q3 = q2 + seq!['&'] + qpiece(k3, exe);
    let ps3 = ps2.push((k3, exe));
    assert(query_from(seq![], split_char(q3, '&')) == Ok::<Seq<(Seq<char>, Seq<char>)>, CfgErr>(ps3)) by {
        lemma_base_lookup(name, dir, exe, a, k3);
        lemma_lookup_push(ps1, (k2, dir), k3);
        lemma_lookup_push(e, (k1, name), k3);
        lemma_lookup_empty(k3);
        lemma_query_append(q2, ps2, k3, exe);
    }
    lemma_query_chars_append(q2, k3, exe);
    let q4 = q3 + seq!['&'] + qpiece(k4, a);
    assert(query_from(seq![], split_char(q4, '&')) == Ok::<Seq<(Seq<char>, Seq<char>)>, CfgErr>(
        ps3.push((k4, a)),
    )) by {
        lemma_lookup_push(ps2, (k3, exe), k4);
        lemma_lookup_push(ps1, (k2, dir), k4);
        lemma_lookup_push(e, (k1, name), k4);
        lemma_lookup_empty(k4);
        lemma_query_append(q3, ps3, k4, a);
    }
    lemma_query_chars_append(q3, k4, a);
}

/// `parse_query` reads back the query that the client builds for a new
/// process: it succeeds, and gives the name, the directory, the executable,
/// the active flag as `1` or `0` and, when there are any, the arguments
/// joined with spaces, in that order and decoded. The query is made of
/// percent-encoded text and the separators `&` and `=`, and is never empty.
pub proof fn lemma_start_query(c: crate::cli::NewProcessConfig)
    ensures
        parse_query_spec(c.url_encoded_spec()) == Ok::<Seq<(Seq<char>, Seq<char>)>, CfgErr>(
            start_pairs(c),
        ),
        forall|i: int| 0 <= i < c.url_encoded_spec().len() ==> query_char(
            #[trigger] c.url_encoded_spec()[i],
        ),
        c.url_encoded_spec().len() > 0,
{
    let name = c.proc_name@;
    let dir = c.exec_dir@;
    let exe = c.exec_name@;
    let a = active_text(c.active);
    let q4 = base_query(name, dir, exe, a);
    let ps4 = base_pairs(name, dir, exe, a);
    lemma_base_query(name, dir, exe, a);
    let q = c.url_encoded_spec();
    assert(crate::cli::kv(true, "proc_name"@, name) + crate::cli::kv(false, "exec_dir"@, dir)
        + crate::cli::kv(false, "exec_name"@, exe) + crate::cli::kv(false, "active"@, a) =~= q4);
    match sent_args(c) {
        Some(j) => {
            assert(url_safe("args"@) && "args"@.len() > 0) by {
                lemma_start_keys();
            }
            assert(lookup(ps4, "args"@) is None) by {
                lemma_start_keys();
                lemma_base_lookup(name, dir, exe, a, "args"@);
            }
            lemma_query_append(q4, ps4, "args"@, j);
            lemma_query_chars_append(q4, "args"@, j);
            let q5 = q4 + seq!['&'] + qpiece("args"@, j);
            assert(q =~= q5);
            assert(q5[0] == 'p');
            assert(query_char(q5.last()));
            lemma_trim_id(q5);
        },
        None => {
            assert(q =~= q4);
            assert(query_char(q4.last()));
            lemma_trim_id(q4);
        },
    }
}


/// The checks of a start request once its parameters are read: the name,
/// that both paths are absolute, and that the executable lies within the
/// directory.
pub open spec fn start_fields_check(name: Seq<char>, dir: Seq<char>, exe: Seq<char>, active: bool) -> Result<
    ConfigView,
    CfgErr,
> {
    match proc_name_check(name) {
        Some(e) => Err(e),
        None => if !is_absolute(dir) {
            Err(CfgErr::NotAbsolute("exec_dir"@, dir))
        } else if !is_absolute(exe) {
            Err(CfgErr::NotAbsolute("exec_name"@, exe))
        } else if !comps_prefix(normalized(dir, false), normalized(exe, false)) {
            Err(CfgErr::NotWithin(exe, dir))
        } else {
            Ok(
                ConfigView {
                    proc_name: name,
                    exec_dir: dir,
                    exec_name: exe,
                    exec_args: seq![],
                    active: active,
                    extra: Map::empty(),
                },
            )
        },
    }
}

/// The argument of the client's `start` command: its query in double quotes.
pub open spec fn quoted_query(c: crate::cli::NewProcessConfig) -> Seq<char> {
    seq!['"'] + c.url_encoded_spec() + seq!['"']
}

proof fn lemma_start_lookups(c: crate::cli::NewProcessConfig, k: Seq<char>)
    ensures
        lookup(start_pairs(c), k) == if k == "proc_name"@ {
            Some(c.proc_name@)
        } else if k == "exec_dir"@ {
            Some(c.exec_dir@)
        } else if k == "exec_name"@ {
            Some(c.exec_name@)
        } else if k == "active"@ {
            Some(active_text(c.active))
        } else if k == "args"@ && sent_args(c) is Some {
            sent_args(c)
        } else {
            None
        },
{
    let ps4 = base_pairs(c.proc_name@, c.exec_dir@, c.exec_name@, active_text(c.active));
    lemma_base_lookup(c.proc_name@, c.exec_dir@, c.exec_name@, active_text(c.active), k);
    assert("args"@ != "proc_name"@ && "args"@ != "exec_dir"@ && "args"@ != "exec_name"@ && "args"@
        != "active"@) by {
        lemma_start_keys();
    }
    if let Some(j) = sent_args(c) {
        lemma_lookup_push(ps4, ("args"@, j), k);
    }
}

/// The validator reads the client's quoted query back as the name,
/// directory, executable and active flag that the client described, and
/// checks them; the arguments go under the key `args`, which it does not
/// read, so the configuration it makes has none.
pub proof fn lemma_start_validated(c: crate::cli::NewProcessConfig)
    ensures
        verify_start_spec(quoted_query(c)) == start_fields_check(
            c.proc_name@,
            c.exec_dir@,
            c.exec_name@,
            c.active,
        ),
{
    let q = c.url_encoded_spec();
    let s = quoted_query(c);
    lemma_start_query(c);
    assert(!is_ws(s[0]) && !is_ws(s.last()));
    lemma_trim_id(s);
    assert(s.subrange(1, s.len() - 1) =~= q);
    assert(strip_wrappers_spec(trim(s)) == q);
    lemma_start_lookups(c, "proc_name"@);
    lemma_start_lookups(c, "exec_dir"@);
    lemma_start_lookups(c, "exec_name"@);
    lemma_start_lookups(c, "active"@);
    lemma_start_lookups(c, "exec_args"@);
    assert(parse_bool01_spec(active_text(c.active)) == Some(c.active) && "exec_args"@ != "proc_name"@
        && "exec_args"@ != "exec_dir"@ && "exec_args"@ != "exec_name"@ && "exec_args"@ != "active"@
        && "exec_args"@ != "args"@ && "exec_dir"@ != "proc_name"@ && "exec_name"@ != "proc_name"@
        && "exec_name"@ != "exec_dir"@ && "active"@ != "proc_name"@ && "active"@ != "exec_dir"@
        && "active"@ != "exec_name"@) by {
        lemma_start_keys();
    }
}

} // verus!
