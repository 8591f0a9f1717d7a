//! Text helpers shared by the whole crate: Unicode whitespace, trimming and
//! splitting on character sequences, decimal formatting and parsing, and the
//! few std conversions between `str`, `String`, characters and bytes.
use vstd::prelude::*;
use vstd::utf8::*;

verus! {

broadcast use vstd::seq_lib::group_seq_properties;

// ---------------------------------------------------------------------------
// Conversions provided by std.
// ---------------------------------------------------------------------------

/// The characters of a string slice.
pub(crate) fn chars_of(s: &str) -> (r: Vec<char>)
    ensures
        r@ == s@,
{
    broadcast use vstd::string::axiom_spec_iter;
    let mut out: Vec<char> = Vec::new();
    for c in it: s.chars()
        invariant
            out@.len() == it.index(),
            forall|i: int| 0 <= i < out@.len() ==> out@[i] == it.seq()[i],
    {
        out.push(c);
    }
    assert(out@ =~= s@);
    out
}

/// `String::push`: the character is added at the end.
#[verifier::external_body]
fn string_push(s: &mut String, c: char)
    ensures
        final(s)@ == old(s)@.push(c),
{
    s.push(c)
}

/// A `String` of the characters.
pub(crate) fn string_of(v: &[char]) -> (r: String)
    ensures
        r@ == v@,
{
    let mut out = String::new();
    let mut i: usize = 0;
    while i < v.len()
        invariant
            i <= v@.len(),
            out@ == v@.take(i as int),
        decreases v.len() - i,
    {
        string_push(&mut out, v[i]);
        assert(v@.take(i + 1) =~= v@.take(i as int).push(v@[i as int]));
        i = i + 1;
    }
    assert(v@.take(v@.len() as int) =~= v@);
    out
}

/// Whether `u` is where the valid UTF-8 of the bytes ends: the first `u`
/// bytes are valid UTF-8 and no longer prefix is.
pub open spec fn is_valid_up_to(b: Seq<u8>, u: int) -> bool {
    &&& 0 <= u <= b.len()
    &&& valid_utf8(b.take(u))
    &&& forall|j: int| u < j <= b.len() ==> !valid_utf8(#[trigger] b.take(j))
}

/// The length of the longest prefix of the bytes that is valid UTF-8.
pub open spec fn utf8_valid_up_to(b: Seq<u8>) -> int {
    choose|u: int| is_valid_up_to(b, u)
}

/// There is only one such length.
pub proof fn lemma_valid_up_to_unique(b: Seq<u8>, u: int)
    requires
        is_valid_up_to(b, u),
    ensures
        utf8_valid_up_to(b) == u,
{
    let w = utf8_valid_up_to(b);
    assert(is_valid_up_to(b, w));
    if w < u {
        assert(!valid_utf8(b.take(u)));
    } else if w > u {
        assert(!valid_utf8(b.take(w)));
    }
}

/// Whether the bytes are a proper, non-empty beginning of the UTF-8
/// encoding of some character.
pub open spec fn cut_char(t: Seq<u8>) -> bool {
    exists|c: char|
        0 < t.len() < encode_utf8(seq![c]).len() && #[trigger] encode_utf8(seq![c]).take(
            t.len() as int,
        ) == t
}

/// The length of the invalid sequence that `String::from_utf8` reports for
/// some bytes (`Utf8Error::error_len`).
pub uninterp spec fn utf8_error_len(bytes: Seq<u8>) -> Option<nat>;

/// `String::from_utf8`: succeeds exactly when the bytes are valid UTF-8, and
/// then holds the characters they encode. On failure it hands back what the
/// error reports (`utf8_error().valid_up_to()` and `.error_len()`): the
/// length of the longest valid prefix, and the length of the invalid
/// sequence after it, 1 to 3 bytes, or none exactly when the bytes end
/// inside the encoding of a character.
#[verifier::external_body]
pub(crate) fn string_from_utf8(v: Vec<u8>) -> (r: Result<String, (usize, Option<usize>)>)
    ensures
        r is Ok <==> valid_utf8(v@),
        r matches Ok(s) ==> s@ == decode_utf8(v@),
        r matches Err(e) ==> is_valid_up_to(v@, e.0 as int),
        r matches Err(e) ==> utf8_error_len(v@) == match e.1 {
            Some(n) => Some(n as nat),
            None => None::<nat>,
        },
        r matches Err(e) ==> (e.1 is None <==> cut_char(v@.skip(e.0 as int))),
        r matches Err(e) ==> (e.1 matches Some(n) ==> 1 <= n <= 3 && e.0 + n <= v@.len()),
{
    String::from_utf8(v).map_err(|e| (e.utf8_error().valid_up_to(), e.utf8_error().error_len()))
}

/// The characters that `String::from_utf8_lossy` produces from some bytes.
pub uninterp spec fn utf8_lossy(bytes: Seq<u8>) -> Seq<char>;

/// `String::from_utf8_lossy`: the result is a function of the bytes alone,
/// and on valid UTF-8 it is the decoded text. What it holds for invalid
/// input (replacement characters) is not stated.
#[verifier::external_body]
pub(crate) fn string_from_utf8_lossy(v: &[u8]) -> (r: String)
    ensures
        r@ == utf8_lossy(v@),
        valid_utf8(v@) ==> r@ == decode_utf8(v@),
{
    String::from_utf8_lossy(v).into_owned()
}

/// The text that lossy decoding gives: the decoded text for valid UTF-8,
/// else what `String::from_utf8_lossy` makes of the bytes.
pub open spec fn lossy_text(bytes: Seq<u8>) -> Seq<char> {
    if valid_utf8(bytes) {
        decode_utf8(bytes)
    } else {
        utf8_lossy(bytes)
    }
}

// ---------------------------------------------------------------------------
// Whitespace, trimming and splitting.
// ---------------------------------------------------------------------------

/// Unicode `White_Space`, the set that `char::is_whitespace` tests.
pub open spec fn is_ws(c: char) -> bool {
    ||| c == '\t'
    ||| c == '\n'
    ||| c == '\u{b}'
    ||| c == '\u{c}'
    ||| c == '\r'
    ||| c == ' '
    ||| c == '\u{85}'
    ||| c == '\u{a0}'
    ||| c == '\u{1680}'
    ||| ('\u{2000}' <= c && c <= '\u{200a}')
    ||| c == '\u{2028}'
    ||| c == '\u{2029}'
    ||| c == '\u{202f}'
    ||| c == '\u{205f}'
    ||| c == '\u{3000}'
}

pub fn is_whitespace(c: char) -> (r: bool)
    ensures
        r == is_ws(c),
{
    c == '\t' || c == '\n' || c == '\u{b}' || c == '\u{c}' || c == '\r' || c == ' ' || c
        == '\u{85}' || c == '\u{a0}' || c == '\u{1680}' || ('\u{2000}' <= c && c <= '\u{200a}')
        || c == '\u{2028}' || c == '\u{2029}' || c == '\u{202f}' || c == '\u{205f}' || c
        == '\u{3000}'
}

/// `str::trim_start`.
pub open spec fn trim_start(s: Seq<char>) -> Seq<char>
    decreases s.len(),
{
    if s.len() > 0 && is_ws(s[0]) {
        trim_start(s.drop_first())
    } else {
        s
    }
}

/// `str::trim_end`.
pub open spec fn trim_end(s: Seq<char>) -> Seq<char>
    decreases s.len(),
{
    if s.len() > 0 && is_ws(s.last()) {
        trim_end(s.drop_last())
    } else {
        s
    }
}

/// `str::trim`.
pub open spec fn trim(s: Seq<char>) -> Seq<char> {
    trim_end(trim_start(s))
}

/// Number of leading characters that are not whitespace.
pub open spec fn word_len(s: Seq<char>) -> nat
    decreases s.len(),
{
    if s.len() > 0 && !is_ws(s[0]) {
        1 + word_len(s.drop_first())
    } else {
        0
    }
}

pub proof fn lemma_word_len_bound(s: Seq<char>)
    ensures
        word_len(s) <= s.len(),
        s.len() > 0 && !is_ws(s[0]) ==> word_len(s) >= 1,
        forall|i: int| 0 <= i < word_len(s) ==> !is_ws(#[trigger] s[i]),
        word_len(s) < s.len() ==> is_ws(s[word_len(s) as int]),
    decreases s.len(),
{
    if s.len() > 0 && !is_ws(s[0]) {
        lemma_word_len_bound(s.drop_first());
        assert forall|i: int| 0 <= i < word_len(s) implies !is_ws(#[trigger] s[i]) by {
            if i > 0 {
                assert(s[i] == s.drop_first()[i - 1]);
            }
        }
        if word_len(s) < s.len() {
            assert(s[word_len(s) as int] == s.drop_first()[word_len(s.drop_first()) as int]);
        }
    }
}

/// `str::split_whitespace`: the maximal runs of non-whitespace characters.
pub open spec fn words(s: Seq<char>) -> Seq<Seq<char>>
    decreases s.len(),
{
    if s.len() == 0 {
        seq![]
    } else if is_ws(s[0]) {
        words(s.drop_first())
    } else {
        let k = word_len(s);
        if 1 <= k <= s.len() {
            seq![s.take(k as int)] + words(s.skip(k as int))
        } else {
            seq![]
        }
    }
}

/// A word: some characters, none of them whitespace.
pub open spec fn plain_word(w: Seq<char>) -> bool {
    w.len() > 0 && forall|i: int| 0 <= i < w.len() ==> !is_ws(#[trigger] w[i])
}

proof fn lemma_word_len_of(w: Seq<char>, rest: Seq<char>)
    requires
        forall|i: int| 0 <= i < w.len() ==> !is_ws(#[trigger] w[i]),
        rest.len() == 0 || is_ws(rest[0]),
    ensures
        word_len(w + rest) == w.len(),
    decreases w.len(),
{
    if w.len() == 0 {
        assert(w + rest =~= rest);
    } else {
        assert((w + rest).drop_first() =~= w.drop_first() + rest);
        assert(!is_ws(w[0]));
        assert forall|i: int| 0 <= i < w.drop_first().len() implies !is_ws(#[trigger] w.drop_first()[i]) by {
            assert(w.drop_first()[i] == w[i + 1]);
        }
        lemma_word_len_of(w.drop_first(), rest);
    }
}

/// A word followed by whitespace (or nothing) is the first word.
pub proof fn lemma_words_word_then(w: Seq<char>, rest: Seq<char>)
    requires
        plain_word(w),
        rest.len() == 0 || is_ws(rest[0]),
    ensures
        words(w + rest) == seq![w] + words(rest),
{
    lemma_word_len_of(w, rest);
    let s = w + rest;
    assert(!is_ws(s[0]));
    assert(s.take(w.len() as int) =~= w);
    assert(s.skip(w.len() as int) =~= rest);
}

/// Leading whitespace makes no word.
pub proof fn lemma_words_ws_then(c: char, rest: Seq<char>)
    requires
        is_ws(c),
    ensures
        words(seq![c] + rest) == words(rest),
{
    assert((seq![c] + rest).drop_first() =~= rest);
}

pub proof fn lemma_join_sep_cons(ws: Seq<Seq<char>>, sep: Seq<char>)
    requires
        ws.len() > 1,
    ensures
        join_sep(ws, sep) == ws[0] + sep + join_sep(ws.drop_first(), sep),
    decreases ws.len(),
{
    lemma_join_sep_snoc(ws, sep);
    if ws.len() == 2 {
        lemma_join_sep_snoc(ws.drop_last(), sep);
        lemma_join_sep_snoc(ws.drop_first(), sep);
    } else {
        lemma_join_sep_cons(ws.drop_last(), sep);
        lemma_join_sep_snoc(ws.drop_first(), sep);
        assert(ws.drop_last().drop_first() =~= ws.drop_first().drop_last());
        assert(ws.drop_first().last() == ws.last());
        assert(ws.drop_last()[0] == ws[0]);
        assert(join_sep(ws, sep) =~= ws[0] + sep + join_sep(ws.drop_first(), sep));
    }
}

/// Every word of a text is a plain word.
pub proof fn lemma_words_plain(s: Seq<char>)
    ensures
        forall|i: int| 0 <= i < words(s).len() ==> plain_word(#[trigger] words(s)[i]),
    decreases s.len(),
{
    if s.len() == 0 {
    } else if is_ws(s[0]) {
        lemma_words_plain(s.drop_first());
        assert(words(s) == words(s.drop_first()));
    } else {
        let k = word_len(s);
        lemma_word_len_bound(s);
        assert(1 <= k <= s.len());
        lemma_words_plain(s.skip(k as int));
        let w = s.take(k as int);
        assert(plain_word(w)) by {
            assert forall|i: int| 0 <= i < w.len() implies !is_ws(#[trigger] w[i]) by {
                assert(w[i] == s[i]);
            }
        }
        let ws = words(s);
        assert(ws == seq![w] + words(s.skip(k as int)));
        assert forall|i: int| 0 <= i < ws.len() implies plain_word(#[trigger] ws[i]) by {
            if i > 0 {
                assert(ws[i] == words(s.skip(k as int))[i - 1]);
            }
        }
    }
}

/// Words joined with single spaces split back into the same words.
pub proof fn lemma_words_join(ws: Seq<Seq<char>>)
    requires
        forall|i: int| 0 <= i < ws.len() ==> plain_word(#[trigger] ws[i]),
    ensures
        words(join_sep(ws, seq![' '])) == ws,
    decreases ws.len(),
{
    lemma_join_sep_snoc(ws, seq![' ']);
    if ws.len() == 0 {
    } else if ws.len() == 1 {
        lemma_words_word_then(ws[0], seq![]);
        assert(ws[0] + Seq::<char>::empty() =~= ws[0]);
        assert(seq![ws[0]] + Seq::<Seq<char>>::empty() =~= ws);
    } else {
        let rest = ws.drop_first();
        assert forall|i: int| 0 <= i < rest.len() implies plain_word(#[trigger] rest[i]) by {
            assert(rest[i] == ws[i + 1]);
        }
        lemma_words_join(rest);
        lemma_join_sep_cons(ws, seq![' ']);
        let j = join_sep(rest, seq![' ']);
        lemma_words_ws_then(' ', j);
        lemma_words_word_then(ws[0], seq![' '] + j);
        assert(ws[0] + seq![' '] + j =~= ws[0] + (seq![' '] + j));
        assert(seq![ws[0]] + rest =~= ws);
    }
}

/// Index of the first character that is not whitespace, and one past the
/// last: `s[lo..hi]` is `trim(s)`.
#[verifier::rlimit(30)]
pub fn trim_bounds(s: &[char]) -> (r: (usize, usize))
    ensures
        r.0 <= r.1 <= s@.len(),
        s@.subrange(r.0 as int, r.1 as int) == trim(s@),
        trim_start(s@) == s@.subrange(r.0 as int, s@.len() as int),
{
    let n = s.len();
    let mut lo: usize = 0;
    while lo < n && is_whitespace(s[lo])
        invariant
            lo <= n == s@.len(),
            trim_start(s@) == trim_start(s@.subrange(lo as int, n as int)),
        decreases n - lo,
    {
        assert(s@.subrange(lo as int, n as int).drop_first() =~= s@.subrange(
            lo + 1,
            n as int,
        ));
        lo = lo + 1;
    }
    assert(trim_start(s@.subrange(lo as int, n as int)) == s@.subrange(lo as int, n as int));
    let mut hi: usize = n;
    while hi > lo && is_whitespace(s[hi - 1])
        invariant
            lo <= hi <= n == s@.len(),
            trim(s@) == trim_end(s@.subrange(lo as int, hi as int)),
        decreases hi,
    {
        assert(s@.subrange(lo as int, hi as int).drop_last() =~= s@.subrange(
            lo as int,
            hi - 1,
        ));
        hi = hi - 1;
    }
    (lo, hi)
}

/// Copies `s[lo..hi]`.
pub fn sub_vec<T: Copy>(s: &[T], lo: usize, hi: usize) -> (r: Vec<T>)
    requires
        lo <= hi <= s@.len(),
    ensures
        r@ == s@.subrange(lo as int, hi as int),
{
    let mut r: Vec<T> = Vec::new();
    let mut i = lo;
    while i < hi
        invariant
            lo <= i <= hi <= s@.len(),
            r@ == s@.subrange(lo as int, i as int),
        decreases hi - i,
    {
        r.push(s[i]);
        i = i + 1;
    }
    r
}

/// `trim`, as a new vector of characters.
pub fn trimmed(s: &[char]) -> (r: Vec<char>)
    ensures
        r@ == trim(s@),
{
    let (lo, hi) = trim_bounds(s);
    sub_vec(s, lo, hi)
}

/// Appends `b` to `a`.
pub fn append_chars(a: &mut Vec<char>, b: &[char])
    ensures
        final(a)@ == old(a)@ + b@,
{
    let mut i: usize = 0;
    while i < b.len()
        invariant
            i <= b@.len(),
            a@ == old(a)@ + b@.take(i as int),
        decreases b.len() - i,
    {
        a.push(b[i]);
        i = i + 1;
    }
    assert(b@.take(b@.len() as int) =~= b@);
}

/// Equality of two sequences of characters.
pub fn chars_eq(a: &[char], b: &[char]) -> (r: bool)
    ensures
        r == (a@ == b@),
{
    if a.len() != b.len() {
        return false;
    }
    let mut i: usize = 0;
    while i < a.len()
        invariant
            i <= a@.len() == b@.len(),
            forall|j: int| 0 <= j < i ==> a@[j] == b@[j],
        decreases a.len() - i,
    {
        if a[i] != b[i] {
            return false;
        }
        i = i + 1;
    }
    assert(a@ =~= b@);
    true
}

/// Equality of two strings, by their characters.
pub fn str_eq(a: &str, b: &str) -> (r: bool)
    ensures
        r == (a@ == b@),
{
    let x = chars_of(a);
    let y = chars_of(b);
    chars_eq(&x, &y)
}

/// Whether `s` starts with `p`.
pub fn starts_with(s: &[char], p: &[char]) -> (r: bool)
    ensures
        r == (p@.len() <= s@.len() && s@.take(p@.len() as int) == p@),
{
    if p.len() > s.len() {
        return false;
    }
    let t = sub_vec(s, 0, p.len());
    chars_eq(&t, p)
}

/// Whether `s` ends with `p`.
pub fn ends_with(s: &[char], p: &[char]) -> (r: bool)
    ensures
        r == (p@.len() <= s@.len() && s@.skip(s@.len() - p@.len()) == p@),
{
    if p.len() > s.len() {
        return false;
    }
    let t = sub_vec(s, s.len() - p.len(), s.len());
    chars_eq(&t, p)
}

/// Index of the first occurrence of `c`, as `str::find` with a `char`.
pub open spec fn first_index_of(s: Seq<char>, c: char) -> Option<int> {
    if exists|i: int| 0 <= i < s.len() && s[i] == c {
        Some(choose|i: int| 0 <= i < s.len() && s[i] == c && forall|j: int| 0 <= j < i ==> s[j] != c)
    } else {
        None
    }
}

pub fn find_char(s: &[char], c: char) -> (r: Option<usize>)
    ensures
        r matches Some(i) ==> i < s@.len() && s@[i as int] == c && forall|j: int|
            0 <= j < i ==> s@[j] != c,
        r is None ==> forall|j: int| 0 <= j < s@.len() ==> s@[j] != c,
        r is None <==> first_index_of(s@, c) is None,
        r matches Some(i) ==> first_index_of(s@, c) == Some(i as int),
{
    let mut i: usize = 0;
    while i < s.len()
        invariant
            i <= s@.len(),
            forall|j: int| 0 <= j < i ==> s@[j] != c,
        decreases s.len() - i,
    {
        if s[i] == c {
            let ghost k = choose|k: int| 0 <= k < s@.len() && s@[k] == c && forall|j: int|
                0 <= j < k ==> s@[j] != c;
            assert(0 <= i < s@.len() && s@[i as int] == c && forall|j: int|
                0 <= j < i ==> s@[j] != c);
            assert(k == i) by {
                if k < i {
                } else if k > i {
                }
            }
            return Some(i);
        }
        i = i + 1;
    }
    None
}

/// `str::split_whitespace`, as character vectors.
pub fn split_ws(s: &[char]) -> (r: Vec<Vec<char>>)
    ensures
        r@.map_values(|w: Vec<char>| w@) == words(s@),
{
    let n = s.len();
    let mut out: Vec<Vec<char>> = Vec::new();
    let mut i: usize = 0;
    assert(s@.skip(0) =~= s@);
    while i < n
        invariant
            i <= n == s@.len(),
            words(s@) == out@.map_values(|w: Vec<char>| w@) + words(s@.skip(i as int)),
        decreases n - i,
    {
        let ghost rest = s@.skip(i as int);
        if is_whitespace(s[i]) {
            assert(rest.drop_first() =~= s@.skip(i + 1));
            i = i + 1;
        } else {
            let mut j = i;
            while j < n && !is_whitespace(s[j])
                invariant
                    i <= j <= n == s@.len(),
                    forall|k: int| i <= k < j ==> !is_ws(#[trigger] s@[k]),
                decreases n - j,
            {
                j = j + 1;
            }
            proof {
                lemma_word_len_bound(rest);
                // the word starting at i ends at j
                let k = word_len(rest);
                if k < j - i {
                    assert(rest[k as int] == s@[i + k]);
                } else if k > j - i {
                    assert(rest[(j - i) as int] == s@[j as int]);
                }
                assert(k == j - i);
                assert(rest.take(k as int) =~= s@.subrange(i as int, j as int));
                assert(rest.skip(k as int) =~= s@.skip(j as int));
            }
            let w = sub_vec(s, i, j);
            let ghost before = out@;
            out.push(w);
            assert(out@.map_values(|w: Vec<char>| w@) =~= before.map_values(|w: Vec<char>| w@)
                + seq![s@.subrange(i as int, j as int)]);
            i = j;
        }
    }
    assert(words(s@.skip(n as int)) =~= Seq::<Seq<char>>::empty()) by {
        assert(s@.skip(n as int).len() == 0);
    }
    assert(words(s@) =~= out@.map_values(|w: Vec<char>| w@));
    out
}


// ---------------------------------------------------------------------------
// Decimal numbers.
// ---------------------------------------------------------------------------

/// The decimal digit character for `d < 10`.
pub open spec fn digit(d: nat) -> char {
    ((d + 48) as u8) as char
}

/// The decimal representation of `n`, as `ToString` for unsigned integers.
pub open spec fn dec(n: nat) -> Seq<char>
    decreases n,
{
    if n < 10 {
        seq![digit(n)]
    } else {
        dec(n / 10).push(digit(n % 10))
    }
}

/// The decimal representation of a signed integer.
pub open spec fn dec_int(n: int) -> Seq<char> {
    if n < 0 {
        seq!['-'] + dec((-n) as nat)
    } else {
        dec(n as nat)
    }
}

pub fn push_digit(out: &mut Vec<char>, d: u64)
    requires
        d < 10,
    ensures
        final(out)@ == old(out)@.push(digit(d as nat)),
{
    let c = ((d as u8) + 48u8) as char;
    out.push(c);
}

/// Appends the decimal representation of `n`.
pub fn push_dec(out: &mut Vec<char>, n: u64)
    ensures
        final(out)@ == old(out)@ + dec(n as nat),
    decreases n,
{
    if n >= 10 {
        push_dec(out, n / 10);
    }
    push_digit(out, n % 10);
    assert(dec(n as nat) == if n < 10 {
        seq![digit(n as nat)]
    } else {
        dec((n / 10) as nat).push(digit((n % 10) as nat))
    });
}

/// `n.to_string()` for unsigned integers.
pub fn u64_to_chars(n: u64) -> (r: Vec<char>)
    ensures
        r@ == dec(n as nat),
{
    let mut out: Vec<char> = Vec::new();
    push_dec(&mut out, n);
    out
}

/// `n.to_string()` for signed integers.
pub fn i64_to_chars(n: i64) -> (r: Vec<char>)
    ensures
        r@ == dec_int(n as int),
{
    let mut out: Vec<char> = Vec::new();
    if n < 0 {
        out.push('-');
        let m: u64 = (0i128 - n as i128) as u64;
        push_dec(&mut out, m);
    } else {
        push_dec(&mut out, n as u64);
    }
    out
}

pub open spec fn is_digit(c: char) -> bool {
    '0' <= c && c <= '9'
}

pub open spec fn all_digits(s: Seq<char>) -> bool {
    forall|i: int| 0 <= i < s.len() ==> is_digit(#[trigger] s[i])
}

/// The value of a string of decimal digits.
pub open spec fn digits_val(s: Seq<char>) -> nat
    decreases s.len(),
{
    if s.len() == 0 {
        0
    } else {
        digits_val(s.drop_last()) * 10 + ((s.last() as nat) - 48) as nat
    }
}

/// What `str::parse` gives for an unsigned integer type whose largest value
/// is `max`: an optional `+`, then one or more digits, with a value that fits.
pub open spec fn parse_unsigned_spec(s: Seq<char>, max: nat) -> Option<nat> {
    let body = if s.len() > 0 && s[0] == '+' {
        s.drop_first()
    } else {
        s
    };
    if body.len() > 0 && all_digits(body) && digits_val(body) <= max {
        Some(digits_val(body))
    } else {
        None
    }
}

/// The decimal text of a number is made of digits and has that value.
pub proof fn lemma_dec_digits(n: nat)
    ensures
        dec(n).len() > 0,
        all_digits(dec(n)),
        digits_val(dec(n)) == n,
    decreases n,
{
    if n >= 10 {
        lemma_dec_digits(n / 10);
        let d = dec(n / 10);
        let e = d.push(digit(n % 10));
        assert(e.drop_last() =~= d);
        assert forall|i: int| 0 <= i < e.len() implies is_digit(#[trigger] e[i]) by {
            if i < d.len() {
                assert(e[i] == d[i]);
            }
        }
        assert(digit((n % 10) as nat) as nat == n % 10 + 48);
        assert((n / 10) * 10 + n % 10 == n) by (nonlinear_arith);
        assert(dec(n) == e);
        assert(e.last() == digit((n % 10) as nat));
        assert(digits_val(e) == digits_val(d) * 10 + ((e.last() as nat) - 48) as nat);
    } else {
        assert(seq![digit(n)].drop_last() =~= Seq::<char>::empty());
        assert(digit(n) as nat == n + 48);
        assert(digits_val(seq![digit(n)]) == digits_val(Seq::<char>::empty()) * 10 + ((digit(n) as nat) - 48) as nat);
    }
}

/// Parsing the decimal text of a number gives the number back, when it
/// fits.
pub proof fn lemma_parse_dec(n: nat, max: nat)
    requires
        n <= max,
    ensures
        parse_unsigned_spec(dec(n), max) == Some(n),
{
    lemma_dec_digits(n);
    assert(is_digit(dec(n)[0]));
}

/// What `str::parse` gives for a signed integer type with range
/// `-neg_max ..= max`: an optional sign, then one or more digits.
pub open spec fn parse_signed_spec(s: Seq<char>, neg_max: nat, max: nat) -> Option<int> {
    if s.len() > 0 && s[0] == '-' {
        let body = s.drop_first();
        if body.len() > 0 && all_digits(body) && digits_val(body) <= neg_max {
            Some(-(digits_val(body) as int))
        } else {
            None
        }
    } else {
        match parse_unsigned_spec(s, max) {
            Some(v) => Some(v as int),
            None => None,
        }
    }
}

proof fn lemma_digits_val_take(s: Seq<char>, i: int)
    requires
        0 <= i < s.len(),
        is_digit(s[i]),
    ensures
        digits_val(s.take(i + 1)) == digits_val(s.take(i)) * 10 + ((s[i] as nat) - 48) as nat,
{
    assert(s.take(i + 1).drop_last() =~= s.take(i));
}

proof fn lemma_digits_val_mono(s: Seq<char>, i: int)
    requires
        0 <= i <= s.len(),
        all_digits(s),
    ensures
        digits_val(s.take(i)) <= digits_val(s),
    decreases s.len() - i,
{
    if i < s.len() {
        lemma_digits_val_take(s, i);
        lemma_digits_val_mono(s, i + 1);
    } else {
        assert(s.take(i) =~= s);
    }
}

/// Parses a string of digits (no sign) whose value must not exceed `max`.
fn parse_digits(s: &[char], lo: usize, max: u64) -> (r: Option<u64>)
    requires
        lo <= s@.len(),
    ensures
        ({
            let body = s@.skip(lo as int);
            r == if body.len() > 0 && all_digits(body) && digits_val(body) <= max {
                Some(digits_val(body) as u64)
            } else {
                None::<u64>
            }
        }),
{
    let ghost body = s@.skip(lo as int);
    if lo >= s.len() {
        return None;
    }
    let mut acc: u64 = 0;
    let mut i = lo;
    assert(body.take(0) =~= Seq::<char>::empty());
    while i < s.len()
        invariant
            lo <= i <= s@.len(),
            body == s@.skip(lo as int),
            all_digits(body.take(i - lo)),
            acc as nat == digits_val(body.take(i - lo)),
            acc <= max,
        decreases s.len() - i,
    {
        let c = s[i];
        if !('0' <= c && c <= '9') {
            assert(body[i - lo] == c);
            return None;
        }
        proof {
            lemma_digits_val_take(body, i - lo);
            assert(body.take(i - lo + 1) =~= body.take(i - lo).push(c));
        }
        let d = (c as u32 - 48) as u64;
        let next: u128 = acc as u128 * 10 + d as u128;
        if next > max as u128 {
            proof {
                if all_digits(body) {
                    lemma_digits_val_mono(body, i - lo + 1);
                }
            }
            return None;
        }
        acc = next as u64;
        i = i + 1;
    }
    assert(body.take(i - lo) =~= body);
    Some(acc)
}

/// `str::parse::<uN>()` for an unsigned type whose largest value is `max`.
pub fn parse_unsigned(s: &[char], max: u64) -> (r: Option<u64>)
    ensures
        r matches Some(v) ==> parse_unsigned_spec(s@, max as nat) == Some(v as nat),
        r is None ==> parse_unsigned_spec(s@, max as nat) is None,
{
    if s.len() > 0 && s[0] == '+' {
        assert(s@.skip(1) =~= s@.drop_first());
        parse_digits(s, 1, max)
    } else {
        assert(s@.skip(0) =~= s@);
        parse_digits(s, 0, max)
    }
}

/// `str::parse::<u64>()`.
pub fn parse_u64(s: &[char]) -> (r: Option<u64>)
    ensures
        r matches Some(v) ==> parse_unsigned_spec(s@, u64::MAX as nat) == Some(v as nat),
        r is None ==> parse_unsigned_spec(s@, u64::MAX as nat) is None,
{
    parse_unsigned(s, u64::MAX)
}

/// `str::parse::<u16>()`.
pub fn parse_u16(s: &[char]) -> (r: Option<u16>)
    ensures
        r matches Some(v) ==> parse_unsigned_spec(s@, u16::MAX as nat) == Some(v as nat),
        r is None ==> parse_unsigned_spec(s@, u16::MAX as nat) is None,
{
    match parse_unsigned(s, 65535) {
        Some(v) => Some(v as u16),
        None => None,
    }
}

/// `str::parse::<i64>()`.
pub fn parse_i64(s: &[char]) -> (r: Option<i64>)
    ensures
        r matches Some(v) ==> parse_signed_spec(s@, 0x8000_0000_0000_0000, i64::MAX as nat) == Some(
            v as int,
        ),
        r is None ==> parse_signed_spec(s@, 0x8000_0000_0000_0000, i64::MAX as nat) is None,
{
    if s.len() > 0 && s[0] == '-' {
        assert(s@.skip(1) =~= s@.drop_first());
        match parse_digits(s, 1, 0x8000_0000_0000_0000u64) {
            Some(v) => Some((0i128 - v as i128) as i64),
            None => None,
        }
    } else {
        match parse_unsigned(s, i64::MAX as u64) {
            Some(v) => Some(v as i64),
            None => None,
        }
    }
}

/// `str::parse::<i32>()`.
pub fn parse_i32(s: &[char]) -> (r: Option<i32>)
    ensures
        r matches Some(v) ==> parse_signed_spec(s@, 0x8000_0000, i32::MAX as nat) == Some(v as int),
        r is None ==> parse_signed_spec(s@, 0x8000_0000, i32::MAX as nat) is None,
{
    if s.len() > 0 && s[0] == '-' {
        assert(s@.skip(1) =~= s@.drop_first());
        match parse_digits(s, 1, 0x8000_0000u64) {
            Some(v) => Some((0i64 - v as i64) as i32),
            None => None,
        }
    } else {
        match parse_unsigned(s, i32::MAX as u64) {
            Some(v) => Some(v as i32),
            None => None,
        }
    }
}


// ---------------------------------------------------------------------------
// Splitting at a character, case folding.
// ---------------------------------------------------------------------------

/// `s.split(c)`: the pieces between occurrences of `c` (there is always at
/// least one piece).
#[verifier::opaque]
pub open spec fn split_char(s: Seq<char>, c: char) -> Seq<Seq<char>>
    decreases s.len(),
{
    match first_index_of(s, c) {
        Some(i) => if 0 <= i < s.len() {
            seq![s.take(i)] + split_char(s.skip(i + 1), c)
        } else {
            seq![]
        },
        None => seq![s],
    }
}

pub proof fn lemma_split_char_step(s: Seq<char>, c: char, i: int, j: int)
    requires
        0 <= i <= j <= s.len(),
        forall|k: int| i <= k < j ==> s[k] != c,
        j < s.len() ==> s[j] == c,
    ensures
        j < s.len() ==> split_char(s.skip(i), c) == seq![s.subrange(i, j)] + split_char(
            s.skip(j + 1),
            c,
        ),
        j == s.len() ==> split_char(s.skip(i), c) == seq![s.subrange(i, j)],
{
    reveal(split_char);
    let rest = s.skip(i);
    if j < s.len() {
        assert(rest[j - i] == c);
        let fi = first_index_of(rest, c);
        assert(fi is Some);
        let k = fi->Some_0;
        if k < j - i {
            assert(rest[k] == s[i + k]);
        }
        if k > j - i {
            assert(rest[j - i] == c);
        }
        assert(k == j - i);
        assert(rest.skip(k + 1) =~= s.skip(j + 1));
        assert(rest.take(k) =~= s.subrange(i, j));
    } else {
        assert forall|m: int| 0 <= m < rest.len() implies rest[m] != c by {
            assert(rest[m] == s[i + m]);
        }
        assert(first_index_of(rest, c) is None);
        assert(rest =~= s.subrange(i, j));
    }
}

pub open spec fn chars_views(v: Seq<Vec<char>>) -> Seq<Seq<char>> {
    v.map_values(|w: Vec<char>| w@)
}

/// `s.split(c)`, as character vectors.
pub fn split_on_char(s: &[char], c: char) -> (r: Vec<Vec<char>>)
    ensures
        chars_views(r@) == split_char(s@, c),
{
    let n = s.len();
    let mut out: Vec<Vec<char>> = Vec::new();
    let mut i: usize = 0;
    assert(s@.skip(0) =~= s@);
    assert(chars_views(out@) =~= Seq::<Seq<char>>::empty());
    loop
        invariant
            i <= n == s@.len(),
            split_char(s@, c) == chars_views(out@) + split_char(s@.skip(i as int), c),
        decreases n - i,
    {
        let mut j = i;
        while j < n && s[j] != c
            invariant
                i <= j <= n == s@.len(),
                forall|k: int| i <= k < j ==> s@[k] != c,
            decreases n - j,
        {
            j = j + 1;
        }
        proof {
            lemma_split_char_step(s@, c, i as int, j as int);
        }
        let piece = sub_vec(s, i, j);
        let ghost before = chars_views(out@);
        out.push(piece);
        assert(chars_views(out@) =~= before.push(s@.subrange(i as int, j as int)));
        if j >= n {
            assert(split_char(s@, c) =~= chars_views(out@));
            return out;
        }
        i = j + 1;
    }
}

/// `split_once(c)`: the text before the first `c` and the text after it.
pub open spec fn split_once(s: Seq<char>, c: char) -> Option<(Seq<char>, Seq<char>)> {
    match first_index_of(s, c) {
        Some(i) => Some((s.take(i), s.skip(i + 1))),
        None => None,
    }
}

/// The first occurrence of a character, where it is known.
pub proof fn lemma_first_index_at(s: Seq<char>, c: char, i: int)
    requires
        0 <= i < s.len(),
        s[i] == c,
        forall|k: int| 0 <= k < i ==> s[k] != c,
    ensures
        first_index_of(s, c) == Some(i),
        split_once(s, c) == Some((s.take(i), s.skip(i + 1))),
{
    let k = choose|k: int| 0 <= k < s.len() && s[k] == c && forall|j: int| 0 <= j < k ==> s[j] != c;
    if k < i {
        assert(s[k] != c);
    }
    if k > i {
        assert(s[i] != c);
    }
}

/// Whether the character does not occur in the text.
#[verifier::opaque]
pub open spec fn lacks(s: Seq<char>, c: char) -> bool {
    forall|k: int| 0 <= k < s.len() ==> s[k] != c
}

/// A text without the character is one piece.
pub proof fn lemma_split_char_none(a: Seq<char>, c: char)
    requires
        lacks(a, c),
    ensures
        split_char(a, c) == seq![a],
{
    reveal(lacks);
    lemma_split_char_step(a, c, 0, a.len() as int);
    assert(a.skip(0) =~= a);
    assert(a.subrange(0, a.len() as int) =~= a);
}

/// Splitting `a`, the character, then `b`: `a` is the first piece.
pub proof fn lemma_split_char_concat(a: Seq<char>, b: Seq<char>, c: char)
    requires
        lacks(a, c),
    ensures
        split_char(a + seq![c] + b, c) == seq![a] + split_char(b, c),
{
    reveal(lacks);
    let s = a + seq![c] + b;
    assert forall|k: int| 0 <= k < a.len() implies s[k] != c by {
        assert(s[k] == a[k]);
    }
    assert(s[a.len() as int] == c);
    lemma_split_char_step(s, c, 0, a.len() as int);
    assert(s.skip(0) =~= s);
    assert(s.subrange(0, a.len() as int) =~= a);
    assert(s.skip(a.len() as int + 1) =~= b);
}

/// Splitting after one more separator and a piece without it adds the piece.
pub proof fn lemma_split_char_snoc(a: Seq<char>, f: Seq<char>, c: char)
    requires
        lacks(f, c),
    ensures
        split_char(a + seq![c] + f, c) == split_char(a, c).push(f),
    decreases a.len(),
{
    if lacks(a, c) {
        lemma_split_char_concat(a, f, c);
        lemma_split_char_none(f, c);
        lemma_split_char_none(a, c);
    } else {
        reveal(lacks);
        let j0 = choose|j: int| 0 <= j < a.len() && a[j] == c;
        let j = first_char_at(a, c, j0);
        let a0 = a.take(j);
        let a1 = a.skip(j + 1);
        assert(lacks(a0, c));
        assert(a =~= a0 + seq![c] + a1);
        lemma_split_char_concat(a0, a1, c);
        lemma_split_char_concat(a0, a1 + seq![c] + f, c);
        assert(a + seq![c] + f =~= a0 + seq![c] + (a1 + seq![c] + f));
        lemma_split_char_snoc(a1, f, c);
    }
}

proof fn first_char_at(a: Seq<char>, c: char, j: int) -> (r: int)
    requires
        0 <= j < a.len(),
        a[j] == c,
    ensures
        0 <= r <= j,
        a[r] == c,
        forall|k: int| 0 <= k < r ==> a[k] != c,
    decreases j,
{
    if exists|k: int| 0 <= k < j && a[k] == c {
        let k = choose|k: int| 0 <= k < j && a[k] == c;
        first_char_at(a, c, k)
    } else {
        j
    }
}

/// Pieces without the separator, joined with it, split back into the same
/// pieces.
pub proof fn lemma_split_join(ws: Seq<Seq<char>>, c: char)
    requires
        ws.len() > 0,
        forall|i: int| 0 <= i < ws.len() ==> lacks(#[trigger] ws[i], c),
    ensures
        split_char(join_sep(ws, seq![c]), c) == ws,
    decreases ws.len(),
{
    lemma_join_sep_snoc(ws, seq![c]);
    if ws.len() == 1 {
        lemma_split_char_none(ws[0], c);
        assert(seq![ws[0]] =~= ws);
    } else {
        let d = ws.drop_last();
        assert forall|i: int| 0 <= i < d.len() implies lacks(#[trigger] d[i], c) by {
            assert(d[i] == ws[i]);
        }
        lemma_split_join(d, c);
        assert(lacks(ws[ws.len() - 1], c));
        lemma_split_char_snoc(join_sep(d, seq![c]), ws.last(), c);
        assert(d.push(ws.last()) =~= ws);
    }
}

/// Whitespace in front goes with `trim_start`.
pub proof fn lemma_trim_start_ws(w: Seq<char>, x: Seq<char>)
    requires
        forall|i: int| 0 <= i < w.len() ==> is_ws(#[trigger] w[i]),
    ensures
        trim_start(w + x) == trim_start(x),
    decreases w.len(),
{
    if w.len() > 0 {
        assert((w + x)[0] == w[0]);
        assert((w + x).drop_first() =~= w.drop_first() + x);
        assert forall|i: int| 0 <= i < w.drop_first().len() implies is_ws(#[trigger] w.drop_first()[i]) by {
            assert(w.drop_first()[i] == w[i + 1]);
        }
        lemma_trim_start_ws(w.drop_first(), x);
    } else {
        assert(w + x =~= x);
    }
}

/// Whitespace behind goes with `trim_end`.
pub proof fn lemma_trim_end_ws(x: Seq<char>, w: Seq<char>)
    requires
        forall|i: int| 0 <= i < w.len() ==> is_ws(#[trigger] w[i]),
    ensures
        trim_end(x + w) == trim_end(x),
    decreases w.len(),
{
    if w.len() > 0 {
        assert((x + w).last() == w.last());
        assert(is_ws(w[w.len() - 1]));
        assert((x + w).drop_last() =~= x + w.drop_last());
        assert forall|i: int| 0 <= i < w.drop_last().len() implies is_ws(#[trigger] w.drop_last()[i]) by {
            assert(w.drop_last()[i] == w[i]);
        }
        lemma_trim_end_ws(x, w.drop_last());
    } else {
        assert(x + w =~= x);
    }
}

/// Trimming whitespace around a text that neither starts nor ends with
/// whitespace gives the text.
pub proof fn lemma_trim_around(w1: Seq<char>, x: Seq<char>, w2: Seq<char>)
    requires
        forall|i: int| 0 <= i < w1.len() ==> is_ws(#[trigger] w1[i]),
        forall|i: int| 0 <= i < w2.len() ==> is_ws(#[trigger] w2[i]),
        x.len() > 0,
        !is_ws(x[0]),
        !is_ws(x.last()),
    ensures
        trim(w1 + x + w2) == x,
{
    lemma_trim_start_ws(w1, x + w2);
    assert(w1 + x + w2 =~= w1 + (x + w2));
    assert((x + w2)[0] == x[0]);
    assert(trim_start(x + w2) == x + w2);
    lemma_trim_end_ws(x, w2);
    lemma_trim_id(x);
}

/// A text that neither starts nor ends with whitespace is its own trim.
pub proof fn lemma_trim_id(s: Seq<char>)
    requires
        s.len() == 0 || (!is_ws(s[0]) && !is_ws(s.last())),
    ensures
        trim_start(s) == s,
        trim_end(s) == s,
        trim(s) == s,
{
}

pub fn split_once_exec(s: &[char], c: char) -> (r: Option<(Vec<char>, Vec<char>)>)
    ensures
        r matches Some(p) ==> split_once(s@, c) == Some((p.0@, p.1@)),
        r is None ==> split_once(s@, c) is None,
{
    match find_char(s, c) {
        Some(i) => {
            let n = s.len();
            Some((sub_vec(s, 0, i), sub_vec(s, i + 1, n)))
        },
        None => None,
    }
}

/// `char::to_ascii_lowercase`.
pub open spec fn ascii_lower(c: char) -> char {
    if 'A' <= c && c <= 'Z' {
        ((c as u8) + 32) as char
    } else {
        c
    }
}

/// `str::to_ascii_lowercase`.
pub open spec fn ascii_lower_str(s: Seq<char>) -> Seq<char> {
    s.map_values(|c: char| ascii_lower(c))
}

pub fn ascii_lower_exec(s: &[char]) -> (r: Vec<char>)
    ensures
        r@ == ascii_lower_str(s@),
{
    let mut out: Vec<char> = Vec::new();
    let mut i: usize = 0;
    while i < s.len()
        invariant
            i <= s@.len(),
            out@ == ascii_lower_str(s@.take(i as int)),
        decreases s.len() - i,
    {
        let c = s[i];
        let l = if 'A' <= c && c <= 'Z' {
            ((c as u8) + 32) as char
        } else {
            c
        };
        out.push(l);
        assert(ascii_lower_str(s@.take(i + 1)) =~= ascii_lower_str(s@.take(i as int)).push(
            ascii_lower(c),
        ));
        i = i + 1;
    }
    assert(s@.take(s@.len() as int) =~= s@);
    out
}


/// The pieces joined with a separator (`[String]::join(sep)`).
#[verifier::opaque]
pub open spec fn join_sep(ws: Seq<Seq<char>>, sep: Seq<char>) -> Seq<char>
    decreases ws.len(),
{
    if ws.len() == 0 {
        seq![]
    } else if ws.len() == 1 {
        ws[0]
    } else {
        join_sep(ws.drop_last(), sep) + sep + ws.last()
    }
}

pub proof fn lemma_join_sep_snoc(ws: Seq<Seq<char>>, sep: Seq<char>)
    ensures
        ws.len() == 0 ==> join_sep(ws, sep) == Seq::<char>::empty(),
        ws.len() == 1 ==> join_sep(ws, sep) == ws[0],
        ws.len() > 1 ==> join_sep(ws, sep) == join_sep(ws.drop_last(), sep) + sep + ws.last(),
{
    reveal(join_sep);
}

/// Joins character vectors with a separator.
pub fn join_chars(v: &Vec<Vec<char>>, sep: &[char]) -> (r: Vec<char>)
    ensures
        r@ == join_sep(chars_views(v@), sep@),
{
    let mut out: Vec<char> = Vec::new();
    let mut i: usize = 0;
    proof {
        assert(chars_views(v@).take(0) =~= Seq::<Seq<char>>::empty());
        lemma_join_sep_snoc(Seq::<Seq<char>>::empty(), sep@);
    }
    while i < v.len()
        invariant
            i <= v@.len(),
            out@ == join_sep(chars_views(v@).take(i as int), sep@),
        decreases v.len() - i,
    {
        let ghost old_out = out@;
        let ghost pre = chars_views(v@).take(i + 1);
        if i > 0 {
            append_chars(&mut out, sep);
        }
        append_chars(&mut out, &v[i]);
        proof {
            lemma_join_sep_snoc(pre, sep@);
            assert(pre.drop_last() =~= chars_views(v@).take(i as int));
            if i == 0 {
                assert(chars_views(v@).take(0) =~= Seq::<Seq<char>>::empty());
                lemma_join_sep_snoc(Seq::<Seq<char>>::empty(), sep@);
            }
        }
        i = i + 1;
    }
    assert(chars_views(v@).take(v@.len() as int) =~= chars_views(v@));
    out
}

/// The characters of each string.
pub fn strings_chars(v: &Vec<String>) -> (r: Vec<Vec<char>>)
    ensures
        chars_views(r@) == v@.map_values(|s: String| s@),
{
    let mut out: Vec<Vec<char>> = Vec::new();
    let mut i: usize = 0;
    while i < v.len()
        invariant
            i <= v@.len(),
            chars_views(out@) == v@.take(i as int).map_values(|s: String| s@),
        decreases v.len() - i,
    {
        out.push(chars_of(v[i].as_str()));
        assert(v@.take(i + 1).map_values(|s: String| s@) =~= v@.take(i as int).map_values(
            |s: String| s@,
        ).push(v@[i as int]@));
        assert(chars_views(out@) =~= chars_views(out@.drop_last()).push(out@.last()@));
        i = i + 1;
    }
    assert(v@.take(v@.len() as int) =~= v@);
    out
}


// ---------------------------------------------------------------------------
// The same on bytes.
// ---------------------------------------------------------------------------

pub open spec fn bytes_views(v: Seq<Vec<u8>>) -> Seq<Seq<u8>> {
    v.map_values(|w: Vec<u8>| w@)
}

/// Index of the first occurrence of `c`, as `str::find` with a `char`.
pub open spec fn first_index_of_byte(s: Seq<u8>, c: u8) -> Option<int> {
    if exists|i: int| 0 <= i < s.len() && s[i] == c {
        Some(choose|i: int| 0 <= i < s.len() && s[i] == c && forall|j: int| 0 <= j < i ==> s[j] != c)
    } else {
        None
    }
}

pub fn find_byte(s: &[u8], c: u8) -> (r: Option<usize>)
    ensures
        r matches Some(i) ==> i < s@.len() && s@[i as int] == c && forall|j: int|
            0 <= j < i ==> s@[j] != c,
        r is None ==> forall|j: int| 0 <= j < s@.len() ==> s@[j] != c,
        r is None <==> first_index_of_byte(s@, c) is None,
        r matches Some(i) ==> first_index_of_byte(s@, c) == Some(i as int),
{
    let mut i: usize = 0;
    while i < s.len()
        invariant
            i <= s@.len(),
            forall|j: int| 0 <= j < i ==> s@[j] != c,
        decreases s.len() - i,
    {
        if s[i] == c {
            let ghost k = choose|k: int| 0 <= k < s@.len() && s@[k] == c && forall|j: int|
                0 <= j < k ==> s@[j] != c;
            assert(0 <= i < s@.len() && s@[i as int] == c && forall|j: int|
                0 <= j < i ==> s@[j] != c);
            assert(k == i) by {
                if k < i {
                } else if k > i {
                }
            }
            return Some(i);
        }
        i = i + 1;
    }
    None
}

/// `<[u8]>::split` at a byte: the pieces between occurrences of `c` (there is always at
/// least one piece).
#[verifier::opaque]
pub open spec fn split_byte(s: Seq<u8>, c: u8) -> Seq<Seq<u8>>
    decreases s.len(),
{
    match first_index_of_byte(s, c) {
        Some(i) => if 0 <= i < s.len() {
            seq![s.take(i)] + split_byte(s.skip(i + 1), c)
        } else {
            seq![]
        },
        None => seq![s],
    }
}

pub proof fn lemma_split_byte_step(s: Seq<u8>, c: u8, i: int, j: int)
    requires
        0 <= i <= j <= s.len(),
        forall|k: int| i <= k < j ==> s[k] != c,
        j < s.len() ==> s[j] == c,
    ensures
        j < s.len() ==> split_byte(s.skip(i), c) == seq![s.subrange(i, j)] + split_byte(
            s.skip(j + 1),
            c,
        ),
        j == s.len() ==> split_byte(s.skip(i), c) == seq![s.subrange(i, j)],
{
    reveal(split_byte);
    let rest = s.skip(i);
    if j < s.len() {
        assert(rest[j - i] == c);
        let fi = first_index_of_byte(rest, c);
        assert(fi is Some);
        let k = fi->Some_0;
        if k < j - i {
            assert(rest[k] == s[i + k]);
        }
        if k > j - i {
            assert(rest[j - i] == c);
        }
        assert(k == j - i);
        assert(rest.skip(k + 1) =~= s.skip(j + 1));
        assert(rest.take(k) =~= s.subrange(i, j));
    } else {
        assert forall|m: int| 0 <= m < rest.len() implies rest[m] != c by {
            assert(rest[m] == s[i + m]);
        }
        assert(first_index_of_byte(rest, c) is None);
        assert(rest =~= s.subrange(i, j));
    }
}


/// `<[u8]>::split` at a byte, as character vectors.
pub fn split_on_byte(s: &[u8], c: u8) -> (r: Vec<Vec<u8>>)
    ensures
        bytes_views(r@) == split_byte(s@, c),
{
    let n = s.len();
    let mut out: Vec<Vec<u8>> = Vec::new();
    let mut i: usize = 0;
    assert(s@.skip(0) =~= s@);
    assert(bytes_views(out@) =~= Seq::<Seq<u8>>::empty());
    loop
        invariant
            i <= n == s@.len(),
            split_byte(s@, c) == bytes_views(out@) + split_byte(s@.skip(i as int), c),
        decreases n - i,
    {
        let mut j = i;
        while j < n && s[j] != c
            invariant
                i <= j <= n == s@.len(),
                forall|k: int| i <= k < j ==> s@[k] != c,
            decreases n - j,
        {
            j = j + 1;
        }
        proof {
            lemma_split_byte_step(s@, c, i as int, j as int);
        }
        let piece = sub_vec(s, i, j);
        let ghost before = bytes_views(out@);
        out.push(piece);
        assert(bytes_views(out@) =~= before.push(s@.subrange(i as int, j as int)));
        if j >= n {
            assert(split_byte(s@, c) =~= bytes_views(out@));
            return out;
        }
        i = j + 1;
    }
}


/// A line without the `\r` of a `\r\n` ending.
pub open spec fn strip_cr(l: Seq<char>) -> Seq<char> {
    if l.len() > 0 && l.last() == '\r' {
        l.drop_last()
    } else {
        l
    }
}

/// `str::lines`: the text split at `\n` (a `\r` before the `\n` is dropped
/// too); a final line ending does not start another line.
pub open spec fn lines_spec(s: Seq<char>) -> Seq<Seq<char>> {
    let ps = split_char(s, '\n');
    let n = ps.len();
    if n == 0 {
        seq![]
    } else {
        let body = ps.take(n - 1).map_values(|l: Seq<char>| strip_cr(l));
        if ps[n - 1].len() == 0 {
            body
        } else {
            body.push(ps[n - 1])
        }
    }
}

/// `str::lines`.
pub fn lines_exec(s: &[char]) -> (r: Vec<Vec<char>>)
    ensures
        chars_views(r@) == lines_spec(s@),
{
    let ps = split_on_char(s, '\n');
    let n = ps.len();
    let mut out: Vec<Vec<char>> = Vec::new();
    if n == 0 {
        return out;
    }
    let mut i: usize = 0;
    let ghost pv = chars_views(ps@);
    while i + 1 < n
        invariant
            i + 1 <= n == ps@.len(),
            pv == chars_views(ps@),
            chars_views(out@) == pv.take(i as int).map_values(|l: Seq<char>| strip_cr(l)),
        decreases n - i,
    {
        let l = &ps[i];
        let m = l.len();
        let piece = if m > 0 && l[m - 1] == '\r' {
            sub_vec(l, 0, m - 1)
        } else {
            sub_vec(l, 0, m)
        };
        assert(piece@ =~= strip_cr(pv[i as int]));
        out.push(piece);
        assert(pv.take(i + 1).map_values(|l: Seq<char>| strip_cr(l)) =~= pv.take(i as int).map_values(|l: Seq<char>| strip_cr(l)).push(strip_cr(pv[i as int])));
        assert(chars_views(out@) =~= chars_views(out@.drop_last()).push(piece@));
        i = i + 1;
    }
    let last = &ps[n - 1];
    if last.len() > 0 {
        let c = sub_vec(last, 0, last.len());
        out.push(c);
        assert(chars_views(out@) =~= chars_views(out@.drop_last()).push(c@));
    }
    out
}

} // verus!
