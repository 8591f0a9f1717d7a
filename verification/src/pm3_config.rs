//! The configuration of one managed process, as the daemon stores it in
//! `~/.pm3/configs/<name>.proc` and as a `start` request describes it.
use vstd::prelude::*;
use crate::text::{
    append_chars, chars_eq, chars_of, chars_views, is_ws, join_sep, lacks, lemma_first_index_at,
    lemma_join_sep_cons, lemma_join_sep_snoc, lemma_split_char_concat, lemma_split_char_none,
    lemma_trim_id, lemma_words_join, plain_word, split_on_char, split_once, split_once_exec,
    split_char, split_ws, string_of, trim, trimmed, words,
};

verus! {

broadcast use vstd::seq_lib::group_seq_properties;

/// A process configuration. Paths are held as their text.
pub struct PmProcessConfig {
    pub proc_name: String,
    pub exec_dir: String,
    pub exec_name: String,
    pub exec_args: Vec<String>,
    pub active: bool,
    /// Keys of a configuration file that no field takes, with their values.
    pub extra: Vec<(String, String)>,
}

/// A process configuration as mathematical text.
pub struct ConfigView {
    pub proc_name: Seq<char>,
    pub exec_dir: Seq<char>,
    pub exec_name: Seq<char>,
    pub exec_args: Seq<Seq<char>>,
    pub active: bool,
    pub extra: Map<Seq<char>, Seq<char>>,
}

pub open spec fn strings_view(v: Seq<String>) -> Seq<Seq<char>> {
    v.map_values(|s: String| s@)
}

/// The map that a list of key/value pairs stands for: a later pair for a
/// key replaces an earlier one, as `HashMap::insert` does.
#[verifier::opaque]
pub open spec fn pairs_map(ps: Seq<(Seq<char>, Seq<char>)>) -> Map<Seq<char>, Seq<char>>
    decreases ps.len(),
{
    if ps.len() == 0 {
        Map::empty()
    } else {
        pairs_map(ps.drop_last()).insert(ps.last().0, ps.last().1)
    }
}

pub open spec fn pairs_view(v: Seq<(String, String)>) -> Seq<(Seq<char>, Seq<char>)> {
    v.map_values(|p: (String, String)| (p.0@, p.1@))
}

impl View for PmProcessConfig {
    type V = ConfigView;

    open spec fn view(&self) -> ConfigView {
        ConfigView {
            proc_name: self.proc_name@,
            exec_dir: self.exec_dir@,
            exec_name: self.exec_name@,
            exec_args: strings_view(self.exec_args@),
            active: self.active,
            extra: pairs_map(pairs_view(self.extra@)),
        }
    }
}

/// Turns character vectors into strings.
pub fn to_strings(v: &Vec<Vec<char>>) -> (r: Vec<String>)
    ensures
        strings_view(r@) == chars_views(v@),
{
    let mut out: Vec<String> = Vec::new();
    let mut i: usize = 0;
    while i < v.len()
        invariant
            i <= v@.len(),
            strings_view(out@) == chars_views(v@.take(i as int)),
        decreases v.len() - i,
    {
        let s = string_of(&v[i]);
        out.push(s);
        assert(chars_views(v@.take(i + 1)) =~= chars_views(v@.take(i as int)).push(v@[i as int]@));
        assert(strings_view(out@) =~= strings_view(out@.drop_last()).push(s@));
        i = i + 1;
    }
    assert(v@.take(v@.len() as int) =~= v@);
    out
}


pub proof fn lemma_pairs_map_empty()
    ensures
        pairs_map(Seq::<(Seq<char>, Seq<char>)>::empty()) == Map::<Seq<char>, Seq<char>>::empty(),
{
    reveal(pairs_map);
}

proof fn lemma_pairs_map_snoc(ps: Seq<(Seq<char>, Seq<char>)>)
    ensures
        ps.len() == 0 ==> pairs_map(ps) == Map::<Seq<char>, Seq<char>>::empty(),
        ps.len() > 0 ==> pairs_map(ps) == pairs_map(ps.drop_last()).insert(ps.last().0, ps.last().1),
{
    reveal(pairs_map);
}

/// The last pair for a key gives the key's value.
proof fn lemma_pairs_map_at(ps: Seq<(Seq<char>, Seq<char>)>, i: int, k: Seq<char>)
    requires
        0 <= i < ps.len(),
        ps[i].0 == k,
        forall|m: int| i < m < ps.len() ==> ps[m].0 != k,
    ensures
        pairs_map(ps).contains_key(k),
        pairs_map(ps)[k] == ps[i].1,
    decreases ps.len(),
{
    lemma_pairs_map_snoc(ps);
    if i < ps.len() - 1 {
        lemma_pairs_map_at(ps.drop_last(), i, k);
    }
}

/// A key that no pair has is not in the map.
proof fn lemma_pairs_map_none(ps: Seq<(Seq<char>, Seq<char>)>, k: Seq<char>)
    requires
        forall|m: int| 0 <= m < ps.len() ==> ps[m].0 != k,
    ensures
        !pairs_map(ps).contains_key(k),
    decreases ps.len(),
{
    lemma_pairs_map_snoc(ps);
    if ps.len() > 0 {
        lemma_pairs_map_none(ps.drop_last(), k);
    }
}

/// Index of the last pair with key `k`: the pair that gives its value.
pub fn map_get(ps: &Vec<(String, String)>, k: &[char]) -> (r: Option<usize>)
    ensures
        r matches Some(i) ==> i < ps@.len() && pairs_map(pairs_view(ps@)).contains_key(k@)
            && pairs_map(pairs_view(ps@))[k@] == ps@[i as int].1@,
        r is None ==> !pairs_map(pairs_view(ps@)).contains_key(k@),
{
    let mut j = ps.len();
    while j > 0
        invariant
            j <= ps@.len(),
            forall|m: int| j <= m < ps@.len() ==> pairs_view(ps@)[m].0 != k@,
        decreases j,
    {
        let key = chars_of(ps[j - 1].0.as_str());
        if chars_eq(&key, k) {
            proof {
                lemma_pairs_map_at(pairs_view(ps@), j - 1, k@);
            }
            return Some(j - 1);
        }
        j = j - 1;
    }
    proof {
        lemma_pairs_map_none(pairs_view(ps@), k@);
    }
    None
}

/// The keys of a configuration file that a field takes.
pub open spec fn is_field_key(k: Seq<char>) -> bool {
    k == "proc_name"@ || k == "exec_dir"@ || k == "exec_name"@ || k == "exec_args"@ || k
        == "active"@
}

/// Reading the lines of a configuration file into key/value pairs: blank
/// lines and lines starting with `#` are skipped, any other line must hold
/// a `=`; key and value are trimmed. An error carries the offending line.
#[verifier::opaque]
pub open spec fn cfg_lines_from(acc: Seq<(Seq<char>, Seq<char>)>, ls: Seq<Seq<char>>) -> Result<
    Seq<(Seq<char>, Seq<char>)>,
    Seq<char>,
>
    decreases ls.len(),
{
    if ls.len() == 0 {
        Ok(acc)
    } else {
        let t = trim(ls[0]);
        if t.len() == 0 || t[0] == '#' {
            cfg_lines_from(acc, ls.drop_first())
        } else {
            match split_once(t, '=') {
                None => Err(t),
                Some(kv) => cfg_lines_from(acc.push((trim(kv.0), trim(kv.1))), ls.drop_first()),
            }
        }
    }
}

proof fn lemma_cfg_lines_from_cons(acc: Seq<(Seq<char>, Seq<char>)>, ls: Seq<Seq<char>>)
    ensures
        ls.len() == 0 ==> cfg_lines_from(acc, ls) == Ok::<_, Seq<char>>(acc),
        ls.len() > 0 ==> cfg_lines_from(acc, ls) == ({
            let t = trim(ls[0]);
            if t.len() == 0 || t[0] == '#' {
                cfg_lines_from(acc, ls.drop_first())
            } else {
                match split_once(t, '=') {
                    None => Err(t),
                    Some(kv) => cfg_lines_from(
                        acc.push((trim(kv.0), trim(kv.1))),
                        ls.drop_first(),
                    ),
                }
            }
        }),
{
    reveal(cfg_lines_from);
}

/// What a configuration file says, or the message of its refusal.
pub open spec fn parse_config_spec(s: Seq<char>) -> Result<ConfigView, Seq<char>> {
    match cfg_lines_from(seq![], split_char(s, '\n')) {
        Err(line) => Err("Invalid line: "@ + line),
        Ok(ps) => {
            let m = pairs_map(ps);
            if !m.contains_key("proc_name"@) {
                Err("missing proc_name"@)
            } else if !m.contains_key("exec_dir"@) {
                Err("missing exec_dir"@)
            } else if !m.contains_key("exec_name"@) {
                Err("missing exec_name"@)
            } else {
                Ok(
                    ConfigView {
                        proc_name: m["proc_name"@],
                        exec_dir: m["exec_dir"@],
                        exec_name: m["exec_name"@],
                        exec_args: if m.contains_key("exec_args"@) {
                            words(m["exec_args"@])
                        } else {
                            seq![]
                        },
                        active: if m.contains_key("active"@) {
                            m["active"@] == "true"@ || m["active"@] == "1"@
                        } else {
                            true
                        },
                        extra: m.filter_keys(|k: Seq<char>| !is_field_key(k)),
                    },
                )
            }
        },
    }
}

/// A copy of a string.
fn copy_string(s: &String) -> (r: String)
    ensures
        r@ == s@,
{
    string_of(&chars_of(s.as_str()))
}

proof fn lemma_filter_snoc(ps: Seq<(Seq<char>, Seq<char>)>, p: (Seq<char>, Seq<char>))
    ensures
        pairs_map(ps.push(p)).filter_keys(|k: Seq<char>| !is_field_key(k)) =~= if is_field_key(
            p.0,
        ) {
            pairs_map(ps).filter_keys(|k: Seq<char>| !is_field_key(k))
        } else {
            pairs_map(ps).filter_keys(|k: Seq<char>| !is_field_key(k)).insert(p.0, p.1)
        },
{
    lemma_pairs_map_snoc(ps.push(p));
    assert(ps.push(p).drop_last() =~= ps);
}

impl PmProcessConfig {
    /// Reads a configuration file: `key=value` lines, blank lines and `#`
    /// comments; `proc_name`, `exec_dir` and `exec_name` are required,
    /// `exec_args` is split on whitespace, `active` is on unless it is
    /// neither `true` nor `1`; other keys are kept in `extra`.
    pub fn from_str(s: &str) -> (r: Result<PmProcessConfig, String>)
        ensures
            match parse_config_spec(s@) {
                Ok(c) => r matches Ok(x) && x@ == c,
                Err(m) => r matches Err(x) && x@ == m,
            },
    {
        let lines = split_on_char(&chars_of(s), '\n');
        let mut entries: Vec<(String, String)> = Vec::new();
        let mut i: usize = 0;
        proof {
            assert(chars_views(lines@).skip(0) =~= chars_views(lines@));
            assert(pairs_view(entries@) =~= Seq::<(Seq<char>, Seq<char>)>::empty());
        }
        while i < lines.len()
            invariant
                i <= lines@.len(),
                chars_views(lines@) == split_char(s@, '\n'),
                cfg_lines_from(seq![], split_char(s@, '\n')) == cfg_lines_from(
                    pairs_view(entries@),
                    chars_views(lines@).skip(i as int),
                ),
            decreases lines.len() - i,
        {
            let ghost rest = chars_views(lines@).skip(i as int);
            let ghost acc = pairs_view(entries@);
            proof {
                lemma_cfg_lines_from_cons(acc, rest);
                assert(rest.drop_first() =~= chars_views(lines@).skip(i + 1));
                assert(rest[0] == lines@[i as int]@);
            }
            let t = trimmed(&lines[i]);
            if t.len() == 0 || t[0] == '#' {
                i = i + 1;
                continue;
            }
            match split_once_exec(&t, '=') {
                None => {
                    let mut msg = chars_of("Invalid line: ");
                    append_chars(&mut msg, &t);
                    return Err(string_of(&msg));
                },
                Some((k, v)) => {
                    let kt = string_of(&trimmed(&k));
                    let vt = string_of(&trimmed(&v));
                    entries.push((kt, vt));
                    assert(pairs_view(entries@) =~= acc.push((kt@, vt@)));
                },
            }
            i = i + 1;
        }
        proof {
            lemma_cfg_lines_from_cons(pairs_view(entries@), chars_views(lines@).skip(i as int));
        }
        let ghost m = pairs_map(pairs_view(entries@));
        let proc_name = match map_get(&entries, &chars_of("proc_name")) {
            Some(j) => copy_string(&entries[j].1),
            None => {
                return Err(string_of(&chars_of("missing proc_name")));
            },
        };
        let exec_dir = match map_get(&entries, &chars_of("exec_dir")) {
            Some(j) => copy_string(&entries[j].1),
            None => {
                return Err(string_of(&chars_of("missing exec_dir")));
            },
        };
        let exec_name = match map_get(&entries, &chars_of("exec_name")) {
            Some(j) => copy_string(&entries[j].1),
            None => {
                return Err(string_of(&chars_of("missing exec_name")));
            },
        };
        let exec_args = match map_get(&entries, &chars_of("exec_args")) {
            Some(j) => to_strings(&split_ws(&chars_of(entries[j].1.as_str()))),
            None => Vec::new(),
        };
        let active = match map_get(&entries, &chars_of("active")) {
            Some(j) => {
                let v = chars_of(entries[j].1.as_str());
                chars_eq(&v, &chars_of("true")) || chars_eq(&v, &chars_of("1"))
            },
            None => true,
        };
        // the remaining keys
        let mut extra: Vec<(String, String)> = Vec::new();
        let mut j: usize = 0;
        proof {
            lemma_pairs_map_snoc(Seq::<(Seq<char>, Seq<char>)>::empty());
            lemma_pairs_map_snoc(pairs_view(extra@));
            assert(pairs_view(entries@).take(0) =~= Seq::<(Seq<char>, Seq<char>)>::empty());
            assert(pairs_map(Seq::<(Seq<char>, Seq<char>)>::empty()).filter_keys(
                |k: Seq<char>| !is_field_key(k),
            ) =~= Map::<Seq<char>, Seq<char>>::empty());
        }
        while j < entries.len()
            invariant
                j <= entries@.len(),
                pairs_map(pairs_view(extra@)) == pairs_map(pairs_view(entries@).take(j as int)).filter_keys(
                    |k: Seq<char>| !is_field_key(k),
                ),
            decreases entries.len() - j,
        {
            let key = chars_of(entries[j].0.as_str());
            let reserved = chars_eq(&key, &chars_of("proc_name")) || chars_eq(
                &key,
                &chars_of("exec_dir"),
            ) || chars_eq(&key, &chars_of("exec_name")) || chars_eq(&key, &chars_of("exec_args"))
                || chars_eq(&key, &chars_of("active"));
            let ghost pv = pairs_view(entries@);
            proof {
                assert(pv.take(j + 1) =~= pv.take(j as int).push(pv[j as int]));
                lemma_filter_snoc(pv.take(j as int), pv[j as int]);
            }
            if !reserved {
                let ghost before = pairs_view(extra@);
                extra.push((copy_string(&entries[j].0), copy_string(&entries[j].1)));
                proof {
                    assert(pairs_view(extra@).drop_last() =~= before);
                    lemma_pairs_map_snoc(pairs_view(extra@));
                }
            }
            j = j + 1;
        }
        assert(pairs_view(entries@).take(entries@.len() as int) =~= pairs_view(entries@));
        let r = PmProcessConfig { proc_name, exec_dir, exec_name, exec_args, active, extra };
        proof {
            if !m.contains_key("exec_args"@) {
                assert(strings_view(r.exec_args@) =~= Seq::<Seq<char>>::empty());
            } else {
                assert(strings_view(r.exec_args@) == words(m["exec_args"@]));
            }
        }
        Ok(r)
    }
}


/// The words joined with single spaces (`[String]::join(" ")`).
#[verifier::opaque]
pub open spec fn join_spaces(ws: Seq<Seq<char>>) -> Seq<char>
    decreases ws.len(),
{
    if ws.len() == 0 {
        seq![]
    } else if ws.len() == 1 {
        ws[0]
    } else {
        join_spaces(ws.drop_last()) + seq![' '] + ws.last()
    }
}

pub proof fn lemma_join_spaces_snoc(ws: Seq<Seq<char>>)
    ensures
        ws.len() == 0 ==> join_spaces(ws) == Seq::<char>::empty(),
        ws.len() == 1 ==> join_spaces(ws) == ws[0],
        ws.len() > 1 ==> join_spaces(ws) == join_spaces(ws.drop_last()) + seq![' '] + ws.last(),
{
    reveal(join_spaces);
}

/// Joins strings with a separator.
pub fn join_strings(v: &Vec<String>, sep: char) -> (r: Vec<char>)
    ensures
        sep == ' ' ==> r@ == join_spaces(strings_view(v@)),
{
    let mut out: Vec<char> = Vec::new();
    let mut i: usize = 0;
    proof {
        assert(strings_view(v@).take(0) =~= Seq::<Seq<char>>::empty());
        lemma_join_spaces_snoc(Seq::<Seq<char>>::empty());
    }
    while i < v.len()
        invariant
            i <= v@.len(),
            sep == ' ' ==> out@ == join_spaces(strings_view(v@).take(i as int)),
        decreases v.len() - i,
    {
        let ghost old_out = out@;
        let ghost pre = strings_view(v@).take(i + 1);
        if i > 0 {
            out.push(sep);
        }
        append_chars(&mut out, &chars_of(v[i].as_str()));
        proof {
            lemma_join_spaces_snoc(pre);
            assert(pre.drop_last() =~= strings_view(v@).take(i as int));
            if i == 0 {
                assert(strings_view(v@).take(0) =~= Seq::<Seq<char>>::empty());
                lemma_join_spaces_snoc(Seq::<Seq<char>>::empty());
            }
        }
        i = i + 1;
    }
    assert(strings_view(v@).take(v@.len() as int) =~= strings_view(v@));
    out
}

/// The text of a configuration file, as `dump` writes it.
pub open spec fn dump_spec(c: ConfigView) -> Seq<char> {
    "proc_name="@ + c.proc_name + seq!['\n'] + "exec_dir="@ + c.exec_dir + seq!['\n']
        + "exec_name="@ + c.exec_name + seq!['\n'] + "exec_args="@ + join_spaces(c.exec_args)
        + seq!['\n'] + "active="@ + (if c.active {
        "1"@
    } else {
        "0"@
    }) + seq!['\n']
}

impl PmProcessConfig {
    /// The configuration file for this process: one `key=value` line for
    /// each field, arguments joined with spaces, `active` as `1` or `0`.
    /// Keys in `extra` are not written.
    pub fn dump(&self) -> (r: String)
        ensures
            r@ == dump_spec(self@),
    {
        let mut out = chars_of("proc_name=");
        append_chars(&mut out, &chars_of(self.proc_name.as_str()));
        out.push('\n');
        append_chars(&mut out, &chars_of("exec_dir="));
        append_chars(&mut out, &chars_of(self.exec_dir.as_str()));
        out.push('\n');
        append_chars(&mut out, &chars_of("exec_name="));
        append_chars(&mut out, &chars_of(self.exec_name.as_str()));
        out.push('\n');
        append_chars(&mut out, &chars_of("exec_args="));
        let args = join_strings(&self.exec_args, ' ');
        append_chars(&mut out, &args);
        out.push('\n');
        append_chars(&mut out, &chars_of("active="));
        if self.active {
            append_chars(&mut out, &chars_of("1"));
        } else {
            append_chars(&mut out, &chars_of("0"));
        }
        out.push('\n');
        string_of(&out)
    }
}


// ---------------------------------------------------------------------------
// A dumped configuration reads back.
// ---------------------------------------------------------------------------

/// A value that a configuration line holds as it is: no line break, and no
/// whitespace at either end.
pub open spec fn line_value(v: Seq<char>) -> bool {
    lacks(v, '\n') && trim(v) == v
}

/// `key=value`.
pub open spec fn kv_line(k: Seq<char>, v: Seq<char>) -> Seq<char> {
    k + seq!['='] + v
}

proof fn lemma_kv_line_lacks(k: Seq<char>, v: Seq<char>)
    requires
        plain_word(k),
        lacks(v, '\n'),
    ensures
        lacks(kv_line(k, v), '\n'),
{
    reveal(lacks);
    let l = kv_line(k, v);
    assert forall|i: int| 0 <= i < l.len() implies l[i] != '\n' by {
        if i < k.len() {
            assert(l[i] == k[i]);
            assert(!is_ws(k[i]));
        } else if i > k.len() {
            assert(l[i] == v[i - k.len() - 1]);
        }
    }
}

proof fn lemma_kv_line(k: Seq<char>, v: Seq<char>)
    requires
        plain_word(k),
        lacks(k, '='),
        line_value(v),
    ensures
        lacks(kv_line(k, v), '\n'),
        trim(kv_line(k, v)) == kv_line(k, v),
        kv_line(k, v).len() > 0,
        split_once(kv_line(k, v), '=') == Some((k, v)),
        trim(k) == k,
        kv_line(k, v)[0] == k[0],
{
    reveal(lacks);
    let l = kv_line(k, v);
    assert forall|i: int| 0 <= i < l.len() implies l[i] != '\n' by {
        if i < k.len() {
            assert(l[i] == k[i]);
            assert(!is_ws(k[i]));
        } else if i > k.len() {
            assert(l[i] == v[i - k.len() - 1]);
        }
    }
    assert(l[0] == k[0]);
    assert(!is_ws(k[0]));
    if v.len() > 0 {
        assert(l.last() == v.last());
        lemma_trim_last(v);
    } else {
        assert(l.last() == '=');
    }
    lemma_trim_id(l);
    assert forall|i: int| 0 <= i < k.len() implies l[i] != '=' by {
        assert(l[i] == k[i]);
    }
    lemma_first_index_at(l, '=', k.len() as int);
    assert(l.take(k.len() as int) =~= k);
    assert(l.skip(k.len() as int + 1) =~= v);
    assert(!is_ws(k.last()));
    lemma_trim_id(k);
}

/// A non-empty text that is its own trim ends with no whitespace.
proof fn lemma_trim_last(v: Seq<char>)
    requires
        v.len() > 0,
        trim(v) == v,
    ensures
        !is_ws(v.last()),
        !is_ws(v[0]),
{
    lemma_trim_start_len(v);
    let ts = crate::text::trim_start(v);
    lemma_trim_end_len(ts);
    if is_ws(v[0]) {
        assert(trim(v).len() < v.len());
    } else {
        assert(ts == v);
        if is_ws(v.last()) {
            assert(trim(v).len() < v.len());
        }
    }
}

proof fn lemma_trim_start_len(v: Seq<char>)
    ensures
        crate::text::trim_start(v).len() <= v.len(),
        v.len() > 0 && is_ws(v[0]) ==> crate::text::trim_start(v).len() < v.len(),
    decreases v.len(),
{
    if v.len() > 0 {
        lemma_trim_start_len(v.drop_first());
    }
}

proof fn lemma_trim_end_len(v: Seq<char>)
    ensures
        crate::text::trim_end(v).len() <= v.len(),
        v.len() > 0 && is_ws(v.last()) ==> crate::text::trim_end(v).len() < v.len(),
    decreases v.len(),
{
    if v.len() > 0 {
        lemma_trim_end_len(v.drop_last());
    }
}

/// The words joined with spaces are the words joined with a space
/// separator.
proof fn lemma_join_spaces_sep(ws: Seq<Seq<char>>)
    ensures
        join_spaces(ws) == join_sep(ws, seq![' ']),
    decreases ws.len(),
{
    lemma_join_spaces_snoc(ws);
    lemma_join_sep_snoc(ws, seq![' ']);
    if ws.len() > 1 {
        lemma_join_spaces_sep(ws.drop_last());
    }
}

/// Plain words joined with spaces neither start nor end with whitespace
/// and hold no line break.
proof fn lemma_join_line_value(ws: Seq<Seq<char>>)
    requires
        forall|i: int| 0 <= i < ws.len() ==> plain_word(#[trigger] ws[i]),
    ensures
        line_value(join_sep(ws, seq![' '])),
    decreases ws.len(),
{
    reveal(lacks);
    let j = join_sep(ws, seq![' ']);
    lemma_join_sep_snoc(ws, seq![' ']);
    if ws.len() == 0 {
        lemma_trim_id(j);
    } else if ws.len() == 1 {
        assert(plain_word(ws[0]));
        lemma_trim_id(j);
    } else {
        let init = ws.drop_last();
        assert forall|i: int| 0 <= i < init.len() implies plain_word(#[trigger] init[i]) by {
            assert(init[i] == ws[i]);
        }
        lemma_join_line_value(init);
        lemma_join_sep_cons(ws, seq![' ']);
        let a = join_sep(init, seq![' ']);
        assert(plain_word(ws[0]));
        assert(plain_word(ws.last()));
        assert(j == a + seq![' '] + ws.last());
        assert(j[0] == ws[0][0]);
        assert(j.last() == ws.last().last());
        lemma_trim_id(j);
        assert forall|i: int| 0 <= i < j.len() implies j[i] != '\n' by {
            if i < a.len() {
                assert(j[i] == a[i]);
            } else if i > a.len() {
                assert(j[i] == ws.last()[i - a.len() - 1]);
                assert(!is_ws(ws.last()[i - a.len() - 1]));
            }
        }
    }
}

proof fn lemma_cfg_line_step(acc: Seq<(Seq<char>, Seq<char>)>, l: Seq<char>, k: Seq<char>, v: Seq<char>, rest: Seq<Seq<char>>)
    requires
        trim(l) == l,
        l.len() > 0,
        l[0] != '#',
        split_once(l, '=') == Some((k, v)),
        trim(k) == k,
        trim(v) == v,
    ensures
        cfg_lines_from(acc, seq![l] + rest) == cfg_lines_from(acc.push((k, v)), rest),
{
    reveal(cfg_lines_from);
    let ls = seq![l] + rest;
    assert(ls[0] == l);
    assert(ls.drop_first() =~= rest);
}

/// What one line of a dump reads as.
proof fn lemma_dump_line(acc: Seq<(Seq<char>, Seq<char>)>, k: Seq<char>, v: Seq<char>, rest: Seq<Seq<char>>)
    requires
        plain_word(k),
        lacks(k, '='),
        k[0] != '#',
        line_value(v),
    ensures
        cfg_lines_from(acc, seq![kv_line(k, v)] + rest) == cfg_lines_from(acc.push((k, v)), rest),
{
    lemma_kv_line(k, v);
    lemma_cfg_line_step(acc, kv_line(k, v), k, v, rest);
}

/// The lines of a dumped configuration.
pub open spec fn dump_lines(c: ConfigView) -> Seq<Seq<char>> {
    seq![
        kv_line("proc_name"@, c.proc_name),
        kv_line("exec_dir"@, c.exec_dir),
        kv_line("exec_name"@, c.exec_name),
        kv_line("exec_args"@, join_sep(c.exec_args, seq![' '])),
        kv_line("active"@, if c.active { "1"@ } else { "0"@ }),
        seq![],
    ]
}

/// The keys of a dumped configuration, as plain keys.
proof fn lemma_field_keys()
    ensures
        plain_word("proc_name"@) && lacks("proc_name"@, '='),
        plain_word("exec_dir"@) && lacks("exec_dir"@, '='),
        plain_word("exec_name"@) && lacks("exec_name"@, '='),
        plain_word("exec_args"@) && lacks("exec_args"@, '='),
        plain_word("active"@) && lacks("active"@, '='),
        line_value("1"@) && line_value("0"@),
        "proc_name"@ != "exec_dir"@ && "proc_name"@ != "exec_name"@ && "proc_name"@ != "exec_args"@
            && "proc_name"@ != "active"@,
        "exec_dir"@ != "exec_name"@ && "exec_dir"@ != "exec_args"@ && "exec_dir"@ != "active"@,
        "exec_name"@ != "exec_args"@ && "exec_name"@ != "active"@,
        "exec_args"@ != "active"@,
        "1"@ != "true"@,
        "0"@ != "true"@ && "0"@ != "1"@,
        "proc_name"@[0] != '#' && "exec_dir"@[0] != '#' && "exec_name"@[0] != '#' && "exec_args"@[0] != '#'
            && "active"@[0] != '#',
{
    reveal(lacks);
    reveal_strlit("proc_name");
    reveal_strlit("exec_dir");
    reveal_strlit("exec_name");
    reveal_strlit("exec_args");
    reveal_strlit("active");
    reveal_strlit("1");
    reveal_strlit("0");
    reveal_strlit("true");
    lemma_trim_id("1"@);
    lemma_trim_id("0"@);
    assert("proc_name"@[0] != "exec_name"@[0]);
    assert("proc_name"@[0] != "exec_args"@[0]);
    assert("exec_name"@[5] != "exec_args"@[5]);
    assert("1"@[0] != "0"@[0]);
}

/// Five lines, each ended by a line break, split into the five lines and an
/// empty last piece.
proof fn lemma_split_five(l: Seq<Seq<char>>)
    requires
        l.len() == 5,
        forall|i: int| 0 <= i < 5 ==> lacks(#[trigger] l[i], '\n'),
    ensures
        split_char(l[0] + seq!['\n'] + (l[1] + seq!['\n'] + (l[2] + seq!['\n'] + (l[3] + seq!['\n'] + (l[4] + seq!['\n'] + Seq::<char>::empty())))), '\n')
            == seq![l[0], l[1], l[2], l[3], l[4], Seq::<char>::empty()],
{
    let nl = seq!['\n'];
    let e = Seq::<char>::empty();
    let r5 = l[4] + nl + e;
    let r4 = l[3] + nl + r5;
    let r3 = l[2] + nl + r4;
    let r2 = l[1] + nl + r3;
    assert(lacks(e, '\n')) by {
        reveal(lacks);
    }
    assert(lacks(l[0], '\n') && lacks(l[1], '\n') && lacks(l[2], '\n') && lacks(l[3], '\n') && lacks(l[4], '\n'));
    lemma_split_char_none(e, '\n');
    lemma_split_char_concat(l[4], e, '\n');
    lemma_split_char_concat(l[3], r5, '\n');
    lemma_split_char_concat(l[2], r4, '\n');
    lemma_split_char_concat(l[1], r3, '\n');
    lemma_split_char_concat(l[0], r2, '\n');
    assert(split_char(l[0] + nl + r2, '\n') =~= seq![l[0], l[1], l[2], l[3], l[4], e]);
}

/// The text of a dump is its lines, each ended by a line break.
proof fn lemma_dump_text(c: ConfigView)
    ensures
        ({
            let l = dump_lines(c);
            dump_spec(c) == l[0] + seq!['\n'] + (l[1] + seq!['\n'] + (l[2] + seq!['\n'] + (l[3] + seq!['\n'] + (l[4] + seq!['\n'] + Seq::<char>::empty()))))
        }),
{
    reveal_strlit("proc_name=");
    reveal_strlit("exec_dir=");
    reveal_strlit("exec_name=");
    reveal_strlit("exec_args=");
    reveal_strlit("active=");
    reveal_strlit("proc_name");
    reveal_strlit("exec_dir");
    reveal_strlit("exec_name");
    reveal_strlit("exec_args");
    reveal_strlit("active");
    lemma_join_spaces_sep(c.exec_args);
    assert("proc_name="@ =~= "proc_name"@ + seq!['=']);
    assert("exec_dir="@ =~= "exec_dir"@ + seq!['=']);
    assert("exec_name="@ =~= "exec_name"@ + seq!['=']);
    assert("exec_args="@ =~= "exec_args"@ + seq!['=']);
    assert("active="@ =~= "active"@ + seq!['=']);
    let l = dump_lines(c);
    assert(dump_spec(c) =~= l[0] + seq!['\n'] + (l[1] + seq!['\n'] + (l[2] + seq!['\n'] + (l[3] + seq!['\n'] + (l[4] + seq!['\n'] + Seq::<char>::empty())))));
}

/// The text of a dump is its lines joined by line breaks.
proof fn lemma_dump_split(c: ConfigView)
    requires
        line_value(c.proc_name),
        line_value(c.exec_dir),
        line_value(c.exec_name),
        forall|i: int| 0 <= i < c.exec_args.len() ==> plain_word(#[trigger] c.exec_args[i]),
    ensures
        split_char(dump_spec(c), '\n') == dump_lines(c),
{
    lemma_field_keys();
    lemma_join_line_value(c.exec_args);
    let act: Seq<char> = if c.active { "1"@ } else { "0"@ };
    lemma_kv_line_lacks("proc_name"@, c.proc_name);
    lemma_kv_line_lacks("exec_dir"@, c.exec_dir);
    lemma_kv_line_lacks("exec_name"@, c.exec_name);
    lemma_kv_line_lacks("exec_args"@, join_sep(c.exec_args, seq![' ']));
    assert(line_value(act));
    lemma_kv_line_lacks("active"@, act);
    let l = dump_lines(c);
    let five = l.take(5);
    assert forall|i: int| 0 <= i < 5 implies lacks(#[trigger] five[i], '\n') by {
        assert(five[i] == l[i]);
    }
    lemma_split_five(five);
    lemma_dump_text(c);
    assert(seq![five[0], five[1], five[2], five[3], five[4], Seq::<char>::empty()] =~= l);
}

/// The pairs read from the lines of a dump.
proof fn lemma_dump_pairs(c: ConfigView)
    requires
        line_value(c.proc_name),
        line_value(c.exec_dir),
        line_value(c.exec_name),
        forall|i: int| 0 <= i < c.exec_args.len() ==> plain_word(#[trigger] c.exec_args[i]),
    ensures
        cfg_lines_from(seq![], dump_lines(c)) == Ok::<_, Seq<char>>(seq![
            ("proc_name"@, c.proc_name),
            ("exec_dir"@, c.exec_dir),
            ("exec_name"@, c.exec_name),
            ("exec_args"@, join_sep(c.exec_args, seq![' '])),
            ("active"@, if c.active { "1"@ } else { "0"@ }),
        ]),
{
    lemma_field_keys();
    lemma_join_line_value(c.exec_args);
    let act: Seq<char> = if c.active { "1"@ } else { "0"@ };
    let j = join_sep(c.exec_args, seq![' ']);
    let ls = dump_lines(c);
    let e = Seq::<(Seq<char>, Seq<char>)>::empty();
    let empty_line = Seq::<char>::empty();
    assert(ls =~= seq![kv_line("proc_name"@, c.proc_name)] + ls.drop_first());
    lemma_dump_line(e, "proc_name"@, c.proc_name, ls.drop_first());
    let a1 = e.push(("proc_name"@, c.proc_name));
    let s1 = ls.drop_first();
    assert(s1 =~= seq![kv_line("exec_dir"@, c.exec_dir)] + s1.drop_first());
    lemma_dump_line(a1, "exec_dir"@, c.exec_dir, s1.drop_first());
    let a2 = a1.push(("exec_dir"@, c.exec_dir));
    let s2 = s1.drop_first();
    assert(s2 =~= seq![kv_line("exec_name"@, c.exec_name)] + s2.drop_first());
    lemma_dump_line(a2, "exec_name"@, c.exec_name, s2.drop_first());
    let a3 = a2.push(("exec_name"@, c.exec_name));
    let s3 = s2.drop_first();
    assert(s3 =~= seq![kv_line("exec_args"@, j)] + s3.drop_first());
    lemma_dump_line(a3, "exec_args"@, j, s3.drop_first());
    let a4 = a3.push(("exec_args"@, j));
    let s4 = s3.drop_first();
    assert(s4 =~= seq![kv_line("active"@, act)] + s4.drop_first());
    lemma_dump_line(a4, "active"@, act, s4.drop_first());
    let a5 = a4.push(("active"@, act));
    let s5 = s4.drop_first();
    assert(s5 =~= seq![empty_line]);
    lemma_cfg_lines_from_cons(a5, s5);
    lemma_trim_id(empty_line);
    assert(s5.drop_first() =~= Seq::<Seq<char>>::empty());
    lemma_cfg_lines_from_cons(a5, s5.drop_first());
    assert(a5 =~= seq![
        ("proc_name"@, c.proc_name),
        ("exec_dir"@, c.exec_dir),
        ("exec_name"@, c.exec_name),
        ("exec_args"@, j),
        ("active"@, act),
    ]);
}

/// A configuration that `dump` writes reads back, through `from_str`, as the
/// same configuration without extra keys, when its name and paths fit on a
/// line as they are (no line break, no whitespace at either end) and its
/// arguments are words. This is what `revive` relies on to start again the
/// processes that `dump` saved.
pub proof fn lemma_dump_read_back(c: ConfigView)
    requires
        line_value(c.proc_name),
        line_value(c.exec_dir),
        line_value(c.exec_name),
        forall|i: int| 0 <= i < c.exec_args.len() ==> plain_word(#[trigger] c.exec_args[i]),
    ensures
        parse_config_spec(dump_spec(c)) == Ok::<ConfigView, Seq<char>>(
            ConfigView {
                proc_name: c.proc_name,
                exec_dir: c.exec_dir,
                exec_name: c.exec_name,
                exec_args: c.exec_args,
                active: c.active,
                extra: Map::empty(),
            },
        ),
{
    lemma_field_keys();
    lemma_dump_split(c);
    lemma_dump_pairs(c);
    lemma_words_join(c.exec_args);
    let act: Seq<char> = if c.active { "1"@ } else { "0"@ };
    let j = join_sep(c.exec_args, seq![' ']);
    let ps = seq![
        ("proc_name"@, c.proc_name),
        ("exec_dir"@, c.exec_dir),
        ("exec_name"@, c.exec_name),
        ("exec_args"@, j),
        ("active"@, act),
    ];
    lemma_pairs_map_snoc(ps);
    lemma_pairs_map_snoc(ps.drop_last());
    lemma_pairs_map_snoc(ps.drop_last().drop_last());
    lemma_pairs_map_snoc(ps.drop_last().drop_last().drop_last());
    lemma_pairs_map_snoc(ps.drop_last().drop_last().drop_last().drop_last());
    lemma_pairs_map_snoc(ps.drop_last().drop_last().drop_last().drop_last().drop_last());
    let m = pairs_map(ps);
    assert(m == Map::<Seq<char>, Seq<char>>::empty().insert("proc_name"@, c.proc_name).insert(
        "exec_dir"@,
        c.exec_dir,
    ).insert("exec_name"@, c.exec_name).insert("exec_args"@, j).insert("active"@, act));
    assert(m.filter_keys(|k: Seq<char>| !is_field_key(k)) =~= Map::<Seq<char>, Seq<char>>::empty());
}


/// Lines, each ended by a line break.
pub open spec fn lines_text(ls: Seq<Seq<char>>) -> Seq<char>
    decreases ls.len(),
{
    if ls.len() == 0 {
        Seq::empty()
    } else {
        ls[0] + seq!['\n'] + lines_text(ls.drop_first())
    }
}

/// A pair that a configuration file can hold on a line of its own as
/// `key=value`: a key without whitespace, `=` or a leading `#`, and a value
/// without a line break or whitespace at either end.
pub open spec fn file_pair(p: (Seq<char>, Seq<char>)) -> bool {
    plain_word(p.0) && lacks(p.0, '=') && p.0[0] != '#' && line_value(p.1)
}

/// The `key=value` lines of some pairs.
pub open spec fn pair_lines(ps: Seq<(Seq<char>, Seq<char>)>) -> Seq<Seq<char>>
    decreases ps.len(),
{
    if ps.len() == 0 {
        Seq::empty()
    } else {
        seq![kv_line(ps[0].0, ps[0].1)] + pair_lines(ps.drop_first())
    }
}

proof fn lemma_lines_text_split(ls: Seq<Seq<char>>)
    requires
        forall|i: int| 0 <= i < ls.len() ==> lacks(#[trigger] ls[i], '\n'),
    ensures
        split_char(lines_text(ls), '\n') == ls.push(Seq::<char>::empty()),
    decreases ls.len(),
{
    if ls.len() == 0 {
        assert(lacks(Seq::<char>::empty(), '\n')) by {
            reveal(lacks);
        }
        lemma_split_char_none(Seq::<char>::empty(), '\n');
        assert(ls.push(Seq::<char>::empty()) =~= seq![Seq::<char>::empty()]);
    } else {
        let rest = ls.drop_first();
        assert forall|i: int| 0 <= i < rest.len() implies lacks(#[trigger] rest[i], '\n') by {
            assert(rest[i] == ls[i + 1]);
        }
        lemma_lines_text_split(rest);
        assert(lacks(ls[0], '\n'));
        lemma_split_char_concat(ls[0], lines_text(rest), '\n');
        assert(ls.push(Seq::<char>::empty()) =~= seq![ls[0]] + rest.push(Seq::<char>::empty()));
    }
}

proof fn lemma_pair_lines_facts(ps: Seq<(Seq<char>, Seq<char>)>)
    requires
        forall|i: int| 0 <= i < ps.len() ==> file_pair(#[trigger] ps[i]),
    ensures
        forall|i: int| 0 <= i < pair_lines(ps).len() ==> lacks(#[trigger] pair_lines(ps)[i], '\n'),
        pair_lines(ps).len() == ps.len(),
    decreases ps.len(),
{
    if ps.len() > 0 {
        let rest = ps.drop_first();
        assert forall|i: int| 0 <= i < rest.len() implies file_pair(#[trigger] rest[i]) by {
            assert(rest[i] == ps[i + 1]);
        }
        lemma_pair_lines_facts(rest);
        assert(file_pair(ps[0]));
        lemma_kv_line(ps[0].0, ps[0].1);
        let l = pair_lines(ps);
        assert forall|i: int| 0 <= i < l.len() implies lacks(#[trigger] l[i], '\n') by {
            if i > 0 {
                assert(l[i] == pair_lines(rest)[i - 1]);
            }
        }
    }
}

proof fn lemma_pair_lines_read(acc: Seq<(Seq<char>, Seq<char>)>, ps: Seq<(Seq<char>, Seq<char>)>)
    requires
        forall|i: int| 0 <= i < ps.len() ==> file_pair(#[trigger] ps[i]),
    ensures
        cfg_lines_from(acc, pair_lines(ps).push(Seq::<char>::empty())) == Ok::<_, Seq<char>>(acc + ps),
    decreases ps.len(),
{
    let e = Seq::<char>::empty();
    if ps.len() == 0 {
        let ls = seq![e];
        assert(pair_lines(ps).push(e) =~= ls);
        lemma_trim_id(e);
        lemma_cfg_lines_from_cons(acc, ls);
        assert(ls.drop_first() =~= Seq::<Seq<char>>::empty());
        lemma_cfg_lines_from_cons(acc, ls.drop_first());
        assert(acc + ps =~= acc);
    } else {
        let rest = ps.drop_first();
        assert forall|i: int| 0 <= i < rest.len() implies file_pair(#[trigger] rest[i]) by {
            assert(rest[i] == ps[i + 1]);
        }
        assert(file_pair(ps[0]));
        lemma_pair_lines_read(acc.push(ps[0]), rest);
        assert(pair_lines(ps).push(e) =~= seq![kv_line(ps[0].0, ps[0].1)] + pair_lines(rest).push(e));
        lemma_dump_line(acc, ps[0].0, ps[0].1, pair_lines(rest).push(e));
        assert(acc.push(ps[0]) + rest =~= acc + ps);
    }
}

/// Reading a configuration file of `key=value` lines that has its
/// `proc_name`, `exec_dir` and `exec_name` lines: it is read, and for each
/// key the last line decides. The name and the two paths are the values of
/// their lines. The value `true` or `1` of the `active` line makes the
/// process active, any other value inactive; a file without an `active`
/// line is active.
pub proof fn lemma_config_file_read(ps: Seq<(Seq<char>, Seq<char>)>)
    requires
        forall|i: int| 0 <= i < ps.len() ==> file_pair(#[trigger] ps[i]),
        exists|i: int| 0 <= i < ps.len() && ps[i].0 == "proc_name"@,
        exists|i: int| 0 <= i < ps.len() && ps[i].0 == "exec_dir"@,
        exists|i: int| 0 <= i < ps.len() && ps[i].0 == "exec_name"@,
    ensures
        parse_config_spec(lines_text(pair_lines(ps))) matches Ok(r) && {
            &&& (forall|i: int| 0 <= i < ps.len() ==> ps[i].0 != "active"@) ==> r.active
            &&& forall|i: int|
                0 <= i < ps.len() && #[trigger] ps[i].0 == "active"@ && (forall|j: int|
                    i < j < ps.len() ==> ps[j].0 != "active"@) ==> (r.active <==> (ps[i].1 == "true"@
                    || ps[i].1 == "1"@))
            &&& forall|i: int|
                0 <= i < ps.len() && #[trigger] ps[i].0 == "proc_name"@ && (forall|j: int|
                    i < j < ps.len() ==> ps[j].0 != "proc_name"@) ==> r.proc_name == ps[i].1
            &&& forall|i: int|
                0 <= i < ps.len() && #[trigger] ps[i].0 == "exec_dir"@ && (forall|j: int|
                    i < j < ps.len() ==> ps[j].0 != "exec_dir"@) ==> r.exec_dir == ps[i].1
            &&& forall|i: int|
                0 <= i < ps.len() && #[trigger] ps[i].0 == "exec_name"@ && (forall|j: int|
                    i < j < ps.len() ==> ps[j].0 != "exec_name"@) ==> r.exec_name == ps[i].1
        },
{
    lemma_pair_lines_facts(ps);
    lemma_lines_text_split(pair_lines(ps));
    let e = Seq::<(Seq<char>, Seq<char>)>::empty();
    lemma_pair_lines_read(e, ps);
    assert(e + ps =~= ps);
    let m = pairs_map(ps);
    let k1 = "proc_name"@;
    let k2 = "exec_dir"@;
    let k3 = "exec_name"@;
    let i1 = choose|i: int| 0 <= i < ps.len() && ps[i].0 == k1;
    let i2 = choose|i: int| 0 <= i < ps.len() && ps[i].0 == k2;
    let i3 = choose|i: int| 0 <= i < ps.len() && ps[i].0 == k3;
    lemma_pairs_map_has(ps, i1, k1);
    lemma_pairs_map_has(ps, i2, k2);
    lemma_pairs_map_has(ps, i3, k3);
    let r = parse_config_spec(lines_text(pair_lines(ps)));
    assert(r is Ok);
    if forall|i: int| 0 <= i < ps.len() ==> ps[i].0 != "active"@ {
        lemma_pairs_map_none(ps, "active"@);
    }
    assert forall|i: int|
        0 <= i < ps.len() && #[trigger] ps[i].0 == "active"@ && (forall|j: int|
            i < j < ps.len() ==> ps[j].0 != "active"@) implies (r->Ok_0.active <==> (ps[i].1 == "true"@
            || ps[i].1 == "1"@)) by {
        lemma_pairs_map_at(ps, i, "active"@);
    }
    assert forall|i: int|
        0 <= i < ps.len() && #[trigger] ps[i].0 == "proc_name"@ && (forall|j: int|
            i < j < ps.len() ==> ps[j].0 != "proc_name"@) implies r->Ok_0.proc_name == ps[i].1 by {
        lemma_pairs_map_at(ps, i, "proc_name"@);
    }
    assert forall|i: int|
        0 <= i < ps.len() && #[trigger] ps[i].0 == "exec_dir"@ && (forall|j: int|
            i < j < ps.len() ==> ps[j].0 != "exec_dir"@) implies r->Ok_0.exec_dir == ps[i].1 by {
        lemma_pairs_map_at(ps, i, "exec_dir"@);
    }
    assert forall|i: int|
        0 <= i < ps.len() && #[trigger] ps[i].0 == "exec_name"@ && (forall|j: int|
            i < j < ps.len() ==> ps[j].0 != "exec_name"@) implies r->Ok_0.exec_name == ps[i].1 by {
        lemma_pairs_map_at(ps, i, "exec_name"@);
    }
}

/// A key that some pair has is in the map.
proof fn lemma_pairs_map_has(ps: Seq<(Seq<char>, Seq<char>)>, i: int, k: Seq<char>)
    requires
        0 <= i < ps.len(),
        ps[i].0 == k,
    ensures
        pairs_map(ps).contains_key(k),
    decreases ps.len(),
{
    lemma_pairs_map_snoc(ps);
    if i < ps.len() - 1 && ps.last().0 != k {
        lemma_pairs_map_has(ps.drop_last(), i, k);
    }
}

} // verus!
