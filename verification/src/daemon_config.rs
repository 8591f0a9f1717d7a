//! The daemon's settings and the file in which it hands the port and the
//! key to the command-line client.
use vstd::prelude::*;
use crate::encryption::{b64_decode, b64_encode, b64_url_decode, b64_url_encode, random_bytes};
use crate::text::{
    append_chars, chars_of, dec, is_ws, lemma_dec_digits, lemma_first_index_at, lemma_parse_dec,
    lacks, lemma_split_char_concat, lemma_split_char_none, lemma_trim_id, parse_u16, parse_unsigned_spec,
    split_char, split_on_char, split_once, split_once_exec, chars_eq, chars_views, string_of, trim,
    trimmed, u64_to_chars, is_digit,
};

verus! {

broadcast use vstd::seq_lib::group_seq_properties;

/// The port of the command channel when it is free.
pub const DEFAULT_PORT: u16 = 8046;

/// The port of the metrics API when it is free.
pub const DEFAULT_METRICS_API_PORT: u16 = 8096;

/// The daemon's settings.
pub struct DaemonConfig {
    pub port: u16,
    pub key_b64: String,
    pub metrics_api_port: u16,
    pub metrics_api_addr: String,
}

/// The 32 bytes of a key, when the text decodes to exactly 32 bytes.
pub open spec fn key_of(text: Seq<char>) -> Option<Seq<u8>> {
    match b64_url_decode(text) {
        Some(b) => if b.len() == 32 {
            Some(b)
        } else {
            None
        },
        None => None,
    }
}

/// Decodes a key: `Some` exactly when the text is base64 of 32 bytes.
pub fn decode_key(text: &str) -> (r: Option<[u8; 32]>)
    ensures
        r matches Some(k) ==> key_of(text@) == Some(k@),
        r is None ==> key_of(text@) is None,
{
    match b64_decode(text) {
        Ok(bytes) => {
            if bytes.len() != 32 {
                return None;
            }
            let mut k = [0u8; 32];
            let mut i: usize = 0;
            while i < 32
                invariant
                    i <= 32,
                    bytes@.len() == 32,
                    forall|j: int| 0 <= j < i ==> k@[j] == bytes@[j],
                decreases 32 - i,
            {
                k[i] = bytes[i];
                i = i + 1;
            }
            assert(k@ =~= bytes@);
            Some(k)
        },
        Err(_) => None,
    }
}

impl DaemonConfig {
    /// The key of the command channel. The key text must decode to 32
    /// bytes (the daemon writes it so; `checked_key` is the total form).
    pub fn key(&self) -> (r: [u8; 32])
        requires
            key_of(self.key_b64@) is Some,
        ensures
            key_of(self.key_b64@) == Some(r@),
    {
        match decode_key(self.key_b64.as_str()) {
            Some(k) => k,
            None => {
                assert(false);
                [0u8; 32]
            },
        }
    }

    /// The key of the command channel, when the key text decodes to 32
    /// bytes.
    pub fn checked_key(&self) -> (r: Option<[u8; 32]>)
        ensures
            r matches Some(k) ==> key_of(self.key_b64@) == Some(k@),
            r is None ==> key_of(self.key_b64@) is None,
    {
        decode_key(self.key_b64.as_str())
    }

    /// The text of a freshly drawn key.
    pub fn encode_key(key: &[u8; 32]) -> (r: String)
        ensures
            r@ == b64_url_encode(key@),
            key_of(r@) == Some(key@),
    {
        b64_encode(key)
    }

    /// A fresh key for the command channel, drawn from the operating
    /// system's random source, as text; none when the source fails.
    /// Whatever was drawn, the text decodes to those 32 bytes.
    pub fn fresh_key_text() -> (r: Option<String>)
        ensures
            r matches Some(t) ==> key_of(t@) is Some,
            r matches Some(t) ==> exists|k: Seq<u8>| k.len() == 32 && t@ == #[trigger] b64_url_encode(k) && key_of(t@) == Some(k),
    {
        let bytes = match random_bytes(32) {
            Some(b) => b,
            None => {
                return None;
            },
        };
        let mut key = [0u8; 32];
        let mut i: usize = 0;
        while i < 32
            invariant
                i <= 32,
                bytes@.len() == 32,
            decreases 32 - i,
        {
            key[i] = bytes[i];
            i = i + 1;
        }
        let t = Self::encode_key(&key);
        assert(key@.len() == 32 && t@ == b64_url_encode(key@) && key_of(t@) == Some(key@));
        Some(t)
    }

    /// `config.proc`, the file from which the client learns the port and
    /// the key: `port=<port>` and `token=<key>` on two lines.
    pub fn config_file_text(&self) -> (r: String)
        ensures
            r@ == "port="@ + dec(self.port as nat) + "\ntoken="@ + self.key_b64@,
    {
        let mut out = chars_of("port=");
        append_chars(&mut out, &u64_to_chars(self.port as u64));
        append_chars(&mut out, &chars_of("\ntoken="));
        append_chars(&mut out, &chars_of(self.key_b64.as_str()));
        string_of(&out)
    }

    /// `pm3.env` as the daemon first writes it.
    pub fn env_file_text(api_port: u16) -> (r: String)
        ensures
            r@ == "PM3_IP=127.0.0.1\nPM3_API_PORT="@ + dec(api_port as nat) + "\n"@,
    {
        let mut out = chars_of("PM3_IP=127.0.0.1\nPM3_API_PORT=");
        append_chars(&mut out, &u64_to_chars(api_port as u64));
        append_chars(&mut out, &chars_of("\n"));
        string_of(&out)
    }

    /// The port of the metrics API from `PM3_API_PORT`: its value when it is
    /// a port number, else 8096.
    pub fn api_port_from_env(value: Option<&str>) -> (r: u16)
        ensures
            r == match value {
                Some(v) => match parse_unsigned_spec(v@, u16::MAX as nat) {
                    Some(p) => p as u16,
                    None => 8096u16,
                },
                None => 8096u16,
            },
    {
        match value {
            Some(v) => match parse_u16(&chars_of(v)) {
                Some(p) => p,
                None => 8096,
            },
            None => 8096,
        }
    }

    /// The address of the metrics API from `PM3_IP`, `127.0.0.1` by default.
    pub fn api_addr_from_env(value: Option<&str>) -> (r: String)
        ensures
            r@ == match value {
                Some(v) => v@,
                None => "127.0.0.1"@,
            },
    {
        match value {
            Some(v) => string_of(&chars_of(v)),
            None => string_of(&chars_of("127.0.0.1")),
        }
    }
}

// ---------------------------------------------------------------------------
// The client's view of `config.proc`.
// ---------------------------------------------------------------------------

/// The port and key that the client reads from `config.proc`.
pub struct Config {
    pub port: u16,
    pub key: String,
}

/// Reading one line of `config.proc` into `(port, token)`; `None` when a
/// `port` line holds no port number (where the client panics).
pub open spec fn client_cfg_step(acc: Option<(u16, Seq<char>)>, line: Seq<char>) -> Option<(u16, Seq<char>)> {
    match acc {
        None => None,
        Some(a) => match split_once(trim(line), '=') {
            None => Some(a),
            Some(kv) => if trim(kv.0) == "port"@ {
                match parse_unsigned_spec(trim(kv.1), u16::MAX as nat) {
                    Some(p) => Some((p as u16, a.1)),
                    None => None,
                }
            } else if trim(kv.0) == "token"@ {
                Some((a.0, trim(kv.1)))
            } else {
                Some(a)
            },
        },
    }
}

#[verifier::opaque]
pub open spec fn client_cfg_from(acc: Option<(u16, Seq<char>)>, ls: Seq<Seq<char>>) -> Option<(u16, Seq<char>)>
    decreases ls.len(),
{
    if ls.len() == 0 {
        acc
    } else {
        client_cfg_from(client_cfg_step(acc, ls[0]), ls.drop_first())
    }
}

/// What `config.proc` says: the last `port` and `token` lines win; port 0
/// and an empty token when absent.
pub open spec fn client_cfg_spec(content: Seq<char>) -> Option<(u16, Seq<char>)> {
    client_cfg_from(Some((0u16, seq![])), split_char(content, '\n'))
}

impl Config {
    /// Reads `config.proc`; `None` when a `port` line holds no port number.
    pub fn parse(content: &str) -> (r: Option<Config>)
        ensures
            match client_cfg_spec(content@) {
                Some(p) => r matches Some(c) && c.port == p.0 && c.key@ == p.1,
                None => r is None,
            },
    {
        let lines = split_on_char(&chars_of(content), '\n');
        let mut port: u16 = 0;
        let mut token: Vec<char> = Vec::new();
        let mut i: usize = 0;
        proof {
            assert(chars_views(lines@).skip(0) =~= chars_views(lines@));
            assert(token@ =~= Seq::<char>::empty());
        }
        while i < lines.len()
            invariant
                i <= lines@.len(),
                chars_views(lines@) == split_char(content@, '\n'),
                client_cfg_spec(content@) == client_cfg_from(Some((port, token@)), chars_views(lines@).skip(i as int)),
            decreases lines.len() - i,
        {
            let ghost rest = chars_views(lines@).skip(i as int);
            proof {
                reveal(client_cfg_from);
                assert(rest.drop_first() =~= chars_views(lines@).skip(i + 1));
                assert(rest[0] == lines@[i as int]@);
            }
            let t = trimmed(&lines[i]);
            match split_once_exec(&t, '=') {
                None => {},
                Some((k, v)) => {
                    let kt = trimmed(&k);
                    let vt = trimmed(&v);
                    if chars_eq(&kt, &chars_of("port")) {
                        match parse_u16(&vt) {
                            Some(p) => {
                                port = p;
                            },
                            None => {
                                proof {
                                    lemma_client_cfg_none(chars_views(lines@).skip(i + 1));
                                }
                                return None;
                            },
                        }
                    } else if chars_eq(&kt, &chars_of("token")) {
                        token = vt;
                    }
                },
            }
            i = i + 1;
        }
        proof {
            reveal(client_cfg_from);
        }
        Some(Config { port, key: string_of(&token) })
    }

    /// The key of the command channel; the key text must decode to 32
    /// bytes (`checked_key` is the total form).
    pub fn key(&self) -> (r: [u8; 32])
        requires
            key_of(self.key@) is Some,
        ensures
            key_of(self.key@) == Some(r@),
    {
        match decode_key(self.key.as_str()) {
            Some(k) => k,
            None => {
                assert(false);
                [0u8; 32]
            },
        }
    }

    /// The key of the command channel, when the key text decodes to 32
    /// bytes.
    pub fn checked_key(&self) -> (r: Option<[u8; 32]>)
        ensures
            r matches Some(k) ==> key_of(self.key@) == Some(k@),
            r is None ==> key_of(self.key@) is None,
    {
        decode_key(self.key.as_str())
    }
}

proof fn lemma_client_cfg_none(ls: Seq<Seq<char>>)
    ensures
        client_cfg_from(None, ls) is None,
    decreases ls.len(),
{
    reveal(client_cfg_from);
    if ls.len() > 0 {
        lemma_client_cfg_none(ls.drop_first());
    }
}


proof fn lemma_port_line(port: u16)
    ensures
        client_cfg_step(Some((0u16, seq![])), "port="@ + dec(port as nat)) == Some(
            (port, Seq::<char>::empty()),
        ),
        lacks("port="@ + dec(port as nat), '\n'),
{
    reveal(lacks);
    reveal_strlit("port=");
    reveal_strlit("port");
    let d = dec(port as nat);
    lemma_dec_digits(port as nat);
    let l1 = "port="@ + d;
    assert forall|k: int| 0 <= k < l1.len() implies l1[k] != '\n' && (k >= 5 ==> is_digit(l1[k])) by {
        if k >= 5 {
            assert(l1[k] == d[k - 5]);
        }
    }
    assert(is_digit(l1.last()));
    lemma_trim_id(l1);
    lemma_first_index_at(l1, '=', 4);
    assert(l1.take(4) =~= "port"@);
    assert(l1.skip(5) =~= d);
    lemma_trim_id("port"@);
    assert(is_digit(d[0]));
    assert(is_digit(d.last()));
    lemma_trim_id(d);
    lemma_parse_dec(port as nat, u16::MAX as nat);
}

proof fn lemma_token_line(port: u16, key: Seq<char>)
    requires
        forall|i: int| 0 <= i < key.len() ==> !is_ws(#[trigger] key[i]),
    ensures
        client_cfg_step(Some((port, Seq::<char>::empty())), "token="@ + key) == Some((port, key)),
        lacks("token="@ + key, '\n'),
{
    reveal(lacks);
    reveal_strlit("token=");
    reveal_strlit("token");
    reveal_strlit("port");
    let l2 = "token="@ + key;
    assert forall|k: int| 0 <= k < l2.len() implies l2[k] != '\n' by {
        if k >= 6 {
            assert(l2[k] == key[k - 6]);
        }
    }
    if key.len() > 0 {
        assert(l2.last() == key[key.len() - 1]);
    }
    lemma_trim_id(l2);
    lemma_first_index_at(l2, '=', 5);
    assert(l2.take(5) =~= "token"@);
    assert(l2.skip(6) =~= key);
    lemma_trim_id("token"@);
    if key.len() > 0 {
        assert(!is_ws(key[0]));
        assert(!is_ws(key[key.len() - 1]));
    }
    lemma_trim_id(key);
    assert("token"@[0] != "port"@[0]);
}

proof fn lemma_client_cfg_two(a: Option<(u16, Seq<char>)>, l1: Seq<char>, l2: Seq<char>)
    ensures
        client_cfg_from(a, seq![l1, l2]) == client_cfg_step(client_cfg_step(a, l1), l2),
{
    reveal(client_cfg_from);
    let s1 = client_cfg_step(a, l1);
    let s2 = client_cfg_step(s1, l2);
    assert(seq![l1, l2].drop_first() =~= seq![l2]);
    assert(seq![l2].drop_first() =~= Seq::<Seq<char>>::empty());
    assert(client_cfg_from(s2, Seq::<Seq<char>>::empty()) == s2);
    assert(client_cfg_from(s1, seq![l2]) == client_cfg_from(s2, Seq::<Seq<char>>::empty()));
    assert(client_cfg_from(a, seq![l1, l2]) == client_cfg_from(s1, seq![l2]));
}

/// The client reads back the port and the key that the daemon writes to
/// `config.proc`, for a key text without whitespace (as base64 text is).
pub proof fn lemma_client_reads_config_file(c: DaemonConfig)
    requires
        forall|i: int| 0 <= i < c.key_b64@.len() ==> !is_ws(#[trigger] c.key_b64@[i]),
    ensures
        client_cfg_spec("port="@ + dec(c.port as nat) + "\ntoken="@ + c.key_b64@) == Some(
            (c.port, c.key_b64@),
        ),
{
    let key = c.key_b64@;
    let l1 = "port="@ + dec(c.port as nat);
    let l2 = "token="@ + key;
    let text = "port="@ + dec(c.port as nat) + "\ntoken="@ + key;
    assert(text == l1 + seq!['\n'] + l2) by {
        reveal_strlit("\ntoken=");
        reveal_strlit("token=");
        assert("\ntoken="@ =~= seq!['\n'] + "token="@);
        assert(text =~= l1 + seq!['\n'] + l2);
    }
    assert(split_char(text, '\n') == seq![l1, l2]) by {
        lemma_port_line(c.port);
        lemma_token_line(c.port, key);
        lemma_split_char_concat(l1, l2, '\n');
        lemma_split_char_none(l2, '\n');
        assert(seq![l1] + seq![l2] =~= seq![l1, l2]);
    }
    lemma_client_cfg_two(Some((0u16, seq![])), l1, l2);
    lemma_port_line(c.port);
    lemma_token_line(c.port, key);
}

} // verus!
