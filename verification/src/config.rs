//! Client and server configuration: the typed settings structs, the
//! `key: value` parameter loader, and the text primitives it rests on
//! (decimal numbers, booleans, line splitting and trimming).

use vstd::prelude::*;
use crate::errors::MqttError;

verus! {

/// A decimal digit.
pub open spec fn is_digit(c: char) -> bool {
    48 <= c as u32 <= 57
}

/// A non-empty, all-digit character sequence.
pub open spec fn dec_digits(s: Seq<char>) -> bool {
    s.len() > 0 && forall|j: int| 0 <= j < s.len() ==> is_digit(#[trigger] s[j])
}

/// The number a digit sequence spells, most significant first.
pub open spec fn dec_value(s: Seq<char>) -> int
    decreases s.len(),
{
    if s.len() == 0 {
        0
    } else {
        dec_value(s.drop_last()) * 10 + (s.last() as u32 - 48)
    }
}

/// A digit sequence spells a non-negative number.
proof fn lemma_dec_value_nonneg(s: Seq<char>)
    requires
        forall|j: int| 0 <= j < s.len() ==> is_digit(#[trigger] s[j]),
    ensures
        dec_value(s) >= 0,
    decreases s.len(),
{
    if s.len() > 0 {
        assert(forall|j: int|
            0 <= j < s.drop_last().len() ==> is_digit(#[trigger] s.drop_last()[j]));
        lemma_dec_value_nonneg(s.drop_last());
    }
}

/// Reading more digits never shrinks the number.
proof fn lemma_dec_value_mono(s: Seq<char>, i: int)
    requires
        0 <= i <= s.len(),
        forall|j: int| 0 <= j < s.len() ==> is_digit(#[trigger] s[j]),
    ensures
        dec_value(s.take(i)) <= dec_value(s),
    decreases s.len() - i,
{
    if i == s.len() {
        assert(s.take(i) =~= s);
    } else {
        assert(s.take(i + 1).drop_last() =~= s.take(i));
        assert(s.take(i + 1).last() == s[i]);
        assert(forall|j: int| 0 <= j < s.take(i).len() ==> is_digit(#[trigger] s.take(i)[j]));
        lemma_dec_value_nonneg(s.take(i));
        assert(dec_value(s.take(i + 1)) == dec_value(s.take(i)) * 10 + (s[i] as u32 - 48));
        lemma_dec_value_mono(s, i + 1);
    }
}

/// Read a decimal number; `None` exactly when the text is not a
/// non-empty digit string or the number does not fit.
pub fn parse_decimal_u32(s: &str) -> (r: Option<u32>)
    ensures
        match r {
            Some(n) => dec_digits(s@) && dec_value(s@) == n as int,
            None => !dec_digits(s@) || dec_value(s@) > u32::MAX,
        },
{
    let len = s.unicode_len();
    if len == 0 {
        return None;
    }
    let mut acc: u64 = 0;
    let mut i: usize = 0;
    assert(s@.take(0) =~= Seq::<char>::empty());
    while i < len
        invariant
            i <= len,
            len == s@.len(),
            acc as int == dec_value(s@.take(i as int)),
            acc <= u32::MAX,
            forall|j: int| 0 <= j < i ==> is_digit(#[trigger] s@[j]),
        decreases len - i,
    {
        let c = s.get_char(i);
        let cv = c as u32;
        if cv < 48 || cv > 57 {
            assert(!is_digit(s@[i as int]));
            assert(!dec_digits(s@));
            return None;
        }
        let d = (cv - 48) as u64;
        let acc2: u64 = acc * 10 + d;
        proof {
            assert(s@.take(i as int + 1).drop_last() =~= s@.take(i as int));
            assert(s@.take(i as int + 1).last() == s@[i as int]);
            assert(acc2 as int == dec_value(s@.take(i as int + 1)));
        }
        if acc2 > 0xFFFFFFFF {
            proof {
                if dec_digits(s@) {
                    lemma_dec_value_mono(s@, i as int + 1);
                }
            }
            return None;
        }
        acc = acc2;
        i = i + 1;
    }
    assert(s@.take(len as int) =~= s@);
    Some(acc as u32)
}

/// Read a decimal number into sixteen bits; `None` exactly when the
/// text is not a non-empty digit string or the number does not fit.
pub fn parse_decimal_u16(s: &str) -> (r: Option<u16>)
    ensures
        match r {
            Some(n) => dec_digits(s@) && dec_value(s@) == n as int,
            None => !dec_digits(s@) || dec_value(s@) > u16::MAX,
        },
{
    match parse_decimal_u32(s) {
        Some(n) => {
            if n <= 65535 {
                Some(n as u16)
            } else {
                None
            }
        },
        None => {
            proof {
                if dec_digits(s@) {
                    assert(dec_value(s@) > u32::MAX);
                }
            }
            None
        },
    }
}

/// Read a decimal number into eight bits.
pub fn parse_decimal_u8(s: &str) -> (r: Option<u8>)
    ensures
        match r {
            Some(n) => dec_digits(s@) && dec_value(s@) == n as int,
            None => !dec_digits(s@) || dec_value(s@) > u8::MAX,
        },
{
    match parse_decimal_u32(s) {
        Some(n) => {
            if n <= 255 {
                Some(n as u8)
            } else {
                None
            }
        },
        None => {
            proof {
                if dec_digits(s@) {
                    assert(dec_value(s@) > u32::MAX);
                }
            }
            None
        },
    }
}

/// Compare two strings by their characters.
pub fn string_eq(a: &str, b: &str) -> (r: bool)
    ensures
        r == (a@ == b@),
{
    let x = a.to_owned();
    let y = b.to_owned();
    x == y
}

/// What a boolean setting may spell.
pub open spec fn spec_parse_bool(s: Seq<char>) -> Option<bool> {
    if s == "true"@ {
        Some(true)
    } else if s == "false"@ {
        Some(false)
    } else {
        None
    }
}

/// Read a boolean setting: exactly "true" or "false".
pub fn parse_bool(s: &str) -> (r: Option<bool>)
    ensures
        r == spec_parse_bool(s@),
{
    if string_eq(s, "true") {
        Some(true)
    } else if string_eq(s, "false") {
        Some(false)
    } else {
        None
    }
}

// ---------------------------------------------------------------------
// Configuration lines
// ---------------------------------------------------------------------

/// A blank character around a key or value.
pub open spec fn is_space(c: char) -> bool {
    c == ' ' || c == '\t' || c == '\r'
}

/// Drop leading blanks.
pub open spec fn trim_front(s: Seq<char>) -> Seq<char>
    decreases s.len(),
{
    if s.len() > 0 && is_space(s[0]) {
        trim_front(s.drop_first())
    } else {
        s
    }
}

/// Drop trailing blanks.
pub open spec fn trim_back(s: Seq<char>) -> Seq<char>
    decreases s.len(),
{
    if s.len() > 0 && is_space(s.last()) {
        trim_back(s.drop_last())
    } else {
        s
    }
}

/// Drop blanks on both sides.
pub open spec fn trim(s: Seq<char>) -> Seq<char> {
    trim_back(trim_front(s))
}

/// Split at the first colon; no colon means no entry.
pub open spec fn split_at_colon(s: Seq<char>) -> Option<(Seq<char>, Seq<char>)>
    decreases s.len(),
{
    if s.len() == 0 {
        None
    } else if s[0] == ':' {
        Some((Seq::empty(), s.drop_first()))
    } else {
        match split_at_colon(s.drop_first()) {
            Some((k, v)) => Some((seq![s[0]] + k, v)),
            None => None,
        }
    }
}

/// One configuration line: key and value split at the first colon,
/// blanks trimmed from both.
pub open spec fn spec_parse_config_line(s: Seq<char>) -> Option<(Seq<char>, Seq<char>)> {
    match split_at_colon(s) {
        Some((k, v)) => Some((trim(k), trim(v))),
        None => None,
    }
}

/// Splitting at the first colon takes what stands before it and
/// leaves what follows.
proof fn lemma_split_at_colon_found(s: Seq<char>, ci: int)
    requires
        0 <= ci < s.len(),
        s[ci] == ':',
        forall|j: int| 0 <= j < ci ==> s[j] != ':',
    ensures
        split_at_colon(s) == Some((s.take(ci), s.skip(ci + 1))),
    decreases ci,
{
    if ci == 0 {
        assert(s.take(0) =~= Seq::<char>::empty());
        assert(s.skip(1) =~= s.drop_first());
    } else {
        let t = s.drop_first();
        assert(t[ci - 1] == ':');
        assert(forall|j: int| 0 <= j < ci - 1 ==> #[trigger] t[j] == s[j + 1] && s[j + 1] != ':');
        lemma_split_at_colon_found(t, ci - 1);
        assert(seq![s[0]] + t.take(ci - 1) =~= s.take(ci));
        assert(t.skip(ci) =~= s.skip(ci + 1));
    }
}

/// A line without a colon is no entry.
proof fn lemma_split_at_colon_none(s: Seq<char>)
    requires
        forall|j: int| 0 <= j < s.len() ==> s[j] != ':',
    ensures
        split_at_colon(s) == None::<(Seq<char>, Seq<char>)>,
    decreases s.len(),
{
    if s.len() > 0 {
        let t = s.drop_first();
        assert(forall|j: int| 0 <= j < t.len() ==> #[trigger] t[j] == s[j + 1] && s[j + 1] != ':');
        lemma_split_at_colon_none(t);
    }
}

/// Blanks up to the first non-blank are exactly what trimming the
/// front drops.
proof fn lemma_trim_front_idx(s: Seq<char>, a: int)
    requires
        0 <= a <= s.len(),
        forall|j: int| 0 <= j < a ==> is_space(#[trigger] s[j]),
        a < s.len() ==> !is_space(s[a]),
    ensures
        trim_front(s) == s.skip(a),
    decreases a,
{
    if a == 0 {
        assert(s.skip(0) =~= s);
    } else {
        let t = s.drop_first();
        assert(is_space(s[0]));
        assert(forall|j: int| 0 <= j < a - 1 ==> #[trigger] t[j] == s[j + 1] && is_space(s[j + 1]));
        assert(a - 1 < t.len() ==> t[a - 1] == s[a]);
        lemma_trim_front_idx(t, a - 1);
        assert(t.skip(a - 1) =~= s.skip(a));
    }
}

/// Blanks after the last non-blank are exactly what trimming the back
/// drops.
proof fn lemma_trim_back_idx(s: Seq<char>, b: int)
    requires
        0 <= b <= s.len(),
        forall|j: int| b <= j < s.len() ==> is_space(#[trigger] s[j]),
        b > 0 ==> !is_space(s[b - 1]),
    ensures
        trim_back(s) == s.take(b),
    decreases s.len(),
{
    if b == s.len() {
        assert(s.take(b) =~= s);
    } else {
        assert(is_space(s.last()));
        let t = s.drop_last();
        assert(forall|j: int| b <= j < t.len() ==> #[trigger] t[j] == s[j] && is_space(s[j]));
        assert(b > 0 ==> t[b - 1] == s[b - 1]);
        lemma_trim_back_idx(t, b);
        assert(t.take(b) =~= s.take(b));
    }
}

/// Whether a character is a blank.
fn char_is_space(c: char) -> (r: bool)
    ensures
        r == is_space(c),
{
    c == ' ' || c == '\t' || c == '\r'
}

/// The position of the first non-blank character.
fn first_non_space(s: &str) -> (a: usize)
    ensures
        a <= s@.len(),
        forall|j: int| 0 <= j < a ==> is_space(#[trigger] s@[j]),
        a < s@.len() ==> !is_space(s@[a as int]),
{
    let len = s.unicode_len();
    let mut a: usize = 0;
    while a < len
        invariant
            a <= len,
            len == s@.len(),
            forall|j: int| 0 <= j < a ==> is_space(#[trigger] s@[j]),
        decreases len - a,
    {
        if !char_is_space(s.get_char(a)) {
            return a;
        }
        a = a + 1;
    }
    a
}

/// One past the position of the last non-blank character.
fn after_last_non_space(s: &str) -> (b: usize)
    ensures
        b <= s@.len(),
        forall|j: int| b <= j < s@.len() ==> is_space(#[trigger] s@[j]),
        b > 0 ==> !is_space(s@[b - 1]),
{
    let len = s.unicode_len();
    let mut b: usize = len;
    while b > 0
        invariant
            b <= len,
            len == s@.len(),
            forall|j: int| b <= j < s@.len() ==> is_space(#[trigger] s@[j]),
        decreases b,
    {
        if !char_is_space(s.get_char(b - 1)) {
            return b;
        }
        b = b - 1;
    }
    b
}

/// Copy a string with the blanks trimmed from both sides.
fn trim_str(s: &str) -> (r: String)
    ensures
        r@ == trim(s@),
{
    let a = first_non_space(s);
    proof {
        lemma_trim_front_idx(s@, a as int);
    }
    let b = after_last_non_space(s);
    if a >= b {
        proof {
            lemma_trim_back_idx(s@.skip(a as int), 0);
            assert(s@.skip(a as int).take(0) =~= Seq::<char>::empty());
            assert(forall|j: int|
                0 <= j < s@.skip(a as int).len() ==> #[trigger] s@.skip(a as int)[j] == s@[j
                    + a] && is_space(s@[j + a]));
        }
        String::new()
    } else {
        proof {
            let t = s@.skip(a as int);
            assert(forall|j: int|
                b - a <= j < t.len() ==> #[trigger] t[j] == s@[j + a] && is_space(s@[j + a]));
            assert(t[b - a - 1] == s@[b - 1]);
            lemma_trim_back_idx(t, b - a);
            assert(t.take(b - a) =~= s@.subrange(a as int, b as int));
        }
        let piece = s.substring_char(a, b);
        piece.to_owned()
    }
}

/// Read one `key: value` line; `None` exactly when the line has no
/// colon.
pub fn parse_config_line(line: &str) -> (r: Option<(String, String)>)
    ensures
        match spec_parse_config_line(line@) {
            Some((k, v)) => r matches Some(p) && p.0@ == k && p.1@ == v,
            None => r == None::<(String, String)>,
        },
{
    let len = line.unicode_len();
    let mut ci: usize = 0;
    while ci < len
        invariant
            ci <= len,
            len == line@.len(),
            forall|j: int| 0 <= j < ci ==> line@[j] != ':',
        decreases len - ci,
    {
        if line.get_char(ci) == ':' {
            proof {
                lemma_split_at_colon_found(line@, ci as int);
            }
            let key_raw = line.substring_char(0, ci);
            let val_raw = line.substring_char(ci + 1, len);
            assert(key_raw@ =~= line@.take(ci as int));
            assert(val_raw@ =~= line@.skip(ci as int + 1));
            let key = trim_str(key_raw);
            let value = trim_str(val_raw);
            return Some((key, value));
        }
        ci = ci + 1;
    }
    proof {
        lemma_split_at_colon_none(line@);
    }
    None
}

// ---------------------------------------------------------------------
// Decimal spelling, for addresses
// ---------------------------------------------------------------------

/// Decimal spelling of a number, most significant digit first.
pub open spec fn dec_chars(n: nat) -> Seq<char>
    decreases n,
{
    if n < 10 {
        seq![((48 + n) as u8) as char]
    } else {
        dec_chars(n / 10).push(((48 + n % 10) as u8) as char)
    }
}

/// One digit as text.
fn digit_str(d: u8) -> (r: &'static str)
    requires
        d < 10,
    ensures
        r@ == seq![((48 + d) as u8) as char],
{
    proof {
        reveal_strlit("0");
        reveal_strlit("1");
        reveal_strlit("2");
        reveal_strlit("3");
        reveal_strlit("4");
        reveal_strlit("5");
        reveal_strlit("6");
        reveal_strlit("7");
        reveal_strlit("8");
        reveal_strlit("9");
    }
    if d == 0 {
        "0"
    } else if d == 1 {
        "1"
    } else if d == 2 {
        "2"
    } else if d == 3 {
        "3"
    } else if d == 4 {
        "4"
    } else if d == 5 {
        "5"
    } else if d == 6 {
        "6"
    } else if d == 7 {
        "7"
    } else if d == 8 {
        "8"
    } else {
        "9"
    }
}

/// Spell a number in decimal.
pub fn u16_to_dec_string(n: u16) -> (r: String)
    ensures
        r@ == dec_chars(n as nat),
    decreases n,
{
    if n < 10 {
        digit_str(n as u8).to_owned()
    } else {
        let mut s = u16_to_dec_string(n / 10);
        s.append(digit_str((n % 10) as u8));
        assert(s@ =~= dec_chars(n as nat));
        s
    }
}

// ---------------------------------------------------------------------
// Client configuration
// ---------------------------------------------------------------------

/// Everything a client session is configured with. The loader fills
/// it from `key: value` entries named after these fields.
#[derive(Debug)]
pub struct ClientConfig {
    pub host: String,
    pub port: u16,
    pub client_id: String,
    pub keep_alive_seconds: u16,
    pub clean_start: bool,
    pub username: Option<String>,
    pub password: Option<String>,
    pub session_expiry: Option<u32>,
    pub receive_maximum: Option<u16>,
    pub maximum_packet_size: Option<u32>,
    pub topic_alias_maximum: Option<u16>,
    pub request_response_info: Option<bool>,
    pub request_problem_info: Option<bool>,
    pub auth_method: Option<String>,
    pub auth_data: Option<String>,
    pub default_publish_qos: u8,
    pub default_publish_retain: bool,
    pub topic_filter_prefix: Option<String>,
}

/// The mathematical model of a client configuration.
#[verifier::ext_equal]
pub struct ClientConfigView {
    pub host: Seq<char>,
    pub port: u16,
    pub client_id: Seq<char>,
    pub keep_alive_seconds: u16,
    pub clean_start: bool,
    pub username: Option<Seq<char>>,
    pub password: Option<Seq<char>>,
    pub session_expiry: Option<u32>,
    pub receive_maximum: Option<u16>,
    pub maximum_packet_size: Option<u32>,
    pub topic_alias_maximum: Option<u16>,
    pub request_response_info: Option<bool>,
    pub request_problem_info: Option<bool>,
    pub auth_method: Option<Seq<char>>,
    pub auth_data: Option<Seq<char>>,
    pub default_publish_qos: u8,
    pub default_publish_retain: bool,
    pub topic_filter_prefix: Option<Seq<char>>,
}

impl View for ClientConfig {
    type V = ClientConfigView;

    open spec fn view(&self) -> ClientConfigView {
        ClientConfigView {
            host: self.host@,
            port: self.port,
            client_id: self.client_id@,
            keep_alive_seconds: self.keep_alive_seconds,
            clean_start: self.clean_start,
            username: match self.username {
                Some(s) => Some(s@),
                None => None,
            },
            password: match self.password {
                Some(s) => Some(s@),
                None => None,
            },
            session_expiry: self.session_expiry,
            receive_maximum: self.receive_maximum,
            maximum_packet_size: self.maximum_packet_size,
            topic_alias_maximum: self.topic_alias_maximum,
            request_response_info: self.request_response_info,
            request_problem_info: self.request_problem_info,
            auth_method: match self.auth_method {
                Some(s) => Some(s@),
                None => None,
            },
            auth_data: match self.auth_data {
                Some(s) => Some(s@),
                None => None,
            },
            default_publish_qos: self.default_publish_qos,
            default_publish_retain: self.default_publish_retain,
            topic_filter_prefix: match self.topic_filter_prefix {
                Some(s) => Some(s@),
                None => None,
            },
        }
    }
}

/// The configuration before any entry is applied: no broker address,
/// an empty client identifier, keep-alive 60, clean start, QoS 0.
pub open spec fn spec_default_client_config() -> ClientConfigView {
    ClientConfigView {
        host: Seq::empty(),
        port: 0,
        client_id: Seq::empty(),
        keep_alive_seconds: 60,
        clean_start: true,
        username: None,
        password: None,
        session_expiry: None,
        receive_maximum: None,
        maximum_packet_size: None,
        topic_alias_maximum: None,
        request_response_info: None,
        request_problem_info: None,
        auth_method: None,
        auth_data: None,
        default_publish_qos: 0,
        default_publish_retain: false,
        topic_filter_prefix: None,
    }
}

/// A number spelled in decimal that fits sixteen bits.
pub open spec fn spec_dec_u16(s: Seq<char>) -> Option<u16> {
    if dec_digits(s) && dec_value(s) <= u16::MAX {
        Some(dec_value(s) as u16)
    } else {
        None
    }
}

/// A number spelled in decimal that fits thirty-two bits.
pub open spec fn spec_dec_u32(s: Seq<char>) -> Option<u32> {
    if dec_digits(s) && dec_value(s) <= u32::MAX {
        Some(dec_value(s) as u32)
    } else {
        None
    }
}

/// Apply one `key: value` entry to a configuration. An unknown key or
/// a value that does not parse fails the loader.
pub open spec fn apply_param(c: ClientConfigView, key: Seq<char>, value: Seq<char>) -> Option<
    ClientConfigView,
> {
    if key == "host"@ {
        Some(ClientConfigView { host: value, ..c })
    } else if key == "port"@ {
        match spec_dec_u16(value) {
            Some(p) => Some(ClientConfigView { port: p, ..c }),
            None => None,
        }
    } else if key == "client_id"@ {
        Some(ClientConfigView { client_id: value, ..c })
    } else if key == "keep_alive_seconds"@ {
        match spec_dec_u16(value) {
            Some(k) => Some(ClientConfigView { keep_alive_seconds: k, ..c }),
            None => None,
        }
    } else if key == "clean_start"@ {
        match spec_parse_bool(value) {
            Some(b) => Some(ClientConfigView { clean_start: b, ..c }),
            None => None,
        }
    } else if key == "username"@ {
        Some(ClientConfigView { username: Some(value), ..c })
    } else if key == "password"@ {
        Some(ClientConfigView { password: Some(value), ..c })
    } else if key == "session_expiry"@ {
        match spec_dec_u32(value) {
            Some(v) => Some(ClientConfigView { session_expiry: Some(v), ..c }),
            None => None,
        }
    } else if key == "receive_maximum"@ {
        match spec_dec_u16(value) {
            Some(v) => Some(ClientConfigView { receive_maximum: Some(v), ..c }),
            None => None,
        }
    } else if key == "maximum_packet_size"@ {
        match spec_dec_u32(value) {
            Some(v) => Some(ClientConfigView { maximum_packet_size: Some(v), ..c }),
            None => None,
        }
    } else if key == "topic_alias_maximum"@ {
        match spec_dec_u16(value) {
            Some(v) => Some(ClientConfigView { topic_alias_maximum: Some(v), ..c }),
            None => None,
        }
    } else if key == "request_response_info"@ {
        match spec_parse_bool(value) {
            Some(b) => Some(ClientConfigView { request_response_info: Some(b), ..c }),
            None => None,
        }
    } else if key == "request_problem_info"@ {
        match spec_parse_bool(value) {
            Some(b) => Some(ClientConfigView { request_problem_info: Some(b), ..c }),
            None => None,
        }
    } else if key == "auth_method"@ {
        Some(ClientConfigView { auth_method: Some(value), ..c })
    } else if key == "auth_data"@ {
        Some(ClientConfigView { auth_data: Some(value), ..c })
    } else if key == "default_publish_qos"@ {
        if dec_digits(value) && dec_value(value) <= 2 {
            Some(ClientConfigView { default_publish_qos: dec_value(value) as u8, ..c })
        } else {
            None
        }
    } else if key == "default_publish_retain"@ {
        match spec_parse_bool(value) {
            Some(b) => Some(ClientConfigView { default_publish_retain: b, ..c }),
            None => None,
        }
    } else if key == "topic_filter_prefix"@ {
        Some(ClientConfigView { topic_filter_prefix: Some(value), ..c })
    } else {
        None
    }
}

/// Apply entries left to right; the first bad entry fails the loader.
pub open spec fn apply_params(
    c: ClientConfigView,
    params: Seq<(Seq<char>, Seq<char>)>,
) -> Option<ClientConfigView>
    decreases params.len(),
{
    if params.len() == 0 {
        Some(c)
    } else {
        match apply_param(c, params[0].0, params[0].1) {
            Some(c2) => apply_params(c2, params.drop_first()),
            None => None,
        }
    }
}

impl Default for ClientConfig {
    /// The configuration before any entry is applied.
    fn default() -> (r: ClientConfig)
        ensures
            r@ == spec_default_client_config(),
    {
        let r = ClientConfig {
            host: String::new(),
            port: 0,
            client_id: String::new(),
            keep_alive_seconds: 60,
            clean_start: true,
            username: None,
            password: None,
            session_expiry: None,
            receive_maximum: None,
            maximum_packet_size: None,
            topic_alias_maximum: None,
            request_response_info: None,
            request_problem_info: None,
            auth_method: None,
            auth_data: None,
            default_publish_qos: 0,
            default_publish_retain: false,
            topic_filter_prefix: None,
        };
        assert(r@ =~= spec_default_client_config());
        r
    }
}

impl ClientConfig {
    /// Apply one entry in place; `BadArgument` exactly when the key is
    /// unknown or the value does not parse, leaving the configuration
    /// untouched.
    fn apply_one(&mut self, key: &String, value: &String) -> (r: Result<(), MqttError>)
        ensures
            match apply_param(old(self)@, key@, value@) {
                Some(c2) => r == Ok::<(), MqttError>(()) && final(self)@ == c2,
                None => r == Err::<(), MqttError>(MqttError::BadArgument) && *final(self) == *old(
                    self,
                ),
            },
    {
        if string_eq(key.as_str(), "host") {
            self.host = value.clone();
            assert(self@ =~= (ClientConfigView { host: value@, ..old(self)@ }));
            Ok(())
        } else if string_eq(key.as_str(), "port") {
            match parse_decimal_u16(value.as_str()) {
                Some(p) => {
                    self.port = p;
                    assert(self@ =~= (ClientConfigView { port: p, ..old(self)@ }));
                    Ok(())
                },
                None => Err(MqttError::BadArgument),
            }
        } else if string_eq(key.as_str(), "client_id") {
            self.client_id = value.clone();
            assert(self@ =~= (ClientConfigView { client_id: value@, ..old(self)@ }));
            Ok(())
        } else if string_eq(key.as_str(), "keep_alive_seconds") {
            match parse_decimal_u16(value.as_str()) {
                Some(k) => {
                    self.keep_alive_seconds = k;
                    assert(self@ =~= (ClientConfigView { keep_alive_seconds: k, ..old(self)@ }));
                    Ok(())
                },
                None => Err(MqttError::BadArgument),
            }
        } else if string_eq(key.as_str(), "clean_start") {
            match parse_bool(value.as_str()) {
                Some(b) => {
                    self.clean_start = b;
                    assert(self@ =~= (ClientConfigView { clean_start: b, ..old(self)@ }));
                    Ok(())
                },
                None => Err(MqttError::BadArgument),
            }
        } else if string_eq(key.as_str(), "username") {
            self.username = Some(value.clone());
            assert(self@ =~= (ClientConfigView { username: Some(value@), ..old(self)@ }));
            Ok(())
        } else if string_eq(key.as_str(), "password") {
            self.password = Some(value.clone());
            assert(self@ =~= (ClientConfigView { password: Some(value@), ..old(self)@ }));
            Ok(())
        } else if string_eq(key.as_str(), "session_expiry") {
            match parse_decimal_u32(value.as_str()) {
                Some(v) => {
                    self.session_expiry = Some(v);
                    assert(self@ =~= (ClientConfigView { session_expiry: Some(v), ..old(self)@ }));
                    Ok(())
                },
                None => Err(MqttError::BadArgument),
            }
        } else if string_eq(key.as_str(), "receive_maximum") {
            match parse_decimal_u16(value.as_str()) {
                Some(v) => {
                    self.receive_maximum = Some(v);
                    assert(self@ =~= (ClientConfigView { receive_maximum: Some(v), ..old(self)@ }));
                    Ok(())
                },
                None => Err(MqttError::BadArgument),
            }
        } else if string_eq(key.as_str(), "maximum_packet_size") {
            match parse_decimal_u32(value.as_str()) {
                Some(v) => {
                    self.maximum_packet_size = Some(v);
                    assert(self@ =~= (ClientConfigView {
                        maximum_packet_size: Some(v),
                        ..old(self)@
                    }));
                    Ok(())
                },
                None => Err(MqttError::BadArgument),
            }
        } else if string_eq(key.as_str(), "topic_alias_maximum") {
            match parse_decimal_u16(value.as_str()) {
                Some(v) => {
                    self.topic_alias_maximum = Some(v);
                    assert(self@ =~= (ClientConfigView {
                        topic_alias_maximum: Some(v),
                        ..old(self)@
                    }));
                    Ok(())
                },
                None => Err(MqttError::BadArgument),
            }
        } else if string_eq(key.as_str(), "request_response_info") {
            match parse_bool(value.as_str()) {
                Some(b) => {
                    self.request_response_info = Some(b);
                    assert(self@ =~= (ClientConfigView {
                        request_response_info: Some(b),
                        ..old(self)@
                    }));
                    Ok(())
                },
                None => Err(MqttError::BadArgument),
            }
        } else if string_eq(key.as_str(), "request_problem_info") {
            match parse_bool(value.as_str()) {
                Some(b) => {
                    self.request_problem_info = Some(b);
                    assert(self@ =~= (ClientConfigView {
                        request_problem_info: Some(b),
                        ..old(self)@
                    }));
                    Ok(())
                },
                None => Err(MqttError::BadArgument),
            }
        } else if string_eq(key.as_str(), "auth_method") {
            self.auth_method = Some(value.clone());
            assert(self@ =~= (ClientConfigView { auth_method: Some(value@), ..old(self)@ }));
            Ok(())
        } else if string_eq(key.as_str(), "auth_data") {
            self.auth_data = Some(value.clone());
            assert(self@ =~= (ClientConfigView { auth_data: Some(value@), ..old(self)@ }));
            Ok(())
        } else if string_eq(key.as_str(), "default_publish_qos") {
            match parse_decimal_u8(value.as_str()) {
                Some(q) => {
                    if q <= 2 {
                        self.default_publish_qos = q;
                        assert(self@ =~= (ClientConfigView {
                            default_publish_qos: q,
                            ..old(self)@
                        }));
                        Ok(())
                    } else {
                        Err(MqttError::BadArgument)
                    }
                },
                None => Err(MqttError::BadArgument),
            }
        } else if string_eq(key.as_str(), "default_publish_retain") {
            match parse_bool(value.as_str()) {
                Some(b) => {
                    self.default_publish_retain = b;
                    assert(self@ =~= (ClientConfigView {
                        default_publish_retain: b,
                        ..old(self)@
                    }));
                    Ok(())
                },
                None => Err(MqttError::BadArgument),
            }
        } else if string_eq(key.as_str(), "topic_filter_prefix") {
            self.topic_filter_prefix = Some(value.clone());
            assert(self@ =~= (ClientConfigView {
                topic_filter_prefix: Some(value@),
                ..old(self)@
            }));
            Ok(())
        } else {
            Err(MqttError::BadArgument)
        }
    }

    /// Build a configuration from `key: value` entries over the
    /// defaults; `BadArgument` exactly when some entry has an unknown
    /// key or an unreadable value.
    #[verifier::loop_isolation(false)]
    pub fn set_params(params: &[(String, String)]) -> (r: Result<ClientConfig, MqttError>)
        ensures
            ({
                let pv = params@.map_values(|p: (String, String)| (p.0@, p.1@));
                match apply_params(spec_default_client_config(), pv) {
                    Some(c) => r matches Ok(got) && got@ == c,
                    None => r == Err::<ClientConfig, MqttError>(MqttError::BadArgument),
                }
            }),
    {
        let ghost pv = params@.map_values(|p: (String, String)| (p.0@, p.1@));
        let mut config = ClientConfig::default();
        let mut i: usize = 0;
        assert(pv.skip(0) =~= pv);
        while i < params.len()
            invariant
                i <= params@.len(),
                apply_params(spec_default_client_config(), pv) == apply_params(
                    config@,
                    pv.skip(i as int),
                ),
            decreases params@.len() - i,
        {
            let ghost rest = pv.skip(i as int);
            proof {
                assert(rest[0] == (params@[i as int].0@, params@[i as int].1@));
                assert(rest.drop_first() =~= pv.skip(i as int + 1));
            }
            let pair = &params[i];
            match config.apply_one(&pair.0, &pair.1) {
                Ok(()) => {},
                Err(_) => {
                    return Err(MqttError::BadArgument);
                },
            }
            i = i + 1;
        }
        assert(pv.skip(params@.len() as int) =~= Seq::<(Seq<char>, Seq<char>)>::empty());
        Ok(config)
    }

    /// The broker address, host and port joined by a colon.
    pub fn get_address(&self) -> (r: String)
        ensures
            r@ == self@.host + ":"@ + dec_chars(self.port as nat),
    {
        let mut s = self.host.clone();
        s.append(":");
        let d = u16_to_dec_string(self.port);
        s.append(d.as_str());
        assert(s@ =~= self@.host + ":"@ + dec_chars(self.port as nat));
        s
    }
}

// ---------------------------------------------------------------------
// Server configuration
// ---------------------------------------------------------------------

/// What the demo broker side is configured with.
#[derive(Debug)]
pub struct ServerConfig {
    pub ip: String,
    pub port: u16,
}

/// The mathematical model of a server configuration.
#[verifier::ext_equal]
pub struct ServerConfigView {
    pub ip: Seq<char>,
    pub port: u16,
}

impl View for ServerConfig {
    type V = ServerConfigView;

    open spec fn view(&self) -> ServerConfigView {
        ServerConfigView { ip: self.ip@, port: self.port }
    }
}

/// Apply one `key: value` entry to a server configuration.
pub open spec fn apply_server_param(c: ServerConfigView, key: Seq<char>, value: Seq<char>) -> Option<
    ServerConfigView,
> {
    if key == "ip"@ {
        Some(ServerConfigView { ip: value, ..c })
    } else if key == "port"@ {
        match spec_dec_u16(value) {
            Some(p) => Some(ServerConfigView { port: p, ..c }),
            None => None,
        }
    } else {
        None
    }
}

/// Apply entries left to right; the first bad entry fails the loader.
pub open spec fn apply_server_params(
    c: ServerConfigView,
    params: Seq<(Seq<char>, Seq<char>)>,
) -> Option<ServerConfigView>
    decreases params.len(),
{
    if params.len() == 0 {
        Some(c)
    } else {
        match apply_server_param(c, params[0].0, params[0].1) {
            Some(c2) => apply_server_params(c2, params.drop_first()),
            None => None,
        }
    }
}

/// The server configuration before any entry is applied.
pub open spec fn spec_default_server_config() -> ServerConfigView {
    ServerConfigView { ip: Seq::empty(), port: 0 }
}

impl Default for ServerConfig {
    /// The configuration before any entry is applied.
    fn default() -> (r: ServerConfig)
        ensures
            r@ == spec_default_server_config(),
    {
        let r = ServerConfig { ip: String::new(), port: 0 };
        assert(r@ =~= spec_default_server_config());
        r
    }
}

impl ServerConfig {
    /// Build a configuration from `key: value` entries over the
    /// defaults; `BadArgument` exactly when some entry has an unknown
    /// key or an unreadable value.
    #[verifier::loop_isolation(false)]
    pub fn set_params(params: &[(String, String)]) -> (r: Result<ServerConfig, MqttError>)
        ensures
            ({
                let pv = params@.map_values(|p: (String, String)| (p.0@, p.1@));
                match apply_server_params(spec_default_server_config(), pv) {
                    Some(c) => r matches Ok(got) && got@ == c,
                    None => r == Err::<ServerConfig, MqttError>(MqttError::BadArgument),
                }
            }),
    {
        let ghost pv = params@.map_values(|p: (String, String)| (p.0@, p.1@));
        let mut config = ServerConfig::default();
        let mut i: usize = 0;
        assert(pv.skip(0) =~= pv);
        while i < params.len()
            invariant
                i <= params@.len(),
                apply_server_params(spec_default_server_config(), pv) == apply_server_params(
                    config@,
                    pv.skip(i as int),
                ),
            decreases params@.len() - i,
        {
            let ghost rest = pv.skip(i as int);
            proof {
                assert(rest[0] == (params@[i as int].0@, params@[i as int].1@));
                assert(rest.drop_first() =~= pv.skip(i as int + 1));
            }
            let pair = &params[i];
            match apply_server_one(&mut config, &pair.0, &pair.1) {
                Ok(()) => {},
                Err(_) => {
                    return Err(MqttError::BadArgument);
                },
            }
            i = i + 1;
        }
        assert(pv.skip(params@.len() as int) =~= Seq::<(Seq<char>, Seq<char>)>::empty());
        Ok(config)
    }

    /// The listening address, ip and port joined by a colon.
    pub fn get_address(&self) -> (r: String)
        ensures
            r@ == self@.ip + ":"@ + dec_chars(self.port as nat),
    {
        let mut s = self.ip.clone();
        s.append(":");
        let d = u16_to_dec_string(self.port);
        s.append(d.as_str());
        assert(s@ =~= self@.ip + ":"@ + dec_chars(self.port as nat));
        s
    }
}

/// Apply one entry in place; `BadArgument` exactly when the key is
/// unknown or the value does not parse, leaving the configuration
/// untouched.
fn apply_server_one(config: &mut ServerConfig, key: &String, value: &String) -> (r: Result<
    (),
    MqttError,
>)
    ensures
        match apply_server_param(old(config)@, key@, value@) {
            Some(c2) => r == Ok::<(), MqttError>(()) && final(config)@ == c2,
            None => r == Err::<(), MqttError>(MqttError::BadArgument) && *final(config) == *old(
                config,
            ),
        },
{
    if string_eq(key.as_str(), "ip") {
        config.ip = value.clone();
        assert(config@ =~= (ServerConfigView { ip: value@, ..old(config)@ }));
        Ok(())
    } else if string_eq(key.as_str(), "port") {
        match parse_decimal_u16(value.as_str()) {
            Some(p) => {
                config.port = p;
                assert(config@ =~= (ServerConfigView { port: p, ..old(config)@ }));
                Ok(())
            },
            None => Err(MqttError::BadArgument),
        }
    } else {
        Err(MqttError::BadArgument)
    }
}

} // verus!
