//! Service configuration and the parsing of its environment variables.

use vstd::prelude::*;

verus! {

/// The port on which gRPC is served when `GRPC_PORT` gives none.
pub const DEFAULT_GRPC_PORT: u16 = 50051;

/// The port on which HTTP is served when `HTTP_PORT` gives none.
pub const DEFAULT_HTTP_PORT: u16 = 3000;

/// The service's settings.
#[derive(Debug, Clone)]
pub struct Config {
    pub grpc_port: u16,
    pub http_port: u16,
    pub grpc_reflection: bool,
    pub version: Option<String>,
}

/// `c` is an ASCII decimal digit.
pub open spec fn is_digit(c: char) -> bool {
    '0' <= c && c <= '9'
}

/// The value of the decimal digits `digits`, most significant first.
pub open spec fn decimal_value(digits: Seq<char>) -> nat
    decreases digits.len(),
{
    if digits.len() == 0 {
        0
    } else {
        decimal_value(digits.drop_last()) * 10 + ((digits.last() as int - '0' as int) as nat)
    }
}

/// Every character of `s` is a decimal digit.
pub open spec fn all_digits(s: Seq<char>) -> bool {
    forall|i: int| 0 <= i < s.len() ==> is_digit(#[trigger] s[i])
}

/// `s` without its leading `+`, if it has one.
pub open spec fn unsigned_digits(s: Seq<char>) -> Seq<char> {
    if s.len() > 0 && s[0] == '+' {
        s.drop_first()
    } else {
        s
    }
}

/// What `str::parse::<u16>` gives: an optional leading `+`, then one or more
/// decimal digits whose value fits in a `u16`.
pub open spec fn parse_u16_spec(s: Seq<char>) -> Option<u16> {
    let digits = unsigned_digits(s);
    if digits.len() > 0 && all_digits(digits) && decimal_value(digits) <= u16::MAX {
        Some(decimal_value(digits) as u16)
    } else {
        None
    }
}

/// What `str::parse::<bool>` gives: `true` for exactly "true", `false` for
/// exactly "false", nothing otherwise.
pub open spec fn parse_bool_spec(s: Seq<char>) -> Option<bool> {
    if s == "true"@ {
        Some(true)
    } else if s == "false"@ {
        Some(false)
    } else {
        None
    }
}

/// A variable's value parsed as a port, or `default` when the variable is unset
/// or does not parse.
pub open spec fn port_setting(value: Option<&str>, default: u16) -> u16 {
    match value {
        Some(s) => match parse_u16_spec(s@) {
            Some(port) => port,
            None => default,
        },
        None => default,
    }
}

/// A variable's value parsed as a flag, or `false` when the variable is unset or
/// does not parse.
pub open spec fn flag_setting(value: Option<&str>) -> bool {
    match value {
        Some(s) => match parse_bool_spec(s@) {
            Some(flag) => flag,
            None => false,
        },
        None => false,
    }
}

/// The decimal digits of `n`, most significant first, without leading zeros
/// ("0" for zero).
pub open spec fn decimal_digits(n: nat) -> Seq<char>
    decreases n,
{
    if n < 10 {
        seq![('0' as int + n) as char]
    } else {
        decimal_digits(n / 10).push(('0' as int + n % 10) as char)
    }
}

/// The decimal text of any number is all digits and reads back as that number.
pub proof fn lemma_decimal_digits(n: nat)
    ensures
        decimal_digits(n).len() > 0,
        all_digits(decimal_digits(n)),
        decimal_value(decimal_digits(n)) == n,
        decimal_digits(n)[0] != '+',
    decreases n,
{
    if n >= 10 {
        lemma_decimal_digits(n / 10);
        let t = decimal_digits(n);
        let c = ('0' as int + n % 10) as char;
        assert(t.drop_last() =~= decimal_digits(n / 10));
        assert(t.last() == c);
        assert(c as int == '0' as int + n % 10);
        assert(decimal_value(t) == decimal_value(t.drop_last()) * 10 + ((t.last() as int - '0' as int) as nat));
        assert(n == (n / 10) * 10 + n % 10) by (nonlinear_arith);
        assert forall|i: int| 0 <= i < t.len() implies is_digit(#[trigger] t[i]) by {
            if i < t.len() - 1 {
                assert(t[i] == decimal_digits(n / 10)[i]);
            }
        }
        assert(t[0] == decimal_digits(n / 10)[0]);
    } else {
        let t = decimal_digits(n);
        let c = ('0' as int + n) as char;
        assert(c as int == '0' as int + n);
        assert(t.drop_last() =~= Seq::<char>::empty());
        assert(decimal_value(t) == decimal_value(t.drop_last()) * 10 + ((t.last() as int - '0' as int) as nat));
    }
}

/// A port variable that parses gives exactly that port; the default is taken
/// only when the variable is unset or does not parse. In particular the decimal
/// text of any `u16` (with or without a leading `+`) gives that port, whatever
/// its size.
pub proof fn lemma_port_setting(value: Option<&str>, default: u16, port: u16)
    ensures
        value matches Some(s) && parse_u16_spec(s@) == Some(port) ==> port_setting(value, default)
            == port,
        value matches Some(s) && s@ == decimal_digits(port as nat) ==> port_setting(value, default)
            == port,
        value matches Some(s) && s@ == seq!['+'] + decimal_digits(port as nat) ==> port_setting(
            value,
            default,
        ) == port,
        value is None ==> port_setting(value, default) == default,
        value matches Some(s) && parse_u16_spec(s@) is None ==> port_setting(value, default)
            == default,
{
    lemma_decimal_digits(port as nat);
    let text = decimal_digits(port as nat);
    assert(unsigned_digits(text) == text);
    assert((seq!['+'] + text).drop_first() =~= text);
    assert(unsigned_digits(seq!['+'] + text) == text);
}

/// `GRPC_REFLECTION` turns reflection on exactly when it reads "true": "false",
/// any other text and an unset variable leave it off.
pub proof fn lemma_flag_setting(value: Option<&str>)
    ensures
        flag_setting(value) == (value matches Some(s) && s@ == "true"@),
        value matches Some(s) && s@ == "false"@ ==> !flag_setting(value),
        value matches Some(s) && parse_bool_spec(s@) == Some(true) ==> flag_setting(value),
        value matches Some(s) && parse_bool_spec(s@) == Some(false) ==> !flag_setting(value),
{
    reveal_strlit("true");
    reveal_strlit("false");
    if let Some(s) = value {
        if s@ == "false"@ {
            assert(s@[0] != "true"@[0]);
        }
    }
}

/// Digits read further only raise the value.
proof fn lemma_decimal_prefix(digits: Seq<char>, k: int)
    requires
        0 <= k <= digits.len(),
        all_digits(digits),
    ensures
        decimal_value(digits.take(k)) <= decimal_value(digits),
    decreases digits.len() - k,
{
    if k < digits.len() {
        let next = digits.take(k + 1);
        assert(next.drop_last() =~= digits.take(k));
        assert(is_digit(next.last()));
        lemma_decimal_prefix(digits, k + 1);
    } else {
        assert(digits.take(k) =~= digits);
    }
}

/// Parses `s` as `str::parse::<u16>` does.
pub fn parse_u16(s: &str) -> (parsed: Option<u16>)
    ensures
        parsed == parse_u16_spec(s@),
{
    let len = s.unicode_len();
    let start: usize = if len > 0 && s.get_char(0) == '+' {
        1
    } else {
        0
    };
    let ghost digits = unsigned_digits(s@);
    assert(digits =~= s@.subrange(start as int, s@.len() as int));
    if start == len {
        return None;
    }
    let mut value: u32 = 0;
    let mut i: usize = start;
    while i < len
        invariant
            start <= i <= len,
            start < len,
            len == s@.len(),
            digits == unsigned_digits(s@),
            digits =~= s@.subrange(start as int, len as int),
            forall|k: int| 0 <= k < i - start ==> is_digit(#[trigger] digits[k]),
            value == decimal_value(digits.take(i - start)),
            value <= u16::MAX,
        decreases len - i,
    {
        let c = s.get_char(i);
        assert(c == digits[i - start]);
        assert(digits.take(i - start + 1).drop_last() =~= digits.take(i - start));
        if c < '0' || c > '9' {
            assert(!is_digit(digits[i - start]));
            assert(!all_digits(digits));
            return None;
        }
        let d = (c as u32) - ('0' as u32);
        let next = value * 10 + d;
        if next > 65535 {
            proof {
                lemma_decimal_prefix_all(digits, i - start + 1);
            }
            return None;
        }
        value = next;
        i = i + 1;
    }
    assert(digits.take(i - start) =~= digits);
    Some(value as u16)
}

/// Once the digits read so far exceed `u16::MAX`, the whole input does not parse.
proof fn lemma_decimal_prefix_all(digits: Seq<char>, k: int)
    requires
        0 < k <= digits.len(),
        forall|i: int| 0 <= i < k ==> is_digit(#[trigger] digits[i]),
        decimal_value(digits.take(k)) > u16::MAX,
    ensures
        !(all_digits(digits) && decimal_value(digits) <= u16::MAX),
{
    if all_digits(digits) {
        lemma_decimal_prefix(digits, k);
    }
}

/// Parses `s` as `str::parse::<bool>` does.
pub fn parse_bool(s: &str) -> (parsed: Option<bool>)
    ensures
        parsed == parse_bool_spec(s@),
{
    let text = String::from_str(s);
    if text == String::from_str("true") {
        Some(true)
    } else if text == String::from_str("false") {
        Some(false)
    } else {
        None
    }
}

impl Config {
    /// The configuration that the environment variables `GRPC_REFLECTION`,
    /// `GRPC_PORT`, `HTTP_PORT` and `VERSION` describe, given their values
    /// (`None` for a variable that is unset or not Unicode). A port or flag that
    /// does not parse takes its default; an empty version counts as none.
    pub fn from_vars(
        grpc_reflection: Option<&str>,
        grpc_port: Option<&str>,
        http_port: Option<&str>,
        version: Option<String>,
    ) -> (config: Config)
        ensures
            config.grpc_reflection == flag_setting(grpc_reflection),
            config.grpc_port == port_setting(grpc_port, DEFAULT_GRPC_PORT),
            config.http_port == port_setting(http_port, DEFAULT_HTTP_PORT),
            config.version == match version {
                Some(v) => if v@.len() > 0 {
                    Some(v)
                } else {
                    None
                },
                None => None,
            },
    {
        let reflection = match grpc_reflection {
            Some(s) => match parse_bool(s) {
                Some(flag) => flag,
                None => false,
            },
            None => false,
        };
        let grpc = match grpc_port {
            Some(s) => match parse_u16(s) {
                Some(port) => port,
                None => DEFAULT_GRPC_PORT,
            },
            None => DEFAULT_GRPC_PORT,
        };
        let http = match http_port {
            Some(s) => match parse_u16(s) {
                Some(port) => port,
                None => DEFAULT_HTTP_PORT,
            },
            None => DEFAULT_HTTP_PORT,
        };
        let version = match version {
            Some(v) => if v.as_str().unicode_len() > 0 {
                Some(v)
            } else {
                None
            },
            None => None,
        };
        Config { grpc_port: grpc, http_port: http, grpc_reflection: reflection, version }
    }

    /// The version to report: the configured one, or "N/A" when there is none.
    pub fn version_label(&self) -> (label: &str)
        ensures
            label@ == match self.version {
                Some(v) => v@,
                None => "N/A"@,
            },
    {
        match &self.version {
            Some(v) => v.as_str(),
            None => "N/A",
        }
    }
}

/// The code of `c` with ASCII upper-case letters mapped to lower case.
pub open spec fn ascii_lower_code(c: char) -> u32 {
    if 'A' <= c && c <= 'Z' {
        (c as u32 + 32) as u32
    } else {
        c as u32
    }
}

/// `a` and `b` are equal up to ASCII case, as `str::eq_ignore_ascii_case` checks.
pub open spec fn eq_ignore_ascii_case_spec(a: Seq<char>, b: Seq<char>) -> bool {
    a.len() == b.len() && forall|i: int| 0 <= i < a.len() ==> #[trigger] ascii_lower_code(a[i])
        == ascii_lower_code(b[i])
}

/// Whether `a` and `b` are equal up to ASCII case.
pub fn eq_ignore_ascii_case(a: &str, b: &str) -> (equal: bool)
    ensures
        equal == eq_ignore_ascii_case_spec(a@, b@),
{
    let len = a.unicode_len();
    if len != b.unicode_len() {
        return false;
    }
    let mut i: usize = 0;
    while i < len
        invariant
            i <= len,
            len == a@.len(),
            len == b@.len(),
            forall|k: int| 0 <= k < i ==> #[trigger] ascii_lower_code(a@[k]) == ascii_lower_code(b@[k]),
        decreases len - i,
    {
        let x = a.get_char(i);
        let y = b.get_char(i);
        let lx: u32 = if 'A' <= x && x <= 'Z' {
            x as u32 + 32
        } else {
            x as u32
        };
        let ly: u32 = if 'A' <= y && y <= 'Z' {
            y as u32 + 32
        } else {
            y as u32
        };
        if lx != ly {
            assert(ascii_lower_code(a@[i as int]) != ascii_lower_code(b@[i as int]));
            return false;
        }
        i = i + 1;
    }
    true
}

/// Logs are written as JSON when `ENVIRONMENT` (given by its value, `None` when
/// unset or not Unicode) is "production" or "staging", in any ASCII case.
pub fn use_json_logs(environment: Option<&str>) -> (json: bool)
    ensures
        json == match environment {
            Some(env) => eq_ignore_ascii_case_spec(env@, "production"@)
                || eq_ignore_ascii_case_spec(env@, "staging"@),
            None => false,
        },
{
    match environment {
        Some(env) => eq_ignore_ascii_case(env, "production") || eq_ignore_ascii_case(env, "staging"),
        None => false,
    }
}

} // verus!
