//! Reading and writing the configuration document: a line-oriented TOML
//! subset — top-level keys, `[[backends]]` records, and the
//! `[method_routes]`, `[proxy]` and `[health_check]` tables, with quoted
//! strings and unsigned integers. A parsed document is always validated
//! before it is returned.
use vstd::prelude::*;
use vstd::string::StrSliceExecFns;
use vstd::string::StringExecFns;

use crate::config::Backend;
use crate::config::Config;
use crate::config::ConfigError;
use crate::config::HealthCheckConfig;
use crate::config::MethodRoute;
use crate::config::ProxyConfig;
use crate::config::spec_valid_config;
use crate::config::spec_validate;
use crate::config::validate_config;
use crate::handlers::lemma_join_push;
use crate::handlers::spec_is_ws;
use crate::handlers::spec_join;
use crate::strutil::eq_str;
use crate::strutil::find_char;
use crate::strutil::parse_u64;
use crate::strutil::spec_parse_u64;
use crate::strutil::spec_u64_string;
use crate::strutil::starts_with;
use crate::strutil::u64_to_string;

verus! {

/// The leading whitespace of `s`, dropped.
pub open spec fn spec_trim_left(s: Seq<char>) -> Seq<char>
    decreases s.len(),
{
    if s.len() > 0 && spec_is_ws(s[0]) {
        spec_trim_left(s.skip(1))
    } else {
        s
    }
}

/// The trailing whitespace of `s`, dropped.
pub open spec fn spec_trim_right(s: Seq<char>) -> Seq<char>
    decreases s.len(),
{
    if s.len() > 0 && spec_is_ws(s.last()) {
        spec_trim_right(s.drop_last())
    } else {
        s
    }
}

/// `s` without leading and trailing whitespace.
pub open spec fn spec_trim(s: Seq<char>) -> Seq<char> {
    spec_trim_right(spec_trim_left(s))
}

proof fn lemma_trim_left_range(s: Seq<char>, a: int)
    requires
        0 <= a <= s.len(),
        forall|k: int| 0 <= k < a ==> spec_is_ws(s[k]),
        a < s.len() ==> !spec_is_ws(s[a]),
    ensures
        spec_trim_left(s) =~= s.skip(a),
    decreases a,
{
    if a == 0 {
        if s.len() > 0 {
            assert(!spec_is_ws(s[0]));
        }
        assert(s.skip(0) =~= s);
    } else {
        assert(spec_is_ws(s[0]));
        lemma_trim_left_range(s.skip(1), a - 1);
        assert(s.skip(1).skip(a - 1) =~= s.skip(a));
    }
}

proof fn lemma_trim_right_range(s: Seq<char>, b: int)
    requires
        0 <= b <= s.len(),
        forall|k: int| b <= k < s.len() ==> spec_is_ws(s[k]),
        b > 0 ==> !spec_is_ws(s[b - 1]),
    ensures
        spec_trim_right(s) =~= s.take(b),
    decreases s.len() - b,
{
    if b == s.len() {
        if s.len() > 0 {
            assert(!spec_is_ws(s.last()));
        }
        assert(s.take(b) =~= s);
    } else {
        assert(spec_is_ws(s.last()));
        lemma_trim_right_range(s.drop_last(), b);
        assert(s.drop_last().take(b) =~= s.take(b));
    }
}

/// Strips leading and trailing whitespace.
fn trim(s: &str) -> (r: String)
    ensures
        r@ == spec_trim(s@),
{
    let n = s.unicode_len();
    let mut a: usize = 0;
    while a < n && is_ws(s.get_char(a))
        invariant
            0 <= a <= n,
            n == s@.len(),
            forall|k: int| 0 <= k < a ==> spec_is_ws(s@[k]),
        decreases n - a,
    {
        a = a + 1;
    }
    let mut b: usize = n;
    while b > a && is_ws(s.get_char(b - 1))
        invariant
            a <= b <= n,
            n == s@.len(),
            forall|k: int| 0 <= k < a ==> spec_is_ws(s@[k]),
            a < n ==> !spec_is_ws(s@[a as int]),
            forall|k: int| b <= k < n ==> spec_is_ws(s@[k]),
        decreases b,
    {
        b = b - 1;
    }
    let out = s.substring_char(a, b);
    proof {
        lemma_trim_left_range(s@, a as int);
        let t = s@.skip(a as int);
        if b == a {
            lemma_trim_right_range(t, 0);
        } else {
            assert(!spec_is_ws(s@[b - 1]));
            assert forall|k: int| b - a <= k < t.len() implies spec_is_ws(t[k]) by {
                assert(t[k] == s@[k + a]);
            }
            assert(t[b - a - 1] == s@[b - 1]);
            lemma_trim_right_range(t, b - a);
        }
        assert(t.take(b - a) =~= s@.subrange(a as int, b as int));
    }
    out.to_owned()
}

fn is_ws(c: char) -> (r: bool)
    ensures
        r == spec_is_ws(c),
{
    c == ' ' || c == '\t' || c == '\r' || c == '\n'
}

/// The character sequences a list of lines holds.
pub open spec fn spec_line_views(lines: Seq<String>) -> Seq<Seq<char>> {
    lines.map_values(|l: String| l@)
}

/// Splits a document into its lines: no line contains a newline, and
/// joining them with `\n` reconstructs the document, up to one trailing
/// newline.
fn split_lines(text: &str) -> (r: Vec<String>)
    ensures
        forall|i: int| 0 <= i < r@.len() ==> forall|k: int|
            0 <= k < (#[trigger] r@[i])@.len() ==> r@[i]@[k] != '\n',
        text@ == spec_join(spec_line_views(r@), '\n') || text@ == spec_join(
            spec_line_views(r@),
            '\n',
        ) + seq!['\n'],
{
    let n = text.unicode_len();
    let mut out: Vec<String> = Vec::new();
    let mut start: usize = 0;
    while start < n
        invariant
            0 <= start <= n,
            n == text@.len(),
            forall|i: int| 0 <= i < out@.len() ==> forall|k: int|
                0 <= k < (#[trigger] out@[i])@.len() ==> out@[i]@[k] != '\n',
            (out@.len() == 0) <==> (start == 0),
            (out@.len() == 0 && start == 0) || text@.take(start as int) == spec_join(
                spec_line_views(out@),
                '\n',
            ) + seq!['\n'],
        decreases n - start,
    {
        let ghost old_out = out@;
        let ghost old_start = start as int;
        let tail = text.substring_char(start, n);
        let j = find_char(tail, '\n');
        proof {
            crate::strutil::lemma_first_at_bounds(tail@, '\n');
        }
        let line = tail.substring_char(0, j);
        out.push(line.to_owned());
        proof {
            assert(line@ =~= tail@.take(j as int));
            assert(forall|k: int| 0 <= k < line@.len() ==> line@[k] != '\n');
            assert(spec_line_views(out@) =~= spec_line_views(old_out).push(line@));
            lemma_join_push(spec_line_views(old_out), line@, '\n');
        }
        if j >= n - start {
            proof {
                assert(tail@ =~= text@.subrange(old_start, n as int));
                if old_start == 0 {
                    assert(text@ =~= tail@);
                    assert(spec_join(spec_line_views(out@), '\n') == line@);
                    assert(text@ =~= line@);
                } else {
                    assert(text@ =~= text@.take(old_start) + tail@);
                    assert(text@ =~= spec_join(spec_line_views(old_out), '\n') + seq!['\n']
                        + line@);
                    assert(spec_join(spec_line_views(out@), '\n') =~= spec_join(
                        spec_line_views(old_out),
                        '\n',
                    ) + seq!['\n'] + line@);
                }
            }
            start = n;
            proof {
                assert(text@.take(n as int) =~= text@);
                assert(text@ == spec_join(spec_line_views(out@), '\n'));
            }
            return out;
        } else {
            start = start + j + 1;
            proof {
                assert(text@.take(start as int) =~= text@.take(old_start) + tail@.take(j as int)
                    + seq![tail@[j as int]]);
                assert(tail@[j as int] == '\n');
                if old_start == 0 {
                    assert(text@.take(start as int) =~= line@ + seq!['\n']);
                    assert(spec_join(spec_line_views(out@), '\n') == line@);
                } else {
                    assert(text@.take(start as int) =~= spec_join(spec_line_views(old_out), '\n')
                        + seq!['\n'] + line@ + seq!['\n']);
                    assert(spec_join(spec_line_views(out@), '\n') + seq!['\n'] =~= spec_join(
                        spec_line_views(old_out),
                        '\n',
                    ) + seq!['\n'] + line@ + seq!['\n']);
                }
            }
        }
    }
    proof {
        if out@.len() == 0 {
            assert(text@ =~= Seq::<char>::empty());
            assert(spec_join(spec_line_views(out@), '\n') =~= Seq::<char>::empty());
        } else {
            assert(text@.take(n as int) =~= text@);
        }
    }
    out
}

/// A value on the right of `=`: a quoted string or an unsigned integer.
enum TomlValue {
    Int(u64),
    Str(String),
}

fn syntax_error(line_no: u64, detail: &str) -> (e: ConfigError)
    ensures
        e matches ConfigError::Syntax { line_no: l, detail: d } && l == line_no && d@ == detail@,
{
    ConfigError::Syntax { line_no, detail: detail.to_owned() }
}

/// Whether `v` has the shape of a quoted string: delimiting quotes and
/// none inside.
pub open spec fn spec_quoted_shape(v: Seq<char>) -> bool {
    v.len() >= 2 && v[0] == '"' && v[v.len() - 1] == '"' && forall|k: int|
        1 <= k < v.len() - 1 ==> v[k] != '"'
}

/// Reads a value: `"..."` (no escapes; the quote may not occur inside) or
/// a decimal integer.
fn parse_value(v: &str, line_no: u64) -> (r: Result<TomlValue, ConfigError>)
    ensures
        r matches Ok(TomlValue::Str(s)) ==> spec_quoted_shape(v@) && s@ == v@.subrange(
            1,
            v@.len() - 1,
        ),
        r matches Ok(TomlValue::Int(n)) ==> spec_parse_u64(v@) == Some(n) && !(v@.len() > 0
            && v@[0] == '"'),
        v@.len() > 0 && v@[0] == '"' ==> (r is Err <==> !spec_quoted_shape(v@)),
        !(v@.len() > 0 && v@[0] == '"') ==> (r is Err <==> spec_parse_u64(v@) is None),
        r matches Err(e) ==> e is Syntax,
{
    let n = v.unicode_len();
    if n > 0 && v.get_char(0) == '"' {
        if n < 2 || v.get_char(n - 1) != '"' {
            return Err(syntax_error(line_no, "unterminated string"));
        }
        let mut k: usize = 1;
        while k < n - 1
            invariant
                1 <= k <= n - 1,
                n == v@.len(),
                n >= 2,
                v@[0] == '"',
                v@[v@.len() - 1] == '"',
                forall|t: int| 1 <= t < k ==> v@[t] != '"',
            decreases n - k,
        {
            if v.get_char(k) == '"' {
                assert(!spec_quoted_shape(v@));
                return Err(syntax_error(line_no, "unexpected quote inside string"));
            }
            k = k + 1;
        }
        let inner = v.substring_char(1, n - 1);
        Ok(TomlValue::Str(inner.to_owned()))
    } else {
        match parse_u64(v) {
            Some(num) => Ok(TomlValue::Int(num)),
            None => Err(syntax_error(line_no, "expected a quoted string or an unsigned integer")),
        }
    }
}

fn expect_str(v: TomlValue, line_no: u64) -> (r: Result<String, ConfigError>)
    ensures
        v matches TomlValue::Str(s) ==> r == Ok::<String, ConfigError>(s),
        v is Int ==> r is Err,
        r matches Err(e) ==> e is Syntax,
{
    match v {
        TomlValue::Str(s) => Ok(s),
        TomlValue::Int(_) => Err(syntax_error(line_no, "expected a string value")),
    }
}

fn expect_int(v: TomlValue, line_no: u64) -> (r: Result<u64, ConfigError>)
    ensures
        v matches TomlValue::Int(n) ==> r == Ok::<u64, ConfigError>(n),
        v is Str ==> r is Err,
        r matches Err(e) ==> e is Syntax,
{
    match v {
        TomlValue::Int(n) => Ok(n),
        TomlValue::Str(_) => Err(syntax_error(line_no, "expected an integer value")),
    }
}

fn expect_port(v: TomlValue, line_no: u64) -> (r: Result<u16, ConfigError>)
    ensures
        r matches Ok(p) <==> (v matches TomlValue::Int(n) && n <= 65535),
        r matches Ok(p) ==> v == TomlValue::Int(p as u64),
        r matches Err(e) ==> e is Syntax,
{
    match expect_int(v, line_no) {
        Ok(n) => {
            if n <= 65535 {
                Ok(n as u16)
            } else {
                Err(syntax_error(line_no, "port out of range"))
            }
        },
        Err(e) => Err(e),
    }
}

fn expect_u32(v: TomlValue, line_no: u64) -> (r: Result<u32, ConfigError>)
    ensures
        r matches Ok(w) <==> (v matches TomlValue::Int(n) && n <= 0xFFFF_FFFF),
        r matches Ok(w) ==> v == TomlValue::Int(w as u64),
        r matches Err(e) ==> e is Syntax,
{
    match expect_int(v, line_no) {
        Ok(n) => {
            if n <= 0xFFFF_FFFF {
                Ok(n as u32)
            } else {
                Err(syntax_error(line_no, "value out of range"))
            }
        },
        Err(e) => Err(e),
    }
}

/// A `[[backends]]` record while its keys are still being gathered.
struct RawBackend {
    line_no: u64,
    label: Option<String>,
    url: Option<String>,
    ws_url: Option<String>,
    weight: Option<u32>,
}

enum Section {
    Top,
    Backends,
    MethodRoutes,
    Proxy,
    HealthCheck,
}

fn finish_backend(raw: RawBackend) -> (r: Result<Backend, ConfigError>)
    ensures
        r is Ok <==> (raw.label is Some && raw.url is Some && raw.weight is Some),
        r matches Ok(b) ==> b.label == raw.label->Some_0 && b.url == raw.url->Some_0
            && b.ws_url == raw.ws_url && b.weight == raw.weight->Some_0,
        r matches Err(e) ==> e is Syntax,
{
    let line_no = raw.line_no;
    let label = match raw.label {
        Some(l) => l,
        None => {
            return Err(syntax_error(line_no, "backend is missing its label"));
        },
    };
    let url = match raw.url {
        Some(u) => u,
        None => {
            return Err(syntax_error(line_no, "backend is missing its url"));
        },
    };
    let weight = match raw.weight {
        Some(w) => w,
        None => {
            return Err(syntax_error(line_no, "backend is missing its weight"));
        },
    };
    Ok(Backend { label, url, ws_url: raw.ws_url, weight })
}

/// Parses and validates a configuration document. Defaults: port 8899,
/// metrics port 9100, a forward timeout of 30 s, and the probe settings
/// of `HealthCheckConfig::default`; the store URL has no default and an
/// absent one fails validation. Loading is lossless on canonical
/// documents: on the canonical text of any canonical configuration,
/// loading succeeds and the loaded configuration re-serialises to the
/// same text.
pub fn parse_config(text: &str) -> (r: Result<Config, ConfigError>)
    ensures
        r matches Ok(c) ==> spec_valid_config(c) && c.backends@.len() <= 0xFFFF_FFFF,
        forall|c0: Config| #[trigger] spec_matches_doc(c0, text@) ==> (r matches Ok(c)
            && spec_canonical_config(c) && text@ == spec_serialize_config(c)),
        r matches Err(e) ==> (e is Syntax || exists|c2: Config| #[trigger] spec_validate(c2)
            == Err::<(), ConfigError>(e)),
{
    let ghost has = exists|c0: Config| spec_matches_doc(c0, text@);
    match parse_canonical(text) {
        Some(c) => {
            let v = validate_config(&c);
            proof {
                if has {
                    assert(spec_canonical_config(c));
                    assert(spec_valid_config(c));
                    assert(v is Ok);
                }
            }
            match v {
                Ok(()) => {
                    proof {
                        assert forall|c0: Config| #[trigger] spec_matches_doc(c0, text@)
                            implies spec_canonical_config(c) && text@ == spec_serialize_config(
                            c,
                        ) by {
                            assert(has);
                        }
                    }
                    return Ok(c);
                },
                Err(e) => {
                    proof {
                        assert forall|c0: Config| !spec_matches_doc(c0, text@) by {
                            if spec_matches_doc(c0, text@) {
                                assert(has);
                            }
                        }
                        assert(spec_validate(c) == Err::<(), ConfigError>(e));
                    }
                    return Err(e);
                },
            }
        },
        None => {},
    }
    let lines = split_lines(text);
    let mut section = Section::Top;
    let mut port: u16 = 8899;
    let mut metrics_port: u16 = 9100;
    let mut redis_url = String::new();
    let mut backends: Vec<Backend> = Vec::new();
    let mut method_routes: Vec<MethodRoute> = Vec::new();
    let mut proxy = ProxyConfig::default();
    let mut health_check = HealthCheckConfig::default();

    // The `[[backends]]` record currently being gathered, if any.
    let mut in_backend = false;
    let mut cur = RawBackend { line_no: 0, label: None, url: None, ws_url: None, weight: None };

    proof {
        assert forall|c0: Config| !spec_matches_doc(c0, text@) by {
            if spec_matches_doc(c0, text@) {
                assert(has);
            }
        }
    }
    let count = lines.len();
    let mut idx: usize = 0;
    while idx < count
        invariant
            0 <= idx <= count,
            count == lines@.len(),
            forall|c0: Config| !spec_matches_doc(c0, text@),
        decreases count - idx,
    {
        let line_no: u64 = if idx < 0xFFFF_FFFF {
            (idx as u64) + 1
        } else {
            0xFFFF_FFFFu64
        };
        let t = trim(lines[idx].as_str());
        idx = idx + 1;
        let tlen = t.as_str().unicode_len();
        if tlen == 0 || t.as_str().get_char(0) == '#' {
            continue;
        }
        if eq_str(t.as_str(), "[[backends]]") {
            if in_backend {
                match finish_backend(cur) {
                    Ok(b) => backends.push(b),
                    Err(e) => {
                        return Err(e);
                    },
                }
            }
            cur = RawBackend { line_no, label: None, url: None, ws_url: None, weight: None };
            in_backend = true;
            section = Section::Backends;
            continue;
        }
        if eq_str(t.as_str(), "[method_routes]") {
            section = Section::MethodRoutes;
            continue;
        }
        if eq_str(t.as_str(), "[proxy]") {
            section = Section::Proxy;
            continue;
        }
        if eq_str(t.as_str(), "[health_check]") {
            section = Section::HealthCheck;
            continue;
        }
        if t.as_str().get_char(0) == '[' {
            return Err(syntax_error(line_no, "unknown section"));
        }
        let eq_pos = find_char(t.as_str(), '=');
        proof {
            crate::strutil::lemma_first_at_bounds(t@, '=');
        }
        if eq_pos >= tlen {
            return Err(syntax_error(line_no, "expected 'key = value'"));
        }
        let key = trim(t.as_str().substring_char(0, eq_pos));
        let value_text = trim(t.as_str().substring_char(eq_pos + 1, tlen));
        if key.as_str().unicode_len() == 0 {
            return Err(syntax_error(line_no, "expected a key before '='"));
        }
        match section {
            Section::Top => {
                if eq_str(key.as_str(), "port") {
                    match parse_value(value_text.as_str(), line_no) {
                        Ok(v) => match expect_port(v, line_no) {
                            Ok(p) => {
                                port = p;
                            },
                            Err(e) => {
                                return Err(e);
                            },
                        },
                        Err(e) => {
                            return Err(e);
                        },
                    }
                } else if eq_str(key.as_str(), "metrics_port") {
                    match parse_value(value_text.as_str(), line_no) {
                        Ok(v) => match expect_port(v, line_no) {
                            Ok(p) => {
                                metrics_port = p;
                            },
                            Err(e) => {
                                return Err(e);
                            },
                        },
                        Err(e) => {
                            return Err(e);
                        },
                    }
                } else if eq_str(key.as_str(), "redis_url") {
                    match parse_value(value_text.as_str(), line_no) {
                        Ok(v) => match expect_str(v, line_no) {
                            Ok(s) => {
                                redis_url = s;
                            },
                            Err(e) => {
                                return Err(e);
                            },
                        },
                        Err(e) => {
                            return Err(e);
                        },
                    }
                } else if eq_str(key.as_str(), "backends") {
                    // `backends = []` declares the upstream list empty;
                    // the tables themselves arrive as `[[backends]]`.
                    if !eq_str(value_text.as_str(), "[]") {
                        return Err(syntax_error(line_no, "expected a list of backend tables"));
                    }
                } else {
                    match parse_value(value_text.as_str(), line_no) {
                        Ok(_) => {},
                        Err(e) => {
                            return Err(e);
                        },
                    }
                }
            },
            Section::Backends => {
                let v = match parse_value(value_text.as_str(), line_no) {
                    Ok(v) => v,
                    Err(e) => {
                        return Err(e);
                    },
                };
                if eq_str(key.as_str(), "label") {
                    match expect_str(v, line_no) {
                        Ok(s) => {
                            cur.label = Some(s);
                        },
                        Err(e) => {
                            return Err(e);
                        },
                    }
                } else if eq_str(key.as_str(), "url") {
                    match expect_str(v, line_no) {
                        Ok(s) => {
                            cur.url = Some(s);
                        },
                        Err(e) => {
                            return Err(e);
                        },
                    }
                } else if eq_str(key.as_str(), "ws_url") {
                    match expect_str(v, line_no) {
                        Ok(s) => {
                            cur.ws_url = Some(s);
                        },
                        Err(e) => {
                            return Err(e);
                        },
                    }
                } else if eq_str(key.as_str(), "weight") {
                    match expect_u32(v, line_no) {
                        Ok(w) => {
                            cur.weight = Some(w);
                        },
                        Err(e) => {
                            return Err(e);
                        },
                    }
                }
            },
            Section::MethodRoutes => {
                let v = match parse_value(value_text.as_str(), line_no) {
                    Ok(v) => v,
                    Err(e) => {
                        return Err(e);
                    },
                };
                match expect_str(v, line_no) {
                    Ok(label) => {
                        method_routes.push(MethodRoute { method: key, label });
                    },
                    Err(e) => {
                        return Err(e);
                    },
                }
            },
            Section::Proxy => {
                let v = match parse_value(value_text.as_str(), line_no) {
                    Ok(v) => v,
                    Err(e) => {
                        return Err(e);
                    },
                };
                if eq_str(key.as_str(), "timeout_secs") {
                    match expect_int(v, line_no) {
                        Ok(n) => {
                            proxy.timeout_secs = n;
                        },
                        Err(e) => {
                            return Err(e);
                        },
                    }
                }
            },
            Section::HealthCheck => {
                let v = match parse_value(value_text.as_str(), line_no) {
                    Ok(v) => v,
                    Err(e) => {
                        return Err(e);
                    },
                };
                if eq_str(key.as_str(), "interval_secs") {
                    match expect_int(v, line_no) {
                        Ok(n) => {
                            health_check.interval_secs = n;
                        },
                        Err(e) => {
                            return Err(e);
                        },
                    }
                } else if eq_str(key.as_str(), "timeout_secs") {
                    match expect_int(v, line_no) {
                        Ok(n) => {
                            health_check.timeout_secs = n;
                        },
                        Err(e) => {
                            return Err(e);
                        },
                    }
                } else if eq_str(key.as_str(), "method") {
                    match expect_str(v, line_no) {
                        Ok(s) => {
                            health_check.method = s;
                        },
                        Err(e) => {
                            return Err(e);
                        },
                    }
                } else if eq_str(key.as_str(), "consecutive_failures_threshold") {
                    match expect_u32(v, line_no) {
                        Ok(n) => {
                            health_check.consecutive_failures_threshold = n;
                        },
                        Err(e) => {
                            return Err(e);
                        },
                    }
                } else if eq_str(key.as_str(), "consecutive_successes_threshold") {
                    match expect_u32(v, line_no) {
                        Ok(n) => {
                            health_check.consecutive_successes_threshold = n;
                        },
                        Err(e) => {
                            return Err(e);
                        },
                    }
                }
            },
        }
    }
    if in_backend {
        match finish_backend(cur) {
            Ok(b) => backends.push(b),
            Err(e) => {
                return Err(e);
            },
        }
    }
    if backends.len() > 0xFFFF_FFFFusize {
        return Err(syntax_error(0, "too many backends"));
    }
    let cfg = Config { port, metrics_port, redis_url, backends, method_routes, proxy, health_check };
    match validate_config(&cfg) {
        Ok(()) => Ok(cfg),
        Err(e) => {
            proof {
                assert(spec_validate(cfg) == Err::<(), ConfigError>(e));
            }
            Err(e)
        },
    }
}

/// The canonical text of one `[[backends]]` record.
pub open spec fn spec_backend_text(b: Backend) -> Seq<char> {
    "[[backends]]\nlabel = \""@ + b.label@ + "\"\nurl = \""@ + b.url@ + "\""@ + (match b.ws_url {
        Some(w) => "\nws_url = \""@ + w@ + "\""@,
        None => Seq::<char>::empty(),
    }) + "\nweight = "@ + spec_u64_string(b.weight as int) + "\n"@
}

/// The canonical text of the backend records `i..k`, in order.
pub open spec fn spec_backends_text_range(bs: Seq<Backend>, i: int, k: int) -> Seq<char>
    decreases k - i,
{
    if i < 0 || i >= k {
        Seq::<char>::empty()
    } else {
        spec_backend_text(bs[i]) + spec_backends_text_range(bs, i + 1, k)
    }
}

/// The canonical text of one method override.
pub open spec fn spec_route_text(r: MethodRoute) -> Seq<char> {
    r.method@ + " = \""@ + r.label@ + "\"\n"@
}

/// The canonical text of the overrides `i..k`, in order.
pub open spec fn spec_routes_text_range(rs: Seq<MethodRoute>, i: int, k: int) -> Seq<char>
    decreases k - i,
{
    if i < 0 || i >= k {
        Seq::<char>::empty()
    } else {
        spec_route_text(rs[i]) + spec_routes_text_range(rs, i + 1, k)
    }
}

/// The override-table section of the canonical document.
pub open spec fn spec_doc_routes(c: Config) -> Seq<char> {
    "[method_routes]\n"@ + spec_routes_text_range(
        c.method_routes@,
        0,
        c.method_routes@.len() as int,
    )
}

/// The hysteresis-threshold lines of the canonical document.
pub open spec fn spec_doc_thresholds(c: Config) -> Seq<char> {
    "\"\nconsecutive_failures_threshold = "@ + spec_u64_string(
        c.health_check.consecutive_failures_threshold as int,
    ) + "\nconsecutive_successes_threshold = "@ + spec_u64_string(
        c.health_check.consecutive_successes_threshold as int,
    ) + "\n"@
}

/// The `[health_check]` section of the canonical document.
pub open spec fn spec_doc_hc(c: Config) -> Seq<char> {
    "\n[health_check]\ninterval_secs = "@ + spec_u64_string(c.health_check.interval_secs as int)
        + "\ntimeout_secs = "@ + spec_u64_string(c.health_check.timeout_secs as int)
        + "\nmethod = \""@ + c.health_check.method@ + spec_doc_thresholds(c)
}

/// The `[proxy]` and `[health_check]` sections of the canonical document.
pub open spec fn spec_doc_tail(c: Config) -> Seq<char> {
    "[proxy]\ntimeout_secs = "@ + spec_u64_string(c.proxy.timeout_secs as int) + spec_doc_hc(c)
}

/// The canonical document for a configuration: top-level keys, the
/// backend records, the override table, and the proxy and probe tables.
pub open spec fn spec_serialize_config(c: Config) -> Seq<char> {
    "port = "@ + spec_u64_string(c.port as int) + "\nmetrics_port = "@ + spec_u64_string(
        c.metrics_port as int,
    ) + "\nredis_url = \""@ + c.redis_url@ + "\"\n"@ + spec_backends_text_range(
        c.backends@,
        0,
        c.backends@.len() as int,
    ) + spec_doc_routes(c) + spec_doc_tail(c)
}

proof fn lemma_backends_text_snoc(bs: Seq<Backend>, k: int)
    requires
        0 <= k < bs.len(),
    ensures
        spec_backends_text_range(bs, 0, k + 1) =~= spec_backends_text_range(bs, 0, k)
            + spec_backend_text(bs[k]),
    decreases k,
{
    lemma_backends_text_snoc_from(bs, 0, k);
}

proof fn lemma_backends_text_snoc_from(bs: Seq<Backend>, i: int, k: int)
    requires
        0 <= i <= k < bs.len(),
    ensures
        spec_backends_text_range(bs, i, k + 1) =~= spec_backends_text_range(bs, i, k)
            + spec_backend_text(bs[k]),
    decreases k - i,
{
    if i < k {
        lemma_backends_text_snoc_from(bs, i + 1, k);
    } else {
        assert(spec_backends_text_range(bs, k + 1, k + 1) =~= Seq::<char>::empty());
        assert(spec_backends_text_range(bs, k, k) =~= Seq::<char>::empty());
    }
}

proof fn lemma_routes_text_snoc_from(rs: Seq<MethodRoute>, i: int, k: int)
    requires
        0 <= i <= k < rs.len(),
    ensures
        spec_routes_text_range(rs, i, k + 1) =~= spec_routes_text_range(rs, i, k)
            + spec_route_text(rs[k]),
    decreases k - i,
{
    if i < k {
        lemma_routes_text_snoc_from(rs, i + 1, k);
    } else {
        assert(spec_routes_text_range(rs, k + 1, k + 1) =~= Seq::<char>::empty());
        assert(spec_routes_text_range(rs, k, k) =~= Seq::<char>::empty());
    }
}

/// Renders a configuration as its canonical document, the exact text
/// `spec_serialize_config` describes.
#[verifier::rlimit(100)]
pub fn serialize_config(c: &Config) -> (r: String)
    ensures
        r@ == spec_serialize_config(*c),
{
    let mut out = String::from_str("port = ");
    let num = u64_to_string(c.port as u64);
    out.append(num.as_str());
    out.append("\nmetrics_port = ");
    let num = u64_to_string(c.metrics_port as u64);
    out.append(num.as_str());
    out.append("\nredis_url = \"");
    out.append(c.redis_url.as_str());
    out.append("\"\n");
    let ghost top = out@;
    let n = c.backends.len();
    let mut i: usize = 0;
    while i < n
        invariant
            0 <= i <= n,
            n == c.backends@.len(),
            out@ == top + spec_backends_text_range(c.backends@, 0, i as int),
        decreases n - i,
    {
        let ghost before = out@;
        let b = &c.backends[i];
        out.append("[[backends]]\nlabel = \"");
        out.append(b.label.as_str());
        out.append("\"\nurl = \"");
        out.append(b.url.as_str());
        out.append("\"");
        match &b.ws_url {
            Some(w) => {
                out.append("\nws_url = \"");
                out.append(w.as_str());
                out.append("\"");
            },
            None => {
                proof {
                    assert(out@ + Seq::<char>::empty() =~= out@);
                }
            },
        }
        out.append("\nweight = ");
        let num = u64_to_string(b.weight as u64);
        out.append(num.as_str());
        out.append("\n");
        proof {
            lemma_backends_text_snoc(c.backends@, i as int);
            assert(out@ =~= before + spec_backend_text(c.backends@[i as int]));
            assert(out@ =~= top + spec_backends_text_range(c.backends@, 0, i as int + 1));
        }
        i = i + 1;
    }
    out.append("[method_routes]\n");
    let ghost mid = out@;
    let m = c.method_routes.len();
    let mut t: usize = 0;
    while t < m
        invariant
            0 <= t <= m,
            m == c.method_routes@.len(),
            out@ == mid + spec_routes_text_range(c.method_routes@, 0, t as int),
        decreases m - t,
    {
        let ghost before = out@;
        let route = &c.method_routes[t];
        out.append(route.method.as_str());
        out.append(" = \"");
        out.append(route.label.as_str());
        out.append("\"\n");
        proof {
            lemma_routes_text_snoc(c.method_routes@, t as int);
            assert(out@ =~= before + spec_route_text(c.method_routes@[t as int]));
            assert(out@ =~= mid + spec_routes_text_range(c.method_routes@, 0, t as int + 1));
        }
        t = t + 1;
    }
    out.append("[proxy]\ntimeout_secs = ");
    let num = u64_to_string(c.proxy.timeout_secs);
    out.append(num.as_str());
    out.append("\n[health_check]\ninterval_secs = ");
    let num = u64_to_string(c.health_check.interval_secs);
    out.append(num.as_str());
    out.append("\ntimeout_secs = ");
    let num = u64_to_string(c.health_check.timeout_secs);
    out.append(num.as_str());
    out.append("\nmethod = \"");
    out.append(c.health_check.method.as_str());
    out.append("\"\nconsecutive_failures_threshold = ");
    let num = u64_to_string(c.health_check.consecutive_failures_threshold as u64);
    out.append(num.as_str());
    out.append("\nconsecutive_successes_threshold = ");
    let num = u64_to_string(c.health_check.consecutive_successes_threshold as u64);
    out.append(num.as_str());
    out.append("\n");
    proof {
        assert(out@ =~= spec_serialize_config(*c));
    }
    out
}

proof fn lemma_routes_text_snoc(rs: Seq<MethodRoute>, k: int)
    requires
        0 <= k < rs.len(),
    ensures
        spec_routes_text_range(rs, 0, k + 1) =~= spec_routes_text_range(rs, 0, k)
            + spec_route_text(rs[k]),
{
    lemma_routes_text_snoc_from(rs, 0, k);
}

// ---------------------------------------------------------------------
// The canonical round trip: loading the canonical document of a
// configuration gives that configuration back.
// ---------------------------------------------------------------------

/// A string the document syntax carries verbatim: free of the quote and
/// newline characters the syntax reserves.
pub open spec fn spec_plain_string(s: Seq<char>) -> bool {
    forall|k: int| 0 <= k < s.len() ==> s[k] != '"' && s[k] != '\n'
}

/// A configuration whose canonical document loads back to it: valid,
/// within the table-size bound, and with every string plain.
pub open spec fn spec_canonical_config(c: Config) -> bool {
    &&& spec_valid_config(c)
    &&& c.backends@.len() <= 0xFFFF_FFFF
    &&& spec_plain_string(c.redis_url@)
    &&& spec_plain_string(c.health_check.method@)
    &&& forall|i: int|
        0 <= i < c.backends@.len() ==> spec_plain_string((#[trigger] c.backends@[i]).label@)
            && spec_plain_string(c.backends@[i].url@) && (match c.backends@[i].ws_url {
            Some(w) => spec_plain_string(w@),
            None => true,
        })
    &&& forall|t: int|
        0 <= t < c.method_routes@.len() ==> spec_plain_string(
            (#[trigger] c.method_routes@[t]).method@,
        ) && spec_plain_string(c.method_routes@[t].label@)
}

/// Field-by-field sameness of two configurations, up to the identity of
/// the strings holding the values.
pub open spec fn spec_backend_equiv(a: Backend, b: Backend) -> bool {
    &&& a.label@ == b.label@
    &&& a.url@ == b.url@
    &&& a.weight == b.weight
    &&& (a.ws_url is Some <==> b.ws_url is Some)
    &&& (a.ws_url matches Some(w) ==> b.ws_url matches Some(w2) && w@ == w2@)
}

pub open spec fn spec_route_equiv(a: MethodRoute, b: MethodRoute) -> bool {
    a.method@ == b.method@ && a.label@ == b.label@
}

pub open spec fn spec_config_equiv(a: Config, b: Config) -> bool {
    &&& a.port == b.port
    &&& a.metrics_port == b.metrics_port
    &&& a.redis_url@ == b.redis_url@
    &&& a.backends@.len() == b.backends@.len()
    &&& forall|i: int|
        0 <= i < a.backends@.len() ==> spec_backend_equiv(
            #[trigger] a.backends@[i],
            b.backends@[i],
        )
    &&& a.method_routes@.len() == b.method_routes@.len()
    &&& forall|t: int|
        0 <= t < a.method_routes@.len() ==> spec_route_equiv(
            #[trigger] a.method_routes@[t],
            b.method_routes@[t],
        )
    &&& a.proxy.timeout_secs == b.proxy.timeout_secs
    &&& a.health_check.interval_secs == b.health_check.interval_secs
    &&& a.health_check.timeout_secs == b.health_check.timeout_secs
    &&& a.health_check.method@ == b.health_check.method@
    &&& a.health_check.consecutive_failures_threshold
        == b.health_check.consecutive_failures_threshold
    &&& a.health_check.consecutive_successes_threshold
        == b.health_check.consecutive_successes_threshold
}

/// Whether `c0`'s canonical document is exactly `t`.
pub open spec fn spec_matches_doc(c0: Config, t: Seq<char>) -> bool {
    spec_canonical_config(c0) && t == spec_serialize_config(c0)
}

/// Validity and canonicity only read the field views, so they transfer
/// across field-by-field sameness.
proof fn lemma_canonical_transfers(a: Config, b: Config)
    requires
        spec_config_equiv(a, b),
        spec_canonical_config(b),
    ensures
        spec_canonical_config(a),
{
    assert forall|i: int, j: int| 0 <= i < j < a.backends@.len()
        implies a.backends@[i].label@ != a.backends@[j].label@ by {
        assert(spec_backend_equiv(a.backends@[i], b.backends@[i]));
        assert(spec_backend_equiv(a.backends@[j], b.backends@[j]));
    }
    assert forall|t: int| 0 <= t < a.method_routes@.len()
        implies crate::config::spec_has_label(
            a.backends@,
            (#[trigger] a.method_routes@[t]).label@,
        ) by {
        assert(spec_route_equiv(a.method_routes@[t], b.method_routes@[t]));
        assert(crate::config::spec_has_label(b.backends@, b.method_routes@[t].label@));
        let w = choose|w: int|
            0 <= w < b.backends@.len() && (#[trigger] b.backends@[w]).label@
                == b.method_routes@[t].label@;
        assert(spec_backend_equiv(a.backends@[w], b.backends@[w]));
        assert(a.backends@[w].label@ == a.method_routes@[t].label@);
    }
    assert forall|i: int| 0 <= i < a.backends@.len()
        implies spec_plain_string((#[trigger] a.backends@[i]).label@) && spec_plain_string(
            a.backends@[i].url@,
        ) && (match a.backends@[i].ws_url {
            Some(w) => spec_plain_string(w@),
            None => true,
        }) by {
        assert(spec_backend_equiv(a.backends@[i], b.backends@[i]));
    }
    assert forall|i: int| 0 <= i < a.backends@.len()
        implies (#[trigger] a.backends@[i].label@).len() > 0 by {
        assert(spec_backend_equiv(a.backends@[i], b.backends@[i]));
    }
    assert forall|i: int| 0 <= i < a.backends@.len()
        implies (#[trigger] a.backends@[i]).weight > 0 by {
        assert(spec_backend_equiv(a.backends@[i], b.backends@[i]));
    }
    assert forall|t: int| 0 <= t < a.method_routes@.len()
        implies spec_plain_string((#[trigger] a.method_routes@[t]).method@) && spec_plain_string(
            a.method_routes@[t].label@,
        ) by {
        assert(spec_route_equiv(a.method_routes@[t], b.method_routes@[t]));
    }
}

/// The canonical document is a function of the field views alone.
proof fn lemma_ser_respects_equiv(a: Config, b: Config)
    requires
        spec_config_equiv(a, b),
    ensures
        spec_serialize_config(a) == spec_serialize_config(b),
{
    lemma_backends_text_equiv(a.backends@, b.backends@, 0);
    lemma_routes_text_equiv(a.method_routes@, b.method_routes@, 0);
}

proof fn lemma_backends_text_equiv(x: Seq<Backend>, y: Seq<Backend>, i: int)
    requires
        x.len() == y.len(),
        forall|k: int| 0 <= k < x.len() ==> spec_backend_equiv(#[trigger] x[k], y[k]),
    ensures
        spec_backends_text_range(x, i, x.len() as int) == spec_backends_text_range(
            y,
            i,
            y.len() as int,
        ),
    decreases x.len() - i,
{
    if 0 <= i < x.len() {
        lemma_backends_text_equiv(x, y, i + 1);
        assert(spec_backend_equiv(x[i], y[i]));
        assert(spec_backend_text(x[i]) == spec_backend_text(y[i]));
    }
}

proof fn lemma_routes_text_equiv(x: Seq<MethodRoute>, y: Seq<MethodRoute>, i: int)
    requires
        x.len() == y.len(),
        forall|k: int| 0 <= k < x.len() ==> spec_route_equiv(#[trigger] x[k], y[k]),
    ensures
        spec_routes_text_range(x, i, x.len() as int) == spec_routes_text_range(
            y,
            i,
            y.len() as int,
        ),
    decreases x.len() - i,
{
    if 0 <= i < x.len() {
        lemma_routes_text_equiv(x, y, i + 1);
        assert(spec_route_equiv(x[i], y[i]));
        assert(spec_route_text(x[i]) == spec_route_text(y[i]));
    }
}

/// Cancelling a common prefix of two equal concatenations.
proof fn lemma_cancel_prefix(a: Seq<char>, x: Seq<char>, y: Seq<char>)
    requires
        a + x == a + y,
    ensures
        x == y,
{
    assert((a + x).len() == a.len() + x.len());
    assert((a + y).len() == a.len() + y.len());
    assert forall|k: int| 0 <= k < x.len() implies x[k] == y[k] by {
        assert((a + x)[a.len() + k] == x[k]);
        assert((a + y)[a.len() + k] == y[k]);
    }
    assert(x =~= y);
}

/// When position `p` holds `c` and no earlier position does, `p` is the
/// first occurrence.
proof fn lemma_first_at_exact(s: Seq<char>, c: char, p: int)
    requires
        0 <= p < s.len(),
        s[p] == c,
        forall|k: int| 0 <= k < p ==> s[k] != c,
    ensures
        crate::strutil::spec_first_at(s, c) == p,
{
    crate::strutil::lemma_first_at_bounds(s, c);
    let f = crate::strutil::spec_first_at(s, c);
    if f < p {
        assert(s[f] == c);
    }
    if f > p {
        assert(s[p] != c);
    }
}

/// Consumes `lit` from the front of `rem`.
fn take_lit(rem: &str, lit: &str) -> (r: Option<String>)
    ensures
        r matches Some(rest) ==> rem@ == lit@ + rest@,
        r is None ==> forall|rest: Seq<char>| rem@ != lit@ + rest,
{
    if starts_with(rem, lit) {
        let n = rem.unicode_len();
        let m = lit.unicode_len();
        let rest = rem.substring_char(m, n);
        proof {
            assert(rem@ =~= lit@ + rest@);
        }
        Some(rest.to_owned())
    } else {
        proof {
            assert forall|rest: Seq<char>| rem@ != lit@ + rest by {
                if rem@ == lit@ + rest {
                    assert(rem@.subrange(0, lit@.len() as int) =~= lit@);
                }
            }
        }
        None
    }
}

pub open spec fn spec_is_digit(c: char) -> bool {
    '0' <= c <= '9'
}

/// `s` begins with the decimal rendering of `v`, followed by `rest`,
/// which does not begin with another digit.
pub open spec fn spec_number_prefix(s: Seq<char>, v: u64, rest: Seq<char>) -> bool {
    s == spec_u64_string(v as int) + rest && (rest.len() == 0 || !spec_is_digit(rest[0]))
}

fn digit_at(s: &str, i: usize) -> (r: bool)
    requires
        i < s@.len(),
    ensures
        r == spec_is_digit(s@[i as int]),
{
    let c = s.get_char(i);
    '0' <= c && c <= '9'
}

/// Consumes the maximal run of digits and returns its value.
fn take_number(rem: &str) -> (r: Option<(u64, String)>)
    ensures
        forall|v: u64, rest: Seq<char>| #[trigger] spec_number_prefix(rem@, v, rest) ==> (
        r matches Some(pr) && pr.0 == v && pr.1@ == rest),
        r matches Some(pr) ==> pr.1@.len() < rem@.len(),
{
    let n = rem.unicode_len();
    let mut e: usize = 0;
    while e < n && digit_at(rem, e)
        invariant
            0 <= e <= n,
            n == rem@.len(),
            forall|k: int| 0 <= k < e ==> spec_is_digit(#[trigger] rem@[k]),
        decreases n - e,
    {
        e = e + 1;
    }
    proof {
        assert forall|v: u64, rest: Seq<char>| #[trigger] spec_number_prefix(rem@, v, rest)
            implies rem@.subrange(0, e as int) == spec_u64_string(v as int) && rem@.subrange(
            e as int,
            n as int,
        ) == rest by {
            crate::strutil::lemma_u64_string_round_trip(v as int);
            let d = spec_u64_string(v as int);
            let ld = d.len() as int;
            assert(forall|k: int| 0 <= k < ld ==> spec_is_digit(#[trigger] rem@[k]));
            if ld < e {
                assert(rem@[ld] == rest[0]);
                assert(spec_is_digit(rem@[ld]));
            }
            if ld > e {
                assert(e < n);
                assert(!spec_is_digit(rem@[e as int]));
                assert(rem@[e as int] == d[e as int]);
            }
            assert(ld == e);
            assert(rem@.subrange(0, e as int) =~= d);
            assert(rem@.subrange(e as int, n as int) =~= rest);
        }
    }
    if e == 0 {
        proof {
            assert forall|v: u64, rest: Seq<char>| !spec_number_prefix(rem@, v, rest) by {
                if spec_number_prefix(rem@, v, rest) {
                    crate::strutil::lemma_u64_string_round_trip(v as int);
                    assert(rem@.subrange(0, 0) == spec_u64_string(v as int));
                }
            }
        }
        return None;
    }
    let numstr = rem.substring_char(0, e);
    match parse_u64(numstr) {
        Some(v0) => {
            let rest = rem.substring_char(e, n).to_owned();
            proof {
                assert forall|v: u64, rest2: Seq<char>| #[trigger] spec_number_prefix(
                    rem@,
                    v,
                    rest2,
                ) implies v0 == v && rest@ == rest2 by {
                    crate::strutil::lemma_u64_string_round_trip(v as int);
                    assert(numstr@ == spec_u64_string(v as int));
                }
            }
            Some((v0, rest))
        },
        None => {
            proof {
                assert forall|v: u64, rest2: Seq<char>| !spec_number_prefix(rem@, v, rest2) by {
                    if spec_number_prefix(rem@, v, rest2) {
                        crate::strutil::lemma_u64_string_round_trip(v as int);
                        assert(numstr@ == spec_u64_string(v as int));
                    }
                }
            }
            None
        },
    }
}

/// `s` begins with a quote-free value whose terminating quote follows.
pub open spec fn spec_quoted_prefix(s: Seq<char>, val: Seq<char>, rest: Seq<char>) -> bool {
    s == val + rest && (forall|k: int| 0 <= k < val.len() ==> val[k] != '"') && rest.len() > 0
        && rest[0] == '"'
}

/// Consumes up to (but not including) the next quote.
fn take_quoted(rem: &str) -> (r: Option<(String, String)>)
    ensures
        forall|val: Seq<char>, rest: Seq<char>| #[trigger] spec_quoted_prefix(rem@, val, rest)
            ==> (r matches Some(pr) && pr.0@ == val && pr.1@ == rest),
        r matches Some(pr) ==> pr.0@ + pr.1@ == rem@,
{
    let n = rem.unicode_len();
    let q = find_char(rem, '"');
    proof {
        crate::strutil::lemma_first_at_bounds(rem@, '"');
        assert forall|val: Seq<char>, rest: Seq<char>| #[trigger] spec_quoted_prefix(
            rem@,
            val,
            rest,
        ) implies crate::strutil::spec_first_at(rem@, '"') == val.len() by {
            assert(rem@[val.len() as int] == rest[0]);
            assert forall|k: int| 0 <= k < val.len() implies rem@[k] != '"' by {
                assert(rem@[k] == val[k]);
            }
            lemma_first_at_exact(rem@, '"', val.len() as int);
        }
    }
    if q >= n {
        return None;
    }
    let val = rem.substring_char(0, q);
    let rest = rem.substring_char(q, n);
    proof {
        assert(val@ + rest@ =~= rem@);
        assert forall|val2: Seq<char>, rest2: Seq<char>| #[trigger] spec_quoted_prefix(
            rem@,
            val2,
            rest2,
        ) implies val@ == val2 && rest@ == rest2 by {
            assert(val@ =~= val2);
            assert(rest@ =~= rest2);
        }
    }
    Some((val.to_owned(), rest.to_owned()))
}


/// In `m + " = \"" + l + "\"\n" + suffix` with plain `m` and `l`, the
/// first quote sits right after the separator and the first newline at
/// the end of the line.
proof fn lemma_route_layout(m: Seq<char>, l: Seq<char>, suffix: Seq<char>, s: Seq<char>)
    requires
        spec_plain_string(m),
        spec_plain_string(l),
        s == m + " = \""@ + l + "\"\n"@ + suffix,
    ensures
        crate::strutil::spec_first_at(s, '"') == m.len() + 3,
        crate::strutil::spec_first_at(s, '\n') == m.len() + l.len() + 5,
{
    reveal_strlit(" = \"");
    reveal_strlit("\"\n");
    assert(s[m.len() as int + 3] == '"');
    assert forall|k: int| 0 <= k < m.len() + 3 implies s[k] != '"' by {
        if k < m.len() {
            assert(s[k] == m[k]);
        } else {
            assert(s[k] == (" = \"")@[k - m.len()]);
        }
    }
    lemma_first_at_exact(s, '"', m.len() as int + 3);
    assert(s[m.len() as int + l.len() as int + 5] == '\n');
    assert forall|k: int| 0 <= k < m.len() + l.len() + 5 implies s[k] != '\n' by {
        if k < m.len() {
            assert(s[k] == m[k]);
        } else if k < m.len() + 4 {
            assert(s[k] == (" = \"")@[k - m.len()]);
        } else if k < m.len() + 4 + l.len() {
            assert(s[k] == l[k - m.len() - 4]);
        } else {
            assert(s[k] == ("\"\n")@[k - m.len() - 4 - l.len()]);
        }
    }
    lemma_first_at_exact(s, '\n', m.len() as int + l.len() as int + 5);
}

/// In the trailing tables' text, the first newline ends `[proxy]` and no
/// quote comes before it.
proof fn lemma_tail_layout(c: Config, s: Seq<char>)
    requires
        s == spec_doc_tail(c),
    ensures
        crate::strutil::spec_first_at(s, '\n') == 7,
        crate::strutil::spec_first_at(s, '"') > 7,
{
    reveal_strlit("[proxy]\ntimeout_secs = ");
    let lit = "[proxy]\ntimeout_secs = "@;
    assert forall|k: int| 0 <= k < 23 implies s[k] == lit[k] by {
        assert((lit + spec_u64_string(c.proxy.timeout_secs as int))[k] == lit[k]);
    }
    assert(s[7] == '\n');
    assert forall|k: int| 0 <= k < 7 implies s[k] != '\n' by {
        assert(s[k] == lit[k]);
    }
    lemma_first_at_exact(s, '\n', 7);
    crate::strutil::lemma_first_at_bounds(s, '"');
    let f = crate::strutil::spec_first_at(s, '"');
    if f <= 7 {
        assert(s[f] == '"');
        assert(s[f] == lit[f]);
    }
}


/// Reads the two hysteresis-threshold lines, which close the document.
#[verifier::rlimit(100)]
fn parse_canonical_thresholds(
    rem_in: String,
    Ghost(has): Ghost<bool>,
    Ghost(w): Ghost<Config>,
    Ghost(text_v): Ghost<Seq<char>>,
) -> (r: Option<(u64, u64)>)
    requires
        has == exists|c0: Config| spec_matches_doc(c0, text_v),
        has ==> spec_matches_doc(w, text_v),
        has ==> rem_in@ == spec_doc_thresholds(w),
    ensures
        r is None ==> has == false,
        r matches Some(t) ==> (has ==> t.0
            == w.health_check.consecutive_failures_threshold as u64 && t.1
            == w.health_check.consecutive_successes_threshold as u64),
{
    let ghost z8 = spec_u64_string(w.health_check.consecutive_successes_threshold as int)
        + "\n"@;
    let ghost z7 = "\nconsecutive_successes_threshold = "@ + z8;
    let ghost z6 = spec_u64_string(w.health_check.consecutive_failures_threshold as int) + z7;
    proof {
        if has {
            assert(rem_in@ =~= "\"\nconsecutive_failures_threshold = "@ + z6);
        }
    }
    let rem = match take_lit(rem_in.as_str(), "\"\nconsecutive_failures_threshold = ") {
        Some(r2) => r2,
        None => { proof { if has { assert(false); } } return None; },
    };
    proof {
        if has {
            lemma_cancel_prefix("\"\nconsecutive_failures_threshold = "@, rem@, z6);
            reveal_strlit("\nconsecutive_successes_threshold = ");
            assert(z7[0] == '\n');
            assert(spec_number_prefix(
                rem@,
                w.health_check.consecutive_failures_threshold as u64,
                z7,
            ));
        }
    }
    let (cft_v, rem) = match take_number(&rem) {
        Some(pr) => pr,
        None => { proof { if has { assert(false); } } return None; },
    };
    let rem = match take_lit(&rem, "\nconsecutive_successes_threshold = ") {
        Some(r2) => r2,
        None => { proof { if has { assert(false); } } return None; },
    };
    proof {
        if has {
            lemma_cancel_prefix("\nconsecutive_successes_threshold = "@, rem@, z8);
            reveal_strlit("\n");
            assert(("\n"@)[0] == '\n');
            assert(spec_number_prefix(
                rem@,
                w.health_check.consecutive_successes_threshold as u64,
                "\n"@,
            ));
        }
    }
    let (cst_v, rem) = match take_number(&rem) {
        Some(pr) => pr,
        None => { proof { if has { assert(false); } } return None; },
    };
    let rem = match take_lit(&rem, "\n") {
        Some(r2) => r2,
        None => {
            proof {
                if has {
                    assert("\n"@ + Seq::<char>::empty() =~= "\n"@);
                    assert(false);
                }
            }
            return None;
        },
    };
    if rem.as_str().unicode_len() != 0 {
        proof {
            if has {
                assert("\n"@ + Seq::<char>::empty() =~= "\n"@);
                lemma_cancel_prefix("\n"@, rem@, Seq::<char>::empty());
                assert(false);
            }
        }
        return None;
    }
    Some((cft_v, cst_v))
}

/// Reads the `[health_check]` section of a canonical document, which
/// `rem_in` must hold in its entirety.
#[verifier::rlimit(100)]
fn parse_canonical_hc(
    rem_in: String,
    Ghost(has): Ghost<bool>,
    Ghost(w): Ghost<Config>,
    Ghost(text_v): Ghost<Seq<char>>,
) -> (r: Option<(u64, u64, String, u64, u64)>)
    requires
        has == exists|c0: Config| spec_matches_doc(c0, text_v),
        has ==> spec_matches_doc(w, text_v),
        has ==> rem_in@ == spec_doc_hc(w),
    ensures
        r is None ==> has == false,
        r matches Some(t) ==> (has ==> t.0 == w.health_check.interval_secs && t.1
            == w.health_check.timeout_secs && t.2@ == w.health_check.method@ && t.3
            == w.health_check.consecutive_failures_threshold as u64 && t.4
            == w.health_check.consecutive_successes_threshold as u64),
{
    let ghost z4 = w.health_check.method@ + spec_doc_thresholds(w);
    let ghost z3 = "\nmethod = \""@ + z4;
    let ghost z2b = spec_u64_string(w.health_check.timeout_secs as int) + z3;
    let ghost z2a = "\ntimeout_secs = "@ + z2b;
    let ghost z1b = spec_u64_string(w.health_check.interval_secs as int) + z2a;
    proof {
        if has {
            assert(rem_in@ =~= "\n[health_check]\ninterval_secs = "@ + z1b);
        }
    }
    let rem = match take_lit(rem_in.as_str(), "\n[health_check]\ninterval_secs = ") {
        Some(r2) => r2,
        None => { proof { if has { assert(false); } } return None; },
    };
    proof {
        if has {
            lemma_cancel_prefix("\n[health_check]\ninterval_secs = "@, rem@, z1b);
            reveal_strlit("\ntimeout_secs = ");
            assert(z2a[0] == '\n');
            assert(spec_number_prefix(rem@, w.health_check.interval_secs, z2a));
        }
    }
    let (interval_v, rem) = match take_number(&rem) {
        Some(pr) => pr,
        None => { proof { if has { assert(false); } } return None; },
    };
    let rem = match take_lit(&rem, "\ntimeout_secs = ") {
        Some(r2) => r2,
        None => { proof { if has { assert(false); } } return None; },
    };
    proof {
        if has {
            lemma_cancel_prefix("\ntimeout_secs = "@, rem@, z2b);
            reveal_strlit("\nmethod = \"");
            assert(z3[0] == '\n');
            assert(spec_number_prefix(rem@, w.health_check.timeout_secs, z3));
        }
    }
    let (hc_timeout_v, rem) = match take_number(&rem) {
        Some(pr) => pr,
        None => { proof { if has { assert(false); } } return None; },
    };
    let rem = match take_lit(&rem, "\nmethod = \"") {
        Some(r2) => r2,
        None => { proof { if has { assert(false); } } return None; },
    };
    proof {
        if has {
            lemma_cancel_prefix("\nmethod = \""@, rem@, z4);
            reveal_strlit("\"\nconsecutive_failures_threshold = ");
            assert(spec_doc_thresholds(w)[0] == '"') by {
                assert(spec_doc_thresholds(w) =~= "\"\nconsecutive_failures_threshold = "@
                    + (spec_u64_string(w.health_check.consecutive_failures_threshold as int)
                    + ("\nconsecutive_successes_threshold = "@ + (spec_u64_string(
                    w.health_check.consecutive_successes_threshold as int,
                ) + "\n"@))));
            }
            assert(spec_quoted_prefix(rem@, w.health_check.method@, spec_doc_thresholds(w)));
        }
    }
    let (method_v, rem) = match take_quoted(&rem) {
        Some(pr) => pr,
        None => { proof { if has { assert(false); } } return None; },
    };
    let th = match parse_canonical_thresholds(rem, Ghost(has), Ghost(w), Ghost(text_v)) {
        Some(t) => t,
        None => { proof { if has { assert(false); } } return None; },
    };
    Some((interval_v, hc_timeout_v, method_v, th.0, th.1))
}

/// Reads the `[proxy]` and `[health_check]` sections of a canonical
/// document, which `rem_in` must hold in their entirety.
#[verifier::rlimit(100)]
fn parse_canonical_tail(
    rem_in: String,
    Ghost(has): Ghost<bool>,
    Ghost(w): Ghost<Config>,
    Ghost(text_v): Ghost<Seq<char>>,
) -> (r: Option<(u64, u64, u64, String, u64, u64)>)
    requires
        has == exists|c0: Config| spec_matches_doc(c0, text_v),
        has ==> spec_matches_doc(w, text_v),
        has ==> rem_in@ == spec_doc_tail(w),
    ensures
        r is None ==> has == false,
        r matches Some(t) ==> (has ==> t.0 == w.proxy.timeout_secs && t.1
            == w.health_check.interval_secs && t.2 == w.health_check.timeout_secs && t.3@
            == w.health_check.method@ && t.4 == w.health_check.consecutive_failures_threshold
            && t.5 == w.health_check.consecutive_successes_threshold),
{
    let ghost z0 = spec_u64_string(w.proxy.timeout_secs as int) + spec_doc_hc(w);
    proof {
        if has {
            assert(rem_in@ =~= "[proxy]\ntimeout_secs = "@ + z0);
        }
    }
    let rem = match take_lit(rem_in.as_str(), "[proxy]\ntimeout_secs = ") {
        Some(r2) => r2,
        None => { proof { if has { assert(false); } } return None; },
    };
    proof {
        if has {
            lemma_cancel_prefix("[proxy]\ntimeout_secs = "@, rem@, z0);
            reveal_strlit("\n[health_check]\ninterval_secs = ");
            assert(spec_doc_hc(w)[0] == '\n') by {
                assert(spec_doc_hc(w) =~= "\n[health_check]\ninterval_secs = "@
                    + (spec_u64_string(w.health_check.interval_secs as int)
                    + ("\ntimeout_secs = "@ + (spec_u64_string(w.health_check.timeout_secs as int)
                    + ("\nmethod = \""@ + (w.health_check.method@ + spec_doc_thresholds(w)))))));
            }
            assert(spec_number_prefix(rem@, w.proxy.timeout_secs, spec_doc_hc(w)));
        }
    }
    let (proxy_v, rem) = match take_number(&rem) {
        Some(pr) => pr,
        None => { proof { if has { assert(false); } } return None; },
    };
    let hc = match parse_canonical_hc(rem, Ghost(has), Ghost(w), Ghost(text_v)) {
        Some(t) => t,
        None => { proof { if has { assert(false); } } return None; },
    };
    proof {
        if has {
            assert(hc.3 == w.health_check.consecutive_failures_threshold as u64);
        }
    }
    Some((proxy_v, hc.0, hc.1, hc.2, hc.3, hc.4))
}

/// The canonical document, regrouped so that the top-level keys can be
/// peeled off the front one after another.
#[verifier::rlimit(100)]
proof fn lemma_top_flatten(w: Config)
    ensures
        spec_serialize_config(w) =~= "port = "@ + (spec_u64_string(w.port as int)
            + ("\nmetrics_port = "@ + (spec_u64_string(w.metrics_port as int)
            + ("\nredis_url = \""@ + (w.redis_url@ + ("\"\n"@ + (spec_backends_text_range(
            w.backends@,
            0,
            w.backends@.len() as int,
        ) + (spec_doc_routes(w) + spec_doc_tail(w))))))))),
{
}

/// Reads the top-level keys of a canonical document and hands back the
/// rest, which starts at the backend blocks.
#[verifier::rlimit(100)]
fn parse_canonical_top(
    text: &str,
    Ghost(has): Ghost<bool>,
    Ghost(w): Ghost<Config>,
) -> (r: Option<(u16, u16, String, String)>)
    requires
        has == exists|c0: Config| spec_matches_doc(c0, text@),
        has ==> spec_matches_doc(w, text@),
    ensures
        r is None ==> has == false,
        r matches Some(t) ==> (has ==> t.0 == w.port && t.1 == w.metrics_port && t.2@
            == w.redis_url@ && t.3@ == spec_backends_text_range(
            w.backends@,
            0,
            w.backends@.len() as int,
        ) + (spec_doc_routes(w) + spec_doc_tail(w))),
{
    let ghost wn = w.backends@.len() as int;
    let ghost s7 = spec_backends_text_range(w.backends@, 0, wn) + (spec_doc_routes(w)
        + spec_doc_tail(w));
    let ghost s6 = "\"\n"@ + s7;
    let ghost s5 = w.redis_url@ + s6;
    let ghost s4 = "\nredis_url = \""@ + s5;
    let ghost s3 = spec_u64_string(w.metrics_port as int) + s4;
    let ghost s2 = "\nmetrics_port = "@ + s3;
    let ghost s1 = spec_u64_string(w.port as int) + s2;
    proof {
        if has {
            assert(spec_matches_doc(w, text@));
            lemma_top_flatten(w);
            assert(text@ == "port = "@ + s1);
        }
    }
    let rem1 = match take_lit(text, "port = ") {
        Some(r2) => r2,
        None => { proof { if has { assert(false); } } return None; },
    };
    proof {
        if has {
            lemma_cancel_prefix("port = "@, rem1@, s1);
            reveal_strlit("\nmetrics_port = ");
            assert(s2[0] == '\n');
            assert(spec_number_prefix(rem1@, w.port as u64, s2));
        }
    }
    let (port_v, rem2) = match take_number(&rem1) {
        Some(pr) => pr,
        None => { proof { if has { assert(false); } } return None; },
    };
    let rem3 = match take_lit(&rem2, "\nmetrics_port = ") {
        Some(r2) => r2,
        None => { proof { if has { assert(false); } } return None; },
    };
    proof {
        if has {
            lemma_cancel_prefix("\nmetrics_port = "@, rem3@, s3);
            reveal_strlit("\nredis_url = \"");
            assert(s4[0] == '\n');
            assert(spec_number_prefix(rem3@, w.metrics_port as u64, s4));
        }
    }
    let (mp_v, rem4) = match take_number(&rem3) {
        Some(pr) => pr,
        None => { proof { if has { assert(false); } } return None; },
    };
    let rem5 = match take_lit(&rem4, "\nredis_url = \"") {
        Some(r2) => r2,
        None => { proof { if has { assert(false); } } return None; },
    };
    proof {
        if has {
            lemma_cancel_prefix("\nredis_url = \""@, rem5@, s5);
            reveal_strlit("\"\n");
            assert(s6[0] == '"');
            assert(spec_quoted_prefix(rem5@, w.redis_url@, s6));
        }
    }
    let (redis_v, rem6) = match take_quoted(&rem5) {
        Some(pr) => pr,
        None => { proof { if has { assert(false); } } return None; },
    };
    let rem7 = match take_lit(&rem6, "\"\n") {
        Some(r2) => r2,
        None => { proof { if has { assert(false); } } return None; },
    };
    proof {
        if has {
            lemma_cancel_prefix("\"\n"@, rem7@, s7);
        }
    }
    if port_v > 65535 || mp_v > 65535 {
        proof { if has { assert(false); } }
        return None;
    }

    Some((port_v as u16, mp_v as u16, redis_v, rem7))
}

/// Reads a document of exactly the canonical shape `serialize_config`
/// emits; anything else is refused and the general reader takes over.
/// On the canonical document of any configuration this reader provably
/// succeeds, and its result re-serialises to the input text.
#[verifier::rlimit(100)]
fn parse_canonical(text: &str) -> (r: Option<Config>)
    ensures
        r is None ==> forall|c0: Config| !spec_matches_doc(c0, text@),
        r matches Some(c) ==> ((exists|c0: Config| spec_matches_doc(c0, text@))
            ==> spec_canonical_config(c) && text@ == spec_serialize_config(c)),
        r matches Some(c) ==> c.backends@.len() <= 0xFFFF_FFFF,
{
    let ghost has = exists|c0: Config| spec_matches_doc(c0, text@);
    let ghost w: Config = choose|c0: Config| spec_matches_doc(c0, text@);
    let ghost wn = w.backends@.len() as int;
    let ghost wm = w.method_routes@.len() as int;
    let top_vals = match parse_canonical_top(text, Ghost(has), Ghost(w)) {
        Some(t) => t,
        None => {
            proof { if has { assert(false); } }
            return None;
        },
    };
    let (port_v, mp_v, redis_v, rem7) = top_vals;
    // The backend blocks.
    let mut rem = rem7;
    let mut backends: Vec<Backend> = Vec::new();
    let mut more = true;
    while more
        invariant
            has == exists|c0: Config| spec_matches_doc(c0, text@),
            has ==> spec_matches_doc(w, text@),
            wn == w.backends@.len() as int,
            has ==> backends@.len() <= wn,
            has ==> forall|k: int|
                0 <= k < backends@.len() ==> spec_backend_equiv(
                    #[trigger] backends@[k],
                    w.backends@[k],
                ),
            has && more ==> rem@ == spec_backends_text_range(
                w.backends@,
                backends@.len() as int,
                wn,
            ) + (spec_doc_routes(w) + spec_doc_tail(w)),
            has && !more ==> backends@.len() == wn && rem@ == spec_doc_routes(w)
                + spec_doc_tail(w),
        decreases rem@.len(), (if more { 1int } else { 0int }),
    {
        let ghost bc = backends@.len() as int;
        let ghost b: Backend = if has && bc < wn {
            w.backends@[bc]
        } else {
            arbitrary()
        };
        let ghost brest = spec_backends_text_range(w.backends@, bc + 1, wn) + (spec_doc_routes(w)
            + spec_doc_tail(w));
        let ghost u5 = "\n"@ + brest;
        let ghost u4 = spec_u64_string(b.weight as int) + u5;
        let ghost u3 = (match b.ws_url {
            Some(wv) => "\"\nws_url = \""@ + (wv@ + ("\"\nweight = "@ + u4)),
            None => "\"\nweight = "@ + u4,
        });
        let ghost u2 = b.url@ + u3;
        let ghost u1 = "\"\nurl = \""@ + u2;
        let ghost u0 = b.label@ + u1;
        proof {
            reveal_strlit("\"");
            reveal_strlit("\n");
            reveal_strlit("\nws_url = \"");
            reveal_strlit("\nweight = ");
            reveal_strlit("\"\nws_url = \"");
            reveal_strlit("\"\nweight = ");
            if has && bc < wn {
                assert(spec_backends_text_range(w.backends@, bc, wn) == spec_backend_text(b)
                    + spec_backends_text_range(w.backends@, bc + 1, wn));
                assert(rem@ =~= "[[backends]]\nlabel = \""@ + u0);
            }
            if has && bc == wn {
                assert(spec_backends_text_range(w.backends@, bc, wn) =~= Seq::<char>::empty());
                assert(rem@ =~= spec_doc_routes(w) + spec_doc_tail(w));
                reveal_strlit("[method_routes]\n");
                assert(rem@[1] == 'm');
            }
        }
        let step = take_lit(rem.as_str(), "[[backends]]\nlabel = \"");
        match step {
            None => {
                proof {
                    if has && bc < wn {
                        assert(false);
                    }
                }
                more = false;
            },
            Some(q1) => {
                proof {
                    reveal_strlit("[[backends]]\nlabel = \"");
                    if has && bc == wn {
                        assert(rem@[1] == '[');
                        assert(false);
                    }
                    if has {
                        lemma_cancel_prefix("[[backends]]\nlabel = \""@, q1@, u0);
                        reveal_strlit("\"\nurl = \"");
                        assert(u1[0] == '"');
                        assert(spec_quoted_prefix(q1@, b.label@, u1));
                    }
                }
                let (label_v, q2) = match take_quoted(&q1) {
                    Some(pr) => pr,
                    None => { proof { if has { assert(false); } } return None; },
                };
                let q3 = match take_lit(&q2, "\"\nurl = \"") {
                    Some(r2) => r2,
                    None => { proof { if has { assert(false); } } return None; },
                };
                proof {
                    if has {
                        lemma_cancel_prefix("\"\nurl = \""@, q3@, u2);
                        reveal_strlit("\"\nws_url = \"");
                        reveal_strlit("\"\nweight = ");
                        assert(u3[0] == '"');
                        assert(spec_quoted_prefix(q3@, b.url@, u3));
                    }
                }
                let (url_v, q4) = match take_quoted(&q3) {
                    Some(pr) => pr,
                    None => { proof { if has { assert(false); } } return None; },
                };
                let (ws_v, q6): (Option<String>, String) = match take_lit(
                    &q4,
                    "\"\nws_url = \"",
                ) {
                    Some(q5) => {
                        proof {
                            reveal_strlit("\"\nws_url = \"");
                            reveal_strlit("\"\nweight = ");
                            if has {
                                if b.ws_url is None {
                                    assert(q4@[3] == 'e');
                                    assert(q4@[3] == 's');
                                    assert(false);
                                }
                                let wv = b.ws_url->Some_0;
                                lemma_cancel_prefix(
                                    "\"\nws_url = \""@,
                                    q5@,
                                    wv@ + ("\"\nweight = "@ + u4),
                                );
                                assert(("\"\nweight = "@ + u4)[0] == '"');
                                assert(spec_quoted_prefix(q5@, wv@, "\"\nweight = "@ + u4));
                            }
                        }
                        let (wv_str, q5b) = match take_quoted(&q5) {
                            Some(pr) => pr,
                            None => { proof { if has { assert(false); } } return None; },
                        };
                        let q5c = match take_lit(&q5b, "\"\nweight = ") {
                            Some(r2) => r2,
                            None => { proof { if has { assert(false); } } return None; },
                        };
                        proof {
                            if has {
                                lemma_cancel_prefix("\"\nweight = "@, q5c@, u4);
                            }
                        }
                        (Some(wv_str), q5c)
                    },
                    None => {
                        proof {
                            reveal_strlit("\"\nws_url = \"");
                            if has && b.ws_url is Some {
                                let wv = b.ws_url->Some_0;
                                assert(q4@ == "\"\nws_url = \""@ + (wv@ + ("\"\nweight = "@
                                    + u4)));
                                assert(false);
                            }
                        }
                        let q5c = match take_lit(&q4, "\"\nweight = ") {
                            Some(r2) => r2,
                            None => { proof { if has { assert(false); } } return None; },
                        };
                        proof {
                            if has {
                                lemma_cancel_prefix("\"\nweight = "@, q5c@, u4);
                            }
                        }
                        (None, q5c)
                    },
                };
                proof {
                    if has {
                        reveal_strlit("\n");
                        assert(u5[0] == '\n');
                        assert(spec_number_prefix(q6@, b.weight as u64, u5));
                    }
                }
                let (weight_v, q7) = match take_number(&q6) {
                    Some(pr) => pr,
                    None => { proof { if has { assert(false); } } return None; },
                };
                let q8 = match take_lit(&q7, "\n") {
                    Some(r2) => r2,
                    None => { proof { if has { assert(false); } } return None; },
                };
                if weight_v > 0xFFFF_FFFFu64 {
                    proof { if has { assert(false); } }
                    return None;
                }
                proof {
                    if has {
                        lemma_cancel_prefix("\n"@, q8@, brest);
                    }
                    assert(q8@.len() < rem@.len()) by {
                        reveal_strlit("[[backends]]\nlabel = \"");
                        reveal_strlit("\"\nurl = \"");
                        reveal_strlit("\"\nws_url = \"");
                        reveal_strlit("\"\nweight = ");
                        reveal_strlit("\n");
                        assert(rem@ == "[[backends]]\nlabel = \""@ + q1@);
                        assert(label_v@ + q2@ == q1@);
                        assert(q2@ == "\"\nurl = \""@ + q3@);
                        assert(url_v@ + q4@ == q3@);
                        assert(q6@.len() <= q4@.len());
                        assert(q7@.len() < q6@.len());
                        assert(q7@ == "\n"@ + q8@);
                    }
                }
                backends.push(
                    Backend { label: label_v, url: url_v, ws_url: ws_v, weight: weight_v as u32 },
                );
                proof {
                    if has {
                        assert(spec_backend_equiv(backends@[bc], w.backends@[bc]));
                        assert(forall|k: int|
                            0 <= k < backends@.len() ==> spec_backend_equiv(
                                #[trigger] backends@[k],
                                w.backends@[k],
                            ));
                        assert(q8@ == spec_backends_text_range(
                            w.backends@,
                            backends@.len() as int,
                            wn,
                        ) + (spec_doc_routes(w) + spec_doc_tail(w)));
                    }
                }
                rem = q8;
            },
        }
    }
    if backends.len() > 0xFFFF_FFFFusize {
        proof { if has { assert(false); } }
        return None;
    }

    // The override table.
    let ghost rt = spec_doc_tail(w);
    proof {
        if has {
            assert(rem@ =~= "[method_routes]\n"@ + (spec_routes_text_range(
                w.method_routes@,
                0,
                wm,
            ) + rt));
        }
    }
    let rem0 = match take_lit(rem.as_str(), "[method_routes]\n") {
        Some(r2) => r2,
        None => { proof { if has { assert(false); } } return None; },
    };
    proof {
        if has {
            lemma_cancel_prefix(
                "[method_routes]\n"@,
                rem0@,
                spec_routes_text_range(w.method_routes@, 0, wm) + rt,
            );
        }
    }
    let mut rem = rem0;
    let mut method_routes: Vec<MethodRoute> = Vec::new();
    let mut in_routes = true;
    while in_routes
        invariant
            has == exists|c0: Config| spec_matches_doc(c0, text@),
            has ==> spec_matches_doc(w, text@),
            wm == w.method_routes@.len() as int,
            rt == spec_doc_tail(w),
            has ==> method_routes@.len() <= wm,
            has ==> forall|k: int|
                0 <= k < method_routes@.len() ==> spec_route_equiv(
                    #[trigger] method_routes@[k],
                    w.method_routes@[k],
                ),
            has && in_routes ==> rem@ == spec_routes_text_range(
                w.method_routes@,
                method_routes@.len() as int,
                wm,
            ) + rt,
            has && !in_routes ==> method_routes@.len() == wm && rem@ == rt,
        decreases rem@.len(), (if in_routes { 1int } else { 0int }),
    {
        let ghost rc = method_routes@.len() as int;
        let ghost rr: MethodRoute = if has && rc < wm {
            w.method_routes@[rc]
        } else {
            arbitrary()
        };
        let ghost rrest = spec_routes_text_range(w.method_routes@, rc + 1, wm) + rt;
        let ghost v2 = "\"\n"@ + rrest;
        let ghost v1 = rr.label@ + v2;
        proof {
            reveal_strlit(" = \"");
            reveal_strlit(" = ");
            reveal_strlit("\"");
            reveal_strlit("\"\n");
            if has && rc < wm {
                assert(spec_routes_text_range(w.method_routes@, rc, wm) == spec_route_text(rr)
                    + spec_routes_text_range(w.method_routes@, rc + 1, wm));
                assert(rem@ =~= rr.method@ + " = \""@ + rr.label@ + "\"\n"@ + rrest);
                lemma_route_layout(rr.method@, rr.label@, rrest, rem@);
                assert(rem@ =~= (rr.method@ + " = "@) + ("\""@ + v1));
            }
            if has && rc == wm {
                assert(spec_routes_text_range(w.method_routes@, rc, wm)
                    =~= Seq::<char>::empty());
                assert(rem@ =~= rt);
                lemma_tail_layout(w, rem@);
            }
        }
        let qpos = find_char(rem.as_str(), '"');
        let nlpos = find_char(rem.as_str(), '\n');
        if qpos < nlpos {
            // A route line.
            proof {
                if has && rc == wm {
                    assert(false);
                }
                if has {
                    assert forall|k: int| 0 <= k < (rr.method@ + " = "@).len()
                        implies (rr.method@ + " = "@)[k] != '"' by {
                        reveal_strlit(" = ");
                        if k < rr.method@.len() {
                            assert((rr.method@ + " = "@)[k] == rr.method@[k]);
                        }
                    }
                    assert(("\""@ + v1)[0] == '"');
                    assert(spec_quoted_prefix(rem@, rr.method@ + " = "@, "\""@ + v1));
                }
            }
            let (val, p1) = match take_quoted(rem.as_str()) {
                Some(pr) => pr,
                None => { proof { if has { assert(false); } } return None; },
            };
            let vlen = val.as_str().unicode_len();
            if vlen < 3 || !eq_str(val.as_str().substring_char(vlen - 3, vlen), " = ") {
                proof {
                    if has {
                        assert(val@ == rr.method@ + " = "@);
                        assert(val@.subrange(vlen - 3, vlen as int) =~= (" = ")@);
                        assert(false);
                    }
                }
                return None;
            }
            let method_v = val.as_str().substring_char(0, vlen - 3).to_owned();
            proof {
                if has {
                    assert(method_v@ =~= rr.method@);
                }
            }
            let p2 = match take_lit(&p1, "\"") {
                Some(r2) => r2,
                None => {
                    proof {
                        if has {
                            assert(p1@ == "\""@ + v1);
                            assert(false);
                        }
                    }
                    return None;
                },
            };
            proof {
                if has {
                    assert(p1@ == "\""@ + v1);
                    lemma_cancel_prefix("\""@, p2@, v1);
                    reveal_strlit("\"\n");
                    assert(v2[0] == '"');
                    assert(spec_quoted_prefix(p2@, rr.label@, v2));
                }
            }
            let (label_v, p3) = match take_quoted(&p2) {
                Some(pr) => pr,
                None => { proof { if has { assert(false); } } return None; },
            };
            let p4 = match take_lit(&p3, "\"\n") {
                Some(r2) => r2,
                None => { proof { if has { assert(false); } } return None; },
            };
            proof {
                if has {
                    lemma_cancel_prefix("\"\n"@, p4@, rrest);
                }
                assert(p4@.len() < rem@.len()) by {
                    reveal_strlit("\"");
                    reveal_strlit("\"\n");
                    assert(val@ + p1@ == rem@);
                    assert(p1@ == "\""@ + p2@);
                    assert(label_v@ + p3@ == p2@);
                    assert(p3@ == "\"\n"@ + p4@);
                }
            }
            method_routes.push(MethodRoute { method: method_v, label: label_v });
            proof {
                if has {
                    assert(spec_route_equiv(method_routes@[rc], w.method_routes@[rc]));
                    assert(forall|k: int|
                        0 <= k < method_routes@.len() ==> spec_route_equiv(
                            #[trigger] method_routes@[k],
                            w.method_routes@[k],
                        ));
                }
            }
            rem = p4;
        } else {
            proof {
                if has && rc < wm {
                    assert(false);
                }
            }
            in_routes = false;
        }
    }

    let tail_vals = match parse_canonical_tail(rem, Ghost(has), Ghost(w), Ghost(text@)) {
        Some(t) => t,
        None => {
            proof { if has { assert(false); } }
            return None;
        },
    };
    let (proxy_v, interval_v, hc_timeout_v, method_v, cft_v, cst_v) = tail_vals;
    let c = Config {
        port: port_v as u16,
        metrics_port: mp_v as u16,
        redis_url: redis_v,
        backends,
        method_routes,
        proxy: ProxyConfig { timeout_secs: proxy_v },
        health_check: HealthCheckConfig {
            interval_secs: interval_v,
            timeout_secs: hc_timeout_v,
            method: method_v,
            consecutive_failures_threshold: cft_v as u32,
            consecutive_successes_threshold: cst_v as u32,
        },
    };
    proof {
        if has {
            assert(spec_config_equiv(c, w));
            lemma_canonical_transfers(c, w);
            lemma_ser_respects_equiv(c, w);
        }
    }
    Some(c)
}

} // verus!
