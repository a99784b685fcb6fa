//! The configuration file's text format: a small key/value dialect in the
//! shape that the usual Rust TOML tooling writes for a flat table of strings
//! and booleans.
//!
//! A file is a sequence of lines.  A line is blank, a `#` comment, or
//! `key = value` where the key is a bare run of letters, digits, `_` and `-`,
//! and the value is a double-quoted string (with `\"`, `\\`, `\n`, `\r`,
//! `\t` and `\uXXXX` escapes), a single-quoted literal string, or a bare
//! `true` / `false`.  A `#` comment may follow a value.  Unknown keys are
//! ignored; a known key given twice, a value of the wrong shape, or a
//! missing required key is a malformed file.

use vstd::prelude::*;
use crate::config::{CfgV, Config, ConfigError, GeometryMode};

verus! {

// ---------------------------------------------------------------------------
// Character classes
// ---------------------------------------------------------------------------

pub open spec fn is_ws_char(c: char) -> bool {
    c == ' ' || c == '\t' || c == '\r'
}

pub open spec fn is_key_char(c: char) -> bool {
    (97 <= c as u32 && c as u32 <= 122)  // a-z
    || (65 <= c as u32 && c as u32 <= 90)  // A-Z
    || (48 <= c as u32 && c as u32 <= 57)  // 0-9
    || c == '_' || c == '-'
}

/// A character that may not stand unescaped inside a quoted string:
/// a control character other than tab.
pub open spec fn is_bad_in_string(c: char) -> bool {
    (c as u32) < 32 && c != '\t'
}

/// What a `\x` escape stands for, if `x` is a recognised escape code.
pub open spec fn unescape_char(c: char) -> Option<char> {
    if c == '"' {
        Some('"')
    } else if c == '\\' {
        Some('\\')
    } else if c == 'n' {
        Some('\n')
    } else if c == 'r' {
        Some('\r')
    } else if c == 't' {
        Some('\t')
    } else {
        None
    }
}

// ---------------------------------------------------------------------------
// Scanning
// ---------------------------------------------------------------------------

/// First index at or after `i` whose character is not line whitespace.
pub open spec fn skip_ws(s: Seq<char>, i: int) -> int
    decreases s.len() - i,
{
    if i < 0 || i >= s.len() {
        i
    } else if is_ws_char(s[i]) {
        skip_ws(s, i + 1)
    } else {
        i
    }
}

/// Index just after the `\n` that ends the current line, or the end of text.
pub open spec fn skip_to_eol(s: Seq<char>, i: int) -> int
    decreases s.len() - i,
{
    if i < 0 || i >= s.len() {
        s.len() as int
    } else if s[i] == '\n' {
        i + 1
    } else {
        skip_to_eol(s, i + 1)
    }
}

/// End of the run of bare-key characters that starts at `i`.
pub open spec fn scan_key(s: Seq<char>, i: int) -> int
    decreases s.len() - i,
{
    if i < 0 || i >= s.len() {
        i
    } else if is_key_char(s[i]) {
        scan_key(s, i + 1)
    } else {
        i
    }
}

/// A hex digit's value, or 16 for any other character.
pub open spec fn hex_val(c: char) -> int {
    if 48 <= c as u32 && c as u32 <= 57 {
        c as u32 - 48
    } else if 97 <= c as u32 && c as u32 <= 102 {
        c as u32 - 87
    } else if 65 <= c as u32 && c as u32 <= 70 {
        c as u32 - 55
    } else {
        16
    }
}

pub open spec fn is_hex_digit(c: char) -> bool {
    hex_val(c) < 16
}

/// A Unicode scalar value: a code point that is a `char`.
pub open spec fn is_scalar_value(u: int) -> bool {
    (0 <= u && u <= 0xD7FF) || (0xE000 <= u && u <= 0x10FFFF)
}

/// The code point named by the four hex digits at `i`.
pub open spec fn hex4_val(s: Seq<char>, i: int) -> int {
    hex_val(s[i]) * 4096 + hex_val(s[i + 1]) * 256 + hex_val(s[i + 2]) * 16 + hex_val(s[i + 3])
}

/// Scan a quoted string's interior starting at `i` (just after the opening
/// quote): the unescaped content and the index just after the closing quote,
/// or `None` if the string is unterminated, holds a raw control character,
/// or uses an unknown or invalid escape.  Besides the short escapes, a
/// `\uXXXX` escape names any Unicode scalar value by four hex digits.
pub open spec fn scan_basic(s: Seq<char>, i: int) -> Option<(Seq<char>, int)>
    decreases s.len() - i,
{
    if i < 0 || i >= s.len() {
        None
    } else if s[i] == '"' {
        Some((Seq::empty(), i + 1))
    } else if s[i] == '\\' {
        if i + 1 < s.len() && s[i + 1] == 'u' {
            if i + 5 < s.len() && is_hex_digit(s[i + 2]) && is_hex_digit(s[i + 3]) && is_hex_digit(
                s[i + 4],
            ) && is_hex_digit(s[i + 5]) && is_scalar_value(hex4_val(s, i + 2)) {
                match scan_basic(s, i + 6) {
                    Some(r) => Some((seq![hex4_val(s, i + 2) as char] + r.0, r.1)),
                    None => None,
                }
            } else {
                None
            }
        } else if i + 1 < s.len() && unescape_char(s[i + 1]) is Some {
            match scan_basic(s, i + 2) {
                Some(r) => Some((seq![unescape_char(s[i + 1])->0] + r.0, r.1)),
                None => None,
            }
        } else {
            None
        }
    } else if is_bad_in_string(s[i]) {
        None
    } else {
        match scan_basic(s, i + 1) {
            Some(r) => Some((seq![s[i]] + r.0, r.1)),
            None => None,
        }
    }
}

/// Scan a literal (single-quoted) string's interior starting at `i`: no
/// escapes, every character up to the closing quote taken as written, raw
/// control characters other than tab refused.
pub open spec fn scan_literal(s: Seq<char>, i: int) -> Option<(Seq<char>, int)>
    decreases s.len() - i,
{
    if i < 0 || i >= s.len() {
        None
    } else if s[i] == '\'' {
        Some((Seq::empty(), i + 1))
    } else if is_bad_in_string(s[i]) {
        None
    } else {
        match scan_literal(s, i + 1) {
            Some(r) => Some((seq![s[i]] + r.0, r.1)),
            None => None,
        }
    }
}

// ---------------------------------------------------------------------------
// Values and lines
// ---------------------------------------------------------------------------

/// A parsed value: a string or a boolean.
pub enum TomlVal {
    S { text: Seq<char> },
    B { b: bool },
}

/// Parse the value that starts at `i`: a basic or literal string, or a
/// bare `true` / `false` token, with the index just after it.
pub open spec fn parse_value(s: Seq<char>, i: int) -> Option<(TomlVal, int)> {
    if i < 0 || i >= s.len() {
        None
    } else if s[i] == '"' {
        match scan_basic(s, i + 1) {
            Some(r) => Some((TomlVal::S { text: r.0 }, r.1)),
            None => None,
        }
    } else if s[i] == '\'' {
        match scan_literal(s, i + 1) {
            Some(r) => Some((TomlVal::S { text: r.0 }, r.1)),
            None => None,
        }
    } else {
        let j = scan_key(s, i);
        if s.subrange(i, j) == "true"@ {
            Some((TomlVal::B { b: true }, j))
        } else if s.subrange(i, j) == "false"@ {
            Some((TomlVal::B { b: false }, j))
        } else {
            None
        }
    }
}

/// After a value at `i`: only whitespace and an optional comment may follow
/// on the line.  The index where the next line starts, or `None`.
pub open spec fn line_end(s: Seq<char>, i: int) -> Option<int> {
    let j = skip_ws(s, i);
    if j >= s.len() {
        Some(s.len() as int)
    } else if s[j] == '\n' {
        Some(j + 1)
    } else if s[j] == '#' {
        Some(skip_to_eol(s, j))
    } else {
        None
    }
}

// ---------------------------------------------------------------------------
// Folding entries into a configuration
// ---------------------------------------------------------------------------

/// The fields gathered so far while reading a file, each at most once.
pub struct PartialCfg {
    pub key: Option<Seq<char>>,
    pub mode: Option<GeometryMode>,
    pub minutely: Option<bool>,
    pub hourly: Option<bool>,
    pub daily: Option<bool>,
}

pub open spec fn empty_partial() -> PartialCfg {
    PartialCfg { key: None, mode: None, minutely: None, hourly: None, daily: None }
}

/// A character's code point with an ASCII capital folded to lower case.
pub open spec fn lower_code(c: char) -> int {
    if 65 <= c as u32 && c as u32 <= 90 {
        c as u32 + 32
    } else {
        c as u32 as int
    }
}

pub open spec fn chars_eq_ci(x: char, y: char) -> bool {
    lower_code(x) == lower_code(y)
}

/// Equality up to ASCII case.
pub open spec fn eq_ignore_case(a: Seq<char>, b: Seq<char>) -> bool {
    a.len() == b.len() && forall|i: int| 0 <= i < a.len() ==> #[trigger] chars_eq_ci(a[i], b[i])
}

/// The geometry mode that a string value names, if any.  The aliases are
/// matched without regard to case.
pub open spec fn mode_of_text(t: Seq<char>) -> Option<GeometryMode> {
    if eq_ignore_case(t, "location"@) || eq_ignore_case(t, "v2.5"@) {
        Some(GeometryMode::Location)
    } else if eq_ignore_case(t, "city"@) || eq_ignore_case(t, "v3.0"@) {
        Some(GeometryMode::City)
    } else {
        None
    }
}

/// Record one `key = value` entry.  A known key must carry a value of its
/// shape and may appear only once; an unknown key changes nothing.
pub open spec fn apply_entry(p: PartialCfg, key: Seq<char>, v: TomlVal) -> Option<PartialCfg> {
    if key == "api_key"@ {
        match v {
            TomlVal::S { text } => if p.key is None {
                Some(PartialCfg { key: Some(text), ..p })
            } else {
                None
            },
            _ => None,
        }
    } else if key == "geometry_mode"@ {
        match v {
            TomlVal::S { text } => match mode_of_text(text) {
                Some(m) => if p.mode is None {
                    Some(PartialCfg { mode: Some(m), ..p })
                } else {
                    None
                },
                None => None,
            },
            _ => None,
        }
    } else if key == "minutely"@ {
        match v {
            TomlVal::B { b } => if p.minutely is None {
                Some(PartialCfg { minutely: Some(b), ..p })
            } else {
                None
            },
            _ => None,
        }
    } else if key == "hourly"@ {
        match v {
            TomlVal::B { b } => if p.hourly is None {
                Some(PartialCfg { hourly: Some(b), ..p })
            } else {
                None
            },
            _ => None,
        }
    } else if key == "daily"@ {
        match v {
            TomlVal::B { b } => if p.daily is None {
                Some(PartialCfg { daily: Some(b), ..p })
            } else {
                None
            },
            _ => None,
        }
    } else {
        Some(p)
    }
}

/// Read every line from `i` on, folding entries into `p`.
/// `None` is a malformed file.
pub open spec fn parse_lines(s: Seq<char>, i: int, p: PartialCfg) -> Option<PartialCfg>
    decreases s.len() - i,
    when 0 <= i
    via parse_lines_decreases
{
    if i >= s.len() {
        Some(p)
    } else {
        let j = skip_ws(s, i);
        if j >= s.len() {
            Some(p)
        } else if s[j] == '\n' {
            parse_lines(s, j + 1, p)
        } else if s[j] == '#' {
            parse_lines(s, skip_to_eol(s, j), p)
        } else {
            let k = scan_key(s, j);
            if k == j {
                None
            } else {
                let key = s.subrange(j, k);
                let m = skip_ws(s, k);
                if m >= s.len() || s[m] != '=' {
                    None
                } else {
                    match parse_value(s, skip_ws(s, m + 1)) {
                        None => None,
                        Some(vr) => match line_end(s, vr.1) {
                            None => None,
                            Some(nxt) => match apply_entry(p, key, vr.0) {
                                None => None,
                                Some(p2) => parse_lines(s, nxt, p2),
                            },
                        },
                    }
                }
            }
        }
    }
}

#[via_fn]
proof fn parse_lines_decreases(s: Seq<char>, i: int, p: PartialCfg) {
    if 0 <= i < s.len() {
        lemma_skip_ws_bounds(s, i);
        let j = skip_ws(s, i);
        if j < s.len() && s[j] != '\n' && s[j] != '#' {
            lemma_skip_to_eol_bounds(s, j);
            lemma_scan_key_bounds(s, j);
            let k = scan_key(s, j);
            if k != j {
                lemma_skip_ws_bounds(s, k);
                let m = skip_ws(s, k);
                if m < s.len() && s[m] == '=' {
                    lemma_skip_ws_bounds(s, m + 1);
                    let v0 = skip_ws(s, m + 1);
                    lemma_parse_value_bounds(s, v0);
                    match parse_value(s, v0) {
                        None => {},
                        Some(vr) => {
                            lemma_line_end_bounds(s, vr.1);
                        },
                    }
                }
            }
        } else if j < s.len() && s[j] == '#' {
            lemma_skip_to_eol_bounds(s, j);
        }
    }
}

/// Turn the gathered fields into a configuration.  The API key and the
/// geometry mode are required; the toggles default to `false`; an empty
/// API key is rejected on its own.
pub open spec fn finish_partial(p: PartialCfg) -> Result<CfgV, ConfigError> {
    match (p.key, p.mode) {
        (Some(k), Some(m)) => if k.len() == 0 {
            Err(ConfigError::EmptyKey)
        } else {
            Ok(CfgV {
                api_key: k,
                geometry_mode: m,
                minutely: match p.minutely { Some(b) => b, None => false },
                hourly: match p.hourly { Some(b) => b, None => false },
                daily: match p.daily { Some(b) => b, None => false },
            })
        },
        _ => Err(ConfigError::Malformed),
    }
}

/// What a configuration file's text means.
pub open spec fn parse_config(s: Seq<char>) -> Result<CfgV, ConfigError> {
    match parse_lines(s, 0, empty_partial()) {
        None => Err(ConfigError::Malformed),
        Some(p) => finish_partial(p),
    }
}

// ---------------------------------------------------------------------------
// Printing
// ---------------------------------------------------------------------------

/// The lower-case hex digit for a value below sixteen.
pub open spec fn hex_digit(v: int) -> char {
    if v == 0 {
        '0'
    } else if v == 1 {
        '1'
    } else if v == 2 {
        '2'
    } else if v == 3 {
        '3'
    } else if v == 4 {
        '4'
    } else if v == 5 {
        '5'
    } else if v == 6 {
        '6'
    } else if v == 7 {
        '7'
    } else if v == 8 {
        '8'
    } else if v == 9 {
        '9'
    } else if v == 10 {
        'a'
    } else if v == 11 {
        'b'
    } else if v == 12 {
        'c'
    } else if v == 13 {
        'd'
    } else if v == 14 {
        'e'
    } else {
        'f'
    }
}

/// How one character is written inside a quoted string: the short escapes,
/// a `\u00XX` escape for the remaining control characters, every other
/// character as itself.
pub open spec fn escape_char(c: char) -> Seq<char> {
    if c == '"' {
        seq!['\\', '"']
    } else if c == '\\' {
        seq!['\\', '\\']
    } else if c == '\n' {
        seq!['\\', 'n']
    } else if c == '\r' {
        seq!['\\', 'r']
    } else if c == '\t' {
        seq!['\\', 't']
    } else if (c as u32) < 32 {
        seq!['\\', 'u', '0', '0', hex_digit(c as u32 as int / 16), hex_digit(c as u32 as int % 16)]
    } else {
        seq![c]
    }
}

pub open spec fn escape_text(s: Seq<char>) -> Seq<char>
    decreases s.len(),
{
    if s.len() == 0 {
        Seq::empty()
    } else {
        escape_char(s[0]) + escape_text(s.drop_first())
    }
}

pub open spec fn mode_text(m: GeometryMode) -> Seq<char> {
    match m {
        GeometryMode::Location => "location"@,
        GeometryMode::City => "city"@,
    }
}

pub open spec fn bool_text(b: bool) -> Seq<char> {
    if b {
        "true"@
    } else {
        "false"@
    }
}

/// A `name = "value"` line, the value already escaped.
pub open spec fn line_str(name: Seq<char>, escaped: Seq<char>) -> Seq<char> {
    name + " = \""@ + escaped + "\"\n"@
}

/// A `name = true|false` line.
pub open spec fn line_bool(name: Seq<char>, b: bool) -> Seq<char> {
    name + " = "@ + bool_text(b) + "\n"@
}

/// The text that saving a configuration writes.
pub open spec fn print_config(c: CfgV) -> Seq<char> {
    line_str("api_key"@, escape_text(c.api_key))
    + line_str("geometry_mode"@, mode_text(c.geometry_mode))
    + line_bool("minutely"@, c.minutely)
    + line_bool("hourly"@, c.hourly)
    + line_bool("daily"@, c.daily)
}

// ---------------------------------------------------------------------------
// Bounds
// ---------------------------------------------------------------------------

pub proof fn lemma_skip_ws_bounds(s: Seq<char>, i: int)
    requires
        0 <= i <= s.len(),
    ensures
        i <= skip_ws(s, i) <= s.len(),
    decreases s.len() - i,
{
    if i < s.len() && is_ws_char(s[i]) {
        lemma_skip_ws_bounds(s, i + 1);
    }
}

pub proof fn lemma_skip_to_eol_bounds(s: Seq<char>, i: int)
    requires
        0 <= i <= s.len(),
    ensures
        i <= skip_to_eol(s, i) <= s.len(),
        i < s.len() ==> i + 1 <= skip_to_eol(s, i),
    decreases s.len() - i,
{
    if i < s.len() && s[i] != '\n' {
        lemma_skip_to_eol_bounds(s, i + 1);
    }
}

pub proof fn lemma_scan_key_bounds(s: Seq<char>, i: int)
    requires
        0 <= i <= s.len(),
    ensures
        i <= scan_key(s, i) <= s.len(),
    decreases s.len() - i,
{
    if i < s.len() && is_key_char(s[i]) {
        lemma_scan_key_bounds(s, i + 1);
    }
}

pub proof fn lemma_scan_basic_bounds(s: Seq<char>, i: int)
    requires
        0 <= i <= s.len(),
    ensures
        match scan_basic(s, i) {
            Some(r) => i < r.1 <= s.len(),
            None => true,
        },
    decreases s.len() - i,
{
    if i < s.len() {
        if s[i] == '"' {
        } else if s[i] == '\\' {
            if i + 1 < s.len() && s[i + 1] == 'u' {
                if i + 5 < s.len() {
                    lemma_scan_basic_bounds(s, i + 6);
                }
            } else if i + 1 < s.len() && unescape_char(s[i + 1]) is Some {
                lemma_scan_basic_bounds(s, i + 2);
            }
        } else if !is_bad_in_string(s[i]) {
            lemma_scan_basic_bounds(s, i + 1);
        }
    }
}

pub proof fn lemma_parse_value_bounds(s: Seq<char>, i: int)
    requires
        0 <= i <= s.len(),
    ensures
        match parse_value(s, i) {
            Some(r) => i < r.1 <= s.len(),
            None => true,
        },
{
    if i < s.len() {
        if s[i] == '"' {
            lemma_scan_basic_bounds(s, i + 1);
        } else if s[i] == '\'' {
            lemma_scan_literal_bounds(s, i + 1);
        } else {
            lemma_scan_key_bounds(s, i);
            let j = scan_key(s, i);
            if s.subrange(i, j) == "true"@ || s.subrange(i, j) == "false"@ {
                reveal_strlit("true");
                reveal_strlit("false");
                assert(s.subrange(i, j).len() == j - i);
            }
        }
    }
}

pub proof fn lemma_scan_literal_bounds(s: Seq<char>, i: int)
    requires
        0 <= i <= s.len(),
    ensures
        match scan_literal(s, i) {
            Some(r) => i < r.1 <= s.len(),
            None => true,
        },
    decreases s.len() - i,
{
    if i < s.len() && s[i] != '\'' && !is_bad_in_string(s[i]) {
        lemma_scan_literal_bounds(s, i + 1);
    }
}

pub proof fn lemma_line_end_bounds(s: Seq<char>, i: int)
    requires
        0 <= i <= s.len(),
    ensures
        match line_end(s, i) {
            Some(n) => i <= n <= s.len(),
            None => true,
        },
{
    lemma_skip_ws_bounds(s, i);
    let j = skip_ws(s, i);
    if j < s.len() && s[j] == '#' {
        lemma_skip_to_eol_bounds(s, j);
    }
}

// ---------------------------------------------------------------------------
// The printed text parses back
// ---------------------------------------------------------------------------

/// A run of key characters ending at a non-key character scans as one key.
proof fn lemma_scan_key_run(s: Seq<char>, i: int, k: int)
    requires
        0 <= i <= k <= s.len(),
        forall|t: int| i <= t < k ==> is_key_char(#[trigger] s[t]),
        k == s.len() || !is_key_char(s[k]),
    ensures
        scan_key(s, i) == k,
    decreases k - i,
{
    if i < k {
        lemma_scan_key_run(s, i + 1, k);
    }
}

/// The printed hex digits carry their value back.
proof fn lemma_hex_digit_val(v: int)
    requires
        0 <= v < 16,
    ensures
        hex_val(hex_digit(v)) == v,
{
}

/// Text whose characters need no escaping prints as itself.
proof fn lemma_escape_plain(s: Seq<char>)
    requires
        forall|t: int| 0 <= t < s.len() ==> !(#[trigger] s[t] == '"' || s[t] == '\\' || s[t]
            == '\n' || s[t] == '\r' || s[t] == '\t') && (s[t] as u32) >= 32,
    ensures
        escape_text(s) == s,
    decreases s.len(),
{
    if s.len() > 0 {
        lemma_escape_plain(s.drop_first());
        assert(escape_char(s[0]) + s.drop_first() =~= s);
    } else {
        assert(escape_text(s) =~= s);
    }
}

/// Scanning the escaped form of `k`, followed by a closing quote, yields
/// `k` back and stops just after the quote.
proof fn lemma_scan_basic_escaped(s: Seq<char>, i: int, k: Seq<char>)
    requires
        0 <= i,
        i + escape_text(k).len() + 1 <= s.len(),
        s.subrange(i, i + escape_text(k).len()) == escape_text(k),
        s[i + escape_text(k).len()] == '"',
    ensures
        scan_basic(s, i) == Some((k, i + escape_text(k).len() + 1)),
    decreases k.len(),
{
    let e = escape_text(k);
    if k.len() == 0 {
        assert(s[i] == '"');
    } else {
        let c = k[0];
        let k2 = k.drop_first();
        let ec = escape_char(c);
        let e2 = escape_text(k2);
        assert(e == ec + e2);
        lemma_chunk(s, i, e, ec.len() as int, e.len() as int);
        assert(e.subrange(ec.len() as int, e.len() as int) =~= e2);
        assert(s.subrange(i + ec.len(), i + ec.len() + e2.len()) == e2);
        assert(s[i + ec.len() + e2.len()] == '"');
        if c == '"' || c == '\\' || c == '\n' || c == '\r' || c == '\t' {
            assert(ec.len() == 2 && ec[0] == '\\');
            lemma_at(s, i, e, 0);
            assert(e[0] == '\\');
            assert(s[i] == '\\');
            lemma_at(s, i, e, 1);
            assert(e[1] == ec[1]);
            assert(s[i + 1] == ec[1]);
            assert(s[i + 1] != 'u');
            assert(unescape_char(ec[1]) == Some(c));
            lemma_scan_basic_escaped(s, i + 2, k2);
            assert(scan_basic(s, i + 2) == Some((k2, i + e.len() + 1)));
            assert(seq![c] + k2 =~= k);
        } else if (c as u32) < 32 {
            assert(ec.len() == 6);
            let hi = c as u32 / 16;
            let lo = c as u32 % 16;
            lemma_hex_digit_val(hi as int);
            lemma_hex_digit_val(lo as int);
            lemma_at(s, i, e, 0);
            assert(s[i] == '\\');
            lemma_at(s, i, e, 1);
            assert(s[i + 1] == 'u');
            lemma_at(s, i, e, 2);
            assert(s[i + 2] == '0');
            lemma_at(s, i, e, 3);
            assert(s[i + 3] == '0');
            lemma_at(s, i, e, 4);
            assert(s[i + 4] == hex_digit(hi as int));
            lemma_at(s, i, e, 5);
            assert(s[i + 5] == hex_digit(lo as int));
            assert(hex_val('0') == 0);
            assert(hex4_val(s, i + 2) == hi * 16 + lo);
            assert(hi * 16 + lo == c as u32);
            assert(is_scalar_value(hex4_val(s, i + 2)));
            assert((hex4_val(s, i + 2) as char) == c) by {
                vstd::utf8::char_u32_cast(c, c as u32);
            }
            lemma_scan_basic_escaped(s, i + 6, k2);
            assert(scan_basic(s, i + 6) == Some((k2, i + e.len() + 1)));
            assert(seq![c] + k2 =~= k);
        } else {
            assert(ec =~= seq![c]);
            lemma_at(s, i, e, 0);
            assert(e[0] == c);
            assert(s[i] == c);
            assert(!is_bad_in_string(c));
            lemma_scan_basic_escaped(s, i + 1, k2);
            assert(scan_basic(s, i + 1) == Some((k2, i + e.len() + 1)));
            assert(seq![c] + k2 =~= k);
        }
    }
}

/// A single character of a known chunk of `s`.
proof fn lemma_at(s: Seq<char>, i: int, l: Seq<char>, t: int)
    requires
        0 <= i,
        i + l.len() <= s.len(),
        s.subrange(i, i + l.len()) == l,
        0 <= t < l.len(),
    ensures
        s[i + t] == l[t],
{
    assert(s.subrange(i, i + l.len())[t] == s[i + t]);
}

/// A sub-chunk of a known chunk of `s`.
proof fn lemma_chunk(s: Seq<char>, i: int, l: Seq<char>, a: int, b: int)
    requires
        0 <= i,
        i + l.len() <= s.len(),
        s.subrange(i, i + l.len()) == l,
        0 <= a <= b <= l.len(),
    ensures
        s.subrange(i + a, i + b) == l.subrange(a, b),
{
    assert forall|t: int| 0 <= t < b - a implies s.subrange(i + a, i + b)[t] == l.subrange(a, b)[t]
    by {
        assert(s.subrange(i, i + l.len())[a + t] == l[a + t]);
        assert(s.subrange(i + a, i + b)[t] == s[i + a + t]);
        assert(l.subrange(a, b)[t] == l[a + t]);
    }
    assert(s.subrange(i + a, i + b) =~= l.subrange(a, b));
}

/// One `name = "content"` line advances the fold by its entry.
#[verifier::rlimit(60)]
proof fn lemma_parse_line_str(
    s: Seq<char>,
    i: int,
    p: PartialCfg,
    name: Seq<char>,
    content: Seq<char>,
    p2: PartialCfg,
)
    requires
        0 <= i,
        i + line_str(name, escape_text(content)).len() <= s.len(),
        s.subrange(i, i + line_str(name, escape_text(content)).len()) == line_str(
            name,
            escape_text(content),
        ),
        name.len() > 0,
        forall|t: int| 0 <= t < name.len() ==> is_key_char(#[trigger] name[t]),
        apply_entry(p, name, (TomlVal::S { text: content })) == Some(p2),
    ensures
        parse_lines(s, i, p) == parse_lines(s, i + line_str(name, escape_text(content)).len(), p2),
{
    reveal_strlit(" = \"");
    reveal_strlit("\"\n");
    let e = escape_text(content);
    let l = line_str(name, e);
    let n = name.len() as int;
    assert(l.len() == n + 4 + e.len() + 2);
    // piece the line out of s
    lemma_chunk(s, i, l, 0, n);
    assert(l.subrange(0, n) =~= name);
    assert(s.subrange(i, i + n) == name);
    lemma_at(s, i, l, n);
    assert(l[n] == ' ');
    lemma_at(s, i, l, n + 1);
    assert(l[n + 1] == '=');
    lemma_at(s, i, l, n + 2);
    assert(l[n + 2] == ' ');
    lemma_at(s, i, l, n + 3);
    assert(l[n + 3] == '"');
    lemma_chunk(s, i, l, n + 4, n + 4 + e.len());
    assert(l.subrange(n + 4, n + 4 + e.len()) =~= e);
    assert(s.subrange(i + n + 4, i + n + 4 + e.len()) == e);
    lemma_at(s, i, l, n + 4 + e.len());
    assert(l[n + 4 + e.len()] == '"');
    lemma_at(s, i, l, n + 4 + e.len() + 1);
    assert(l[n + 4 + e.len() + 1] == '\n');
    // the line starts at a key character
    assert forall|t: int| i <= t < i + n implies is_key_char(s[t]) by {
        lemma_at(s, i, name, t - i);
    }
    assert(is_key_char(s[i]));
    assert(skip_ws(s, i) == i);
    // the whole name scans as the key
    lemma_scan_key_run(s, i, i + n);
    assert(scan_key(s, i) == i + n);
    assert(s.subrange(i, i + n) == name);
    // one space, an equals sign, one space
    assert(skip_ws(s, i + n + 1) == i + n + 1);
    assert(skip_ws(s, i + n) == i + n + 1);
    assert(skip_ws(s, i + n + 3) == i + n + 3);
    assert(skip_ws(s, i + n + 2) == i + n + 3);
    // the quoted value
    lemma_scan_basic_escaped(s, i + n + 4, content);
    assert(parse_value(s, i + n + 3) == Some(
        (TomlVal::S { text: content }, i + n + 4 + e.len() + 1),
    ));
    // the newline ends the line
    let after = i + n + 4 + e.len() + 1;
    assert(skip_ws(s, after) == after);
    assert(line_end(s, after) == Some(after + 1));
    assert(after + 1 == i + l.len());
}

/// One `name = true|false` line advances the fold by its entry.
#[verifier::rlimit(60)]
proof fn lemma_parse_line_bool(
    s: Seq<char>,
    i: int,
    p: PartialCfg,
    name: Seq<char>,
    b: bool,
    p2: PartialCfg,
)
    requires
        0 <= i,
        i + line_bool(name, b).len() <= s.len(),
        s.subrange(i, i + line_bool(name, b).len()) == line_bool(name, b),
        name.len() > 0,
        forall|t: int| 0 <= t < name.len() ==> is_key_char(#[trigger] name[t]),
        apply_entry(p, name, (TomlVal::B { b })) == Some(p2),
    ensures
        parse_lines(s, i, p) == parse_lines(s, i + line_bool(name, b).len(), p2),
{
    reveal_strlit(" = ");
    reveal_strlit("\n");
    reveal_strlit("true");
    reveal_strlit("false");
    let w = bool_text(b);
    let l = line_bool(name, b);
    let n = name.len() as int;
    assert(l.len() == n + 3 + w.len() + 1);
    // piece the line out of s
    lemma_chunk(s, i, l, 0, n);
    assert(l.subrange(0, n) =~= name);
    assert(s.subrange(i, i + n) == name);
    lemma_at(s, i, l, n);
    assert(l[n] == ' ');
    lemma_at(s, i, l, n + 1);
    assert(l[n + 1] == '=');
    lemma_at(s, i, l, n + 2);
    assert(l[n + 2] == ' ');
    lemma_chunk(s, i, l, n + 3, n + 3 + w.len());
    assert(l.subrange(n + 3, n + 3 + w.len()) =~= w);
    assert(s.subrange(i + n + 3, i + n + 3 + w.len()) == w);
    lemma_at(s, i, l, n + 3 + w.len());
    assert(l[n + 3 + w.len()] == '\n');
    assert forall|t: int| i <= t < i + n implies is_key_char(s[t]) by {
        lemma_at(s, i, name, t - i);
    }
    assert(is_key_char(s[i]));
    assert(skip_ws(s, i) == i);
    lemma_scan_key_run(s, i, i + n);
    assert(scan_key(s, i) == i + n);
    assert(skip_ws(s, i + n + 1) == i + n + 1);
    assert(skip_ws(s, i + n) == i + n + 1);
    // the bare token scans whole and means its boolean
    let v0 = i + n + 3;
    assert(skip_ws(s, v0) == v0) by {
        lemma_at(s, i + n + 3, w, 0);
    }
    assert(skip_ws(s, i + n + 2) == v0);
    assert forall|t: int| v0 <= t < v0 + w.len() implies is_key_char(s[t]) by {
        lemma_at(s, v0, w, t - v0);
    }
    lemma_scan_key_run(s, v0, v0 + w.len());
    assert(scan_key(s, v0) == v0 + w.len());
    assert(s.subrange(v0, v0 + w.len()) == w);
    assert(s[v0] != '"' && s[v0] != '\'') by {
        lemma_at(s, v0, w, 0);
    }
    if b {
        assert(s.subrange(v0, v0 + w.len()) == "true"@);
    } else {
        assert(s.subrange(v0, v0 + w.len()) != "true"@) by {
            assert(("true"@).len() == 4 && w.len() == 5);
        }
        assert(s.subrange(v0, v0 + w.len()) == "false"@);
    }
    assert(parse_value(s, v0) == Some((TomlVal::B { b }, v0 + w.len())));
    let after = v0 + w.len();
    assert(skip_ws(s, after) == after);
    assert(line_end(s, after) == Some(after + 1));
    assert(after + 1 == i + l.len());
}

/// The five printed lines, pieced back out of their concatenation.
proof fn lemma_five_chunks(
    s: Seq<char>,
    l1: Seq<char>,
    l2: Seq<char>,
    l3: Seq<char>,
    l4: Seq<char>,
    l5: Seq<char>,
)
    requires
        s == l1 + l2 + l3 + l4 + l5,
    ensures
        s.len() == l1.len() + l2.len() + l3.len() + l4.len() + l5.len(),
        s.subrange(0, l1.len() as int) == l1,
        s.subrange(l1.len() as int, (l1.len() + l2.len()) as int) == l2,
        s.subrange((l1.len() + l2.len()) as int, (l1.len() + l2.len() + l3.len()) as int) == l3,
        s.subrange(
            (l1.len() + l2.len() + l3.len()) as int,
            (l1.len() + l2.len() + l3.len() + l4.len()) as int,
        ) == l4,
        s.subrange((l1.len() + l2.len() + l3.len() + l4.len()) as int, s.len() as int) == l5,
{
    assert(s.subrange(0, l1.len() as int) =~= l1);
    assert(s.subrange(l1.len() as int, (l1.len() + l2.len()) as int) =~= l2);
    assert(s.subrange((l1.len() + l2.len()) as int, (l1.len() + l2.len() + l3.len()) as int)
        =~= l3);
    assert(s.subrange(
        (l1.len() + l2.len() + l3.len()) as int,
        (l1.len() + l2.len() + l3.len() + l4.len()) as int,
    ) =~= l4);
    assert(s.subrange((l1.len() + l2.len() + l3.len() + l4.len()) as int, s.len() as int) =~= l5);
}

/// What the `api_key` entry does to the fold, and the key's shape.
proof fn lemma_entry_api_key(p: PartialCfg, k: Seq<char>)
    requires
        p.key is None,
    ensures
        apply_entry(p, "api_key"@, (TomlVal::S { text: k })) == Some(
            (PartialCfg { key: Some(k), ..p }),
        ),
        forall|t: int| 0 <= t < ("api_key"@).len() ==> is_key_char(#[trigger] ("api_key"@)[t]),
        ("api_key"@).len() == 7,
{
    reveal_strlit("api_key");
}

/// What the `geometry_mode` entry does to the fold, and the key's shape.
proof fn lemma_entry_geometry_mode(p: PartialCfg, m: GeometryMode)
    requires
        p.mode is None,
    ensures
        apply_entry(p, "geometry_mode"@, (TomlVal::S { text: mode_text(m) })) == Some(
            (PartialCfg { mode: Some(m), ..p }),
        ),
        forall|t: int| 0 <= t < ("geometry_mode"@).len() ==> is_key_char(
            #[trigger] ("geometry_mode"@)[t],
        ),
        ("geometry_mode"@).len() == 13,
        escape_text(mode_text(m)) == mode_text(m),
{
    reveal_strlit("geometry_mode");
    reveal_strlit("api_key");
    reveal_strlit("location");
    reveal_strlit("v2.5");
    reveal_strlit("city");
    assert(("api_key"@).len() == 7);
    assert(("geometry_mode"@).len() == 13);
    assert(("location"@).len() == 8);
    assert(("v2.5"@).len() == 4);
    assert(("city"@).len() == 4);
    assert(("geometry_mode"@) != ("api_key"@));
    let mt = mode_text(m);
    assert(eq_ignore_case(mt, mt)) by {
        assert(forall|t: int| 0 <= t < mt.len() ==> #[trigger] chars_eq_ci(mt[t], mt[t]));
    }
    match m {
        GeometryMode::Location => {
            assert(mode_of_text(mt) == Some(GeometryMode::Location));
        },
        GeometryMode::City => {
            assert(("city"@)[0] == 'c');
            assert(("v2.5"@)[0] == 'v');
            assert(!chars_eq_ci(("city"@)[0], ("v2.5"@)[0]));
            assert(!eq_ignore_case("city"@, "location"@));
            assert(!eq_ignore_case("city"@, "v2.5"@));
            assert(mode_of_text(mt) == Some(GeometryMode::City));
        },
    }
    lemma_escape_plain(mt);
}

/// What one toggle entry does to the fold, and the keys' shapes.
proof fn lemma_entry_toggles(p: PartialCfg, b: bool)
    ensures
        p.minutely is None ==> apply_entry(p, "minutely"@, (TomlVal::B { b })) == Some(
            (PartialCfg { minutely: Some(b), ..p }),
        ),
        p.hourly is None ==> apply_entry(p, "hourly"@, (TomlVal::B { b })) == Some(
            (PartialCfg { hourly: Some(b), ..p }),
        ),
        p.daily is None ==> apply_entry(p, "daily"@, (TomlVal::B { b })) == Some(
            (PartialCfg { daily: Some(b), ..p }),
        ),
        forall|t: int| 0 <= t < ("minutely"@).len() ==> is_key_char(#[trigger] ("minutely"@)[t]),
        forall|t: int| 0 <= t < ("hourly"@).len() ==> is_key_char(#[trigger] ("hourly"@)[t]),
        forall|t: int| 0 <= t < ("daily"@).len() ==> is_key_char(#[trigger] ("daily"@)[t]),
        ("minutely"@).len() == 8,
        ("hourly"@).len() == 6,
        ("daily"@).len() == 5,
{
    reveal_strlit("api_key");
    reveal_strlit("geometry_mode");
    reveal_strlit("minutely");
    reveal_strlit("hourly");
    reveal_strlit("daily");
    assert(("api_key"@).len() == 7);
    assert(("geometry_mode"@).len() == 13);
    assert(("minutely"@).len() == 8);
    assert(("hourly"@).len() == 6);
    assert(("daily"@).len() == 5);
    assert(("minutely"@) != ("api_key"@));
    assert(("minutely"@) != ("geometry_mode"@));
    assert(("hourly"@) != ("api_key"@));
    assert(("hourly"@) != ("geometry_mode"@));
    assert(("hourly"@) != ("minutely"@));
    assert(("daily"@) != ("api_key"@));
    assert(("daily"@) != ("geometry_mode"@));
    assert(("daily"@) != ("minutely"@));
    assert(("daily"@) != ("hourly"@));
}

/// Parsing what `print_config` wrote gathers exactly the printed fields.
#[verifier::rlimit(100)]
proof fn lemma_parse_of_print(c: CfgV)
    ensures
        parse_lines(print_config(c), 0, empty_partial()) == Some(
            (PartialCfg {
                key: Some(c.api_key),
                mode: Some(c.geometry_mode),
                minutely: Some(c.minutely),
                hourly: Some(c.hourly),
                daily: Some(c.daily),
            }),
        ),
{
    let s = print_config(c);
    let mt = mode_text(c.geometry_mode);
    let l1 = line_str("api_key"@, escape_text(c.api_key));
    let l2 = line_str("geometry_mode"@, escape_text(mt));
    let l3 = line_bool("minutely"@, c.minutely);
    let l4 = line_bool("hourly"@, c.hourly);
    let l5 = line_bool("daily"@, c.daily);

    let p0 = empty_partial();
    let p1 = PartialCfg { key: Some(c.api_key), ..p0 };
    let p2 = PartialCfg { mode: Some(c.geometry_mode), ..p1 };
    let p3 = PartialCfg { minutely: Some(c.minutely), ..p2 };
    let p4 = PartialCfg { hourly: Some(c.hourly), ..p3 };
    let p5 = PartialCfg { daily: Some(c.daily), ..p4 };

    lemma_entry_api_key(p0, c.api_key);
    lemma_entry_geometry_mode(p1, c.geometry_mode);
    lemma_entry_toggles(p2, c.minutely);
    lemma_entry_toggles(p3, c.hourly);
    lemma_entry_toggles(p4, c.daily);
    assert(l2 == line_str("geometry_mode"@, mt));

    let n1 = l1.len() as int;
    let n2 = l2.len() as int;
    let n3 = l3.len() as int;
    let n4 = l4.len() as int;
    let n5 = l5.len() as int;
    lemma_five_chunks(s, l1, l2, l3, l4, l5);

    lemma_parse_line_str(s, 0, p0, "api_key"@, c.api_key, p1);
    lemma_parse_line_str(s, n1, p1, "geometry_mode"@, mt, p2);
    lemma_parse_line_bool(s, n1 + n2, p2, "minutely"@, c.minutely, p3);
    lemma_parse_line_bool(s, n1 + n2 + n3, p3, "hourly"@, c.hourly, p4);
    lemma_parse_line_bool(s, n1 + n2 + n3 + n4, p4, "daily"@, c.daily, p5);

    assert(parse_lines(s, s.len() as int, p5) == Some(p5));
    assert(p5 == (PartialCfg {
        key: Some(c.api_key),
        mode: Some(c.geometry_mode),
        minutely: Some(c.minutely),
        hourly: Some(c.hourly),
        daily: Some(c.daily),
    }));
}

/// Saving a configuration with a non-empty API key and loading the text
/// back yields the same configuration.
pub proof fn lemma_save_load_round_trip(c: CfgV)
    requires
        c.api_key.len() > 0,
    ensures
        parse_config(print_config(c)) == Ok::<CfgV, ConfigError>(c),
{
    lemma_parse_of_print(c);
}

/// Saving a configuration whose API key is empty and loading the text back
/// always fails with the empty-key error, whatever the other fields hold.
pub proof fn lemma_empty_key_rejected(c: CfgV)
    requires
        c.api_key.len() == 0,
    ensures
        parse_config(print_config(c)) == Err::<CfgV, ConfigError>(ConfigError::EmptyKey),
{
    lemma_parse_of_print(c);
}

/// No text ever loads as a configuration with an empty API key.
pub proof fn lemma_loaded_key_nonempty(s: Seq<char>, c: CfgV)
    requires
        parse_config(s) == Ok::<CfgV, ConfigError>(c),
    ensures
        c.api_key.len() > 0,
{
}

// ---------------------------------------------------------------------------
// Executable text helpers
// ---------------------------------------------------------------------------

/// The characters of a string slice, in order.
pub(crate) fn str_to_chars(s: &str) -> (r: Vec<char>)
    ensures
        r@ == s@,
{
    let n = s.unicode_len();
    let mut r: Vec<char> = Vec::new();
    let mut i: usize = 0;
    while i < n
        invariant
            i <= n,
            n == s@.len(),
            r@ == s@.subrange(0, i as int),
        decreases n - i,
    {
        r.push(s.get_char(i));
        i = i + 1;
        proof {
            assert(r@ =~= s@.subrange(0, i as int));
        }
    }
    proof {
        assert(r@ =~= s@);
    }
    r
}

/// Relies on `String`'s `FromIterator<&char>` impl: collecting the
/// characters yields the string made of exactly those characters in order.
#[verifier::external_body]
pub(crate) fn chars_to_string(v: &Vec<char>) -> (r: String)
    ensures
        r@ == v@,
{
    v.iter().collect()
}

/// Whether the characters `v[i..j]` spell out `pat`.
fn range_eq_str(v: &Vec<char>, i: usize, j: usize, pat: &str) -> (b: bool)
    requires
        i <= j <= v@.len(),
    ensures
        b == (v@.subrange(i as int, j as int) == pat@),
{
    let n = pat.unicode_len();
    if j - i != n {
        proof {
            assert(v@.subrange(i as int, j as int).len() == j - i);
        }
        return false;
    }
    let mut k: usize = 0;
    while k < n
        invariant
            k <= n,
            n == pat@.len(),
            i + n == j <= v@.len(),
            forall|t: int| 0 <= t < k ==> v@[i + t] == pat@[t],
        decreases n - k,
    {
        if v[i + k] != pat.get_char(k) {
            proof {
                assert(v@.subrange(i as int, j as int)[k as int] == v@[i + k]);
            }
            return false;
        }
        k = k + 1;
    }
    proof {
        assert(v@.subrange(i as int, j as int) =~= pat@);
    }
    true
}

// ---------------------------------------------------------------------------
// Executable scanning
// ---------------------------------------------------------------------------

fn skip_ws_x(v: &Vec<char>, i: usize) -> (r: usize)
    requires
        i <= v@.len(),
    ensures
        r as int == skip_ws(v@, i as int),
        i <= r <= v@.len(),
    decreases v@.len() - i,
{
    if i < v.len() {
        let c = v[i];
        if c == ' ' || c == '\t' || c == '\r' {
            skip_ws_x(v, i + 1)
        } else {
            i
        }
    } else {
        i
    }
}

fn skip_to_eol_x(v: &Vec<char>, i: usize) -> (r: usize)
    requires
        i <= v@.len(),
    ensures
        r as int == skip_to_eol(v@, i as int),
        i <= r <= v@.len(),
    decreases v@.len() - i,
{
    if i < v.len() {
        if v[i] == '\n' {
            i + 1
        } else {
            skip_to_eol_x(v, i + 1)
        }
    } else {
        v.len()
    }
}

fn scan_key_x(v: &Vec<char>, i: usize) -> (r: usize)
    requires
        i <= v@.len(),
    ensures
        r as int == scan_key(v@, i as int),
        i <= r <= v@.len(),
    decreases v@.len() - i,
{
    if i < v.len() {
        let u = v[i] as u32;
        if (97 <= u && u <= 122) || (65 <= u && u <= 90) || (48 <= u && u <= 57) || v[i] == '_'
            || v[i] == '-' {
            scan_key_x(v, i + 1)
        } else {
            i
        }
    } else {
        i
    }
}

/// Relies on `char::from_u32`: `Some` of the character with that code
/// point exactly when the value is a Unicode scalar value.
#[verifier::external_body]
fn char_of_code(u: u32) -> (r: Option<char>)
    ensures
        r == (if is_scalar_value(u as int) {
            Some(u as char)
        } else {
            None::<char>
        }),
{
    char::from_u32(u)
}

/// A hex digit's value, or 16 for any other character.
fn hex_val_x(c: char) -> (r: u32)
    ensures
        r as int == hex_val(c),
{
    let u = c as u32;
    if 48 <= u && u <= 57 {
        u - 48
    } else if 97 <= u && u <= 102 {
        u - 87
    } else if 65 <= u && u <= 70 {
        u - 55
    } else {
        16
    }
}

fn scan_basic_x(v: &Vec<char>, i: usize) -> (r: Option<(Vec<char>, usize)>)
    requires
        i <= v@.len(),
    ensures
        match (r, scan_basic(v@, i as int)) {
            (Some(p), Some(q)) => p.0@ == q.0 && p.1 as int == q.1 && p.1 <= v@.len(),
            (None, None) => true,
            _ => false,
        },
    decreases v@.len() - i,
{
    proof {
        lemma_scan_basic_bounds(v@, i as int);
    }
    if i >= v.len() {
        return None;
    }
    let c = v[i];
    if c == '"' {
        Some((Vec::new(), i + 1))
    } else if c == '\\' {
        if i + 1 < v.len() && v[i + 1] == 'u' {
            if v.len() - i > 5 {
                let h0 = hex_val_x(v[i + 2]);
                let h1 = hex_val_x(v[i + 3]);
                let h2 = hex_val_x(v[i + 4]);
                let h3 = hex_val_x(v[i + 5]);
                if h0 < 16 && h1 < 16 && h2 < 16 && h3 < 16 {
                    let code: u32 = h0 * 4096 + h1 * 256 + h2 * 16 + h3;
                    match char_of_code(code) {
                        Some(u) => match scan_basic_x(v, i + 6) {
                            Some(p) => {
                                let (mut content, j) = p;
                                content.insert(0, u);
                                proof {
                                    let q = scan_basic(v@, i as int)->0;
                                    assert(content@ =~= q.0);
                                }
                                Some((content, j))
                            },
                            None => None,
                        },
                        None => None,
                    }
                } else {
                    None
                }
            } else {
                None
            }
        } else if i + 1 < v.len() {
            let e = v[i + 1];
            let unescaped: Option<char> = if e == '"' {
                Some('"')
            } else if e == '\\' {
                Some('\\')
            } else if e == 'n' {
                Some('\n')
            } else if e == 'r' {
                Some('\r')
            } else if e == 't' {
                Some('\t')
            } else {
                None
            };
            match unescaped {
                Some(u) => match scan_basic_x(v, i + 2) {
                    Some(p) => {
                        let (mut content, j) = p;
                        content.insert(0, u);
                        proof {
                            let q = scan_basic(v@, i as int)->0;
                            assert(content@ =~= q.0);
                        }
                        Some((content, j))
                    },
                    None => None,
                },
                None => None,
            }
        } else {
            None
        }
    } else if (c as u32) < 32 && c != '\t' {
        None
    } else {
        match scan_basic_x(v, i + 1) {
            Some(p) => {
                let (mut content, j) = p;
                content.insert(0, c);
                proof {
                    let q = scan_basic(v@, i as int)->0;
                    assert(content@ =~= q.0);
                }
                Some((content, j))
            },
            None => None,
        }
    }
}

/// A parsed value, executably.
pub enum TomlValX {
    S { text: Vec<char> },
    B { b: bool },
}

pub open spec fn val_view(v: TomlValX) -> TomlVal {
    match v {
        TomlValX::S { text } => TomlVal::S { text: text@ },
        TomlValX::B { b } => TomlVal::B { b },
    }
}

fn scan_literal_x(v: &Vec<char>, i: usize) -> (r: Option<(Vec<char>, usize)>)
    requires
        i <= v@.len(),
    ensures
        match (r, scan_literal(v@, i as int)) {
            (Some(p), Some(q)) => p.0@ == q.0 && p.1 as int == q.1 && p.1 <= v@.len(),
            (None, None) => true,
            _ => false,
        },
    decreases v@.len() - i,
{
    proof {
        lemma_scan_literal_bounds(v@, i as int);
    }
    if i >= v.len() {
        return None;
    }
    let c = v[i];
    if c == '\'' {
        Some((Vec::new(), i + 1))
    } else if (c as u32) < 32 && c != '\t' {
        None
    } else {
        match scan_literal_x(v, i + 1) {
            Some(p) => {
                let (mut content, j) = p;
                content.insert(0, c);
                proof {
                    let q = scan_literal(v@, i as int)->0;
                    assert(content@ =~= q.0);
                }
                Some((content, j))
            },
            None => None,
        }
    }
}

fn parse_value_x(v: &Vec<char>, i: usize) -> (r: Option<(TomlValX, usize)>)
    requires
        i <= v@.len(),
    ensures
        match (r, parse_value(v@, i as int)) {
            (Some(p), Some(q)) => val_view(p.0) == q.0 && p.1 as int == q.1 && p.1 <= v@.len(),
            (None, None) => true,
            _ => false,
        },
{
    proof {
        lemma_parse_value_bounds(v@, i as int);
    }
    if i >= v.len() {
        return None;
    }
    if v[i] == '"' {
        match scan_basic_x(v, i + 1) {
            Some(p) => Some((TomlValX::S { text: p.0 }, p.1)),
            None => None,
        }
    } else if v[i] == '\'' {
        match scan_literal_x(v, i + 1) {
            Some(p) => Some((TomlValX::S { text: p.0 }, p.1)),
            None => None,
        }
    } else {
        let j = scan_key_x(v, i);
        if range_eq_str(v, i, j, "true") {
            Some((TomlValX::B { b: true }, j))
        } else if range_eq_str(v, i, j, "false") {
            Some((TomlValX::B { b: false }, j))
        } else {
            None
        }
    }
}

fn line_end_x(v: &Vec<char>, i: usize) -> (r: Option<usize>)
    requires
        i <= v@.len(),
    ensures
        match (r, line_end(v@, i as int)) {
            (Some(n), Some(m)) => n as int == m && n <= v@.len(),
            (None, None) => true,
            _ => false,
        },
{
    proof {
        lemma_line_end_bounds(v@, i as int);
    }
    let j = skip_ws_x(v, i);
    if j >= v.len() {
        Some(v.len())
    } else if v[j] == '\n' {
        Some(j + 1)
    } else if v[j] == '#' {
        Some(skip_to_eol_x(v, j))
    } else {
        None
    }
}

// ---------------------------------------------------------------------------
// Executable folding
// ---------------------------------------------------------------------------

/// The fields gathered so far, executably.
pub struct PartialCfgX {
    pub key: Option<Vec<char>>,
    pub mode: Option<GeometryMode>,
    pub minutely: Option<bool>,
    pub hourly: Option<bool>,
    pub daily: Option<bool>,
}

pub open spec fn partial_view(p: &PartialCfgX) -> PartialCfg {
    PartialCfg {
        key: match p.key {
            Some(k) => Some(k@),
            None => None,
        },
        mode: p.mode,
        minutely: p.minutely,
        hourly: p.hourly,
        daily: p.daily,
    }
}

fn apply_entry_x(p: PartialCfgX, v: &Vec<char>, ks: usize, ke: usize, val: TomlValX) -> (r: Option<
    PartialCfgX,
>)
    requires
        ks <= ke <= v@.len(),
    ensures
        match (&r, apply_entry(partial_view(&p), v@.subrange(ks as int, ke as int), val_view(val))) {
            (Some(q), Some(sq)) => partial_view(q) == sq,
            (None, None) => true,
            _ => false,
        },
{
    if range_eq_str(v, ks, ke, "api_key") {
        match val {
            TomlValX::S { text } => if p.key.is_none() {
                Some(PartialCfgX { key: Some(text), ..p })
            } else {
                None
            },
            _ => None,
        }
    } else if range_eq_str(v, ks, ke, "geometry_mode") {
        match val {
            TomlValX::S { text } => {
                let mode: Option<GeometryMode> = mode_of_chars(&text);
                match mode {
                    Some(m) => if p.mode.is_none() {
                        Some(PartialCfgX { mode: Some(m), ..p })
                    } else {
                        None
                    },
                    None => None,
                }
            },
            _ => None,
        }
    } else if range_eq_str(v, ks, ke, "minutely") {
        match val {
            TomlValX::B { b } => if p.minutely.is_none() {
                Some(PartialCfgX { minutely: Some(b), ..p })
            } else {
                None
            },
            _ => None,
        }
    } else if range_eq_str(v, ks, ke, "hourly") {
        match val {
            TomlValX::B { b } => if p.hourly.is_none() {
                Some(PartialCfgX { hourly: Some(b), ..p })
            } else {
                None
            },
            _ => None,
        }
    } else if range_eq_str(v, ks, ke, "daily") {
        match val {
            TomlValX::B { b } => if p.daily.is_none() {
                Some(PartialCfgX { daily: Some(b), ..p })
            } else {
                None
            },
            _ => None,
        }
    } else {
        Some(p)
    }
}

/// The geometry mode that a string value names, if any.
/// Whether the characters `v[i..j]` spell out `pat` up to ASCII case.
fn range_eq_ci(v: &Vec<char>, i: usize, j: usize, pat: &str) -> (b: bool)
    requires
        i <= j <= v@.len(),
    ensures
        b == eq_ignore_case(v@.subrange(i as int, j as int), pat@),
{
    let n = pat.unicode_len();
    if j - i != n {
        proof {
            assert(v@.subrange(i as int, j as int).len() == j - i);
        }
        return false;
    }
    let mut k: usize = 0;
    while k < n
        invariant
            k <= n,
            n == pat@.len(),
            i + n == j <= v@.len(),
            forall|t: int| 0 <= t < k ==> #[trigger] chars_eq_ci(v@[i + t], pat@[t]),
        decreases n - k,
    {
        let a = v[i + k] as u32;
        let b = pat.get_char(k) as u32;
        let la = if 65 <= a && a <= 90 {
            a + 32
        } else {
            a
        };
        let lb = if 65 <= b && b <= 90 {
            b + 32
        } else {
            b
        };
        if la != lb {
            proof {
                assert(v@.subrange(i as int, j as int)[k as int] == v@[i + k]);
                assert(!chars_eq_ci(v@[i + k], pat@[k as int]));
            }
            return false;
        }
        k = k + 1;
    }
    proof {
        assert forall|t: int| 0 <= t < n implies #[trigger] chars_eq_ci(
            v@.subrange(i as int, j as int)[t],
            pat@[t],
        ) by {
            assert(v@.subrange(i as int, j as int)[t] == v@[i + t]);
        }
        assert(v@.subrange(i as int, j as int).len() == pat@.len());
    }
    true
}

fn mode_of_chars(t: &Vec<char>) -> (r: Option<GeometryMode>)
    ensures
        r == mode_of_text(t@),
{
    let n = t.len();
    if range_eq_ci(t, 0, n, "location") || range_eq_ci(t, 0, n, "v2.5") {
        proof {
            assert(t@.subrange(0, n as int) =~= t@);
        }
        Some(GeometryMode::Location)
    } else if range_eq_ci(t, 0, n, "city") || range_eq_ci(t, 0, n, "v3.0") {
        proof {
            assert(t@.subrange(0, n as int) =~= t@);
        }
        Some(GeometryMode::City)
    } else {
        proof {
            assert(t@.subrange(0, n as int) =~= t@);
        }
        None
    }
}

fn parse_lines_x(v: &Vec<char>, i: usize, p: PartialCfgX) -> (r: Option<PartialCfgX>)
    requires
        i <= v@.len(),
    ensures
        match (&r, parse_lines(v@, i as int, partial_view(&p))) {
            (Some(q), Some(sq)) => partial_view(q) == sq,
            (None, None) => true,
            _ => false,
        },
    decreases v@.len() - i,
{
    if i >= v.len() {
        return Some(p);
    }
    let j = skip_ws_x(v, i);
    if j >= v.len() {
        Some(p)
    } else if v[j] == '\n' {
        parse_lines_x(v, j + 1, p)
    } else if v[j] == '#' {
        let n = skip_to_eol_x(v, j);
        proof {
            lemma_skip_to_eol_bounds(v@, j as int);
        }
        parse_lines_x(v, n, p)
    } else {
        let k = scan_key_x(v, j);
        if k == j {
            None
        } else {
            let m = skip_ws_x(v, k);
            if m >= v.len() || v[m] != '=' {
                None
            } else {
                let v0 = skip_ws_x(v, m + 1);
                proof {
                    lemma_parse_value_bounds(v@, v0 as int);
                }
                match parse_value_x(v, v0) {
                    None => None,
                    Some(vr) => {
                        let (val, after) = vr;
                        match line_end_x(v, after) {
                            None => None,
                            Some(nxt) => match apply_entry_x(p, v, j, k, val) {
                                None => None,
                                Some(p2) => {
                                    proof {
                                        lemma_line_end_bounds(v@, after as int);
                                    }
                                    parse_lines_x(v, nxt, p2)
                                },
                            },
                        }
                    },
                }
            }
        }
    }
}

/// Parse a configuration file's text.
pub(crate) fn parse_config_text(text: &str) -> (r: Result<Config, ConfigError>)
    ensures
        match (&r, parse_config(text@)) {
            (Ok(c), Ok(cv)) => c@ == cv,
            (Err(e), Err(se)) => e == se,
            _ => false,
        },
{
    let v = str_to_chars(text);
    let p0 = PartialCfgX { key: None, mode: None, minutely: None, hourly: None, daily: None };
    match parse_lines_x(&v, 0, p0) {
        None => Err(ConfigError::Malformed),
        Some(p) => match (p.key, p.mode) {
            (Some(k), Some(m)) => {
                if k.len() == 0 {
                    Err(ConfigError::EmptyKey)
                } else {
                    Ok(Config {
                        api_key: chars_to_string(&k),
                        geometry_mode: m,
                        minutely: match p.minutely { Some(b) => b, None => false },
                        hourly: match p.hourly { Some(b) => b, None => false },
                        daily: match p.daily { Some(b) => b, None => false },
                    })
                }
            },
            _ => Err(ConfigError::Malformed),
        },
    }
}

// ---------------------------------------------------------------------------
// Executable printing
// ---------------------------------------------------------------------------

fn escape_chars(v: &Vec<char>, i: usize) -> (r: Vec<char>)
    requires
        i <= v@.len(),
    ensures
        r@ == escape_text(v@.subrange(i as int, v@.len() as int)),
    decreases v@.len() - i,
{
    if i >= v.len() {
        proof {
            assert(v@.subrange(i as int, v@.len() as int) =~= Seq::<char>::empty());
        }
        Vec::new()
    } else {
        let c = v[i];
        let mut rest = escape_chars(v, i + 1);
        let ghost tail = v@.subrange(i as int, v@.len() as int);
        proof {
            assert(v@.subrange(i + 1, v@.len() as int) =~= tail.drop_first());
        }
        if c == '"' || c == '\\' {
            rest.insert(0, c);
            rest.insert(0, '\\');
        } else if c == '\n' {
            rest.insert(0, 'n');
            rest.insert(0, '\\');
        } else if c == '\r' {
            rest.insert(0, 'r');
            rest.insert(0, '\\');
        } else if c == '\t' {
            rest.insert(0, 't');
            rest.insert(0, '\\');
        } else if (c as u32) < 32 {
            rest.insert(0, hex_digit_x((c as u32) % 16));
            rest.insert(0, hex_digit_x((c as u32) / 16));
            rest.insert(0, '0');
            rest.insert(0, '0');
            rest.insert(0, 'u');
            rest.insert(0, '\\');
        } else {
            rest.insert(0, c);
        }
        proof {
            assert(rest@ =~= escape_char(tail[0]) + escape_text(tail.drop_first()));
        }
        rest
    }
}

/// The lower-case hex digit for a value below sixteen.
fn hex_digit_x(u: u32) -> (r: char)
    requires
        u < 16,
    ensures
        r == hex_digit(u as int),
{
    if u == 0 {
        '0'
    } else if u == 1 {
        '1'
    } else if u == 2 {
        '2'
    } else if u == 3 {
        '3'
    } else if u == 4 {
        '4'
    } else if u == 5 {
        '5'
    } else if u == 6 {
        '6'
    } else if u == 7 {
        '7'
    } else if u == 8 {
        '8'
    } else if u == 9 {
        '9'
    } else if u == 10 {
        'a'
    } else if u == 11 {
        'b'
    } else if u == 12 {
        'c'
    } else if u == 13 {
        'd'
    } else if u == 14 {
        'e'
    } else {
        'f'
    }
}

/// Write a configuration as file text.
#[verifier::rlimit(50)]
pub(crate) fn print_config_text(c: &Config) -> (r: String)
    ensures
        r@ == print_config(c@),
{
    let ghost l1 = line_str("api_key"@, escape_text(c.api_key@));
    let ghost l2 = line_str("geometry_mode"@, mode_text(c.geometry_mode));
    let ghost l3 = line_bool("minutely"@, c.minutely);
    let ghost l4 = line_bool("hourly"@, c.hourly);
    let ghost l5 = line_bool("daily"@, c.daily);
    let mut out = String::new();
    out.append("api_key");
    out.append(" = \"");
    let key_chars = str_to_chars(c.api_key.as_str());
    proof {
        assert(key_chars@.subrange(0, key_chars@.len() as int) =~= key_chars@);
    }
    let escaped = escape_chars(&key_chars, 0);
    let escaped_str = chars_to_string(&escaped);
    out.append(escaped_str.as_str());
    out.append("\"\n");
    proof {
        assert(out@ =~= l1);
    }
    out.append("geometry_mode");
    out.append(" = \"");
    match c.geometry_mode {
        GeometryMode::Location => out.append("location"),
        GeometryMode::City => out.append("city"),
    }
    out.append("\"\n");
    proof {
        assert(out@ =~= l1 + l2);
    }
    out.append("minutely");
    out.append(" = ");
    out.append(if c.minutely { "true" } else { "false" });
    out.append("\n");
    proof {
        assert(out@ =~= l1 + l2 + l3);
    }
    out.append("hourly");
    out.append(" = ");
    out.append(if c.hourly { "true" } else { "false" });
    out.append("\n");
    proof {
        assert(out@ =~= l1 + l2 + l3 + l4);
    }
    out.append("daily");
    out.append(" = ");
    out.append(if c.daily { "true" } else { "false" });
    out.append("\n");
    proof {
        assert(out@ =~= l1 + l2 + l3 + l4 + l5);
        assert(l1 + l2 + l3 + l4 + l5 =~= print_config(c@));
    }
    out
}

} // verus!
