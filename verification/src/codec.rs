//! The on-disk text form of the settings record: a JSON object with string
//! members. Serialization and parsing are both defined here as functions on
//! character sequences, with the executable code proved against them.
//!
//! The parser accepts a single JSON object whose member values are strings
//! (with the standard JSON escapes); unknown members are ignored, a missing
//! `icon_color` falls back to the default, and a missing `endpoint_url`, a
//! duplicated recognized member, or any other document shape is a parse
//! failure, which the loader resolves to the default record.

use vstd::prelude::*;
use crate::settings::{default_settings, Settings, SettingsView};
use crate::colors::is_valid_color;
use crate::strutil::{chars_eq_str, chars_to_string, str_to_chars};
use crate::settings::default_icon_color;

verus! {

// ---------------------------------------------------------------------------
// Characters
// ---------------------------------------------------------------------------
/// JSON insignificant whitespace.
pub open spec fn is_ws_char(c: char) -> bool {
    c == ' ' || c == '\n' || c == '\r' || c == '\t'
}

/// The hexadecimal digit character for a value below 16.
pub open spec fn hex_digit_char(d: u32) -> char {
    if d == 0 {
        '0'
    } else if d == 1 {
        '1'
    } else if d == 2 {
        '2'
    } else if d == 3 {
        '3'
    } else if d == 4 {
        '4'
    } else if d == 5 {
        '5'
    } else if d == 6 {
        '6'
    } else if d == 7 {
        '7'
    } else if d == 8 {
        '8'
    } else if d == 9 {
        '9'
    } else if d == 10 {
        'a'
    } else if d == 11 {
        'b'
    } else if d == 12 {
        'c'
    } else if d == 13 {
        'd'
    } else if d == 14 {
        'e'
    } else {
        'f'
    }
}

/// The value of a hexadecimal digit character, lower or upper case.
pub open spec fn hex_val(c: char) -> Option<u32> {
    let u = c as u32;
    if 0x30 <= u && u <= 0x39 {
        Some((u - 0x30) as u32)
    } else if 0x61 <= u && u <= 0x66 {
        Some((u - 0x61 + 10) as u32)
    } else if 0x41 <= u && u <= 0x46 {
        Some((u - 0x41 + 10) as u32)
    } else {
        None
    }
}

// ---------------------------------------------------------------------------
// Serialization
// ---------------------------------------------------------------------------
/// How one character appears inside a JSON string: itself, a two-character
/// escape, or a `\u00XX` escape for the remaining control characters.
pub open spec fn escape_char(c: char) -> Seq<char> {
    if c == '"' {
        seq!['\\', '"']
    } else if c == '\\' {
        seq!['\\', '\\']
    } else if c as u32 == 0x08 {
        seq!['\\', 'b']
    } else if c as u32 == 0x0c {
        seq!['\\', 'f']
    } else if c == '\n' {
        seq!['\\', 'n']
    } else if c == '\r' {
        seq!['\\', 'r']
    } else if c == '\t' {
        seq!['\\', 't']
    } else if (c as u32) < 0x20 {
        seq!['\\', 'u', '0', '0', hex_digit_char((c as u32) / 16), hex_digit_char(
            (c as u32) % 16,
        )]
    } else {
        seq![c]
    }
}

/// A whole string escaped character by character.
pub open spec fn escape_seq(s: Seq<char>) -> Seq<char>
    decreases s.len(),
{
    if s.len() == 0 {
        Seq::empty()
    } else {
        escape_char(s[0]) + escape_seq(s.skip(1))
    }
}

/// One serialized object member: the escaped key and value in quotes,
/// separated by a colon and a space.
pub open spec fn member_seq(key: Seq<char>, val: Seq<char>) -> Seq<char> {
    seq!['"'] + escape_seq(key) + seq!['"', ':', ' ', '"'] + escape_seq(val) + seq!['"']
}

/// The serialized settings record: a pretty-printed JSON object holding the
/// endpoint URL and the icon color, in that order.
pub open spec fn settings_json_spec(v: SettingsView) -> Seq<char> {
    seq!['{', '\n', ' ', ' '] + member_seq("endpoint_url"@, v.endpoint_url) + seq![',', '\n', ' ', ' ']
        + member_seq("icon_color"@, v.icon_color) + seq!['\n', '}']
}

// ---------------------------------------------------------------------------
// Parsing
// ---------------------------------------------------------------------------
/// The suffix that remains after the leading whitespace.
pub open spec fn skip_ws(s: Seq<char>) -> Seq<char>
    decreases s.len(),
{
    if s.len() > 0 && is_ws_char(s[0]) {
        skip_ws(s.skip(1))
    } else {
        s
    }
}

/// The character a two-character escape stands for.
pub open spec fn unescape_simple(c: char) -> Option<char> {
    if c == '"' {
        Some('"')
    } else if c == '\\' {
        Some('\\')
    } else if c == '/' {
        Some('/')
    } else if c == 'b' {
        Some((0x08 as u32) as char)
    } else if c == 'f' {
        Some((0x0c as u32) as char)
    } else if c == 'n' {
        Some('\n')
    } else if c == 'r' {
        Some('\r')
    } else if c == 't' {
        Some('\t')
    } else {
        None
    }
}

/// The body of a JSON string, entered just after the opening quote: the
/// decoded content and the suffix after the closing quote.
pub open spec fn parse_string_body(s: Seq<char>) -> Option<(Seq<char>, Seq<char>)>
    decreases s.len(),
{
    if s.len() == 0 {
        None
    } else if s[0] == '"' {
        Some((Seq::empty(), s.skip(1)))
    } else if s[0] == '\\' {
        if s.len() < 2 {
            None
        } else if s[1] == 'u' {
            if s.len() < 6 {
                None
            } else {
                match (hex_val(s[2]), hex_val(s[3]), hex_val(s[4]), hex_val(s[5])) {
                    (Some(d3), Some(d2), Some(d1), Some(d0)) => {
                        let v = d3 * 0x1000 + d2 * 0x100 + d1 * 16 + d0;
                        if 0xd800 <= v && v < 0xe000 {
                            None
                        } else {
                            match parse_string_body(s.skip(6)) {
                                Some((content, rest)) => Some(
                                    (seq![((v as u32) as char)] + content, rest),
                                ),
                                None => None,
                            }
                        }
                    },
                    _ => None,
                }
            }
        } else {
            match unescape_simple(s[1]) {
                Some(c) => match parse_string_body(s.skip(2)) {
                    Some((content, rest)) => Some((seq![c] + content, rest)),
                    None => None,
                },
                None => None,
            }
        }
    } else if (s[0] as u32) < 0x20 {
        None
    } else {
        match parse_string_body(s.skip(1)) {
            Some((content, rest)) => Some((seq![s[0]] + content, rest)),
            None => None,
        }
    }
}

/// One object member: whitespace, a quoted key, whitespace, a colon,
/// whitespace, and a quoted string value.
pub open spec fn parse_member(s: Seq<char>) -> Option<((Seq<char>, Seq<char>), Seq<char>)> {
    let s1 = skip_ws(s);
    if s1.len() > 0 && s1[0] == '"' {
        match parse_string_body(s1.skip(1)) {
            Some((key, s2)) => {
                let s3 = skip_ws(s2);
                if s3.len() > 0 && s3[0] == ':' {
                    let s4 = skip_ws(s3.skip(1));
                    if s4.len() > 0 && s4[0] == '"' {
                        match parse_string_body(s4.skip(1)) {
                            Some((val, s5)) => Some(((key, val), s5)),
                            None => None,
                        }
                    } else {
                        None
                    }
                } else {
                    None
                }
            },
            None => None,
        }
    } else {
        None
    }
}

/// What a member list contributes to the record: the recognized fields seen,
/// and whether a recognized field occurred twice.
pub struct FieldAcc {
    pub endpoint_url: Option<Seq<char>>,
    pub icon_color: Option<Seq<char>>,
    pub dup: bool,
}

pub open spec fn empty_acc() -> FieldAcc {
    FieldAcc { endpoint_url: None, icon_color: None, dup: false }
}

/// Fold one member, seen before `acc`'s members, into the accumulation.
/// Unrecognized keys are ignored.
pub open spec fn acc_add(kv: (Seq<char>, Seq<char>), acc: FieldAcc) -> FieldAcc {
    if kv.0 == "endpoint_url"@ {
        FieldAcc {
            endpoint_url: Some(kv.1),
            icon_color: acc.icon_color,
            dup: acc.dup || acc.endpoint_url is Some,
        }
    } else if kv.0 == "icon_color"@ {
        FieldAcc {
            endpoint_url: acc.endpoint_url,
            icon_color: Some(kv.1),
            dup: acc.dup || acc.icon_color is Some,
        }
    } else {
        acc
    }
}

/// A comma-separated member list, with the suffix that follows its last
/// member.
pub open spec fn parse_members(s: Seq<char>) -> Option<(FieldAcc, Seq<char>)>
    decreases s.len(),
    via parse_members_decreases
{
    match parse_member(s) {
        Some((kv, rest)) => {
            let r1 = skip_ws(rest);
            if r1.len() > 0 && r1[0] == ',' {
                match parse_members(r1.skip(1)) {
                    Some((acc, rest2)) => Some((acc_add(kv, acc), rest2)),
                    None => None,
                }
            } else {
                Some((acc_add(kv, empty_acc()), rest))
            }
        },
        None => None,
    }
}

#[via_fn]
proof fn parse_members_decreases(s: Seq<char>) {
    match parse_member(s) {
        Some((kv, rest)) => {
            lemma_parse_member_progress(s);
            lemma_skip_ws_le(rest);
        },
        None => {},
    }
}

/// A whole document: one object, possibly surrounded by whitespace, and
/// nothing after it.
pub open spec fn parse_object(s: Seq<char>) -> Option<FieldAcc> {
    let s1 = skip_ws(s);
    if s1.len() > 0 && s1[0] == '{' {
        let s2 = skip_ws(s1.skip(1));
        if s2.len() > 0 && s2[0] == '}' {
            if skip_ws(s2.skip(1)).len() == 0 {
                Some(empty_acc())
            } else {
                None
            }
        } else {
            match parse_members(s1.skip(1)) {
                Some((acc, rest)) => {
                    let r = skip_ws(rest);
                    if r.len() > 0 && r[0] == '}' && skip_ws(r.skip(1)).len() == 0 {
                        Some(acc)
                    } else {
                        None
                    }
                },
                None => None,
            }
        }
    } else {
        None
    }
}

/// The record a document parses to: `endpoint_url` must be present exactly
/// once, `icon_color` at most once (missing means the default color).
pub open spec fn parsed_settings(s: Seq<char>) -> Option<SettingsView> {
    match parse_object(s) {
        Some(acc) => {
            if acc.dup {
                None
            } else {
                match acc.endpoint_url {
                    Some(u) => Some(
                        SettingsView {
                            endpoint_url: u,
                            icon_color: match acc.icon_color {
                                Some(c) => c,
                                None => default_settings().icon_color,
                            },
                        },
                    ),
                    None => None,
                }
            }
        },
        None => None,
    }
}

// ---------------------------------------------------------------------------
// Progress lemmas
// ---------------------------------------------------------------------------
proof fn lemma_skip_ws_le(s: Seq<char>)
    ensures
        skip_ws(s).len() <= s.len(),
    decreases s.len(),
{
    if s.len() > 0 && is_ws_char(s[0]) {
        lemma_skip_ws_le(s.skip(1));
    }
}

proof fn lemma_parse_string_body_progress(s: Seq<char>)
    ensures
        parse_string_body(s) matches Some(r) ==> r.1.len() < s.len(),
    decreases s.len(),
{
    if s.len() == 0 {
    } else if s[0] == '"' {
    } else if s[0] == '\\' {
        if s.len() >= 6 {
            lemma_parse_string_body_progress(s.skip(6));
        }
        if s.len() >= 2 {
            lemma_parse_string_body_progress(s.skip(2));
        }
    } else {
        lemma_parse_string_body_progress(s.skip(1));
    }
}

proof fn lemma_parse_member_progress(s: Seq<char>)
    ensures
        parse_member(s) matches Some(r) ==> r.1.len() < s.len(),
{
    let s1 = skip_ws(s);
    lemma_skip_ws_le(s);
    if s1.len() > 0 && s1[0] == '"' {
        lemma_parse_string_body_progress(s1.skip(1));
        match parse_string_body(s1.skip(1)) {
            Some((key, s2)) => {
                let s3 = skip_ws(s2);
                lemma_skip_ws_le(s2);
                if s3.len() > 0 && s3[0] == ':' {
                    let s4 = skip_ws(s3.skip(1));
                    lemma_skip_ws_le(s3.skip(1));
                    if s4.len() > 0 && s4[0] == '"' {
                        lemma_parse_string_body_progress(s4.skip(1));
                    }
                }
            },
            None => {},
        }
    }
}

// ---------------------------------------------------------------------------
// Executable parsing
// ---------------------------------------------------------------------------
proof fn lemma_skip_skip(s: Seq<char>, i: int, k: int)
    requires
        0 <= i,
        0 <= k,
        i + k <= s.len(),
    ensures
        s.skip(i).skip(k) == s.skip(i + k),
{
    assert(s.skip(i).skip(k) =~= s.skip(i + k));
}

fn skip_ws_exec(s: &Vec<char>, i: usize) -> (j: usize)
    requires
        i <= s@.len(),
    ensures
        i <= j <= s@.len(),
        skip_ws(s@.skip(i as int)) == s@.skip(j as int),
{
    let mut j = i;
    while j < s.len() && (s[j] == ' ' || s[j] == '\n' || s[j] == '\r' || s[j] == '\t')
        invariant
            i <= j <= s@.len(),
            skip_ws(s@.skip(i as int)) == skip_ws(s@.skip(j as int)),
        decreases s@.len() - j,
    {
        proof {
            assert(s@.skip(j as int)[0] == s@[j as int]);
            lemma_skip_skip(s@, j as int, 1);
        }
        j = j + 1;
    }
    proof {
        if j < s@.len() {
            assert(!is_ws_char(s@.skip(j as int)[0]));
        }
        assert(skip_ws(s@.skip(j as int)) == s@.skip(j as int));
    }
    j
}

fn hex_val_exec(c: char) -> (r: Option<u32>)
    ensures
        r == hex_val(c),
{
    let u = c as u32;
    if 0x30 <= u && u <= 0x39 {
        Some(u - 0x30)
    } else if 0x61 <= u && u <= 0x66 {
        Some(u - 0x61 + 10)
    } else if 0x41 <= u && u <= 0x46 {
        Some(u - 0x41 + 10)
    } else {
        None
    }
}

fn unescape_simple_exec(c: char) -> (r: Option<char>)
    ensures
        r == unescape_simple(c),
{
    if c == '"' {
        Some('"')
    } else if c == '\\' {
        Some('\\')
    } else if c == '/' {
        Some('/')
    } else if c == 'b' {
        Some('\u{8}')
    } else if c == 'f' {
        Some('\u{c}')
    } else if c == 'n' {
        Some('\n')
    } else if c == 'r' {
        Some('\r')
    } else if c == 't' {
        Some('\t')
    } else {
        None
    }
}

/// Relies on `char::from_u32`: a value for every `u32` that is a Unicode
/// scalar value (below the surrogate range, or past it and at most 0x10FFFF),
/// and nothing otherwise.
#[verifier::external_body]
fn char_from_u32(v: u32) -> (r: Option<char>)
    ensures
        r == (if v < 0xd800 || (0xe000 <= v && v <= 0x10ffff) {
            Some(v as char)
        } else {
            None::<char>
        }),
{
    char::from_u32(v)
}

fn parse_string_body_exec(s: &Vec<char>, i: usize) -> (r: Option<(Vec<char>, usize)>)
    requires
        i <= s@.len(),
    ensures
        (match r {
            Some((content, j)) => i <= j <= s@.len() && parse_string_body(s@.skip(i as int))
                == Some((content@, s@.skip(j as int))),
            None => parse_string_body(s@.skip(i as int)) is None,
        }),
    decreases s@.len() - i,
{
    let ghost sp = s@.skip(i as int);
    if i == s.len() {
        return None;
    }
    let c = s[i];
    proof {
        assert(sp[0] == s@[i as int]);
    }
    if c == '"' {
        proof {
            lemma_skip_skip(s@, i as int, 1);
        }
        Some((Vec::new(), i + 1))
    } else if c == '\\' {
        if i + 1 == s.len() {
            return None;
        }
        let e = s[i + 1];
        proof {
            assert(sp[1] == s@[i as int + 1]);
        }
        if e == 'u' {
            if s.len() - i < 6 {
                return None;
            }
            proof {
                assert(sp[2] == s@[i as int + 2]);
                assert(sp[3] == s@[i as int + 3]);
                assert(sp[4] == s@[i as int + 4]);
                assert(sp[5] == s@[i as int + 5]);
            }
            let h3 = hex_val_exec(s[i + 2]);
            let h2 = hex_val_exec(s[i + 3]);
            let h1 = hex_val_exec(s[i + 4]);
            let h0 = hex_val_exec(s[i + 5]);
            match (h3, h2, h1, h0) {
                (Some(d3), Some(d2), Some(d1), Some(d0)) => {
                    let v: u32 = d3 * 0x1000 + d2 * 0x100 + d1 * 16 + d0;
                    if 0xd800 <= v && v < 0xe000 {
                        return None;
                    }
                    match char_from_u32(v) {
                        Some(ch) => {
                            proof {
                                lemma_skip_skip(s@, i as int, 6);
                            }
                            match parse_string_body_exec(s, i + 6) {
                                Some((tail, j)) => {
                                    let ghost tailv = tail@;
                                    let mut content = tail;
                                    content.insert(0, ch);
                                    proof {
                                        assert(content@ =~= seq![ch] + tailv);
                                    }
                                    Some((content, j))
                                },
                                None => None,
                            }
                        },
                        None => None,
                    }
                },
                _ => None,
            }
        } else {
            match unescape_simple_exec(e) {
                Some(ch) => {
                    proof {
                        lemma_skip_skip(s@, i as int, 2);
                    }
                    match parse_string_body_exec(s, i + 2) {
                        Some((tail, j)) => {
                            let ghost tailv = tail@;
                            let mut content = tail;
                            content.insert(0, ch);
                            proof {
                                assert(content@ =~= seq![ch] + tailv);
                            }
                            Some((content, j))
                        },
                        None => None,
                    }
                },
                None => None,
            }
        }
    } else if (c as u32) < 0x20 {
        None
    } else {
        proof {
            lemma_skip_skip(s@, i as int, 1);
        }
        match parse_string_body_exec(s, i + 1) {
            Some((tail, j)) => {
                let ghost tailv = tail@;
                let mut content = tail;
                content.insert(0, c);
                proof {
                    assert(content@ =~= seq![c] + tailv);
                }
                Some((content, j))
            },
            None => None,
        }
    }
}

fn parse_member_exec(s: &Vec<char>, i: usize) -> (r: Option<((Vec<char>, Vec<char>), usize)>)
    requires
        i <= s@.len(),
    ensures
        (match r {
            Some(((k, v), j)) => i <= j <= s@.len() && parse_member(s@.skip(i as int)) == Some(
                ((k@, v@), s@.skip(j as int)),
            ),
            None => parse_member(s@.skip(i as int)) is None,
        }),
{
    let j1 = skip_ws_exec(s, i);
    if j1 == s.len() {
        return None;
    }
    proof {
        assert(s@.skip(j1 as int)[0] == s@[j1 as int]);
    }
    if s[j1] != '"' {
        return None;
    }
    proof {
        lemma_skip_skip(s@, j1 as int, 1);
    }
    match parse_string_body_exec(s, j1 + 1) {
        None => None,
        Some((key, j2)) => {
            let j3 = skip_ws_exec(s, j2);
            if j3 == s.len() {
                return None;
            }
            proof {
                assert(s@.skip(j3 as int)[0] == s@[j3 as int]);
            }
            if s[j3] != ':' {
                return None;
            }
            proof {
                lemma_skip_skip(s@, j3 as int, 1);
            }
            let j4 = skip_ws_exec(s, j3 + 1);
            if j4 == s.len() {
                return None;
            }
            proof {
                assert(s@.skip(j4 as int)[0] == s@[j4 as int]);
            }
            if s[j4] != '"' {
                return None;
            }
            proof {
                lemma_skip_skip(s@, j4 as int, 1);
            }
            match parse_string_body_exec(s, j4 + 1) {
                None => None,
                Some((val, j5)) => Some(((key, val), j5)),
            }
        },
    }
}

/// The executable form of [`FieldAcc`]: the recognized fields seen so far.
struct FieldAccExec {
    endpoint_url: Option<Vec<char>>,
    icon_color: Option<Vec<char>>,
    dup: bool,
}

impl View for FieldAccExec {
    type V = FieldAcc;

    closed spec fn view(&self) -> FieldAcc {
        FieldAcc {
            endpoint_url: match self.endpoint_url {
                Some(v) => Some(v@),
                None => None,
            },
            icon_color: match self.icon_color {
                Some(v) => Some(v@),
                None => None,
            },
            dup: self.dup,
        }
    }
}

fn parse_members_exec(s: &Vec<char>, i: usize) -> (r: Option<(FieldAccExec, usize)>)
    requires
        i <= s@.len(),
    ensures
        (match r {
            Some((acc, j)) => i <= j <= s@.len() && parse_members(s@.skip(i as int)) == Some(
                (acc@, s@.skip(j as int)),
            ),
            None => parse_members(s@.skip(i as int)) is None,
        }),
    decreases s@.len() - i,
{
    match parse_member_exec(s, i) {
        None => None,
        Some(((key, val), j)) => {
            proof {
                lemma_parse_member_progress(s@.skip(i as int));
            }
            let r1 = skip_ws_exec(s, j);
            let next_comma = r1 < s.len() && s[r1] == ',';
            proof {
                if r1 < s@.len() {
                    assert(s@.skip(r1 as int)[0] == s@[r1 as int]);
                }
            }
            let tail_acc: FieldAccExec;
            let j_end: usize;
            if next_comma {
                proof {
                    lemma_skip_skip(s@, r1 as int, 1);
                }
                match parse_members_exec(s, r1 + 1) {
                    None => {
                        return None;
                    },
                    Some((acc2, j2)) => {
                        tail_acc = acc2;
                        j_end = j2;
                    },
                }
            } else {
                tail_acc = FieldAccExec { endpoint_url: None, icon_color: None, dup: false };
                j_end = j;
            }
            let dup = tail_acc.dup || (if chars_eq_str(&key, "endpoint_url") {
                tail_acc.endpoint_url.is_some()
            } else if chars_eq_str(&key, "icon_color") {
                tail_acc.icon_color.is_some()
            } else {
                false
            });
            let acc = if chars_eq_str(&key, "endpoint_url") {
                FieldAccExec { endpoint_url: Some(val), icon_color: tail_acc.icon_color, dup }
            } else if chars_eq_str(&key, "icon_color") {
                FieldAccExec { endpoint_url: tail_acc.endpoint_url, icon_color: Some(val), dup }
            } else {
                tail_acc
            };
            Some((acc, j_end))
        },
    }
}

fn parse_object_exec(s: &Vec<char>) -> (r: Option<FieldAccExec>)
    ensures
        (match r {
            Some(acc) => parse_object(s@) == Some(acc@),
            None => parse_object(s@) is None,
        }),
{
    proof {
        assert(s@.skip(0) =~= s@);
    }
    let s1 = skip_ws_exec(s, 0);
    if s1 == s.len() {
        return None;
    }
    proof {
        assert(s@.skip(s1 as int)[0] == s@[s1 as int]);
    }
    if s[s1] != '{' {
        return None;
    }
    proof {
        lemma_skip_skip(s@, s1 as int, 1);
    }
    let s2 = skip_ws_exec(s, s1 + 1);
    if s2 < s.len() && s[s2] == '}' {
        proof {
            assert(s@.skip(s2 as int)[0] == s@[s2 as int]);
            lemma_skip_skip(s@, s2 as int, 1);
        }
        let s3 = skip_ws_exec(s, s2 + 1);
        if s3 == s.len() {
            proof {
                assert(s@.skip(s3 as int).len() == 0);
            }
            return Some(FieldAccExec { endpoint_url: None, icon_color: None, dup: false });
        } else {
            return None;
        }
    }
    proof {
        if s2 < s@.len() {
            assert(s@.skip(s2 as int)[0] == s@[s2 as int]);
        }
    }
    match parse_members_exec(s, s1 + 1) {
        None => None,
        Some((acc, j)) => {
            let r1 = skip_ws_exec(s, j);
            if r1 == s.len() {
                return None;
            }
            proof {
                assert(s@.skip(r1 as int)[0] == s@[r1 as int]);
            }
            if s[r1] != '}' {
                return None;
            }
            proof {
                lemma_skip_skip(s@, r1 as int, 1);
            }
            let r2 = skip_ws_exec(s, r1 + 1);
            if r2 == s.len() {
                proof {
                    assert(s@.skip(r2 as int).len() == 0);
                }
                Some(acc)
            } else {
                None
            }
        },
    }
}

/// The record a document text parses to, if it parses at all. No color
/// validation happens here: that is the loader's policy.
pub fn settings_from_json(text: &str) -> (r: Option<Settings>)
    ensures
        (match r {
            Some(st) => parsed_settings(text@) == Some(st@),
            None => parsed_settings(text@) is None,
        }),
{
    let chars = str_to_chars(text);
    match parse_object_exec(&chars) {
        None => None,
        Some(acc) => {
            if acc.dup {
                None
            } else {
                match acc.endpoint_url {
                    None => None,
                    Some(u) => {
                        let url = chars_to_string(&u);
                        let color = match acc.icon_color {
                            Some(c) => chars_to_string(&c),
                            None => default_icon_color(),
                        };
                        Some(Settings { endpoint_url: url, icon_color: color })
                    },
                }
            }
        },
    }
}

// ---------------------------------------------------------------------------
// Executable serialization
// ---------------------------------------------------------------------------
/// Escaping distributes over concatenation.
proof fn lemma_escape_app(a: Seq<char>, b: Seq<char>)
    ensures
        escape_seq(a + b) == escape_seq(a) + escape_seq(b),
    decreases a.len(),
{
    if a.len() == 0 {
        assert(a + b =~= b);
        assert(escape_seq(a) + escape_seq(b) =~= escape_seq(b));
    } else {
        assert((a + b)[0] == a[0]);
        assert((a + b).skip(1) =~= a.skip(1) + b);
        lemma_escape_app(a.skip(1), b);
        assert(escape_char(a[0]) + (escape_seq(a.skip(1)) + escape_seq(b)) =~= (escape_char(a[0])
            + escape_seq(a.skip(1))) + escape_seq(b));
    }
}

/// Escaping one character alone yields just its escape.
proof fn lemma_escape_one(c: char)
    ensures
        escape_seq(seq![c]) == escape_char(c),
{
    reveal_with_fuel(escape_seq, 2);
    assert(seq![c].skip(1) =~= Seq::<char>::empty());
    assert(seq![c][0] == c);
    assert(escape_char(c) + Seq::<char>::empty() =~= escape_char(c));
}

fn hex_char_exec(d: u32) -> (r: char)
    requires
        d < 16,
    ensures
        r == hex_digit_char(d),
{
    if d == 0 {
        '0'
    } else if d == 1 {
        '1'
    } else if d == 2 {
        '2'
    } else if d == 3 {
        '3'
    } else if d == 4 {
        '4'
    } else if d == 5 {
        '5'
    } else if d == 6 {
        '6'
    } else if d == 7 {
        '7'
    } else if d == 8 {
        '8'
    } else if d == 9 {
        '9'
    } else if d == 10 {
        'a'
    } else if d == 11 {
        'b'
    } else if d == 12 {
        'c'
    } else if d == 13 {
        'd'
    } else if d == 14 {
        'e'
    } else {
        'f'
    }
}

fn push_escaped(out: &mut Vec<char>, c: char)
    ensures
        final(out)@ == old(out)@ + escape_char(c),
{
    if c == '"' {
        out.push('\\');
        out.push('"');
    } else if c == '\\' {
        out.push('\\');
        out.push('\\');
    } else if (c as u32) == 0x08 {
        out.push('\\');
        out.push('b');
    } else if (c as u32) == 0x0c {
        out.push('\\');
        out.push('f');
    } else if c == '\n' {
        out.push('\\');
        out.push('n');
    } else if c == '\r' {
        out.push('\\');
        out.push('r');
    } else if c == '\t' {
        out.push('\\');
        out.push('t');
    } else if (c as u32) < 0x20 {
        let v = c as u32;
        out.push('\\');
        out.push('u');
        out.push('0');
        out.push('0');
        out.push(hex_char_exec(v / 16));
        out.push(hex_char_exec(v % 16));
    } else {
        out.push(c);
    }
    proof {
        assert(out@ =~= old(out)@ + escape_char(c));
    }
}

fn escape_into(out: &mut Vec<char>, s: &Vec<char>)
    ensures
        final(out)@ == old(out)@ + escape_seq(s@),
{
    let ghost base = old(out)@;
    let n = s.len();
    for i in 0..n
        invariant
            n == s@.len(),
            out@ == base + escape_seq(s@.take(i as int)),
    {
        push_escaped(out, s[i]);
        proof {
            assert(s@.take(i + 1) =~= s@.take(i as int) + seq![s@[i as int]]);
            lemma_escape_app(s@.take(i as int), seq![s@[i as int]]);
            lemma_escape_one(s@[i as int]);
            assert(out@ =~= base + escape_seq(s@.take(i + 1)));
        }
    }
    proof {
        assert(s@.take(n as int) =~= s@);
    }
}

/// The serialized text of a settings record, exactly as specified by
/// [`settings_json_spec`].
pub fn settings_json(st: &Settings) -> (r: String)
    ensures
        r@ == settings_json_spec(st@),
{
    let mut out: Vec<char> = Vec::new();
    out.push('{');
    out.push('\n');
    out.push(' ');
    out.push(' ');
    out.push('"');
    let key1 = str_to_chars("endpoint_url");
    escape_into(&mut out, &key1);
    out.push('"');
    out.push(':');
    out.push(' ');
    out.push('"');
    let val1 = str_to_chars(st.endpoint_url.as_str());
    escape_into(&mut out, &val1);
    out.push('"');
    out.push(',');
    out.push('\n');
    out.push(' ');
    out.push(' ');
    out.push('"');
    let key2 = str_to_chars("icon_color");
    escape_into(&mut out, &key2);
    out.push('"');
    out.push(':');
    out.push(' ');
    out.push('"');
    let val2 = str_to_chars(st.icon_color.as_str());
    escape_into(&mut out, &val2);
    out.push('"');
    out.push('\n');
    out.push('}');
    proof {
        assert(out@ =~= settings_json_spec(st@));
    }
    chars_to_string(&out)
}

// ---------------------------------------------------------------------------
// The round trip: parsing what was serialized gives the record back
// ---------------------------------------------------------------------------
proof fn lemma_skip_ws_prefix(p: Seq<char>, t: Seq<char>)
    requires
        forall|i: int| 0 <= i < p.len() ==> is_ws_char(p[i]),
    ensures
        skip_ws(p + t) == skip_ws(t),
    decreases p.len(),
{
    if p.len() == 0 {
        assert(p + t =~= t);
    } else {
        assert((p + t)[0] == p[0]);
        assert((p + t).skip(1) =~= p.skip(1) + t);
        lemma_skip_ws_prefix(p.skip(1), t);
    }
}

proof fn lemma_hex_digit_roundtrip(d: u32)
    requires
        d < 16,
    ensures
        hex_val(hex_digit_char(d)) == Some(d),
{
}

/// Escaped text between quotes parses back to exactly the original text.
proof fn lemma_escape_unescape(u: Seq<char>, rest: Seq<char>)
    ensures
        parse_string_body(escape_seq(u) + seq!['"'] + rest) == Some((u, rest)),
    decreases u.len(),
{
    let s = escape_seq(u) + seq!['"'] + rest;
    if u.len() == 0 {
        assert(s =~= seq!['"'] + rest);
        assert(s[0] == '"');
        assert(s.skip(1) =~= rest);
    } else {
        let c = u[0];
        let u2 = u.skip(1);
        let tail = escape_seq(u2) + seq!['"'] + rest;
        lemma_escape_unescape(u2, rest);
        assert(escape_seq(u) == escape_char(c) + escape_seq(u2));
        assert(seq![c] + u2 =~= u);
        if c == '"' || c == '\\' {
            assert(s =~= seq!['\\', c] + tail);
            assert(s[0] == '\\' && s[1] == c);
            assert(unescape_simple(c) == Some(c));
            assert(s.skip(2) =~= tail);
            assert(parse_string_body(s) == Some((seq![c] + u2, rest)));
        } else if c as u32 == 0x08 {
            assert(s =~= seq!['\\', 'b'] + tail);
            assert(s[0] == '\\' && s[1] == 'b');
            vstd::utf8::char_u32_cast(c, 0x08);
            assert(unescape_simple('b') == Some(c));
            assert(s.skip(2) =~= tail);
            assert(parse_string_body(s) == Some((seq![c] + u2, rest)));
        } else if c as u32 == 0x0c {
            assert(s =~= seq!['\\', 'f'] + tail);
            assert(s[0] == '\\' && s[1] == 'f');
            vstd::utf8::char_u32_cast(c, 0x0c);
            assert(unescape_simple('f') == Some(c));
            assert(s.skip(2) =~= tail);
            assert(parse_string_body(s) == Some((seq![c] + u2, rest)));
        } else if c == '\n' || c == '\r' || c == '\t' {
            let e = if c == '\n' {
                'n'
            } else if c == '\r' {
                'r'
            } else {
                't'
            };
            assert(s =~= seq!['\\', e] + tail);
            assert(s[0] == '\\' && s[1] == e);
            assert(unescape_simple(e) == Some(c));
            assert(s.skip(2) =~= tail);
            assert(parse_string_body(s) == Some((seq![c] + u2, rest)));
        } else if (c as u32) < 0x20 {
            let v = c as u32;
            let h1 = hex_digit_char(v / 16);
            let h0 = hex_digit_char(v % 16);
            assert(s =~= seq!['\\', 'u', '0', '0', h1, h0] + tail);
            assert(s[0] == '\\' && s[1] == 'u');
            assert(s[2] == '0' && s[3] == '0' && s[4] == h1 && s[5] == h0);
            assert(s.len() >= 6);
            assert(hex_val('0') == Some(0u32));
            assert(v / 16 < 16 && v % 16 < 16);
            lemma_hex_digit_roundtrip(v / 16);
            lemma_hex_digit_roundtrip(v % 16);
            vstd::arithmetic::div_mod::lemma_fundamental_div_mod(v as int, 16);
            assert(0 * 0x1000 + 0 * 0x100 + (v / 16) * 16 + (v % 16) == v);
            vstd::utf8::char_u32_cast(c, v);
            assert(s.skip(6) =~= tail);
            assert(parse_string_body(s) == Some((seq![c] + u2, rest)));
        } else {
            assert(escape_char(c) == seq![c]);
            assert(s =~= seq![c] + tail);
            assert(s[0] == c);
            assert(s.skip(1) =~= tail);
            assert(parse_string_body(s) == Some((seq![c] + u2, rest)));
        }
    }
}

/// A serialized member, after any whitespace, parses back to its key and
/// value.
proof fn lemma_member_roundtrip(key: Seq<char>, val: Seq<char>, pre: Seq<char>, rest: Seq<char>)
    requires
        forall|i: int| 0 <= i < pre.len() ==> is_ws_char(pre[i]),
    ensures
        parse_member(pre + member_seq(key, val) + rest) == Some(((key, val), rest)),
{
    let s = pre + member_seq(key, val) + rest;
    let m = member_seq(key, val) + rest;
    assert(s =~= pre + m);
    lemma_skip_ws_prefix(pre, m);
    assert(m[0] == '"');
    assert(skip_ws(m) == m);
    let s1 = skip_ws(s);
    assert(s1 == m);
    let rest4 = seq![':', ' ', '"'] + escape_seq(val) + seq!['"'] + rest;
    assert(s1.skip(1) =~= escape_seq(key) + seq!['"'] + rest4);
    lemma_escape_unescape(key, rest4);
    assert(parse_string_body(s1.skip(1)) == Some((key, rest4)));
    let s3 = skip_ws(rest4);
    assert(rest4[0] == ':');
    assert(s3 == rest4);
    let t = seq!['"'] + (escape_seq(val) + (seq!['"'] + rest));
    assert(s3.skip(1) =~= seq![' '] + t);
    lemma_skip_ws_prefix(seq![' '], t);
    assert(t[0] == '"');
    assert(skip_ws(t) == t);
    let s4 = skip_ws(s3.skip(1));
    assert(s4 == t);
    assert(s4.skip(1) =~= escape_seq(val) + seq!['"'] + rest);
    lemma_escape_unescape(val, rest);
    assert(parse_string_body(s4.skip(1)) == Some((val, rest)));
}

/// Parsing the serialized settings text yields exactly the record.
pub proof fn lemma_settings_roundtrip(v: SettingsView)
    ensures
        parsed_settings(settings_json_spec(v)) == Some(v),
{
    reveal_strlit("endpoint_url");
    reveal_strlit("icon_color");
    let k1 = "endpoint_url"@;
    let k2 = "icon_color"@;
    let m1 = member_seq(k1, v.endpoint_url);
    let m2 = member_seq(k2, v.icon_color);
    let s = settings_json_spec(v);
    let close = seq!['\n', '}'];
    let rest1 = seq![',', '\n', ' ', ' '] + m2 + close;
    let pre = seq!['\n', ' ', ' '];
    let body = s.skip(1);

    // the document starts with the brace, with nothing before it
    assert(s[0] == '{');
    assert(skip_ws(s) == s);
    assert(body =~= pre + m1 + rest1);

    // the object is not empty: after the brace and whitespace comes a quote
    assert(m1[0] == '"');
    lemma_skip_ws_prefix(pre, m1 + rest1);
    assert(pre + m1 + rest1 =~= pre + (m1 + rest1));
    assert((m1 + rest1)[0] == '"');
    assert(skip_ws(m1 + rest1) == m1 + rest1);
    assert(skip_ws(body)[0] == '"');

    // first member
    lemma_member_roundtrip(k1, v.endpoint_url, pre, rest1);
    assert(parse_member(body) == Some(((k1, v.endpoint_url), rest1)));

    // the comma and the second member
    assert(rest1[0] == ',');
    assert(skip_ws(rest1) == rest1);
    let body2 = rest1.skip(1);
    assert(body2 =~= pre + m2 + close);
    lemma_member_roundtrip(k2, v.icon_color, pre, close);
    assert(parse_member(body2) == Some(((k2, v.icon_color), close)));

    // after the second member: a newline, the closing brace, nothing else
    assert(close[0] == '\n');
    lemma_skip_ws_prefix(seq!['\n'], seq!['}']);
    assert(close =~= seq!['\n'] + seq!['}']);
    assert(skip_ws(seq!['}']) == seq!['}']);
    assert(skip_ws(close) == seq!['}']);
    assert(skip_ws(close)[0] == '}');
    assert(parse_members(body2) == Some((acc_add((k2, v.icon_color), empty_acc()), close)));

    // the two keys differ, so the accumulated fields are exactly the two
    // members' values
    assert(k1.len() == 12 && k2.len() == 10);
    assert(k2 != k1);
    let acc2 = acc_add((k2, v.icon_color), empty_acc());
    assert(acc2 == FieldAcc { endpoint_url: None, icon_color: Some(v.icon_color), dup: false });
    assert(parse_members(body) == Some((acc_add((k1, v.endpoint_url), acc2), close)));
    let acc = acc_add((k1, v.endpoint_url), acc2);
    assert(acc == FieldAcc {
        endpoint_url: Some(v.endpoint_url),
        icon_color: Some(v.icon_color),
        dup: false,
    });

    // the whole object
    assert(seq!['}'].skip(1) =~= Seq::<char>::empty());
    assert(skip_ws(seq!['}'].skip(1)).len() == 0);
    assert(parse_object(s) == Some(acc));
}

/// The round trip: the text written for a record with a valid color loads
/// back as exactly that record. The endpoint URL needs no validity
/// assumption: any URL text survives the trip.
pub proof fn lemma_save_load_roundtrip(v: SettingsView)
    requires
        is_valid_color(v.icon_color),
    ensures
        crate::settings::loaded_view(Some(settings_json_spec(v))) == v,
{
    lemma_settings_roundtrip(v);
}

} // verus!
