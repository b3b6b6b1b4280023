//! Persisted taint record codec: the JSON array of `{key, value, effect}`
//! objects stored in the external record.
//!
//! The decoder reads an array of objects whose members are strings, in any
//! order and with insignificant whitespace anywhere JSON allows it: a `key`
//! and an `effect` member are required (a repeated member overwrites the
//! earlier one), a `value` member is optional, and any other member with a
//! string value — such as the platform-added `timeAdded` — is read and
//! ignored. Strings use the escapes `\"` `\\` `\/` `\b` `\f` `\n` `\r` `\t`
//! and `\u00XX`. Anything else is rejected, so a malformed record fails
//! closed instead of restoring a guess. The encoder emits one canonical
//! form of this grammar: members in the order `key`, `value`, `effect`,
//! no whitespace, lowercase hex escapes for the remaining control
//! characters.

use vstd::prelude::*;
use vstd::string::{StrSliceExecFns, StringExecFns};
use crate::codec::hex_digit;
use crate::model::{Taint, TaintView, Error, taints_view};
use crate::text::{push_char, str_equal};

verus! {

/// The numeric value of a hex digit, if it is one.
pub open spec fn hex_nibble_val(c: char) -> Option<u8> {
    if c == '0' { Some(0u8) } else if c == '1' { Some(1u8) } else if c == '2' { Some(2u8) }
    else if c == '3' { Some(3u8) } else if c == '4' { Some(4u8) } else if c == '5' { Some(5u8) }
    else if c == '6' { Some(6u8) } else if c == '7' { Some(7u8) } else if c == '8' { Some(8u8) }
    else if c == '9' { Some(9u8) } else if c == 'a' || c == 'A' { Some(10u8) }
    else if c == 'b' || c == 'B' { Some(11u8) } else if c == 'c' || c == 'C' { Some(12u8) }
    else if c == 'd' || c == 'D' { Some(13u8) } else if c == 'e' || c == 'E' { Some(14u8) }
    else if c == 'f' || c == 'F' { Some(15u8) } else { None }
}

/// Consumes the characters of a JSON string from position `i` (just after
/// the opening quote) up to and including the closing quote. Yields the
/// unescaped content and the position after the closing quote.
pub open spec fn parse_string_body(s: Seq<char>, i: int) -> Option<(Seq<char>, int)>
    decreases s.len() - i,
    when 0 <= i <= s.len()
{
    if i >= s.len() {
        None
    } else if s[i] == '"' {
        Some((Seq::<char>::empty(), i + 1))
    } else if s[i] == '\\' {
        if i + 1 >= s.len() {
            None
        } else {
            let e = s[i + 1];
            if e == '"' || e == '\\' || e == '/' || e == 'n' || e == 'r' || e == 't' || e == 'b'
                || e == 'f' {
                let c = if e == 'n' { '\n' } else if e == 'r' { '\r' } else if e == 't' { '\t' }
                else if e == 'b' { '\u{8}' } else if e == 'f' { '\u{c}' } else { e };
                match parse_string_body(s, i + 2) {
                    Some((v, k)) => Some((seq![c] + v, k)),
                    None => None,
                }
            } else if e == 'u' {
                if i + 5 >= s.len() {
                    None
                } else if s[i + 2] == '0' && s[i + 3] == '0' && hex_nibble_val(s[i + 4]) is Some
                    && hex_nibble_val(s[i + 5]) is Some {
                    let c = (16 * hex_nibble_val(s[i + 4]).unwrap() + hex_nibble_val(
                        s[i + 5],
                    ).unwrap()) as char;
                    match parse_string_body(s, i + 6) {
                        Some((v, k)) => Some((seq![c] + v, k)),
                        None => None,
                    }
                } else {
                    None
                }
            } else {
                None
            }
        }
    } else {
        match parse_string_body(s, i + 1) {
            Some((v, k)) => Some((seq![s[i]] + v, k)),
            None => None,
        }
    }
}

/// A successful string-body parse always advances and stays in bounds.
pub proof fn lemma_parse_string_body_bounds(s: Seq<char>, i: int)
    requires
        0 <= i <= s.len(),
        parse_string_body(s, i) is Some,
    ensures
        i < parse_string_body(s, i).unwrap().1 <= s.len(),
    decreases s.len() - i,
{
    if s[i] == '"' {
    } else if s[i] == '\\' {
        let e = s[i + 1];
        if e == '"' || e == '\\' || e == '/' || e == 'n' || e == 'r' || e == 't' || e == 'b'
            || e == 'f' {
            lemma_parse_string_body_bounds(s, i + 2);
        } else {
            lemma_parse_string_body_bounds(s, i + 6);
        }
    } else {
        lemma_parse_string_body_bounds(s, i + 1);
    }
}

/// JSON insignificant whitespace.
pub open spec fn is_ws(c: char) -> bool {
    c == ' ' || c == '\t' || c == '\n' || c == '\r'
}

/// The first position at or after `i` holding no whitespace.
pub open spec fn skip_ws(s: Seq<char>, i: int) -> int
    decreases s.len() - i,
    when 0 <= i <= s.len()
{
    if i < s.len() && is_ws(s[i]) {
        skip_ws(s, i + 1)
    } else {
        i
    }
}

pub proof fn lemma_skip_ws_bounds(s: Seq<char>, i: int)
    requires
        0 <= i <= s.len(),
    ensures
        i <= skip_ws(s, i) <= s.len(),
    decreases s.len() - i,
{
    if i < s.len() && is_ws(s[i]) {
        lemma_skip_ws_bounds(s, i + 1);
    }
}

/// The numeric value of a hex digit character, if any.
fn hex_nibble(c: char) -> (r: Option<u8>)
    ensures
        r == hex_nibble_val(c),
{
    match c {
        '0' => Some(0u8),
        '1' => Some(1u8),
        '2' => Some(2u8),
        '3' => Some(3u8),
        '4' => Some(4u8),
        '5' => Some(5u8),
        '6' => Some(6u8),
        '7' => Some(7u8),
        '8' => Some(8u8),
        '9' => Some(9u8),
        'a' | 'A' => Some(10u8),
        'b' | 'B' => Some(11u8),
        'c' | 'C' => Some(12u8),
        'd' | 'D' => Some(13u8),
        'e' | 'E' => Some(14u8),
        'f' | 'F' => Some(15u8),
        _ => None,
    }
}

/// Advances over whitespace from position `i`.
fn skip_ws_scan(s: &str, i: usize) -> (r: usize)
    requires
        i <= s@.len(),
        s@.len() <= usize::MAX,
    ensures
        r as int == skip_ws(s@, i as int),
        i <= r <= s@.len(),
{
    let n = s.unicode_len();
    let mut j: usize = i;
    while j < n
        invariant
            i <= j <= n,
            n == s@.len(),
            skip_ws(s@, i as int) == skip_ws(s@, j as int),
        decreases n - j,
    {
        let c = s.get_char(j);
        if !(c == ' ' || c == '\t' || c == '\n' || c == '\r') {
            return j;
        }
        j = j + 1;
    }
    j
}

/// Scans a JSON string body starting at `i` (just after the opening quote),
/// appending the unescaped content to `out` and returning the position
/// after the closing quote.
fn scan_string_body(s: &str, i: usize, out: &mut String) -> (r: Option<usize>)
    requires
        i <= s@.len(),
        s@.len() <= usize::MAX,
    ensures
        match r {
            Some(j) => {
                &&& i < j <= s@.len()
                &&& exists|v: Seq<char>|
                    parse_string_body(s@, i as int) == Some((v, j as int)) && final(out)@ == old(
                        out,
                    )@ + v
            },
            None => parse_string_body(s@, i as int) is None,
        },
{
    let sl = s.unicode_len();
    let ghost out0 = out@;
    let mut j: usize = i;
    loop
        invariant
            i <= j <= sl,
            sl == s@.len(),
            sl <= usize::MAX,
            out0 == old(out)@,
            out@.len() >= out0.len(),
            out@.subrange(0, out0.len() as int) == out0,
            ({
                let acc = out@.skip(out0.len() as int);
                match parse_string_body(s@, j as int) {
                    Some((v, k)) => parse_string_body(s@, i as int) == Some((acc + v, k)),
                    None => parse_string_body(s@, i as int) is None,
                }
            }),
        decreases sl - j,
    {
        let ghost acc = out@.skip(out0.len() as int);
        if j >= sl {
            return None;
        }
        let c = s.get_char(j);
        if c == '"' {
            proof {
                assert(acc + Seq::<char>::empty() =~= acc);
                assert(out@ =~= out0 + acc);
                assert(parse_string_body(s@, i as int) == Some((acc, j + 1 as int)));
            }
            return Some(j + 1);
        } else if c == '\\' {
            if j + 1 >= sl {
                return None;
            }
            let e = s.get_char(j + 1);
            if e == '"' || e == '\\' || e == '/' || e == 'n' || e == 'r' || e == 't' || e == 'b'
                || e == 'f' {
                let d = if e == 'n' { '\n' } else if e == 'r' { '\r' } else if e == 't' { '\t' }
                else if e == 'b' { '\u{8}' } else if e == 'f' { '\u{c}' } else { e };
                push_char(out, d);
                proof {
                    assert(out@.subrange(0, out0.len() as int) =~= out0);
                    assert(out@.skip(out0.len() as int) =~= acc.push(d));
                    if parse_string_body(s@, j + 2) is Some {
                        let (v, k) = parse_string_body(s@, j + 2).unwrap();
                        assert(acc + (seq![d] + v) =~= acc.push(d) + v);
                    }
                }
                j = j + 2;
            } else if e == 'u' {
                if sl - (j + 1) <= 4 {
                    return None;
                }
                if s.get_char(j + 2) != '0' || s.get_char(j + 3) != '0' {
                    return None;
                }
                let h1 = hex_nibble(s.get_char(j + 4));
                let h2 = hex_nibble(s.get_char(j + 5));
                match (h1, h2) {
                    (Some(a), Some(b)) => {
                        let d = (16 * a + b) as char;
                        push_char(out, d);
                        proof {
                            assert(out@.subrange(0, out0.len() as int) =~= out0);
                            assert(out@.skip(out0.len() as int) =~= acc.push(d));
                            if parse_string_body(s@, j + 6) is Some {
                                let (v, k) = parse_string_body(s@, j + 6).unwrap();
                                assert(acc + (seq![d] + v) =~= acc.push(d) + v);
                            }
                        }
                        j = j + 6;
                    },
                    _ => {
                        return None;
                    },
                }
            } else {
                return None;
            }
        } else {
            push_char(out, c);
            proof {
                assert(out@.subrange(0, out0.len() as int) =~= out0);
                assert(out@.skip(out0.len() as int) =~= acc.push(c));
                if parse_string_body(s@, j + 1) is Some {
                    let (v, k) = parse_string_body(s@, j + 1).unwrap();
                    assert(acc + (seq![c] + v) =~= acc.push(c) + v);
                }
            }
            j = j + 1;
        }
    }
}

/// The characters that open a taint object, up to and including the quote
/// opening the key string.
pub open spec fn lbl_obj_key() -> Seq<char> {
    "{\"key\":\""@
}

/// The characters between the key string and an optional value string.
pub open spec fn lbl_value() -> Seq<char> {
    ",\"value\":\""@
}

/// The characters between the preceding string and the effect string.
pub open spec fn lbl_effect() -> Seq<char> {
    ",\"effect\":\""@
}

/// One `"name":"value"` object member, starting at the quote opening the
/// name; both sides are JSON strings.
pub open spec fn parse_member(s: Seq<char>, i: int) -> Option<((Seq<char>, Seq<char>), int)> {
    if 0 <= i < s.len() && s[i] == '"' {
        match parse_string_body(s, i + 1) {
            None => None,
            Some((name, j)) => {
                let j2 = skip_ws(s, j);
                if j2 < s.len() && s[j2] == ':' {
                    let j3 = skip_ws(s, j2 + 1);
                    if j3 < s.len() && s[j3] == '"' {
                        match parse_string_body(s, j3 + 1) {
                            None => None,
                            Some((v, j4)) => Some(((name, v), j4)),
                        }
                    } else {
                        None
                    }
                } else {
                    None
                }
            },
        }
    } else {
        None
    }
}

pub proof fn lemma_parse_member_bounds(s: Seq<char>, i: int)
    requires
        parse_member(s, i) is Some,
    ensures
        i < parse_member(s, i).unwrap().1 <= s.len(),
{
    lemma_parse_string_body_bounds(s, i + 1);
    let j = parse_string_body(s, i + 1).unwrap().1;
    lemma_skip_ws_bounds(s, j);
    let j2 = skip_ws(s, j);
    lemma_skip_ws_bounds(s, j2 + 1);
    let j3 = skip_ws(s, j2 + 1);
    lemma_parse_string_body_bounds(s, j3 + 1);
}

/// The object members seen so far that the record model keeps.
pub ghost struct MemberAcc {
    pub key: Option<Seq<char>>,
    pub value: Option<Seq<char>>,
    pub effect: Option<Seq<char>>,
}

/// No member seen yet.
pub open spec fn empty_acc() -> MemberAcc {
    MemberAcc { key: None, value: None, effect: None }
}

/// Folds one member into the accumulator. A repeated member overwrites the
/// earlier one; a member under any other name — `timeAdded` among them —
/// is read and ignored.
pub open spec fn member_apply(acc: MemberAcc, name: Seq<char>, v: Seq<char>) -> MemberAcc {
    if name == "key"@ {
        MemberAcc { key: Some(v), value: acc.value, effect: acc.effect }
    } else if name == "value"@ {
        MemberAcc { key: acc.key, value: Some(v), effect: acc.effect }
    } else if name == "effect"@ {
        MemberAcc { key: acc.key, value: acc.value, effect: Some(v) }
    } else {
        acc
    }
}

/// The taint the accumulated members describe: `key` and `effect` are
/// required, `value` stays optional.
pub open spec fn acc_taint(acc: MemberAcc) -> Option<TaintView> {
    match (acc.key, acc.effect) {
        (Some(k), Some(e)) => Some(TaintView { key: k, value: acc.value, effect: e }),
        _ => None,
    }
}

/// After one member: either the closing brace, or a comma and another
/// member, folded left to right.
pub open spec fn parse_members(s: Seq<char>, i: int, acc: MemberAcc) -> Option<(MemberAcc, int)>
    decreases s.len() - i,
    when 0 <= i <= s.len() via parse_members_dec
{
    let j = skip_ws(s, i);
    if j < s.len() && s[j] == '}' {
        Some((acc, j + 1))
    } else if j < s.len() && s[j] == ',' {
        let j2 = skip_ws(s, j + 1);
        match parse_member(s, j2) {
            None => None,
            Some(((n, v), j3)) => parse_members(s, j3, member_apply(acc, n, v)),
        }
    } else {
        None
    }
}

#[via_fn]
proof fn parse_members_dec(s: Seq<char>, i: int, acc: MemberAcc) {
    lemma_skip_ws_bounds(s, i);
    let j = skip_ws(s, i);
    if j < s.len() && s[j] != '}' && s[j] == ',' {
        lemma_skip_ws_bounds(s, j + 1);
        if parse_member(s, skip_ws(s, j + 1)) is Some {
            lemma_parse_member_bounds(s, skip_ws(s, j + 1));
        }
    }
}

pub proof fn lemma_parse_members_bounds(s: Seq<char>, i: int, acc: MemberAcc)
    requires
        0 <= i <= s.len(),
        parse_members(s, i, acc) is Some,
    ensures
        i < parse_members(s, i, acc).unwrap().1 <= s.len(),
    decreases s.len() - i,
{
    lemma_skip_ws_bounds(s, i);
    let j = skip_ws(s, i);
    if j < s.len() && s[j] == '}' {
    } else {
        lemma_skip_ws_bounds(s, j + 1);
        let j2 = skip_ws(s, j + 1);
        lemma_parse_member_bounds(s, j2);
        let ((n, v), j3) = parse_member(s, j2).unwrap();
        lemma_parse_members_bounds(s, j3, member_apply(acc, n, v));
    }
}

/// Consumes one taint object from position `i` (at the opening brace):
/// string members in any order, at least one of them, with `key` and
/// `effect` present.
pub open spec fn parse_taint(s: Seq<char>, i: int) -> Option<(TaintView, int)> {
    if 0 <= i < s.len() && s[i] == '{' {
        let j = skip_ws(s, i + 1);
        if j < s.len() && s[j] == '"' {
            match parse_member(s, j) {
                None => None,
                Some(((n, v), j2)) => match parse_members(s, j2, member_apply(empty_acc(), n, v)) {
                    None => None,
                    Some((acc, j3)) => match acc_taint(acc) {
                        None => None,
                        Some(t) => Some((t, j3)),
                    },
                },
            }
        } else {
            None
        }
    } else {
        None
    }
}

pub proof fn lemma_parse_taint_bounds(s: Seq<char>, i: int)
    requires
        parse_taint(s, i) is Some,
    ensures
        i < parse_taint(s, i).unwrap().1 <= s.len(),
{
    lemma_skip_ws_bounds(s, i + 1);
    let j = skip_ws(s, i + 1);
    lemma_parse_member_bounds(s, j);
    let ((n, v), j2) = parse_member(s, j).unwrap();
    lemma_parse_members_bounds(s, j2, member_apply(empty_acc(), n, v));
}

/// Consumes the rest of a non-empty array from position `i`: either the
/// closing bracket, or repeated `,<taint>` followed by the bracket.
pub open spec fn parse_taints_tail(s: Seq<char>, i: int) -> Option<(Seq<TaintView>, int)>
    decreases s.len() - i,
    when 0 <= i <= s.len() via parse_taints_tail_dec
{
    let j = skip_ws(s, i);
    if j < s.len() && s[j] == ']' {
        Some((Seq::<TaintView>::empty(), j + 1))
    } else if j < s.len() && s[j] == ',' {
        let j2 = skip_ws(s, j + 1);
        match parse_taint(s, j2) {
            None => None,
            Some((t, k)) => match parse_taints_tail(s, k) {
                None => None,
                Some((ts, m)) => Some((seq![t] + ts, m)),
            },
        }
    } else {
        None
    }
}

#[via_fn]
proof fn parse_taints_tail_dec(s: Seq<char>, i: int) {
    lemma_skip_ws_bounds(s, i);
    let j = skip_ws(s, i);
    if j < s.len() && s[j] != ']' && s[j] == ',' {
        lemma_skip_ws_bounds(s, j + 1);
        if parse_taint(s, skip_ws(s, j + 1)) is Some {
            lemma_parse_taint_bounds(s, skip_ws(s, j + 1));
        }
    }
}

/// Parses a complete record: a JSON array of taint objects, with optional
/// whitespace, covering the whole input.
pub open spec fn parse_taints(s: Seq<char>) -> Option<Seq<TaintView>> {
    let i0 = skip_ws(s, 0);
    if i0 < s.len() && s[i0] == '[' {
        let i1 = skip_ws(s, i0 + 1);
        if i1 < s.len() && s[i1] == ']' {
            if skip_ws(s, i1 + 1) == s.len() {
                Some(Seq::<TaintView>::empty())
            } else {
                None
            }
        } else {
            match parse_taint(s, i1) {
                None => None,
                Some((t, j)) => match parse_taints_tail(s, j) {
                    None => None,
                    Some((ts, k)) => if skip_ws(s, k) == s.len() {
                        Some(seq![t] + ts)
                    } else {
                        None
                    },
                },
            }
        }
    } else {
        None
    }
}

/// The accumulator the scanned member strings stand for.
pub open spec fn acc_of(k: Option<String>, v: Option<String>, e: Option<String>) -> MemberAcc {
    MemberAcc {
        key: match k {
            Some(x) => Some(x@),
            None => None,
        },
        value: match v {
            Some(x) => Some(x@),
            None => None,
        },
        effect: match e {
            Some(x) => Some(x@),
            None => None,
        },
    }
}

fn scan_member(s: &str, i: usize) -> (r: Option<(String, String, usize)>)
    requires
        i <= s@.len(),
        s@.len() <= usize::MAX,
    ensures
        match r {
            Some(m) => parse_member(s@, i as int) == Some(((m.0@, m.1@), m.2 as int)) && i < m.2
                <= s@.len(),
            None => parse_member(s@, i as int) is None,
        },
{
    let sl = s.unicode_len();
    if i >= sl {
        return None;
    }
    if s.get_char(i) != '"' {
        return None;
    }
    let mut name = String::new();
    let j = match scan_string_body(s, i + 1, &mut name) {
        Some(x) => x,
        None => {
            return None;
        },
    };
    proof {
        let v0 = parse_string_body(s@, (i + 1) as int).unwrap().0;
        assert(Seq::<char>::empty() + v0 =~= v0);
        assert(name@ == v0);
    }
    let j2 = skip_ws_scan(s, j);
    if j2 >= sl {
        return None;
    }
    if s.get_char(j2) != ':' {
        return None;
    }
    let j3 = skip_ws_scan(s, j2 + 1);
    if j3 >= sl {
        return None;
    }
    if s.get_char(j3) != '"' {
        return None;
    }
    let mut val = String::new();
    let j4 = match scan_string_body(s, j3 + 1, &mut val) {
        Some(x) => x,
        None => {
            return None;
        },
    };
    proof {
        let v0 = parse_string_body(s@, (j3 + 1) as int).unwrap().0;
        assert(Seq::<char>::empty() + v0 =~= v0);
        assert(val@ == v0);
    }
    Some((name, val, j4))
}

fn scan_members(
    s: &str,
    i: usize,
    acc_key: Option<String>,
    acc_value: Option<String>,
    acc_effect: Option<String>,
) -> (r: Option<(Option<String>, Option<String>, Option<String>, usize)>)
    requires
        i <= s@.len(),
        s@.len() <= usize::MAX,
    ensures
        match r {
            Some(q) => {
                &&& i < q.3 <= s@.len()
                &&& parse_members(s@, i as int, acc_of(acc_key, acc_value, acc_effect)) == Some(
                    (acc_of(q.0, q.1, q.2), q.3 as int),
                )
            },
            None => parse_members(s@, i as int, acc_of(acc_key, acc_value, acc_effect)) is None,
        },
{
    let sl = s.unicode_len();
    let mut ak = acc_key;
    let mut av = acc_value;
    let mut ae = acc_effect;
    let mut j: usize = i;
    loop
        invariant
            i <= j <= sl,
            sl == s@.len(),
            sl <= usize::MAX,
            ({
                let accv = acc_of(ak, av, ae);
                match parse_members(s@, j as int, accv) {
                    Some(res) => parse_members(
                        s@,
                        i as int,
                        acc_of(acc_key, acc_value, acc_effect),
                    ) == Some(res),
                    None => parse_members(
                        s@,
                        i as int,
                        acc_of(acc_key, acc_value, acc_effect),
                    ) is None,
                }
            }),
        decreases sl - j,
    {
        let ghost accv = acc_of(ak, av, ae);
        let jw = skip_ws_scan(s, j);
        if jw >= sl {
            return None;
        }
        let c = s.get_char(jw);
        if c == '}' {
            proof {
                assert(parse_members(s@, j as int, accv) == Some((accv, jw + 1 as int)));
            }
            return Some((ak, av, ae, jw + 1));
        } else if c == ',' {
            let jw2 = skip_ws_scan(s, jw + 1);
            match scan_member(s, jw2) {
                None => {
                    return None;
                },
                Some((n, v, jn)) => {
                    if str_equal(n.as_str(), "key") {
                        ak = Some(v);
                    } else if str_equal(n.as_str(), "value") {
                        av = Some(v);
                    } else if str_equal(n.as_str(), "effect") {
                        ae = Some(v);
                    }
                    proof {
                        assert(acc_of(ak, av, ae) == member_apply(accv, n@, v@));
                    }
                    j = jn;
                },
            }
        } else {
            return None;
        }
    }
}

fn scan_taint(s: &str, i: usize) -> (r: Option<(Taint, usize)>)
    requires
        i <= s@.len(),
        s@.len() <= usize::MAX,
    ensures
        match r {
            Some(tj) => parse_taint(s@, i as int) == Some((tj.0@, tj.1 as int)) && i < tj.1
                <= s@.len(),
            None => parse_taint(s@, i as int) is None,
        },
{
    let sl = s.unicode_len();
    if i >= sl {
        return None;
    }
    if s.get_char(i) != '{' {
        return None;
    }
    let j = skip_ws_scan(s, i + 1);
    if j >= sl {
        return None;
    }
    if s.get_char(j) != '"' {
        return None;
    }
    let (n1, v1, j2) = match scan_member(s, j) {
        Some(x) => x,
        None => {
            return None;
        },
    };
    let ghost acc1 = member_apply(empty_acc(), n1@, v1@);
    let mut ak: Option<String> = None;
    let mut av: Option<String> = None;
    let mut ae: Option<String> = None;
    if str_equal(n1.as_str(), "key") {
        ak = Some(v1);
    } else if str_equal(n1.as_str(), "value") {
        av = Some(v1);
    } else if str_equal(n1.as_str(), "effect") {
        ae = Some(v1);
    }
    proof {
        assert(acc_of(None, None, None) == empty_acc());
        assert(acc_of(ak, av, ae) == acc1);
    }
    let (fk, fv, fe, jm) = match scan_members(s, j2, ak, av, ae) {
        Some(x) => x,
        None => {
            return None;
        },
    };
    match (fk, fe) {
        (Some(kk), Some(ee)) => {
            let t = Taint { key: kk, value: fv, effect: ee };
            Some((t, jm))
        },
        (None, _) => None,
        (_, None) => None,
    }
}

fn scan_taints_tail(s: &str, i: usize, out: &mut Vec<Taint>) -> (r: Option<usize>)
    requires
        i <= s@.len(),
        s@.len() <= usize::MAX,
    ensures
        match r {
            Some(j) => {
                &&& j <= s@.len()
                &&& exists|ts: Seq<TaintView>|
                    parse_taints_tail(s@, i as int) == Some((ts, j as int)) && taints_view(
                        final(out)@,
                    ) == taints_view(old(out)@) + ts
            },
            None => parse_taints_tail(s@, i as int) is None,
        },
{
    let sl = s.unicode_len();
    let ghost v0 = out@;
    let mut j: usize = i;
    loop
        invariant
            i <= j <= sl,
            sl == s@.len(),
            sl <= usize::MAX,
            v0 == old(out)@,
            out@.len() >= v0.len(),
            ({
                let acc = taints_view(out@).skip(v0.len() as int);
                &&& taints_view(out@).subrange(0, v0.len() as int) == taints_view(v0)
                &&& match parse_taints_tail(s@, j as int) {
                    Some((ts, k)) => parse_taints_tail(s@, i as int) == Some((acc + ts, k)),
                    None => parse_taints_tail(s@, i as int) is None,
                }
            }),
        decreases sl - j,
    {
        let ghost acc = taints_view(out@).skip(v0.len() as int);
        let jw = skip_ws_scan(s, j);
        if jw >= sl {
            return None;
        }
        let c = s.get_char(jw);
        if c == ']' {
            proof {
                assert(acc + Seq::<TaintView>::empty() =~= acc);
                assert(taints_view(out@) =~= taints_view(v0) + acc);
                assert(parse_taints_tail(s@, i as int) == Some((acc, jw + 1 as int)));
            }
            return Some(jw + 1);
        } else if c == ',' {
            let jw2 = skip_ws_scan(s, jw + 1);
            match scan_taint(s, jw2) {
                Some((t, k)) => {
                    out.push(t);
                    proof {
                        assert(taints_view(out@).subrange(0, v0.len() as int) =~= taints_view(v0));
                        assert(taints_view(out@).skip(v0.len() as int) =~= acc.push(t@));
                        if parse_taints_tail(s@, k as int) is Some {
                            let (ts, m) = parse_taints_tail(s@, k as int).unwrap();
                            assert(acc + (seq![t@] + ts) =~= acc.push(t@) + ts);
                        }
                    }
                    j = k;
                },
                None => {
                    return None;
                },
            }
        } else {
            return None;
        }
    }
}

/// Decodes the JSON taint list of a persisted record. A record outside the
/// grammar is a serialization error: the caller fails closed.
pub fn decode_taints(s: &str) -> (r: Result<Vec<Taint>, Error>)
    ensures
        match r {
            Ok(ts) => parse_taints(s@) == Some(taints_view(ts@)),
            Err(e) => parse_taints(s@) is None && e is Serialization,
        },
{
    let sl = s.unicode_len();
    let i0 = skip_ws_scan(s, 0);
    if i0 >= sl {
        return Err(Error::Serialization);
    }
    if s.get_char(i0) != '[' {
        return Err(Error::Serialization);
    }
    let i1 = skip_ws_scan(s, i0 + 1);
    if i1 < sl {
        if s.get_char(i1) == ']' {
            let i2 = skip_ws_scan(s, i1 + 1);
            if i2 == sl {
                let empty_list: Vec<Taint> = Vec::new();
                proof {
                    assert(taints_view(empty_list@) =~= Seq::<TaintView>::empty());
                }
                return Ok(empty_list);
            } else {
                return Err(Error::Serialization);
            }
        }
    }
    match scan_taint(s, i1) {
        None => Err(Error::Serialization),
        Some((t, j)) => {
            let mut out: Vec<Taint> = Vec::new();
            out.push(t);
            proof {
                assert(taints_view(out@) =~= seq![t@]);
            }
            match scan_taints_tail(s, j, &mut out) {
                None => Err(Error::Serialization),
                Some(k) => {
                    let kend = skip_ws_scan(s, k);
                    if kend == sl {
                        proof {
                            let (ts, m) = parse_taints_tail(s@, j as int).unwrap();
                            assert(seq![t@] + ts =~= taints_view(out@));
                        }
                        Ok(out)
                    } else {
                        Err(Error::Serialization)
                    }
                },
            }
        },
    }
}

/// The escape sequence (or the character itself) that the encoder emits
/// for one character of a string.
pub open spec fn json_escape_char(c: char) -> Seq<char> {
    if c == '"' {
        seq!['\\', '"']
    } else if c == '\\' {
        seq!['\\', '\\']
    } else if c == '\n' {
        seq!['\\', 'n']
    } else if c == '\r' {
        seq!['\\', 'r']
    } else if c == '\t' {
        seq!['\\', 't']
    } else if (c as u32) < 32 {
        seq![
            '\\',
            'u',
            '0',
            '0',
            hex_digit(((c as u32) / 16) as int),
            hex_digit(((c as u32) % 16) as int),
        ]
    } else {
        seq![c]
    }
}

/// The escaped form of a whole string.
pub open spec fn json_escaped(s: Seq<char>) -> Seq<char>
    decreases s.len(),
{
    if s.len() == 0 {
        Seq::<char>::empty()
    } else {
        json_escaped(s.drop_last()) + json_escape_char(s.last())
    }
}

/// The encoding of one taint object.
pub open spec fn json_of_taint(t: TaintView) -> Seq<char> {
    lbl_obj_key() + json_escaped(t.key) + seq!['"'] + (match t.value {
        Some(v) => lbl_value() + json_escaped(v) + seq!['"'],
        None => Seq::<char>::empty(),
    }) + lbl_effect() + json_escaped(t.effect) + seq!['"'] + seq!['}']
}

/// The encodings of the array elements, comma-separated.
pub open spec fn json_of_taints_inner(ts: Seq<TaintView>) -> Seq<char>
    decreases ts.len(),
{
    if ts.len() == 0 {
        Seq::<char>::empty()
    } else if ts.len() == 1 {
        json_of_taint(ts[0])
    } else {
        json_of_taints_inner(ts.drop_last()) + seq![','] + json_of_taint(ts.last())
    }
}

/// The encoding of a whole taint list.
pub open spec fn json_of_taints(ts: Seq<TaintView>) -> Seq<char> {
    seq!['['] + json_of_taints_inner(ts) + seq![']']
}

/// The lowercase hex digit character for a nibble.
fn hex_digit_char(n: u8) -> (r: char)
    requires
        n < 16,
    ensures
        r == hex_digit(n as int),
{
    if n == 0 { '0' } else if n == 1 { '1' } else if n == 2 { '2' } else if n == 3 { '3' }
    else if n == 4 { '4' } else if n == 5 { '5' } else if n == 6 { '6' } else if n == 7 { '7' }
    else if n == 8 { '8' } else if n == 9 { '9' } else if n == 10 { 'a' } else if n == 11 { 'b' }
    else if n == 12 { 'c' } else if n == 13 { 'd' } else if n == 14 { 'e' } else { 'f' }
}

proof fn lemma_json_escaped_head(s: Seq<char>)
    requires
        s.len() > 0,
    ensures
        json_escaped(s) == json_escape_char(s[0]) + json_escaped(s.drop_first()),
    decreases s.len(),
{
    if s.len() == 1 {
        assert(s.drop_last() =~= Seq::<char>::empty());
        assert(s.drop_first() =~= Seq::<char>::empty());
        assert(json_escaped(s) =~= json_escape_char(s[0]) + json_escaped(s.drop_first()));
    } else {
        let dl = s.drop_last();
        lemma_json_escaped_head(dl);
        assert(dl[0] == s[0]);
        assert(dl.drop_first() =~= s.drop_first().drop_last());
        assert(s.drop_first().last() == s.last());
        assert(json_escaped(s) =~= json_escape_char(s[0]) + json_escaped(s.drop_first()));
    }
}

proof fn lemma_hex_nibble_inverse(n: int)
    requires
        0 <= n < 16,
    ensures
        hex_nibble_val(crate::codec::hex_digit(n)) == Some(n as u8),
{
}

/// Parsing picks the canonical escaped form of any string back out of any
/// surrounding text: the decoder inverts the encoder character by character.
proof fn lemma_parse_of_escaped(s2: Seq<char>, i: int, s: Seq<char>)
    requires
        0 <= i,
        i + json_escaped(s).len() + 1 <= s2.len(),
        s2.subrange(i, i + json_escaped(s).len() + 1) == json_escaped(s) + seq!['"'],
    ensures
        parse_string_body(s2, i) == Some((s, i + json_escaped(s).len() + 1)),
    decreases s.len(),
{
    let esc = json_escaped(s);
    let sub = s2.subrange(i, i + esc.len() + 1);
    if s.len() == 0 {
        assert(sub[0] == s2[i]);
        assert(s2[i] == '"');
    } else {
        lemma_json_escaped_head(s);
        let c = s[0];
        let e0 = json_escape_char(c);
        let rest = s.drop_first();
        let esc_rest = json_escaped(rest);
        assert(esc == e0 + esc_rest);
        assert forall|m: int| 0 <= m < e0.len() implies s2[i + m] == e0[m] by {
            assert(sub[m] == s2[i + m]);
            assert((e0 + esc_rest + seq!['"'])[m] == e0[m]);
            assert(sub =~= e0 + esc_rest + seq!['"']);
        }
        let j = i + e0.len();
        assert(s2.subrange(j, j + esc_rest.len() + 1) =~= esc_rest + seq!['"']) by {
            assert forall|m: int| 0 <= m < esc_rest.len() + 1 implies s2.subrange(
                j,
                j + esc_rest.len() + 1,
            )[m] == (esc_rest + seq!['"'])[m] by {
                assert(s2[j + m] == sub[e0.len() + m]);
                assert(sub =~= e0 + esc_rest + seq!['"']);
            }
        }
        lemma_parse_of_escaped(s2, j, rest);
        assert(seq![c] + rest =~= s);
        if c == '"' {
            assert(s2[i] == '\\' && s2[i + 1] == '"');
        } else if c == '\\' {
            assert(s2[i] == '\\' && s2[i + 1] == '\\');
        } else if c == '\n' {
            assert(s2[i] == '\\' && s2[i + 1] == 'n');
        } else if c == '\r' {
            assert(s2[i] == '\\' && s2[i + 1] == 'r');
        } else if c == '\t' {
            assert(s2[i] == '\\' && s2[i + 1] == 't');
        } else if (c as u32) < 32 {
            let code = c as u32;
            assert(s2[i] == '\\' && s2[i + 1] == 'u' && s2[i + 2] == '0' && s2[i + 3] == '0');
            assert(s2[i + 4] == crate::codec::hex_digit(code as int / 16));
            assert(s2[i + 5] == crate::codec::hex_digit(code as int % 16));
            lemma_hex_nibble_inverse(code as int / 16);
            lemma_hex_nibble_inverse(code as int % 16);
            assert(16 * hex_nibble_val(s2[i + 4]).unwrap() + hex_nibble_val(
                s2[i + 5],
            ).unwrap() == code);
            vstd::utf8::char_u32_cast(c, code);
            assert(((16 * hex_nibble_val(s2[i + 4]).unwrap() + hex_nibble_val(
                s2[i + 5],
            ).unwrap()) as char) == c);
        } else {
            assert(s2[i] == c);
        }
    }
}

proof fn lemma_labels()
    ensures
        lbl_obj_key() =~= seq!['{', '"', 'k', 'e', 'y', '"', ':', '"'],
        lbl_value() =~= seq![',', '"', 'v', 'a', 'l', 'u', 'e', '"', ':', '"'],
        lbl_effect() =~= seq![',', '"', 'e', 'f', 'f', 'e', 'c', 't', '"', ':', '"'],
{
    reveal_strlit("{\"key\":\"");
    reveal_strlit(",\"value\":\"");
    reveal_strlit(",\"effect\":\"");
}

proof fn lemma_member_names()
    ensures
        "key"@ =~= seq!['k', 'e', 'y'],
        "value"@ =~= seq!['v', 'a', 'l', 'u', 'e'],
        "effect"@ =~= seq!['e', 'f', 'f', 'e', 'c', 't'],
{
    reveal_strlit("key");
    reveal_strlit("value");
    reveal_strlit("effect");
}

proof fn lemma_sub_seg(s2: Seq<char>, i: int, whole: Seq<char>, off: int, seg: Seq<char>)
    requires
        0 <= i,
        i + whole.len() <= s2.len(),
        s2.subrange(i, i + whole.len()) == whole,
        0 <= off,
        off + seg.len() <= whole.len(),
        whole.subrange(off, off + seg.len()) == seg,
    ensures
        s2.subrange(i + off, i + off + seg.len()) == seg,
{
    assert(s2.subrange(i + off, i + off + seg.len()) =~= seg) by {
        assert forall|m: int| 0 <= m < seg.len() implies s2[i + off + m] == seg[m] by {
            assert(s2.subrange(i, i + whole.len())[off + m] == s2[i + off + m]);
            assert(whole.subrange(off, off + seg.len())[m] == whole[off + m]);
        }
    }
}

proof fn lemma_skip_ws_noop(s: Seq<char>, i: int)
    requires
        0 <= i <= s.len(),
        i == s.len() || !is_ws(s[i]),
    ensures
        skip_ws(s, i) == i,
{
}

/// Escaping leaves a string of ordinary characters unchanged.
proof fn lemma_escaped_plain(s: Seq<char>)
    requires
        forall|j: int|
            0 <= j < s.len() ==> s[j] != '"' && s[j] != '\\' && (#[trigger] s[j] as u32) >= 32,
    ensures
        json_escaped(s) == s,
    decreases s.len(),
{
    if s.len() > 0 {
        lemma_escaped_plain(s.drop_last());
        assert(json_escape_char(s.last()) =~= seq![s.last()]);
        assert(json_escaped(s) =~= s);
    }
}

/// The canonical encoding of one object member.
spec fn member_enc(name: Seq<char>, v: Seq<char>) -> Seq<char> {
    seq!['"'] + name + seq!['"', ':', '"'] + json_escaped(v) + seq!['"']
}

/// Parsing picks a canonically encoded member back out of any surrounding
/// text.
proof fn lemma_parse_of_member(s2: Seq<char>, i: int, name: Seq<char>, v: Seq<char>)
    requires
        0 <= i,
        forall|j: int|
            0 <= j < name.len() ==> name[j] != '"' && name[j] != '\\' && (#[trigger] name[j] as u32)
                >= 32,
        i + member_enc(name, v).len() <= s2.len(),
        s2.subrange(i, i + member_enc(name, v).len()) == member_enc(name, v),
    ensures
        parse_member(s2, i) == Some(((name, v), i + member_enc(name, v).len())),
{
    let whole = member_enc(name, v);
    let nl = name.len() as int;
    let el = json_escaped(v).len() as int;
    assert(whole.len() == nl + el + 5);
    assert(s2.subrange(i, i + whole.len())[0] == s2[i]);
    assert(s2[i] == '"');
    lemma_escaped_plain(name);
    assert(whole.subrange(1, 1 + nl + 1) =~= json_escaped(name) + seq!['"']);
    lemma_sub_seg(s2, i, whole, 1, json_escaped(name) + seq!['"']);
    lemma_parse_of_escaped(s2, i + 1, name);
    let jn = i + 1 + nl + 1;
    assert(s2.subrange(i, i + whole.len())[nl + 2] == s2[jn]);
    assert(whole[nl + 2] == ':');
    lemma_skip_ws_noop(s2, jn);
    assert(s2.subrange(i, i + whole.len())[nl + 3] == s2[jn + 1]);
    assert(whole[nl + 3] == '"');
    lemma_skip_ws_noop(s2, jn + 1);
    assert(whole.subrange(nl + 4, nl + 4 + el + 1) =~= json_escaped(v) + seq!['"']);
    lemma_sub_seg(s2, i, whole, nl + 4, json_escaped(v) + seq!['"']);
    lemma_parse_of_escaped(s2, i + nl + 4, v);
    assert(parse_string_body(s2, jn + 2) == Some((v, i + nl + 4 + el + 1)));
}

/// Parsing picks the canonical encoding of one taint back out of any
/// surrounding text.
#[verifier::rlimit(100)]
#[verifier::spinoff_prover]
proof fn lemma_parse_of_taint(s2: Seq<char>, i: int, t: TaintView)
    requires
        0 <= i,
        i + json_of_taint(t).len() <= s2.len(),
        s2.subrange(i, i + json_of_taint(t).len()) == json_of_taint(t),
    ensures
        parse_taint(s2, i) == Some((t, i + json_of_taint(t).len())),
{
    lemma_labels();
    lemma_member_names();
    let whole = json_of_taint(t);
    let me_k = member_enc("key"@, t.key);
    let me_e = member_enc("effect"@, t.effect);
    assert(s2.subrange(i, i + whole.len())[0] == s2[i]);
    match t.value {
        Some(v) => {
            let me_v = member_enc("value"@, v);
            assert(whole =~= seq!['{'] + me_k + seq![','] + me_v + seq![','] + me_e + seq!['}']);
            let o_c1 = 1 + me_k.len() as int;
            let o_v = o_c1 + 1;
            let o_c2 = o_v + me_v.len() as int;
            let o_e = o_c2 + 1;
            let o_b = o_e + me_e.len() as int;
            assert(whole.len() == o_b + 1);
            assert(s2[i] == '{');
            // The key member.
            assert(s2.subrange(i, i + whole.len())[1] == s2[i + 1]);
            assert(whole[1] == '"');
            lemma_skip_ws_noop(s2, i + 1);
            assert(whole.subrange(1, o_c1) =~= me_k);
            lemma_sub_seg(s2, i, whole, 1, me_k);
            lemma_parse_of_member(s2, i + 1, "key"@, t.key);
            let acc1 = member_apply(empty_acc(), "key"@, t.key);
            assert(acc1 == MemberAcc { key: Some(t.key), value: None, effect: None });
            // The value member.
            assert(s2.subrange(i, i + whole.len())[o_c1] == s2[i + o_c1]);
            assert(whole[o_c1] == ',');
            lemma_skip_ws_noop(s2, i + o_c1);
            assert(s2.subrange(i, i + whole.len())[o_v] == s2[i + o_v]);
            assert(whole[o_v] == '"');
            lemma_skip_ws_noop(s2, i + o_v);
            assert(whole.subrange(o_v, o_c2) =~= me_v);
            lemma_sub_seg(s2, i, whole, o_v, me_v);
            lemma_parse_of_member(s2, i + o_v, "value"@, v);
            assert("value"@ != "key"@);
            let acc2 = member_apply(acc1, "value"@, v);
            assert(acc2 == MemberAcc { key: Some(t.key), value: Some(v), effect: None });
            assert(parse_members(s2, i + o_c1, acc1) == parse_members(s2, i + o_c2, acc2));
            // The effect member.
            assert(s2.subrange(i, i + whole.len())[o_c2] == s2[i + o_c2]);
            assert(whole[o_c2] == ',');
            lemma_skip_ws_noop(s2, i + o_c2);
            assert(s2.subrange(i, i + whole.len())[o_e] == s2[i + o_e]);
            assert(whole[o_e] == '"');
            lemma_skip_ws_noop(s2, i + o_e);
            assert(whole.subrange(o_e, o_b) =~= me_e);
            lemma_sub_seg(s2, i, whole, o_e, me_e);
            lemma_parse_of_member(s2, i + o_e, "effect"@, t.effect);
            assert("effect"@ != "key"@ && "effect"@ != "value"@);
            let acc3 = member_apply(acc2, "effect"@, t.effect);
            assert(acc3 == MemberAcc { key: Some(t.key), value: Some(v), effect: Some(t.effect) });
            assert(parse_members(s2, i + o_c2, acc2) == parse_members(s2, i + o_b, acc3));
            // The closing brace.
            assert(s2.subrange(i, i + whole.len())[o_b] == s2[i + o_b]);
            assert(whole[o_b] == '}');
            lemma_skip_ws_noop(s2, i + o_b);
            assert(parse_members(s2, i + o_b, acc3) == Some((acc3, i + o_b + 1)));
            assert(acc_taint(acc3) == Some(t));
        },
        None => {
            assert(whole =~= seq!['{'] + me_k + seq![','] + me_e + seq!['}']);
            let o_c1 = 1 + me_k.len() as int;
            let o_e = o_c1 + 1;
            let o_b = o_e + me_e.len() as int;
            assert(whole.len() == o_b + 1);
            assert(s2[i] == '{');
            // The key member.
            assert(s2.subrange(i, i + whole.len())[1] == s2[i + 1]);
            assert(whole[1] == '"');
            lemma_skip_ws_noop(s2, i + 1);
            assert(whole.subrange(1, o_c1) =~= me_k);
            lemma_sub_seg(s2, i, whole, 1, me_k);
            lemma_parse_of_member(s2, i + 1, "key"@, t.key);
            let acc1 = member_apply(empty_acc(), "key"@, t.key);
            assert(acc1 == MemberAcc { key: Some(t.key), value: None, effect: None });
            // The effect member.
            assert(s2.subrange(i, i + whole.len())[o_c1] == s2[i + o_c1]);
            assert(whole[o_c1] == ',');
            lemma_skip_ws_noop(s2, i + o_c1);
            assert(s2.subrange(i, i + whole.len())[o_e] == s2[i + o_e]);
            assert(whole[o_e] == '"');
            lemma_skip_ws_noop(s2, i + o_e);
            assert(whole.subrange(o_e, o_b) =~= me_e);
            lemma_sub_seg(s2, i, whole, o_e, me_e);
            lemma_parse_of_member(s2, i + o_e, "effect"@, t.effect);
            assert("effect"@ != "key"@);
            let acc2 = member_apply(acc1, "effect"@, t.effect);
            assert(acc2 == MemberAcc { key: Some(t.key), value: None, effect: Some(t.effect) });
            assert(parse_members(s2, i + o_c1, acc1) == parse_members(s2, i + o_b, acc2));
            // The closing brace.
            assert(s2.subrange(i, i + whole.len())[o_b] == s2[i + o_b]);
            assert(whole[o_b] == '}');
            lemma_skip_ws_noop(s2, i + o_b);
            assert(parse_members(s2, i + o_b, acc2) == Some((acc2, i + o_b + 1)));
            assert(acc_taint(acc2) == Some(t));
        },
    }
}

/// The comma-prefixed encodings of the taints after the first array element.
spec fn json_tail(ts: Seq<TaintView>) -> Seq<char>
    decreases ts.len(),
{
    if ts.len() == 0 {
        Seq::<char>::empty()
    } else {
        seq![','] + json_of_taint(ts[0]) + json_tail(ts.drop_first())
    }
}

proof fn lemma_tail_snoc(s: Seq<TaintView>, x: TaintView)
    ensures
        json_tail(s.push(x)) == json_tail(s) + seq![','] + json_of_taint(x),
    decreases s.len(),
{
    if s.len() == 0 {
        assert(s.push(x).drop_first() =~= Seq::<TaintView>::empty());
        assert(s.push(x)[0] == x);
        assert(json_tail(Seq::<TaintView>::empty()) == Seq::<char>::empty());
        assert(json_tail(s) == Seq::<char>::empty());
        assert(json_tail(s.push(x)) =~= json_tail(s) + seq![','] + json_of_taint(x));
    } else {
        assert(s.push(x).drop_first() =~= s.drop_first().push(x));
        assert(s.push(x)[0] == s[0]);
        lemma_tail_snoc(s.drop_first(), x);
        assert(json_tail(s.push(x)) =~= json_tail(s) + seq![','] + json_of_taint(x));
    }
}

proof fn lemma_inner_head(ts: Seq<TaintView>)
    requires
        ts.len() > 0,
    ensures
        json_of_taints_inner(ts) == json_of_taint(ts[0]) + json_tail(ts.drop_first()),
    decreases ts.len(),
{
    if ts.len() == 1 {
        assert(ts.drop_first() =~= Seq::<TaintView>::empty());
        assert(json_of_taints_inner(ts) =~= json_of_taint(ts[0]) + json_tail(ts.drop_first()));
    } else {
        let dl = ts.drop_last();
        lemma_inner_head(dl);
        assert(dl[0] == ts[0]);
        assert(ts.drop_first() =~= dl.drop_first().push(ts.last()));
        lemma_tail_snoc(dl.drop_first(), ts.last());
        assert(json_of_taints_inner(ts) =~= json_of_taint(ts[0]) + json_tail(ts.drop_first()));
    }
}

proof fn lemma_parse_of_tail(s2: Seq<char>, i: int, ts: Seq<TaintView>)
    requires
        0 <= i,
        i + json_tail(ts).len() + 1 <= s2.len(),
        s2.subrange(i, i + json_tail(ts).len() + 1) == json_tail(ts) + seq![']'],
    ensures
        parse_taints_tail(s2, i) == Some((ts, i + json_tail(ts).len() + 1)),
    decreases ts.len(),
{
    let whole = json_tail(ts) + seq![']'];
    if ts.len() == 0 {
        assert(whole[0] == ']');
        assert(s2.subrange(i, i + whole.len())[0] == s2[i]);
        lemma_skip_ws_noop(s2, i);
        assert(parse_taints_tail(s2, i) == Some((Seq::<TaintView>::empty(), i + 1)));
    } else {
        let e0 = json_of_taint(ts[0]);
        let rest = ts.drop_first();
        assert(whole =~= seq![','] + e0 + (json_tail(rest) + seq![']']));
        assert(whole[0] == ',');
        assert(s2.subrange(i, i + whole.len())[0] == s2[i]);
        assert(s2[i] == ',');
        lemma_skip_ws_noop(s2, i);
        assert(whole[1] == e0[0]);
        assert(e0 =~= lbl_obj_key() + (json_escaped(ts[0].key) + seq!['"']) + (match ts[0].value {
            Some(v) => lbl_value() + json_escaped(v) + seq!['"'],
            None => Seq::<char>::empty(),
        }) + (lbl_effect() + (json_escaped(ts[0].effect) + seq!['"']) + seq!['}']));
        assert(e0[0] == '{') by {
            lemma_labels();
        }
        assert(s2.subrange(i, i + whole.len())[1] == s2[i + 1]);
        lemma_skip_ws_noop(s2, i + 1);
        assert(whole.subrange(1, 1 + e0.len() as int) =~= e0);
        lemma_sub_seg(s2, i, whole, 1, e0);
        lemma_parse_of_taint(s2, i + 1, ts[0]);
        let j: int = i + 1 + e0.len() as int;
        assert(whole.subrange(1 + e0.len() as int, whole.len() as int) =~= json_tail(rest)
            + seq![']']);
        lemma_sub_seg(s2, i, whole, 1 + e0.len() as int, json_tail(rest) + seq![']']);
        lemma_parse_of_tail(s2, j, rest);
        assert(seq![ts[0]] + rest =~= ts);
    }
}

/// Round trip helper for the non-empty case.
#[verifier::rlimit(100)]
#[verifier::spinoff_prover]
proof fn lemma_roundtrip_nonempty(ts: Seq<TaintView>)
    requires
        ts.len() > 0,
    ensures
        parse_taints(json_of_taints(ts)) == Some(ts),
{
    lemma_labels();
    let s2 = json_of_taints(ts);
    lemma_inner_head(ts);
    let e0 = json_of_taint(ts[0]);
    let rest = ts.drop_first();
    let tail = json_tail(rest) + seq![']'];
    assert(e0.len() >= 8);
    assert(s2 =~= seq!['['] + e0 + tail);
    assert(s2[0] == '[');
    lemma_skip_ws_noop(s2, 0);
    assert(s2.len() > 2);
    assert(e0[0] == '{');
    assert(s2[1] == '{');
    lemma_skip_ws_noop(s2, 1);
    assert(s2.subrange(1, 1 + e0.len() as int) == e0) by {
        assert(s2.subrange(1, 1 + e0.len() as int) =~= e0) by {
            assert forall|m: int| 0 <= m < e0.len() implies s2[1 + m] == e0[m] by {
                assert(s2[1 + m] == (seq!['['] + e0 + tail)[1 + m]);
            }
        }
    }
    lemma_parse_of_taint(s2, 1, ts[0]);
    let j: int = 1 + e0.len() as int;
    assert(s2.subrange(j, j + json_tail(rest).len() as int + 1) == json_tail(rest) + seq![']'])
        by {
        assert(s2.subrange(j, j + json_tail(rest).len() as int + 1) =~= tail) by {
            assert forall|m: int| 0 <= m < tail.len() implies s2[j + m] == tail[m] by {
                assert(s2[j + m] == (seq!['['] + e0 + tail)[j + m]);
            }
        }
    }
    lemma_parse_of_tail(s2, j, rest);
    assert(seq![ts[0]] + rest =~= ts);
    assert(j + json_tail(rest).len() as int + 1 == s2.len());
    lemma_skip_ws_noop(s2, s2.len() as int);
}

/// Round trip: decoding the canonical encoding of any taint list yields
/// that list again — what Cleanup persists is exactly what a later Apply
/// reads back.
pub proof fn lemma_encode_decode_roundtrip(ts: Seq<TaintView>)
    ensures
        parse_taints(json_of_taints(ts)) == Some(ts),
{
    let s2 = json_of_taints(ts);
    if ts.len() == 0 {
        assert(s2 =~= seq!['[', ']']);
        lemma_skip_ws_noop(s2, 0);
        lemma_skip_ws_noop(s2, 1);
        lemma_skip_ws_noop(s2, 2);
        assert(parse_taints(s2) == Some(Seq::<TaintView>::empty()));
        assert(Seq::<TaintView>::empty() =~= ts);
    } else {
        lemma_roundtrip_nonempty(ts);
    }
}

fn write_json_string_body(out: &mut String, s: &str)
    ensures
        final(out)@ == old(out)@ + json_escaped(s@),
{
    let n = s.unicode_len();
    let mut i: usize = 0;
    while i < n
        invariant
            0 <= i <= n,
            n == s@.len(),
            out@ == old(out)@ + json_escaped(s@.take(i as int)),
        decreases n - i,
    {
        let ghost pre = out@;
        let c = s.get_char(i);
        if c == '"' {
            push_char(out, '\\');
            push_char(out, '"');
        } else if c == '\\' {
            push_char(out, '\\');
            push_char(out, '\\');
        } else if c == '\n' {
            push_char(out, '\\');
            push_char(out, 'n');
        } else if c == '\r' {
            push_char(out, '\\');
            push_char(out, 'r');
        } else if c == '\t' {
            push_char(out, '\\');
            push_char(out, 't');
        } else if (c as u32) < 32 {
            let code = c as u32;
            push_char(out, '\\');
            push_char(out, 'u');
            push_char(out, '0');
            push_char(out, '0');
            push_char(out, hex_digit_char((code / 16) as u8));
            push_char(out, hex_digit_char((code % 16) as u8));
        } else {
            push_char(out, c);
        }
        proof {
            assert(s@.take(i + 1).drop_last() =~= s@.take(i as int));
            assert(s@.take(i + 1).last() == s@[i as int]);
            assert(out@ =~= pre + json_escape_char(c));
            assert(out@ =~= old(out)@ + json_escaped(s@.take(i + 1)));
        }
        i = i + 1;
    }
    proof {
        assert(s@.take(n as int) =~= s@);
    }
}

fn write_taint(out: &mut String, t: &Taint)
    ensures
        final(out)@ == old(out)@ + json_of_taint(t@),
{
    out.append("{\"key\":\"");
    write_json_string_body(out, t.key.as_str());
    push_char(out, '"');
    match &t.value {
        Some(v) => {
            out.append(",\"value\":\"");
            write_json_string_body(out, v.as_str());
            push_char(out, '"');
        },
        None => {},
    }
    out.append(",\"effect\":\"");
    write_json_string_body(out, t.effect.as_str());
    push_char(out, '"');
    push_char(out, '}');
    proof {
        assert(out@ =~= old(out)@ + json_of_taint(t@));
    }
}

/// Encodes a taint list as the canonical JSON array the store holds.
pub fn encode_taints(ts: &Vec<Taint>) -> (r: String)
    ensures
        r@ == json_of_taints(taints_view(ts@)),
{
    let ghost tv = taints_view(ts@);
    let mut out = String::new();
    push_char(&mut out, '[');
    proof {
        assert(out@ =~= seq!['['] + json_of_taints_inner(tv.take(0)));
    }
    let mut i: usize = 0;
    while i < ts.len()
        invariant
            0 <= i <= ts.len(),
            tv == taints_view(ts@),
            tv.len() == ts.len(),
            out@ == seq!['['] + json_of_taints_inner(tv.take(i as int)),
        decreases ts.len() - i,
    {
        let ghost pre = out@;
        if i > 0 {
            push_char(&mut out, ',');
        }
        write_taint(&mut out, &ts[i]);
        proof {
            assert(tv.take(i + 1).drop_last() =~= tv.take(i as int));
            assert(tv.take(i + 1).last() == tv[i as int]);
            if i > 0 {
                assert(out@ =~= pre + seq![','] + json_of_taint(tv[i as int]));
                assert(out@ =~= seq!['['] + json_of_taints_inner(tv.take(i + 1)));
            } else {
                assert(tv.take(1).len() == 1);
                assert(out@ =~= seq!['['] + json_of_taints_inner(tv.take(i + 1)));
            }
        }
        i = i + 1;
    }
    proof {
        assert(tv.take(ts.len() as int) =~= tv);
    }
    push_char(&mut out, ']');
    proof {
        assert(out@ =~= seq!['['] + json_of_taints_inner(tv) + seq![']']);
    }
    out
}

} // verus!
