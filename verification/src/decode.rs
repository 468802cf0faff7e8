//! Decoding of an upstream body to the relay record, proved against
//! `json::decode_record_spec`.

use crate::json::{
    decode_record_spec,
    digit_count,
    digit_val,
    digits_val,
    escape_char,
    extract_record,
    has_word,
    hex4,
    hex_val,
    is_digit,
    is_ws,
    msg_key,
    parse_elements,
    parse_members,
    parse_number,
    parse_str_body,
    parse_value,
    skip_ws,
    status_key,
    ws_count,
    JsonField,
    JSON_DEPTH_LIMIT,
};
use crate::record::IOCall;
use crate::strutil::{chars_to_string, str_to_chars};
use vstd::prelude::*;

verus! {

/// Executable counterpart of `JsonField`.
pub enum FieldValue {
    Int(i64),
    Str(Vec<char>),
    Other,
}

impl View for FieldValue {
    type V = JsonField;

    open spec fn view(&self) -> JsonField {
        match self {
            FieldValue::Int(n) => JsonField::Int(*n as int),
            FieldValue::Str(t) => JsonField::Str(t@),
            FieldValue::Other => JsonField::Other,
        }
    }
}

/// First position at or after `i` holding no whitespace.
fn skip_ws_exec(s: &Vec<char>, i: usize) -> (r: usize)
    requires
        i <= s@.len(),
    ensures
        r == skip_ws(s@, i as int),
        i <= r <= s@.len(),
{
    let mut cur = i;
    loop
        invariant
            i <= cur <= s@.len(),
            skip_ws(s@, i as int) == skip_ws(s@, cur as int),
        ensures
            i <= cur <= s@.len(),
            skip_ws(s@, i as int) == skip_ws(s@, cur as int),
            cur == s@.len() || !is_ws(s@[cur as int]),
        decreases s@.len() - cur,
    {
        if cur == s.len() {
            break;
        }
        let u = s[cur];
        if !(u == ' ' || u == '\t' || u == '\n' || u == '\r') {
            proof {
                assert(!is_ws(s@[cur as int]));
            }
            break;
        }
        proof {
            assert(is_ws(s@[cur as int]));
            assert(ws_count(s@, cur as int) == 1 + ws_count(s@, cur + 1 as int));
        }
        cur = cur + 1;
    }
    proof {
        assert(ws_count(s@, cur as int) == 0);
    }
    cur
}

/// Code point of a character.
fn char_code(c: char) -> (r: u32)
    ensures
        r as int == c as int,
{
    c as u32
}

/// Hexadecimal digit value of a character.
fn hex_val_exec(c: char) -> (r: Option<u32>)
    ensures
        match r {
            Option::Some(v) => hex_val(c) == Option::Some(v as int) && v < 16,
            Option::None => hex_val(c) is None,
        },
{
    let u = c as u32;
    if 48 <= u && u <= 57 {
        Option::Some(u - 48)
    } else if 97 <= u && u <= 102 {
        Option::Some(u - 97 + 10)
    } else if 65 <= u && u <= 70 {
        Option::Some(u - 65 + 10)
    } else {
        Option::None
    }
}

/// Value of the four hexadecimal digits at `i`.
fn hex4_exec(s: &Vec<char>, i: usize) -> (r: Option<u32>)
    requires
        i <= s@.len(),
    ensures
        match r {
            Option::Some(h) => hex4(s@, i as int) == Option::Some(h as int) && i + 4 <= s@.len()
                && h < 0x10000,
            Option::None => hex4(s@, i as int) is None,
        },
{
    if s.len() < 4 || i > s.len() - 4 {
        return Option::None;
    }
    let a = match hex_val_exec(s[i]) {
        Option::Some(v) => v,
        Option::None => {
            return Option::None;
        },
    };
    let b = match hex_val_exec(s[i + 1]) {
        Option::Some(v) => v,
        Option::None => {
            return Option::None;
        },
    };
    let c = match hex_val_exec(s[i + 2]) {
        Option::Some(v) => v,
        Option::None => {
            return Option::None;
        },
    };
    let d = match hex_val_exec(s[i + 3]) {
        Option::Some(v) => v,
        Option::None => {
            return Option::None;
        },
    };
    Option::Some(a * 0x1000 + b * 0x100 + c * 0x10 + d)
}

/// The character a single-character escape stands for.
fn escape_char_exec(c: char) -> (r: Option<char>)
    ensures
        r == escape_char(c),
{
    if c == '"' {
        Option::Some('"')
    } else if c == '\\' {
        Option::Some('\\')
    } else if c == '/' {
        Option::Some('/')
    } else if c == 'b' {
        Option::Some('\u{8}')
    } else if c == 'f' {
        Option::Some('\u{c}')
    } else if c == 'n' {
        Option::Some('\n')
    } else if c == 'r' {
        Option::Some('\r')
    } else if c == 't' {
        Option::Some('\t')
    } else {
        Option::None
    }
}

/// The parse of the string tail at `cur` completes the parse of the
/// string tail at `i` whose content so far is `acc`.
spec fn str_tail_ok(s: Seq<char>, i: int, cur: int, acc: Seq<char>) -> bool {
    &&& (parse_str_body(s, cur) matches Some(p) ==> parse_str_body(s, i) == Option::Some(
        (acc + p.0, ((cur - i) + p.1) as nat),
    ))
    &&& (parse_str_body(s, cur) is None ==> parse_str_body(s, i) is None)
}

/// Content and consumed length of the JSON string whose opening quote
/// stands just before `i`.
fn parse_str_exec(s: &Vec<char>, i: usize) -> (r: Option<(Vec<char>, usize)>)
    requires
        i <= s@.len(),
    ensures
        match r {
            Option::Some(p) => parse_str_body(s@, i as int) == Option::Some(
                (p.0@, p.1 as nat),
            ) && i + p.1 <= s@.len(),
            Option::None => parse_str_body(s@, i as int) is None,
        },
{
    let mut out: Vec<char> = Vec::new();
    let mut cur = i;
    proof {
        assert(out@ + Seq::<char>::empty() =~= out@);
    }
    loop
        invariant
            i <= cur <= s@.len(),
            str_tail_ok(s@, i as int, cur as int, out@),
        decreases s@.len() - cur,
    {
        if cur == s.len() {
            return Option::None;
        }
        let c = s[cur];
        let ghost prev = out@;
        let ghost pcur = cur as int;
        if c == '"' {
            proof {
                assert(parse_str_body(s@, pcur) == Option::Some((Seq::<char>::empty(), 1nat)));
                assert(prev + Seq::<char>::empty() =~= prev);
            }
            return Option::Some((out, cur + 1 - i));
        } else if c == '\\' {
            if cur + 1 == s.len() {
                return Option::None;
            }
            let e = s[cur + 1];
            if e == 'u' {
                let h = match hex4_exec(s, cur + 2) {
                    Option::Some(h) => h,
                    Option::None => {
                        return Option::None;
                    },
                };
                if 0xD800 <= h && h < 0xDC00 {
                    if s.len() >= 8 && cur <= s.len() - 8 && s[cur + 6] == '\\' && s[cur + 7]
                        == 'u' {
                        let l = match hex4_exec(s, cur + 8) {
                            Option::Some(l) => l,
                            Option::None => {
                                return Option::None;
                            },
                        };
                        if 0xDC00 <= l && l < 0xE000 {
                            let code: u32 = 0x10000 + (h - 0xD800) * 0x400 + (l - 0xDC00);
                            let ch = match char::from_u32(code) {
                                Option::Some(ch) => ch,
                                Option::None => {
                                    proof {
                                        assert(false);
                                    }
                                    return Option::None;
                                },
                            };
                            out.push(ch);
                            cur = cur + 12;
                            proof {
                                vstd::utf8::char_u32_cast(ch, code);
                                lemma_str_tail_step(s@, i as int, pcur, prev, ch, 12);
                            }
                        } else {
                            return Option::None;
                        }
                    } else {
                        return Option::None;
                    }
                } else if 0xDC00 <= h && h < 0xE000 {
                    return Option::None;
                } else {
                    let ch = match char::from_u32(h) {
                        Option::Some(ch) => ch,
                        Option::None => {
                            proof {
                                assert(false);
                            }
                            return Option::None;
                        },
                    };
                    out.push(ch);
                    cur = cur + 6;
                    proof {
                        vstd::utf8::char_u32_cast(ch, h);
                        lemma_str_tail_step(s@, i as int, pcur, prev, ch, 6);
                    }
                }
            } else {
                let ch = match escape_char_exec(e) {
                    Option::Some(ch) => ch,
                    Option::None => {
                        return Option::None;
                    },
                };
                out.push(ch);
                cur = cur + 2;
                proof {
                    lemma_str_tail_step(s@, i as int, pcur, prev, ch, 2);
                }
            }
        } else {
            let u = char_code(c);
            if u < 0x20 {
                proof {
                    assert(parse_str_body(s@, pcur) is None);
                }
                return Option::None;
            } else {
                out.push(c);
                cur = cur + 1;
                proof {
                    lemma_str_tail_step(s@, i as int, pcur, prev, c, 1);
                }
            }
        }
    }
}

/// Every position counted by `digit_count` holds a digit, and the count
/// stays within the sequence.
proof fn lemma_digit_count_props(s: Seq<char>, i: int)
    requires
        0 <= i <= s.len(),
    ensures
        i + digit_count(s, i) <= s.len(),
        forall|k: int| 0 <= k < digit_count(s, i) ==> is_digit(#[trigger] s[i + k]),
    decreases s.len() - i,
{
    if i < s.len() && is_digit(s[i]) {
        lemma_digit_count_props(s, i + 1);
        assert forall|k: int| 0 <= k < digit_count(s, i) implies is_digit(#[trigger] s[i + k]) by {
            if k > 0 {
                assert(is_digit(s[(i + 1) + (k - 1)]));
            }
        }
    }
}

/// Number of consecutive decimal digits at `i`.
fn digit_count_exec(s: &Vec<char>, i: usize) -> (r: usize)
    requires
        i <= s@.len(),
    ensures
        r == digit_count(s@, i as int),
        i + r <= s@.len(),
{
    let mut cur = i;
    loop
        invariant
            i <= cur <= s@.len(),
            digit_count(s@, i as int) == (cur - i) + digit_count(s@, cur as int),
        ensures
            i <= cur <= s@.len(),
            digit_count(s@, i as int) == (cur - i) + digit_count(s@, cur as int),
            digit_count(s@, cur as int) == 0,
        decreases s@.len() - cur,
    {
        if cur == s.len() {
            break;
        }
        let u = char_code(s[cur]);
        if !(48 <= u && u <= 57) {
            proof {
                assert(!is_digit(s@[cur as int]));
            }
            break;
        }
        proof {
            assert(is_digit(s@[cur as int]));
            assert(digit_count(s@, cur as int) == 1 + digit_count(s@, cur + 1 as int));
        }
        cur = cur + 1;
    }
    cur - i
}

/// Field value and consumed length of the JSON number starting at `i`.
fn parse_number_exec(s: &Vec<char>, i: usize) -> (r: Option<(FieldValue, usize)>)
    requires
        i < s@.len(),
        s@[i as int] == '-' || is_digit(s@[i as int]),
    ensures
        match r {
            Option::Some(p) => parse_number(s@, i as int) == Option::Some(
                (p.0@, p.1 as nat),
            ) && i + p.1 <= s@.len(),
            Option::None => parse_number(s@, i as int) is None,
        },
{
    let slen = s.len();
    let neg = s[i] == '-';
    let p = if neg {
        i + 1
    } else {
        i
    };
    if p == s.len() {
        proof {
            assert(parse_number(s@, i as int) is None);
        }
        return Option::None;
    }
    let pc = char_code(s[p]);
    if !(48 <= pc && pc <= 57) {
        proof {
            assert(!is_digit(s@[p as int]));
            assert(parse_number(s@, i as int) is None);
        }
        return Option::None;
    }
    proof {
        assert(is_digit(s@[p as int]));
    }
    let icount = digit_count_exec(s, p);
    if s[p] == '0' && icount > 1 {
        proof {
            assert(parse_number(s@, i as int) is None);
        }
        return Option::None;
    }
    proof {
        lemma_digit_count_props(s@, p as int);
    }
    let mut mag: u64 = 0;
    let mut over = false;
    let mut k: usize = 0;
    while k < icount
        invariant
            0 <= k <= icount,
            slen == s@.len(),
            p + icount <= slen,
            icount == digit_count(s@, p as int),
            forall|t: int| 0 <= t < icount ==> is_digit(#[trigger] s@[p + t]),
            !over ==> mag == digits_val(s@, p as int, k as nat),
            over ==> digits_val(s@, p as int, k as nat) > 0x8000_0000_0000_0000,
        decreases icount - k,
    {
        let d = char_code(s[p + k]) - 48;
        proof {
            assert(is_digit(s@[p + k]));
            assert(0 <= digit_val(s@[p + k]) <= 9);
            assert(d as int == digit_val(s@[(p + k) as int]));
            assert(digits_val(s@, p as int, (k + 1) as nat) == digits_val(s@, p as int, k as nat)
                * 10 + digit_val(s@[p + k]));
        }
        if over {
        } else if mag > 1844674407370955160u64 {
            over = true;
        } else {
            mag = mag * 10 + (d as u64);
        }
        k = k + 1;
    }
    let after_int = p + icount;
    let mut after_frac = after_int;
    let mut has_frac = false;
    if after_int < s.len() && s[after_int] == '.' {
        let fcount = digit_count_exec(s, after_int + 1);
        if fcount == 0 {
            proof {
                assert(parse_number(s@, i as int) is None);
            }
            return Option::None;
        }
        after_frac = after_int + 1 + fcount;
        has_frac = true;
    }
    if after_frac < s.len() && (s[after_frac] == 'e' || s[after_frac] == 'E') {
        let ep = if after_frac + 1 < s.len() && (s[after_frac + 1] == '+' || s[after_frac + 1]
            == '-') {
            after_frac + 2
        } else {
            after_frac + 1
        };
        let ecount = digit_count_exec(s, ep);
        if ecount == 0 {
            proof {
                assert(parse_number(s@, i as int) is None);
            }
            return Option::None;
        }
        return Option::Some((FieldValue::Other, ep + ecount - i));
    }
    let used = after_frac - i;
    if over || has_frac {
        return Option::Some((FieldValue::Other, used));
    }
    if neg {
        if mag > 9223372036854775808u64 {
            Option::Some((FieldValue::Other, used))
        } else if mag == 9223372036854775808u64 {
            Option::Some((FieldValue::Int(i64::MIN), used))
        } else {
            Option::Some((FieldValue::Int(-(mag as i64)), used))
        }
    } else {
        if mag > 9223372036854775807u64 {
            Option::Some((FieldValue::Other, used))
        } else {
            Option::Some((FieldValue::Int(mag as i64), used))
        }
    }
}

/// One decoding step of the string parse: if the parse at `cur` yields
/// one character `ch` consuming `k` input characters before continuing at
/// `cur + k`, the accumulator relation is preserved.
proof fn lemma_str_tail_step(s: Seq<char>, i: int, cur: int, acc: Seq<char>, ch: char, k: int)
    requires
        str_tail_ok(s, i, cur, acc),
        i <= cur,
        k >= 1,
        (parse_str_body(s, cur + k) matches Some(q) ==> parse_str_body(s, cur) == Option::Some(
            (seq![ch] + q.0, (k + q.1) as nat),
        )),
        (parse_str_body(s, cur + k) is None ==> parse_str_body(s, cur) is None),
    ensures
        str_tail_ok(s, i, cur + k, acc.push(ch)),
{
    match parse_str_body(s, cur + k) {
        Option::Some(q) => {
            assert(acc + (seq![ch] + q.0) =~= acc.push(ch) + q.0);
        },
        Option::None => {
        },
    }
}

/// Whether the four characters `c0..c3` stand at `i`.
fn word4_exec(s: &Vec<char>, i: usize, c0: char, c1: char, c2: char, c3: char) -> (r: bool)
    requires
        i <= s@.len(),
    ensures
        r == has_word(s@, i as int, seq![c0, c1, c2, c3]),
{
    let slen = s.len();
    if slen < 4 || i > slen - 4 {
        return false;
    }
    if s[i] == c0 && s[i + 1] == c1 && s[i + 2] == c2 && s[i + 3] == c3 {
        proof {
            assert(s@.subrange(i as int, i + 4 as int) =~= seq![c0, c1, c2, c3]);
        }
        true
    } else {
        proof {
            if has_word(s@, i as int, seq![c0, c1, c2, c3]) {
                assert(s@.subrange(i as int, i + 4 as int)[0] == s@[i as int]);
                assert(s@.subrange(i as int, i + 4 as int)[1] == s@[i + 1 as int]);
                assert(s@.subrange(i as int, i + 4 as int)[2] == s@[i + 2 as int]);
                assert(s@.subrange(i as int, i + 4 as int)[3] == s@[i + 3 as int]);
                assert(false);
            }
        }
        false
    }
}

/// Whether the five characters `c0..c4` stand at `i`.
fn word5_exec(s: &Vec<char>, i: usize, c0: char, c1: char, c2: char, c3: char, c4: char) -> (r:
    bool)
    requires
        i <= s@.len(),
    ensures
        r == has_word(s@, i as int, seq![c0, c1, c2, c3, c4]),
{
    let slen = s.len();
    if slen < 5 || i > slen - 5 {
        return false;
    }
    if s[i] == c0 && s[i + 1] == c1 && s[i + 2] == c2 && s[i + 3] == c3 && s[i + 4] == c4 {
        proof {
            assert(s@.subrange(i as int, i + 5 as int) =~= seq![c0, c1, c2, c3, c4]);
        }
        true
    } else {
        proof {
            if has_word(s@, i as int, seq![c0, c1, c2, c3, c4]) {
                assert(s@.subrange(i as int, i + 5 as int)[0] == s@[i as int]);
                assert(s@.subrange(i as int, i + 5 as int)[1] == s@[i + 1 as int]);
                assert(s@.subrange(i as int, i + 5 as int)[2] == s@[i + 2 as int]);
                assert(s@.subrange(i as int, i + 5 as int)[3] == s@[i + 3 as int]);
                assert(s@.subrange(i as int, i + 5 as int)[4] == s@[i + 4 as int]);
                assert(false);
            }
        }
        false
    }
}

/// The member parse at `cur` completes the member parse at `i`, of which
/// `cur - i` input characters are already consumed.
spec fn members_tail_ok(s: Seq<char>, i: int, d: nat, f0: bool, cur: int, fc: bool) -> bool {
    &&& (parse_members(s, cur, d, fc) matches Some(p2) ==> (parse_members(s, i, d, f0) matches Some(
        p1,
    ) && p1.1 == (cur - i) + p2.1))
    &&& (parse_members(s, cur, d, fc) is None ==> parse_members(s, i, d, f0) is None)
}

/// Composes the member-parse relation with one further parsed member.
proof fn lemma_members_tail_step(
    s: Seq<char>,
    i: int,
    d: nat,
    f0: bool,
    cur: int,
    fc: bool,
    nxt: int,
)
    requires
        members_tail_ok(s, i, d, f0, cur, fc),
        i <= cur <= nxt,
        (parse_members(s, nxt, d, false) matches Some(q) ==> (parse_members(s, cur, d, fc)
            matches Some(p) && p.1 == (nxt - cur) + q.1)),
        (parse_members(s, nxt, d, false) is None ==> parse_members(s, cur, d, fc) is None),
    ensures
        members_tail_ok(s, i, d, f0, nxt, false),
{
}

/// The element parse at `cur` completes the element parse at `i`.
spec fn elements_tail_ok(s: Seq<char>, i: int, d: nat, f0: bool, cur: int, fc: bool) -> bool {
    &&& (parse_elements(s, cur, d, fc) matches Some(n2) ==> (parse_elements(s, i, d, f0)
        matches Some(n1) && n1 == (cur - i) + n2))
    &&& (parse_elements(s, cur, d, fc) is None ==> parse_elements(s, i, d, f0) is None)
}

/// Composes the element-parse relation with one further parsed element.
proof fn lemma_elements_tail_step(
    s: Seq<char>,
    i: int,
    d: nat,
    f0: bool,
    cur: int,
    fc: bool,
    nxt: int,
)
    requires
        elements_tail_ok(s, i, d, f0, cur, fc),
        i <= cur <= nxt,
        (parse_elements(s, nxt, d, false) matches Some(n2) ==> (parse_elements(s, cur, d, fc)
            matches Some(n1) && n1 == (nxt - cur) + n2)),
        (parse_elements(s, nxt, d, false) is None ==> parse_elements(s, cur, d, fc) is None),
    ensures
        elements_tail_ok(s, i, d, f0, nxt, false),
{
}

/// Consumed length of one JSON value starting exactly at `i`.
fn parse_value_exec(s: &Vec<char>, i: usize, depth: u32) -> (r: Option<(FieldValue, usize)>)
    requires
        i <= s@.len(),
    ensures
        match r {
            Option::Some(p) => parse_value(s@, i as int, depth as nat) == Option::Some(
                (p.0@, p.1 as nat),
            ) && i + p.1 <= s@.len(),
            Option::None => parse_value(s@, i as int, depth as nat) is None,
        },
    decreases s@.len() - i, 0int,
{
    let slen = s.len();
    if i == slen {
        return Option::None;
    }
    let c = s[i];
    let u = char_code(c);
    if c == '{' {
        if depth == 0 {
            return Option::None;
        }
        match skip_members_exec(s, i + 1, depth - 1, true) {
            Option::Some(n) => Option::Some((FieldValue::Other, n + 1)),
            Option::None => Option::None,
        }
    } else if c == '[' {
        if depth == 0 {
            return Option::None;
        }
        match skip_elements_exec(s, i + 1, depth - 1, true) {
            Option::Some(n) => Option::Some((FieldValue::Other, n + 1)),
            Option::None => Option::None,
        }
    } else if c == '"' {
        match parse_str_exec(s, i + 1) {
            Option::Some(p) => Option::Some((FieldValue::Str(p.0), p.1 + 1)),
            Option::None => Option::None,
        }
    } else if c == '-' || (48 <= u && u <= 57) {
        proof {
            assert(s@[i as int] == '-' || is_digit(s@[i as int]));
        }
        parse_number_exec(s, i)
    } else if word4_exec(s, i, 't', 'r', 'u', 'e') {
        Option::Some((FieldValue::Other, 4))
    } else if word5_exec(s, i, 'f', 'a', 'l', 's', 'e') {
        Option::Some((FieldValue::Other, 5))
    } else if word4_exec(s, i, 'n', 'u', 'l', 'l') {
        Option::Some((FieldValue::Other, 4))
    } else {
        Option::None
    }
}

/// Consumed length of the members of an object from `i` to its closing
/// brace, validating them without keeping them.
fn skip_members_exec(s: &Vec<char>, i: usize, depth: u32, first: bool) -> (r: Option<usize>)
    requires
        i <= s@.len(),
    ensures
        match r {
            Option::Some(n) => (parse_members(s@, i as int, depth as nat, first) matches Some(p)
                && p.1 == n as nat) && i + n <= s@.len(),
            Option::None => parse_members(s@, i as int, depth as nat, first) is None,
        },
    decreases s@.len() - i, 1int,
{
    let slen = s.len();
    let mut cur = i;
    let mut fc = first;
    loop
        invariant
            slen == s@.len(),
            i <= cur <= slen,
            members_tail_ok(s@, i as int, depth as nat, first, cur as int, fc),
        decreases slen - cur,
    {
        let ghost pcur = cur as int;
        let ghost pfc = fc;
        let j = skip_ws_exec(s, cur);
        if j == slen {
            proof {
                assert(parse_members(s@, pcur, depth as nat, pfc) is None);
            }
            return Option::None;
        }
        if fc && s[j] == '}' {
            proof {
                assert(parse_members(s@, pcur, depth as nat, pfc) matches Some(p) && p.1 == j + 1
                    - pcur);
            }
            return Option::Some(j + 1 - i);
        }
        if s[j] != '"' {
            proof {
                assert(parse_members(s@, pcur, depth as nat, pfc) is None);
            }
            return Option::None;
        }
        let kn = match parse_str_exec(s, j + 1) {
            Option::Some(p) => p.1,
            Option::None => {
                proof {
                    assert(parse_members(s@, pcur, depth as nat, pfc) is None);
                }
                return Option::None;
            },
        };
        let cpos = skip_ws_exec(s, j + 1 + kn);
        if cpos == slen || s[cpos] != ':' {
            proof {
                assert(parse_members(s@, pcur, depth as nat, pfc) is None);
            }
            return Option::None;
        }
        let v = skip_ws_exec(s, cpos + 1);
        if v == slen {
            proof {
                assert(parse_members(s@, pcur, depth as nat, pfc) is None);
            }
            return Option::None;
        }
        let vn = match parse_value_exec(s, v, depth) {
            Option::Some(p) => p.1,
            Option::None => {
                proof {
                    assert(parse_members(s@, pcur, depth as nat, pfc) is None);
                }
                return Option::None;
            },
        };
        let e = skip_ws_exec(s, v + vn);
        if e < slen && s[e] == ',' {
            proof {
                lemma_members_tail_step(
                    s@,
                    i as int,
                    depth as nat,
                    first,
                    pcur,
                    pfc,
                    e + 1 as int,
                );
            }
            cur = e + 1;
            fc = false;
        } else if e < slen && s[e] == '}' {
            proof {
                assert(parse_members(s@, pcur, depth as nat, pfc) matches Some(p) && p.1 == e + 1
                    - pcur);
            }
            return Option::Some(e + 1 - i);
        } else {
            proof {
                assert(parse_members(s@, pcur, depth as nat, pfc) is None);
            }
            return Option::None;
        }
    }
}

/// Consumed length of the elements of an array from `i` to its closing
/// bracket, validating them without keeping them.
fn skip_elements_exec(s: &Vec<char>, i: usize, depth: u32, first: bool) -> (r: Option<usize>)
    requires
        i <= s@.len(),
    ensures
        match r {
            Option::Some(n) => (parse_elements(s@, i as int, depth as nat, first) matches Some(m)
                && m == n as nat) && i + n <= s@.len(),
            Option::None => parse_elements(s@, i as int, depth as nat, first) is None,
        },
    decreases s@.len() - i, 1int,
{
    let slen = s.len();
    let mut cur = i;
    let mut fc = first;
    loop
        invariant
            slen == s@.len(),
            i <= cur <= slen,
            elements_tail_ok(s@, i as int, depth as nat, first, cur as int, fc),
        decreases slen - cur,
    {
        let ghost pcur = cur as int;
        let ghost pfc = fc;
        let j = skip_ws_exec(s, cur);
        if j == slen {
            proof {
                assert(parse_elements(s@, pcur, depth as nat, pfc) is None);
            }
            return Option::None;
        }
        if fc && s[j] == ']' {
            proof {
                assert(parse_elements(s@, pcur, depth as nat, pfc) matches Some(n) && n == j + 1
                    - pcur);
            }
            return Option::Some(j + 1 - i);
        }
        let vn = match parse_value_exec(s, j, depth) {
            Option::Some(p) => p.1,
            Option::None => {
                proof {
                    assert(parse_elements(s@, pcur, depth as nat, pfc) is None);
                }
                return Option::None;
            },
        };
        let e = skip_ws_exec(s, j + vn);
        if e < slen && s[e] == ',' {
            proof {
                lemma_elements_tail_step(
                    s@,
                    i as int,
                    depth as nat,
                    first,
                    pcur,
                    pfc,
                    e + 1 as int,
                );
            }
            cur = e + 1;
            fc = false;
        } else if e < slen && s[e] == ']' {
            proof {
                assert(parse_elements(s@, pcur, depth as nat, pfc) matches Some(n) && n == e + 1
                    - pcur);
            }
            return Option::Some(e + 1 - i);
        } else {
            proof {
                assert(parse_elements(s@, pcur, depth as nat, pfc) is None);
            }
            return Option::None;
        }
    }
}

/// Whether `k` is the `status` member key.
fn is_status_key_exec(k: &Vec<char>) -> (r: bool)
    ensures
        r == (k@ == status_key()),
{
    if k.len() == 6 && k[0] == 's' && k[1] == 't' && k[2] == 'a' && k[3] == 't' && k[4] == 'u'
        && k[5] == 's' {
        proof {
            assert(k@ =~= status_key());
        }
        true
    } else {
        proof {
            if k@ == status_key() {
                assert(k@.len() == 6);
                assert(k@[0] == 's' && k@[1] == 't' && k@[2] == 'a' && k@[3] == 't' && k@[4] == 'u'
                    && k@[5] == 's');
                assert(false);
            }
        }
        false
    }
}

/// Whether `k` is the `msg` member key.
fn is_msg_key_exec(k: &Vec<char>) -> (r: bool)
    ensures
        r == (k@ == msg_key()),
{
    if k.len() == 3 && k[0] == 'm' && k[1] == 's' && k[2] == 'g' {
        proof {
            assert(k@ =~= msg_key());
        }
        true
    } else {
        proof {
            if k@ == msg_key() {
                assert(k@.len() == 3);
                assert(k@[0] == 'm' && k@[1] == 's' && k@[2] == 'g');
                assert(false);
            }
        }
        false
    }
}

/// Abstract value of an optional machine integer.
spec fn opt_int_view(o: Option<i64>) -> Option<int> {
    match o {
        Option::Some(n) => Option::Some(n as int),
        Option::None => Option::None,
    }
}

/// Abstract value of an optional character vector.
spec fn opt_chars_view(o: Option<Vec<char>>) -> Option<Seq<char>> {
    match o {
        Option::Some(v) => Option::Some(v@),
        Option::None => Option::None,
    }
}

/// The member parse at `cur` completes the member parse of the top-level
/// object begun at `start`, and folding the members seen so far into the
/// running field state matches `extract_record` on the whole list.
spec fn top_tail_ok(
    s: Seq<char>,
    start: int,
    cur: int,
    fc: bool,
    ss: bool,
    sm: bool,
    st: Option<int>,
    mg: Option<Seq<char>>,
) -> bool {
    let d = (JSON_DEPTH_LIMIT - 1) as nat;
    &&& (parse_members(s, cur, d, fc) matches Some(p2) ==> (parse_members(s, start, d, true)
        matches Some(p1) && p1.1 == (cur - start) + p2.1 && extract_record(
        p1.0,
        false,
        false,
        Option::None,
        Option::None,
    ) == extract_record(p2.0, ss, sm, st, mg)))
    &&& (parse_members(s, cur, d, fc) is None ==> parse_members(s, start, d, true) is None)
}

/// Folding one more member into the running field state keeps the
/// top-level extraction relation.
proof fn lemma_top_step(
    s: Seq<char>,
    start: int,
    cur: int,
    fc: bool,
    ss: bool,
    sm: bool,
    st: Option<int>,
    mg: Option<Seq<char>>,
    key: Seq<char>,
    field: JsonField,
    nxt: int,
    ss2: bool,
    sm2: bool,
    st2: Option<int>,
    mg2: Option<Seq<char>>,
)
    requires
        top_tail_ok(s, start, cur, fc, ss, sm, st, mg),
        start <= cur <= nxt,
        (parse_members(s, nxt, (JSON_DEPTH_LIMIT - 1) as nat, false) matches Some(q) ==> (
        parse_members(s, cur, (JSON_DEPTH_LIMIT - 1) as nat, fc) matches Some(p) && p.0 == seq![
            (key, field),
        ] + q.0 && p.1 == (nxt - cur) + q.1)),
        (parse_members(s, nxt, (JSON_DEPTH_LIMIT - 1) as nat, false) is None ==> parse_members(
            s,
            cur,
            (JSON_DEPTH_LIMIT - 1) as nat,
            fc,
        ) is None),
        if key == status_key() {
            !ss && ss2 && sm2 == sm && mg2 == mg && st2 == (match field {
                JsonField::Int(n) => Option::Some(n),
                _ => Option::<int>::None,
            })
        } else if key == msg_key() {
            !sm && sm2 && ss2 == ss && st2 == st && mg2 == (match field {
                JsonField::Str(t) => Option::Some(t),
                _ => Option::<Seq<char>>::None,
            })
        } else {
            ss2 == ss && sm2 == sm && st2 == st && mg2 == mg
        },
    ensures
        top_tail_ok(s, start, nxt, false, ss2, sm2, st2, mg2),
{
    let d = (JSON_DEPTH_LIMIT - 1) as nat;
    match parse_members(s, nxt, d, false) {
        Option::Some(q) => {
            assert((seq![(key, field)] + q.0)[0] == (key, field));
            assert((seq![(key, field)] + q.0).drop_first() =~= q.0);
            assert(extract_record(seq![(key, field)] + q.0, ss, sm, st, mg) == extract_record(
                q.0,
                ss2,
                sm2,
                st2,
                mg2,
            ));
        },
        Option::None => {
        },
    }
}

/// Decodes an upstream body: accepts one JSON object with nothing but
/// whitespace around it, keeps an integer `status` and a string `msg`
/// member (each at most once, each degraded to absent when of another
/// type), and refuses anything else.
#[verifier::rlimit(100)]
pub fn decode_io_call(body: &str) -> (r: Option<IOCall>)
    ensures
        match r {
            Option::Some(rec) => decode_record_spec(body@) == Option::Some(rec@),
            Option::None => decode_record_spec(body@) is None,
        },
{
    let s = str_to_chars(body);
    let slen = s.len();
    let j = skip_ws_exec(&s, 0);
    if j == slen || s[j] != '{' {
        return Option::None;
    }
    let depth: u32 = JSON_DEPTH_LIMIT - 1;
    let start = j + 1;
    let mut cur = start;
    let mut fc = true;
    let mut seen_status = false;
    let mut seen_msg = false;
    let mut status: Option<i64> = Option::None;
    let mut msg: Option<Vec<char>> = Option::None;
    loop
        invariant
            s@ == body@,
            slen == s@.len(),
            0 <= j < slen,
            j == skip_ws(s@, 0),
            s@[j as int] == '{',
            start == j + 1,
            depth == JSON_DEPTH_LIMIT - 1,
            start <= cur <= slen,
            top_tail_ok(
                s@,
                start as int,
                cur as int,
                fc,
                seen_status,
                seen_msg,
                opt_int_view(status),
                opt_chars_view(msg),
            ),
        decreases slen - cur,
    {
        let ghost pcur = cur as int;
        let ghost pfc = fc;
        let ghost d = (JSON_DEPTH_LIMIT - 1) as nat;
        let jj = skip_ws_exec(&s, cur);
        if jj == slen {
            proof {
                assert(parse_members(s@, pcur, d, pfc) is None);
            }
            return Option::None;
        }
        if fc && s[jj] == '}' {
            proof {
                assert(parse_members(s@, pcur, d, pfc) matches Some(p) && p.0
                    == Seq::<(Seq<char>, JsonField)>::empty() && p.1 == jj + 1 - pcur);
            }
            let t = skip_ws_exec(&s, jj + 1);
            if t != slen {
                return Option::None;
            }
            let built = match msg {
                Option::Some(v) => Option::Some(chars_to_string(&v)),
                Option::None => Option::None,
            };
            let rec = IOCall { status, msg: built };
            return Option::Some(rec);
        }
        if s[jj] != '"' {
            proof {
                assert(parse_members(s@, pcur, d, pfc) is None);
            }
            return Option::None;
        }
        let (key, kn) = match parse_str_exec(&s, jj + 1) {
            Option::Some(p) => p,
            Option::None => {
                proof {
                    assert(parse_members(s@, pcur, d, pfc) is None);
                }
                return Option::None;
            },
        };
        let cpos = skip_ws_exec(&s, jj + 1 + kn);
        if cpos == slen || s[cpos] != ':' {
            proof {
                assert(parse_members(s@, pcur, d, pfc) is None);
            }
            return Option::None;
        }
        let v = skip_ws_exec(&s, cpos + 1);
        if v == slen {
            proof {
                assert(parse_members(s@, pcur, d, pfc) is None);
            }
            return Option::None;
        }
        let (fval, vn) = match parse_value_exec(&s, v, depth) {
            Option::Some(p) => p,
            Option::None => {
                proof {
                    assert(parse_members(s@, pcur, d, pfc) is None);
                }
                return Option::None;
            },
        };
        let e = skip_ws_exec(&s, v + vn);
        let closing = if e < slen && s[e] == '}' {
            true
        } else if e < slen && s[e] == ',' {
            false
        } else {
            proof {
                assert(parse_members(s@, pcur, d, pfc) is None);
            }
            return Option::None;
        };
        // fold the member into the running field state
        let ghost gf = fval@;
        let ghost oss = seen_status;
        let ghost osm = seen_msg;
        let ghost ost = opt_int_view(status);
        let ghost omg = opt_chars_view(msg);
        if is_status_key_exec(&key) {
            if seen_status {
                proof {
                    lemma_duplicate_refuses(s@, start as int, pcur, pfc, oss, osm, ost, omg, key@);
                }
                return Option::None;
            }
            seen_status = true;
            status = match &fval {
                FieldValue::Int(n) => Option::Some(*n),
                _ => Option::None,
            };
        } else if is_msg_key_exec(&key) {
            if seen_msg {
                proof {
                    lemma_duplicate_refuses(s@, start as int, pcur, pfc, oss, osm, ost, omg, key@);
                }
                return Option::None;
            }
            seen_msg = true;
            msg = match fval {
                FieldValue::Str(t) => Option::Some(t),
                _ => Option::None,
            };
        }
        if closing {
            proof {
                assert(parse_members(s@, pcur, d, pfc) matches Some(p) && p.0 == seq![
                    (key@, gf),
                ] && p.1 == e + 1 - pcur);
                assert(seq![(key@, gf)].drop_first() =~= Seq::<(Seq<char>, JsonField)>::empty());
                assert(extract_record(
                    seq![(key@, gf)],
                    oss,
                    osm,
                    ost,
                    omg,
                ) == extract_record(
                    Seq::<(Seq<char>, JsonField)>::empty(),
                    seen_status,
                    seen_msg,
                    opt_int_view(status),
                    opt_chars_view(msg),
                ));
            }
            let t = skip_ws_exec(&s, e + 1);
            if t != slen {
                return Option::None;
            }
            let built = match msg {
                Option::Some(v2) => Option::Some(chars_to_string(&v2)),
                Option::None => Option::None,
            };
            let rec = IOCall { status, msg: built };
            return Option::Some(rec);
        } else {
            proof {
                lemma_top_step(
                    s@,
                    start as int,
                    pcur,
                    pfc,
                    oss,
                    osm,
                    ost,
                    omg,
                    key@,
                    gf,
                    e + 1 as int,
                    seen_status,
                    seen_msg,
                    opt_int_view(status),
                    opt_chars_view(msg),
                );
            }
            cur = e + 1;
            fc = false;
        }
    }
}

/// A repeated `status` or `msg` key refuses the whole document, whatever
/// follows it.
proof fn lemma_duplicate_refuses(
    s: Seq<char>,
    start: int,
    cur: int,
    fc: bool,
    ss: bool,
    sm: bool,
    st: Option<int>,
    mg: Option<Seq<char>>,
    key: Seq<char>,
)
    requires
        top_tail_ok(s, start, cur, fc, ss, sm, st, mg),
        (key == status_key() && ss) || (key == msg_key() && sm),
        parse_members(s, cur, (JSON_DEPTH_LIMIT - 1) as nat, fc) matches Some(p) ==> p.0.len() > 0
            && p.0[0].0 == key,
    ensures
        parse_members(s, start, (JSON_DEPTH_LIMIT - 1) as nat, true) matches Some(p1) ==>
            extract_record(p1.0, false, false, Option::None, Option::None) is None,
        parse_members(s, cur, (JSON_DEPTH_LIMIT - 1) as nat, fc) is None ==> parse_members(
            s,
            start,
            (JSON_DEPTH_LIMIT - 1) as nat,
            true,
        ) is None,
{
    let d = (JSON_DEPTH_LIMIT - 1) as nat;
    match parse_members(s, cur, d, fc) {
        Option::Some(p2) => {
            assert(extract_record(p2.0, ss, sm, st, mg) is None);
        },
        Option::None => {
        },
    }
}

} // verus!
