//! Mathematical model of the relay's wire format.
//!
//! The proxy route decodes the upstream's body as a JSON object and keeps
//! two fields of it: an integer `status` and a string `msg`, both
//! optional. This module defines the JSON grammar the decoder accepts as
//! recursive spec functions over character sequences, the extraction of
//! the two fields from a parsed object, and the serialization of the
//! resulting record back to JSON text. The executable codec in
//! `decode` and `encode` is proved against these definitions.

use vstd::prelude::*;

verus! {

/// Nesting depth of objects and arrays the decoder accepts before
/// refusing the document.
pub const JSON_DEPTH_LIMIT: u32 = 128;

/// What the decoder keeps of one JSON value: an integer in `i64` range,
/// a string, or anything else (degraded, since only integer `status` and
/// string `msg` values are ever used).
pub enum JsonField {
    Int(int),
    Str(Seq<char>),
    Other,
}

/// Abstract value of the relay record: decoded `status` and `msg` fields.
pub struct RecordView {
    pub status: Option<int>,
    pub msg: Option<Seq<char>>,
}

/// JSON insignificant whitespace.
pub open spec fn is_ws(c: char) -> bool {
    c == ' ' || c == '\t' || c == '\n' || c == '\r'
}

/// ASCII decimal digit.
pub open spec fn is_digit(c: char) -> bool {
    '0' <= c && c <= '9'
}

/// Numeric value of a decimal digit.
pub open spec fn digit_val(c: char) -> int {
    c as int - '0' as int
}

/// Number of consecutive whitespace characters of `s` starting at `i`.
pub open spec fn ws_count(s: Seq<char>, i: int) -> nat
    decreases s.len() - i,
{
    if 0 <= i < s.len() && is_ws(s[i]) {
        (1 + ws_count(s, i + 1)) as nat
    } else {
        0
    }
}

/// First position at or after `i` that holds no whitespace.
pub open spec fn skip_ws(s: Seq<char>, i: int) -> int {
    i + ws_count(s, i)
}

/// Number of consecutive decimal digits of `s` starting at `i`.
pub open spec fn digit_count(s: Seq<char>, i: int) -> nat
    decreases s.len() - i,
{
    if 0 <= i < s.len() && is_digit(s[i]) {
        (1 + digit_count(s, i + 1)) as nat
    } else {
        0
    }
}

/// Value of the `n` decimal digits of `s` starting at `i`.
pub open spec fn digits_val(s: Seq<char>, i: int, n: nat) -> int
    decreases n,
{
    if n == 0 {
        0
    } else {
        digits_val(s, i, (n - 1) as nat) * 10 + digit_val(s[i + n - 1])
    }
}

/// Value of a hexadecimal digit, or `None` for any other character.
pub open spec fn hex_val(c: char) -> Option<int> {
    if is_digit(c) {
        Option::Some(digit_val(c))
    } else if 'a' <= c && c <= 'f' {
        Option::Some(c as int - 'a' as int + 10)
    } else if 'A' <= c && c <= 'F' {
        Option::Some(c as int - 'A' as int + 10)
    } else {
        Option::None
    }
}

/// Value of the four hexadecimal digits of `s` starting at `i`, or `None`
/// if `s` does not hold four such digits there.
pub open spec fn hex4(s: Seq<char>, i: int) -> Option<int> {
    if i + 4 <= s.len() {
        match (hex_val(s[i]), hex_val(s[i + 1]), hex_val(s[i + 2]), hex_val(s[i + 3])) {
            (Option::Some(a), Option::Some(b), Option::Some(c), Option::Some(d)) => Option::Some(
                a * 0x1000 + b * 0x100 + c * 0x10 + d,
            ),
            _ => Option::None,
        }
    } else {
        Option::None
    }
}

/// The character a single-character escape stands for, or `None` if the
/// escape is invalid.
pub open spec fn escape_char(c: char) -> Option<char> {
    if c == '"' {
        Option::Some('"')
    } else if c == '\\' {
        Option::Some('\\')
    } else if c == '/' {
        Option::Some('/')
    } else if c == 'b' {
        Option::Some('\u{8}')
    } else if c == 'f' {
        Option::Some('\u{c}')
    } else if c == 'n' {
        Option::Some('\n')
    } else if c == 'r' {
        Option::Some('\r')
    } else if c == 't' {
        Option::Some('\t')
    } else {
        Option::None
    }
}

/// Unicode scalar value as a character. Meaningful only for code points
/// that are no surrogates and at most 0x10FFFF.
pub open spec fn char_of(code: int) -> char {
    (code as u32) as char
}

/// Content and consumed length of a JSON string whose opening quote
/// stands just before `i`: the decoded characters, and how many input
/// characters were consumed including the closing quote. `None` on an
/// unterminated string, an invalid escape, a lone surrogate, or an
/// unescaped control character.
pub open spec fn parse_str_body(s: Seq<char>, i: int) -> Option<(Seq<char>, nat)>
    decreases s.len() - i,
{
    if i < 0 || i >= s.len() {
        Option::None
    } else if s[i] == '"' {
        Option::Some((Seq::empty(), 1))
    } else if s[i] == '\\' {
        if i + 1 >= s.len() {
            Option::None
        } else if s[i + 1] == 'u' {
            match hex4(s, i + 2) {
                Option::None => Option::None,
                Option::Some(h) => if 0xD800 <= h < 0xDC00 {
                    // a high surrogate must pair with a following low one
                    if i + 8 <= s.len() && s[i + 6] == '\\' && s[i + 7] == 'u' {
                        match hex4(s, i + 8) {
                            Option::Some(l) => if 0xDC00 <= l < 0xE000 {
                                match parse_str_body(s, i + 12) {
                                    Option::Some((t, n)) => Option::Some(
                                        (
                                            seq![
                                                char_of(
                                                    0x10000 + (h - 0xD800) * 0x400 + (l - 0xDC00),
                                                ),
                                            ] + t,
                                            n + 12,
                                        ),
                                    ),
                                    Option::None => Option::None,
                                }
                            } else {
                                Option::None
                            },
                            Option::None => Option::None,
                        }
                    } else {
                        Option::None
                    }
                } else if 0xDC00 <= h < 0xE000 {
                    Option::None
                } else {
                    match parse_str_body(s, i + 6) {
                        Option::Some((t, n)) => Option::Some((seq![char_of(h)] + t, n + 6)),
                        Option::None => Option::None,
                    }
                },
            }
        } else {
            match escape_char(s[i + 1]) {
                Option::None => Option::None,
                Option::Some(c) => match parse_str_body(s, i + 2) {
                    Option::Some((t, n)) => Option::Some((seq![c] + t, n + 2)),
                    Option::None => Option::None,
                },
            }
        }
    } else if (s[i] as int) < 0x20 {
        Option::None
    } else {
        match parse_str_body(s, i + 1) {
            Option::Some((t, n)) => Option::Some((seq![s[i]] + t, n + 1)),
            Option::None => Option::None,
        }
    }
}

/// Field value and consumed length of a JSON number starting at `i`
/// (`s[i]` is `-` or a digit). The value is kept only for a pure integer
/// literal in `i64` range; a fraction, an exponent or an overflowing
/// integer degrades to `Other`. `None` on a malformed literal, including
/// a redundant leading zero.
pub open spec fn parse_number(s: Seq<char>, i: int) -> Option<(JsonField, nat)> {
    let p = if s[i] == '-' {
        i + 1
    } else {
        i
    };
    let icount = digit_count(s, p);
    if !(0 <= p < s.len() && is_digit(s[p])) {
        Option::None
    } else if s[p] == '0' && icount > 1 {
        Option::None
    } else {
        let after_int = p + icount;
        let fcount = if after_int < s.len() && s[after_int] == '.' {
            digit_count(s, after_int + 1)
        } else {
            0
        };
        if after_int < s.len() && s[after_int] == '.' && fcount == 0 {
            Option::None
        } else {
            let after_frac = if after_int < s.len() && s[after_int] == '.' {
                after_int + 1 + fcount
            } else {
                after_int
            };
            let has_frac = after_frac != after_int;
            if after_frac < s.len() && (s[after_frac] == 'e' || s[after_frac] == 'E') {
                let ep = if after_frac + 1 < s.len() && (s[after_frac + 1] == '+' || s[after_frac
                    + 1] == '-') {
                    after_frac + 2
                } else {
                    after_frac + 1
                };
                let ecount = digit_count(s, ep);
                if ecount == 0 {
                    Option::None
                } else {
                    Option::Some((JsonField::Other, (ep + ecount - i) as nat))
                }
            } else {
                let v = if s[i] == '-' {
                    -digits_val(s, p, icount)
                } else {
                    digits_val(s, p, icount)
                };
                let field = if !has_frac && -0x8000_0000_0000_0000 <= v < 0x8000_0000_0000_0000 {
                    JsonField::Int(v)
                } else {
                    JsonField::Other
                };
                Option::Some((field, (after_frac - i) as nat))
            }
        }
    }
}

/// Whether `s` holds the word `w` starting at `i`.
pub open spec fn has_word(s: Seq<char>, i: int, w: Seq<char>) -> bool {
    i + w.len() <= s.len() && s.subrange(i, i + w.len()) == w
}

/// Field value and consumed length of one JSON value starting exactly at
/// `i` (no leading whitespace), parsing objects and arrays no deeper than
/// `depth` further levels.
pub open spec fn parse_value(s: Seq<char>, i: int, depth: nat) -> Option<(JsonField, nat)>
    decreases s.len() - i, 0int,
{
    if i < 0 || i >= s.len() {
        Option::None
    } else if s[i] == '{' {
        if depth == 0 {
            Option::None
        } else {
            match parse_members(s, i + 1, (depth - 1) as nat, true) {
                Option::Some((_, n)) => Option::Some((JsonField::Other, n + 1)),
                Option::None => Option::None,
            }
        }
    } else if s[i] == '[' {
        if depth == 0 {
            Option::None
        } else {
            match parse_elements(s, i + 1, (depth - 1) as nat, true) {
                Option::Some(n) => Option::Some((JsonField::Other, n + 1)),
                Option::None => Option::None,
            }
        }
    } else if s[i] == '"' {
        match parse_str_body(s, i + 1) {
            Option::Some((t, n)) => Option::Some((JsonField::Str(t), n + 1)),
            Option::None => Option::None,
        }
    } else if s[i] == '-' || is_digit(s[i]) {
        parse_number(s, i)
    } else if has_word(s, i, seq!['t', 'r', 'u', 'e']) {
        Option::Some((JsonField::Other, 4))
    } else if has_word(s, i, seq!['f', 'a', 'l', 's', 'e']) {
        Option::Some((JsonField::Other, 5))
    } else if has_word(s, i, seq!['n', 'u', 'l', 'l']) {
        Option::Some((JsonField::Other, 4))
    } else {
        Option::None
    }
}

/// Members of a JSON object from position `i` (just after `{` when
/// `first` is true, just after `,` otherwise) to its closing `}`:
/// the member list and the consumed length including the brace.
pub open spec fn parse_members(s: Seq<char>, i: int, depth: nat, first: bool) -> Option<
    (Seq<(Seq<char>, JsonField)>, nat),
>
    decreases s.len() - i, 1int,
{
    let j = skip_ws(s, i);
    if j >= s.len() {
        Option::None
    } else if first && s[j] == '}' {
        Option::Some((Seq::empty(), (j + 1 - i) as nat))
    } else if s[j] != '"' {
        Option::None
    } else {
        match parse_str_body(s, j + 1) {
            Option::None => Option::None,
            Option::Some((key, kn)) => {
                let c = skip_ws(s, j + 1 + kn);
                if !(c < s.len() && s[c] == ':') {
                    Option::None
                } else {
                    let v = skip_ws(s, c + 1);
                    if v >= s.len() {
                        Option::None
                    } else {
                        match parse_value(s, v, depth) {
                            Option::None => Option::None,
                            Option::Some((field, vn)) => {
                                let e = skip_ws(s, v + vn);
                                if e < s.len() && s[e] == ',' {
                                    match parse_members(s, e + 1, depth, false) {
                                        Option::None => Option::None,
                                        Option::Some((rest, rn)) => Option::Some(
                                            (seq![(key, field)] + rest, (e + 1 - i) as nat + rn),
                                        ),
                                    }
                                } else if e < s.len() && s[e] == '}' {
                                    Option::Some((seq![(key, field)], (e + 1 - i) as nat))
                                } else {
                                    Option::None
                                }
                            },
                        }
                    }
                }
            },
        }
    }
}

/// Consumed length of the elements of a JSON array from position `i`
/// (just after `[` when `first` is true, just after `,` otherwise) to its
/// closing `]`, including the bracket.
pub open spec fn parse_elements(s: Seq<char>, i: int, depth: nat, first: bool) -> Option<nat>
    decreases s.len() - i, 1int,
{
    let j = skip_ws(s, i);
    if j >= s.len() {
        Option::None
    } else if first && s[j] == ']' {
        Option::Some((j + 1 - i) as nat)
    } else {
        match parse_value(s, j, depth) {
            Option::None => Option::None,
            Option::Some((_, vn)) => {
                let e = skip_ws(s, j + vn);
                if e < s.len() && s[e] == ',' {
                    match parse_elements(s, e + 1, depth, false) {
                        Option::None => Option::None,
                        Option::Some(rn) => Option::Some((e + 1 - i) as nat + rn),
                    }
                } else if e < s.len() && s[e] == ']' {
                    Option::Some((e + 1 - i) as nat)
                } else {
                    Option::None
                }
            },
        }
    }
}

/// The `status` member key.
pub open spec fn status_key() -> Seq<char> {
    seq!['s', 't', 'a', 't', 'u', 's']
}

/// The `msg` member key.
pub open spec fn msg_key() -> Seq<char> {
    seq!['m', 's', 'g']
}

/// Folds the members of the top-level object into the record. A repeated
/// `status` or `msg` key refuses the document; unknown keys are ignored;
/// a `status` that is no integer and a `msg` that is no string degrade to
/// an absent field.
pub open spec fn extract_record(
    ms: Seq<(Seq<char>, JsonField)>,
    seen_status: bool,
    seen_msg: bool,
    status: Option<int>,
    msg: Option<Seq<char>>,
) -> Option<RecordView>
    decreases ms.len(),
{
    if ms.len() == 0 {
        Option::Some(RecordView { status, msg })
    } else {
        let (key, field) = ms[0];
        if key == status_key() {
            if seen_status {
                Option::None
            } else {
                extract_record(
                    ms.drop_first(),
                    true,
                    seen_msg,
                    match field {
                        JsonField::Int(n) => Option::Some(n),
                        _ => Option::None,
                    },
                    msg,
                )
            }
        } else if key == msg_key() {
            if seen_msg {
                Option::None
            } else {
                extract_record(
                    ms.drop_first(),
                    seen_status,
                    true,
                    status,
                    match field {
                        JsonField::Str(t) => Option::Some(t),
                        _ => Option::None,
                    },
                )
            }
        } else {
            extract_record(ms.drop_first(), seen_status, seen_msg, status, msg)
        }
    }
}

/// What decoding an upstream body yields: the record, or `None` when the
/// text is no single JSON object with nothing but whitespace around it.
pub open spec fn decode_record_spec(s: Seq<char>) -> Option<RecordView> {
    let j = skip_ws(s, 0);
    if j < s.len() && s[j] == '{' {
        match parse_members(s, j + 1, (JSON_DEPTH_LIMIT - 1) as nat, true) {
            Option::None => Option::None,
            Option::Some((ms, n)) => if skip_ws(s, j + 1 + n) == s.len() {
                extract_record(ms, false, false, Option::None, Option::None)
            } else {
                Option::None
            },
        }
    } else {
        Option::None
    }
}

/// Lower-case hexadecimal digit for a value below 16.
pub open spec fn hex_digit(v: int) -> char {
    if v == 0 {
        '0'
    } else if v == 1 {
        '1'
    } else if v == 2 {
        '2'
    } else if v == 3 {
        '3'
    } else if v == 4 {
        '4'
    } else if v == 5 {
        '5'
    } else if v == 6 {
        '6'
    } else if v == 7 {
        '7'
    } else if v == 8 {
        '8'
    } else if v == 9 {
        '9'
    } else if v == 10 {
        'a'
    } else if v == 11 {
        'b'
    } else if v == 12 {
        'c'
    } else if v == 13 {
        'd'
    } else if v == 14 {
        'e'
    } else {
        'f'
    }
}

/// Decimal digits of a non-negative integer, most significant first.
pub open spec fn int_digits(n: int) -> Seq<char>
    decreases n,
{
    if n < 10 {
        seq![hex_digit(n)]
    } else {
        int_digits(n / 10).push(hex_digit(n % 10))
    }
}

/// Decimal text of an integer, with a leading minus sign when negative.
pub open spec fn int_chars(n: int) -> Seq<char> {
    if n < 0 {
        seq!['-'] + int_digits(-n)
    } else {
        int_digits(n)
    }
}

/// Serialization of one string character: quote, backslash and control
/// characters are escaped, every other character stands as itself.
pub open spec fn escape_of(c: char) -> Seq<char> {
    if c == '"' {
        seq!['\\', '"']
    } else if c == '\\' {
        seq!['\\', '\\']
    } else if c == '\u{8}' {
        seq!['\\', 'b']
    } else if c == '\t' {
        seq!['\\', 't']
    } else if c == '\n' {
        seq!['\\', 'n']
    } else if c == '\u{c}' {
        seq!['\\', 'f']
    } else if c == '\r' {
        seq!['\\', 'r']
    } else if (c as int) < 0x20 {
        seq!['\\', 'u', '0', '0', hex_digit(c as int / 16), hex_digit(c as int % 16)]
    } else {
        seq![c]
    }
}

/// Serialization of the content of a JSON string.
pub open spec fn escape_str(t: Seq<char>) -> Seq<char>
    decreases t.len(),
{
    if t.len() == 0 {
        Seq::empty()
    } else {
        escape_of(t[0]) + escape_str(t.drop_first())
    }
}

/// The word `null`.
pub open spec fn null_chars() -> Seq<char> {
    seq!['n', 'u', 'l', 'l']
}

/// Serialization of the optional `status` field value.
pub open spec fn status_value_chars(status: Option<int>) -> Seq<char> {
    match status {
        Option::Some(n) => int_chars(n),
        Option::None => null_chars(),
    }
}

/// Serialization of the optional `msg` field value.
pub open spec fn msg_value_chars(msg: Option<Seq<char>>) -> Seq<char> {
    match msg {
        Option::Some(t) => seq!['"'] + escape_str(t) + seq!['"'],
        Option::None => null_chars(),
    }
}

/// Serialization of the whole record: a two-member JSON object with the
/// fields in declaration order and `null` for an absent field.
pub open spec fn encode_record_spec(v: RecordView) -> Seq<char> {
    seq!['{', '"', 's', 't', 'a', 't', 'u', 's', '"', ':'] + status_value_chars(v.status) + seq![
        ',',
        '"',
        'm',
        's',
        'g',
        '"',
        ':',
    ] + msg_value_chars(v.msg) + seq!['}']
}

} // verus!
