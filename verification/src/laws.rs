//! Round-trip law of the wire format: decoding a serialized record gives
//! the record back.

use crate::json::{
    decode_record_spec,
    digit_count,
    digit_val,
    digits_val,
    encode_record_spec,
    escape_char,
    escape_of,
    escape_str,
    extract_record,
    has_word,
    hex4,
    hex_digit,
    hex_val,
    int_chars,
    int_digits,
    is_digit,
    is_ws,
    msg_key,
    msg_value_chars,
    null_chars,
    parse_members,
    parse_number,
    parse_str_body,
    parse_value,
    skip_ws,
    status_key,
    status_value_chars,
    ws_count,
    JsonField,
    RecordView,
    JSON_DEPTH_LIMIT,
};
use vstd::arithmetic::div_mod::lemma_fundamental_div_mod;
use vstd::prelude::*;

verus! {

/// `hex_digit` writes digits that `hex_val` and `digit_val` read back.
proof fn lemma_hex_digit_val(k: int)
    requires
        0 <= k < 16,
    ensures
        hex_val(hex_digit(k)) == Option::Some(k),
        k < 10 ==> is_digit(hex_digit(k)) && digit_val(hex_digit(k)) == k,
        k >= 10 ==> !is_digit(hex_digit(k)),
{
}

/// Decimal text of a non-negative integer: at least one character, all
/// digits, and no redundant leading zero.
proof fn lemma_int_digits_shape(n: int)
    requires
        n >= 0,
    ensures
        int_digits(n).len() >= 1,
        forall|k: int| 0 <= k < int_digits(n).len() ==> is_digit(#[trigger] int_digits(n)[k]),
        n >= 1 ==> int_digits(n)[0] != '0',
        n == 0 ==> int_digits(n) == seq!['0'],
    decreases n,
{
    if n < 10 {
        lemma_hex_digit_val(n);
    } else {
        lemma_int_digits_shape(n / 10);
        lemma_hex_digit_val(n % 10);
        assert forall|k: int| 0 <= k < int_digits(n).len() implies is_digit(
            #[trigger] int_digits(n)[k],
        ) by {
            if k < int_digits(n / 10).len() {
                assert(int_digits(n)[k] == int_digits(n / 10)[k]);
            }
        }
        assert(int_digits(n)[0] == int_digits(n / 10)[0]);
    }
}

/// A run of `m` digits followed by a non-digit has digit count `m`.
proof fn lemma_digit_count_exact(s: Seq<char>, i: int, m: int)
    requires
        0 <= i,
        0 <= m,
        i + m <= s.len(),
        forall|k: int| 0 <= k < m ==> is_digit(#[trigger] s[i + k]),
        i + m == s.len() || !is_digit(s[i + m]),
    ensures
        digit_count(s, i) == m,
    decreases m,
{
    if m == 0 {
        assert(digit_count(s, i) == 0);
    } else {
        assert(is_digit(s[i + 0]));
        assert forall|k: int| 0 <= k < m - 1 implies is_digit(#[trigger] s[(i + 1) + k]) by {
            assert(is_digit(s[i + (k + 1)]));
        }
        lemma_digit_count_exact(s, i + 1, m - 1);
    }
}

/// Reading back the decimal digits of `n` yields `n`.
proof fn lemma_digits_val_exact(s: Seq<char>, i: int, n: int)
    requires
        0 <= i,
        n >= 0,
        i + int_digits(n).len() <= s.len(),
        s.subrange(i, i + int_digits(n).len()) == int_digits(n),
    ensures
        digits_val(s, i, int_digits(n).len() as nat) == n,
    decreases n,
{
    let m = int_digits(n).len();
    if n < 10 {
        lemma_hex_digit_val(n);
        assert(s.subrange(i, i + 1)[0] == s[i]);
        assert(digits_val(s, i, 0nat) == 0);
        assert(digits_val(s, i, 1nat) == digits_val(s, i, 0nat) * 10 + digit_val(s[i + 0]));
    } else {
        let m0 = int_digits(n / 10).len();
        assert(int_digits(n) == int_digits(n / 10).push(hex_digit(n % 10)));
        assert(m == m0 + 1);
        assert(s.subrange(i, i + m0) =~= int_digits(n / 10)) by {
            assert forall|k: int| 0 <= k < m0 implies #[trigger] s.subrange(i, i + m0)[k] == int_digits(
                n / 10,
            )[k] by {
                assert(s.subrange(i, i + m)[k] == s[i + k]);
                assert(int_digits(n)[k] == int_digits(n / 10)[k]);
            }
        }
        lemma_digits_val_exact(s, i, n / 10);
        lemma_hex_digit_val(n % 10);
        assert(s.subrange(i, i + m)[m - 1] == s[i + m - 1]);
        assert(s[i + m - 1] == hex_digit(n % 10));
        assert(digits_val(s, i, m as nat) == digits_val(s, i, m0 as nat) * 10 + digit_val(
            s[i + m - 1],
        ));
        lemma_fundamental_div_mod(n, 10);
    }
}

/// A serialized integer followed by a comma parses back to that integer.
proof fn lemma_parse_int(s: Seq<char>, i: int, n: int)
    requires
        0 <= i,
        -0x8000_0000_0000_0000 <= n < 0x8000_0000_0000_0000,
        i + int_chars(n).len() < s.len(),
        s.subrange(i, i + int_chars(n).len()) == int_chars(n),
        s[i + int_chars(n).len()] == ',',
    ensures
        parse_number(s, i) == Option::Some((JsonField::Int(n), int_chars(n).len() as nat)),
{
    let ic = int_chars(n);
    let l = ic.len();
    let a = if n < 0 {
        -n
    } else {
        n
    };
    let dl = int_digits(a).len();
    lemma_int_digits_shape(a);
    assert forall|k: int| 0 <= k < l implies #[trigger] s[i + k] == ic[k] by {
        assert(s.subrange(i, i + l)[k] == s[i + k]);
    }
    let p = if n < 0 {
        i + 1
    } else {
        i
    };
    assert(s.subrange(i, i + l)[0] == s[i]);
    if n < 0 {
        assert(s[i] == ic[0]);
        assert(ic[0] == '-');
        assert forall|k: int| 0 <= k < dl implies is_digit(#[trigger] s[p + k]) by {
            assert(s.subrange(i, i + l)[1 + k] == s[i + (1 + k)]);
            assert(ic[1 + k] == int_digits(a)[k]);
        }
    } else {
        assert(s[i] == ic[0]);
        assert(ic[0] == int_digits(a)[0]);
        assert(is_digit(s[i]));
        assert(s[i] != '-');
        assert forall|k: int| 0 <= k < dl implies is_digit(#[trigger] s[p + k]) by {
            assert(s.subrange(i, i + l)[k] == s[i + k]);
            assert(ic[k] == int_digits(a)[k]);
        }
    }
    assert(p + dl == i + l);
    assert(s[p + dl] == ',');
    assert(!is_digit(s[p + dl]));
    lemma_digit_count_exact(s, p, dl as int);
    assert(s.subrange(p, p + dl) =~= int_digits(a)) by {
        assert forall|k: int| 0 <= k < dl implies #[trigger] s.subrange(p, p + dl)[k] == int_digits(a)[k] by {
            assert(s.subrange(p, p + dl)[k] == s[p + k]);
            if n < 0 {
                assert(ic[1 + k] == int_digits(a)[k]);
            } else {
                assert(ic[k] == int_digits(a)[k]);
            }
        }
    }
    lemma_digits_val_exact(s, p, a);
    if a >= 1 {
        assert(s[p] == int_digits(a)[0]);
    }
}

/// Characters that the serializer leaves unescaped serialize to
/// themselves.
proof fn lemma_escape_plain(t: Seq<char>)
    requires
        forall|k: int|
            0 <= k < t.len() ==> (#[trigger] t[k]) != '"' && t[k] != '\\' && (t[k] as int) >= 0x20,
    ensures
        escape_str(t) == t,
    decreases t.len(),
{
    if t.len() == 0 {
        assert(escape_str(t) =~= t);
    } else {
        assert(t[0] != '"' && t[0] != '\\' && (t[0] as int) >= 0x20);
        assert(escape_of(t[0]) == seq![t[0]]);
        lemma_escape_plain(t.drop_first());
        assert(escape_str(t) =~= t);
    }
}

/// A serialized string content followed by a closing quote parses back to
/// that content.
proof fn lemma_parse_escaped(s: Seq<char>, i: int, m: Seq<char>)
    requires
        0 <= i,
        i + escape_str(m).len() < s.len(),
        s.subrange(i, i + escape_str(m).len()) == escape_str(m),
        s[i + escape_str(m).len()] == '"',
    ensures
        parse_str_body(s, i) == Option::Some((m, (escape_str(m).len() + 1) as nat)),
    decreases m.len(),
{
    let es = escape_str(m);
    let l = es.len();
    assert forall|k: int| 0 <= k < l implies #[trigger] s[i + k] == es[k] by {
        assert(s.subrange(i, i + l)[k] == s[i + k]);
    }
    if m.len() == 0 {
        assert(s[i] == '"');
        assert(parse_str_body(s, i) == Option::Some((Seq::<char>::empty(), 1nat)));
        assert(m =~= Seq::<char>::empty());
    } else {
        let c = m[0];
        let e0 = escape_of(c);
        let rest = m.drop_first();
        let rl = escape_str(rest).len();
        assert(es == e0 + escape_str(rest));
        assert(l == e0.len() + rl);
        assert forall|k: int| 0 <= k < e0.len() implies s[i + k] == #[trigger] e0[k] by {
            assert(s.subrange(i, i + l)[k] == s[i + k]);
            assert(es[k] == (e0 + escape_str(rest))[k]);
        }
        let i2 = i + e0.len();
        assert(s.subrange(i2, i2 + rl) =~= escape_str(rest)) by {
            assert forall|k: int| 0 <= k < rl implies #[trigger] s.subrange(i2, i2 + rl)[k] == escape_str(
                rest,
            )[k] by {
                assert(s.subrange(i2, i2 + rl)[k] == s[i2 + k]);
                assert(s[i2 + k] == es[e0.len() + k]);
            }
        }
        assert(s[i2 + rl] == '"');
        lemma_parse_escaped(s, i2, rest);
        assert(m =~= seq![c] + rest);
        if c == '"' {
            assert(e0[0] == '\\' && e0[1] == '"');
            assert(s[i] == '\\' && s[i + 1] == '"');
            assert(escape_char(s[i + 1]) == Option::Some('"'));
        } else if c == '\\' {
            assert(e0[0] == '\\' && e0[1] == '\\');
            assert(s[i] == '\\' && s[i + 1] == '\\');
        } else if c == '\u{8}' {
            assert(e0[0] == '\\' && e0[1] == 'b');
            assert(s[i] == '\\' && s[i + 1] == 'b');
        } else if c == '\t' {
            assert(e0[0] == '\\' && e0[1] == 't');
            assert(s[i] == '\\' && s[i + 1] == 't');
        } else if c == '\n' {
            assert(e0[0] == '\\' && e0[1] == 'n');
            assert(s[i] == '\\' && s[i + 1] == 'n');
        } else if c == '\u{c}' {
            assert(e0[0] == '\\' && e0[1] == 'f');
            assert(s[i] == '\\' && s[i + 1] == 'f');
        } else if c == '\r' {
            assert(e0[0] == '\\' && e0[1] == 'r');
            assert(s[i] == '\\' && s[i + 1] == 'r');
        } else if (c as int) < 0x20 {
            let code = c as int;
            lemma_char_range(c);
            assert(e0[0] == '\\' && e0[1] == 'u' && e0[2] == '0' && e0[3] == '0' && e0[4]
                == hex_digit(code / 16) && e0[5] == hex_digit(code % 16));
            assert(s[i] == '\\' && s[i + 1] == 'u' && s[i + 2] == '0' && s[i + 3] == '0' && s[i + 4]
                == hex_digit(code / 16) && s[i + 5] == hex_digit(code % 16));
            lemma_fundamental_div_mod(code, 16);
            vstd::arithmetic::div_mod::lemma_mod_bound(code, 16);
            assert(0 <= code / 16 < 2);
            assert(0 <= code % 16 < 16);
            lemma_hex_digit_val(code / 16);
            lemma_hex_digit_val(code % 16);
            assert(hex_val(s[i + 2]) == Option::Some(0int));
            assert(hex_val(s[i + 3]) == Option::Some(0int));
            assert(hex4(s, i + 2) == Option::Some(code));
            assert(crate::json::char_of(code) == c) by {
                vstd::utf8::char_u32_cast(c, c as u32);
            }
        } else {
            assert(e0[0] == c);
            assert(s[i] == c);
        }
    }
}

/// The word `null`, followed by a character that starts no other
/// construct, parses as one degraded value.
proof fn lemma_parse_null(s: Seq<char>, i: int, d: nat)
    requires
        0 <= i,
        i + 4 <= s.len(),
        s.subrange(i, i + 4) == null_chars(),
    ensures
        parse_value(s, i, d) == Option::Some((JsonField::Other, 4nat)),
{
    assert forall|k: int| 0 <= k < 4 implies #[trigger] s[i + k] == null_chars()[k] by {
        assert(s.subrange(i, i + 4)[k] == s[i + k]);
    }
    assert(s[i] == 'n');
    assert(!is_digit(s[i]));
    if has_word(s, i, seq!['t', 'r', 'u', 'e']) {
        assert(s.subrange(i, i + 4)[0] == s[i]);
        assert(false);
    }
    if has_word(s, i, seq!['f', 'a', 'l', 's', 'e']) {
        assert(s.subrange(i, i + 5)[0] == s[i]);
        assert(false);
    }
    assert(has_word(s, i, seq!['n', 'u', 'l', 'l'])) by {
        assert(s.subrange(i, i + 4) =~= seq!['n', 'u', 'l', 'l']);
    }
}


/// Every character is a Unicode scalar value.
proof fn lemma_char_range(c: char)
    ensures
        0 <= c as int <= 0x10FFFF,
{
}

/// The decoded field a serialized status value parses back to.
spec fn status_field(v: RecordView) -> JsonField {
    match v.status {
        Option::Some(n) => JsonField::Int(n),
        Option::None => JsonField::Other,
    }
}

/// The decoded field a serialized msg value parses back to.
spec fn msg_field(v: RecordView) -> JsonField {
    match v.msg {
        Option::Some(t) => JsonField::Str(t),
        Option::None => JsonField::Other,
    }
}

/// The serialized status field value parses back to what was serialized.
#[verifier::rlimit(100)]
proof fn lemma_status_value_parses(v: RecordView)
    requires
        v.status matches Some(n) ==> -0x8000_0000_0000_0000 <= n < 0x8000_0000_0000_0000,
    ensures
        parse_value(encode_record_spec(v), 10, (JSON_DEPTH_LIMIT - 1) as nat) == Option::Some(
            (status_field(v), status_value_chars(v.status).len() as nat),
        ),
{
    let e = encode_record_spec(v);
    let sv = status_value_chars(v.status);
    let mv = msg_value_chars(v.msg);
    let p1 = seq!['{', '"', 's', 't', 'a', 't', 'u', 's', '"', ':'];
    let p2 = seq![',', '"', 'm', 's', 'g', '"', ':'];
    let a1 = 10 + sv.len() as int;
    let a2 = a1 + 7;
    let a3 = a2 + mv.len() as int;
    let d = (JSON_DEPTH_LIMIT - 1) as nat;
    assert(e == p1 + sv + p2 + mv + seq!['}']);
    assert(e.len() == a3 + 1);
    assert forall|k: int| 0 <= k < 10 implies #[trigger] e[k] == p1[k] by {}
    assert forall|k: int| 0 <= k < sv.len() implies #[trigger] e[10 + k] == sv[k] by {}
    assert forall|k: int| 0 <= k < 7 implies #[trigger] e[a1 + k] == p2[k] by {}
    assert forall|k: int| 0 <= k < mv.len() implies #[trigger] e[a2 + k] == mv[k] by {}
    assert(e[a3] == '}');
    // the status value: either the word null, or the decimal digits of n
    let f1 = match v.status {
        Option::Some(n) => JsonField::Int(n),
        Option::None => JsonField::Other,
    };
    match v.status {
        Option::Some(n) => {
            lemma_int_digits_shape(
                if n < 0 {
                    -n
                } else {
                    n
                },
            );
            assert(sv == int_chars(n));
            assert(s_first_not_ws(sv));
            assert(e.subrange(10, a1) =~= int_chars(n)) by {
                assert forall|k: int| 0 <= k < sv.len() implies #[trigger] e.subrange(10, a1)[k] == int_chars(
                    n,
                )[k] by {
                    assert(e.subrange(10, a1)[k] == e[10 + k]);
                }
            }
            assert(e[a1] == ',');
            lemma_parse_int(e, 10, n);
            assert(parse_value(e, 10, d) == Option::Some((f1, sv.len() as nat)));
        },
        Option::None => {
            assert(sv == null_chars());
            assert(e.subrange(10, 14) =~= null_chars()) by {
                assert forall|k: int| 0 <= k < 4 implies #[trigger] e.subrange(10, 14)[k] == null_chars()[k] by {
                    assert(e.subrange(10, 14)[k] == e[10 + k]);
                }
            }
            lemma_parse_null(e, 10, d);
            assert(parse_value(e, 10, d) == Option::Some((f1, sv.len() as nat)));
        },
    }

}

/// The serialized msg field value parses back to what was serialized.
#[verifier::rlimit(100)]
proof fn lemma_msg_value_parses(v: RecordView)
    ensures
        parse_value(
            encode_record_spec(v),
            17 + status_value_chars(v.status).len() as int,
            (JSON_DEPTH_LIMIT - 1) as nat,
        ) == Option::Some((msg_field(v), msg_value_chars(v.msg).len() as nat)),
{
    let e = encode_record_spec(v);
    let sv = status_value_chars(v.status);
    let mv = msg_value_chars(v.msg);
    let p1 = seq!['{', '"', 's', 't', 'a', 't', 'u', 's', '"', ':'];
    let p2 = seq![',', '"', 'm', 's', 'g', '"', ':'];
    let a1 = 10 + sv.len() as int;
    let a2 = a1 + 7;
    let a3 = a2 + mv.len() as int;
    let d = (JSON_DEPTH_LIMIT - 1) as nat;
    assert(e == p1 + sv + p2 + mv + seq!['}']);
    assert(e.len() == a3 + 1);
    assert forall|k: int| 0 <= k < 10 implies #[trigger] e[k] == p1[k] by {}
    assert forall|k: int| 0 <= k < sv.len() implies #[trigger] e[10 + k] == sv[k] by {}
    assert forall|k: int| 0 <= k < 7 implies #[trigger] e[a1 + k] == p2[k] by {}
    assert forall|k: int| 0 <= k < mv.len() implies #[trigger] e[a2 + k] == mv[k] by {}
    assert(e[a3] == '}');
    // the msg value: either the word null, or a quoted escaped string
    let f2 = match v.msg {
        Option::Some(t) => JsonField::Str(t),
        Option::None => JsonField::Other,
    };
    match v.msg {
        Option::Some(t) => {
            let el = escape_str(t).len() as int;
            assert(mv == seq!['"'] + escape_str(t) + seq!['"']);
            assert(e[a2] == '"');
            assert(e.subrange(a2 + 1, a2 + 1 + el) =~= escape_str(t)) by {
                assert forall|k: int| 0 <= k < el implies #[trigger] e.subrange(a2 + 1, a2 + 1 + el)[k]
                    == escape_str(t)[k] by {
                    assert(e.subrange(a2 + 1, a2 + 1 + el)[k] == e[a2 + 1 + k]);
                    assert(mv[1 + k] == escape_str(t)[k]);
                }
            }
            assert(e[a2 + 1 + el] == mv[mv.len() - 1]);
            assert(e[a2 + 1 + el] == '"');
            lemma_parse_escaped(e, a2 + 1, t);
            assert(parse_value(e, a2, d) == Option::Some((f2, mv.len() as nat)));
        },
        Option::None => {
            assert(mv == null_chars());
            assert(e.subrange(a2, a2 + 4) =~= null_chars()) by {
                assert forall|k: int| 0 <= k < 4 implies #[trigger] e.subrange(a2, a2 + 4)[k]
                    == null_chars()[k] by {
                    assert(e.subrange(a2, a2 + 4)[k] == e[a2 + k]);
                }
            }
            lemma_parse_null(e, a2, d);
            assert(parse_value(e, a2, d) == Option::Some((f2, mv.len() as nat)));
        },
    }

}

/// The two serialized member keys parse back to themselves.
#[verifier::rlimit(100)]
proof fn lemma_keys_parse(v: RecordView)
    ensures
        parse_str_body(encode_record_spec(v), 2) == Option::Some((status_key(), 7nat)),
        parse_str_body(
            encode_record_spec(v),
            10 + status_value_chars(v.status).len() as int + 2,
        ) == Option::Some((msg_key(), 4nat)),
{
    let e = encode_record_spec(v);
    let sv = status_value_chars(v.status);
    let mv = msg_value_chars(v.msg);
    let p1 = seq!['{', '"', 's', 't', 'a', 't', 'u', 's', '"', ':'];
    let p2 = seq![',', '"', 'm', 's', 'g', '"', ':'];
    let a1 = 10 + sv.len() as int;
    let a2 = a1 + 7;
    let a3 = a2 + mv.len() as int;
    let d = (JSON_DEPTH_LIMIT - 1) as nat;
    assert(e == p1 + sv + p2 + mv + seq!['}']);
    assert(e.len() == a3 + 1);
    assert forall|k: int| 0 <= k < 10 implies #[trigger] e[k] == p1[k] by {}
    assert forall|k: int| 0 <= k < sv.len() implies #[trigger] e[10 + k] == sv[k] by {}
    assert forall|k: int| 0 <= k < 7 implies #[trigger] e[a1 + k] == p2[k] by {}
    assert forall|k: int| 0 <= k < mv.len() implies #[trigger] e[a2 + k] == mv[k] by {}
    assert(e[a3] == '}');
    // the two keys
    lemma_escape_plain(status_key());
    assert(e.subrange(2, 8) =~= escape_str(status_key()));
    assert(e[8] == '"');
    lemma_parse_escaped(e, 2, status_key());
    lemma_escape_plain(msg_key());
    assert(e.subrange(a1 + 2, a1 + 5) =~= escape_str(msg_key())) by {
        assert forall|k: int| 0 <= k < 3 implies #[trigger] e.subrange(a1 + 2, a1 + 5)[k] == escape_str(
            msg_key(),
        )[k] by {
            assert(e.subrange(a1 + 2, a1 + 5)[k] == e[a1 + 2 + k]);
        }
    }
    assert(e[a1 + 5] == '"');
    lemma_parse_escaped(e, a1 + 2, msg_key());
}

/// The second member, from just after its leading comma to the closing
/// brace, parses as exactly the `msg` member.
#[verifier::rlimit(100)]
proof fn lemma_inner_members_parse(v: RecordView)
    ensures
        parse_members(
            encode_record_spec(v),
            11 + status_value_chars(v.status).len() as int,
            (JSON_DEPTH_LIMIT - 1) as nat,
            false,
        ) == Option::Some(
            (seq![(msg_key(), msg_field(v))], (7 + msg_value_chars(v.msg).len()) as nat),
        ),
{
    let e = encode_record_spec(v);
    let sv = status_value_chars(v.status);
    let mv = msg_value_chars(v.msg);
    let p1 = seq!['{', '"', 's', 't', 'a', 't', 'u', 's', '"', ':'];
    let p2 = seq![',', '"', 'm', 's', 'g', '"', ':'];
    let a1 = 10 + sv.len() as int;
    let a2 = a1 + 7;
    let a3 = a2 + mv.len() as int;
    let d = (JSON_DEPTH_LIMIT - 1) as nat;
    assert(e == p1 + sv + p2 + mv + seq!['}']);
    assert(e.len() == a3 + 1);
    assert forall|k: int| 0 <= k < 10 implies #[trigger] e[k] == p1[k] by {}
    assert forall|k: int| 0 <= k < sv.len() implies #[trigger] e[10 + k] == sv[k] by {}
    assert forall|k: int| 0 <= k < 7 implies #[trigger] e[a1 + k] == p2[k] by {}
    assert forall|k: int| 0 <= k < mv.len() implies #[trigger] e[a2 + k] == mv[k] by {}
    assert(e[a3] == '}');
    lemma_msg_value_parses(v);
    lemma_keys_parse(v);
    match v.msg {
        Option::Some(t) => {
            assert(mv[0] == '"');
            assert(!is_ws(mv[0]));
        },
        Option::None => {
            assert(mv == null_chars());
            assert(!is_ws(mv[0]));
        },
    }
    assert(ws_count(e, a1 + 1) == 0);
    assert(ws_count(e, a1 + 6) == 0);
    assert(ws_count(e, a2) == 0) by {
        assert(!is_ws(e[a2]));
    }
    assert(ws_count(e, a3) == 0);
    assert(e[a1 + 1] == '"');
    assert(e[a1 + 6] == ':');
    assert(parse_members(e, a1 + 1, d, false) == Option::Some(
        (seq![(msg_key(), msg_field(v))], (a3 + 1 - (a1 + 1)) as nat),
    ));
}

/// The serialized record's member list parses as exactly its two
/// members.
#[verifier::rlimit(100)]
proof fn lemma_members_parse(v: RecordView)
    requires
        v.status matches Some(n) ==> -0x8000_0000_0000_0000 <= n < 0x8000_0000_0000_0000,
    ensures
        parse_members(encode_record_spec(v), 1, (JSON_DEPTH_LIMIT - 1) as nat, true)
            == Option::Some(
            (
                seq![(status_key(), status_field(v))] + seq![(msg_key(), msg_field(v))],
                (17 + status_value_chars(v.status).len() + msg_value_chars(v.msg).len()) as nat,
            ),
        ),
        skip_ws(encode_record_spec(v), 0) == 0,
        skip_ws(
            encode_record_spec(v),
            18 + status_value_chars(v.status).len() as int + msg_value_chars(v.msg).len() as int,
        ) == encode_record_spec(v).len(),
        encode_record_spec(v)[0] == '{',
        encode_record_spec(v).len() == 18 + status_value_chars(v.status).len()
            + msg_value_chars(v.msg).len(),
{
    let e = encode_record_spec(v);
    let sv = status_value_chars(v.status);
    let mv = msg_value_chars(v.msg);
    let p1 = seq!['{', '"', 's', 't', 'a', 't', 'u', 's', '"', ':'];
    let p2 = seq![',', '"', 'm', 's', 'g', '"', ':'];
    let a1 = 10 + sv.len() as int;
    let a2 = a1 + 7;
    let a3 = a2 + mv.len() as int;
    let d = (JSON_DEPTH_LIMIT - 1) as nat;
    assert(e == p1 + sv + p2 + mv + seq!['}']);
    assert(e.len() == a3 + 1);
    assert forall|k: int| 0 <= k < 10 implies #[trigger] e[k] == p1[k] by {}
    assert forall|k: int| 0 <= k < sv.len() implies #[trigger] e[10 + k] == sv[k] by {}
    assert forall|k: int| 0 <= k < 7 implies #[trigger] e[a1 + k] == p2[k] by {}
    assert forall|k: int| 0 <= k < mv.len() implies #[trigger] e[a2 + k] == mv[k] by {}
    assert(e[a3] == '}');
    lemma_status_value_parses(v);
    lemma_keys_parse(v);
    lemma_inner_members_parse(v);
    match v.status {
        Option::Some(n) => {
            lemma_int_digits_shape(
                if n < 0 {
                    -n
                } else {
                    n
                },
            );
            assert(s_first_not_ws(sv));
        },
        Option::None => {
            assert(sv == null_chars());
            assert(!is_ws(sv[0]));
        },
    }
    assert(ws_count(e, 0) == 0);
    assert(ws_count(e, 1) == 0);
    assert(ws_count(e, 9) == 0);
    assert(ws_count(e, 10) == 0) by {
        assert(!is_ws(e[10]));
    }
    assert(ws_count(e, a1) == 0);
    assert(ws_count(e, a3 + 1) == 0);
    assert(e[1] == '"');
    assert(e[9] == ':');
    assert(e[a1] == ',');
    assert(parse_members(e, 1, d, true) == Option::Some(
        (seq![(status_key(), status_field(v))] + seq![(msg_key(), msg_field(v))], a3 as nat),
    ));
}

/// Decoding the serialization of any record yields that record: the
/// relay's reply body round-trips to the same `(status, msg)` pair the
/// upstream sent.
#[verifier::rlimit(100)]
pub proof fn lemma_record_round_trip(v: RecordView)
    requires
        v.status matches Some(n) ==> -0x8000_0000_0000_0000 <= n < 0x8000_0000_0000_0000,
    ensures
        decode_record_spec(encode_record_spec(v)) == Option::Some(v),
{
    let e = encode_record_spec(v);
    let d = (JSON_DEPTH_LIMIT - 1) as nat;
    let f1 = status_field(v);
    let f2 = msg_field(v);
    lemma_members_parse(v);
    // extraction gives back exactly the record
    let ms = seq![(status_key(), f1)] + seq![(msg_key(), f2)];
    assert(ms[0] == (status_key(), f1));
    assert(ms.drop_first() =~= seq![(msg_key(), f2)]);
    assert(msg_key() != status_key()) by {
        assert(msg_key().len() != status_key().len());
    }
    assert(seq![(msg_key(), f2)].drop_first() =~= Seq::<(Seq<char>, JsonField)>::empty());
    assert((match f1 {
        JsonField::Int(n) => Option::Some(n),
        _ => Option::<int>::None,
    }) == v.status);
    assert((match f2 {
        JsonField::Str(t) => Option::Some(t),
        _ => Option::<Seq<char>>::None,
    }) == v.msg);
    assert(extract_record(ms, false, false, Option::None, Option::None) == extract_record(
        seq![(msg_key(), f2)],
        true,
        false,
        v.status,
        Option::None,
    ));
    assert(extract_record(seq![(msg_key(), f2)], true, false, v.status, Option::None)
        == extract_record(
        Seq::<(Seq<char>, JsonField)>::empty(),
        true,
        true,
        v.status,
        v.msg,
    ));
    assert(extract_record(Seq::<(Seq<char>, JsonField)>::empty(), true, true, v.status, v.msg)
        == Option::Some(RecordView { status: v.status, msg: v.msg }));
    assert(RecordView { status: v.status, msg: v.msg } == v);
}

/// The first character of a serialized status value is no whitespace.
spec fn s_first_not_ws(sv: Seq<char>) -> bool {
    sv.len() > 0 && !is_ws(sv[0])
}

} // verus!
