//! Serialization of the relay record to JSON text, proved against
//! `json::encode_record_spec`.

use crate::json::{
    encode_record_spec,
    escape_of,
    escape_str,
    hex_digit,
    int_chars,
    int_digits,
    msg_value_chars,
    null_chars,
    status_value_chars,
};
use crate::record::IOCall;
use crate::strutil::str_to_chars;
use vstd::prelude::*;

verus! {

/// Lower-case hexadecimal digit character of a value below 16.
fn hex_digit_exec(v: u8) -> (c: char)
    requires
        v < 16,
    ensures
        c == hex_digit(v as int),
{
    if v == 0 {
        '0'
    } else if v == 1 {
        '1'
    } else if v == 2 {
        '2'
    } else if v == 3 {
        '3'
    } else if v == 4 {
        '4'
    } else if v == 5 {
        '5'
    } else if v == 6 {
        '6'
    } else if v == 7 {
        '7'
    } else if v == 8 {
        '8'
    } else if v == 9 {
        '9'
    } else if v == 10 {
        'a'
    } else if v == 11 {
        'b'
    } else if v == 12 {
        'c'
    } else if v == 13 {
        'd'
    } else if v == 14 {
        'e'
    } else {
        'f'
    }
}

/// Appends the decimal digits of `n`, most significant first.
fn push_digits(out: &mut String, n: u64)
    ensures
        final(out)@ == old(out)@ + int_digits(n as int),
    decreases n,
{
    if n < 10 {
        out.push(hex_digit_exec(n as u8));
        proof {
            assert(out@ =~= old(out)@ + int_digits(n as int));
        }
    } else {
        push_digits(out, n / 10);
        out.push(hex_digit_exec((n % 10) as u8));
        proof {
            assert(int_digits(n as int) == int_digits(n as int / 10).push(
                hex_digit(n as int % 10),
            ));
            assert(out@ =~= old(out)@ + int_digits(n as int));
        }
    }
}

/// Appends the decimal text of `n`, with a minus sign when negative.
fn push_int(out: &mut String, n: i64)
    ensures
        final(out)@ == old(out)@ + int_chars(n as int),
{
    if n < 0 {
        out.push('-');
        let mag: u64 = if n == i64::MIN {
            9223372036854775808u64
        } else {
            (-n) as u64
        };
        push_digits(out, mag);
        proof {
            assert(mag as int == -(n as int));
            assert(out@ =~= old(out)@ + int_chars(n as int));
        }
    } else {
        push_digits(out, n as u64);
    }
}

/// Appends the word `null`.
fn push_null(out: &mut String)
    ensures
        final(out)@ == old(out)@ + null_chars(),
{
    out.push('n');
    out.push('u');
    out.push('l');
    out.push('l');
    proof {
        assert(out@ =~= old(out)@ + null_chars());
    }
}

/// Appends the serialization of one string character.
fn push_escaped(out: &mut String, c: char)
    ensures
        final(out)@ == old(out)@ + escape_of(c),
{
    if c == '"' {
        out.push('\\');
        out.push('"');
        proof {
            assert(out@ =~= old(out)@ + escape_of(c));
        }
    } else if c == '\\' {
        out.push('\\');
        out.push('\\');
        proof {
            assert(out@ =~= old(out)@ + escape_of(c));
        }
    } else if c == '\u{8}' {
        out.push('\\');
        out.push('b');
        proof {
            assert(out@ =~= old(out)@ + escape_of(c));
        }
    } else if c == '\t' {
        out.push('\\');
        out.push('t');
        proof {
            assert(out@ =~= old(out)@ + escape_of(c));
        }
    } else if c == '\n' {
        out.push('\\');
        out.push('n');
        proof {
            assert(out@ =~= old(out)@ + escape_of(c));
        }
    } else if c == '\u{c}' {
        out.push('\\');
        out.push('f');
        proof {
            assert(out@ =~= old(out)@ + escape_of(c));
        }
    } else if c == '\r' {
        out.push('\\');
        out.push('r');
        proof {
            assert(out@ =~= old(out)@ + escape_of(c));
        }
    } else if (c as u32) < 0x20 {
        let u = c as u32;
        out.push('\\');
        out.push('u');
        out.push('0');
        out.push('0');
        out.push(hex_digit_exec((u / 16) as u8));
        out.push(hex_digit_exec((u % 16) as u8));
        proof {
            assert(u as int == c as int);
            assert(out@ =~= old(out)@ + escape_of(c));
        }
    } else {
        out.push(c);
        proof {
            assert(out@ =~= old(out)@ + escape_of(c));
        }
    }
}

/// Appends the serialization of a string's content.
fn push_escaped_str(out: &mut String, m: &str)
    ensures
        final(out)@ == old(out)@ + escape_str(m@),
{
    let t = str_to_chars(m);
    let ghost base = out@;
    proof {
        assert(t@.skip(0) =~= t@);
    }
    let mut k: usize = 0;
    while k < t.len()
        invariant
            k <= t@.len(),
            t@ == m@,
            out@ + escape_str(t@.skip(k as int)) == base + escape_str(m@),
        decreases t@.len() - k,
    {
        proof {
            assert(t@.skip(k as int)[0] == t@[k as int]);
            assert(t@.skip(k as int).drop_first() =~= t@.skip(k + 1 as int));
        }
        push_escaped(out, t[k]);
        k = k + 1;
    }
    proof {
        assert(escape_str(t@.skip(t@.len() as int)) =~= Seq::<char>::empty());
        assert(out@ + Seq::<char>::empty() =~= out@);
    }
}

/// Serializes the record as the upstream's JSON shape: a two-member
/// object with `status` first, `msg` second, and `null` for an absent
/// field.
pub fn encode_io_call(rec: &IOCall) -> (r: String)
    ensures
        r@ == encode_record_spec(rec@),
{
    let mut out = String::new();
    out.push('{');
    out.push('"');
    out.push('s');
    out.push('t');
    out.push('a');
    out.push('t');
    out.push('u');
    out.push('s');
    out.push('"');
    out.push(':');
    proof {
        assert(out@ =~= seq!['{', '"', 's', 't', 'a', 't', 'u', 's', '"', ':']);
    }
    let ghost p1 = out@;
    match &rec.status {
        Option::Some(n) => push_int(&mut out, *n),
        Option::None => push_null(&mut out),
    }
    proof {
        assert(out@ == p1 + status_value_chars(rec@.status));
    }
    let ghost p2 = out@;
    out.push(',');
    out.push('"');
    out.push('m');
    out.push('s');
    out.push('g');
    out.push('"');
    out.push(':');
    proof {
        assert(out@ =~= p2 + seq![',', '"', 'm', 's', 'g', '"', ':']);
    }
    let ghost p3 = out@;
    match &rec.msg {
        Option::Some(m) => {
            out.push('"');
            push_escaped_str(&mut out, m.as_str());
            out.push('"');
            proof {
                assert(out@ =~= p3 + msg_value_chars(rec@.msg));
            }
        },
        Option::None => {
            push_null(&mut out);
        },
    }
    out.push('}');
    proof {
        assert(out@ =~= encode_record_spec(rec@));
    }
    out
}

} // verus!
