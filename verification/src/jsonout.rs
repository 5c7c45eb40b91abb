//! JSON encoding of the wire replies: responses, events, and the result
//! payloads of the built-in methods. Object keys are emitted in sorted
//! order, strings with standard JSON escaping.

use vstd::prelude::*;
use crate::text::{chars_string, push_chars, push_dec, push_str_chars, str_chars, dec_spec};

verus! {

/// Lower-case hexadecimal digit for a value in `0..16`.
pub open spec fn hex_digit(n: int) -> char {
    if n == 0 {
        '0'
    } else if n == 1 {
        '1'
    } else if n == 2 {
        '2'
    } else if n == 3 {
        '3'
    } else if n == 4 {
        '4'
    } else if n == 5 {
        '5'
    } else if n == 6 {
        '6'
    } else if n == 7 {
        '7'
    } else if n == 8 {
        '8'
    } else if n == 9 {
        '9'
    } else if n == 10 {
        'a'
    } else if n == 11 {
        'b'
    } else if n == 12 {
        'c'
    } else if n == 13 {
        'd'
    } else if n == 14 {
        'e'
    } else {
        'f'
    }
}

/// JSON escaping of one character: quote and backslash get a backslash,
/// the named control characters their short forms, other control
/// characters a `\u00..` escape, and everything else stands as itself.
pub open spec fn esc_char(c: char) -> Seq<char> {
    if c == '"' {
        seq!['\\', '"']
    } else if c == '\\' {
        seq!['\\', '\\']
    } else if c == '\u{08}' {
        seq!['\\', 'b']
    } else if c == '\u{09}' {
        seq!['\\', 't']
    } else if c == '\u{0A}' {
        seq!['\\', 'n']
    } else if c == '\u{0C}' {
        seq!['\\', 'f']
    } else if c == '\u{0D}' {
        seq!['\\', 'r']
    } else if (c as u32) < 0x20 {
        seq!['\\', 'u', '0', '0', hex_digit((c as u32 / 16) as int), hex_digit((c as u32 % 16) as int)]
    } else {
        seq![c]
    }
}

/// JSON escaping of a whole string body.
pub open spec fn esc_str(s: Seq<char>) -> Seq<char>
    decreases s.len(),
{
    if s.len() == 0 {
        Seq::empty()
    } else {
        esc_char(s[0]) + esc_str(s.skip(1))
    }
}

/// A JSON string literal: quotes around the escaped body.
pub open spec fn json_str(s: Seq<char>) -> Seq<char> {
    seq!['"'] + esc_str(s) + seq!['"']
}

fn hex_digit_exec(n: u32) -> (r: char)
    requires
        n < 16,
    ensures
        r == hex_digit(n as int),
{
    if n == 0 {
        '0'
    } else if n == 1 {
        '1'
    } else if n == 2 {
        '2'
    } else if n == 3 {
        '3'
    } else if n == 4 {
        '4'
    } else if n == 5 {
        '5'
    } else if n == 6 {
        '6'
    } else if n == 7 {
        '7'
    } else if n == 8 {
        '8'
    } else if n == 9 {
        '9'
    } else if n == 10 {
        'a'
    } else if n == 11 {
        'b'
    } else if n == 12 {
        'c'
    } else if n == 13 {
        'd'
    } else if n == 14 {
        'e'
    } else {
        'f'
    }
}

/// Append the JSON string literal for `s`.
pub fn push_json_str(out: &mut Vec<char>, s: &str)
    ensures
        final(out)@ == old(out)@ + json_str(s@),
{
    out.push('"');
    let v = str_chars(s);
    let n = v.len();
    let mut i: usize = 0;
    proof {
        assert(v@.skip(0) =~= v@);
        assert(out@ =~= old(out)@ + seq!['"']);
    }
    while i < n
        invariant
            0 <= i <= n == v@.len(),
            v@ == s@,
            old(out)@ + seq!['"'] + esc_str(v@) == out@ + esc_str(v@.skip(i as int)),
        decreases n - i,
    {
        let ghost pre = v@.skip(i as int);
        proof {
            assert(pre[0] == v@[i as int]);
            assert(pre.skip(1) =~= v@.skip(i + 1));
            assert(esc_str(pre) == esc_char(v@[i as int]) + esc_str(v@.skip(i + 1)));
        }
        let c = v[i];
        let ghost before = out@;
        if c == '"' {
            out.push('\\');
            out.push('"');
        } else if c == '\\' {
            out.push('\\');
            out.push('\\');
        } else if c == '\u{08}' {
            out.push('\\');
            out.push('b');
        } else if c == '\u{09}' {
            out.push('\\');
            out.push('t');
        } else if c == '\u{0A}' {
            out.push('\\');
            out.push('n');
        } else if c == '\u{0C}' {
            out.push('\\');
            out.push('f');
        } else if c == '\u{0D}' {
            out.push('\\');
            out.push('r');
        } else if (c as u32) < 0x20 {
            out.push('\\');
            out.push('u');
            out.push('0');
            out.push('0');
            out.push(hex_digit_exec(c as u32 / 16));
            out.push(hex_digit_exec(c as u32 % 16));
        } else {
            out.push(c);
        }
        proof {
            assert(out@ =~= before + esc_char(v@[i as int]));
            assert(before + (esc_char(v@[i as int]) + esc_str(v@.skip(i + 1))) =~= out@ + esc_str(
                v@.skip(i + 1),
            ));
        }
        i = i + 1;
    }
    proof {
        assert(v@.skip(n as int) =~= Seq::<char>::empty());
        assert(esc_str(Seq::<char>::empty()) == Seq::<char>::empty());
        assert(out@ + Seq::<char>::empty() =~= out@);
        assert(out@ =~= old(out)@ + seq!['"'] + esc_str(s@));
    }
    out.push('"');
    assert(out@ =~= old(out)@ + json_str(s@));
}

/// One out-of-band event line: `{"event":E,"payload":P}` with `P` a string.
pub open spec fn event_line(event: Seq<char>, payload: Seq<char>) -> Seq<char> {
    seq!['{'] + json_str(seq!['e', 'v', 'e', 'n', 't']) + seq![':'] + json_str(event) + seq![',']
        + json_str(seq!['p', 'a', 'y', 'l', 'o', 'a', 'd']) + seq![':'] + json_str(payload) + seq![
        '}',
    ]
}

/// Encode one event line, as the server emits it before a response.
pub fn encode_event(event: &str, payload: &str) -> (r: String)
    ensures
        r@ == event_line(event@, payload@),
{
    let mut out: Vec<char> = Vec::new();
    out.push('{');
    push_json_str(&mut out, "event");
    proof {
        reveal_strlit("event");
        assert("event"@ =~= seq!['e', 'v', 'e', 'n', 't']);
    }
    out.push(':');
    push_json_str(&mut out, event);
    out.push(',');
    push_json_str(&mut out, "payload");
    proof {
        reveal_strlit("payload");
        assert("payload"@ =~= seq!['p', 'a', 'y', 'l', 'o', 'a', 'd']);
    }
    out.push(':');
    push_json_str(&mut out, payload);
    out.push('}');
    assert(out@ =~= event_line(event@, payload@));
    chars_string(&out)
}

/// A success response: `{"id":N,"result":J}` with `J` already-encoded JSON.
pub open spec fn response_result_line(id: int, result_json: Seq<char>) -> Seq<char> {
    seq!['{'] + json_str(seq!['i', 'd']) + seq![':'] + dec_spec(id as nat) + seq![','] + json_str(
        seq!['r', 'e', 's', 'u', 'l', 't'],
    ) + seq![':'] + result_json + seq!['}']
}

/// An error response: `{"id":N,"error":{"message":M}}`.
pub open spec fn response_error_line(id: int, message: Seq<char>) -> Seq<char> {
    seq!['{'] + json_str(seq!['i', 'd']) + seq![':'] + dec_spec(id as nat) + seq![','] + json_str(
        seq!['e', 'r', 'r', 'o', 'r'],
    ) + seq![':', '{'] + json_str(seq!['m', 'e', 's', 's', 'a', 'g', 'e']) + seq![':'] + json_str(
        message,
    ) + seq!['}', '}']
}

/// Encode a success response around an already-encoded result value.
pub fn encode_response_result(id: u64, result_json: &str) -> (r: String)
    ensures
        r@ == response_result_line(id as int, result_json@),
{
    let mut out: Vec<char> = Vec::new();
    out.push('{');
    push_json_str(&mut out, "id");
    proof {
        reveal_strlit("id");
        assert("id"@ =~= seq!['i', 'd']);
    }
    out.push(':');
    push_dec(id, &mut out);
    out.push(',');
    push_json_str(&mut out, "result");
    proof {
        reveal_strlit("result");
        assert("result"@ =~= seq!['r', 'e', 's', 'u', 'l', 't']);
    }
    out.push(':');
    push_str_chars(&mut out, result_json);
    out.push('}');
    assert(out@ =~= response_result_line(id as int, result_json@));
    chars_string(&out)
}

/// Encode an error response around a message.
pub fn encode_response_error(id: u64, message: &str) -> (r: String)
    ensures
        r@ == response_error_line(id as int, message@),
{
    let mut out: Vec<char> = Vec::new();
    out.push('{');
    push_json_str(&mut out, "id");
    proof {
        reveal_strlit("id");
        assert("id"@ =~= seq!['i', 'd']);
    }
    out.push(':');
    push_dec(id, &mut out);
    out.push(',');
    push_json_str(&mut out, "error");
    proof {
        reveal_strlit("error");
        assert("error"@ =~= seq!['e', 'r', 'r', 'o', 'r']);
    }
    out.push(':');
    out.push('{');
    push_json_str(&mut out, "message");
    proof {
        reveal_strlit("message");
        assert("message"@ =~= seq!['m', 'e', 's', 's', 'a', 'g', 'e']);
    }
    out.push(':');
    push_json_str(&mut out, message);
    out.push('}');
    out.push('}');
    assert(out@ =~= response_error_line(id as int, message@));
    chars_string(&out)
}

/// The JSON array of output paths.
pub open spec fn outputs_array(outputs: Seq<Seq<char>>) -> Seq<char>
    decreases outputs.len(),
{
    if outputs.len() == 0 {
        Seq::empty()
    } else if outputs.len() == 1 {
        json_str(outputs[0])
    } else {
        outputs_array(outputs.drop_last()) + seq![','] + json_str(outputs.last())
    }
}

/// The transcription result value: `{"jobs":N,"outputs":[..]}`.
pub open spec fn jobs_result_json(jobs: int, outputs: Seq<Seq<char>>) -> Seq<char> {
    seq!['{'] + json_str(seq!['j', 'o', 'b', 's']) + seq![':'] + dec_spec(jobs as nat) + seq![',']
        + json_str(seq!['o', 'u', 't', 'p', 'u', 't', 's']) + seq![':', '['] + outputs_array(
        outputs,
    ) + seq![']', '}']
}

/// Encode the transcription result for a list of output paths.
pub fn encode_jobs_result(outputs: &Vec<String>) -> (r: String)
    ensures
        r@ == jobs_result_json(outputs@.len() as int, Seq::new(outputs@.len(), |i: int| outputs@[i]@)),
{
    let ghost souts = Seq::new(outputs@.len(), |i: int| outputs@[i]@);
    let mut out: Vec<char> = Vec::new();
    out.push('{');
    push_json_str(&mut out, "jobs");
    proof {
        reveal_strlit("jobs");
        assert("jobs"@ =~= seq!['j', 'o', 'b', 's']);
    }
    out.push(':');
    push_dec(outputs.len() as u64, &mut out);
    out.push(',');
    push_json_str(&mut out, "outputs");
    proof {
        reveal_strlit("outputs");
        assert("outputs"@ =~= seq!['o', 'u', 't', 'p', 'u', 't', 's']);
    }
    out.push(':');
    out.push('[');
    let ghost mark = out@;
    let n = outputs.len();
    let mut i: usize = 0;
    while i < n
        invariant
            0 <= i <= n == outputs@.len(),
            souts == Seq::new(outputs@.len(), |k: int| outputs@[k]@),
            out@ == mark + outputs_array(souts.subrange(0, i as int)),
        decreases n - i,
    {
        let ghost before = out@;
        if i > 0 {
            out.push(',');
        }
        push_json_str(&mut out, outputs[i].as_str());
        proof {
            let cur = souts.subrange(0, i + 1);
            assert(cur.drop_last() =~= souts.subrange(0, i as int));
            assert(cur.last() == outputs@[i as int]@);
            if i == 0 {
                assert(outputs_array(cur) == json_str(outputs@[0]@));
                assert(outputs_array(souts.subrange(0, 0)) == Seq::<char>::empty());
                assert(out@ =~= mark + outputs_array(cur));
            } else {
                assert(outputs_array(cur) == outputs_array(souts.subrange(0, i as int)) + seq![',']
                    + json_str(outputs@[i as int]@));
                assert(out@ =~= mark + outputs_array(cur));
            }
        }
        i = i + 1;
    }
    assert(souts.subrange(0, n as int) =~= souts);
    out.push(']');
    out.push('}');
    assert(out@ =~= jobs_result_json(souts.len() as int, souts));
    chars_string(&out)
}

} // verus!
