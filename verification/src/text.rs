//! Text utilities around the interpreter: input sanitization, the
//! case-insensitive match for command words, and reading whitespace-
//! separated 8-bit channel values out of a command field.

use vstd::prelude::*;
use vstd::string::StrSliceExecFns;

use crate::parser::{is_alpha_char, is_digit_char, is_space_char, lemma_numeral_monotone,
    numeral_value_from, to_char_vec};

verus! {

/// A character that survives sanitization: letters, digits,
/// `/ + - . , * ^ ( ) %` and the space.
pub open spec fn is_allowed_char(c: char) -> bool {
    ||| is_alpha_char(c)
    ||| is_digit_char(c)
    ||| c == '/'
    ||| c == '+'
    ||| c == '-'
    ||| c == '.'
    ||| c == ','
    ||| c == '*'
    ||| c == '^'
    ||| c == '('
    ||| c == ')'
    ||| c == '%'
    ||| c == ' '
}

/// The characters of `s` that sanitization keeps, in order.
pub open spec fn sanitized(s: Seq<char>) -> Seq<char>
    decreases s.len(),
{
    if s.len() == 0 {
        Seq::empty()
    } else if is_allowed_char(s.last()) {
        sanitized(s.drop_last()).push(s.last())
    } else {
        sanitized(s.drop_last())
    }
}

/// Collects characters back into a string.
///
/// Relies on `String: FromIterator<char>`: collecting chars yields the
/// string of exactly those characters, in order.
#[verifier::external_body]
fn chars_to_string(v: &Vec<char>) -> (s: String)
    ensures
        s@ == v@,
{
    v.iter().collect()
}

/// Drops every character that is not a letter, a digit, one of
/// `/ + - . , * ^ ( ) %`, or a space, keeping the rest in order.
pub fn sanitize_input(input: &String) -> (r: String)
    ensures
        r@ == sanitized(input@),
{
    let chars = to_char_vec(input.as_str());
    let mut kept: Vec<char> = Vec::new();
    let mut i: usize = 0;
    proof {
        assert(input@.subrange(0, 0) =~= Seq::<char>::empty());
        assert(kept@ =~= sanitized(input@.subrange(0, 0)));
    }
    while i < chars.len()
        invariant
            i <= chars@.len(),
            chars@ == input@,
            kept@ == sanitized(input@.subrange(0, i as int)),
        decreases chars@.len() - i,
    {
        let c = chars[i];
        if is_allowed(c) {
            kept.push(c);
        }
        proof {
            assert(input@.subrange(0, i + 1).drop_last() =~= input@.subrange(0, i as int));
        }
        i += 1;
    }
    proof {
        assert(input@.subrange(0, input@.len() as int) =~= input@);
    }
    chars_to_string(&kept)
}

/// Whether `c` survives sanitization.
fn is_allowed(c: char) -> (r: bool)
    ensures
        r == is_allowed_char(c),
{
    (c as u32 >= 65 && c as u32 <= 90) || (c as u32 >= 97 && c as u32 <= 122) || (c as u32 >= 48
        && c as u32 <= 57) || c == '/' || c == '+' || c == '-' || c == '.' || c == ',' || c == '*'
        || c == '^' || c == '(' || c == ')' || c == '%' || c == ' '
}

/// Whether `a` equals `b` up to ASCII case, `b` being already lower-case.
pub open spec fn char_eq_lower(a: char, b: char) -> bool {
    a == b || (65 <= a as u32 <= 90 && a as u32 + 32 == b as u32)
}

/// Whether the word `s` is `word` up to ASCII case, `word` being
/// lower-case.
pub open spec fn word_matches(s: Seq<char>, word: Seq<char>) -> bool {
    s.len() == word.len() && forall|i: int| 0 <= i < s.len() ==> char_eq_lower(s[i], #[trigger] word[i])
}

/// Decides whether `s` is `word` up to ASCII case (`word` must already be
/// lower-case).
pub fn eq_ignore_ascii_case(s: &String, word: &str) -> (r: bool)
    ensures
        r == word_matches(s@, word@),
{
    let sc = to_char_vec(s.as_str());
    let wc = to_char_vec(word);
    if sc.len() != wc.len() {
        return false;
    }
    let mut i: usize = 0;
    while i < sc.len()
        invariant
            i <= sc@.len(),
            sc@ == s@,
            wc@ == word@,
            sc@.len() == wc@.len(),
            forall|j: int| 0 <= j < i ==> char_eq_lower(sc@[j], #[trigger] wc@[j]),
        decreases sc@.len() - i,
    {
        let a = sc[i];
        let b = wc[i];
        let same = a == b || (a as u32 >= 65 && a as u32 <= 90 && a as u32 + 32 == b as u32);
        if !same {
            return false;
        }
        i += 1;
    }
    true
}

/// The comma-separated fields of a command line from position `i` on, each
/// sanitized, with the current field's characters in `cur` and the fields
/// already read in `out`. A line without commas is one field; every comma
/// ends one field and starts the next.
pub open spec fn spec_split_sanitized(
    s: Seq<char>,
    i: int,
    cur: Seq<char>,
    out: Seq<Seq<char>>,
) -> Seq<Seq<char>>
    decreases s.len() - i,
{
    if i < 0 || i >= s.len() {
        out.push(sanitized(cur))
    } else if s[i] == ',' {
        spec_split_sanitized(s, i + 1, Seq::empty(), out.push(sanitized(cur)))
    } else {
        spec_split_sanitized(s, i + 1, cur.push(s[i]), out)
    }
}

/// Splits a command line on commas and sanitizes each field.
#[verifier::loop_isolation(false)]
pub fn split_cmd_line(line: &String) -> (r: Vec<String>)
    ensures
        ({
            let fields = spec_split_sanitized(line@, 0, Seq::empty(), Seq::empty());
            &&& r@.len() == fields.len()
            &&& forall|i: int| 0 <= i < fields.len() ==> (#[trigger] r@[i])@ == fields[i]
        }),
{
    let chars = to_char_vec(line.as_str());
    let mut out: Vec<String> = Vec::new();
    let mut cur: Vec<char> = Vec::new();
    let mut i: usize = 0;
    let ghost fields = spec_split_sanitized(line@, 0, Seq::empty(), Seq::empty());
    proof {
        assert(cur@ =~= Seq::<char>::empty());
        assert(Seq::new(out@.len(), |j: int| out@[j]@) =~= Seq::<Seq<char>>::empty());
    }
    while i < chars.len()
        invariant
            i <= chars@.len(),
            chars@ == line@,
            spec_split_sanitized(line@, i as int, cur@, Seq::new(out@.len(), |j: int| out@[j]@))
                == fields,
        decreases chars@.len() - i,
    {
        let c = chars[i];
        if c == ',' {
            let ghost out_views = Seq::new(out@.len(), |j: int| out@[j]@);
            let field = chars_to_string(&cur);
            let clean = sanitize_input(&field);
            out.push(clean);
            proof {
                assert(Seq::new(out@.len(), |j: int| out@[j]@) =~= out_views.push(sanitized(cur@)));
            }
            cur = Vec::new();
            proof {
                assert(cur@ =~= Seq::<char>::empty());
            }
        } else {
            cur.push(c);
        }
        i += 1;
    }
    let ghost out_views = Seq::new(out@.len(), |j: int| out@[j]@);
    let field = chars_to_string(&cur);
    let clean = sanitize_input(&field);
    out.push(clean);
    proof {
        assert(Seq::new(out@.len(), |j: int| out@[j]@) =~= out_views.push(sanitized(cur@)));
    }
    out
}

/// The digits of an 8-bit channel token: an optional leading `+`, then the
/// digit run.
pub open spec fn token_digits(t: Seq<char>) -> Seq<char> {
    if t.len() > 0 && t[0] == '+' {
        t.subrange(1, t.len() as int)
    } else {
        t
    }
}

/// Whether `t` denotes an 8-bit channel value: behind an optional `+`, at
/// least one digit, only digits, and a value of at most 255.
pub open spec fn valid_u8_token(t: Seq<char>) -> bool {
    let d = token_digits(t);
    d.len() > 0 && (forall|i: int| 0 <= i < d.len() ==> is_digit_char(#[trigger] d[i]))
        && numeral_value_from(d, 0, 0) <= 255
}

/// The channel values of a token: one value, or none for a token that
/// denotes no 8-bit value.
pub open spec fn token_values(t: Seq<char>) -> Seq<u8> {
    if valid_u8_token(t) {
        seq![numeral_value_from(token_digits(t), 0, 0) as u8]
    } else {
        Seq::empty()
    }
}

/// The channel values read from `s` from position `i` on, with the current
/// token's characters in `cur` and the values already read in `out`:
/// whitespace separates tokens, and a token that denotes no 8-bit value is
/// skipped.
pub open spec fn spec_channel_values(s: Seq<char>, i: int, cur: Seq<char>, out: Seq<u8>) -> Seq<u8>
    decreases s.len() - i,
{
    if i < 0 || i >= s.len() {
        out + token_values(cur)
    } else if is_space_char(s[i]) {
        spec_channel_values(s, i + 1, Seq::empty(), out + token_values(cur))
    } else {
        spec_channel_values(s, i + 1, cur.push(s[i]), out)
    }
}

/// The numeric value of the current digit run, while it stays an 8-bit
/// value.
#[verifier::loop_isolation(false)]
fn parse_u8_token(t: &Vec<char>) -> (r: Option<u8>)
    ensures
        match r {
            Some(v) => token_values(t@) == seq![v],
            None => token_values(t@) == Seq::<u8>::empty(),
        },
{
    let ghost d = token_digits(t@);
    let start: usize = if t.len() > 0 && t[0] == '+' {
        1
    } else {
        0
    };
    proof {
        assert(d =~= t@.subrange(start as int, t@.len() as int));
    }
    if t.len() == start {
        return None;
    }
    let mut value: u32 = 0;
    let mut i: usize = start;
    while i < t.len()
        invariant
            start <= i <= t@.len(),
            d == t@.subrange(start as int, t@.len() as int),
            0 <= value <= 255,
            forall|j: int| start <= j < i ==> is_digit_char(#[trigger] t@[j]),
            numeral_value_from(d, 0, 0) == numeral_value_from(d, i - start, value as int),
        decreases t@.len() - i,
    {
        let c = t[i];
        if !(c as u32 >= 48 && c as u32 <= 57) {
            proof {
                assert(!is_digit_char(d[i - start]));
                assert(!valid_u8_token(t@));
            }
            return None;
        }
        let dv = c as u32 - 48;
        let next = value * 10 + dv;
        if next > 255 {
            proof {
                assert(is_digit_char(d[i - start]));
                lemma_numeral_monotone(d, i - start + 1, next as int);
                assert(numeral_value_from(d, i - start, value as int) == numeral_value_from(
                    d,
                    i - start + 1,
                    next as int,
                ));
                assert(numeral_value_from(d, 0, 0) > 255);
                assert(!valid_u8_token(t@));
            }
            return None;
        }
        value = next;
        i += 1;
    }
    proof {
        assert(numeral_value_from(d, d.len() as int, value as int) == value as int);
        assert(valid_u8_token(t@));
    }
    Some(value as u8)
}

/// Reads the whitespace-separated 8-bit channel values of `s`, in order,
/// skipping anything that denotes no such value.
#[verifier::loop_isolation(false)]
pub fn parse_channel_values(s: &String) -> (r: Vec<u8>)
    ensures
        r@ == spec_channel_values(s@, 0, Seq::empty(), Seq::empty()),
{
    let chars = to_char_vec(s.as_str());
    let mut out: Vec<u8> = Vec::new();
    let mut cur: Vec<char> = Vec::new();
    let mut i: usize = 0;
    proof {
        assert(cur@ =~= Seq::<char>::empty());
        assert(out@ =~= Seq::<u8>::empty());
    }
    while i < chars.len()
        invariant
            i <= chars@.len(),
            chars@ == s@,
            spec_channel_values(s@, i as int, cur@, out@) == spec_channel_values(
                s@,
                0,
                Seq::empty(),
                Seq::empty(),
            ),
        decreases chars@.len() - i,
    {
        let c = chars[i];
        let ghost out_before = out@;
        let ghost cur_before = cur@;
        if c == ' ' || c == '\t' || c == '\r' || c == '\n' {
            match parse_u8_token(&cur) {
                Some(v) => {
                    out.push(v);
                },
                None => {},
            }
            proof {
                assert(out@ =~= out_before + token_values(cur_before));
            }
            cur = Vec::new();
            proof {
                assert(cur@ =~= Seq::<char>::empty());
            }
        } else {
            cur.push(c);
        }
        i += 1;
    }
    let ghost out_before = out@;
    let ghost cur_before = cur@;
    match parse_u8_token(&cur) {
        Some(v) => {
            out.push(v);
        },
        None => {},
    }
    proof {
        assert(out@ =~= out_before + token_values(cur_before));
    }
    out
}

} // verus!
