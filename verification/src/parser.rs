//! The equation builder: a recursive-descent parser with one character of
//! lookahead, from a character sequence to a sequence of
//! [`EquationElement`]s.
//!
//! Conventions, as the grammar fixes them:
//! - whitespace (space, tab, carriage return, line feed) never contributes
//!   an element and may stand anywhere between tokens;
//! - a constant is a run of decimal digits; a constant whose value exceeds
//!   `i32::MAX` is a fatal [`CalcError::Overflow`];
//! - a variable is a single ASCII letter (only `x` is evaluable);
//! - a group opened by `(` is closed by `)`; a group still open when the
//!   input ends is closed silently rather than rejected;
//! - a constant immediately followed by a letter has a multiplication
//!   inserted between them (`2x` parses as `2 * x`); no other juxtaposition
//!   inserts an operator.

use vstd::prelude::*;
use vstd::string::StrSliceExecFns;

use crate::ast::{CalcError, EquationElement, MathOperator, MathValue, SpecElement};
use crate::ast::{elem_model, elems_model, lemma_elems_model_pointwise};
use crate::ast::{lemma_elem_model_group, lemma_elem_model_operator, lemma_elem_model_value};

verus! {

broadcast use vstd::std_specs::vec::axiom_vec_index_decreases, vstd::std_specs::vec::axiom_spec_len;

/// A decimal digit.
pub open spec fn is_digit_char(c: char) -> bool {
    48 <= c as u32 <= 57
}

/// An ASCII letter.
pub open spec fn is_alpha_char(c: char) -> bool {
    (65 <= c as u32 <= 90) || (97 <= c as u32 <= 122)
}

/// One of the five operator characters.
pub open spec fn is_operator_char(c: char) -> bool {
    c == '+' || c == '-' || c == '*' || c == '/' || c == '^'
}

/// Whitespace that the parser skips.
pub open spec fn is_space_char(c: char) -> bool {
    c == ' ' || c == '\t' || c == '\r' || c == '\n'
}

/// The operator that an operator character denotes.
pub open spec fn op_of_char(c: char) -> MathOperator {
    if c == '+' {
        MathOperator::Add
    } else if c == '-' {
        MathOperator::Subtract
    } else if c == '*' {
        MathOperator::Multiply
    } else if c == '/' {
        MathOperator::Divide
    } else {
        MathOperator::Exponentiate
    }
}

/// The numeric value of a digit character.
pub open spec fn digit_value(c: char) -> int {
    c as u32 - 48
}

/// What parsing a run of digits starting at `pos` with the digits of `acc`
/// already read yields: the accumulated constant and the position right
/// after the run, or [`CalcError::Overflow`] once the accumulator would
/// leave `i32`.
pub open spec fn spec_parse_number(s: Seq<char>, pos: int, acc: i32) -> Result<(i32, int), CalcError>
    decreases s.len() - pos,
{
    if pos < 0 || pos >= s.len() || !is_digit_char(s[pos]) {
        Ok((acc, pos))
    } else if acc * 10 + digit_value(s[pos]) > i32::MAX {
        Err(CalcError::Overflow)
    } else {
        spec_parse_number(s, pos + 1, (acc * 10 + digit_value(s[pos])) as i32)
    }
}

/// What parsing one element starting at `pos` yields: the element's model
/// and the position right after it.
pub open spec fn spec_parse_element(s: Seq<char>, pos: int) -> Result<(SpecElement, int), CalcError>
    decreases s.len() - pos, 0int,
{
    if pos < 0 || pos >= s.len() {
        Err(CalcError::UnexpectedEndOfInput)
    } else {
        let c = s[pos];
        if c == '(' {
            match spec_group_items(s, pos + 1, Seq::empty()) {
                Ok((items, p)) => Ok((SpecElement::Group(items), p)),
                Err(e) => Err(e),
            }
        } else if is_digit_char(c) {
            match spec_parse_number(s, pos, 0) {
                Ok((v, p)) => Ok((SpecElement::Value(MathValue::Constant(v)), p)),
                Err(e) => Err(e),
            }
        } else if is_alpha_char(c) {
            Ok((SpecElement::Value(MathValue::Variable(c)), pos + 1))
        } else if is_operator_char(c) {
            Ok((SpecElement::Operator(op_of_char(c)), pos + 1))
        } else if is_space_char(c) {
            spec_parse_element(s, pos + 1)
        } else {
            Err(CalcError::UnexpectedCharacter)
        }
    }
}

/// What parsing the inside of a group starting at `pos` yields, with the
/// models of the members already parsed in `acc`: the members' models and
/// the position right after the closing `)` (or the end of the input, which
/// closes the group silently).
///
/// Parsing an element always advances the position
/// ([`lemma_parse_element_progress`]); the branch taken when it would not
/// only satisfies the termination checker and is never reached.
pub open spec fn spec_group_items(s: Seq<char>, pos: int, acc: Seq<SpecElement>) -> Result<
    (Seq<SpecElement>, int),
    CalcError,
>
    decreases s.len() - pos, 1int,
{
    if pos < 0 || pos >= s.len() {
        Ok((acc, pos))
    } else if s[pos] == ')' {
        Ok((acc, pos + 1))
    } else {
        match spec_parse_element(s, pos) {
            Err(e) => Err(e),
            Ok((el, p)) => if pos < p <= s.len() {
                spec_group_items(s, p, acc.push(el))
            } else {
                Err(CalcError::UnexpectedEndOfInput)
            },
        }
    }
}

/// What building a whole equation from `pos` on yields, with the models of
/// the elements already built in `acc`. A constant immediately followed by
/// a letter has a multiplication appended after it.
///
/// As in [`spec_group_items`], the non-advancing branch is never reached.
pub open spec fn spec_build_items(s: Seq<char>, pos: int, acc: Seq<SpecElement>) -> Result<
    Seq<SpecElement>,
    CalcError,
>
    decreases s.len() - pos,
{
    if pos < 0 || pos >= s.len() {
        Ok(acc)
    } else {
        match spec_parse_element(s, pos) {
            Err(e) => Err(e),
            Ok((el, p)) => if pos < p <= s.len() {
                spec_build_items(s, p, acc + implicit_multiply(s, p, el))
            } else {
                Err(CalcError::UnexpectedEndOfInput)
            },
        }
    }
}

/// One parsed element as it enters the equation: followed by a synthetic
/// multiplication when it is a constant and the character at `p`, right
/// after its digit run, is a letter.
pub open spec fn implicit_multiply(s: Seq<char>, p: int, el: SpecElement) -> Seq<SpecElement> {
    if el matches SpecElement::Value(MathValue::Constant(_)) && 0 <= p < s.len() && is_alpha_char(
        s[p],
    ) {
        seq![el, SpecElement::Operator(MathOperator::Multiply)]
    } else {
        seq![el]
    }
}

/// What building an equation from a whole character sequence yields.
pub open spec fn spec_build(s: Seq<char>) -> Result<Seq<SpecElement>, CalcError> {
    spec_build_items(s, 0, Seq::empty())
}

/// The value that the digits of `s` from `pos` on denote, read left to
/// right onto the accumulator `acc`.
pub open spec fn numeral_value_from(s: Seq<char>, pos: int, acc: int) -> int
    decreases s.len() - pos,
{
    if pos < 0 || pos >= s.len() || !is_digit_char(s[pos]) {
        acc
    } else {
        numeral_value_from(s, pos + 1, acc * 10 + digit_value(s[pos]))
    }
}

/// The value that a string of digits denotes.
pub open spec fn numeral_value(s: Seq<char>) -> int {
    numeral_value_from(s, 0, 0)
}

/// Reading further digits never shrinks a non-negative accumulator.
pub proof fn lemma_numeral_monotone(s: Seq<char>, pos: int, acc: int)
    requires
        acc >= 0,
    ensures
        numeral_value_from(s, pos, acc) >= acc,
    decreases s.len() - pos,
{
    if 0 <= pos < s.len() && is_digit_char(s[pos]) {
        lemma_numeral_monotone(s, pos + 1, acc * 10 + digit_value(s[pos]));
    }
}

/// On a digit run whose value fits `i32`, parsing reads every digit and
/// yields exactly the denoted value.
pub proof fn lemma_parse_number_digits(s: Seq<char>, pos: int, acc: i32)
    requires
        0 <= pos <= s.len(),
        acc >= 0,
        forall|i: int| pos <= i < s.len() ==> is_digit_char(#[trigger] s[i]),
        numeral_value_from(s, pos, acc as int) <= i32::MAX,
    ensures
        spec_parse_number(s, pos, acc) == Ok::<_, CalcError>(
            (numeral_value_from(s, pos, acc as int) as i32, s.len() as int),
        ),
    decreases s.len() - pos,
{
    if pos < s.len() {
        let step = acc * 10 + digit_value(s[pos]);
        lemma_numeral_monotone(s, pos + 1, step);
        lemma_parse_number_digits(s, pos + 1, step as i32);
    }
}

/// Parsing a digit run never moves the position backwards nor past the end,
/// and moves it forward when a digit stands at `pos`.
pub proof fn lemma_parse_number_progress(s: Seq<char>, pos: int, acc: i32)
    requires
        0 <= pos <= s.len(),
    ensures
        match spec_parse_number(s, pos, acc) {
            Ok((_, p)) => pos <= p <= s.len() && (pos < s.len() && is_digit_char(s[pos]) ==> pos
                < p),
            Err(_) => true,
        },
    decreases s.len() - pos,
{
    if pos < s.len() && is_digit_char(s[pos]) && acc * 10 + digit_value(s[pos]) <= i32::MAX {
        lemma_parse_number_progress(s, pos + 1, (acc * 10 + digit_value(s[pos])) as i32);
    }
}

/// Parsing one element always advances the position, and never past the
/// end.
pub proof fn lemma_parse_element_progress(s: Seq<char>, pos: int)
    requires
        0 <= pos <= s.len(),
    ensures
        match spec_parse_element(s, pos) {
            Ok((_, p)) => pos < p <= s.len(),
            Err(_) => true,
        },
    decreases s.len() - pos, 0int,
{
    if 0 <= pos < s.len() {
        let c = s[pos];
        if c == '(' {
            lemma_group_items_progress(s, pos + 1, Seq::empty());
        } else if is_digit_char(c) {
            lemma_parse_number_progress(s, pos, 0);
        } else if is_space_char(c) {
            lemma_parse_element_progress(s, pos + 1);
        }
    }
}

/// Parsing the inside of a group never moves the position backwards nor
/// past the end.
pub proof fn lemma_group_items_progress(s: Seq<char>, pos: int, acc: Seq<SpecElement>)
    requires
        0 <= pos <= s.len(),
    ensures
        match spec_group_items(s, pos, acc) {
            Ok((_, p)) => pos <= p <= s.len(),
            Err(_) => true,
        },
    decreases s.len() - pos, 1int,
{
    if 0 <= pos < s.len() && s[pos] != ')' {
        lemma_parse_element_progress(s, pos);
        match spec_parse_element(s, pos) {
            Err(_) => {},
            Ok((el, p)) => {
                lemma_group_items_progress(s, p, acc.push(el));
            },
        }
    }
}

/// The characters of a string, in order, as a vector.
pub fn to_char_vec(s: &str) -> (v: Vec<char>)
    ensures
        v@ == s@,
{
    let n = s.unicode_len();
    let mut v: Vec<char> = Vec::new();
    let mut i: usize = 0;
    while i < n
        invariant
            i <= n,
            n == s@.len(),
            v@ == s@.subrange(0, i as int),
        decreases n - i,
    {
        let c = s.get_char(i);
        v.push(c);
        proof {
            assert(v@ =~= s@.subrange(0, i + 1));
        }
        i += 1;
    }
    proof {
        assert(v@ =~= s@);
    }
    v
}

/// Whether `c` is a decimal digit.
fn is_digit(c: char) -> (r: bool)
    ensures
        r == is_digit_char(c),
{
    c as u32 >= 48 && c as u32 <= 57
}

/// Whether `c` is an ASCII letter.
fn is_alpha(c: char) -> (r: bool)
    ensures
        r == is_alpha_char(c),
{
    (c as u32 >= 65 && c as u32 <= 90) || (c as u32 >= 97 && c as u32 <= 122)
}

/// Whether `c` is an operator character.
fn is_operator(c: char) -> (r: bool)
    ensures
        r == is_operator_char(c),
{
    c == '+' || c == '-' || c == '*' || c == '/' || c == '^'
}

/// Whether `c` is whitespace that the parser skips.
fn is_space(c: char) -> (r: bool)
    ensures
        r == is_space_char(c),
{
    c == ' ' || c == '\t' || c == '\r' || c == '\n'
}

/// Reads a run of digits starting at `pos`, accumulating the constant in
/// base 10.
pub fn parse_number(chars: &Vec<char>, pos: usize) -> (r: Result<(i32, usize), CalcError>)
    requires
        pos <= chars@.len(),
    ensures
        match r {
            Ok((v, p)) => spec_parse_number(chars@, pos as int, 0) == Ok::<_, CalcError>(
                (v, p as int),
            ) && pos <= p <= chars@.len(),
            Err(e) => spec_parse_number(chars@, pos as int, 0) == Err::<(i32, int), _>(e),
        },
{
    let mut value: i32 = 0;
    let mut cur: usize = pos;
    while cur < chars.len() && is_digit(chars[cur])
        invariant
            pos <= cur <= chars@.len(),
            value >= 0,
            spec_parse_number(chars@, cur as int, value) == spec_parse_number(
                chars@,
                pos as int,
                0,
            ),
        decreases chars@.len() - cur,
    {
        let d = (chars[cur] as u32 - 48) as i32;
        match value.checked_mul(10) {
            Some(v10) => match v10.checked_add(d) {
                Some(v) => {
                    value = v;
                    cur += 1;
                },
                None => {
                    return Err(CalcError::Overflow);
                },
            },
            None => {
                return Err(CalcError::Overflow);
            },
        }
    }
    Ok((value, cur))
}

/// Reads a variable: a single character, consumed unconditionally.
pub fn parse_variable(chars: &Vec<char>, pos: usize) -> (r: (char, usize))
    requires
        pos < chars@.len(),
    ensures
        r.0 == chars@[pos as int],
        r.1 == pos + 1,
{
    proof {
        vstd::std_specs::vec::axiom_spec_len(chars);
    }
    (chars[pos], pos + 1)
}

/// Maps an operator character to its operator.
pub fn parse_operator(c: char) -> (r: MathOperator)
    requires
        is_operator_char(c),
    ensures
        r == op_of_char(c),
{
    if c == '+' {
        MathOperator::Add
    } else if c == '-' {
        MathOperator::Subtract
    } else if c == '*' {
        MathOperator::Multiply
    } else if c == '/' {
        MathOperator::Divide
    } else {
        MathOperator::Exponentiate
    }
}

/// Parses one element starting at `pos`: a group, a constant, a variable or
/// an operator, behind any amount of whitespace.
pub fn parse_element(chars: &Vec<char>, pos: usize) -> (r: Result<
    (EquationElement, usize),
    CalcError,
>)
    requires
        pos <= chars@.len(),
    ensures
        match r {
            Ok((el, p)) => spec_parse_element(chars@, pos as int) == Ok::<_, CalcError>(
                (elem_model(el), p as int),
            ) && pos < p <= chars@.len(),
            Err(e) => spec_parse_element(chars@, pos as int) == Err::<(SpecElement, int), _>(e),
        },
    decreases chars@.len() - pos, 1int,
{
    if pos >= chars.len() {
        return Err(CalcError::UnexpectedEndOfInput);
    }
    let c = chars[pos];
    if c == '(' {
        match parse_group(chars, pos) {
            Ok((items, p)) => {
                proof {
                    lemma_elem_model_group(items);
                }
                Ok((EquationElement::Group(items), p))
            },
            Err(e) => Err(e),
        }
    } else if is_digit(c) {
        match parse_number(chars, pos) {
            Ok((v, p)) => {
                proof {
                    lemma_parse_number_progress(chars@, pos as int, 0);
                    lemma_elem_model_value(MathValue::Constant(v));
                }
                Ok((EquationElement::Value(MathValue::Constant(v)), p))
            },
            Err(e) => Err(e),
        }
    } else if is_alpha(c) {
        let (name, p) = parse_variable(chars, pos);
        proof {
            lemma_elem_model_value(MathValue::Variable(name));
        }
        Ok((EquationElement::Value(MathValue::Variable(name)), p))
    } else if is_operator(c) {
        let op = parse_operator(c);
        proof {
            lemma_elem_model_operator(op);
        }
        Ok((EquationElement::Operator(op), pos + 1))
    } else if is_space(c) {
        parse_element(chars, pos + 1)
    } else {
        Err(CalcError::UnexpectedCharacter)
    }
}

/// Parses a group: consumes the `(` at `pos`, then elements until a `)` is
/// consumed or the input ends (which closes the group silently).
pub fn parse_group(chars: &Vec<char>, pos: usize) -> (r: Result<
    (Vec<EquationElement>, usize),
    CalcError,
>)
    requires
        pos < chars@.len(),
        chars@[pos as int] == '(',
    ensures
        match r {
            Ok((items, p)) => spec_group_items(chars@, pos + 1, Seq::empty()) == Ok::<
                _,
                CalcError,
            >((elems_model(items@), p as int)) && pos < p <= chars@.len(),
            Err(e) => spec_group_items(chars@, pos + 1, Seq::empty()) == Err::<
                (Seq<SpecElement>, int),
                _,
            >(e),
        },
    decreases chars@.len() - pos, 0int,
{
    let mut items: Vec<EquationElement> = Vec::new();
    proof {
        vstd::std_specs::vec::axiom_spec_len(chars);
        assert(elems_model(items@) =~= Seq::<SpecElement>::empty());
    }
    let mut cur: usize = pos + 1;
    loop
        invariant
            pos < cur <= chars@.len(),
            spec_group_items(chars@, cur as int, elems_model(items@)) == spec_group_items(
                chars@,
                pos + 1,
                Seq::empty(),
            ),
        decreases chars@.len() - cur,
    {
        if cur >= chars.len() {
            return Ok((items, cur));
        }
        if chars[cur] == ')' {
            return Ok((items, cur + 1));
        }
        match parse_element(chars, cur) {
            Err(e) => {
                return Err(e);
            },
            Ok((el, p)) => {
                proof {
                    lemma_elems_model_push(items@, el);
                }
                items.push(el);
                cur = p;
            },
        }
    }
}

/// The model of a sequence with one element appended is the model of the
/// sequence with the element's model appended.
pub proof fn lemma_elems_model_push(s: Seq<EquationElement>, e: EquationElement)
    ensures
        elems_model(s.push(e)) == elems_model(s).push(elem_model(e)),
{
    lemma_elems_model_pointwise(s);
    lemma_elems_model_pointwise(s.push(e));
    assert(elems_model(s.push(e)) =~= elems_model(s).push(elem_model(e)));
}

/// Builds the whole equation from its text: elements parsed left to right,
/// with a multiplication inserted after a constant that a letter follows
/// immediately.
pub fn build_eq(input: &String) -> (r: Result<Vec<EquationElement>, CalcError>)
    ensures
        match r {
            Ok(elements) => spec_build(input@) == Ok::<_, CalcError>(elems_model(elements@)),
            Err(e) => spec_build(input@) == Err::<Seq<SpecElement>, _>(e),
        },
{
    let chars = to_char_vec(input.as_str());
    let mut elements: Vec<EquationElement> = Vec::new();
    let mut cur: usize = 0;
    proof {
        assert(elems_model(elements@) =~= Seq::<SpecElement>::empty());
    }
    loop
        invariant
            cur <= chars@.len(),
            chars@ == input@,
            spec_build_items(chars@, cur as int, elems_model(elements@)) == spec_build(input@),
        decreases chars@.len() - cur,
    {
        if cur >= chars.len() {
            return Ok(elements);
        }
        match parse_element(&chars, cur) {
            Err(e) => {
                return Err(e);
            },
            Ok((el, p)) => {
                let ghost el_m = elem_model(el);
                let ghost acc = elems_model(elements@);
                let is_constant = match &el {
                    EquationElement::Value(MathValue::Constant(_)) => true,
                    _ => false,
                };
                proof {
                    lemma_elems_model_push(elements@, el);
                }
                elements.push(el);
                if is_constant && p < chars.len() && is_alpha(chars[p]) {
                    proof {
                        lemma_elems_model_push(
                            elements@,
                            EquationElement::Operator(MathOperator::Multiply),
                        );
                    }
                    elements.push(EquationElement::Operator(MathOperator::Multiply));
                }
                proof {
                    assert(elems_model(elements@) =~= acc + implicit_multiply(
                        chars@,
                        p as int,
                        el_m,
                    ));
                }
                cur = p;
            },
        }
    }
}

} // verus!
