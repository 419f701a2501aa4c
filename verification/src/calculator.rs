//! The entry point of the interpreter: build the equation once, then
//! evaluate it for every integer bound value in `[0, sample_count)`, in
//! ascending order, collecting one result per sample.

use vstd::prelude::*;

use crate::ast::{CalcError, MathOperator, MathValue, SpecElement};
use crate::ast::elems_model;
use crate::eval::{evaluate_eq, spec_apply_top, spec_drain_all, spec_drain_for, spec_eval,
    spec_eval_from, spec_finish};
use crate::parser::{
    build_eq, implicit_multiply, is_alpha_char, is_digit_char, numeral_value,
    lemma_parse_number_digits, op_of_char, spec_build, spec_build_items, spec_parse_element,
    spec_parse_number,
};

verus! {

/// What sampling an equation over the bound values `0, 1, ..., n - 1`
/// yields: one result per value, in ascending order of the bound value, or
/// the error of the first failing sample. A bound value beyond `i32::MAX`
/// cannot be represented and is an overflow.
pub open spec fn spec_samples(elems: Seq<SpecElement>, n: nat) -> Result<Seq<i32>, CalcError>
    decreases n,
{
    if n == 0 {
        Ok(Seq::empty())
    } else {
        match spec_samples(elems, (n - 1) as nat) {
            Err(e) => Err(e),
            Ok(prefix) => if n - 1 > i32::MAX {
                Err(CalcError::Overflow)
            } else {
                match spec_eval(elems, (n - 1) as i32) {
                    Err(e) => Err(e),
                    Ok(v) => Ok(prefix.push(v)),
                }
            },
        }
    }
}

/// What the whole calculation yields: the built equation sampled over
/// `[0, n)`, or the error of building or of the first failing sample.
pub open spec fn spec_calculate(s: Seq<char>, n: nat) -> Result<Seq<i32>, CalcError> {
    match spec_build(s) {
        Err(e) => Err(e),
        Ok(elems) => spec_samples(elems, n),
    }
}

/// A failing prefix of samples makes every longer sampling fail the same
/// way.
proof fn lemma_samples_err_persists(elems: Seq<SpecElement>, j: nat, k: nat)
    requires
        j <= k,
        spec_samples(elems, j) is Err,
    ensures
        spec_samples(elems, k) == spec_samples(elems, j),
    decreases k - j,
{
    if k > j {
        lemma_samples_err_persists(elems, j, (k - 1) as nat);
    }
}

/// When every sample in range succeeds, sampling succeeds and the sequence
/// holds, at index `i`, exactly the evaluation at bound value `i`.
pub proof fn lemma_samples_pointwise(elems: Seq<SpecElement>, n: nat)
    requires
        n <= i32::MAX + 1,
        forall|x: i32| 0 <= x < n ==> (#[trigger] spec_eval(elems, x)) is Ok,
    ensures
        spec_samples(elems, n) is Ok,
        spec_samples(elems, n)->Ok_0.len() == n,
        forall|i: int|
            0 <= i < n ==> spec_samples(elems, n)->Ok_0[i] == spec_eval(elems, i as i32)->Ok_0,
    decreases n,
{
    if n > 0 {
        lemma_samples_pointwise(elems, (n - 1) as nat);
        assert(spec_eval(elems, (n - 1) as i32) is Ok);
    }
}

/// Builds the equation once and evaluates it for every bound value in
/// `[0, ending_x)` in ascending order: the result at index `i` is the
/// evaluation at bound value `i`. The first failure — of the build or of
/// the sample with the smallest bound value — is the result, and nothing
/// partial is returned.
#[verifier::loop_isolation(false)]
pub fn calculate_eq(equation: &String, ending_x: usize) -> (r: Result<Vec<i32>, CalcError>)
    ensures
        match r {
            Ok(v) => {
                &&& spec_calculate(equation@, ending_x as nat) == Ok::<Seq<i32>, CalcError>(v@)
                &&& spec_build(equation@) is Ok
                &&& v@.len() == ending_x
                &&& forall|i: int|
                    0 <= i < ending_x ==> spec_eval(spec_build(equation@)->Ok_0, i as i32) == Ok::<
                        i32,
                        CalcError,
                    >(#[trigger] v@[i])
            },
            Err(e) => spec_calculate(equation@, ending_x as nat) == Err::<Seq<i32>, CalcError>(e),
        },
{
    let eq = match build_eq(equation) {
        Ok(eq) => eq,
        Err(e) => {
            return Err(e);
        },
    };
    let ghost m = elems_model(eq@);
    let mut y_range: Vec<i32> = Vec::new();
    proof {
        assert(y_range@ =~= Seq::<i32>::empty());
    }
    let mut x_integer: usize = 0;
    while x_integer < ending_x
        invariant
            x_integer <= ending_x,
            y_range@.len() == x_integer,
            spec_samples(m, x_integer as nat) == Ok::<Seq<i32>, CalcError>(y_range@),
            forall|i: int|
                0 <= i < x_integer ==> spec_eval(m, i as i32) == Ok::<i32, CalcError>(
                    #[trigger] y_range@[i],
                ),
        decreases ending_x - x_integer,
    {
        if x_integer > i32::MAX as usize {
            proof {
                assert(spec_samples(m, (x_integer + 1) as nat) == Err::<Seq<i32>, CalcError>(
                    CalcError::Overflow,
                ));
                lemma_samples_err_persists(m, (x_integer + 1) as nat, ending_x as nat);
            }
            return Err(CalcError::Overflow);
        }
        let value = match evaluate_eq(&eq, x_integer as i32) {
            Ok(v) => v,
            Err(e) => {
                proof {
                    assert(spec_samples(m, (x_integer + 1) as nat) == Err::<Seq<i32>, CalcError>(
                        e,
                    ));
                    lemma_samples_err_persists(m, (x_integer + 1) as nat, ending_x as nat);
                }
                return Err(e);
            },
        };
        y_range.push(value);
        x_integer += 1;
    }
    Ok(y_range)
}

/// An equation that is one constant evaluates to that constant at every
/// sample: the result is `n` copies of the constant, whatever the bound
/// values.
pub proof fn lemma_constant_equation(s: Seq<char>, n: nat)
    requires
        s.len() > 0,
        forall|i: int| 0 <= i < s.len() ==> is_digit_char(#[trigger] s[i]),
        numeral_value(s) <= i32::MAX,
        n <= i32::MAX + 1,
    ensures
        spec_calculate(s, n) == Ok::<Seq<i32>, CalcError>(
            Seq::new(n, |i: int| numeral_value(s) as i32),
        ),
{
    lemma_parse_number_digits(s, 0, 0);
    let c_val = numeral_value(s) as i32;
    let el = SpecElement::Value(MathValue::Constant(c_val));
    assert(spec_parse_element(s, 0) == Ok::<_, CalcError>((el, s.len() as int)));
    let one = seq![el];
    assert(Seq::<SpecElement>::empty() + implicit_multiply(s, s.len() as int, el) =~= one);
    assert(spec_build_items(s, s.len() as int, one) == Ok::<Seq<SpecElement>, CalcError>(one));
    assert(spec_build(s) == Ok::<Seq<SpecElement>, CalcError>(one));
    assert forall|x: i32| 0 <= x < n implies (#[trigger] spec_eval(one, x)) == Ok::<
        i32,
        CalcError,
    >(c_val) by {
        lemma_eval_single_constant(c_val, x);
    }
    lemma_samples_pointwise(one, n);
    assert(spec_samples(one, n)->Ok_0 =~= Seq::new(n, |i: int| numeral_value(s) as i32));
}

/// Evaluating the one-element equation `[constant v]` yields `v`.
proof fn lemma_eval_single_constant(v: i32, x: i32)
    ensures
        spec_eval(seq![SpecElement::Value(MathValue::Constant(v))], x) == Ok::<i32, CalcError>(v),
{
    let elems = seq![SpecElement::Value(MathValue::Constant(v))];
    let stack = Seq::<i32>::empty().push(v);
    assert(spec_eval_from(elems, 0, Seq::empty(), Seq::empty(), x) == spec_eval_from(
        elems,
        1,
        stack,
        Seq::empty(),
        x,
    ));
    assert(spec_eval_from(elems, 1, stack, Seq::empty(), x) == spec_finish(stack, Seq::empty()));
    assert(spec_drain_all(stack, Seq::empty()) == Ok::<Seq<i32>, CalcError>(stack));
    assert(stack.len() == 1 && stack[0] == v);
}

/// Evaluating the one-element equation `[variable x]` yields the bound
/// value.
proof fn lemma_eval_single_variable(x: i32)
    ensures
        spec_eval(seq![SpecElement::Value(MathValue::Variable('x'))], x) == Ok::<i32, CalcError>(x),
{
    let elems = seq![SpecElement::Value(MathValue::Variable('x'))];
    let stack = Seq::<i32>::empty().push(x);
    assert(spec_eval_from(elems, 0, Seq::empty(), Seq::empty(), x) == spec_eval_from(
        elems,
        1,
        stack,
        Seq::empty(),
        x,
    ));
    assert(spec_eval_from(elems, 1, stack, Seq::empty(), x) == spec_finish(stack, Seq::empty()));
    assert(spec_drain_all(stack, Seq::empty()) == Ok::<Seq<i32>, CalcError>(stack));
    assert(stack.len() == 1 && stack[0] == x);
}

/// The equation `x` samples to the identity: the result at index `i` is
/// `i` itself, for every sample count that the 32-bit bound value admits.
pub proof fn lemma_identity_equation(n: nat)
    requires
        n <= i32::MAX + 1,
    ensures
        spec_calculate(seq!['x'], n) == Ok::<Seq<i32>, CalcError>(Seq::new(n, |i: int| i as i32)),
{
    let s = seq!['x'];
    let el = SpecElement::Value(MathValue::Variable('x'));
    let one = seq![el];
    assert(is_alpha_char('x') && !is_digit_char('x') && 'x' != '(');
    assert(spec_parse_element(s, 0) == Ok::<_, CalcError>((el, 1int)));
    assert(Seq::<SpecElement>::empty() + implicit_multiply(s, 1, el) =~= one);
    assert(spec_build_items(s, 1, one) == Ok::<Seq<SpecElement>, CalcError>(one));
    assert(spec_build(s) == Ok::<Seq<SpecElement>, CalcError>(one));
    assert forall|x: i32| 0 <= x < n implies (#[trigger] spec_eval(one, x)) is Ok by {
        lemma_eval_single_variable(x);
    }
    lemma_samples_pointwise(one, n);
    assert forall|i: int| 0 <= i < n implies spec_samples(one, n)->Ok_0[i] == i as i32 by {
        lemma_eval_single_variable(i as i32);
    }
    assert(spec_samples(one, n)->Ok_0 =~= Seq::new(n, |i: int| i as i32));
}

/// An equation that ends in a dangling operator fails for every sample
/// count that asks for at least one sample: `2+` builds, but its evaluation
/// finds only one operand for the addition, a malformed expression. (With
/// no samples asked for, nothing is evaluated and the empty sequence is
/// returned.)
pub proof fn lemma_dangling_operator_fails(n: nat)
    requires
        n >= 1,
    ensures
        spec_calculate(seq!['2', '+'], n) == Err::<Seq<i32>, CalcError>(
            CalcError::MalformedExpression,
        ),
{
    let s = seq!['2', '+'];
    let el0 = SpecElement::Value(MathValue::Constant(2));
    let el1 = SpecElement::Operator(MathOperator::Add);
    let elems = seq![el0, el1];
    // Building reads the constant, then the operator, and succeeds.
    assert(spec_parse_number(s, 1, 2) == Ok::<_, CalcError>((2i32, 1int)));
    assert(spec_parse_number(s, 0, 0) == Ok::<_, CalcError>((2i32, 1int)));
    assert(spec_parse_element(s, 0) == Ok::<_, CalcError>((el0, 1int)));
    assert(op_of_char('+') == MathOperator::Add);
    assert(spec_parse_element(s, 1) == Ok::<_, CalcError>((el1, 2int)));
    assert(Seq::<SpecElement>::empty() + implicit_multiply(s, 1, el0) =~= seq![el0]);
    assert(seq![el0] + implicit_multiply(s, 2, el1) =~= elems);
    assert(spec_build_items(s, 2, elems) == Ok::<Seq<SpecElement>, CalcError>(elems));
    assert(spec_build_items(s, 1, seq![el0]) == Ok::<Seq<SpecElement>, CalcError>(elems));
    assert(spec_build(s) == Ok::<Seq<SpecElement>, CalcError>(elems));
    // Evaluation stacks the constant, stacks the addition, and then finds a
    // single operand for it.
    let stack = Seq::<i32>::empty().push(2);
    let pending = Seq::<MathOperator>::empty().push(MathOperator::Add);
    assert(spec_drain_for(MathOperator::Add, stack, Seq::empty()) == Ok::<
        (Seq<i32>, Seq<MathOperator>),
        CalcError,
    >((stack, Seq::empty())));
    assert(spec_eval_from(elems, 0, Seq::empty(), Seq::empty(), 0i32) == spec_eval_from(
        elems,
        1,
        stack,
        Seq::empty(),
        0i32,
    ));
    assert(spec_eval_from(elems, 1, stack, Seq::empty(), 0i32) == spec_eval_from(
        elems,
        2,
        stack,
        pending,
        0i32,
    ));
    assert(stack.len() < 2);
    assert(spec_apply_top(stack, MathOperator::Add) == Err::<Seq<i32>, CalcError>(
        CalcError::MalformedExpression,
    ));
    assert(pending[pending.len() - 1] == MathOperator::Add);
    assert(spec_drain_all(stack, pending) == Err::<Seq<i32>, CalcError>(
        CalcError::MalformedExpression,
    ));
    assert(spec_eval(elems, 0i32) == Err::<i32, CalcError>(CalcError::MalformedExpression));
    assert(spec_samples(elems, 0) == Ok::<Seq<i32>, CalcError>(Seq::empty()));
    assert(spec_samples(elems, 1) == Err::<Seq<i32>, CalcError>(CalcError::MalformedExpression));
    lemma_samples_err_persists(elems, 1, n);
}

} // verus!
