//! The equation evaluator: a single pass over the element sequence with a
//! value stack and a pending-operator stack, recursing into groups.
//!
//! Arithmetic is 32-bit signed and checked: a result outside `i32` is the
//! fatal [`CalcError::Overflow`]. Division truncates toward zero and rejects
//! a zero divisor. An exponent must be non-negative; a negative one is the
//! fatal [`CalcError::NegativeExponent`].

use vstd::prelude::*;

use crate::ast::{CalcError, EquationElement, MathOperator, MathValue, SpecElement};
use crate::ast::{elems_model, lemma_elems_model_pointwise};

verus! {

broadcast use vstd::std_specs::vec::axiom_vec_index_decreases;

/// Whether the operator on top of the pending stack must be applied before
/// the newly read operator is stacked. An exponent is never preempted and
/// always resolved first once stacked; a multiplicative operator does not
/// let a stacked additive one collapse early; everything else reduces left
/// to right.
pub open spec fn spec_should_apply(new_op: MathOperator, top_op: MathOperator) -> bool {
    match (new_op, top_op) {
        (MathOperator::Exponentiate, _) => false,
        (_, MathOperator::Exponentiate) => true,
        (MathOperator::Multiply, MathOperator::Add) => false,
        (MathOperator::Multiply, MathOperator::Subtract) => false,
        (MathOperator::Divide, MathOperator::Add) => false,
        (MathOperator::Divide, MathOperator::Subtract) => false,
        _ => true,
    }
}

/// Whether `v` fits the 32-bit signed width of the interpreter.
pub open spec fn in_i32(v: int) -> bool {
    i32::MIN <= v <= i32::MAX
}

/// Integer division truncating toward zero (the divisor must not be zero).
pub open spec fn trunc_div(a: int, b: int) -> int
    recommends
        b != 0,
{
    if a == 0 {
        0
    } else if a > 0 && b > 0 {
        a / b
    } else if a < 0 && b < 0 {
        (a * -1) / (b * -1)
    } else if a < 0 {
        ((a * -1) / b) * -1
    } else {
        (a / (b * -1)) * -1
    }
}

/// `a` raised to the non-negative exponent `b` by repeated checked
/// multiplication; the first intermediate product outside `i32` is an
/// overflow.
pub open spec fn spec_pow(a: i32, b: nat) -> Result<i32, CalcError>
    decreases b,
{
    if b == 0 {
        Ok(1i32)
    } else {
        match spec_pow(a, (b - 1) as nat) {
            Err(e) => Err(e),
            Ok(p) => if in_i32(p * a) {
                Ok((p * a) as i32)
            } else {
                Err(CalcError::Overflow)
            },
        }
    }
}

/// What applying `op` to the operands `a` and `b` (in that order) yields.
pub open spec fn spec_apply(op: MathOperator, a: i32, b: i32) -> Result<i32, CalcError> {
    match op {
        MathOperator::Add => if in_i32(a + b) {
            Ok((a + b) as i32)
        } else {
            Err(CalcError::Overflow)
        },
        MathOperator::Subtract => if in_i32(a - b) {
            Ok((a - b) as i32)
        } else {
            Err(CalcError::Overflow)
        },
        MathOperator::Multiply => if in_i32(a * b) {
            Ok((a * b) as i32)
        } else {
            Err(CalcError::Overflow)
        },
        MathOperator::Divide => if b == 0 {
            Err(CalcError::DivisionByZero)
        } else if in_i32(trunc_div(a as int, b as int)) {
            Ok(trunc_div(a as int, b as int) as i32)
        } else {
            Err(CalcError::Overflow)
        },
        MathOperator::Exponentiate => if b < 0 {
            Err(CalcError::NegativeExponent)
        } else {
            spec_pow(a, b as nat)
        },
    }
}

/// What applying `op` to the two topmost values of the stack yields: the
/// two are replaced by the one result. Fewer than two operands make the
/// expression malformed.
pub open spec fn spec_apply_top(output: Seq<i32>, op: MathOperator) -> Result<Seq<i32>, CalcError> {
    if output.len() < 2 {
        Err(CalcError::MalformedExpression)
    } else {
        let b = output[output.len() - 1];
        let a = output[output.len() - 2];
        match spec_apply(op, a, b) {
            Err(e) => Err(e),
            Ok(v) => Ok(output.subrange(0, output.len() - 2).push(v)),
        }
    }
}

/// The stacks after every pending operator that must precede `new_op` has
/// been applied.
pub open spec fn spec_drain_for(
    new_op: MathOperator,
    output: Seq<i32>,
    ops: Seq<MathOperator>,
) -> Result<(Seq<i32>, Seq<MathOperator>), CalcError>
    decreases ops.len(),
{
    if ops.len() == 0 {
        Ok((output, ops))
    } else if spec_should_apply(new_op, ops[ops.len() - 1]) {
        match spec_apply_top(output, ops[ops.len() - 1]) {
            Err(e) => Err(e),
            Ok(out2) => spec_drain_for(new_op, out2, ops.drop_last()),
        }
    } else {
        Ok((output, ops))
    }
}

/// The value stack after every still-pending operator has been applied, in
/// stack order.
pub open spec fn spec_drain_all(output: Seq<i32>, ops: Seq<MathOperator>) -> Result<
    Seq<i32>,
    CalcError,
>
    decreases ops.len(),
{
    if ops.len() == 0 {
        Ok(output)
    } else {
        match spec_apply_top(output, ops[ops.len() - 1]) {
            Err(e) => Err(e),
            Ok(out2) => spec_drain_all(out2, ops.drop_last()),
        }
    }
}

/// The result of an exhausted element sequence: all pending operators
/// applied, and exactly one residual value left on the stack.
pub open spec fn spec_finish(output: Seq<i32>, ops: Seq<MathOperator>) -> Result<i32, CalcError> {
    match spec_drain_all(output, ops) {
        Err(e) => Err(e),
        Ok(out) => if out.len() == 1 {
            Ok(out[0])
        } else {
            Err(CalcError::MalformedExpression)
        },
    }
}

/// What evaluating the elements of `elems` from index `i` on yields, with
/// the stacks holding `output` and `ops` and the variable bound to `x`.
pub open spec fn spec_eval_from(
    elems: Seq<SpecElement>,
    i: int,
    output: Seq<i32>,
    ops: Seq<MathOperator>,
    x: i32,
) -> Result<i32, CalcError>
    decreases elems, elems.len() - i,
{
    if i < 0 || i >= elems.len() {
        spec_finish(output, ops)
    } else {
        match elems[i] {
            SpecElement::Value(MathValue::Variable(c)) => if c == 'x' {
                spec_eval_from(elems, i + 1, output.push(x), ops, x)
            } else {
                Err(CalcError::UnimplementedVariable)
            },
            SpecElement::Value(MathValue::Constant(v)) => spec_eval_from(
                elems,
                i + 1,
                output.push(v),
                ops,
                x,
            ),
            SpecElement::Operator(op) => match spec_drain_for(op, output, ops) {
                Err(e) => Err(e),
                Ok((out2, ops2)) => spec_eval_from(elems, i + 1, out2, ops2.push(op), x),
            },
            SpecElement::Group(g) => match spec_eval_from(g, 0, Seq::empty(), Seq::empty(), x) {
                Err(e) => Err(e),
                Ok(v) => spec_eval_from(elems, i + 1, output.push(v), ops, x),
            },
        }
    }
}

/// What evaluating a whole element sequence with the variable bound to `x`
/// yields.
pub open spec fn spec_eval(elems: Seq<SpecElement>, x: i32) -> Result<i32, CalcError> {
    spec_eval_from(elems, 0, Seq::empty(), Seq::empty(), x)
}

/// Evaluation is a function of the element sequence and the bound value
/// alone: any two results obtained for the same pair agree, so evaluating
/// one built equation twice cannot differ.
pub proof fn lemma_eval_deterministic(
    elems: Seq<SpecElement>,
    x: i32,
    r1: Result<i32, CalcError>,
    r2: Result<i32, CalcError>,
)
    requires
        r1 == spec_eval(elems, x),
        r2 == spec_eval(elems, x),
    ensures
        r1 == r2,
{
}

/// Once repeated multiplication has overflowed, every higher exponent
/// overflows too.
proof fn lemma_pow_err_persists(a: i32, j: nat, k: nat)
    requires
        j <= k,
        spec_pow(a, j) == Err::<i32, CalcError>(CalcError::Overflow),
    ensures
        spec_pow(a, k) == Err::<i32, CalcError>(CalcError::Overflow),
    decreases k - j,
{
    if k > j {
        lemma_pow_err_persists(a, j, (k - 1) as nat);
    }
}

/// Decides the precedence rule between the newly read operator and the one
/// on top of the pending stack.
pub fn should_apply_before_top_operator(new_op: MathOperator, top_op: MathOperator) -> (r: bool)
    ensures
        r == spec_should_apply(new_op, top_op),
{
    match (new_op, top_op) {
        (MathOperator::Exponentiate, _) => false,
        (_, MathOperator::Exponentiate) => true,
        (MathOperator::Multiply, MathOperator::Add) => false,
        (MathOperator::Multiply, MathOperator::Subtract) => false,
        (MathOperator::Divide, MathOperator::Add) => false,
        (MathOperator::Divide, MathOperator::Subtract) => false,
        _ => true,
    }
}

/// `a` raised to the non-negative exponent `b`.
fn pow_i32(a: i32, b: i32) -> (r: Result<i32, CalcError>)
    requires
        b >= 0,
    ensures
        r == spec_pow(a, b as nat),
{
    let mut result: i32 = 1;
    let mut i: i32 = 0;
    while i < b
        invariant
            0 <= i <= b,
            spec_pow(a, i as nat) == Ok::<i32, CalcError>(result),
        decreases b - i,
    {
        match result.checked_mul(a) {
            Some(v) => {
                result = v;
                i += 1;
            },
            None => {
                proof {
                    lemma_pow_err_persists(a, (i + 1) as nat, b as nat);
                }
                return Err(CalcError::Overflow);
            },
        }
    }
    Ok(result)
}

/// Applies `op` to the operands `a` and `b`, checked.
pub fn apply_operator(op: MathOperator, a: i32, b: i32) -> (r: Result<i32, CalcError>)
    ensures
        r == spec_apply(op, a, b),
{
    match op {
        MathOperator::Add => match a.checked_add(b) {
            Some(v) => Ok(v),
            None => Err(CalcError::Overflow),
        },
        MathOperator::Subtract => match a.checked_sub(b) {
            Some(v) => Ok(v),
            None => Err(CalcError::Overflow),
        },
        MathOperator::Multiply => match a.checked_mul(b) {
            Some(v) => Ok(v),
            None => Err(CalcError::Overflow),
        },
        MathOperator::Divide => if b == 0 {
            Err(CalcError::DivisionByZero)
        } else {
            match a.checked_div(b) {
                Some(v) => Ok(v),
                None => Err(CalcError::Overflow),
            }
        },
        MathOperator::Exponentiate => if b < 0 {
            Err(CalcError::NegativeExponent)
        } else {
            pow_i32(a, b)
        },
    }
}

/// Pops the two topmost values, applies `op` to them, and pushes the
/// result.
pub fn apply_top_operator(output: &mut Vec<i32>, operator: MathOperator) -> (r: Result<
    (),
    CalcError,
>)
    ensures
        match r {
            Ok(_) => spec_apply_top(old(output)@, operator) == Ok::<Seq<i32>, CalcError>(
                final(output)@,
            ),
            Err(e) => spec_apply_top(old(output)@, operator) == Err::<Seq<i32>, CalcError>(e),
        },
{
    let n = output.len();
    if n < 2 {
        return Err(CalcError::MalformedExpression);
    }
    let b = output[n - 1];
    let a = output[n - 2];
    match apply_operator(operator, a, b) {
        Err(e) => Err(e),
        Ok(v) => {
            let ghost before = output@;
            output.pop();
            output.pop();
            output.push(v);
            proof {
                assert(output@ =~= before.subrange(0, before.len() - 2).push(v));
            }
            Ok(())
        },
    }
}

/// Evaluates an element sequence with the variable bound to `x_value`:
/// values are stacked, groups are evaluated recursively to one value,
/// operators are applied by the precedence rule, and exactly one residual
/// value must remain.
#[verifier::loop_isolation(false)]
pub fn evaluate_eq(elements: &Vec<EquationElement>, x_value: i32) -> (r: Result<i32, CalcError>)
    ensures
        match r {
            Ok(v) => spec_eval(elems_model(elements@), x_value) == Ok::<i32, CalcError>(v),
            Err(e) => spec_eval(elems_model(elements@), x_value) == Err::<i32, CalcError>(e),
        },
    decreases elements,
{
    let ghost m = elems_model(elements@);
    proof {
        lemma_elems_model_pointwise(elements@);
    }
    let mut output: Vec<i32> = Vec::new();
    let mut operators: Vec<MathOperator> = Vec::new();
    proof {
        assert(output@ =~= Seq::<i32>::empty());
        assert(operators@ =~= Seq::<MathOperator>::empty());
    }
    let n = elements.len();
    let mut idx: usize = 0;
    while idx < n
        invariant
            n == elements@.len(),
            idx <= n,
            m == elems_model(elements@),
            m.len() == n,
            forall|j: int| 0 <= j < n ==> m[j] == crate::ast::elem_model(elements@[j]),
            spec_eval_from(m, idx as int, output@, operators@, x_value) == spec_eval(m, x_value),
        decreases n - idx,
    {
        let ghost out0 = output@;
        let ghost ops0 = operators@;
        match &elements[idx] {
            EquationElement::Value(value) => {
                proof {
                    crate::ast::lemma_elem_model_value(*value);
                }
                match value {
                    MathValue::Variable(name) => {
                        if *name == 'x' {
                            output.push(x_value);
                        } else {
                            return Err(CalcError::UnimplementedVariable);
                        }
                    },
                    MathValue::Constant(c) => {
                        output.push(*c);
                    },
                }
            },
            EquationElement::Operator(operator) => {
                let op = *operator;
                proof {
                    crate::ast::lemma_elem_model_operator(op);
                }
                loop
                    invariant
                        spec_drain_for(op, output@, operators@) == spec_drain_for(op, out0, ops0),
                    decreases operators@.len(),
                {
                    let k = operators.len();
                    if k == 0 {
                        break ;
                    }
                    let top = operators[k - 1];
                    if should_apply_before_top_operator(op, top) {
                        let ghost ops_before = operators@;
                        operators.pop();
                        proof {
                            assert(operators@ =~= ops_before.drop_last());
                        }
                        match apply_top_operator(&mut output, top) {
                            Ok(_) => {},
                            Err(e) => {
                                return Err(e);
                            },
                        }
                    } else {
                        break ;
                    }
                }
                operators.push(op);
            },
            EquationElement::Group(group_elements) => {
                proof {
                    crate::ast::lemma_elem_model_group(*group_elements);
                    assert(decreases_to!(*elements => elements@[idx as int]));
                    assert(decreases_to!(elements@[idx as int] => *group_elements));
                }
                match evaluate_eq(group_elements, x_value) {
                    Err(e) => {
                        return Err(e);
                    },
                    Ok(group_result) => {
                        output.push(group_result);
                    },
                }
            },
        }
        idx += 1;
    }
    let ghost out0 = output@;
    let ghost ops0 = operators@;
    loop
        invariant
            spec_drain_all(output@, operators@) == spec_drain_all(out0, ops0),
        decreases operators@.len(),
    {
        let k = operators.len();
        if k == 0 {
            break ;
        }
        let top = operators[k - 1];
        let ghost ops_before = operators@;
        operators.pop();
        proof {
            assert(operators@ =~= ops_before.drop_last());
        }
        match apply_top_operator(&mut output, top) {
            Ok(_) => {},
            Err(e) => {
                return Err(e);
            },
        }
    }
    if output.len() == 1 {
        Ok(output[0])
    } else {
        Err(CalcError::MalformedExpression)
    }
}

} // verus!
