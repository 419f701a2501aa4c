//! The parsed form of an equation: values, operators and parenthesized
//! groups, together with the mathematical model (`SpecElement`) that the
//! contracts of the builder and the evaluator speak about.

use vstd::prelude::*;

verus! {

broadcast use vstd::std_specs::vec::axiom_vec_index_decreases;

/// A leaf term: the bound variable (named by a single character) or a
/// non-negative integer constant.
#[derive(Debug, Clone, Copy, PartialEq, Eq, Structural)]
pub enum MathValue {
    Variable(char),
    Constant(i32),
}

/// A binary arithmetic operator. It carries no operands itself.
#[derive(Debug, Clone, Copy, PartialEq, Eq, Structural)]
pub enum MathOperator {
    Add,
    Subtract,
    Multiply,
    Divide,
    Exponentiate,
}

/// One node of the parsed equation: a value, an operator, or a
/// parenthesized group owning its child elements.
#[derive(Debug)]
pub enum EquationElement {
    Value(MathValue),
    Operator(MathOperator),
    Group(Vec<EquationElement>),
}

/// Why building or evaluating an equation failed. Every failure is fatal:
/// the whole calculation is abandoned, no partial result is returned.
#[derive(Debug, Clone, Copy, PartialEq, Eq, Structural)]
pub enum CalcError {
    /// A character matches none of: group delimiter, digit, letter,
    /// operator, whitespace.
    UnexpectedCharacter,
    /// A character was required (at the start of an element) but the input
    /// was exhausted.
    UnexpectedEndOfInput,
    /// A variable other than the reserved identifier `x` was evaluated.
    UnimplementedVariable,
    /// Evaluation did not reduce to exactly one residual value, or an
    /// operator found fewer than two operands.
    MalformedExpression,
    /// The divisor of a division was zero.
    DivisionByZero,
    /// The exponent of an exponentiation was negative.
    NegativeExponent,
    /// A parsed constant or an intermediate arithmetic result does not fit
    /// in the 32-bit signed integer width of the interpreter.
    Overflow,
}

/// The mathematical shape of one parsed element: the same tagged union as
/// [`EquationElement`], with groups holding a `Seq` instead of a `Vec`.
pub enum SpecElement {
    Value(MathValue),
    Operator(MathOperator),
    Group(Seq<SpecElement>),
}

/// The model of one parsed element.
pub open spec fn elem_model(e: EquationElement) -> SpecElement
    decreases e,
{
    match e {
        EquationElement::Value(v) => SpecElement::Value(v),
        EquationElement::Operator(op) => SpecElement::Operator(op),
        EquationElement::Group(g) => SpecElement::Group(elems_model(g@)),
    }
}

/// The model of a sequence of parsed elements (an equation or the contents
/// of a group).
pub open spec fn elems_model(s: Seq<EquationElement>) -> Seq<SpecElement>
    decreases s,
{
    if s.len() == 0 {
        Seq::empty()
    } else {
        seq![elem_model(s[0])] + elems_model(s.subrange(1, s.len() as int))
    }
}

/// The model of a value element.
pub proof fn lemma_elem_model_value(v: MathValue)
    ensures
        elem_model(EquationElement::Value(v)) == SpecElement::Value(v),
{
}

/// The model of an operator element.
pub proof fn lemma_elem_model_operator(op: MathOperator)
    ensures
        elem_model(EquationElement::Operator(op)) == SpecElement::Operator(op),
{
}

/// The model of a group element.
pub proof fn lemma_elem_model_group(g: Vec<EquationElement>)
    ensures
        elem_model(EquationElement::Group(g)) == SpecElement::Group(elems_model(g@)),
{
}

/// The model of a sequence of elements is the sequence of the models of its
/// elements.
pub proof fn lemma_elems_model_pointwise(s: Seq<EquationElement>)
    ensures
        elems_model(s).len() == s.len(),
        forall|i: int| 0 <= i < s.len() ==> elems_model(s)[i] == elem_model(s[i]),
    decreases s.len(),
{
    if s.len() > 0 {
        lemma_elems_model_pointwise(s.subrange(1, s.len() as int));
    }
}

} // verus!
