//! Conversion of a parsed feature (declared variables and predicates over
//! them) into the transfer objects consumed by the test-case generator.
//!
//! The conversion is a pure mapping: each condition is looked up against the
//! declared variables, boolean conditions become [`BoolDTO`]s, and range
//! conditions become [`IntervalDTO`]s carrying the precision of the
//! variable's declared type.  A condition on an undeclared variable, or a
//! range condition on a type without a precision, cannot be converted, so
//! the contracts require every condition to be convertible.

use crate::multi_interval::MultiInterval;
use vstd::prelude::*;

verus! {

/// The declared type of a variable: boolean, or numeric with the precision
/// (grid step) used downstream when concrete values are drawn.
#[derive(Clone, Copy, Debug, PartialEq, Eq, Structural)]
pub enum VarType {
    Boolean,
    Numeric { precision: u64 },
}

impl VarType {
    /// The precision associated with the type, if it has one.
    pub open spec fn spec_precision(self) -> Option<u64> {
        match self {
            VarType::Boolean => None,
            VarType::Numeric { precision } => Some(precision),
        }
    }

    /// Returns the precision associated with the type, if it has one.
    pub fn get_precision(&self) -> (r: Option<u64>)
        ensures
            r == self.spec_precision(),
    {
        match *self {
            VarType::Boolean => None,
            VarType::Numeric { precision } => Some(precision),
        }
    }
}

/// A declared variable: its name and its type.
#[derive(Debug)]
pub struct Variable {
    pub var_name: String,
    pub var_type: VarType,
}

/// The relational tag a range condition carries; the conversion moves it
/// through unchanged.
#[derive(Clone, Copy, Debug, PartialEq, Eq, Structural)]
pub enum IntervalExpression {
    EqualTo,
    NotEqualTo,
}

/// A condition on a boolean variable.
#[derive(Debug)]
pub struct BoolCondition {
    pub var_name: String,
    pub should_equal_to: bool,
}

/// A condition restricting a numeric variable to a union of ranges.
#[derive(Debug)]
pub struct IntervalCondition {
    pub var_name: String,
    pub expression: IntervalExpression,
    pub interval: MultiInterval,
}

/// One condition of a predicate.
#[derive(Debug)]
pub enum Condition {
    Bool(BoolCondition),
    Interval(IntervalCondition),
}

impl Condition {
    /// The name of the variable the condition speaks about.
    pub open spec fn spec_variable(self) -> Seq<char> {
        match self {
            Condition::Bool(c) => c.var_name@,
            Condition::Interval(c) => c.var_name@,
        }
    }

    /// Returns the name of the variable the condition speaks about.
    pub fn get_variable(&self) -> (r: &String)
        ensures
            r@ == self.spec_variable(),
    {
        match self {
            Condition::Bool(c) => &c.var_name,
            Condition::Interval(c) => &c.var_name,
        }
    }
}

/// A predicate: a conjunction of conditions.
pub type Predicate = Vec<Condition>;

/// A parsed feature: its declared variables and its predicates.
#[derive(Debug)]
pub struct Feature {
    pub variables: Vec<Variable>,
    pub predicates: Vec<Predicate>,
}

/// The expression tag of a boolean transfer object.
#[derive(Clone, Copy, Debug, PartialEq, Eq, Structural)]
pub enum BoolExpression {
    IsTrue,
    IsFalse,
}

/// Transfer object for a boolean condition.
#[derive(Debug)]
pub struct BoolDTO {
    pub expression: BoolExpression,
    pub bool_val: bool,
    pub is_constant: bool,
}

/// Transfer object for a range condition, carrying the precision of the
/// variable's declared type.
#[derive(Debug)]
pub struct IntervalDTO {
    pub expression: IntervalExpression,
    pub interval: MultiInterval,
    pub precision: u64,
    pub is_constant: bool,
}

/// One converted input.
#[derive(Debug)]
pub enum Input {
    Bool(BoolDTO),
    Interval(IntervalDTO),
}

/// One converted predicate: its inputs, keyed by variable name, in
/// condition order.
#[derive(Debug)]
pub struct NTupleInput {
    pub inputs: Vec<(String, Input)>,
}

/// The first declared variable with the given name, scanning from index `i`.
pub open spec fn find_variable_from(vars: Seq<Variable>, name: Seq<char>, i: int) -> Option<
    Variable,
>
    decreases vars.len() - i,
{
    if i < 0 || i >= vars.len() {
        None
    } else if vars[i].var_name@ == name {
        Some(vars[i])
    } else {
        find_variable_from(vars, name, i + 1)
    }
}

/// The first declared variable with the given name.
pub open spec fn spec_find_variable(vars: Seq<Variable>, name: Seq<char>) -> Option<Variable> {
    find_variable_from(vars, name, 0)
}

/// Whether a condition can be converted against the declared variables: its
/// variable is declared and, for a range condition, the variable's type
/// carries a precision.
pub open spec fn condition_convertible(vars: Seq<Variable>, c: Condition) -> bool {
    match spec_find_variable(vars, c.spec_variable()) {
        None => false,
        Some(v) => c is Interval ==> v.var_type.spec_precision() is Some,
    }
}

/// Whether every condition of a predicate can be converted.
pub open spec fn predicate_convertible(vars: Seq<Variable>, p: Seq<Condition>) -> bool {
    forall|k: int| 0 <= k < p.len() ==> condition_convertible(vars, #[trigger] p[k])
}

/// What converting a boolean condition yields.
pub open spec fn bool_dto_matches(c: BoolCondition, d: BoolDTO) -> bool {
    &&& d.expression == (if c.should_equal_to {
        BoolExpression::IsTrue
    } else {
        BoolExpression::IsFalse
    })
    &&& d.bool_val == c.should_equal_to
    &&& !d.is_constant
}

/// What converting a range condition against its variable yields.
pub open spec fn interval_dto_matches(v: Variable, c: IntervalCondition, d: IntervalDTO) -> bool {
    &&& d.expression == c.expression
    &&& d.interval@ == c.interval@
    &&& Some(d.precision) == v.var_type.spec_precision()
    &&& !d.is_constant
}

/// What converting one condition against its variable yields.
pub open spec fn input_matches(v: Variable, c: Condition, inp: Input) -> bool {
    match c {
        Condition::Bool(bc) => inp matches Input::Bool(d) && bool_dto_matches(bc, d),
        Condition::Interval(ic) => inp matches Input::Interval(d) && interval_dto_matches(
            v,
            ic,
            d,
        ),
    }
}

/// What one entry of a converted predicate holds: the condition's variable
/// name, and the conversion of the condition against the variable found for
/// that name.
pub open spec fn entry_matches(vars: Seq<Variable>, c: Condition, entry: (String, Input)) -> bool {
    &&& entry.0@ == c.spec_variable()
    &&& (spec_find_variable(vars, c.spec_variable()) matches Some(v) && input_matches(
        v,
        c,
        entry.1,
    ))
}

/// What a converted predicate holds: one matching entry per condition, in
/// condition order.
pub open spec fn ntuple_matches(vars: Seq<Variable>, p: Seq<Condition>, out: NTupleInput) -> bool {
    &&& out.inputs@.len() == p.len()
    &&& forall|k: int| 0 <= k < p.len() ==> entry_matches(vars, p[k], #[trigger] out.inputs@[k])
}

/// A variable found under a name indeed bears that name.
proof fn lemma_found_variable_name(vars: Seq<Variable>, name: Seq<char>, i: int)
    ensures
        find_variable_from(vars, name, i) matches Some(v) ==> v.var_name@ == name,
    decreases vars.len() - i,
{
    if 0 <= i < vars.len() && vars[i].var_name@ != name {
        lemma_found_variable_name(vars, name, i + 1);
    }
}

/// Converts a boolean condition to its transfer object.
pub fn convert_bool_dto(condition: &BoolCondition) -> (r: BoolDTO)
    ensures
        bool_dto_matches(*condition, r),
{
    let expression = if condition.should_equal_to {
        BoolExpression::IsTrue
    } else {
        BoolExpression::IsFalse
    };
    BoolDTO { expression, bool_val: condition.should_equal_to, is_constant: false }
}

/// Converts a range condition to its transfer object; the variable's type
/// must carry a precision.
pub fn convert_interval_dto(variable: &Variable, condition: &IntervalCondition) -> (r: IntervalDTO)
    requires
        variable.var_type.spec_precision() is Some,
    ensures
        interval_dto_matches(*variable, *condition, r),
{
    let precision: u64 = match variable.var_type.get_precision() {
        Some(p) => p,
        // Never reached: the precondition says the type carries a precision.
        None => 0,
    };
    IntervalDTO {
        expression: condition.expression,
        interval: condition.interval.clone(),
        precision,
        is_constant: false,
    }
}

/// Converts one condition against its variable.
pub fn convert_condition(variable: &Variable, condition: &Condition) -> (r: Input)
    requires
        condition is Interval ==> variable.var_type.spec_precision() is Some,
    ensures
        input_matches(*variable, *condition, r),
{
    match condition {
        Condition::Bool(cond) => Input::Bool(convert_bool_dto(cond)),
        Condition::Interval(cond) => Input::Interval(convert_interval_dto(variable, cond)),
    }
}

/// The first declared variable with the given name, if any.
fn find_variable<'a>(variables: &'a Vec<Variable>, name: &String) -> (r: Option<&'a Variable>)
    ensures
        (match spec_find_variable(variables@, name@) {
            Some(v) => r matches Some(rv) && rv.var_name@ == v.var_name@ && rv.var_type
                == v.var_type,
            None => r is None,
        }),
{
    for i in 0..variables.len()
        invariant
            find_variable_from(variables@, name@, 0) == find_variable_from(
                variables@,
                name@,
                i as int,
            ),
    {
        if variables[i].var_name == *name {
            return Some(&variables[i]);
        }
    }
    None
}

/// Converts a predicate: each condition against the variable declared under
/// the condition's name, in condition order.
pub fn convert_predicate_to_ntuple(variables: &Vec<Variable>, predicate: &Predicate) -> (r:
    NTupleInput)
    requires
        predicate_convertible(variables@, predicate@),
    ensures
        ntuple_matches(variables@, predicate@, r),
{
    let mut inputs: Vec<(String, Input)> = Vec::new();
    for k in 0..predicate.len()
        invariant
            predicate_convertible(variables@, predicate@),
            inputs@.len() == k,
            forall|i: int|
                0 <= i < k ==> entry_matches(variables@, predicate@[i], #[trigger] inputs@[i]),
    {
        let condition = &predicate[k];
        proof {
            assert(condition_convertible(variables@, predicate@[k as int]));
        }
        let variable = match find_variable(variables, condition.get_variable()) {
            Some(v) => v,
            // Never reached: the precondition says every condition's
            // variable is declared.
            None => {
                proof {
                    assert(false);
                }
                return NTupleInput { inputs };
            },
        };
        let input = convert_condition(variable, condition);
        inputs.push((variable.var_name.clone(), input));
        proof {
            let c = predicate@[k as int];
            lemma_found_variable_name(variables@, c.spec_variable(), 0);
            let v = spec_find_variable(variables@, c.spec_variable())->Some_0;
            assert(input_matches(v, c, input));
            assert(entry_matches(variables@, c, inputs@[k as int]));
        }
    }
    NTupleInput { inputs }
}

/// Converts a whole feature: one n-tuple of inputs per predicate.
pub fn ir_to_ntuple(feature: &Feature) -> (r: Vec<NTupleInput>)
    requires
        forall|k: int|
            0 <= k < feature.predicates@.len() ==> predicate_convertible(
                feature.variables@,
                (#[trigger] feature.predicates@[k])@,
            ),
    ensures
        r@.len() == feature.predicates@.len(),
        forall|k: int|
            0 <= k < r@.len() ==> ntuple_matches(
                feature.variables@,
                feature.predicates@[k]@,
                #[trigger] r@[k],
            ),
{
    let mut out: Vec<NTupleInput> = Vec::new();
    for k in 0..feature.predicates.len()
        invariant
            forall|i: int|
                0 <= i < feature.predicates@.len() ==> predicate_convertible(
                    feature.variables@,
                    (#[trigger] feature.predicates@[i])@,
                ),
            out@.len() == k,
            forall|i: int|
                0 <= i < k ==> ntuple_matches(
                    feature.variables@,
                    feature.predicates@[i]@,
                    #[trigger] out@[i],
                ),
    {
        let ntuple = convert_predicate_to_ntuple(&feature.variables, &feature.predicates[k]);
        out.push(ntuple);
    }
    out
}

} // verus!
