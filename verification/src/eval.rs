use crate::ast::{ASTNode, AstView, Operator};
use crate::numeric::{
    add_floats, div_floats, float_add, float_div, float_mul, float_neg, float_of_int, float_sub,
    int_to_float, mul_floats, neg_wrapped, negate_float, negate_int, pow_floats, pow_wrapped,
    pow_wrapping, sub_floats,
};
use vstd::prelude::*;

verus! {

/// A value the evaluator yields: an integer, a float (carried as the bit
/// pattern of an IEEE-754 binary32 number), or `Declared`, the value-less
/// outcome of an assignment.
#[derive(Debug, Clone, Copy, PartialEq, Eq, Structural)]
pub enum NumericObject {
    Declared,
    I32(i32),
    F32(u32),
}

/// An error of the evaluator.
#[derive(Debug, Clone, Copy, PartialEq, Eq, Structural)]
pub enum EvaluateError {
    VariableDoesNotHaveAValue,
    UnexpectedUnaryOperator,
    UnexpectedBinaryOperator,
    AttemptToDivideByZero,
    ExpectedIdentifier,
    ErrUninitializedVariable,
}

/// The mapping a sequence of bindings denotes: a later binding for a name
/// overrides an earlier one.
pub open spec fn bindings_map(s: Seq<(Seq<char>, NumericObject)>) -> Map<Seq<char>, NumericObject>
    decreases s.len(),
{
    if s.len() == 0 {
        Map::empty()
    } else {
        bindings_map(s.drop_last()).insert(s.last().0, s.last().1)
    }
}

/// The variable table of a session: a mapping from variable name to the
/// value last assigned to it. Insertion overwrites a prior binding; nothing
/// is ever deleted by the language, but a failing assignment rolls its
/// right-hand side's bindings back, so the table keeps its bindings in
/// order and can be cut back to an earlier point.
pub struct Environment {
    entries: Vec<(String, NumericObject)>,
}

impl View for Environment {
    type V = Map<Seq<char>, NumericObject>;

    closed spec fn view(&self) -> Map<Seq<char>, NumericObject> {
        bindings_map(self.history())
    }
}

impl Environment {
    /// The bindings made so far, oldest first.
    pub closed spec fn history(&self) -> Seq<(Seq<char>, NumericObject)> {
        Seq::new(self.entries@.len(), |i: int| (self.entries@[i].0@, self.entries@[i].1))
    }

    /// An empty variable table.
    pub fn new() -> (result: Self)
        ensures
            result@ == Map::<Seq<char>, NumericObject>::empty(),
            result.history() == Seq::<(Seq<char>, NumericObject)>::empty(),
    {
        let result = Environment { entries: Vec::new() };
        proof {
            assert(result.history() =~= Seq::<(Seq<char>, NumericObject)>::empty());
        }
        result
    }

    /// Binds `name` to `value`, overwriting any prior binding. The table
    /// holds only concrete values, never the value-less `Declared`.
    pub fn insert(&mut self, name: String, value: NumericObject)
        requires
            !(value is Declared),
        ensures
            final (self)@ == old(self)@.insert(name@, value),
            final (self).history() == old(self).history().push((name@, value)),
    {
        self.entries.push((name, value));
        proof {
            assert(self.history() =~= old(self).history().push(
                (self.history().last().0, self.history().last().1),
            ));
            assert(self.history().drop_last() =~= old(self).history());
        }
    }

    /// The value bound to `name`, if any.
    pub fn get(&self, name: &str) -> (result: Option<NumericObject>)
        ensures
            match result {
                Some(v) => self@.contains_key(name@) && v == self@[name@],
                None => !self@.contains_key(name@),
            },
    {
        let mut i: usize = self.entries.len();
        while i > 0
            invariant
                i <= self.entries@.len(),
                forall|j: int|
                    i <= j < self.history().len() ==> (#[trigger] self.history()[j]).0 != name@,
            decreases i,
        {
            i = i - 1;
            if str_equal(self.entries[i].0.as_str(), name) {
                proof {
                    lemma_bindings_last_match(self.history(), name@, i as int);
                }
                return Some(self.entries[i].1);
            }
        }
        proof {
            lemma_bindings_no_match(self.history(), name@);
        }
        None
    }

    /// How many bindings the table holds right now; bindings made after
    /// this point can be rolled back with `rollback`.
    pub(crate) fn checkpoint(&self) -> (n: usize)
        ensures
            n == self.history().len(),
    {
        self.entries.len()
    }

    /// Cuts the table back to its first `n` bindings.
    pub(crate) fn rollback(&mut self, n: usize)
        requires
            n <= old(self).history().len(),
        ensures
            final (self).history() == old(self).history().subrange(0, n as int),
    {
        self.entries.truncate(n);
        proof {
            assert(self.history() =~= old(self).history().subrange(0, n as int));
        }
    }
}

/// Whether two pieces of text hold the same characters.
fn str_equal(a: &str, b: &str) -> (r: bool)
    ensures
        r == (a@ == b@),
{
    let a_len = a.unicode_len();
    let b_len = b.unicode_len();
    if a_len != b_len {
        proof {
            assert(a@ != b@);
        }
        return false;
    }
    let mut i: usize = 0;
    while i < a_len
        invariant
            i <= a_len,
            a_len == a@.len(),
            a_len == b@.len(),
            forall|j: int| 0 <= j < i ==> a@[j] == b@[j],
        decreases a_len - i,
    {
        if a.get_char(i) != b.get_char(i) {
            proof {
                assert(a@ != b@);
            }
            return false;
        }
        i = i + 1;
    }
    proof {
        assert(a@ =~= b@);
    }
    true
}

/// A binding at `i` whose name no later binding repeats is what the table
/// maps that name to.
proof fn lemma_bindings_last_match(h: Seq<(Seq<char>, NumericObject)>, k: Seq<char>, i: int)
    requires
        0 <= i < h.len(),
        h[i].0 == k,
        forall|j: int| i < j < h.len() ==> (#[trigger] h[j]).0 != k,
    ensures
        bindings_map(h).contains_key(k),
        bindings_map(h)[k] == h[i].1,
    decreases h.len(),
{
    if i == h.len() - 1 {
    } else {
        assert(h.drop_last()[i] == h[i]);
        lemma_bindings_last_match(h.drop_last(), k, i);
    }
}

/// A name no binding carries is not in the table.
proof fn lemma_bindings_no_match(h: Seq<(Seq<char>, NumericObject)>, k: Seq<char>)
    requires
        forall|j: int| 0 <= j < h.len() ==> (#[trigger] h[j]).0 != k,
    ensures
        !bindings_map(h).contains_key(k),
    decreases h.len(),
{
    if h.len() > 0 {
        assert(forall|j: int|
            0 <= j < h.drop_last().len() ==> (#[trigger] h.drop_last()[j]) == h[j]);
        lemma_bindings_no_match(h.drop_last(), k);
    }
}

/// The bits of the binary32 value a numeric operand stands for once it is
/// promoted to floating point: a float keeps its bits, an integer is
/// rounded to the nearest binary32 value.
pub open spec fn promoted_bits(v: NumericObject) -> u32
    recommends
        !(v is Declared),
{
    match v {
        NumericObject::F32(bits) => bits,
        NumericObject::I32(x) => float_of_int(x),
        NumericObject::Declared => 0,
    }
}

/// Whether this operator application is a floating power: a power with a
/// float operand, or with a negative integer exponent (which falls back to
/// floating power). The bits of a floating power have unspecified
/// precision, so the evaluation function leaves them open.
pub open spec fn is_float_power(op: Operator, v1: NumericObject, v2: NumericObject) -> bool {
    op == Operator::Exponential && !(v1 is Declared) && !(v2 is Declared) && !(v1 is I32 && v2
        is I32 && v2->I32_0 >= 0)
}

/// What one arithmetic operator yields on two evaluated operands.
///
/// Same-kind operands combine in their kind; mixed operands promote the
/// integer side to floating point. Integer arithmetic wraps around the way
/// a release build computes. Integer division by zero (and the one
/// overflowing quotient) is an error, while float division by zero follows
/// IEEE-754 and yields an infinity or NaN. For a floating power
/// (`is_float_power`) the value written here is a placeholder: the
/// evaluator's contract says nothing about those bits.
pub open spec fn apply_spec(op: Operator, v1: NumericObject, v2: NumericObject) -> Result<
    NumericObject,
    EvaluateError,
> {
    match op {
        Operator::Plus => if v1 is Declared || v2 is Declared {
            Err(EvaluateError::VariableDoesNotHaveAValue)
        } else if v1 is I32 && v2 is I32 {
            Ok(NumericObject::I32(vstd::wrapping::i32_specs::wrapping_add(v1->I32_0, v2->I32_0)))
        } else {
            Ok(NumericObject::F32(float_add(promoted_bits(v1), promoted_bits(v2))))
        },
        Operator::Minus => if v1 is Declared || v2 is Declared {
            Err(EvaluateError::VariableDoesNotHaveAValue)
        } else if v1 is I32 && v2 is I32 {
            Ok(NumericObject::I32(vstd::wrapping::i32_specs::wrapping_sub(v1->I32_0, v2->I32_0)))
        } else {
            Ok(NumericObject::F32(float_sub(promoted_bits(v1), promoted_bits(v2))))
        },
        Operator::Multiplication => if v1 is Declared || v2 is Declared {
            Err(EvaluateError::VariableDoesNotHaveAValue)
        } else if v1 is I32 && v2 is I32 {
            Ok(NumericObject::I32(vstd::wrapping::i32_specs::wrapping_mul(v1->I32_0, v2->I32_0)))
        } else {
            Ok(NumericObject::F32(float_mul(promoted_bits(v1), promoted_bits(v2))))
        },
        Operator::Division => if v1 is Declared || v2 is Declared {
            Err(EvaluateError::VariableDoesNotHaveAValue)
        } else if v1 is I32 && v2 is I32 {
            match (v1->I32_0).checked_div(v2->I32_0) {
                Some(q) => Ok(NumericObject::I32(q)),
                None => Err(EvaluateError::AttemptToDivideByZero),
            }
        } else {
            Ok(NumericObject::F32(float_div(promoted_bits(v1), promoted_bits(v2))))
        },
        Operator::Exponential => if v1 is Declared || v2 is Declared {
            Err(EvaluateError::VariableDoesNotHaveAValue)
        } else if v1 is I32 && v2 is I32 && v2->I32_0 >= 0 {
            Ok(NumericObject::I32(pow_wrapped(v1->I32_0 as u32, v2->I32_0 as nat) as i32))
        } else {
            Ok(NumericObject::F32(0))
        },
        _ => Err(EvaluateError::UnexpectedBinaryOperator),
    }
}

/// What negating one evaluated operand yields: the numeric kind is kept, an
/// integer wraps at the minimum value, a float flips its sign bit.
pub open spec fn negate_spec(v: NumericObject) -> Result<NumericObject, EvaluateError> {
    match v {
        NumericObject::Declared => Err(EvaluateError::VariableDoesNotHaveAValue),
        NumericObject::I32(x) => Ok(NumericObject::I32(neg_wrapped(x))),
        NumericObject::F32(bits) => Ok(NumericObject::F32(float_neg(bits))),
    }
}

/// What evaluating `node` against the table `env` yields: the outcome, the
/// table left behind, and whether a floating power was reached on the way.
///
/// Evaluation is a pure tree recursion: the left child first, the right
/// child against the table the left one left behind, and the only table
/// writes are those of the `Assign` nodes whose right-hand side evaluated
/// to a concrete value. The first error aborts the whole evaluation; an
/// assignment whose right-hand side fails puts the table back exactly as
/// it was before that right-hand side was evaluated. As long
/// as no floating power is reached (the third component stays `false`),
/// the outcome and the table are pinned completely; from the first
/// floating power on, the rest of the evaluation is left open, since such
/// bits have unspecified precision.
pub open spec fn eval_spec(node: AstView, env: Map<Seq<char>, NumericObject>) -> (
    Result<NumericObject, EvaluateError>,
    Map<Seq<char>, NumericObject>,
    bool,
)
    decreases node,
{
    match node {
        AstView::Ident(name) => (
            if env.contains_key(name) {
                Ok::<NumericObject, EvaluateError>(env[name])
            } else {
                Err::<NumericObject, EvaluateError>(EvaluateError::ErrUninitializedVariable)
            },
            env,
            false,
        ),
        AstView::I32(v) => (Ok::<NumericObject, EvaluateError>(NumericObject::I32(v)), env, false),
        AstView::F32(bits) => (
            Ok::<NumericObject, EvaluateError>(NumericObject::F32(bits)),
            env,
            false,
        ),
        AstView::Unary { op, inner } => if op != Operator::Negative {
            (
                Err::<NumericObject, EvaluateError>(EvaluateError::UnexpectedUnaryOperator),
                env,
                false,
            )
        } else {
            let (r, m, h) = eval_spec(*inner, env);
            match r {
                Err(e) => (Err::<NumericObject, EvaluateError>(e), m, h),
                Ok(v) => (negate_spec(v), m, h),
            }
        },
        AstView::Binary { op, lhs, rhs } => if op == Operator::Assign && (*lhs) is Ident {
            let (r, m, h) = eval_spec(*rhs, env);
            match r {
                Err(e) => (Err::<NumericObject, EvaluateError>(e), env, h),
                Ok(v) => if v is Declared {
                    (
                        Err::<NumericObject, EvaluateError>(
                            EvaluateError::VariableDoesNotHaveAValue,
                        ),
                        m,
                        h,
                    )
                } else {
                    (
                        Ok::<NumericObject, EvaluateError>(NumericObject::Declared),
                        m.insert((*lhs)->Ident_0, v),
                        h,
                    )
                },
            }
        } else if op == Operator::Assign {
            (Err::<NumericObject, EvaluateError>(EvaluateError::ExpectedIdentifier), env, false)
        } else {
            let (r1, m1, h1) = eval_spec(*lhs, env);
            match r1 {
                Err(e) => (Err::<NumericObject, EvaluateError>(e), m1, h1),
                Ok(v1) => {
                    let (r2, m2, h2) = eval_spec(*rhs, m1);
                    match r2 {
                        Err(e) => (Err::<NumericObject, EvaluateError>(e), m2, h1 || h2),
                        Ok(v2) => (
                            apply_spec(op, v1, v2),
                            m2,
                            h1 || h2 || is_float_power(op, v1, v2),
                        ),
                    }
                },
            }
        },
    }
}

/// Whether a tree holds no assignment node.
pub open spec fn assign_free(node: AstView) -> bool
    decreases node,
{
    match node {
        AstView::Unary { op, inner } => assign_free(*inner),
        AstView::Binary { op, lhs, rhs } => op != Operator::Assign && assign_free(*lhs)
            && assign_free(*rhs),
        _ => true,
    }
}

/// Read-only evaluation is idempotent: a tree without assignments leaves
/// the variable table untouched, so evaluating it a second time against
/// the same table yields the same outcome as the first time.
pub proof fn lemma_read_only_idempotent(node: AstView, env: Map<Seq<char>, NumericObject>)
    requires
        assign_free(node),
    ensures
        eval_spec(node, env).1 == env,
        eval_spec(node, eval_spec(node, env).1).0 == eval_spec(node, env).0,
    decreases node,
{
    match node {
        AstView::Unary { op, inner } => {
            lemma_read_only_idempotent(*inner, env);
        },
        AstView::Binary { op, lhs, rhs } => {
            lemma_read_only_idempotent(*lhs, env);
            lemma_read_only_idempotent(*rhs, eval_spec(*lhs, env).1);
        },
        _ => (),
    }
}

/// Two values of the same shape: equal outright, or both floats. Only the
/// bits of a float may be left open by a floating power; integers, the
/// value-less `Declared` and errors are never touched by one.
pub open spec fn same_value_shape(a: NumericObject, b: NumericObject) -> bool {
    a == b || (a is F32 && b is F32)
}

/// Two outcomes of the same shape: equal errors, or values of the same
/// shape.
pub open spec fn same_outcome_shape(
    a: Result<NumericObject, EvaluateError>,
    b: Result<NumericObject, EvaluateError>,
) -> bool {
    (a is Ok && b is Ok && same_value_shape(a->Ok_0, b->Ok_0)) || (a is Err && b is Err && a == b)
}

/// Two tables of the same shape: the same names bound, each to values of
/// the same shape.
pub open spec fn same_table_shape(
    m1: Map<Seq<char>, NumericObject>,
    m2: Map<Seq<char>, NumericObject>,
) -> bool {
    m1.dom() == m2.dom() && forall|k: Seq<char>|
        #[trigger] m1.contains_key(k) ==> same_value_shape(m1[k], m2[k])
}

proof fn lemma_table_shape_refl(m: Map<Seq<char>, NumericObject>)
    ensures
        same_table_shape(m, m),
{
}

proof fn lemma_table_shape_trans(
    m1: Map<Seq<char>, NumericObject>,
    m2: Map<Seq<char>, NumericObject>,
    m3: Map<Seq<char>, NumericObject>,
)
    requires
        same_table_shape(m1, m2),
        same_table_shape(m2, m3),
    ensures
        same_table_shape(m1, m3),
{
    assert forall|k: Seq<char>| #[trigger] m1.contains_key(k) implies same_value_shape(
        m1[k],
        m3[k],
    ) by {
        assert(m2.contains_key(k));
    }
}

proof fn lemma_outcome_shape_trans(
    a: Result<NumericObject, EvaluateError>,
    b: Result<NumericObject, EvaluateError>,
    c: Result<NumericObject, EvaluateError>,
)
    requires
        same_outcome_shape(a, b),
        same_outcome_shape(b, c),
    ensures
        same_outcome_shape(a, c),
{
}

proof fn lemma_table_shape_insert(
    m1: Map<Seq<char>, NumericObject>,
    m2: Map<Seq<char>, NumericObject>,
    k: Seq<char>,
    v1: NumericObject,
    v2: NumericObject,
)
    requires
        same_table_shape(m1, m2),
        same_value_shape(v1, v2),
    ensures
        same_table_shape(m1.insert(k, v1), m2.insert(k, v2)),
{
    assert(m1.insert(k, v1).dom() =~= m2.insert(k, v2).dom());
    assert forall|k2: Seq<char>| #[trigger] m1.insert(k, v1).contains_key(k2) implies
        same_value_shape(m1.insert(k, v1)[k2], m2.insert(k, v2)[k2]) by {
        if k2 != k {
            assert(m1.contains_key(k2));
        }
    }
}

/// An operator application cannot tell two shape-equal operand pairs
/// apart, beyond the open float bits; in particular whether it is a
/// floating power, and which error it raises, are the same.
proof fn lemma_apply_shape_stable(
    op: Operator,
    v1: NumericObject,
    v2: NumericObject,
    w1: NumericObject,
    w2: NumericObject,
)
    requires
        same_value_shape(v1, w1),
        same_value_shape(v2, w2),
    ensures
        same_outcome_shape(apply_spec(op, v1, v2), apply_spec(op, w1, w2)),
        is_float_power(op, v1, v2) == is_float_power(op, w1, w2),
{
}

/// Evaluation cannot tell two shape-equal tables apart, beyond the open
/// float bits: the same errors arise, the outcomes and the tables left
/// behind have the same shape, and a floating power is reached in one
/// evaluation exactly when in the other.
proof fn lemma_eval_shape_stable(
    node: AstView,
    e1: Map<Seq<char>, NumericObject>,
    e2: Map<Seq<char>, NumericObject>,
)
    requires
        same_table_shape(e1, e2),
    ensures
        same_outcome_shape(eval_spec(node, e1).0, eval_spec(node, e2).0),
        same_table_shape(eval_spec(node, e1).1, eval_spec(node, e2).1),
        eval_spec(node, e1).2 == eval_spec(node, e2).2,
    decreases node,
{
    match node {
        AstView::Ident(name) => {
            if e1.contains_key(name) {
                assert(e2.contains_key(name));
            }
        },
        AstView::Unary { op, inner } => {
            lemma_eval_shape_stable(*inner, e1, e2);
        },
        AstView::Binary { op, lhs, rhs } => {
            if op == Operator::Assign && (*lhs) is Ident {
                lemma_eval_shape_stable(*rhs, e1, e2);
                let (r1, m1, h1) = eval_spec(*rhs, e1);
                let (r2, m2, h2) = eval_spec(*rhs, e2);
                match (r1, r2) {
                    (Ok(v1), Ok(v2)) => {
                        if !(v1 is Declared) {
                            lemma_table_shape_insert(m1, m2, (*lhs)->Ident_0, v1, v2);
                        }
                    },
                    _ => (),
                }
            } else if op != Operator::Assign {
                lemma_eval_shape_stable(*lhs, e1, e2);
                let (r1, m1, h1) = eval_spec(*lhs, e1);
                let (r2, m2, h2) = eval_spec(*lhs, e2);
                match (r1, r2) {
                    (Ok(v1), Ok(v2)) => {
                        lemma_eval_shape_stable(*rhs, m1, m2);
                        let (s1, n1, g1) = eval_spec(*rhs, m1);
                        let (s2, n2, g2) = eval_spec(*rhs, m2);
                        match (s1, s2) {
                            (Ok(w1), Ok(w2)) => {
                                lemma_apply_shape_stable(op, v1, w1, v2, w2);
                            },
                            _ => (),
                        }
                    },
                    _ => (),
                }
            }
        },
        _ => (),
    }
}

/// One arithmetic operator applied to two evaluated operands, with the
/// numeric promotion done in one place.
fn apply_binary(op: Operator, lhs: NumericObject, rhs: NumericObject) -> (result: Result<
    NumericObject,
    EvaluateError,
>)
    ensures
        !is_float_power(op, lhs, rhs) ==> result == apply_spec(op, lhs, rhs),
        is_float_power(op, lhs, rhs) ==> result matches Ok(NumericObject::F32(_)),
{
    match op {
        Operator::Plus | Operator::Minus | Operator::Multiplication | Operator::Division
        | Operator::Exponential => (),
        _ => {
            return Err(EvaluateError::UnexpectedBinaryOperator);
        },
    }
    match (lhs, rhs) {
        (NumericObject::Declared, _) | (_, NumericObject::Declared) => Err(
            EvaluateError::VariableDoesNotHaveAValue,
        ),
        (NumericObject::I32(x), NumericObject::I32(y)) => match op {
            Operator::Plus => Ok(NumericObject::I32(x.wrapping_add(y))),
            Operator::Minus => Ok(NumericObject::I32(x.wrapping_sub(y))),
            Operator::Multiplication => Ok(NumericObject::I32(x.wrapping_mul(y))),
            Operator::Division => match x.checked_div(y) {
                Some(q) => Ok(NumericObject::I32(q)),
                None => Err(EvaluateError::AttemptToDivideByZero),
            },
            _ => {
                if y >= 0 {
                    Ok(NumericObject::I32(pow_wrapping(x, y as u32)))
                } else {
                    Ok(NumericObject::F32(pow_floats(int_to_float(x), int_to_float(y))))
                }
            },
        },
        _ => {
            let a = promote(lhs);
            let b = promote(rhs);
            match op {
                Operator::Plus => Ok(NumericObject::F32(add_floats(a, b))),
                Operator::Minus => Ok(NumericObject::F32(sub_floats(a, b))),
                Operator::Multiplication => Ok(NumericObject::F32(mul_floats(a, b))),
                Operator::Division => Ok(NumericObject::F32(div_floats(a, b))),
                _ => Ok(NumericObject::F32(pow_floats(a, b))),
            }
        },
    }
}

/// The binary32 bits a concrete operand stands for once promoted to
/// floating point.
fn promote(v: NumericObject) -> (r: u32)
    requires
        !(v is Declared),
    ensures
        r == promoted_bits(v),
{
    match v {
        NumericObject::F32(bits) => bits,
        NumericObject::I32(x) => int_to_float(x),
        NumericObject::Declared => 0,
    }
}

/// Walks an abstract syntax tree against the variable table: literals stand
/// for themselves, identifiers are looked up, an assignment stores the
/// value of its right-hand side, and arithmetic combines the children under
/// the numeric promotion rule. The first failure aborts the whole
/// evaluation. The outcome and the table are exactly those of `eval_spec`
/// as long as no floating power is reached; with one, only the bits of the
/// floats stay open — the errors, the integer values, the value kinds and
/// the names bound are still those of `eval_spec`.
pub fn evaluate_expression(expression_tree: &ASTNode, evaluation_env: &mut Environment) -> (result:
    Result<NumericObject, EvaluateError>)
    ensures
        !eval_spec(expression_tree@, old(evaluation_env)@).2 ==> result == eval_spec(
            expression_tree@,
            old(evaluation_env)@,
        ).0 && final (evaluation_env)@ == eval_spec(expression_tree@, old(evaluation_env)@).1,
        same_outcome_shape(result, eval_spec(expression_tree@, old(evaluation_env)@).0),
        same_table_shape(
            final (evaluation_env)@,
            eval_spec(expression_tree@, old(evaluation_env)@).1,
        ),
        old(evaluation_env).history().is_prefix_of(final (evaluation_env).history()),
        assign_free(expression_tree@) ==> final (evaluation_env).history() == old(
            evaluation_env,
        ).history() && final (evaluation_env)@ == old(evaluation_env)@,
    decreases expression_tree,
{
    match expression_tree {
        ASTNode::Ident(identifier) => match evaluation_env.get(identifier.as_str()) {
            Some(value) => Ok(value),
            None => Err(EvaluateError::ErrUninitializedVariable),
        },
        ASTNode::I32(value) => Ok(NumericObject::I32(*value)),
        ASTNode::F32(bits) => Ok(NumericObject::F32(*bits)),
        ASTNode::UnaryExpr { op, inner } => match op {
            Operator::Negative => {
                let ghost env0 = evaluation_env@;
                let evaluated = evaluate_expression(&**inner, evaluation_env);
                let result = match evaluated {
                    Err(e) => Err(e),
                    Ok(NumericObject::F32(bits)) => Ok(NumericObject::F32(negate_float(bits))),
                    Ok(NumericObject::I32(value)) => Ok(NumericObject::I32(negate_int(value))),
                    Ok(NumericObject::Declared) => Err(EvaluateError::VariableDoesNotHaveAValue),
                };
                proof {
                    let sub = eval_spec(crate::ast::ast_view(**inner), env0);
                    assert(same_outcome_shape(evaluated, sub.0));
                }
                result
            },
            _ => Err(EvaluateError::UnexpectedUnaryOperator),
        },
        ASTNode::BinaryExpr { op, lhs, rhs } => match op {
            Operator::Assign => match &**lhs {
                ASTNode::Ident(identifier) => {
                    let ghost env0 = evaluation_env@;
                    let mark = evaluation_env.checkpoint();
                    let evaluated = evaluate_expression(&**rhs, evaluation_env);
                    match evaluated {
                        Err(e) => {
                            evaluation_env.rollback(mark);
                            proof {
                                assert(evaluation_env.history() =~= old(
                                    evaluation_env,
                                ).history());
                                lemma_table_shape_refl(env0);
                            }
                            Err(e)
                        },
                        Ok(NumericObject::Declared) => Err(
                            EvaluateError::VariableDoesNotHaveAValue,
                        ),
                        Ok(value) => {
                            let ghost m1x = evaluation_env@;
                            evaluation_env.insert(identifier.clone(), value);
                            proof {
                                assert(old(evaluation_env).history().is_prefix_of(
                                    evaluation_env.history(),
                                ));
                                let sub = eval_spec(crate::ast::ast_view(**rhs), env0);
                                lemma_table_shape_insert(
                                    m1x,
                                    sub.1,
                                    identifier@,
                                    value,
                                    sub.0->Ok_0,
                                );
                            }
                            Ok(NumericObject::Declared)
                        },
                    }
                },
                _ => Err(EvaluateError::ExpectedIdentifier),
            },
            _ => {
                let ghost env0 = evaluation_env@;
                let lhs_val = evaluate_expression(&**lhs, evaluation_env);
                let result = match lhs_val {
                    Err(e) => Err(e),
                    Ok(v1) => {
                        let ghost m1x = evaluation_env@;
                        let rhs_val = evaluate_expression(&**rhs, evaluation_env);
                        let result = match rhs_val {
                            Err(e) => Err(e),
                            Ok(v2) => apply_binary(*op, v1, v2),
                        };
                        proof {
                            let lspec = eval_spec(crate::ast::ast_view(**lhs), env0);
                            let rspec_exec = eval_spec(crate::ast::ast_view(**rhs), m1x);
                            let rspec = eval_spec(crate::ast::ast_view(**rhs), lspec.1);
                            lemma_eval_shape_stable(crate::ast::ast_view(**rhs), m1x, lspec.1);
                            lemma_outcome_shape_trans(rhs_val, rspec_exec.0, rspec.0);
                            lemma_table_shape_trans(evaluation_env@, rspec_exec.1, rspec.1);
                            match (rhs_val, rspec.0) {
                                (Ok(v2), Ok(w2)) => {
                                    lemma_apply_shape_stable(
                                        *op,
                                        v1,
                                        v2,
                                        lspec.0->Ok_0,
                                        w2,
                                    );
                                },
                                _ => (),
                            }
                        }
                        result
                    },
                };
                result
            },
        },
    }
}

/// Evaluates one statement: parsing's single tree, against the session's
/// variable table.
pub fn evaluate(expression_tree: ASTNode, evaluation_env: &mut Environment) -> (result: Result<
    NumericObject,
    EvaluateError,
>)
    ensures
        !eval_spec(expression_tree@, old(evaluation_env)@).2 ==> result == eval_spec(
            expression_tree@,
            old(evaluation_env)@,
        ).0 && final (evaluation_env)@ == eval_spec(expression_tree@, old(evaluation_env)@).1,
        same_outcome_shape(result, eval_spec(expression_tree@, old(evaluation_env)@).0),
        same_table_shape(
            final (evaluation_env)@,
            eval_spec(expression_tree@, old(evaluation_env)@).1,
        ),
        old(evaluation_env).history().is_prefix_of(final (evaluation_env).history()),
        assign_free(expression_tree@) ==> final (evaluation_env).history() == old(
            evaluation_env,
        ).history() && final (evaluation_env)@ == old(evaluation_env)@,
{
    evaluate_expression(&expression_tree, evaluation_env)
}

} // verus!
