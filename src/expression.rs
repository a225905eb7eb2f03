//! Expression trees: a one-step simplifier that folds binary operations on
//! literals, an evaluator over variable bindings, and a renderer.
use crate::rational::Rat;
use crate::value::{
    add_value, div_value, factorial_value, mul_value, neg_value, render_value, sub_value, Value,
};
use vstd::prelude::*;

verus! {

/// An evaluation error.
#[derive(Debug, Clone, Copy, PartialEq, Eq, Structural)]
pub enum EvaluationError {
    /// The expression variant cannot be evaluated (an equation).
    CantEvaluateVariant,
}

/// A solving error.
#[derive(Debug, Clone, Copy, PartialEq, Eq, Structural)]
pub enum SolvingError {
    /// The expression variant cannot be solved.
    CantSolveVariant,
}

/// The mathematical model of an expression tree.
pub enum Expr {
    Literal(Option<Rat>),
    Variable(Seq<char>),
    Add(Box<Expr>, Box<Expr>),
    Sub(Box<Expr>, Box<Expr>),
    Mul(Box<Expr>, Box<Expr>),
    Div(Box<Expr>, Box<Expr>),
    Negate(Box<Expr>),
    Factorial(Box<Expr>),
    Equals(Box<Expr>, Box<Expr>),
}

/// A literal node.
#[derive(Debug, Clone)]
pub struct ValueExpression {
    pub value: Value,
}

/// `lhs + rhs`.
#[derive(Debug)]
pub struct AdditionExpression {
    pub lhs: Box<Expression>,
    pub rhs: Box<Expression>,
}

/// `lhs - rhs`.
#[derive(Debug)]
pub struct SubtractionExpression {
    pub lhs: Box<Expression>,
    pub rhs: Box<Expression>,
}

/// `lhs * rhs`.
#[derive(Debug)]
pub struct MultiplicationExpression {
    pub lhs: Box<Expression>,
    pub rhs: Box<Expression>,
}

/// `lhs / rhs`.
#[derive(Debug)]
pub struct DivisionExpression {
    pub lhs: Box<Expression>,
    pub rhs: Box<Expression>,
}

/// An expression; each node owns its children.
#[derive(Debug)]
pub enum Expression {
    Value(ValueExpression),
    Variable(String),
    Addition(AdditionExpression),
    Subtraction(SubtractionExpression),
    Multiplication(MultiplicationExpression),
    Division(DivisionExpression),
    Negation(Box<Expression>),
    Factorial(Box<Expression>),
    Equals(Box<Expression>, Box<Expression>),
}

impl ValueExpression {
    pub fn new(value: Value) -> (r: Self)
        ensures
            r.value@ == value@,
    {
        ValueExpression { value }
    }

    pub fn get_value(&self) -> (r: &Value)
        ensures
            r@ == self.value@,
    {
        &self.value
    }
}

impl AdditionExpression {
    pub fn new(lhs: Box<Expression>, rhs: Box<Expression>) -> (r: Self)
        ensures
            r.lhs@ == lhs@,
            r.rhs@ == rhs@,
    {
        AdditionExpression { lhs, rhs }
    }
}

impl SubtractionExpression {
    pub fn new(lhs: Box<Expression>, rhs: Box<Expression>) -> (r: Self)
        ensures
            r.lhs@ == lhs@,
            r.rhs@ == rhs@,
    {
        SubtractionExpression { lhs, rhs }
    }
}

impl MultiplicationExpression {
    pub fn new(lhs: Box<Expression>, rhs: Box<Expression>) -> (r: Self)
        ensures
            r.lhs@ == lhs@,
            r.rhs@ == rhs@,
    {
        MultiplicationExpression { lhs, rhs }
    }
}

impl DivisionExpression {
    pub fn new(lhs: Box<Expression>, rhs: Box<Expression>) -> (r: Self)
        ensures
            r.lhs@ == lhs@,
            r.rhs@ == rhs@,
    {
        DivisionExpression { lhs, rhs }
    }
}

impl View for Expression {
    type V = Expr;

    open spec fn view(&self) -> Expr
        decreases self,
    {
        match self {
            Expression::Value(v) => Expr::Literal(v.value@),
            Expression::Variable(n) => Expr::Variable(n@),
            Expression::Addition(n) => Expr::Add(Box::new((*n.lhs)@), Box::new((*n.rhs)@)),
            Expression::Subtraction(n) => Expr::Sub(Box::new((*n.lhs)@), Box::new((*n.rhs)@)),
            Expression::Multiplication(n) => Expr::Mul(Box::new((*n.lhs)@), Box::new((*n.rhs)@)),
            Expression::Division(n) => Expr::Div(Box::new((*n.lhs)@), Box::new((*n.rhs)@)),
            Expression::Negation(e) => Expr::Negate(Box::new((**e)@)),
            Expression::Factorial(e) => Expr::Factorial(Box::new((**e)@)),
            Expression::Equals(a, b) => Expr::Equals(Box::new((**a)@), Box::new((**b)@)),
        }
    }
}

/// Bindings from variable names to values.
#[derive(Debug)]
pub struct VariableMap {
    entries: Vec<(String, Value)>,
}

/// The bindings that a list of entries makes; a later entry replaces an
/// earlier one with the same name.
pub open spec fn bindings_of(s: Seq<(String, Value)>) -> Map<Seq<char>, Option<Rat>>
    decreases s.len(),
{
    if s.len() == 0 {
        Map::empty()
    } else {
        bindings_of(s.drop_last()).insert(s.last().0@, s.last().1@)
    }
}

impl View for VariableMap {
    type V = Map<Seq<char>, Option<Rat>>;

    closed spec fn view(&self) -> Map<Seq<char>, Option<Rat>> {
        bindings_of(self.entries@)
    }
}

impl VariableMap {
    /// No bindings.
    pub fn new() -> (r: Self)
        ensures
            r@ == Map::<Seq<char>, Option<Rat>>::empty(),
    {
        VariableMap { entries: Vec::new() }
    }

    /// Binds `name` to `value`, replacing any earlier binding of `name`.
    pub fn insert(&mut self, name: String, value: Value)
        ensures
            final(self)@ == old(self)@.insert(name@, value@),
    {
        self.entries.push((name, value));
        proof {
            assert(self.entries@.drop_last() =~= old(self).entries@);
        }
    }

    /// The value bound to `name`, if any.
    pub fn get(&self, name: &String) -> (r: Option<&Value>)
        ensures
            r is None <==> !self@.contains_key(name@),
            r is Some ==> r->Some_0@ == self@[name@],
    {
        let mut i = self.entries.len();
        proof {
            assert(self.entries@.take(i as int) =~= self.entries@);
        }
        while i > 0
            invariant
                i <= self.entries@.len(),
                self@.contains_key(name@) == bindings_of(self.entries@.take(i as int)).contains_key(
                    name@,
                ),
                self@.contains_key(name@) ==> self@[name@] == bindings_of(
                    self.entries@.take(i as int),
                )[name@],
            decreases i,
        {
            let entry = &self.entries[i - 1];
            proof {
                assert(self.entries@.take(i as int).drop_last() =~= self.entries@.take(i - 1));
                assert(self.entries@.take(i as int).last() == self.entries@[i - 1]);
            }
            if entry.0 == *name {
                return Some(&entry.1);
            }
            i = i - 1;
        }
        proof {
            assert(self.entries@.take(0) =~= Seq::<(String, Value)>::empty());
        }
        None
    }
}

/// One simplification pass: children first; a binary operation whose two
/// simplified operands are literals becomes the literal of its result;
/// negation and factorial are rebuilt around their simplified operand, not
/// folded.
pub open spec fn simplify_expr(e: Expr) -> Expr
    decreases e,
{
    match e {
        Expr::Literal(v) => Expr::Literal(v),
        Expr::Variable(n) => Expr::Variable(n),
        Expr::Add(l, r) => {
            let a = simplify_expr(*l);
            let b = simplify_expr(*r);
            match (a, b) {
                (Expr::Literal(x), Expr::Literal(y)) => Expr::Literal(add_value(x, y)),
                _ => Expr::Add(Box::new(a), Box::new(b)),
            }
        },
        Expr::Sub(l, r) => {
            let a = simplify_expr(*l);
            let b = simplify_expr(*r);
            match (a, b) {
                (Expr::Literal(x), Expr::Literal(y)) => Expr::Literal(sub_value(x, y)),
                _ => Expr::Sub(Box::new(a), Box::new(b)),
            }
        },
        Expr::Mul(l, r) => {
            let a = simplify_expr(*l);
            let b = simplify_expr(*r);
            match (a, b) {
                (Expr::Literal(x), Expr::Literal(y)) => Expr::Literal(mul_value(x, y)),
                _ => Expr::Mul(Box::new(a), Box::new(b)),
            }
        },
        Expr::Div(l, r) => {
            let a = simplify_expr(*l);
            let b = simplify_expr(*r);
            match (a, b) {
                (Expr::Literal(x), Expr::Literal(y)) => Expr::Literal(div_value(x, y)),
                _ => Expr::Div(Box::new(a), Box::new(b)),
            }
        },
        Expr::Negate(x) => Expr::Negate(Box::new(simplify_expr(*x))),
        Expr::Factorial(x) => Expr::Factorial(Box::new(simplify_expr(*x))),
        Expr::Equals(l, r) => Expr::Equals(
            Box::new(simplify_expr(*l)),
            Box::new(simplify_expr(*r)),
        ),
    }
}

/// Applies a binary value operation to two evaluation results, the left
/// failure first.
pub open spec fn eval_binary(
    a: Result<Option<Rat>, EvaluationError>,
    b: Result<Option<Rat>, EvaluationError>,
    op: spec_fn(Option<Rat>, Option<Rat>) -> Option<Rat>,
) -> Result<Option<Rat>, EvaluationError> {
    match a {
        Err(e) => Err(e),
        Ok(x) => match b {
            Err(e) => Err(e),
            Ok(y) => Ok(op(x, y)),
        },
    }
}

/// Full numeric evaluation: an unbound variable is `Undefined`; an equation
/// cannot be evaluated.
pub open spec fn eval_expr(e: Expr, env: Map<Seq<char>, Option<Rat>>) -> Result<
    Option<Rat>,
    EvaluationError,
>
    decreases e,
{
    match e {
        Expr::Literal(v) => Ok(v),
        Expr::Variable(n) => Ok(
            if env.contains_key(n) {
                env[n]
            } else {
                None
            },
        ),
        Expr::Add(l, r) => eval_binary(
            eval_expr(*l, env),
            eval_expr(*r, env),
            |x: Option<Rat>, y: Option<Rat>| add_value(x, y),
        ),
        Expr::Sub(l, r) => eval_binary(
            eval_expr(*l, env),
            eval_expr(*r, env),
            |x: Option<Rat>, y: Option<Rat>| sub_value(x, y),
        ),
        Expr::Mul(l, r) => eval_binary(
            eval_expr(*l, env),
            eval_expr(*r, env),
            |x: Option<Rat>, y: Option<Rat>| mul_value(x, y),
        ),
        Expr::Div(l, r) => eval_binary(
            eval_expr(*l, env),
            eval_expr(*r, env),
            |x: Option<Rat>, y: Option<Rat>| div_value(x, y),
        ),
        Expr::Negate(x) => match eval_expr(*x, env) {
            Err(e) => Err(e),
            Ok(v) => Ok(neg_value(v)),
        },
        Expr::Factorial(x) => match eval_expr(*x, env) {
            Err(e) => Err(e),
            Ok(v) => Ok(factorial_value(v)),
        },
        Expr::Equals(_, _) => Err(EvaluationError::CantEvaluateVariant),
    }
}

/// Whether a product renders by juxtaposition: a literal on the left, or a
/// variable on each side.
pub open spec fn juxtaposed(l: Expr, r: Expr) -> bool {
    l is Literal || (l is Variable && r is Variable)
}

/// `(l op r)`
pub open spec fn parenthesized(l: Seq<char>, op: char, r: Seq<char>) -> Seq<char> {
    seq!['('] + l + seq![' ', op, ' '] + r + seq![')']
}

/// The text of an expression.
pub open spec fn render_expr(e: Expr) -> Seq<char>
    decreases e,
{
    match e {
        Expr::Literal(v) => render_value(v),
        Expr::Variable(n) => n,
        Expr::Add(l, r) => parenthesized(render_expr(*l), '+', render_expr(*r)),
        Expr::Sub(l, r) => parenthesized(render_expr(*l), '-', render_expr(*r)),
        Expr::Mul(l, r) => if juxtaposed(*l, *r) {
            render_expr(*l) + render_expr(*r)
        } else {
            parenthesized(render_expr(*l), '*', render_expr(*r))
        },
        Expr::Div(l, r) => parenthesized(render_expr(*l), '/', render_expr(*r)),
        Expr::Negate(x) => seq!['-', '('] + render_expr(*x) + seq![')'],
        Expr::Factorial(x) => seq!['('] + render_expr(*x) + seq![')', '!'],
        Expr::Equals(l, r) => parenthesized(render_expr(*l), '=', render_expr(*r)),
    }
}

impl Expression {
    /// The expression after one simplification pass (`simplify_expr`).
    pub fn simplified(&self) -> (r: Self)
        ensures
            r@ == simplify_expr(self@),
        decreases self,
    {
        match self {
            Expression::Value(v) => Expression::Value(ValueExpression::new(v.value.clone())),
            Expression::Variable(n) => Expression::Variable(n.clone()),
            Expression::Addition(n) => {
                let a = n.lhs.simplified();
                let b = n.rhs.simplified();
                let folded = match (&a, &b) {
                    (Expression::Value(x), Expression::Value(y)) => Some(x.value.add(&y.value)),
                    _ => None,
                };
                match folded {
                    Some(v) => Expression::Value(ValueExpression::new(v)),
                    None => Expression::Addition(AdditionExpression::new(Box::new(a), Box::new(b))),
                }
            },
            Expression::Subtraction(n) => {
                let a = n.lhs.simplified();
                let b = n.rhs.simplified();
                let folded = match (&a, &b) {
                    (Expression::Value(x), Expression::Value(y)) => Some(x.value.sub(&y.value)),
                    _ => None,
                };
                match folded {
                    Some(v) => Expression::Value(ValueExpression::new(v)),
                    None => Expression::Subtraction(SubtractionExpression::new(Box::new(a), Box::new(b))),
                }
            },
            Expression::Multiplication(n) => {
                let a = n.lhs.simplified();
                let b = n.rhs.simplified();
                let folded = match (&a, &b) {
                    (Expression::Value(x), Expression::Value(y)) => Some(x.value.mul(&y.value)),
                    _ => None,
                };
                match folded {
                    Some(v) => Expression::Value(ValueExpression::new(v)),
                    None => Expression::Multiplication(MultiplicationExpression::new(Box::new(a), Box::new(b))),
                }
            },
            Expression::Division(n) => {
                let a = n.lhs.simplified();
                let b = n.rhs.simplified();
                let folded = match (&a, &b) {
                    (Expression::Value(x), Expression::Value(y)) => Some(x.value.div(&y.value)),
                    _ => None,
                };
                match folded {
                    Some(v) => Expression::Value(ValueExpression::new(v)),
                    None => Expression::Division(DivisionExpression::new(Box::new(a), Box::new(b))),
                }
            },
            Expression::Negation(e) => Expression::Negation(Box::new(e.simplified())),
            Expression::Factorial(e) => Expression::Factorial(Box::new(e.simplified())),
            Expression::Equals(a, b) => Expression::Equals(
                Box::new(a.simplified()),
                Box::new(b.simplified()),
            ),
        }
    }

    /// Simplifies the expression one pass, in place.
    pub fn simplify(&mut self)
        ensures
            final(self)@ == simplify_expr(old(self)@),
    {
        *self = self.simplified();
    }

    /// Evaluates the expression under the bindings (`eval_expr`).
    pub fn evaluate(&self, variable_map: &VariableMap) -> (r: Result<Value, EvaluationError>)
        ensures
            match r {
                Ok(v) => eval_expr(self@, variable_map@) == Ok::<Option<Rat>, EvaluationError>(v@),
                Err(e) => eval_expr(self@, variable_map@) == Err::<Option<Rat>, EvaluationError>(e),
            },
        decreases self,
    {
        match self {
            Expression::Value(v) => Ok(v.value.clone()),
            Expression::Variable(n) => match variable_map.get(n) {
                Some(v) => Ok(v.clone()),
                None => Ok(Value::undefined()),
            },
            Expression::Addition(n) => {
                let a = match n.lhs.evaluate(variable_map) {
                    Ok(v) => v,
                    Err(e) => return Err(e),
                };
                let b = match n.rhs.evaluate(variable_map) {
                    Ok(v) => v,
                    Err(e) => return Err(e),
                };
                Ok(a.add(&b))
            },
            Expression::Subtraction(n) => {
                let a = match n.lhs.evaluate(variable_map) {
                    Ok(v) => v,
                    Err(e) => return Err(e),
                };
                let b = match n.rhs.evaluate(variable_map) {
                    Ok(v) => v,
                    Err(e) => return Err(e),
                };
                Ok(a.sub(&b))
            },
            Expression::Multiplication(n) => {
                let a = match n.lhs.evaluate(variable_map) {
                    Ok(v) => v,
                    Err(e) => return Err(e),
                };
                let b = match n.rhs.evaluate(variable_map) {
                    Ok(v) => v,
                    Err(e) => return Err(e),
                };
                Ok(a.mul(&b))
            },
            Expression::Division(n) => {
                let a = match n.lhs.evaluate(variable_map) {
                    Ok(v) => v,
                    Err(e) => return Err(e),
                };
                let b = match n.rhs.evaluate(variable_map) {
                    Ok(v) => v,
                    Err(e) => return Err(e),
                };
                Ok(a.div(&b))
            },
            Expression::Negation(e) => match e.evaluate(variable_map) {
                Ok(v) => Ok(v.neg()),
                Err(err) => Err(err),
            },
            Expression::Factorial(e) => match e.evaluate(variable_map) {
                Ok(v) => Ok(v.factorial()),
                Err(err) => Err(err),
            },
            Expression::Equals(_, _) => Err(EvaluationError::CantEvaluateVariant),
        }
    }

    /// The text of the expression (`render_expr`): binary operations in
    /// parentheses, products juxtaposed where `juxtaposed` holds.
    pub fn to_string(&self) -> (r: String)
        ensures
            r@ == render_expr(self@),
    {
        let mut out = String::new();
        self.write_into(&mut out);
        proof {
            assert(out@ =~= render_expr(self@));
        }
        out
    }

    fn write_into(&self, out: &mut String)
        ensures
            final(out)@ == old(out)@ + render_expr(self@),
        decreases self,
    {
        proof {
            reveal_strlit("(");
            reveal_strlit(")");
            reveal_strlit(" + ");
            reveal_strlit(" - ");
            reveal_strlit(" * ");
            reveal_strlit(" / ");
            reveal_strlit(" = ");
            reveal_strlit("-(");
            reveal_strlit(")!");
        }
        let ghost start = out@;
        match self {
            Expression::Value(v) => {
                let text = v.value.to_string();
                out.append(text.as_str());
            },
            Expression::Variable(n) => {
                out.append(n.as_str());
            },
            Expression::Addition(n) => {
                out.append("(");
                n.lhs.write_into(out);
                out.append(" + ");
                n.rhs.write_into(out);
                out.append(")");
            },
            Expression::Subtraction(n) => {
                out.append("(");
                n.lhs.write_into(out);
                out.append(" - ");
                n.rhs.write_into(out);
                out.append(")");
            },
            Expression::Multiplication(n) => {
                let juxtapose = match (&*n.lhs, &*n.rhs) {
                    (Expression::Value(_), _) => true,
                    (Expression::Variable(_), Expression::Variable(_)) => true,
                    _ => false,
                };
                if juxtapose {
                    n.lhs.write_into(out);
                    n.rhs.write_into(out);
                } else {
                    out.append("(");
                    n.lhs.write_into(out);
                    out.append(" * ");
                    n.rhs.write_into(out);
                    out.append(")");
                }
            },
            Expression::Division(n) => {
                out.append("(");
                n.lhs.write_into(out);
                out.append(" / ");
                n.rhs.write_into(out);
                out.append(")");
            },
            Expression::Negation(e) => {
                out.append("-(");
                e.write_into(out);
                out.append(")");
            },
            Expression::Factorial(e) => {
                out.append("(");
                e.write_into(out);
                out.append(")!");
            },
            Expression::Equals(a, b) => {
                out.append("(");
                a.write_into(out);
                out.append(" = ");
                b.write_into(out);
                out.append(")");
            },
        }
        proof {
            assert(out@ =~= start + render_expr(self@));
        }
    }
}

/// An equation never evaluates, whatever its sides and the bindings.
pub proof fn lemma_equation_not_evaluable(l: Expr, r: Expr, env: Map<Seq<char>, Option<Rat>>)
    ensures
        eval_expr(Expr::Equals(Box::new(l), Box::new(r)), env) == Err::<Option<Rat>, EvaluationError>(
            EvaluationError::CantEvaluateVariant,
        ),
{
}

/// An unbound variable evaluates to `Undefined`, not to a failure.
pub proof fn lemma_unbound_variable_undefined(name: Seq<char>, env: Map<Seq<char>, Option<Rat>>)
    requires
        !env.contains_key(name),
    ensures
        eval_expr(Expr::Variable(name), env) == Ok::<Option<Rat>, EvaluationError>(None),
{
}

} // verus!
