//! Turns a rule-tagged parse tree, as a grammar produces it, into an
//! expression tree.
//!
//! The children of an `Expression` (or `ParenExpression`) node are a flat
//! sequence: prefix `Negate`s, a primary, postfix `Factorial`s, then any
//! number of infix operators each followed by such a term. Additive
//! operators bind loosest, multiplicative ones tighter, both to the left;
//! negation binds tighter than multiplication and factorial tightest.
use crate::expression::{
    AdditionExpression, DivisionExpression, Expr, Expression, MultiplicationExpression,
    SubtractionExpression, ValueExpression,
};
use crate::rational::decimal_literal;
use crate::value::Value;
use vstd::prelude::*;

verus! {

/// The deepest nesting of composite nodes that `parse_pairs` accepts.
pub const MAX_DEPTH: u64 = 256;

/// The rule that produced a parse-tree node.
#[derive(Debug, Clone, Copy, PartialEq, Eq, Structural)]
pub enum Rule {
    Expression,
    ParenExpression,
    ImplicitMultiplication,
    Number,
    Variable,
    Plus,
    Minus,
    Cdot,
    Asterisk,
    Slash,
    Negate,
    Factorial,
    Carat,
}

/// A node of the parse tree: its rule, the text it matched, and its children.
#[derive(Debug)]
pub struct ParseNode {
    pub rule: Rule,
    pub text: String,
    pub children: Vec<ParseNode>,
}

/// A parse tree of a shape the grammar does not produce.
#[derive(Debug, Clone, Copy, PartialEq, Eq, Structural)]
pub enum StructuralError {
    /// A node of this rule stands where it cannot.
    UnexpectedRule(Rule),
    /// An operator or a composite node lacks an operand.
    MissingOperand,
    /// Two operands stand side by side outside an implicit multiplication.
    MissingOperator,
    /// A number node's text is no decimal literal.
    BadNumber,
    /// Composite nodes nest deeper than allowed.
    TooDeep,
}

pub open spec fn is_additive(r: Rule) -> bool {
    r == Rule::Plus || r == Rule::Minus
}

pub open spec fn is_multiplicative(r: Rule) -> bool {
    r == Rule::Cdot || r == Rule::Asterisk || r == Rule::Slash
}

/// Level 0 holds the additive operators, level 1 the multiplicative ones.
pub open spec fn binds_at(r: Rule, level: nat) -> bool {
    if level == 0 {
        is_additive(r)
    } else {
        is_multiplicative(r)
    }
}

/// The position of the last operator of `level` in `s`, or -1.
pub open spec fn last_operator(s: Seq<ParseNode>, level: nat) -> int
    decreases s.len(),
{
    if s.len() == 0 {
        -1
    } else if binds_at(s.last().rule, level) {
        s.len() - 1
    } else {
        last_operator(s.drop_last(), level)
    }
}

pub open spec fn binary_expr(op: Rule, l: Expr, r: Expr) -> Expr {
    match op {
        Rule::Plus => Expr::Add(Box::new(l), Box::new(r)),
        Rule::Minus => Expr::Sub(Box::new(l), Box::new(r)),
        Rule::Slash => Expr::Div(Box::new(l), Box::new(r)),
        _ => Expr::Mul(Box::new(l), Box::new(r)),
    }
}

/// Both results, or the first failure.
pub open spec fn both(
    a: Result<Expr, StructuralError>,
    b: Result<Expr, StructuralError>,
    f: spec_fn(Expr, Expr) -> Expr,
) -> Result<Expr, StructuralError> {
    match a {
        Err(e) => Err(e),
        Ok(x) => match b {
            Err(e) => Err(e),
            Ok(y) => Ok(f(x, y)),
        },
    }
}

/// The tree of an operator sequence at a precedence level: at levels 0 and
/// 1 the last operator of the level splits the sequence (so operators
/// associate to the left); level 2 takes prefix negations, postfix
/// factorials and a single primary.
pub open spec fn parse_seq(s: Seq<ParseNode>, level: nat, depth: nat) -> Result<
    Expr,
    StructuralError,
>
    decreases depth, s.len(), 2 - level,
    when level <= 2
{
    if s.len() == 0 {
        Err(StructuralError::MissingOperand)
    } else if level < 2 {
        let i = last_operator(s, level);
        if 0 <= i < s.len() {
            let op = s[i].rule;
            both(
                parse_seq(s.take(i), level, depth),
                parse_seq(s.skip(i + 1), level + 1, depth),
                |l: Expr, r: Expr| binary_expr(op, l, r),
            )
        } else {
            parse_seq(s, level + 1, depth)
        }
    } else if s[0].rule == Rule::Negate {
        match parse_seq(s.drop_first(), 2, depth) {
            Ok(x) => Ok(Expr::Negate(Box::new(x))),
            Err(e) => Err(e),
        }
    } else if s.last().rule == Rule::Factorial {
        match parse_seq(s.drop_last(), 2, depth) {
            Ok(x) => Ok(Expr::Factorial(Box::new(x))),
            Err(e) => Err(e),
        }
    } else if s.len() == 1 {
        parse_primary(s[0], depth)
    } else {
        Err(StructuralError::MissingOperator)
    }
}

/// The tree of one primary node.
pub open spec fn parse_primary(n: ParseNode, depth: nat) -> Result<Expr, StructuralError>
    decreases depth, 0nat, 0nat,
{
    match n.rule {
        Rule::Number => match decimal_literal(n.text@) {
            Some(r) => Ok(Expr::Literal(Some(r))),
            None => Err(StructuralError::BadNumber),
        },
        Rule::Variable => Ok(Expr::Variable(n.text@)),
        Rule::Expression | Rule::ParenExpression => if depth == 0 {
            Err(StructuralError::TooDeep)
        } else {
            parse_seq(n.children@, 0, (depth - 1) as nat)
        },
        Rule::ImplicitMultiplication => if depth == 0 {
            Err(StructuralError::TooDeep)
        } else {
            parse_implicit(n.children@, (depth - 1) as nat)
        },
        r => Err(StructuralError::UnexpectedRule(r)),
    }
}

/// Adjacent operands `o1 .. on` as the product `o1 * (o2 * (... * on))`.
pub open spec fn parse_implicit(s: Seq<ParseNode>, depth: nat) -> Result<Expr, StructuralError>
    decreases depth, s.len(), 0nat,
{
    if s.len() == 0 {
        Err(StructuralError::MissingOperand)
    } else if s.len() == 1 {
        parse_primary(s[0], depth)
    } else {
        both(
            parse_primary(s[0], depth),
            parse_implicit(s.drop_first(), depth),
            |l: Expr, r: Expr| Expr::Mul(Box::new(l), Box::new(r)),
        )
    }
}

/// The model of a parse result.
pub open spec fn parsed(r: Result<Expression, StructuralError>) -> Result<Expr, StructuralError> {
    match r {
        Ok(e) => Ok(e@),
        Err(x) => Err(x),
    }
}

pub proof fn lemma_last_operator(s: Seq<ParseNode>, level: nat)
    ensures
        -1 <= last_operator(s, level) < s.len(),
        last_operator(s, level) >= 0 ==> binds_at(s[last_operator(s, level)].rule, level),
    decreases s.len(),
{
    if s.len() > 0 && !binds_at(s.last().rule, level) {
        lemma_last_operator(s.drop_last(), level);
    }
}

fn rule_binds_at(r: Rule, level: u8) -> (b: bool)
    ensures
        b == binds_at(r, level as nat),
{
    if level == 0 {
        matches!(r, Rule::Plus | Rule::Minus)
    } else {
        matches!(r, Rule::Cdot | Rule::Asterisk | Rule::Slash)
    }
}

/// The position in `nodes` of the last operator of `level` in `lo..hi`.
fn find_last_operator(nodes: &Vec<ParseNode>, lo: usize, hi: usize, level: u8) -> (r: Option<
    usize,
>)
    requires
        lo <= hi <= nodes@.len(),
    ensures
        r is None ==> last_operator(nodes@.subrange(lo as int, hi as int), level as nat) == -1,
        r is Some ==> lo <= r->Some_0 < hi && r->Some_0 - lo == last_operator(
            nodes@.subrange(lo as int, hi as int),
            level as nat,
        ),
{
    let mut j = hi;
    while j > lo
        invariant
            lo <= j <= hi <= nodes@.len(),
            last_operator(nodes@.subrange(lo as int, hi as int), level as nat) == last_operator(
                nodes@.subrange(lo as int, j as int),
                level as nat,
            ),
        decreases j,
    {
        proof {
            assert(nodes@.subrange(lo as int, j as int).drop_last() =~= nodes@.subrange(
                lo as int,
                j - 1,
            ));
        }
        if rule_binds_at(nodes[j - 1].rule, level) {
            return Some(j - 1);
        }
        j = j - 1;
    }
    None
}

/// The tree of the operator sequence `nodes[lo..hi]` at `level`.
fn parse_range(nodes: &Vec<ParseNode>, lo: usize, hi: usize, level: u8, depth: u64) -> (r: Result<
    Expression,
    StructuralError,
>)
    requires
        lo <= hi <= nodes@.len(),
        level <= 2,
    ensures
        parsed(r) == parse_seq(nodes@.subrange(lo as int, hi as int), level as nat, depth as nat),
    decreases depth, hi - lo, 2 - level,
{
    let ghost s = nodes@.subrange(lo as int, hi as int);
    if lo == hi {
        return Err(StructuralError::MissingOperand);
    }
    if level < 2 {
        proof {
            lemma_last_operator(s, level as nat);
        }
        match find_last_operator(nodes, lo, hi, level) {
            None => parse_range(nodes, lo, hi, level + 1, depth),
            Some(i) => {
                proof {
                    assert(s.take(i - lo) =~= nodes@.subrange(lo as int, i as int));
                    assert(s.skip(i - lo + 1) =~= nodes@.subrange(i + 1, hi as int));
                }
                let op = nodes[i].rule;
                let l = match parse_range(nodes, lo, i, level, depth) {
                    Ok(e) => e,
                    Err(e) => return Err(e),
                };
                let r = match parse_range(nodes, i + 1, hi, level + 1, depth) {
                    Ok(e) => e,
                    Err(e) => return Err(e),
                };
                let (l, r) = (Box::new(l), Box::new(r));
                Ok(
                    match op {
                        Rule::Plus => Expression::Addition(AdditionExpression::new(l, r)),
                        Rule::Minus => Expression::Subtraction(SubtractionExpression::new(l, r)),
                        Rule::Slash => Expression::Division(DivisionExpression::new(l, r)),
                        _ => Expression::Multiplication(MultiplicationExpression::new(l, r)),
                    },
                )
            },
        }
    } else if matches!(nodes[lo].rule, Rule::Negate) {
        proof {
            assert(s.drop_first() =~= nodes@.subrange(lo + 1, hi as int));
        }
        match parse_range(nodes, lo + 1, hi, 2, depth) {
            Ok(e) => Ok(Expression::Negation(Box::new(e))),
            Err(e) => Err(e),
        }
    } else if matches!(nodes[hi - 1].rule, Rule::Factorial) {
        proof {
            assert(s.drop_last() =~= nodes@.subrange(lo as int, hi - 1));
        }
        match parse_range(nodes, lo, hi - 1, 2, depth) {
            Ok(e) => Ok(Expression::Factorial(Box::new(e))),
            Err(e) => Err(e),
        }
    } else if hi - lo == 1 {
        parse_node(&nodes[lo], depth)
    } else {
        Err(StructuralError::MissingOperator)
    }
}

/// The tree of one primary node (`parse_primary`).
fn parse_node(node: &ParseNode, depth: u64) -> (r: Result<Expression, StructuralError>)
    ensures
        parsed(r) == parse_primary(*node, depth as nat),
    decreases depth, 0nat, 0nat,
{
    match node.rule {
        Rule::Number => match Value::from_str(node.text.as_str()) {
            Ok(v) => Ok(Expression::Value(ValueExpression::new(v))),
            Err(_) => Err(StructuralError::BadNumber),
        },
        Rule::Variable => Ok(Expression::Variable(node.text.clone())),
        Rule::Expression | Rule::ParenExpression => {
            if depth == 0 {
                Err(StructuralError::TooDeep)
            } else {
                proof {
                    assert(node.children@.subrange(0, node.children@.len() as int)
                        =~= node.children@);
                }
                parse_range(&node.children, 0, node.children.len(), 0, depth - 1)
            }
        },
        Rule::ImplicitMultiplication => {
            if depth == 0 {
                Err(StructuralError::TooDeep)
            } else {
                proof {
                    assert(node.children@.subrange(0, node.children@.len() as int)
                        =~= node.children@);
                }
                parse_product(&node.children, 0, node.children.len(), depth - 1)
            }
        },
        r => Err(StructuralError::UnexpectedRule(r)),
    }
}

/// The right-nested product of the primaries `nodes[lo..hi]`.
fn parse_product(nodes: &Vec<ParseNode>, lo: usize, hi: usize, depth: u64) -> (r: Result<
    Expression,
    StructuralError,
>)
    requires
        lo <= hi <= nodes@.len(),
    ensures
        parsed(r) == parse_implicit(nodes@.subrange(lo as int, hi as int), depth as nat),
    decreases depth, hi - lo, 0nat,
{
    let ghost s = nodes@.subrange(lo as int, hi as int);
    if lo == hi {
        Err(StructuralError::MissingOperand)
    } else if hi - lo == 1 {
        parse_node(&nodes[lo], depth)
    } else {
        proof {
            assert(s.drop_first() =~= nodes@.subrange(lo + 1, hi as int));
        }
        let first = match parse_node(&nodes[lo], depth) {
            Ok(e) => e,
            Err(e) => return Err(e),
        };
        let rest = match parse_product(nodes, lo + 1, hi, depth) {
            Ok(e) => e,
            Err(e) => return Err(e),
        };
        Ok(
            Expression::Multiplication(
                MultiplicationExpression::new(Box::new(first), Box::new(rest)),
            ),
        )
    }
}

/// Builds the expression tree of a parse tree's top-level nodes, with
/// composite nodes nested at most `MAX_DEPTH` deep.
pub fn parse_pairs(pairs: &Vec<ParseNode>) -> (r: Result<Expression, StructuralError>)
    ensures
        parsed(r) == parse_seq(pairs@, 0, MAX_DEPTH as nat),
{
    proof {
        assert(pairs@.subrange(0, pairs@.len() as int) =~= pairs@);
    }
    parse_range(pairs, 0, pairs.len(), 0, MAX_DEPTH)
}

} // verus!
