use crate::ast::{ASTNode, AstView, Operator};
use crate::token::{Token, TokenView};
use vstd::prelude::*;

verus! {

/// An error of the operator-precedence parser.
#[derive(Debug, Clone, PartialEq)]
pub enum ParserError {
    ExpectedClosingParent,
    UnexpectedToken(Token),
    TokenStreamNotEmpty,
    FailedToParseAllOperators,
    ExpectedIdentifier,
}

/// The mathematical shape of a parser error.
pub enum ParserErrorView {
    ExpectedClosingParent,
    UnexpectedToken(TokenView),
    TokenStreamNotEmpty,
    FailedToParseAllOperators,
    ExpectedIdentifier,
}

impl View for ParserError {
    type V = ParserErrorView;

    open spec fn view(&self) -> ParserErrorView {
        match self {
            ParserError::ExpectedClosingParent => ParserErrorView::ExpectedClosingParent,
            ParserError::UnexpectedToken(t) => ParserErrorView::UnexpectedToken(t@),
            ParserError::TokenStreamNotEmpty => ParserErrorView::TokenStreamNotEmpty,
            ParserError::FailedToParseAllOperators => ParserErrorView::FailedToParseAllOperators,
            ParserError::ExpectedIdentifier => ParserErrorView::ExpectedIdentifier,
        }
    }
}

/// What the parser waits for next: the start of a primary expression, the
/// identifier that must follow `let`, or a binary operator after a complete
/// operand.
#[derive(Clone, Copy, Debug, PartialEq, Eq, Structural)]
pub enum ParseMode {
    ExpectPrimary,
    ExpectLetIdent,
    AfterOperand,
}

/// One reduction: pop the topmost operator and combine the topmost
/// operand(s) into a new tree node. A binary operator consumes two operands,
/// `Negative` consumes one. An `Assign` node is only built over an
/// identifier on its left. Too few operands mean that the token sequence ran
/// out before the operators were satisfied.
pub open spec fn reduce_once(ops: Seq<Operator>, ands: Seq<AstView>) -> Result<
    (Seq<Operator>, Seq<AstView>),
    ParserErrorView,
>
    recommends
        ops.len() > 0,
        ops.last() != Operator::Sentinel,
{
    let op = ops.last();
    if op == Operator::Negative {
        if ands.len() >= 1 {
            Ok(
                (
                    ops.drop_last(),
                    ands.drop_last().push(
                        AstView::Unary { op, inner: Box::new(ands.last()) },
                    ),
                ),
            )
        } else {
            Err(ParserErrorView::FailedToParseAllOperators)
        }
    } else if op == Operator::Sentinel {
        Err(ParserErrorView::FailedToParseAllOperators)
    } else {
        if ands.len() >= 2 {
            let rhs = ands.last();
            let lhs = ands.drop_last().last();
            if op == Operator::Assign && !(lhs is Ident) {
                Err(ParserErrorView::ExpectedIdentifier)
            } else {
                Ok(
                    (
                        ops.drop_last(),
                        ands.drop_last().drop_last().push(
                            AstView::Binary { op, lhs: Box::new(lhs), rhs: Box::new(rhs) },
                        ),
                    ),
                )
            }
        } else {
            Err(ParserErrorView::FailedToParseAllOperators)
        }
    }
}

/// Whether the operator on top of the stack must be reduced before `op` is
/// pushed: it binds tighter, or equally tight — operators of one
/// precedence reduce left to right — except that assignment never reduces
/// against assignment, so it binds to the right.
pub open spec fn must_reduce_before(top: Operator, op: Operator) -> bool {
    top.cmp_spec(op) == core::cmp::Ordering::Greater || (top.cmp_spec(op)
        == core::cmp::Ordering::Equal && op != Operator::Assign)
}

/// Reduce while the operator on top of the stack binds tighter than the
/// incoming operator (or equally tight, for the left-to-right operators),
/// then push the incoming operator.
pub open spec fn push_operator_spec(
    op: Operator,
    ops: Seq<Operator>,
    ands: Seq<AstView>,
) -> Result<(Seq<Operator>, Seq<AstView>), ParserErrorView>
    decreases ops.len(),
{
    if ops.len() == 0 {
        Err(ParserErrorView::FailedToParseAllOperators)
    } else if must_reduce_before(ops.last(), op) {
        match reduce_once(ops, ands) {
            Ok((ops2, ands2)) => push_operator_spec(op, ops2, ands2),
            Err(e) => Err(e),
        }
    } else {
        Ok((ops.push(op), ands))
    }
}

/// Reduce until the top of the operator stack is a `Sentinel`; the sentinel
/// itself stays.
pub open spec fn rewind_spec(ops: Seq<Operator>, ands: Seq<AstView>) -> Result<
    (Seq<Operator>, Seq<AstView>),
    ParserErrorView,
>
    decreases ops.len(),
{
    if ops.len() == 0 || ops.last() == Operator::Sentinel {
        Ok((ops, ands))
    } else {
        match reduce_once(ops, ands) {
            Ok((ops2, ands2)) => rewind_spec(ops2, ands2),
            Err(e) => Err(e),
        }
    }
}

/// One token where a primary expression (or the identifier of a `let`) is
/// expected: literals and identifiers become leaf nodes, `-` pushes the
/// unary operator, `(` opens a scope by pushing a sentinel.
pub open spec fn primary_step(
    t: TokenView,
    mode: ParseMode,
    ops: Seq<Operator>,
    ands: Seq<AstView>,
) -> Result<(ParseMode, Seq<Operator>, Seq<AstView>), ParserErrorView>
    recommends
        mode != ParseMode::AfterOperand,
{
    if mode == ParseMode::ExpectLetIdent {
        match t {
            TokenView::Ident(name) => Ok(
                (ParseMode::AfterOperand, ops, ands.push(AstView::Ident(name))),
            ),
            _ => Err(ParserErrorView::ExpectedIdentifier),
        }
    } else {
        match t {
            TokenView::Let => Ok((ParseMode::ExpectLetIdent, ops, ands)),
            TokenView::Ident(name) => Ok(
                (ParseMode::AfterOperand, ops, ands.push(AstView::Ident(name))),
            ),
            TokenView::I32(v) => Ok((ParseMode::AfterOperand, ops, ands.push(AstView::I32(v)))),
            TokenView::F32(bits) => Ok(
                (ParseMode::AfterOperand, ops, ands.push(AstView::F32(bits))),
            ),
            TokenView::OpenParen => Ok(
                (ParseMode::ExpectPrimary, ops.push(Operator::Sentinel), ands),
            ),
            TokenView::Minus => Ok((ParseMode::ExpectPrimary, ops.push(Operator::Negative), ands)),
            _ => Err(ParserErrorView::UnexpectedToken(t)),
        }
    }
}

/// The whole parse, one token at a time over the two stacks.
///
/// At the end of the tokens, the stack is reduced down to the nearest
/// sentinel; an inner sentinel still on the stack then means an unclosed
/// parenthesis, and anything but exactly one operand left is a failed parse.
/// A closing parenthesis reduces to the nearest sentinel and pops it, or, if
/// only the stack bottom is left, stops the parse with the tokens not
/// consumed.
pub open spec fn parse_step(
    ts: Seq<TokenView>,
    mode: ParseMode,
    ops: Seq<Operator>,
    ands: Seq<AstView>,
) -> Result<AstView, ParserErrorView>
    decreases ts.len(),
{
    if ts.len() == 0 {
        if mode == ParseMode::ExpectLetIdent {
            Err(ParserErrorView::ExpectedIdentifier)
        } else {
            match rewind_spec(ops, ands) {
                Ok((ops2, ands2)) => if ops2.len() > 1 {
                    Err(ParserErrorView::ExpectedClosingParent)
                } else if ands2.len() != 1 {
                    Err(ParserErrorView::FailedToParseAllOperators)
                } else {
                    Ok(ands2.last())
                },
                Err(e) => Err(e),
            }
        }
    } else {
        let t = ts.first();
        let rest = ts.drop_first();
        if mode == ParseMode::AfterOperand {
            match t.operator_of_token_view() {
                Some(op) => match push_operator_spec(op, ops, ands) {
                    Ok((ops2, ands2)) => parse_step(rest, ParseMode::ExpectPrimary, ops2, ands2),
                    Err(e) => Err(e),
                },
                None => match t {
                    TokenView::CloseParen => match rewind_spec(ops, ands) {
                        Ok((ops2, ands2)) => if ops2.len() > 1 {
                            parse_step(rest, ParseMode::AfterOperand, ops2.drop_last(), ands2)
                        } else {
                            Err(ParserErrorView::TokenStreamNotEmpty)
                        },
                        Err(e) => Err(e),
                    },
                    _ => Err(ParserErrorView::UnexpectedToken(t)),
                },
            }
        } else {
            match primary_step(t, mode, ops, ands) {
                Ok((mode2, ops2, ands2)) => parse_step(rest, mode2, ops2, ands2),
                Err(e) => Err(e),
            }
        }
    }
}

/// What parsing a token sequence yields: exactly one tree, or the first
/// error the reduction engine runs into.
pub open spec fn parse_spec(ts: Seq<TokenView>) -> Result<AstView, ParserErrorView> {
    parse_step(ts, ParseMode::ExpectPrimary, seq![Operator::Sentinel], Seq::<AstView>::empty())
}

/// One executable reduction; on success the stacks hold exactly what
/// `reduce_once` says.
fn pop_operator(
    operators_stack: &mut Vec<Operator>,
    operands_stack: &mut Vec<ASTNode>,
) -> (result: Result<(), ParserError>)
    requires
        old(operators_stack)@.len() > 0,
        old(operators_stack)@.last() != Operator::Sentinel,
    ensures
        match result {
            Ok(_) => reduce_once(old(operators_stack)@, old(operands_stack).deep_view()) == Ok::<
                _,
                ParserErrorView,
            >((final (operators_stack)@, final (operands_stack).deep_view())),
            Err(e) => reduce_once(old(operators_stack)@, old(operands_stack).deep_view())
                == Err::<(Seq<Operator>, Seq<AstView>), _>(e@),
        },
{
    let op = operators_stack[operators_stack.len() - 1];
    match op {
        Operator::Plus
        | Operator::Minus
        | Operator::Multiplication
        | Operator::Division
        | Operator::Exponential
        | Operator::Assign => {
            if operands_stack.len() < 2 {
                return Err(ParserError::FailedToParseAllOperators);
            }
            let rhs = operands_stack.pop().unwrap();
            let lhs = operands_stack.pop().unwrap();
            if matches!(op, Operator::Assign) && !matches!(lhs, ASTNode::Ident(_)) {
                return Err(ParserError::ExpectedIdentifier);
            }
            let node = ASTNode::BinaryExpr {
                op: operators_stack.pop().unwrap(),
                lhs: Box::new(lhs),
                rhs: Box::new(rhs),
            };
            operands_stack.push(node);
            proof {
                assert(operands_stack.deep_view() =~= old(
                    operands_stack,
                ).deep_view().drop_last().drop_last().push(
                    AstView::Binary {
                        op,
                        lhs: Box::new(old(operands_stack).deep_view().drop_last().last()),
                        rhs: Box::new(old(operands_stack).deep_view().last()),
                    },
                ));
                assert(operators_stack@ =~= old(operators_stack)@.drop_last());
            }
            Ok(())
        },
        Operator::Negative => {
            if operands_stack.len() < 1 {
                return Err(ParserError::FailedToParseAllOperators);
            }
            let node = ASTNode::UnaryExpr {
                op: operators_stack.pop().unwrap(),
                inner: Box::new(operands_stack.pop().unwrap()),
            };
            operands_stack.push(node);
            proof {
                assert(operands_stack.deep_view() =~= old(
                    operands_stack,
                ).deep_view().drop_last().push(
                    AstView::Unary {
                        op,
                        inner: Box::new(old(operands_stack).deep_view().last()),
                    },
                ));
                assert(operators_stack@ =~= old(operators_stack)@.drop_last());
            }
            Ok(())
        },
        Operator::Sentinel => Err(ParserError::FailedToParseAllOperators),
    }
}

/// Reduce while the top of the stack binds tighter than `op` (or equally
/// tight, for the left-to-right operators), then push `op`.
fn push_operator(
    op: Operator,
    operators_stack: &mut Vec<Operator>,
    operands_stack: &mut Vec<ASTNode>,
) -> (result: Result<(), ParserError>)
    requires
        old(operators_stack)@.len() > 0,
        old(operators_stack)@[0] == Operator::Sentinel,
    ensures
        match result {
            Ok(_) => push_operator_spec(op, old(operators_stack)@, old(operands_stack).deep_view())
                == Ok::<_, ParserErrorView>(
                (final (operators_stack)@, final (operands_stack).deep_view()),
            ) && final (operators_stack)@.len() > 0 && final (operators_stack)@[0]
                == Operator::Sentinel,
            Err(e) => push_operator_spec(op, old(operators_stack)@, old(operands_stack).deep_view())
                == Err::<(Seq<Operator>, Seq<AstView>), _>(e@),
        },
{
    loop
        invariant
            operators_stack@.len() > 0,
            operators_stack@[0] == Operator::Sentinel,
            push_operator_spec(op, old(operators_stack)@, old(operands_stack).deep_view())
                == push_operator_spec(op, operators_stack@, operands_stack.deep_view()),
        ensures
            operators_stack@.len() > 0,
            operators_stack@[0] == Operator::Sentinel,
            push_operator_spec(op, old(operators_stack)@, old(operands_stack).deep_view())
                == push_operator_spec(op, operators_stack@, operands_stack.deep_view()),
            !must_reduce_before(operators_stack@.last(), op),
        decreases operators_stack@.len(),
    {
        let top_stack_operator = operators_stack[operators_stack.len() - 1];
        let reduce_now = if matches!(op, Operator::Assign) {
            top_stack_operator > op
        } else {
            top_stack_operator >= op
        };
        if reduce_now {
            match pop_operator(operators_stack, operands_stack) {
                Ok(_) => (),
                Err(e) => {
                    return Err(e);
                },
            }
        } else {
            break ;
        }
    }
    operators_stack.push(op);
    Ok(())
}

/// Reduce until the top of the operator stack is a sentinel.
fn rewind_operands(
    operators_stack: &mut Vec<Operator>,
    operands_stack: &mut Vec<ASTNode>,
) -> (result: Result<(), ParserError>)
    requires
        old(operators_stack)@.len() > 0,
        old(operators_stack)@[0] == Operator::Sentinel,
    ensures
        match result {
            Ok(_) => rewind_spec(old(operators_stack)@, old(operands_stack).deep_view()) == Ok::<
                _,
                ParserErrorView,
            >((final (operators_stack)@, final (operands_stack).deep_view())) && final (
            operators_stack)@.len() > 0 && final (operators_stack)@[0] == Operator::Sentinel
                && final (operators_stack)@.last() == Operator::Sentinel,
            Err(e) => rewind_spec(old(operators_stack)@, old(operands_stack).deep_view()) == Err::<
                (Seq<Operator>, Seq<AstView>),
                _,
            >(e@),
        },
{
    loop
        invariant
            operators_stack@.len() > 0,
            operators_stack@[0] == Operator::Sentinel,
            rewind_spec(old(operators_stack)@, old(operands_stack).deep_view()) == rewind_spec(
                operators_stack@,
                operands_stack.deep_view(),
            ),
        ensures
            operators_stack@.len() > 0,
            operators_stack@[0] == Operator::Sentinel,
            rewind_spec(old(operators_stack)@, old(operands_stack).deep_view()) == rewind_spec(
                operators_stack@,
                operands_stack.deep_view(),
            ),
            operators_stack@.last() == Operator::Sentinel,
        decreases operators_stack@.len(),
    {
        let top_stack_operator = operators_stack[operators_stack.len() - 1];
        if matches!(top_stack_operator, Operator::Sentinel) {
            break ;
        }
        match pop_operator(operators_stack, operands_stack) {
            Ok(_) => (),
            Err(e) => {
                return Err(e);
            },
        }
    }
    Ok(())
}

/// One token where a primary expression is expected; yields what the parser
/// waits for after it.
fn parse_stmt(
    current_tok: &Token,
    mode: ParseMode,
    operators_stack: &mut Vec<Operator>,
    operands_stack: &mut Vec<ASTNode>,
) -> (result: Result<ParseMode, ParserError>)
    requires
        mode != ParseMode::AfterOperand,
    ensures
        match result {
            Ok(mode2) => primary_step(
                current_tok@,
                mode,
                old(operators_stack)@,
                old(operands_stack).deep_view(),
            ) == Ok::<_, ParserErrorView>(
                (mode2, final (operators_stack)@, final (operands_stack).deep_view()),
            ),
            Err(e) => primary_step(
                current_tok@,
                mode,
                old(operators_stack)@,
                old(operands_stack).deep_view(),
            ) == Err::<(ParseMode, Seq<Operator>, Seq<AstView>), _>(e@),
        },
{
    if matches!(mode, ParseMode::ExpectLetIdent) {
        match current_tok {
            Token::Ident(identifier) => {
                operands_stack.push(ASTNode::Ident(identifier.clone()));
                proof {
                    assert(operands_stack.deep_view() =~= old(operands_stack).deep_view().push(
                        AstView::Ident(identifier@),
                    ));
                }
                Ok(ParseMode::AfterOperand)
            },
            _ => Err(ParserError::ExpectedIdentifier),
        }
    } else {
        match current_tok {
            Token::Let => Ok(ParseMode::ExpectLetIdent),
            Token::Ident(identifier) => {
                operands_stack.push(ASTNode::Ident(identifier.clone()));
                proof {
                    assert(operands_stack.deep_view() =~= old(operands_stack).deep_view().push(
                        AstView::Ident(identifier@),
                    ));
                }
                Ok(ParseMode::AfterOperand)
            },
            Token::I32(value) => {
                operands_stack.push(ASTNode::I32(*value));
                proof {
                    assert(operands_stack.deep_view() =~= old(operands_stack).deep_view().push(
                        AstView::I32(*value),
                    ));
                }
                Ok(ParseMode::AfterOperand)
            },
            Token::F32(bits) => {
                operands_stack.push(ASTNode::F32(*bits));
                proof {
                    assert(operands_stack.deep_view() =~= old(operands_stack).deep_view().push(
                        AstView::F32(*bits),
                    ));
                }
                Ok(ParseMode::AfterOperand)
            },
            Token::OpenParen => {
                operators_stack.push(Operator::Sentinel);
                Ok(ParseMode::ExpectPrimary)
            },
            Token::Minus => {
                operators_stack.push(Operator::Negative);
                Ok(ParseMode::ExpectPrimary)
            },
            _ => Err(ParserError::UnexpectedToken(current_tok.clone())),
        }
    }
}

/// Runs the reduction engine over the whole token sequence.
fn parse_expression(token_stream: &Vec<Token>) -> (result: Result<ASTNode, ParserError>)
    ensures
        match result {
            Ok(node) => parse_spec(token_stream.deep_view()) == Ok::<_, ParserErrorView>(
                node@,
            ),
            Err(e) => parse_spec(token_stream.deep_view()) == Err::<AstView, _>(e@),
        },
{
    let ghost ts0 = token_stream.deep_view();
    let mut operators_stack: Vec<Operator> = Vec::new();
    operators_stack.push(Operator::Sentinel);
    let mut operands_stack: Vec<ASTNode> = Vec::new();
    let mut mode = ParseMode::ExpectPrimary;
    let mut i: usize = 0;

    proof {
        assert(ts0.subrange(0, ts0.len() as int) =~= ts0);
        assert(operators_stack@ =~= seq![Operator::Sentinel]);
        assert(operands_stack.deep_view() =~= Seq::<AstView>::empty());
    }

    while i < token_stream.len()
        invariant
            i <= token_stream.len(),
            ts0 == token_stream.deep_view(),
            operators_stack@.len() > 0,
            operators_stack@[0] == Operator::Sentinel,
            parse_spec(ts0) == parse_step(
                ts0.subrange(i as int, ts0.len() as int),
                mode,
                operators_stack@,
                operands_stack.deep_view(),
            ),
        decreases token_stream.len() - i,
    {
        let ghost ts_here = ts0.subrange(i as int, ts0.len() as int);
        proof {
            assert(ts_here.len() > 0);
            assert(ts_here.first() == ts0[i as int]);
            assert(ts_here.drop_first() =~= ts0.subrange(i as int + 1, ts0.len() as int));
        }
        let current_tok = &token_stream[i];
        if matches!(mode, ParseMode::AfterOperand) {
            match current_tok {
                Token::Plus
                | Token::Minus
                | Token::Star
                | Token::Slash
                | Token::Caret
                | Token::Assign => {
                    let operator = match Operator::try_from(current_tok) {
                        Ok(operator) => operator,
                        Err(_) => {
                            return Err(ParserError::UnexpectedToken(current_tok.clone()));
                        },
                    };
                    match push_operator(operator, &mut operators_stack, &mut operands_stack) {
                        Ok(_) => (),
                        Err(e) => {
                            return Err(e);
                        },
                    }
                    mode = ParseMode::ExpectPrimary;
                },
                Token::CloseParen => {
                    match rewind_operands(&mut operators_stack, &mut operands_stack) {
                        Ok(_) => (),
                        Err(e) => {
                            return Err(e);
                        },
                    }
                    if operators_stack.len() > 1 {
                        let _ = operators_stack.pop();
                    } else {
                        return Err(ParserError::TokenStreamNotEmpty);
                    }
                },
                _ => {
                    return Err(ParserError::UnexpectedToken(current_tok.clone()));
                },
            }
        } else {
            match parse_stmt(current_tok, mode, &mut operators_stack, &mut operands_stack) {
                Ok(mode2) => {
                    mode = mode2;
                },
                Err(e) => {
                    return Err(e);
                },
            }
        }
        i = i + 1;
    }

    proof {
        assert(ts0.subrange(i as int, ts0.len() as int) =~= Seq::<TokenView>::empty());
    }
    if matches!(mode, ParseMode::ExpectLetIdent) {
        return Err(ParserError::ExpectedIdentifier);
    }
    match rewind_operands(&mut operators_stack, &mut operands_stack) {
        Ok(_) => (),
        Err(e) => {
            return Err(e);
        },
    }
    if operators_stack.len() > 1 {
        return Err(ParserError::ExpectedClosingParent);
    }
    if operands_stack.len() != 1 {
        return Err(ParserError::FailedToParseAllOperators);
    }
    Ok(operands_stack.pop().unwrap())
}

/// Turns an ordered token sequence into exactly one abstract syntax tree, or
/// reports the first spot where the sequence leaves the grammar.
pub fn parse(token_stream: Vec<Token>) -> (result: Result<ASTNode, ParserError>)
    ensures
        match result {
            Ok(node) => parse_spec(token_stream.deep_view()) == Ok::<_, ParserErrorView>(
                node@,
            ),
            Err(e) => parse_spec(token_stream.deep_view()) == Err::<AstView, _>(e@),
        },
{
    parse_expression(&token_stream)
}

/// Whether a token denotes a binary operator.
pub open spec fn is_binary_operator_token(t: TokenView) -> bool {
    t.operator_of_token_view() is Some
}

/// How many operators on the stack are binary (neither the sentinel nor
/// the unary `Negative`): each of them will consume two operands.
pub open spec fn binary_count(ops: Seq<Operator>) -> int
    decreases ops.len(),
{
    if ops.len() == 0 {
        0
    } else {
        binary_count(ops.drop_last()) + if ops.last() == Operator::Sentinel || ops.last()
            == Operator::Negative {
            0int
        } else {
            1int
        }
    }
}

/// How many sentinels the stack holds: one for the bottom and one for each
/// open parenthesis.
pub open spec fn sentinel_count(ops: Seq<Operator>) -> int
    decreases ops.len(),
{
    if ops.len() == 0 {
        0
    } else {
        sentinel_count(ops.drop_last()) + if ops.last() == Operator::Sentinel {
            1int
        } else {
            0int
        }
    }
}

/// No assignment operator on the stack.
pub open spec fn assign_free_ops(ops: Seq<Operator>) -> bool {
    forall|i: int| 0 <= i < ops.len() ==> #[trigger] ops[i] != Operator::Assign
}

/// No assignment token in the sequence.
pub open spec fn assign_free_tokens(ts: Seq<TokenView>) -> bool {
    forall|i: int| 0 <= i < ts.len() ==> !(#[trigger] ts[i] is Assign)
}

/// Whether a token sequence conforms to the grammar
///
/// ```text
/// Expr    ::= Primary { BinOp Primary }
/// Primary ::= Identifier | "let" Identifier
///           | IntegerLiteral | FloatLiteral
///           | "(" Expr ")" | "-" Primary
/// ```
///
/// read off linearly: `mode` says whether a primary, the identifier of a
/// `let`, or a binary operator is due next, and `depth` counts the open
/// parentheses, each of which must be closed around a whole expression.
pub open spec fn conforms_rest(ts: Seq<TokenView>, mode: ParseMode, depth: int) -> bool
    decreases ts.len(),
{
    if ts.len() == 0 {
        mode == ParseMode::AfterOperand && depth == 0
    } else {
        let t = ts.first();
        let rest = ts.drop_first();
        match mode {
            ParseMode::ExpectPrimary => match t {
                TokenView::Ident(_) => conforms_rest(rest, ParseMode::AfterOperand, depth),
                TokenView::I32(_) => conforms_rest(rest, ParseMode::AfterOperand, depth),
                TokenView::F32(_) => conforms_rest(rest, ParseMode::AfterOperand, depth),
                TokenView::Let => conforms_rest(rest, ParseMode::ExpectLetIdent, depth),
                TokenView::OpenParen => conforms_rest(rest, ParseMode::ExpectPrimary, depth + 1),
                TokenView::Minus => conforms_rest(rest, ParseMode::ExpectPrimary, depth),
                _ => false,
            },
            ParseMode::ExpectLetIdent => t is Ident && conforms_rest(
                rest,
                ParseMode::AfterOperand,
                depth,
            ),
            ParseMode::AfterOperand => if is_binary_operator_token(t) {
                conforms_rest(rest, ParseMode::ExpectPrimary, depth)
            } else if t is CloseParen {
                depth > 0 && conforms_rest(rest, ParseMode::AfterOperand, depth - 1)
            } else {
                false
            },
        }
    }
}

/// Whether a whole token sequence conforms to the grammar.
pub open spec fn conforms(ts: Seq<TokenView>) -> bool {
    conforms_rest(ts, ParseMode::ExpectPrimary, 0)
}

proof fn lemma_binary_count_nonneg(ops: Seq<Operator>)
    ensures
        0 <= binary_count(ops),
    decreases ops.len(),
{
    if ops.len() > 0 {
        lemma_binary_count_nonneg(ops.drop_last());
    }
}

proof fn lemma_sentinel_count_bounds(ops: Seq<Operator>)
    ensures
        0 <= sentinel_count(ops) <= ops.len(),
        ops.len() > 0 && ops[0] == Operator::Sentinel ==> sentinel_count(ops) >= 1,
    decreases ops.len(),
{
    if ops.len() > 0 {
        lemma_sentinel_count_bounds(ops.drop_last());
    }
}

proof fn lemma_two_sentinels(ops: Seq<Operator>)
    requires
        ops.len() >= 2,
        ops[0] == Operator::Sentinel,
        ops.last() == Operator::Sentinel,
    ensures
        sentinel_count(ops) >= 2,
{
    lemma_sentinel_count_bounds(ops.drop_last());
}

/// Shape of the stacks across a rewind: with one completed operand per
/// binary operator (`a == 1`) the reduction cannot run short, and whenever
/// it comes back the operand count still matches the operator count down
/// to the nearest sentinel, which is left on top.
proof fn lemma_rewind_shape(ops: Seq<Operator>, ands: Seq<AstView>, a: int)
    requires
        ops.len() >= 1,
        ops[0] == Operator::Sentinel,
        assign_free_ops(ops),
        ands.len() == binary_count(ops) + a,
        0 <= a <= 1,
    ensures
        a == 1 ==> rewind_spec(ops, ands) is Ok,
        rewind_spec(ops, ands) is Ok ==> ({
            let (o2, a2) = rewind_spec(ops, ands)->Ok_0;
            &&& o2.len() >= 1
            &&& o2[0] == Operator::Sentinel
            &&& o2.last() == Operator::Sentinel
            &&& assign_free_ops(o2)
            &&& sentinel_count(o2) == sentinel_count(ops)
            &&& a2.len() == binary_count(o2) + a
        }),
    decreases ops.len(),
{
    lemma_binary_count_nonneg(ops.drop_last());
    if ops.last() == Operator::Sentinel {
    } else {
        assert(ops.len() >= 2);
        let op = ops.last();
        assert(op != Operator::Assign);
        if op == Operator::Negative {
            if ands.len() >= 1 {
                let ops2 = ops.drop_last();
                let ands2 = ands.drop_last().push(
                    AstView::Unary { op, inner: Box::new(ands.last()) },
                );
                assert(binary_count(ops2) == binary_count(ops));
                assert(sentinel_count(ops2) == sentinel_count(ops));
                lemma_rewind_shape(ops2, ands2, a);
            }
        } else {
            assert(binary_count(ops) == binary_count(ops.drop_last()) + 1);
            if ands.len() >= 2 {
                let ops2 = ops.drop_last();
                let rhs = ands.last();
                let lhs = ands.drop_last().last();
                let ands2 = ands.drop_last().drop_last().push(
                    AstView::Binary { op, lhs: Box::new(lhs), rhs: Box::new(rhs) },
                );
                assert(sentinel_count(ops2) == sentinel_count(ops));
                lemma_rewind_shape(ops2, ands2, a);
            }
        }
    }
}

/// Shape of the stacks across pushing a binary operator: the reductions it
/// forces cannot run short, and afterwards each binary operator on the
/// stack again misses exactly its right operand.
proof fn lemma_push_shape(op: Operator, ops: Seq<Operator>, ands: Seq<AstView>)
    requires
        op != Operator::Sentinel,
        op != Operator::Negative,
        op != Operator::Assign,
        ops.len() >= 1,
        ops[0] == Operator::Sentinel,
        assign_free_ops(ops),
        ands.len() == binary_count(ops) + 1,
    ensures
        push_operator_spec(op, ops, ands) is Ok,
        ({
            let (o2, a2) = push_operator_spec(op, ops, ands)->Ok_0;
            &&& o2.len() >= 1
            &&& o2[0] == Operator::Sentinel
            &&& assign_free_ops(o2)
            &&& sentinel_count(o2) == sentinel_count(ops)
            &&& a2.len() == binary_count(o2)
        }),
    decreases ops.len(),
{
    lemma_binary_count_nonneg(ops.drop_last());
    if must_reduce_before(ops.last(), op) {
        assert(ops.last() != Operator::Sentinel);
        assert(ops.len() >= 2);
        let top = ops.last();
        assert(top != Operator::Assign);
        if top == Operator::Negative {
            assert(ands.len() >= 1);
            let ops2 = ops.drop_last();
            let ands2 = ands.drop_last().push(
                AstView::Unary { op: top, inner: Box::new(ands.last()) },
            );
            assert(binary_count(ops2) == binary_count(ops));
            assert(sentinel_count(ops2) == sentinel_count(ops));
            lemma_push_shape(op, ops2, ands2);
        } else {
            assert(binary_count(ops) == binary_count(ops.drop_last()) + 1);
            assert(ands.len() >= 2);
            let ops2 = ops.drop_last();
            let rhs = ands.last();
            let lhs = ands.drop_last().last();
            let ands2 = ands.drop_last().drop_last().push(
                AstView::Binary { op: top, lhs: Box::new(lhs), rhs: Box::new(rhs) },
            );
            assert(sentinel_count(ops2) == sentinel_count(ops));
            lemma_push_shape(op, ops2, ands2);
        }
    } else {
        let o2 = ops.push(op);
        assert(o2.drop_last() =~= ops);
        assert(binary_count(o2) == binary_count(ops) + 1);
        assert(sentinel_count(o2) == sentinel_count(ops));
        assert(o2[0] == Operator::Sentinel);
    }
}

/// The reduction engine accepts exactly the grammar: from a state whose
/// operand count matches its operator count, the parse of the remaining
/// tokens succeeds exactly when they conform from the expected mode and
/// parenthesis depth on.
proof fn lemma_parse_step_conforms(
    ts: Seq<TokenView>,
    mode: ParseMode,
    ops: Seq<Operator>,
    ands: Seq<AstView>,
    depth: int,
)
    requires
        assign_free_tokens(ts),
        assign_free_ops(ops),
        ops.len() >= 1,
        ops[0] == Operator::Sentinel,
        depth >= 0,
        sentinel_count(ops) == depth + 1,
        ands.len() == binary_count(ops) + (if mode == ParseMode::AfterOperand {
            1int
        } else {
            0int
        }),
    ensures
        parse_step(ts, mode, ops, ands) is Ok <==> conforms_rest(ts, mode, depth),
    decreases ts.len(),
{
    lemma_binary_count_nonneg(ops);
    lemma_sentinel_count_bounds(ops);
    if ts.len() == 0 {
        if mode == ParseMode::ExpectLetIdent {
        } else {
            let a: int = if mode == ParseMode::AfterOperand {
                1
            } else {
                0
            };
            lemma_rewind_shape(ops, ands, a);
            match rewind_spec(ops, ands) {
                Ok((o2, a2)) => {
                    lemma_sentinel_count_bounds(o2);
                    lemma_binary_count_nonneg(o2.drop_last());
                    if o2.len() >= 2 {
                        lemma_two_sentinels(o2);
                    } else {
                        assert(o2 =~= seq![Operator::Sentinel]);
                        assert(binary_count(o2) == 0);
                    }
                    if depth == 0 && mode == ParseMode::AfterOperand {
                        assert(o2.len() == 1);
                        assert(a2.len() == 1);
                    } else if depth > 0 {
                        assert(sentinel_count(o2) >= 2);
                        assert(o2.len() > 1);
                    } else {
                        assert(mode == ParseMode::ExpectPrimary);
                        if o2.len() == 1 {
                            assert(a2.len() == 0);
                        }
                    }
                },
                Err(_) => {},
            }
        }
    } else {
        let t = ts.first();
        let rest = ts.drop_first();
        assert(assign_free_tokens(rest)) by {
            assert(forall|i: int|
                0 <= i < rest.len() ==> rest[i] == ts[i + 1] && !(#[trigger] rest[i] is Assign));
        }
        match mode {
            ParseMode::ExpectLetIdent => match t {
                TokenView::Ident(name) => {
                    lemma_parse_step_conforms(
                        rest,
                        ParseMode::AfterOperand,
                        ops,
                        ands.push(AstView::Ident(name)),
                        depth,
                    );
                },
                _ => {},
            },
            ParseMode::ExpectPrimary => match t {
                TokenView::Ident(name) => {
                    lemma_parse_step_conforms(
                        rest,
                        ParseMode::AfterOperand,
                        ops,
                        ands.push(AstView::Ident(name)),
                        depth,
                    );
                },
                TokenView::I32(v) => {
                    lemma_parse_step_conforms(
                        rest,
                        ParseMode::AfterOperand,
                        ops,
                        ands.push(AstView::I32(v)),
                        depth,
                    );
                },
                TokenView::F32(bits) => {
                    lemma_parse_step_conforms(
                        rest,
                        ParseMode::AfterOperand,
                        ops,
                        ands.push(AstView::F32(bits)),
                        depth,
                    );
                },
                TokenView::Let => {
                    lemma_parse_step_conforms(rest, ParseMode::ExpectLetIdent, ops, ands, depth);
                },
                TokenView::OpenParen => {
                    let o2 = ops.push(Operator::Sentinel);
                    assert(o2.drop_last() =~= ops);
                    assert(binary_count(o2) == binary_count(ops));
                    assert(sentinel_count(o2) == sentinel_count(ops) + 1);
                    lemma_parse_step_conforms(rest, ParseMode::ExpectPrimary, o2, ands, depth + 1);
                },
                TokenView::Minus => {
                    let o2 = ops.push(Operator::Negative);
                    assert(o2.drop_last() =~= ops);
                    assert(binary_count(o2) == binary_count(ops));
                    assert(sentinel_count(o2) == sentinel_count(ops));
                    lemma_parse_step_conforms(rest, ParseMode::ExpectPrimary, o2, ands, depth);
                },
                _ => {},
            },
            ParseMode::AfterOperand => match t.operator_of_token_view() {
                Some(op) => {
                    assert(!(t is Assign));
                    assert(op != Operator::Assign && op != Operator::Sentinel && op
                        != Operator::Negative);
                    lemma_push_shape(op, ops, ands);
                    let (o2, a2) = push_operator_spec(op, ops, ands)->Ok_0;
                    lemma_parse_step_conforms(rest, ParseMode::ExpectPrimary, o2, a2, depth);
                },
                None => {
                    if t is CloseParen {
                        lemma_rewind_shape(ops, ands, 1);
                        let (o2, a2) = rewind_spec(ops, ands)->Ok_0;
                        lemma_sentinel_count_bounds(o2);
                        if depth > 0 {
                            assert(sentinel_count(o2) >= 2);
                            assert(o2.len() > 1);
                            let o3 = o2.drop_last();
                            assert(binary_count(o3) == binary_count(o2));
                            assert(sentinel_count(o3) == sentinel_count(o2) - 1);
                            assert(o3[0] == Operator::Sentinel);
                            lemma_parse_step_conforms(
                                rest,
                                ParseMode::AfterOperand,
                                o3,
                                a2,
                                depth - 1,
                            );
                        } else {
                            if o2.len() >= 2 {
                                lemma_two_sentinels(o2);
                            }
                            assert(o2.len() == 1);
                        }
                    }
                },
            },
        }
    }
}

/// Parser totality over the grammar: a token sequence without assignment
/// operators parses to exactly one tree precisely when it conforms to the
/// grammar, and every sequence that strays from the grammar is answered
/// with a parse error. (Whether an `=` is accepted depends on what stands
/// to its left after reduction, which the token-level grammar alone does
/// not capture, so assignment stays outside this statement.)
pub proof fn lemma_parser_totality(ts: Seq<TokenView>)
    requires
        assign_free_tokens(ts),
    ensures
        parse_spec(ts) is Ok <==> conforms(ts),
{
    let ops = seq![Operator::Sentinel];
    assert(ops.len() == 1 && ops.last() == Operator::Sentinel && ops[0] == Operator::Sentinel);
    assert(ops.drop_last() =~= Seq::<Operator>::empty());
    assert(binary_count(Seq::<Operator>::empty()) == 0);
    assert(sentinel_count(Seq::<Operator>::empty()) == 0);
    assert(binary_count(ops) == 0);
    assert(sentinel_count(ops) == 1);
    lemma_parse_step_conforms(ts, ParseMode::ExpectPrimary, ops, Seq::<AstView>::empty(), 0);
}

/// Every assignment node of a tree carries an identifier as its left
/// child.
pub open spec fn assign_targets_are_identifiers(node: AstView) -> bool
    decreases node,
{
    match node {
        AstView::Unary { op, inner } => assign_targets_are_identifiers(*inner),
        AstView::Binary { op, lhs, rhs } => (op == Operator::Assign ==> (*lhs) is Ident)
            && assign_targets_are_identifiers(*lhs) && assign_targets_are_identifiers(*rhs),
        _ => true,
    }
}

/// Every tree on the operand stack keeps its assignment targets sound.
pub open spec fn stack_targets_sound(ands: Seq<AstView>) -> bool {
    forall|i: int|
        0 <= i < ands.len() ==> assign_targets_are_identifiers(#[trigger] ands[i])
}

proof fn lemma_reduce_targets(ops: Seq<Operator>, ands: Seq<AstView>)
    requires
        stack_targets_sound(ands),
        reduce_once(ops, ands) is Ok,
    ensures
        stack_targets_sound(reduce_once(ops, ands)->Ok_0.1),
{
    let ands2 = reduce_once(ops, ands)->Ok_0.1;
    assert forall|i: int| 0 <= i < ands2.len() implies assign_targets_are_identifiers(
        #[trigger] ands2[i],
    ) by {
        if i < ands2.len() - 1 {
            assert(ands2[i] == ands[i]);
        }
    }
}

proof fn lemma_push_targets(op: Operator, ops: Seq<Operator>, ands: Seq<AstView>)
    requires
        stack_targets_sound(ands),
        push_operator_spec(op, ops, ands) is Ok,
    ensures
        stack_targets_sound(push_operator_spec(op, ops, ands)->Ok_0.1),
    decreases ops.len(),
{
    if ops.len() == 0 {
    } else if must_reduce_before(ops.last(), op) {
        match reduce_once(ops, ands) {
            Ok((ops2, ands2)) => {
                lemma_reduce_targets(ops, ands);
                lemma_push_targets(op, ops2, ands2);
            },
            Err(_) => {},
        }
    } else {
    }
}

proof fn lemma_rewind_targets(ops: Seq<Operator>, ands: Seq<AstView>)
    requires
        stack_targets_sound(ands),
        rewind_spec(ops, ands) is Ok,
    ensures
        stack_targets_sound(rewind_spec(ops, ands)->Ok_0.1),
    decreases ops.len(),
{
    if ops.len() == 0 || ops.last() == Operator::Sentinel {
    } else {
        match reduce_once(ops, ands) {
            Ok((ops2, ands2)) => {
                lemma_reduce_targets(ops, ands);
                lemma_rewind_targets(ops2, ands2);
            },
            Err(_) => {},
        }
    }
}

proof fn lemma_parse_step_targets(
    ts: Seq<TokenView>,
    mode: ParseMode,
    ops: Seq<Operator>,
    ands: Seq<AstView>,
)
    requires
        stack_targets_sound(ands),
        parse_step(ts, mode, ops, ands) is Ok,
    ensures
        assign_targets_are_identifiers(parse_step(ts, mode, ops, ands)->Ok_0),
    decreases ts.len(),
{
    if ts.len() == 0 {
        match rewind_spec(ops, ands) {
            Ok((ops2, ands2)) => {
                lemma_rewind_targets(ops, ands);
            },
            Err(_) => {},
        }
    } else {
        let t = ts.first();
        let rest = ts.drop_first();
        if mode == ParseMode::AfterOperand {
            match t.operator_of_token_view() {
                Some(op) => match push_operator_spec(op, ops, ands) {
                    Ok((ops2, ands2)) => {
                        lemma_push_targets(op, ops, ands);
                        lemma_parse_step_targets(rest, ParseMode::ExpectPrimary, ops2, ands2);
                    },
                    Err(_) => {},
                },
                None => match t {
                    TokenView::CloseParen => match rewind_spec(ops, ands) {
                        Ok((ops2, ands2)) => {
                            lemma_rewind_targets(ops, ands);
                            if ops2.len() > 1 {
                                lemma_parse_step_targets(
                                    rest,
                                    ParseMode::AfterOperand,
                                    ops2.drop_last(),
                                    ands2,
                                );
                            }
                        },
                        Err(_) => {},
                    },
                    _ => {},
                },
            }
        } else {
            match primary_step(t, mode, ops, ands) {
                Ok((mode2, ops2, ands2)) => {
                    assert(stack_targets_sound(ands2)) by {
                        assert forall|i: int| 0 <= i < ands2.len() implies
                            assign_targets_are_identifiers(#[trigger] ands2[i]) by {
                            if i < ands.len() {
                                assert(ands2[i] == ands[i]);
                            }
                        }
                    }
                    lemma_parse_step_targets(rest, mode2, ops2, ands2);
                },
                Err(_) => {},
            }
        }
    }
}

/// The tree invariant of assignment is enforced at construction: whenever a
/// token sequence parses, every assignment node of the resulting tree has
/// an identifier as its left child.
pub proof fn lemma_parse_enforces_assign_targets(ts: Seq<TokenView>)
    ensures
        parse_spec(ts) is Ok ==> assign_targets_are_identifiers(parse_spec(ts)->Ok_0),
{
    if parse_spec(ts) is Ok {
        lemma_parse_step_targets(
            ts,
            ParseMode::ExpectPrimary,
            seq![Operator::Sentinel],
            Seq::<AstView>::empty(),
        );
    }
}

/// A fully parenthesized token span and the tree it spells out: a literal
/// or an identifier stands alone, and every operator application — unary
/// or binary — is wrapped in its own pair of parentheses. (Assignment
/// stays outside, as in `lemma_parser_totality`: whether an `=` is
/// accepted depends on more than the parenthesis structure.)
pub open spec fn fully_parenthesized(s: Seq<TokenView>, t: AstView) -> bool
    decreases s.len(),
{
    if s.len() == 1 {
        match s[0] {
            TokenView::Ident(name) => t == AstView::Ident(name),
            TokenView::I32(v) => t == AstView::I32(v),
            TokenView::F32(bits) => t == AstView::F32(bits),
            _ => false,
        }
    } else if s.len() >= 3 && s.first() == TokenView::OpenParen && s.last()
        == TokenView::CloseParen {
        match t {
            AstView::Unary { op, inner } => op == Operator::Negative && s[1] == TokenView::Minus
                && fully_parenthesized(s.subrange(2, s.len() - 1), *inner),
            AstView::Binary { op, lhs, rhs } => op != Operator::Assign && exists|k: int|
                2 <= k < s.len() - 1 && (#[trigger] s[k]).operator_of_token_view() == Some(op)
                    && fully_parenthesized(s.subrange(1, k), *lhs) && fully_parenthesized(
                    s.subrange(k + 1, s.len() - 1),
                    *rhs,
                ),
            _ => false,
        }
    } else {
        false
    }
}

/// Consuming one fully parenthesized span from the front: the reduction
/// engine crosses it in one piece, pushing exactly its tree and touching
/// nothing beneath it.
#[verifier::rlimit(80)]
proof fn lemma_fp_consume(
    s: Seq<TokenView>,
    t: AstView,
    rest: Seq<TokenView>,
    ops: Seq<Operator>,
    ands: Seq<AstView>,
)
    requires
        fully_parenthesized(s, t),
        ops.len() >= 1,
    ensures
        parse_step(s + rest, ParseMode::ExpectPrimary, ops, ands) == parse_step(
            rest,
            ParseMode::AfterOperand,
            ops,
            ands.push(t),
        ),
    decreases s.len(),
{
    reveal_with_fuel(rewind_spec, 3);
    reveal_with_fuel(parse_step, 3);
    let full = s + rest;
    assert(full.first() == s[0]);
    if s.len() == 1 {
        assert(full.drop_first() =~= rest);
    } else {
        assert(full.drop_first() =~= s.drop_first() + rest);
        let ops1 = ops.push(Operator::Sentinel);
        let close_rest = seq![TokenView::CloseParen] + rest;
        match t {
            AstView::Unary { op, inner } => {
                let inner_span = s.subrange(2, s.len() - 1);
                assert((s.drop_first() + rest).first() == s[1]);
                assert((s.drop_first() + rest).drop_first() =~= inner_span + close_rest);
                let ops2 = ops1.push(Operator::Negative);
                lemma_fp_consume(inner_span, *inner, close_rest, ops2, ands);
                assert(close_rest.first() == TokenView::CloseParen);
                assert(close_rest.drop_first() =~= rest);
                let after = ands.push(*inner);
                assert(reduce_once(ops2, after) == Ok::<_, ParserErrorView>(
                    (ops1, ands.push(AstView::Unary { op: Operator::Negative, inner })),
                )) by {
                    assert(after.drop_last() =~= ands);
                    assert(after.last() == *inner);
                    assert(ops2.drop_last() =~= ops1);
                    assert(Box::new(*inner) == inner);
                }
                assert(ops1.drop_last() =~= ops);
                assert(ops1.len() > 1);
            },
            AstView::Binary { op, lhs, rhs } => {
                let k = choose|k: int|
                    2 <= k < s.len() - 1 && (#[trigger] s[k]).operator_of_token_view() == Some(op)
                        && fully_parenthesized(s.subrange(1, k), *lhs) && fully_parenthesized(
                        s.subrange(k + 1, s.len() - 1),
                        *rhs,
                    );
                let lspan = s.subrange(1, k);
                let rspan = s.subrange(k + 1, s.len() - 1);
                let rest1 = seq![s[k]] + (rspan + close_rest);
                assert(s.drop_first() + rest =~= lspan + rest1);
                lemma_fp_consume(lspan, *lhs, rest1, ops1, ands);
                assert(rest1.first() == s[k]);
                assert(rest1.drop_first() =~= rspan + close_rest);
                let ands1 = ands.push(*lhs);
                assert(push_operator_spec(op, ops1, ands1) == Ok::<_, ParserErrorView>(
                    (ops1.push(op), ands1),
                ));
                lemma_fp_consume(rspan, *rhs, close_rest, ops1.push(op), ands1);
                assert(close_rest.first() == TokenView::CloseParen);
                assert(close_rest.drop_first() =~= rest);
                let ands2 = ands1.push(*rhs);
                assert(reduce_once(ops1.push(op), ands2) == Ok::<_, ParserErrorView>(
                    (ops1, ands.push(AstView::Binary { op, lhs, rhs })),
                )) by {
                    assert(ops1.push(op).drop_last() =~= ops1);
                    assert(ands2.drop_last() =~= ands1);
                    assert(ands2.drop_last().drop_last() =~= ands);
                    assert(ands2.last() == *rhs);
                    assert(ands2.drop_last().last() == *lhs);
                    assert(Box::new(*lhs) == lhs);
                    assert(Box::new(*rhs) == rhs);
                }
                assert(ops1.drop_last() =~= ops);
                assert(ops1.len() > 1);
            },
            _ => {
                assert(false);
            },
        }
    }
}

/// Parentheses always win: a fully parenthesized token sequence parses to
/// exactly the tree whose nesting mirrors the parenthesis nesting, whatever
/// the precedence table says.
pub proof fn lemma_parentheses_always_win(ts: Seq<TokenView>, t: AstView)
    requires
        fully_parenthesized(ts, t),
    ensures
        parse_spec(ts) == Ok::<AstView, ParserErrorView>(t),
{
    let ops = seq![Operator::Sentinel];
    lemma_fp_consume(ts, t, Seq::<TokenView>::empty(), ops, Seq::<AstView>::empty());
    assert(ts + Seq::<TokenView>::empty() =~= ts);
    assert(rewind_spec(ops, seq![t]) == Ok::<_, ParserErrorView>((ops, seq![t])));
    assert(Seq::<AstView>::empty().push(t) =~= seq![t]);
    assert(seq![t].last() == t);
}

} // verus!
