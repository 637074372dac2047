//! Lowering expressions to the portable IR: a recursive-descent parser over tokens that
//! resolves calls, variables and enum variants as it goes.
use vstd::prelude::*;
use vstd::string::*;

use crate::eval::{body_start_from, lex, resolution, token_views, tokenize, SpecToken, Token};
use crate::intrinsics::{intrinsic_functions, is_intrinsic_list};
use crate::ir::{ir_fields_view, ir_list_view, ir_view, IrBinaryOp, IrExpr, IrUnaryOp, SIr};
use crate::model::{symbol_text, Function, Param, TypeDecl};
use crate::text::join_spec;

verus! {

/// What lowering resolves names against: the program's functions, the intrinsics and the
/// type declarations.
pub struct LowerCtx {
    pub fs: Seq<Function>,
    pub ins: Seq<Function>,
    pub types: Seq<TypeDecl>,
}

pub type Parsed = Option<(SIr, int)>;

pub open spec fn at(ts: Seq<SpecToken>, i: int, t: Token) -> bool {
    0 <= i < ts.len() && ts[i] == SpecToken::Plain(t)
}

pub open spec fn ident_at(ts: Seq<SpecToken>, i: int) -> Option<Seq<char>> {
    if 0 <= i < ts.len() {
        match ts[i] {
            SpecToken::Ident(n) => Some(n),
            _ => None,
        }
    } else {
        None
    }
}

pub open spec fn bx(e: SIr) -> Box<SIr> {
    Box::new(e)
}

/// The single enum type declaring a variant, if exactly one does.
pub open spec fn enums_with(types: Seq<TypeDecl>, v: Seq<char>) -> Seq<TypeDecl>
    decreases types.len(),
{
    if types.len() == 0 {
        seq![]
    } else {
        let t = types.last();
        let rest = enums_with(types.drop_last(), v);
        if t.variants@.len() > 0 && t.variants@.map_values(|s: String| s@).contains(v) {
            rest.push(t)
        } else {
            rest
        }
    }
}

pub open spec fn field_chain(base: SIr, parts: Seq<Seq<char>>) -> SIr
    decreases parts.len(),
{
    if parts.len() == 0 {
        base
    } else {
        SIr::FieldAccess(bx(field_chain(base, parts.drop_last())), parts.last())
    }
}

/// An expression: a sequence.
pub open spec fn p_expr(c: LowerCtx, ts: Seq<SpecToken>, i: int, vs: Seq<Seq<char>>, asg: Seq<Seq<char>>) -> Parsed
    decreases ts.len() - i, 40int,
{
    p_seq(c, ts, i, vs, asg)
}

/// `let x = e; body`, `set x = e`, `while c do (b)`, or a conditional, each possibly
/// followed by `; rest`.
pub open spec fn p_seq(c: LowerCtx, ts: Seq<SpecToken>, i: int, vs: Seq<Seq<char>>, asg: Seq<Seq<char>>) -> Parsed
    decreases ts.len() - i, 39int,
{
    if i < 0 || i > ts.len() {
        None
    } else if at(ts, i, Token::Let) {
        match ident_at(ts, i + 1) {
            None => None,
            Some(name) => if !at(ts, i + 2, Token::Assign) {
                None
            } else {
                match p_if(c, ts, i + 3, vs, asg) {
                    None => None,
                    Some((v, j)) => if j <= i || !at(ts, j, Token::Semicolon) {
                        None
                    } else {
                        match p_expr(c, ts, j + 1, vs.push(name), asg.push(name)) {
                            None => None,
                            Some((b, k)) => Some((SIr::Let(name, bx(v), bx(b)), k)),
                        }
                    },
                }
            },
        }
    } else if at(ts, i, Token::Update) {
        match ident_at(ts, i + 1) {
            None => None,
            Some(name) => if !at(ts, i + 2, Token::Assign) || !vs.contains(name) || !asg.contains(name) {
                None
            } else {
                match p_if(c, ts, i + 3, vs, asg) {
                    None => None,
                    Some((v, j)) => if j <= i || j > ts.len() {
                        None
                    } else {
                        p_after(c, ts, SIr::Assign(name, bx(v)), j, vs, asg)
                    },
                }
            },
        }
    } else if at(ts, i, Token::While) {
        match p_expr(c, ts, i + 1, vs, asg) {
            None => None,
            Some((cnd, j)) => if j <= i || !at(ts, j, Token::Do) || !at(ts, j + 1, Token::LParen) {
                None
            } else {
                match p_expr(c, ts, j + 2, vs, asg) {
                    None => None,
                    Some((b, k)) => if k <= i || k >= ts.len() || !at(ts, k, Token::RParen) {
                        None
                    } else {
                        p_after(c, ts, SIr::While(bx(cnd), bx(b)), k + 1, vs, asg)
                    },
                }
            },
        }
    } else {
        match p_if(c, ts, i, vs, asg) {
            None => None,
            Some((f, j)) => if j <= i || j > ts.len() {
                None
            } else {
                p_after(c, ts, f, j, vs, asg)
            },
        }
    }
}

/// What may follow a first expression: `; rest`.
pub open spec fn p_after(c: LowerCtx, ts: Seq<SpecToken>, first: SIr, j: int, vs: Seq<Seq<char>>, asg: Seq<Seq<char>>) -> Parsed
    decreases ts.len() - j, 38int,
{
    if j < 0 || j > ts.len() {
        None
    } else if at(ts, j, Token::Semicolon) {
        match p_expr(c, ts, j + 1, vs, asg) {
            None => None,
            Some((second, k)) => Some((SIr::Sequence(bx(first), bx(second)), k)),
        }
    } else {
        Some((first, j))
    }
}

/// `if c then a else b`, or a disjunction.
pub open spec fn p_if(c: LowerCtx, ts: Seq<SpecToken>, i: int, vs: Seq<Seq<char>>, asg: Seq<Seq<char>>) -> Parsed
    decreases ts.len() - i, 37int,
{
    if i < 0 || i > ts.len() {
        None
    } else if at(ts, i, Token::If) {
        match p_expr(c, ts, i + 1, vs, asg) {
            None => None,
            Some((cnd, j)) => if j <= i || !at(ts, j, Token::Then) {
                None
            } else {
                match p_expr(c, ts, j + 1, vs, asg) {
                    None => None,
                    Some((t, k)) => if k <= i || !at(ts, k, Token::Else) {
                        None
                    } else {
                        match p_expr(c, ts, k + 1, vs, asg) {
                            None => None,
                            Some((e, l)) => Some((SIr::If(bx(cnd), bx(t), bx(e)), l)),
                        }
                    },
                }
            },
        }
    } else {
        p_binary(c, ts, i, vs, asg, 4)
    }
}

/// The binary operator of precedence `level` at token `t`: `or` (4), `and` (3),
/// comparisons (2), `+ -` (1), `* // %` (0).
pub open spec fn binary_op(level: int, st: SpecToken) -> Option<IrBinaryOp> {
    match st {
        SpecToken::Plain(t) => plain_op(level, t),
        _ => None,
    }
}

pub open spec fn plain_op(level: int, t: Token) -> Option<IrBinaryOp> {
    if level == 4 {
        if t == Token::Or { Some(IrBinaryOp::Or) } else { None }
    } else if level == 3 {
        if t == Token::And { Some(IrBinaryOp::And) } else { None }
    } else if level == 2 {
        if t == Token::EqEq {
            Some(IrBinaryOp::Eq)
        } else if t == Token::NotEq {
            Some(IrBinaryOp::NotEq)
        } else if t == Token::LtEq {
            Some(IrBinaryOp::LtEq)
        } else if t == Token::GtEq {
            Some(IrBinaryOp::GtEq)
        } else if t == Token::Lt {
            Some(IrBinaryOp::Lt)
        } else if t == Token::Gt {
            Some(IrBinaryOp::Gt)
        } else {
            None
        }
    } else if level == 1 {
        if t == Token::Plus {
            Some(IrBinaryOp::Add)
        } else if t == Token::Minus {
            Some(IrBinaryOp::Sub)
        } else {
            None
        }
    } else {
        if t == Token::Star {
            Some(IrBinaryOp::Mul)
        } else if t == Token::SlashSlash {
            Some(IrBinaryOp::DivTrunc)
        } else if t == Token::Percent {
            Some(IrBinaryOp::Rem)
        } else {
            None
        }
    }
}

/// The comparison that an IR operator performs, if it is a comparison.
pub open spec fn ir_comparison(op: IrBinaryOp) -> Option<crate::evaluator::CompareOp> {
    match op {
        IrBinaryOp::Eq => Some(crate::evaluator::CompareOp::Eq),
        IrBinaryOp::NotEq => Some(crate::evaluator::CompareOp::Ne),
        IrBinaryOp::Lt => Some(crate::evaluator::CompareOp::Lt),
        IrBinaryOp::LtEq => Some(crate::evaluator::CompareOp::Le),
        IrBinaryOp::Gt => Some(crate::evaluator::CompareOp::Gt),
        IrBinaryOp::GtEq => Some(crate::evaluator::CompareOp::Ge),
        _ => None,
    }
}

/// Each comparison token lowers to the IR operator that performs the comparison the
/// evaluator reads it as (`>=` to `gt_eq`, `<` to `lt`, ...), and a token the evaluator
/// does not read as a comparison lowers to no comparison: a lowered comparison evaluates
/// as the source expression does.
pub proof fn law_comparison_lowering(t: Token)
    ensures
        match (
            plain_op(2, t),
            crate::evaluator::compare_op(
                seq![SpecToken::Plain(t)],
                crate::evaluator::St { index: 0, vars: seq![], assignable: seq![] },
            ),
        ) {
            (Some(op), Some(c)) => ir_comparison(op) == Some(c),
            (None, None) => true,
            _ => false,
        },
        t == Token::GtEq ==> plain_op(2, t) == Some(IrBinaryOp::GtEq),
{
}

/// Each operator token lowers to the IR operator named for what it computes: `+` to `add`,
/// `-` to `sub`, `*` to `mul`, `//` to `div_trunc`, `%` to `rem`, `and` and `or` to
/// themselves, and the comparisons to `eq`, `not_eq`, `lt`, `lt_eq`, `gt` and `gt_eq`.
pub proof fn law_operator_names(l: int, t: Token)
    requires
        plain_op(l, t) is Some,
    ensures
        crate::ir::binary_name(plain_op(l, t)->0) == (if t == Token::Plus {
            "add"@
        } else if t == Token::Minus {
            "sub"@
        } else if t == Token::Star {
            "mul"@
        } else if t == Token::SlashSlash {
            "div_trunc"@
        } else if t == Token::Percent {
            "rem"@
        } else if t == Token::And {
            "and"@
        } else if t == Token::Or {
            "or"@
        } else if t == Token::EqEq {
            "eq"@
        } else if t == Token::NotEq {
            "not_eq"@
        } else if t == Token::Lt {
            "lt"@
        } else if t == Token::LtEq {
            "lt_eq"@
        } else if t == Token::Gt {
            "gt"@
        } else {
            "gt_eq"@
        }),
{
}

/// Distinct tokens lower to distinct operators: no two operators of the source language
/// share one IR operator.
pub proof fn law_operators_distinct(l1: int, t1: Token, l2: int, t2: Token)
    requires
        plain_op(l1, t1) is Some,
        plain_op(l1, t1) == plain_op(l2, t2),
    ensures
        t1 == t2,
{
}


pub open spec fn op_at(ts: Seq<SpecToken>, j: int, level: int) -> Option<IrBinaryOp> {
    if 0 <= j < ts.len() {
        binary_op(level, ts[j])
    } else {
        None
    }
}

/// Left-associative operators of precedence `level` over operands of the next level.
pub open spec fn p_binary(c: LowerCtx, ts: Seq<SpecToken>, i: int, vs: Seq<Seq<char>>, asg: Seq<Seq<char>>, level: int) -> Parsed
    decreases ts.len() - i, 10 + 2 * level,
{
    if i < 0 || i > ts.len() || level < 0 || level > 4 {
        None
    } else {
        match p_operand(c, ts, i, vs, asg, level) {
            None => None,
            Some((l, j)) => if j <= i || j > ts.len() {
                None
            } else {
                p_tail(c, ts, l, j, vs, asg, level)
            },
        }
    }
}

/// An operand of the operators of precedence `level`.
pub open spec fn p_operand(c: LowerCtx, ts: Seq<SpecToken>, i: int, vs: Seq<Seq<char>>, asg: Seq<Seq<char>>, level: int) -> Parsed
    decreases ts.len() - i, 9 + 2 * level,
{
    if level < 0 || level > 4 {
        None
    } else if level == 0 {
        p_unary(c, ts, i, vs, asg)
    } else {
        p_binary(c, ts, i, vs, asg, level - 1)
    }
}

pub open spec fn p_tail(c: LowerCtx, ts: Seq<SpecToken>, left: SIr, j: int, vs: Seq<Seq<char>>, asg: Seq<Seq<char>>, level: int) -> Parsed
    decreases ts.len() - j, 11 + 2 * level,
{
    if j < 0 || j > ts.len() || level < 0 || level > 4 {
        None
    } else {
        match op_at(ts, j, level) {
            None => Some((left, j)),
            Some(op) => match p_operand(c, ts, j + 1, vs, asg, level) {
                None => None,
                Some((r, k)) => if k <= j || k > ts.len() {
                    None
                } else {
                    p_tail(c, ts, SIr::Binary(op, bx(left), bx(r)), k, vs, asg, level)
                },
            },
        }
    }
}

/// `-e`, `not e`, or a postfix expression.
pub open spec fn p_unary(c: LowerCtx, ts: Seq<SpecToken>, i: int, vs: Seq<Seq<char>>, asg: Seq<Seq<char>>) -> Parsed
    decreases ts.len() - i, 8int,
{
    if i < 0 || i > ts.len() {
        None
    } else if at(ts, i, Token::Minus) {
        match p_unary(c, ts, i + 1, vs, asg) {
            None => None,
            Some((e, j)) => Some((SIr::Unary(IrUnaryOp::Neg, bx(e)), j)),
        }
    } else if at(ts, i, Token::Not) {
        match p_unary(c, ts, i + 1, vs, asg) {
            None => None,
            Some((e, j)) => Some((SIr::Unary(IrUnaryOp::Not, bx(e)), j)),
        }
    } else {
        match p_primary(c, ts, i, vs, asg) {
            None => None,
            Some((e, j)) => if j <= i || j > ts.len() {
                None
            } else {
                p_postfix(c, ts, e, j, vs, asg)
            },
        }
    }
}

/// Field accesses `.f` and record updates `with { ... }` after an expression.
pub open spec fn p_postfix(c: LowerCtx, ts: Seq<SpecToken>, e: SIr, j: int, vs: Seq<Seq<char>>, asg: Seq<Seq<char>>) -> Parsed
    decreases ts.len() - j, 7int,
{
    if j < 0 || j > ts.len() {
        None
    } else if at(ts, j, Token::Dot) {
        match ident_at(ts, j + 1) {
            None => None,
            Some(f) => p_postfix(c, ts, SIr::FieldAccess(bx(e), f), j + 2, vs, asg),
        }
    } else if at(ts, j, Token::With) {
        if !at(ts, j + 1, Token::LBrace) {
            None
        } else if at(ts, j + 2, Token::RBrace) {
            p_postfix(c, ts, SIr::RecordUpdate(bx(e), seq![]), j + 3, vs, asg)
        } else {
            match p_fields(c, ts, j + 2, vs, asg, seq![]) {
                None => None,
                Some((fields, k)) => if k <= j || k > ts.len() {
                    None
                } else {
                    p_postfix(c, ts, SIr::RecordUpdate(bx(e), fields), k, vs, asg)
                },
            }
        }
    } else {
        Some((e, j))
    }
}

/// `name: value` pairs separated by commas and closed by `}`.
pub open spec fn p_fields(c: LowerCtx, ts: Seq<SpecToken>, j: int, vs: Seq<Seq<char>>, asg: Seq<Seq<char>>, acc: Seq<(Seq<char>, SIr)>) -> Option<(Seq<(Seq<char>, SIr)>, int)>
    decreases ts.len() - j, 6int,
{
    if j < 0 || j > ts.len() {
        None
    } else {
        match ident_at(ts, j) {
            None => None,
            Some(name) => if !at(ts, j + 1, Token::Colon) {
                None
            } else {
                match p_expr(c, ts, j + 2, vs, asg) {
                    None => None,
                    Some((v, k)) => {
                        let acc2 = acc.push((name, v));
                        if k <= j {
                            None
                        } else if at(ts, k, Token::RBrace) {
                            Some((acc2, k + 1))
                        } else if at(ts, k, Token::Comma) {
                            p_fields(c, ts, k + 1, vs, asg, acc2)
                        } else {
                            None
                        }
                    },
                }
            },
        }
    }
}

/// Call arguments separated by commas and closed by `)`.
pub open spec fn p_args(c: LowerCtx, ts: Seq<SpecToken>, j: int, vs: Seq<Seq<char>>, asg: Seq<Seq<char>>, acc: Seq<SIr>) -> Option<(Seq<SIr>, int)>
    decreases ts.len() - j, 41int,
{
    if j < 0 || j > ts.len() {
        None
    } else {
        match p_expr(c, ts, j, vs, asg) {
            None => None,
            Some((a, k)) => {
                let acc2 = acc.push(a);
                if k <= j {
                    None
                } else if at(ts, k, Token::RParen) {
                    Some((acc2, k + 1))
                } else if at(ts, k, Token::Comma) {
                    p_args(c, ts, k + 1, vs, asg, acc2)
                } else {
                    None
                }
            },
        }
    }
}

/// Identifier parts joined by dots: `a.b.c`.
pub open spec fn p_parts(ts: Seq<SpecToken>, j: int, acc: Seq<Seq<char>>) -> Option<(Seq<Seq<char>>, int)>
    decreases ts.len() - j,
{
    if j < 0 || j > ts.len() {
        None
    } else if at(ts, j, Token::Dot) {
        match ident_at(ts, j + 1) {
            None => None,
            Some(p) => p_parts(ts, j + 2, acc.push(p)),
        }
    } else {
        Some((acc, j))
    }
}

/// Match branches `Variant -> expression`, separated by commas (one may trail) and
/// closed by `}`.
pub open spec fn p_branches(c: LowerCtx, ts: Seq<SpecToken>, j: int, vs: Seq<Seq<char>>, asg: Seq<Seq<char>>, acc: Seq<(Seq<char>, SIr)>) -> Option<(Seq<(Seq<char>, SIr)>, int)>
    decreases ts.len() - j, 6int,
{
    if j < 0 || j > ts.len() {
        None
    } else {
        match ident_at(ts, j) {
            None => None,
            Some(v) => if !at(ts, j + 1, Token::Arrow) {
                None
            } else {
                match p_expr(c, ts, j + 2, vs, asg) {
                    None => None,
                    Some((b, k)) => {
                        let acc2 = acc.push((v, b));
                        if k <= j {
                            None
                        } else if at(ts, k, Token::RBrace) {
                            Some((acc2, k + 1))
                        } else if !at(ts, k, Token::Comma) {
                            None
                        } else if at(ts, k + 1, Token::RBrace) {
                            Some((acc2, k + 2))
                        } else {
                            p_branches(c, ts, k + 1, vs, asg, acc2)
                        }
                    },
                }
            },
        }
    }
}

/// Where a match body starts, scanning token views from `i`: the first `{` outside
/// parentheses and brackets.
pub open spec fn body_start_views(ts: Seq<SpecToken>, i: int, paren: int, bracket: int) -> Result<int, Seq<char>>
    decreases ts.len() - i,
{
    if i < 0 || i >= ts.len() {
        Err("Expected `{` after match expression."@)
    } else if ts[i] == SpecToken::Plain(Token::LParen) {
        body_start_views(ts, i + 1, paren + 1, bracket)
    } else if ts[i] == SpecToken::Plain(Token::LBracket) {
        body_start_views(ts, i + 1, paren, bracket + 1)
    } else if ts[i] == SpecToken::Plain(Token::RParen) {
        if paren == 0 {
            Err("Unexpected `)` before match body."@)
        } else {
            body_start_views(ts, i + 1, paren - 1, bracket)
        }
    } else if ts[i] == SpecToken::Plain(Token::RBracket) {
        if bracket == 0 {
            Err("Unexpected `]` before match body."@)
        } else {
            body_start_views(ts, i + 1, paren, bracket - 1)
        }
    } else if ts[i] == SpecToken::Plain(Token::LBrace) && paren == 0 && bracket == 0 {
        Ok(i)
    } else {
        body_start_views(ts, i + 1, paren, bracket)
    }
}

pub proof fn lemma_body_start_views(ts: Seq<Token>, i: int, paren: int, bracket: int)
    requires
        0 <= i,
    ensures
        body_start_from(ts, i, paren, bracket) == body_start_views(token_views(ts), i, paren, bracket),
        match body_start_from(ts, i, paren, bracket) {
            Ok(k) => i <= k < ts.len(),
            Err(_) => true,
        },
    decreases ts.len() - i,
{
    if i < ts.len() {
        let tv = token_views(ts);
        assert(tv[i] == ts[i]@);
        match ts[i] {
            Token::LParen => lemma_body_start_views(ts, i + 1, paren + 1, bracket),
            Token::LBracket => lemma_body_start_views(ts, i + 1, paren, bracket + 1),
            Token::RParen => if paren != 0 {
                lemma_body_start_views(ts, i + 1, paren - 1, bracket)
            },
            Token::RBracket => if bracket != 0 {
                lemma_body_start_views(ts, i + 1, paren, bracket - 1)
            },
            Token::LBrace => if !(paren == 0 && bracket == 0) {
                lemma_body_start_views(ts, i + 1, paren, bracket)
            },
            _ => lemma_body_start_views(ts, i + 1, paren, bracket),
        }
    }
}

/// The matched expression of a `match` whose keyword is at `i - 1`: the tokens up to the
/// body's `{`, lowered on their own; with the position of that `{`.
pub open spec fn p_subject(c: LowerCtx, ts: Seq<SpecToken>, i: int, vs: Seq<Seq<char>>, asg: Seq<Seq<char>>) -> Parsed
    decreases ts.len() - i, 4int,
{
    if i < 0 || i > ts.len() {
        None
    } else {
        match body_start_views(ts, i, 0, 0) {
            Err(_) => None,
            Ok(bs) => if bs < i || bs >= ts.len() {
                None
            } else {
                let sub = ts.subrange(i, bs);
                match p_expr(c, sub, 0, vs, asg) {
                    None => None,
                    Some((e, k)) => if k != sub.len() {
                        None
                    } else {
                        Some((e, bs))
                    },
                }
            },
        }
    }
}

/// The body of a `match` whose `{` is at `bs`, with the matched expression `e`.
pub open spec fn p_match_body(c: LowerCtx, ts: Seq<SpecToken>, e: SIr, bs: int, vs: Seq<Seq<char>>, asg: Seq<Seq<char>>) -> Parsed
    decreases ts.len() - bs, 5int,
{
    if bs < 0 || bs >= ts.len() || !at(ts, bs, Token::LBrace) || at(ts, bs + 1, Token::RBrace) {
        None
    } else {
        match p_branches(c, ts, bs + 1, vs, asg, seq![]) {
            None => None,
            Some((branches, l)) => Some((SIr::Match(bx(e), branches), l)),
        }
    }
}

/// `match e { ... }` after the `match` keyword at `i - 1`.
pub open spec fn p_match(c: LowerCtx, ts: Seq<SpecToken>, i: int, vs: Seq<Seq<char>>, asg: Seq<Seq<char>>) -> Parsed
    decreases ts.len() - i, 6int,
{
    if i < 1 || i > ts.len() {
        None
    } else {
        match p_subject(c, ts, i, vs, asg) {
            None => None,
            Some((e, bs)) => if bs < i || bs > ts.len() {
                None
            } else {
                p_match_body(c, ts, e, bs, vs, asg)
            },
        }
    }
}

/// A call after its `(` at `j - 1`, of the function that `name` resolves to.
pub open spec fn p_call(c: LowerCtx, ts: Seq<SpecToken>, name: Seq<char>, j: int, vs: Seq<Seq<char>>, asg: Seq<Seq<char>>) -> Parsed
    decreases ts.len() - j, 42int,
{
    if j < 0 || j > ts.len() {
        None
    } else {
        match resolution(c.fs, c.ins, name) {
            None => None,
            Some(callee) => if at(ts, j, Token::RParen) {
                Some((SIr::Call(name, symbol_text(callee), seq![]), j + 1))
            } else {
                match p_args(c, ts, j, vs, asg, seq![]) {
                    None => None,
                    Some((args, k)) => Some((SIr::Call(name, symbol_text(callee), args), k)),
                }
            },
        }
    }
}

/// A record construction after its `{` at `j - 1`; the type name must be unqualified.
pub open spec fn p_record(c: LowerCtx, ts: Seq<SpecToken>, name: Seq<char>, qualified: bool, j: int, vs: Seq<Seq<char>>, asg: Seq<Seq<char>>) -> Parsed
    decreases ts.len() - j, 7int,
{
    if j < 0 || j > ts.len() || qualified {
        None
    } else if at(ts, j, Token::RBrace) {
        Some((SIr::RecordConstruct(name, seq![]), j + 1))
    } else {
        match p_fields(c, ts, j, vs, asg, seq![]) {
            None => None,
            Some((fields, k)) => Some((SIr::RecordConstruct(name, fields), k)),
        }
    }
}

/// What follows the dotted name `parts`, which ends before `j`: a call, a record
/// construction, a variable with field accesses, or an enum variant.
pub open spec fn p_name_tail(c: LowerCtx, ts: Seq<SpecToken>, parts: Seq<Seq<char>>, j: int, vs: Seq<Seq<char>>, asg: Seq<Seq<char>>) -> Parsed
    decreases ts.len() - j, 2int,
{
    let name = join_spec(parts, "."@);
    if j < 0 || j > ts.len() || parts.len() == 0 {
        None
    } else if at(ts, j, Token::LParen) {
        p_call(c, ts, name, j + 1, vs, asg)
    } else if at(ts, j, Token::LBrace) {
        p_record(c, ts, name, parts.len() != 1, j + 1, vs, asg)
    } else if vs.contains(parts[0]) {
        Some((field_chain(SIr::Var(parts[0]), parts.drop_first()), j))
    } else if parts.len() == 1 {
        let m = enums_with(c.types, parts[0]);
        if m.len() == 1 {
            Some((SIr::EnumVariant(m[0].name@, parts[0]), j))
        } else {
            None
        }
    } else {
        None
    }
}

/// A primary expression that starts with a name at `i`.
pub open spec fn p_named(c: LowerCtx, ts: Seq<SpecToken>, i: int, vs: Seq<Seq<char>>, asg: Seq<Seq<char>>) -> Parsed
    decreases ts.len() - i, 3int,
{
    if i < 0 || i >= ts.len() || !(ts[i] is Ident) {
        None
    } else {
        match p_parts(ts, i + 1, seq![ts[i]->Ident_0]) {
            None => None,
            Some((parts, j)) => if j <= i || j > ts.len() {
                None
            } else {
                p_name_tail(c, ts, parts, j, vs, asg)
            },
        }
    }
}

/// A literal, a match, a parenthesized expression, or a name: a call, a record
/// construction, a variable with field accesses, or an enum variant.
pub open spec fn p_primary(c: LowerCtx, ts: Seq<SpecToken>, i: int, vs: Seq<Seq<char>>, asg: Seq<Seq<char>>) -> Parsed
    decreases ts.len() - i, 4int,
{
    if i < 0 || i >= ts.len() {
        None
    } else {
        match ts[i] {
            SpecToken::Int(v) => Some((SIr::Int(v), i + 1)),
            SpecToken::Text(t) => Some((SIr::Text(t), i + 1)),
            SpecToken::Plain(Token::Unit) => Some((SIr::Unit, i + 1)),
            SpecToken::Plain(Token::True) => Some((SIr::Bool(true), i + 1)),
            SpecToken::Plain(Token::False) => Some((SIr::Bool(false), i + 1)),
            SpecToken::Plain(Token::Match) => p_match(c, ts, i + 1, vs, asg),
            SpecToken::Plain(Token::LParen) => match p_expr(c, ts, i + 1, vs, asg) {
                None => None,
                Some((e, j)) => if at(ts, j, Token::RParen) {
                    Some((e, j + 1))
                } else {
                    None
                },
            },
            SpecToken::Ident(_) => p_named(c, ts, i, vs, asg),
            _ => None,
        }
    }
}

/// A whole expression: it parses and nothing follows it.
pub open spec fn lowered(c: LowerCtx, ts: Seq<SpecToken>, vs: Seq<Seq<char>>) -> Option<SIr> {
    match p_expr(c, ts, 0, vs, seq![]) {
        Some((e, k)) => if k == ts.len() {
            Some(e)
        } else {
            None
        },
        None => None,
    }
}


// ---------------------------------------------------------------------------
// The parser as the program runs it
// ---------------------------------------------------------------------------
pub struct Env<'a> {
    pub functions: &'a [Function],
    pub intrinsics: &'a [Function],
    pub types: &'a [TypeDecl],
}

pub open spec fn env_ctx(e: Env) -> LowerCtx {
    LowerCtx { fs: e.functions@, ins: e.intrinsics@, types: e.types@ }
}

pub struct Parser {
    pub tokens: Vec<Token>,
    pub index: usize,
    pub variables: Vec<String>,
    pub assignable: Vec<String>,
}

pub open spec fn names(v: Seq<String>) -> Seq<Seq<char>> {
    v.map_values(|s: String| s@)
}

pub open spec fn tv(p: Parser) -> Seq<SpecToken> {
    token_views(p.tokens@)
}

/// The parser's state is kept across a parse: same tokens and scopes.
pub open spec fn kept(a: Parser, b: Parser) -> bool {
    &&& b.tokens == a.tokens
    &&& names(b.variables@) == names(a.variables@)
    &&& names(b.assignable@) == names(a.assignable@)
    &&& b.index <= b.tokens@.len()
}

/// A parse result matches the grammar's: the same expression, ending at the same token,
/// past the start.
pub open spec fn parsed_as(res: Result<IrExpr, String>, spec: Parsed, a: Parser, b: Parser) -> bool {
    match (res, spec) {
        (Ok(e), Some((s, j))) => ir_view(e) == s && b.index == j && j > a.index,
        (Err(_), None) => true,
        _ => false,
    }
}

fn is_at(p: &Parser, t: Token) -> (res: bool)
    requires
        p.index <= p.tokens@.len(),
        !(t is Int || t is Text || t is Ident),
    ensures
        res == at(tv(*p), p.index as int, t),
{
    if p.index < p.tokens.len() {
        let ghost v = tv(*p);
        assert(v[p.index as int] == p.tokens@[p.index as int]@);
        same_token(&p.tokens[p.index], &t)
    } else {
        false
    }
}

/// Two tokens are the same kind and payload.
fn same_token(a: &Token, b: &Token) -> (res: bool)
    requires
        !(b is Int || b is Text || b is Ident),
    ensures
        res == (a@ == SpecToken::Plain(*b)),
{
    match (a, b) {
        (Token::Int(_), _) => false,
        (Token::Text(_), _) => false,
        (Token::Ident(_), _) => false,
        (Token::Unit, Token::Unit) => true,
        (Token::True, Token::True) => true,
        (Token::False, Token::False) => true,
        (Token::If, Token::If) => true,
        (Token::Then, Token::Then) => true,
        (Token::Else, Token::Else) => true,
        (Token::Match, Token::Match) => true,
        (Token::Let, Token::Let) => true,
        (Token::Update, Token::Update) => true,
        (Token::While, Token::While) => true,
        (Token::Do, Token::Do) => true,
        (Token::With, Token::With) => true,
        (Token::And, Token::And) => true,
        (Token::Or, Token::Or) => true,
        (Token::Not, Token::Not) => true,
        (Token::Plus, Token::Plus) => true,
        (Token::Minus, Token::Minus) => true,
        (Token::Star, Token::Star) => true,
        (Token::SlashSlash, Token::SlashSlash) => true,
        (Token::Percent, Token::Percent) => true,
        (Token::EqEq, Token::EqEq) => true,
        (Token::NotEq, Token::NotEq) => true,
        (Token::Lt, Token::Lt) => true,
        (Token::LtEq, Token::LtEq) => true,
        (Token::Gt, Token::Gt) => true,
        (Token::GtEq, Token::GtEq) => true,
        (Token::Arrow, Token::Arrow) => true,
        (Token::Assign, Token::Assign) => true,
        (Token::Semicolon, Token::Semicolon) => true,
        (Token::LParen, Token::LParen) => true,
        (Token::RParen, Token::RParen) => true,
        (Token::LBracket, Token::LBracket) => true,
        (Token::RBracket, Token::RBracket) => true,
        (Token::LBrace, Token::LBrace) => true,
        (Token::RBrace, Token::RBrace) => true,
        (Token::Comma, Token::Comma) => true,
        (Token::Colon, Token::Colon) => true,
        (Token::Dot, Token::Dot) => true,
        _ => false,
    }
}

/// Consumes the token when it is next.
fn consume(p: &mut Parser, t: Token) -> (res: bool)
    requires
        old(p).index <= old(p).tokens@.len(),
        !(t is Int || t is Text || t is Ident),
    ensures
        res == at(tv(*old(p)), old(p).index as int, t),
        final(p).tokens == old(p).tokens,
        final(p).variables == old(p).variables,
        final(p).assignable == old(p).assignable,
        final(p).index == if res { old(p).index + 1 } else { old(p).index as int },
{
    if is_at(p, t) {
        assert(tv(*p).len() == p.tokens@.len());
        let n = p.tokens.len();
        assert(p.index < n);
        p.index = p.index + 1;
        true
    } else {
        false
    }
}

/// The identifier at the current token, if it is one; consumed.
fn take_ident(p: &mut Parser) -> (res: Option<String>)
    requires
        old(p).index <= old(p).tokens@.len(),
    ensures
        match (res, ident_at(tv(*old(p)), old(p).index as int)) {
            (Some(n), Some(sn)) => n@ == sn && final(p).index == old(p).index + 1,
            (None, None) => final(p).index == old(p).index,
            _ => false,
        },
        final(p).tokens == old(p).tokens,
        final(p).variables == old(p).variables,
        final(p).assignable == old(p).assignable,
{
    if p.index < p.tokens.len() {
        let ghost v = tv(*p);
        assert(v[p.index as int] == p.tokens@[p.index as int]@);
        match &p.tokens[p.index] {
            Token::Ident(n) => {
                let name = n.clone();
                p.index = p.index + 1;
                Some(name)
            },
            _ => None,
        }
    } else {
        None
    }
}

fn contains_name(v: &Vec<String>, n: &String) -> (res: bool)
    ensures
        res == names(v@).contains(n@),
{
    let mut i: usize = 0;
    while i < v.len()
        invariant
            i <= v@.len(),
            forall|k: int| 0 <= k < i ==> #[trigger] names(v@)[k] != n@,
        decreases v@.len() - i,
    {
        assert(names(v@)[i as int] == v@[i as int]@);
        if crate::text::str_eq(v[i].as_str(), n.as_str()) {
            return true;
        }
        i += 1;
    }
    false
}


fn copy_token(t: &Token) -> (res: Token)
    ensures
        res == *t,
{
    match t {
        Token::Int(v) => Token::Int(*v),
        Token::Text(s) => Token::Text(s.clone()),
        Token::Ident(s) => Token::Ident(s.clone()),
        Token::Unit => Token::Unit,
        Token::True => Token::True,
        Token::False => Token::False,
        Token::If => Token::If,
        Token::Then => Token::Then,
        Token::Else => Token::Else,
        Token::Match => Token::Match,
        Token::Let => Token::Let,
        Token::Update => Token::Update,
        Token::While => Token::While,
        Token::Do => Token::Do,
        Token::With => Token::With,
        Token::And => Token::And,
        Token::Or => Token::Or,
        Token::Not => Token::Not,
        Token::Plus => Token::Plus,
        Token::Minus => Token::Minus,
        Token::Star => Token::Star,
        Token::SlashSlash => Token::SlashSlash,
        Token::Percent => Token::Percent,
        Token::EqEq => Token::EqEq,
        Token::NotEq => Token::NotEq,
        Token::Lt => Token::Lt,
        Token::LtEq => Token::LtEq,
        Token::Gt => Token::Gt,
        Token::GtEq => Token::GtEq,
        Token::Arrow => Token::Arrow,
        Token::Assign => Token::Assign,
        Token::Semicolon => Token::Semicolon,
        Token::LParen => Token::LParen,
        Token::RParen => Token::RParen,
        Token::LBracket => Token::LBracket,
        Token::RBracket => Token::RBracket,
        Token::LBrace => Token::LBrace,
        Token::RBrace => Token::RBrace,
        Token::Comma => Token::Comma,
        Token::Colon => Token::Colon,
        Token::Dot => Token::Dot,
    }
}

fn token_name(t: &Token) -> (res: &'static str) {
    match t {
        Token::Int(_) => "Int",
        Token::Text(_) => "Text",
        Token::Ident(_) => "Ident",
        Token::Unit => "Unit",
        Token::True => "True",
        Token::False => "False",
        Token::If => "If",
        Token::Then => "Then",
        Token::Else => "Else",
        Token::Match => "Match",
        Token::Let => "Let",
        Token::Update => "Set",
        Token::While => "While",
        Token::Do => "Do",
        Token::With => "With",
        Token::And => "And",
        Token::Or => "Or",
        Token::Not => "Not",
        Token::Plus => "Plus",
        Token::Minus => "Minus",
        Token::Star => "Star",
        Token::SlashSlash => "SlashSlash",
        Token::Percent => "Percent",
        Token::EqEq => "EqEq",
        Token::NotEq => "NotEq",
        Token::Lt => "Lt",
        Token::LtEq => "LtEq",
        Token::Gt => "Gt",
        Token::GtEq => "GtEq",
        Token::Arrow => "Arrow",
        Token::Assign => "Assign",
        Token::Semicolon => "Semicolon",
        Token::LParen => "LParen",
        Token::RParen => "RParen",
        Token::LBracket => "LBracket",
        Token::RBracket => "RBracket",
        Token::LBrace => "LBrace",
        Token::RBrace => "RBrace",
        Token::Comma => "Comma",
        Token::Colon => "Colon",
        Token::Dot => "Dot",
    }
}

fn quoted_debug(out: &mut String, s: &String) {
    let cs = crate::text::chars_of(s.as_str());
    crate::text::push_char(out, '"');
    let mut i: usize = 0;
    while i < cs.len()
        decreases cs@.len() - i,
    {
        let c = cs[i];
        if c == '"' {
            out.append("\\\"");
        } else if c == '\\' {
            out.append("\\\\");
        } else if c == '\n' {
            out.append("\\n");
        } else if c == '\r' {
            out.append("\\r");
        } else if c == '\t' {
            out.append("\\t");
        } else {
            crate::text::push_char(out, c);
        }
        i += 1;
    }
    crate::text::push_char(out, '"');
}

/// A token as the debugging format writes it, such as `Ident("x")` or `LParen`.
fn token_debug(t: &Token) -> String {
    let mut out = crate::text::owned(token_name(t));
    match t {
        Token::Int(v) => {
            out.append("(");
            let n = crate::text::i64_text(*v);
            out.append(n.as_str());
            out.append(")");
        },
        Token::Text(s) => {
            out.append("(");
            quoted_debug(&mut out, s);
            out.append(")");
        },
        Token::Ident(s) => {
            out.append("(");
            quoted_debug(&mut out, s);
            out.append(")");
        },
        _ => {},
    }
    out
}

fn message(a: &str, b: &str, c: &str) -> String {
    let mut m = crate::text::owned(a);
    m.append(b);
    m.append(c);
    m
}

fn expect(p: &mut Parser, t: Token) -> (res: Result<(), String>)
    requires
        old(p).index <= old(p).tokens@.len(),
        !(t is Int || t is Text || t is Ident),
    ensures
        res is Ok == at(tv(*old(p)), old(p).index as int, t),
        final(p).tokens == old(p).tokens,
        final(p).variables == old(p).variables,
        final(p).assignable == old(p).assignable,
        final(p).index == if res is Ok { old(p).index + 1 } else { old(p).index as int },
{
    if consume(p, copy_token(&t)) {
        Ok(())
    } else {
        let d = token_debug(&t);
        Err(message("Expected token ", d.as_str(), "."))
    }
}

fn expect_ident(p: &mut Parser) -> (res: Result<String, String>)
    requires
        old(p).index <= old(p).tokens@.len(),
    ensures
        match (res, ident_at(tv(*old(p)), old(p).index as int)) {
            (Ok(n), Some(sn)) => n@ == sn && final(p).index == old(p).index + 1,
            (Err(_), None) => final(p).index == old(p).index,
            _ => false,
        },
        final(p).tokens == old(p).tokens,
        final(p).variables == old(p).variables,
        final(p).assignable == old(p).assignable,
{
    match take_ident(p) {
        Some(n) => Ok(n),
        None => {
            if p.index < p.tokens.len() {
                let d = token_debug(&p.tokens[p.index]);
                Err(message("Expected identifier, got ", d.as_str(), "."))
            } else {
                Err(crate::text::owned("Expected identifier, got end of expression."))
            }
        },
    }
}


/// A parse that may consume nothing more: the result matches, ending at or after the start.
pub open spec fn parsed_from(res: Result<IrExpr, String>, spec: Parsed, a: Parser, b: Parser) -> bool {
    match (res, spec) {
        (Ok(e), Some((s, j))) => ir_view(e) == s && b.index == j && j >= a.index,
        (Err(_), None) => true,
        _ => false,
    }
}

pub open spec fn pctx(env: Env, p: Parser) -> (LowerCtx, Seq<SpecToken>, int, Seq<Seq<char>>, Seq<Seq<char>>) {
    (env_ctx(env), tv(p), p.index as int, names(p.variables@), names(p.assignable@))
}

fn parse_expr(p: &mut Parser, env: &Env) -> (res: Result<IrExpr, String>)
    requires
        old(p).index <= old(p).tokens@.len(),
    ensures
        kept(*old(p), *final(p)),
        parsed_as(res, p_expr(env_ctx(*env), tv(*old(p)), old(p).index as int, names(old(p).variables@), names(old(p).assignable@)), *old(p), *final(p)),
    decreases old(p).tokens@.len() - old(p).index, 40int,
{
    parse_seq(p, env)
}

fn parse_let(p: &mut Parser, env: &Env) -> (res: Result<IrExpr, String>)
    requires
        old(p).index <= old(p).tokens@.len(),
        at(tv(*old(p)), old(p).index as int, Token::Let),
    ensures
        kept(*old(p), *final(p)),
        parsed_as(res, p_seq(env_ctx(*env), tv(*old(p)), old(p).index as int, names(old(p).variables@), names(old(p).assignable@)), *old(p), *final(p)),
    decreases old(p).tokens@.len() - old(p).index, 38int,
{
    let ghost vs = names(p.variables@);
    let ghost asg = names(p.assignable@);
    consume(p, Token::Let);
    let name = match expect_ident(p) {
        Ok(n) => n,
        Err(e) => return Err(e),
    };
    match expect(p, Token::Assign) {
        Ok(_) => {},
        Err(e) => return Err(e),
    }
    let value = match parse_if(p, env) {
        Ok(v) => v,
        Err(e) => return Err(e),
    };
    match expect(p, Token::Semicolon) {
        Ok(_) => {},
        Err(e) => return Err(e),
    }
    p.variables.push(name.clone());
    p.assignable.push(name.clone());
    proof {
        assert(names(p.variables@) =~= vs.push(name@));
        assert(names(p.assignable@) =~= asg.push(name@));
    }
    let body = parse_expr(p, env);
    let ghost vars_after = p.variables@;
    let ghost asg_after = p.assignable@;
    p.assignable.pop();
    p.variables.pop();
    proof {
        assert(names(vars_after) == vs.push(name@));
        assert(names(p.variables@) =~= names(vars_after).drop_last());
        assert(names(p.assignable@) =~= names(asg_after).drop_last());
        assert(names(p.variables@) =~= vs);
        assert(names(p.assignable@) =~= asg);
    }
    match body {
        Ok(b) => Ok(IrExpr::Let { name, value: Box::new(value), body: Box::new(b) }),
        Err(e) => Err(e),
    }
}

fn parse_set(p: &mut Parser, env: &Env) -> (res: Result<IrExpr, String>)
    requires
        old(p).index <= old(p).tokens@.len(),
        at(tv(*old(p)), old(p).index as int, Token::Update),
    ensures
        kept(*old(p), *final(p)),
        parsed_as(res, p_seq(env_ctx(*env), tv(*old(p)), old(p).index as int, names(old(p).variables@), names(old(p).assignable@)), *old(p), *final(p)),
    decreases old(p).tokens@.len() - old(p).index, 38int,
{
    consume(p, Token::Update);
    let name = match expect_ident(p) {
        Ok(n) => n,
        Err(e) => return Err(e),
    };
    match expect(p, Token::Assign) {
        Ok(_) => {},
        Err(e) => return Err(e),
    }
    if !contains_name(&p.variables, &name) {
        return Err(message("Unknown variable `", name.as_str(), "`."));
    }
    if !contains_name(&p.assignable, &name) {
        return Err(message("`set` can only update an existing local `let` binding, got `", name.as_str(), "`."));
    }
    let value = match parse_if(p, env) {
        Ok(v) => v,
        Err(e) => return Err(e),
    };
    parse_after(p, env, IrExpr::Assign { name, value: Box::new(value) })
}

fn parse_while(p: &mut Parser, env: &Env) -> (res: Result<IrExpr, String>)
    requires
        old(p).index <= old(p).tokens@.len(),
        at(tv(*old(p)), old(p).index as int, Token::While),
    ensures
        kept(*old(p), *final(p)),
        parsed_as(res, p_seq(env_ctx(*env), tv(*old(p)), old(p).index as int, names(old(p).variables@), names(old(p).assignable@)), *old(p), *final(p)),
    decreases old(p).tokens@.len() - old(p).index, 38int,
{
    consume(p, Token::While);
    let condition = match parse_expr(p, env) {
        Ok(v) => v,
        Err(e) => return Err(e),
    };
    match expect(p, Token::Do) {
        Ok(_) => {},
        Err(e) => return Err(e),
    }
    match expect(p, Token::LParen) {
        Ok(_) => {},
        Err(e) => return Err(e),
    }
    let body = match parse_expr(p, env) {
        Ok(v) => v,
        Err(e) => return Err(e),
    };
    match expect(p, Token::RParen) {
        Ok(_) => {},
        Err(e) => return Err(e),
    }
    parse_after(p, env, IrExpr::While { condition: Box::new(condition), body: Box::new(body) })
}

fn parse_seq(p: &mut Parser, env: &Env) -> (res: Result<IrExpr, String>)
    requires
        old(p).index <= old(p).tokens@.len(),
    ensures
        kept(*old(p), *final(p)),
        parsed_as(res, p_seq(env_ctx(*env), tv(*old(p)), old(p).index as int, names(old(p).variables@), names(old(p).assignable@)), *old(p), *final(p)),
    decreases old(p).tokens@.len() - old(p).index, 39int,
{
    if is_at(p, Token::Let) {
        return parse_let(p, env);
    }
    if is_at(p, Token::Update) {
        return parse_set(p, env);
    }
    if is_at(p, Token::While) {
        return parse_while(p, env);
    }
    let first = match parse_if(p, env) {
        Ok(v) => v,
        Err(e) => return Err(e),
    };
    parse_after(p, env, first)
}

fn parse_after(p: &mut Parser, env: &Env, first: IrExpr) -> (res: Result<IrExpr, String>)
    requires
        old(p).index <= old(p).tokens@.len(),
    ensures
        kept(*old(p), *final(p)),
        parsed_from(res, p_after(env_ctx(*env), tv(*old(p)), ir_view(first), old(p).index as int, names(old(p).variables@), names(old(p).assignable@)), *old(p), *final(p)),
    decreases old(p).tokens@.len() - old(p).index, 38int,
{
    if consume(p, Token::Semicolon) {
        let second = match parse_expr(p, env) {
            Ok(v) => v,
            Err(e) => return Err(e),
        };
        return Ok(IrExpr::Sequence { first: Box::new(first), second: Box::new(second) });
    }
    Ok(first)
}

fn parse_if(p: &mut Parser, env: &Env) -> (res: Result<IrExpr, String>)
    requires
        old(p).index <= old(p).tokens@.len(),
    ensures
        kept(*old(p), *final(p)),
        parsed_as(res, p_if(env_ctx(*env), tv(*old(p)), old(p).index as int, names(old(p).variables@), names(old(p).assignable@)), *old(p), *final(p)),
    decreases old(p).tokens@.len() - old(p).index, 37int,
{
    if consume(p, Token::If) {
        let condition = match parse_expr(p, env) {
            Ok(v) => v,
            Err(e) => return Err(e),
        };
        match expect(p, Token::Then) {
            Ok(_) => {},
            Err(e) => return Err(e),
        }
        let then_expr = match parse_expr(p, env) {
            Ok(v) => v,
            Err(e) => return Err(e),
        };
        match expect(p, Token::Else) {
            Ok(_) => {},
            Err(e) => return Err(e),
        }
        let else_expr = match parse_expr(p, env) {
            Ok(v) => v,
            Err(e) => return Err(e),
        };
        return Ok(IrExpr::If {
            condition: Box::new(condition),
            then_expr: Box::new(then_expr),
            else_expr: Box::new(else_expr),
        });
    }
    parse_binary(p, env, 4)
}

fn op_token(p: &Parser, level: usize) -> (res: Option<IrBinaryOp>)
    requires
        p.index <= p.tokens@.len(),
        level <= 4,
    ensures
        res == op_at(tv(*p), p.index as int, level as int),
{
    if p.index >= p.tokens.len() {
        return None;
    }
    let ghost v = tv(*p);
    assert(v[p.index as int] == p.tokens@[p.index as int]@);
    let t = &p.tokens[p.index];
    if level == 4 {
        match t { Token::Or => Some(IrBinaryOp::Or), _ => None }
    } else if level == 3 {
        match t { Token::And => Some(IrBinaryOp::And), _ => None }
    } else if level == 2 {
        match t {
            Token::EqEq => Some(IrBinaryOp::Eq),
            Token::NotEq => Some(IrBinaryOp::NotEq),
            Token::LtEq => Some(IrBinaryOp::LtEq),
            Token::GtEq => Some(IrBinaryOp::GtEq),
            Token::Lt => Some(IrBinaryOp::Lt),
            Token::Gt => Some(IrBinaryOp::Gt),
            _ => None,
        }
    } else if level == 1 {
        match t {
            Token::Plus => Some(IrBinaryOp::Add),
            Token::Minus => Some(IrBinaryOp::Sub),
            _ => None,
        }
    } else {
        match t {
            Token::Star => Some(IrBinaryOp::Mul),
            Token::SlashSlash => Some(IrBinaryOp::DivTrunc),
            Token::Percent => Some(IrBinaryOp::Rem),
            _ => None,
        }
    }
}

fn parse_binary(p: &mut Parser, env: &Env, level: usize) -> (res: Result<IrExpr, String>)
    requires
        old(p).index <= old(p).tokens@.len(),
        level <= 4,
    ensures
        kept(*old(p), *final(p)),
        parsed_as(res, p_binary(env_ctx(*env), tv(*old(p)), old(p).index as int, names(old(p).variables@), names(old(p).assignable@), level as int), *old(p), *final(p)),
    decreases old(p).tokens@.len() - old(p).index, 10 + 2 * level,
{
    let left = match parse_operand(p, env, level) {
        Ok(v) => v,
        Err(e) => return Err(e),
    };
    parse_tail(p, env, left, level)
}

fn parse_operand(p: &mut Parser, env: &Env, level: usize) -> (res: Result<IrExpr, String>)
    requires
        old(p).index <= old(p).tokens@.len(),
        level <= 4,
    ensures
        kept(*old(p), *final(p)),
        parsed_as(res, p_operand(env_ctx(*env), tv(*old(p)), old(p).index as int, names(old(p).variables@), names(old(p).assignable@), level as int), *old(p), *final(p)),
    decreases old(p).tokens@.len() - old(p).index, 9 + 2 * level,
{
    if level == 0 {
        parse_unary(p, env)
    } else {
        parse_binary(p, env, level - 1)
    }
}

fn parse_tail(p: &mut Parser, env: &Env, left: IrExpr, level: usize) -> (res: Result<IrExpr, String>)
    requires
        old(p).index <= old(p).tokens@.len(),
        level <= 4,
    ensures
        kept(*old(p), *final(p)),
        parsed_from(res, p_tail(env_ctx(*env), tv(*old(p)), ir_view(left), old(p).index as int, names(old(p).variables@), names(old(p).assignable@), level as int), *old(p), *final(p)),
    decreases old(p).tokens@.len() - old(p).index, 11 + 2 * level,
{
    match op_token(p, level) {
        None => Ok(left),
        Some(op) => {
            let n = p.tokens.len();
            assert(p.index < n);
            p.index = p.index + 1;
            let right = match parse_operand(p, env, level) {
                Ok(v) => v,
                Err(e) => return Err(e),
            };
            parse_tail(p, env, IrExpr::Binary { op, left: Box::new(left), right: Box::new(right) }, level)
        },
    }
}

fn parse_unary(p: &mut Parser, env: &Env) -> (res: Result<IrExpr, String>)
    requires
        old(p).index <= old(p).tokens@.len(),
    ensures
        kept(*old(p), *final(p)),
        parsed_as(res, p_unary(env_ctx(*env), tv(*old(p)), old(p).index as int, names(old(p).variables@), names(old(p).assignable@)), *old(p), *final(p)),
    decreases old(p).tokens@.len() - old(p).index, 8int,
{
    if consume(p, Token::Minus) {
        let e = match parse_unary(p, env) {
            Ok(v) => v,
            Err(e) => return Err(e),
        };
        return Ok(IrExpr::Unary { op: IrUnaryOp::Neg, expr: Box::new(e) });
    }
    if consume(p, Token::Not) {
        let e = match parse_unary(p, env) {
            Ok(v) => v,
            Err(e) => return Err(e),
        };
        return Ok(IrExpr::Unary { op: IrUnaryOp::Not, expr: Box::new(e) });
    }
    let e = match parse_primary(p, env) {
        Ok(v) => v,
        Err(e) => return Err(e),
    };
    parse_postfix(p, env, e)
}

fn parse_postfix(p: &mut Parser, env: &Env, e: IrExpr) -> (res: Result<IrExpr, String>)
    requires
        old(p).index <= old(p).tokens@.len(),
    ensures
        kept(*old(p), *final(p)),
        parsed_from(res, p_postfix(env_ctx(*env), tv(*old(p)), ir_view(e), old(p).index as int, names(old(p).variables@), names(old(p).assignable@)), *old(p), *final(p)),
    decreases old(p).tokens@.len() - old(p).index, 7int,
{
    if consume(p, Token::Dot) {
        let field = match expect_ident(p) {
            Ok(n) => n,
            Err(err) => return Err(err),
        };
        return parse_postfix(p, env, IrExpr::FieldAccess { base: Box::new(e), field });
    }
    if consume(p, Token::With) {
        match expect(p, Token::LBrace) {
            Ok(_) => {},
            Err(err) => return Err(err),
        }
        if consume(p, Token::RBrace) {
            let u = IrExpr::RecordUpdate { base: Box::new(e), fields: Vec::new() };
            assert(ir_fields_view(Seq::<(String, IrExpr)>::empty()) =~= Seq::<(Seq<char>, SIr)>::empty());
            return parse_postfix(p, env, u);
        }
        assert(ir_fields_view(Seq::<(String, IrExpr)>::empty()) =~= Seq::<(Seq<char>, SIr)>::empty());
        let fields = match parse_fields(p, env, Vec::new()) {
            Ok(v) => v,
            Err(err) => return Err(err),
        };
        return parse_postfix(p, env, IrExpr::RecordUpdate { base: Box::new(e), fields });
    }
    Ok(e)
}

fn parse_fields(p: &mut Parser, env: &Env, acc: Vec<(String, IrExpr)>) -> (res: Result<Vec<(String, IrExpr)>, String>)
    requires
        old(p).index <= old(p).tokens@.len(),
    ensures
        kept(*old(p), *final(p)),
        match (res, p_fields(env_ctx(*env), tv(*old(p)), old(p).index as int, names(old(p).variables@), names(old(p).assignable@), ir_fields_view(acc@))) {
            (Ok(v), Some((sv, j))) => ir_fields_view(v@) == sv && final(p).index == j && j > old(p).index,
            (Err(_), None) => true,
            _ => false,
        },
    decreases old(p).tokens@.len() - old(p).index, 6int,
{
    let mut acc = acc;
    let name = match expect_ident(p) {
        Ok(n) => n,
        Err(e) => return Err(e),
    };
    match expect(p, Token::Colon) {
        Ok(_) => {},
        Err(e) => return Err(e),
    }
    let value = match parse_expr(p, env) {
        Ok(v) => v,
        Err(e) => return Err(e),
    };
    let ghost before = acc@;
    let ghost nv = name@;
    let ghost vv = ir_view(value);
    acc.push((name, value));
    assert(ir_fields_view(acc@) =~= ir_fields_view(before).push((nv, vv)));
    if consume(p, Token::RBrace) {
        return Ok(acc);
    }
    match expect(p, Token::Comma) {
        Ok(_) => {},
        Err(e) => return Err(e),
    }
    parse_fields(p, env, acc)
}

fn parse_args(p: &mut Parser, env: &Env, acc: Vec<IrExpr>) -> (res: Result<Vec<IrExpr>, String>)
    requires
        old(p).index <= old(p).tokens@.len(),
    ensures
        kept(*old(p), *final(p)),
        match (res, p_args(env_ctx(*env), tv(*old(p)), old(p).index as int, names(old(p).variables@), names(old(p).assignable@), ir_list_view(acc@))) {
            (Ok(v), Some((sv, j))) => ir_list_view(v@) == sv && final(p).index == j && j > old(p).index,
            (Err(_), None) => true,
            _ => false,
        },
    decreases old(p).tokens@.len() - old(p).index, 41int,
{
    let mut acc = acc;
    let value = match parse_expr(p, env) {
        Ok(v) => v,
        Err(e) => return Err(e),
    };
    let ghost before = acc@;
    let ghost vv = ir_view(value);
    acc.push(value);
    assert(ir_list_view(acc@) =~= ir_list_view(before).push(vv));
    if consume(p, Token::RParen) {
        return Ok(acc);
    }
    match expect(p, Token::Comma) {
        Ok(_) => {},
        Err(e) => return Err(e),
    }
    parse_args(p, env, acc)
}

fn parse_parts(p: &mut Parser, acc: Vec<String>) -> (res: Result<Vec<String>, String>)
    requires
        old(p).index <= old(p).tokens@.len(),
    ensures
        kept(*old(p), *final(p)),
        match (res, p_parts(tv(*old(p)), old(p).index as int, names(acc@))) {
            (Ok(v), Some((sv, j))) => names(v@) == sv && final(p).index == j && j >= old(p).index && v@.len() >= acc@.len(),
            (Err(_), None) => true,
            _ => false,
        },
    decreases old(p).tokens@.len() - old(p).index,
{
    let mut acc = acc;
    if consume(p, Token::Dot) {
        let part = match expect_ident(p) {
            Ok(n) => n,
            Err(e) => return Err(e),
        };
        let ghost before = acc@;
        let ghost pv = part@;
        acc.push(part);
        assert(names(acc@) =~= names(before).push(pv));
        return parse_parts(p, acc);
    }
    Ok(acc)
}

fn parse_branches(p: &mut Parser, env: &Env, acc: Vec<(String, IrExpr)>) -> (res: Result<Vec<(String, IrExpr)>, String>)
    requires
        old(p).index <= old(p).tokens@.len(),
    ensures
        kept(*old(p), *final(p)),
        match (res, p_branches(env_ctx(*env), tv(*old(p)), old(p).index as int, names(old(p).variables@), names(old(p).assignable@), ir_fields_view(acc@))) {
            (Ok(v), Some((sv, j))) => ir_fields_view(v@) == sv && final(p).index == j && j > old(p).index,
            (Err(_), None) => true,
            _ => false,
        },
    decreases old(p).tokens@.len() - old(p).index, 6int,
{
    let mut acc = acc;
    let variant = match expect_ident(p) {
        Ok(n) => n,
        Err(e) => return Err(e),
    };
    match expect(p, Token::Arrow) {
        Ok(_) => {},
        Err(e) => return Err(e),
    }
    let branch = match parse_expr(p, env) {
        Ok(v) => v,
        Err(e) => return Err(e),
    };
    let ghost before = acc@;
    let ghost nv = variant@;
    let ghost bv = ir_view(branch);
    acc.push((variant, branch));
    assert(ir_fields_view(acc@) =~= ir_fields_view(before).push((nv, bv)));
    if consume(p, Token::RBrace) {
        return Ok(acc);
    }
    match expect(p, Token::Comma) {
        Ok(_) => {},
        Err(e) => return Err(e),
    }
    if consume(p, Token::RBrace) {
        return Ok(acc);
    }
    parse_branches(p, env, acc)
}


/// Parses the matched expression of a `match` on its own, up to the body's `{`.
fn match_subject(p: &Parser, env: &Env) -> (res: Result<(IrExpr, usize), String>)
    requires
        1 <= p.index <= p.tokens@.len(),
    ensures
        match (res, p_subject(env_ctx(*env), tv(*p), p.index as int, names(p.variables@), names(p.assignable@))) {
            (Ok((e, bs)), Some((s, b))) => ir_view(e) == s && bs == b && p.index <= bs < p.tokens@.len(),
            (Err(_), None) => true,
            _ => false,
        },
    decreases p.tokens@.len() - p.index, 4int,
{
    let i = p.index;
    proof {
        lemma_body_start_views(p.tokens@, i as int, 0, 0);
    }
    let bs = match crate::eval::find_match_body_start(p.tokens.as_slice(), i) {
        Ok(b) => b,
        Err(e) => return Err(e),
    };
    let mut sub_tokens: Vec<Token> = Vec::new();
    let mut k: usize = i;
    while k < bs
        invariant
            i <= k <= bs,
            bs < p.tokens@.len(),
            sub_tokens@ == p.tokens@.subrange(i as int, k as int),
        decreases bs - k,
    {
        sub_tokens.push(copy_token(&p.tokens[k]));
        assert(p.tokens@.subrange(i as int, k + 1) =~= p.tokens@.subrange(i as int, k as int).push(p.tokens@[k as int]));
        k += 1;
    }
    let mut sub = Parser {
        tokens: sub_tokens,
        index: 0,
        variables: crate::model::copy_strings(&p.variables),
        assignable: crate::model::copy_strings(&p.assignable),
    };
    proof {
        assert(tv(sub) =~= tv(*p).subrange(i as int, bs as int));
    }
    let e = match parse_expr(&mut sub, env) {
        Ok(v) => v,
        Err(err) => return Err(err),
    };
    if sub.index != sub.tokens.len() {
        let d = token_debug(&sub.tokens[sub.index]);
        return Err(message("Unexpected trailing token ", d.as_str(), "."));
    }
    Ok((e, bs))
}

/// The body of a `match`, from its `{`.
fn parse_match_body(p: &mut Parser, env: &Env, e: IrExpr) -> (res: Result<IrExpr, String>)
    requires
        old(p).index <= old(p).tokens@.len(),
    ensures
        kept(*old(p), *final(p)),
        parsed_as(res, p_match_body(env_ctx(*env), tv(*old(p)), ir_view(e), old(p).index as int, names(old(p).variables@), names(old(p).assignable@)), *old(p), *final(p)),
    decreases old(p).tokens@.len() - old(p).index, 5int,
{
    let ghost c = env_ctx(*env);
    let ghost ts = tv(*p);
    let ghost bs = p.index as int;
    let ghost vs = names(p.variables@);
    let ghost asg = names(p.assignable@);
    let ghost se = ir_view(e);
    if !consume(p, Token::LBrace) {
        assert(p_match_body(c, ts, se, bs, vs, asg) is None);
        let d = token_debug(&Token::LBrace);
        return Err(message("Expected token ", d.as_str(), "."));
    }
    if consume(p, Token::RBrace) {
        assert(p_match_body(c, ts, se, bs, vs, asg) is None);
        return Err(crate::text::owned("match expression has no branches."));
    }
    assert(ir_fields_view(Seq::<(String, IrExpr)>::empty()) =~= Seq::<(Seq<char>, SIr)>::empty());
    assert(p_match_body(c, ts, se, bs, vs, asg) == match p_branches(c, ts, bs + 1, vs, asg, seq![]) {
        None => None,
        Some((branches, l)) => Some((SIr::Match(bx(se), branches), l)),
    });
    let branches = match parse_branches(p, env, Vec::new()) {
        Ok(v) => v,
        Err(err) => return Err(err),
    };
    Ok(IrExpr::Match { expr: Box::new(e), branches })
}

fn parse_match(p: &mut Parser, env: &Env) -> (res: Result<IrExpr, String>)
    requires
        1 <= old(p).index <= old(p).tokens@.len(),
    ensures
        kept(*old(p), *final(p)),
        parsed_as(res, p_match(env_ctx(*env), tv(*old(p)), old(p).index as int, names(old(p).variables@), names(old(p).assignable@)), *old(p), *final(p)),
    decreases old(p).tokens@.len() - old(p).index, 6int,
{
    let (e, bs) = match match_subject(p, env) {
        Ok(x) => x,
        Err(err) => return Err(err),
    };
    p.index = bs;
    parse_match_body(p, env, e)
}

fn resolve_variant(env: &Env, variant: &String) -> (res: Result<IrExpr, String>)
    ensures
        match res {
            Ok(e) => enums_with(env.types@, variant@).len() == 1 && ir_view(e) == SIr::EnumVariant(enums_with(env.types@, variant@)[0].name@, variant@),
            Err(_) => enums_with(env.types@, variant@).len() != 1,
        },
{
    let ts = env.types;
    let mut found: Vec<usize> = Vec::new();
    let mut i: usize = 0;
    while i < ts.len()
        invariant
            i <= ts@.len(),
            found@.len() == enums_with(ts@.take(i as int), variant@).len(),
            forall|k: int| 0 <= k < found@.len() ==> found@[k] < i && ts@[#[trigger] found@[k] as int] == enums_with(ts@.take(i as int), variant@)[k],
        decreases ts@.len() - i,
    {
        proof {
            assert(ts@.take(i + 1).drop_last() =~= ts@.take(i as int));
            assert(ts@.take(i + 1).last() == ts@[i as int]);
        }
        let t = &ts[i];
        if t.variants.len() > 0 && contains_name(&t.variants, variant) {
            found.push(i);
        }
        i += 1;
    }
    assert(ts@.take(ts@.len() as int) =~= ts@);
    if found.len() == 1 {
        return Ok(IrExpr::EnumVariant { type_text: ts[found[0]].name.clone(), variant: variant.clone() });
    }
    if found.len() == 0 {
        return Err(message("Unknown variable `", variant.as_str(), "`."));
    }
    let mut type_names: Vec<String> = Vec::new();
    let mut k: usize = 0;
    while k < found.len()
        invariant
            k <= found@.len(),
            forall|j: int| 0 <= j < found@.len() ==> found@[j] < ts@.len(),
        decreases found@.len() - k,
    {
        type_names.push(ts[found[k]].name.clone());
        k += 1;
    }
    let joined = crate::text::join_strings(&type_names, ", ");
    let mut m = message("Enum variant `", variant.as_str(), "` is ambiguous across enum types: ");
    m.append(joined.as_str());
    m.append(".");
    Err(m)
}

fn parse_primary(p: &mut Parser, env: &Env) -> (res: Result<IrExpr, String>)
    requires
        old(p).index <= old(p).tokens@.len(),
    ensures
        kept(*old(p), *final(p)),
        parsed_as(res, p_primary(env_ctx(*env), tv(*old(p)), old(p).index as int, names(old(p).variables@), names(old(p).assignable@)), *old(p), *final(p)),
    decreases old(p).tokens@.len() - old(p).index, 4int,
{
    if p.index >= p.tokens.len() {
        return Err(crate::text::owned("Unexpected end of expression."));
    }
    let ghost v = tv(*p);
    let i = p.index;
    assert(v[i as int] == p.tokens@[i as int]@);
    match &p.tokens[i] {
        Token::Int(value) => {
            let x = *value;
            p.index = i + 1;
            Ok(IrExpr::Int(x))
        },
        Token::Text(value) => {
            let x = value.clone();
            p.index = i + 1;
            Ok(IrExpr::Text(x))
        },
        Token::Unit => {
            p.index = i + 1;
            Ok(IrExpr::Unit)
        },
        Token::True => {
            p.index = i + 1;
            Ok(IrExpr::Bool(true))
        },
        Token::False => {
            p.index = i + 1;
            Ok(IrExpr::Bool(false))
        },
        Token::Match => {
            p.index = i + 1;
            parse_match(p, env)
        },
        Token::LParen => {
            p.index = i + 1;
            let e = match parse_expr(p, env) {
                Ok(x) => x,
                Err(err) => return Err(err),
            };
            match expect(p, Token::RParen) {
                Ok(_) => {},
                Err(err) => return Err(err),
            }
            Ok(e)
        },
        Token::Ident(_) => parse_named(p, env),
        _ => {
            let d = token_debug(&p.tokens[i]);
            Err(message("Unexpected token ", d.as_str(), "."))
        },
    }
}

/// A call after its `(`.
fn parse_call(p: &mut Parser, env: &Env, name: String) -> (res: Result<IrExpr, String>)
    requires
        old(p).index <= old(p).tokens@.len(),
    ensures
        kept(*old(p), *final(p)),
        parsed_as(res, p_call(env_ctx(*env), tv(*old(p)), name@, old(p).index as int, names(old(p).variables@), names(old(p).assignable@)), *old(p), *final(p)),
    decreases old(p).tokens@.len() - old(p).index, 42int,
{
    let callee = crate::eval::resolve_in(name.as_str(), env.functions, env.intrinsics);
    proof {
        crate::eval::lemma_resolution(callee, name@, env.functions@, env.intrinsics@);
    }
    let target = match callee {
        Ok(f) => f.symbol(),
        Err(err) => return Err(err),
    };
    assert(ir_list_view(Seq::<IrExpr>::empty()) =~= Seq::<SIr>::empty());
    if consume(p, Token::RParen) {
        return Ok(IrExpr::Call { reference: name, target, args: Vec::new() });
    }
    let args = match parse_args(p, env, Vec::new()) {
        Ok(x) => x,
        Err(err) => return Err(err),
    };
    Ok(IrExpr::Call { reference: name, target, args })
}

/// A record construction after its `{`.
fn parse_record(p: &mut Parser, env: &Env, name: String, qualified: bool) -> (res: Result<IrExpr, String>)
    requires
        old(p).index <= old(p).tokens@.len(),
    ensures
        kept(*old(p), *final(p)),
        parsed_as(res, p_record(env_ctx(*env), tv(*old(p)), name@, qualified, old(p).index as int, names(old(p).variables@), names(old(p).assignable@)), *old(p), *final(p)),
    decreases old(p).tokens@.len() - old(p).index, 7int,
{
    let ghost c = env_ctx(*env);
    let ghost ts = tv(*p);
    let ghost j = p.index as int;
    let ghost vs = names(p.variables@);
    let ghost asg = names(p.assignable@);
    if qualified {
        assert(p_record(c, ts, name@, qualified, j, vs, asg) is None);
        return Err(message("Record construction requires an unqualified type name, got `", name.as_str(), "`."));
    }
    assert(ir_fields_view(Seq::<(String, IrExpr)>::empty()) =~= Seq::<(Seq<char>, SIr)>::empty());
    if consume(p, Token::RBrace) {
        assert(p_record(c, ts, name@, qualified, j, vs, asg) == Some((SIr::RecordConstruct(name@, seq![]), j + 1)));
        return Ok(IrExpr::RecordConstruct { type_text: name, fields: Vec::new() });
    }
    assert(p_record(c, ts, name@, qualified, j, vs, asg) == match p_fields(c, ts, j, vs, asg, seq![]) {
        None => None,
        Some((fields, k)) => Some((SIr::RecordConstruct(name@, fields), k)),
    });
    let fields = match parse_fields(p, env, Vec::new()) {
        Ok(x) => x,
        Err(err) => return Err(err),
    };
    Ok(IrExpr::RecordConstruct { type_text: name, fields })
}

/// A variable with its field accesses.
fn field_access_chain(parts: &Vec<String>) -> (res: IrExpr)
    requires
        parts@.len() >= 1,
    ensures
        ir_view(res) == field_chain(SIr::Var(parts@[0]@), names(parts@).drop_first()),
{
    let mut e = IrExpr::Var(parts[0].clone());
    let mut k: usize = 1;
    let ghost ps = names(parts@);
    assert(ps.subrange(1, 1) =~= Seq::<Seq<char>>::empty());
    while k < parts.len()
        invariant
            1 <= k <= parts@.len(),
            ps == names(parts@),
            ir_view(e) == field_chain(SIr::Var(ps[0]), ps.subrange(1, k as int)),
        decreases parts@.len() - k,
    {
        proof {
            assert(ps.subrange(1, k + 1).drop_last() =~= ps.subrange(1, k as int));
            assert(ps.subrange(1, k + 1).last() == parts@[k as int]@);
        }
        e = IrExpr::FieldAccess { base: Box::new(e), field: parts[k].clone() };
        k += 1;
    }
    assert(ps.subrange(1, parts@.len() as int) =~= ps.drop_first());
    e
}

/// What follows a dotted name.
fn parse_name_tail(p: &mut Parser, env: &Env, parts: Vec<String>) -> (res: Result<IrExpr, String>)
    requires
        old(p).index <= old(p).tokens@.len(),
        parts@.len() >= 1,
    ensures
        kept(*old(p), *final(p)),
        parsed_from(res, p_name_tail(env_ctx(*env), tv(*old(p)), names(parts@), old(p).index as int, names(old(p).variables@), names(old(p).assignable@)), *old(p), *final(p)),
    decreases old(p).tokens@.len() - old(p).index, 2int,
{
    let name = crate::text::join_strings(&parts, ".");
    assert(parts@.map_values(|q: String| q@) =~= names(parts@));
    if consume(p, Token::LParen) {
        return parse_call(p, env, name);
    }
    if consume(p, Token::LBrace) {
        return parse_record(p, env, name, parts.len() != 1);
    }
    if contains_name(&p.variables, &parts[0]) {
        return Ok(field_access_chain(&parts));
    }
    if parts.len() == 1 {
        return resolve_variant(env, &parts[0]);
    }
    Err(message("Unknown variable `", parts[0].as_str(), "`."))
}

/// A primary expression that starts with a name.
fn parse_named(p: &mut Parser, env: &Env) -> (res: Result<IrExpr, String>)
    requires
        old(p).index < old(p).tokens@.len(),
    ensures
        kept(*old(p), *final(p)),
        parsed_as(res, p_named(env_ctx(*env), tv(*old(p)), old(p).index as int, names(old(p).variables@), names(old(p).assignable@)), *old(p), *final(p)),
    decreases old(p).tokens@.len() - old(p).index, 3int,
{
    let ghost c = env_ctx(*env);
    let ghost ts = tv(*p);
    let ghost vs = names(p.variables@);
    let ghost asg = names(p.assignable@);
    let i = p.index;
    let n = p.tokens.len();
    assert(ts[i as int] == p.tokens@[i as int]@);
    let first = match &p.tokens[i] {
        Token::Ident(name) => name.clone(),
        _ => {
            assert(p_named(c, ts, i as int, vs, asg) is None);
            return Err(crate::text::owned("Expected a name."));
        },
    };
    assert(i + 1 <= n);
    p.index = i + 1;
    assert(tv(*p) == ts);
    let mut start: Vec<String> = Vec::new();
    start.push(first);
    assert(names(start@) =~= seq![ts[i as int]->Ident_0]);
    let ghost pp = p_parts(ts, i + 1, seq![ts[i as int]->Ident_0]);
    let parts = match parse_parts(p, start) {
        Ok(x) => x,
        Err(err) => {
            assert(pp is None);
            assert(p_named(c, ts, i as int, vs, asg) is None);
            return Err(err);
        },
    };
    assert(pp == Some((names(parts@), p.index as int)));
    assert(parts@.len() >= 1);
    assert(p_named(c, ts, i as int, vs, asg) == p_name_tail(c, ts, names(parts@), p.index as int, vs, asg));
    parse_name_tail(p, env, parts)
}

/// Lowers the tokens of one expression, with the given variables in scope.
fn lower_tokens(tokens: Vec<Token>, variables: Vec<String>, env: &Env) -> (res: Result<IrExpr, String>)
    ensures
        match (res, lowered(env_ctx(*env), token_views(tokens@), names(variables@))) {
            (Ok(e), Some(s)) => ir_view(e) == s,
            (Err(_), None) => true,
            _ => false,
        },
{
    let mut p = Parser { tokens, index: 0, variables, assignable: Vec::new() };
    assert(names(p.assignable@) =~= Seq::<Seq<char>>::empty());
    let e = match parse_expr(&mut p, env) {
        Ok(x) => x,
        Err(err) => return Err(err),
    };
    if p.index != p.tokens.len() {
        let d = token_debug(&p.tokens[p.index]);
        return Err(message("Unexpected trailing token ", d.as_str(), "."));
    }
    Ok(e)
}


// ---------------------------------------------------------------------------
// Lowering expression texts
// ---------------------------------------------------------------------------

/// An expression text lowered: it lexes, parses whole, and resolves.
pub open spec fn lowered_text(c: LowerCtx, text: Seq<char>, vs: Seq<Seq<char>>) -> Option<SIr> {
    match lex(text) {
        Ok(ts) => lowered(c, ts, vs),
        Err(_) => None,
    }
}

/// A lowering result agrees with the grammar; a lexing error is reported with the lexer's
/// own message.
pub open spec fn lower_result(res: Result<IrExpr, String>, c: LowerCtx, text: Seq<char>, vs: Seq<Seq<char>>) -> bool {
    match res {
        Ok(e) => lowered_text(c, text, vs) == Some(ir_view(e)),
        Err(m) => {
            &&& lowered_text(c, text, vs) is None
            &&& (lex(text) is Err ==> m@ == lex(text)->Err_0)
        },
    }
}

/// The names of a function's parameters.
pub open spec fn param_names(f: Function) -> Seq<Seq<char>> {
    f.params@.map_values(|p: Param| p.name@)
}

/// Lowers an expression text against the given functions, intrinsics and types.
pub fn lower_in(expression: &str, variables: Vec<String>, env: &Env) -> (res: Result<IrExpr, String>)
    ensures
        lower_result(res, env_ctx(*env), expression@, names(variables@)),
{
    let tokens = match tokenize(expression) {
        Ok(t) => t,
        Err(e) => return Err(e),
    };
    lower_tokens(tokens, variables, env)
}

/// Lowers an expression text with the given variables in scope; calls resolve among the
/// program's functions and then the intrinsics.
pub fn lower_expression_with_variables(
    expression: &str,
    variables: Vec<String>,
    functions: &[Function],
    types: &[TypeDecl],
) -> (res: Result<IrExpr, String>)
    ensures
        exists|ins: Seq<Function>|
            is_intrinsic_list(ins) && #[trigger] lower_result(
                res,
                LowerCtx { fs: functions@, ins, types: types@ },
                expression@,
                names(variables@),
            ),
{
    let intrinsics = intrinsic_functions();
    let env = Env { functions, intrinsics: intrinsics.as_slice(), types };
    let res = lower_in(expression, variables, &env);
    assert(is_intrinsic_list(intrinsics@) && lower_result(res, LowerCtx { fs: functions@, ins: intrinsics@, types: types@ }, expression@, names(variables@)));
    res
}

/// The parameter names of a function, as strings.
pub fn parameter_names(function: &Function) -> (res: Vec<String>)
    ensures
        names(res@) == param_names(*function),
{
    let mut out: Vec<String> = Vec::new();
    let mut k: usize = 0;
    while k < function.params.len()
        invariant
            k <= function.params@.len(),
            names(out@) == param_names(*function).take(k as int),
        decreases function.params@.len() - k,
    {
        let ghost before = names(out@);
        let n = function.params[k].name.clone();
        out.push(n);
        assert(names(out@) =~= before.push(function.params@[k as int].name@));
        assert(param_names(*function).take(k + 1) =~= param_names(*function).take(k as int).push(function.params@[k as int].name@));
        k += 1;
    }
    assert(param_names(*function).take(function.params@.len() as int) =~= param_names(*function));
    out
}

/// Lowers an expression over a function's parameters.
pub fn lower_expression(expression: &str, function: &Function, functions: &[Function], types: &[TypeDecl]) -> (res: Result<IrExpr, String>)
    ensures
        exists|ins: Seq<Function>|
            is_intrinsic_list(ins) && #[trigger] lower_result(
                res,
                LowerCtx { fs: functions@, ins, types: types@ },
                expression@,
                param_names(*function),
            ),
{
    let variables = parameter_names(function);
    let ghost vs = names(variables@);
    let res = lower_expression_with_variables(expression, variables, functions, types);
    assert(vs == param_names(*function));
    res
}

/// Lowers a postcondition: the function's parameters and `result` are in scope.
pub fn lower_contract_expression(expression: &str, function: &Function, functions: &[Function], types: &[TypeDecl]) -> (res: Result<IrExpr, String>)
    ensures
        exists|ins: Seq<Function>|
            is_intrinsic_list(ins) && #[trigger] lower_result(
                res,
                LowerCtx { fs: functions@, ins, types: types@ },
                expression@,
                param_names(*function).push("result"@),
            ),
{
    let mut variables = parameter_names(function);
    let ghost before = names(variables@);
    let r = crate::text::owned("result");
    variables.push(r);
    assert(names(variables@) =~= before.push("result"@));
    lower_expression_with_variables(expression, variables, functions, types)
}

} // verus!
