//! The evaluator of Serow expressions: what an expression evaluates to under a set of
//! local variables, and what a call of a function of the program returns.
//!
//! The evaluator parses and evaluates in one pass, as a recursive descent over the
//! tokens. Every step takes a budget of steps that each nested step lowers by one; the
//! public entry points start from the largest budget a `u64` holds, which no evaluation
//! can use up.
use vstd::prelude::*;

use crate::eval::{body_start_from, branch_end_from, lex, resolves_to, SpecToken, Token};
use crate::model::{symbol_text, Function, TypeDecl};
use crate::text::{decimal, int_text, owned};
use crate::values::{
    coerced, list_element_type, same_type, show, text_order, type_accepts, type_of, val_equal, value_view, Val, Value,
};

verus! {

// ---------------------------------------------------------------------------
// The state of a parse
// ---------------------------------------------------------------------------
/// What the evaluator knows: the program's functions, the intrinsics, the declared types,
/// and how deep the calls are nested.
pub struct Env {
    pub fs: Seq<Function>,
    pub ins: Seq<Function>,
    pub types: Seq<TypeDecl>,
    pub depth: int,
}

/// Where a parse stands: the next token, the local variables, and the names that `set`
/// may update.
pub struct St {
    pub index: int,
    pub vars: Seq<(Seq<char>, Val)>,
    pub assignable: Seq<Seq<char>>,
}

/// The most loop iterations one `while` may run.
pub const WHILE_EVALUATION_LIMIT: usize = 10000;

/// The message when the budget of steps is used up.
pub open spec fn out_of_steps() -> Seq<char> {
    "Evaluation ran out of steps."@
}

/// The payload-free token a token stands for when only brackets and separators matter.
pub open spec fn plain_of(t: SpecToken) -> Token {
    match t {
        SpecToken::Plain(p) => p,
        _ => Token::Unit,
    }
}

pub open spec fn plains(ts: Seq<SpecToken>) -> Seq<Token> {
    ts.map_values(|t: SpecToken| plain_of(t))
}

pub open spec fn peek(ts: Seq<SpecToken>, st: St) -> Option<SpecToken> {
    if 0 <= st.index < ts.len() {
        Some(ts[st.index])
    } else {
        None
    }
}

/// The next token is the payload-free token `t`.
pub open spec fn at(ts: Seq<SpecToken>, st: St, t: Token) -> bool {
    peek(ts, st) == Some(SpecToken::Plain(t))
}

pub open spec fn adv(st: St) -> St {
    St { index: st.index + 1, ..st }
}

/// The name a payload-free token has in messages.
pub open spec fn plain_name(t: Token) -> Seq<char> {
    match t {
        Token::Int(_) => "Int"@,
        Token::Text(_) => "Text"@,
        Token::Ident(_) => "Ident"@,
        Token::Unit => "Unit"@,
        Token::True => "True"@,
        Token::False => "False"@,
        Token::If => "If"@,
        Token::Then => "Then"@,
        Token::Else => "Else"@,
        Token::Match => "Match"@,
        Token::Let => "Let"@,
        Token::Update => "Set"@,
        Token::While => "While"@,
        Token::Do => "Do"@,
        Token::With => "With"@,
        Token::And => "And"@,
        Token::Or => "Or"@,
        Token::Not => "Not"@,
        Token::Plus => "Plus"@,
        Token::Minus => "Minus"@,
        Token::Star => "Star"@,
        Token::SlashSlash => "SlashSlash"@,
        Token::Percent => "Percent"@,
        Token::EqEq => "EqEq"@,
        Token::NotEq => "NotEq"@,
        Token::Lt => "Lt"@,
        Token::LtEq => "LtEq"@,
        Token::Gt => "Gt"@,
        Token::GtEq => "GtEq"@,
        Token::Arrow => "Arrow"@,
        Token::Assign => "Assign"@,
        Token::Semicolon => "Semicolon"@,
        Token::LParen => "LParen"@,
        Token::RParen => "RParen"@,
        Token::LBracket => "LBracket"@,
        Token::RBracket => "RBracket"@,
        Token::LBrace => "LBrace"@,
        Token::RBrace => "RBrace"@,
        Token::Comma => "Comma"@,
        Token::Colon => "Colon"@,
        Token::Dot => "Dot"@,
    }
}

/// How a token is written in messages.
pub open spec fn token_debug(t: SpecToken) -> Seq<char> {
    match t {
        SpecToken::Int(n) => "Int("@ + int_text(n) + ")"@,
        SpecToken::Text(s) => "Text("@ + crate::values::debug_text(s) + ")"@,
        SpecToken::Ident(s) => "Ident("@ + crate::values::debug_text(s) + ")"@,
        SpecToken::Plain(p) => plain_name(p),
    }
}

pub open spec fn expect(ts: Seq<SpecToken>, st: St, t: Token) -> Result<St, Seq<char>> {
    if at(ts, st, t) {
        Ok(adv(st))
    } else {
        Err("Expected token "@ + plain_name(t) + "."@)
    }
}

pub open spec fn expect_ident(ts: Seq<SpecToken>, st: St) -> Result<(St, Seq<char>), Seq<char>> {
    match peek(ts, st) {
        Some(SpecToken::Ident(n)) => Ok((adv(st), n)),
        Some(t) => Err("Expected identifier, got "@ + token_debug(t) + "."@),
        None => Err("Expected identifier, got end of expression."@),
    }
}

pub open spec fn expect_end(ts: Seq<SpecToken>, st: St) -> Result<(), Seq<char>> {
    if st.index == ts.len() {
        Ok(())
    } else {
        match peek(ts, st) {
            Some(t) => Err("Unexpected trailing token "@ + token_debug(t) + "."@),
            None => Err("Unexpected trailing token."@),
        }
    }
}

// ---------------------------------------------------------------------------
// Local variables
// ---------------------------------------------------------------------------
/// The position of the variable `k`, or the number of variables.
pub open spec fn key_index(vars: Seq<(Seq<char>, Val)>, k: Seq<char>, i: int) -> int
    decreases vars.len() - i,
{
    if i < 0 || i >= vars.len() {
        vars.len() as int
    } else if vars[i].0 == k {
        i
    } else {
        key_index(vars, k, i + 1)
    }
}

pub open spec fn var_get(vars: Seq<(Seq<char>, Val)>, k: Seq<char>) -> Option<Val> {
    let i = key_index(vars, k, 0);
    if 0 <= i < vars.len() {
        Some(vars[i].1)
    } else {
        None
    }
}

pub open spec fn var_put(vars: Seq<(Seq<char>, Val)>, k: Seq<char>, v: Val) -> Seq<(Seq<char>, Val)> {
    let i = key_index(vars, k, 0);
    if 0 <= i < vars.len() {
        vars.update(i, (k, v))
    } else {
        vars.push((k, v))
    }
}

pub open spec fn var_del(vars: Seq<(Seq<char>, Val)>, k: Seq<char>) -> Seq<(Seq<char>, Val)> {
    let i = key_index(vars, k, 0);
    if 0 <= i < vars.len() {
        vars.remove(i)
    } else {
        vars
    }
}

// ---------------------------------------------------------------------------
// Operations on values
// ---------------------------------------------------------------------------
pub open spec fn as_int(v: Val) -> Result<int, Seq<char>> {
    match v {
        Val::Int(n) => Ok(n),
        _ => Err("Expected Int, got "@ + show(v) + "."@),
    }
}

pub open spec fn as_bool(v: Val) -> Result<bool, Seq<char>> {
    match v {
        Val::Bool(b) => Ok(b),
        _ => Err("Expected Bool, got "@ + show(v) + "."@),
    }
}

/// A result of integer arithmetic, refused outside 64 bits.
pub open spec fn int_result(n: int) -> Result<Val, Seq<char>> {
    if i64::MIN <= n <= i64::MAX {
        Ok(Val::Int(n))
    } else {
        Err("Integer overflow."@)
    }
}

/// Division that rounds toward zero.
pub open spec fn quotient(a: int, b: int) -> int {
    let q = (if a < 0 {
        -a
    } else {
        a
    }) / (if b < 0 {
        -b
    } else {
        b
    });
    if (a < 0) != (b < 0) {
        -q
    } else {
        q
    }
}

/// The remainder of `quotient`, with the sign of `a`.
pub open spec fn remainder(a: int, b: int) -> int {
    let r = (if a < 0 {
        -a
    } else {
        a
    }) % (if b < 0 {
        -b
    } else {
        b
    });
    if a < 0 {
        -r
    } else {
        r
    }
}

/// The comparison operators.
pub enum CompareOp {
    Eq,
    Ne,
    Le,
    Ge,
    Lt,
    Gt,
}

pub open spec fn compare(a: Val, op: CompareOp, b: Val) -> Result<bool, Seq<char>> {
    match op {
        CompareOp::Eq => Ok(val_equal(a, b)),
        CompareOp::Ne => Ok(!val_equal(a, b)),
        _ => {
            let o = match (a, b) {
                (Val::Int(x), Val::Int(y)) => Some(
                    if x < y {
                        -1int
                    } else if x > y {
                        1int
                    } else {
                        0int
                    },
                ),
                (Val::Text(x), Val::Text(y)) => Some(text_order(x, y)),
                _ => None,
            };
            match o {
                None => Err("Ordered comparisons require matching Int or Text values."@),
                Some(o) => Ok(
                    match op {
                        CompareOp::Lt => o < 0,
                        CompareOp::Le => o <= 0,
                        CompareOp::Gt => o > 0,
                        _ => o >= 0,
                    },
                ),
            }
        },
    }
}

proof fn lemma_text_order_less(a: Seq<char>, b: Seq<char>)
    ensures
        (crate::values::text_order(a, b) < 0) == crate::text::seq_less(a, b),
        (crate::values::text_order(a, b) == 0) == (a == b),
        (crate::values::text_order(a, b) > 0) == crate::text::seq_less(b, a),
    decreases a.len(),
{
    if a.len() > 0 && b.len() > 0 && a[0] == b[0] {
        lemma_text_order_less(a.drop_first(), b.drop_first());
        if a.drop_first() == b.drop_first() {
            assert(a =~= seq![a[0]] + a.drop_first());
            assert(b =~= seq![b[0]] + b.drop_first());
        }
    } else if a.len() == 0 && b.len() == 0 {
        assert(a =~= b);
    } else if a.len() > 0 && b.len() > 0 {
        assert(a != b);
    } else {
        assert(a.len() != b.len());
    }
}

/// The ordered comparisons order integers as integers and texts lexicographically, by
/// character: `<=` holds exactly when the left value is not greater than the right one (so
/// `x <= x` always holds), `<` exactly when it is smaller, and `>=` and `>` likewise.
pub proof fn law_ordered_comparisons(x: int, y: int, s: Seq<char>, t: Seq<char>)
    ensures
        compare(Val::Int(x), CompareOp::Le, Val::Int(y)) == Ok::<bool, Seq<char>>(x <= y),
        compare(Val::Int(x), CompareOp::Lt, Val::Int(y)) == Ok::<bool, Seq<char>>(x < y),
        compare(Val::Int(x), CompareOp::Ge, Val::Int(y)) == Ok::<bool, Seq<char>>(x >= y),
        compare(Val::Int(x), CompareOp::Gt, Val::Int(y)) == Ok::<bool, Seq<char>>(x > y),
        compare(Val::Text(s), CompareOp::Le, Val::Text(t)) == Ok::<bool, Seq<char>>(!crate::text::seq_less(t, s)),
        compare(Val::Text(s), CompareOp::Lt, Val::Text(t)) == Ok::<bool, Seq<char>>(crate::text::seq_less(s, t)),
        compare(Val::Text(s), CompareOp::Ge, Val::Text(t)) == Ok::<bool, Seq<char>>(!crate::text::seq_less(s, t)),
        compare(Val::Text(s), CompareOp::Gt, Val::Text(t)) == Ok::<bool, Seq<char>>(crate::text::seq_less(t, s)),
        compare(Val::Text(s), CompareOp::Le, Val::Text(s)) == Ok::<bool, Seq<char>>(true),
        compare(Val::Int(x), CompareOp::Eq, Val::Int(y)) == Ok::<bool, Seq<char>>(x == y),
        compare(Val::Int(x), CompareOp::Ne, Val::Int(y)) == Ok::<bool, Seq<char>>(x != y),
        compare(Val::Text(s), CompareOp::Eq, Val::Text(t)) == Ok::<bool, Seq<char>>(s == t),
        compare(Val::Text(s), CompareOp::Ne, Val::Text(t)) == Ok::<bool, Seq<char>>(s != t),
{
    lemma_text_order_less(s, t);
    lemma_text_order_less(s, s);
    crate::text::lemma_seq_less_total(s, t);
}

pub open spec fn record_field(v: Val, field: Seq<char>) -> Result<Val, Seq<char>> {
    match v {
        Val::Record(t, fs) => match field_get(fs, field, 0) {
            Some(x) => Ok(x),
            None => Err("Record `"@ + t + "` has no field `"@ + field + "`."@),
        },
        _ => Err("Field access `."@ + field + "` requires a record, got "@ + show(v) + "."@),
    }
}

/// The value of the first field called `name` from position `i` on.
pub open spec fn field_get(fs: Seq<(Seq<char>, Val)>, name: Seq<char>, i: int) -> Option<Val>
    decreases fs.len() - i,
{
    if i < 0 || i >= fs.len() {
        None
    } else if fs[i].0 == name {
        Some(fs[i].1)
    } else {
        field_get(fs, name, i + 1)
    }
}

/// The first record type called `name`.
pub open spec fn record_decl(types: Seq<TypeDecl>, name: Seq<char>, i: int) -> Option<TypeDecl>
    decreases types.len() - i,
{
    if i < 0 || i >= types.len() {
        None
    } else if types[i].name@ == name && types[i].variants@.len() == 0 {
        Some(types[i])
    } else {
        record_decl(types, name, i + 1)
    }
}

/// The declared type of the first field called `name`.
pub open spec fn declared_field(t: TypeDecl, name: Seq<char>, i: int) -> Option<Seq<char>>
    decreases t.fields@.len() - i,
{
    if i < 0 || i >= t.fields@.len() {
        None
    } else if t.fields@[i].name@ == name {
        Some(t.fields@[i].type_text@)
    } else {
        declared_field(t, name, i + 1)
    }
}

/// The enum types, among the first `n`, that declare the variant.
pub open spec fn enums_with(types: Seq<TypeDecl>, variant: Seq<char>, n: int) -> Seq<Seq<char>>
    decreases n,
{
    if n <= 0 || n > types.len() {
        seq![]
    } else {
        let rest = enums_with(types, variant, n - 1);
        let t = types[n - 1];
        if t.variants@.len() > 0 && crate::diagnostic::strs(t.variants@).contains(variant) {
            rest.push(t.name@)
        } else {
            rest
        }
    }
}

/// The enum type a bare name is a variant of: none, one, or an error when several
/// declare it.
pub open spec fn enum_variant(types: Seq<TypeDecl>, variant: Seq<char>) -> Result<Option<Seq<char>>, Seq<char>> {
    let m = enums_with(types, variant, types.len() as int);
    if m.len() == 0 {
        Ok(None)
    } else if m.len() == 1 {
        Ok(Some(m[0]))
    } else {
        Err("Enum variant `"@ + variant + "` is ambiguous across enum types: "@ + crate::text::join_spec(m, ", "@) + "."@)
    }
}

/// The first position of the close parenthesis that ends a `while` body.
pub open spec fn rparen_from(ts: Seq<SpecToken>, i: int, depth: int) -> Result<int, Seq<char>>
    decreases ts.len() - i,
{
    if i < 0 || i >= ts.len() {
        Err("Expected token RParen to close while body."@)
    } else if ts[i] == SpecToken::Plain(Token::LParen) {
        rparen_from(ts, i + 1, depth + 1)
    } else if ts[i] == SpecToken::Plain(Token::RParen) {
        if depth == 0 {
            Ok(i)
        } else {
            rparen_from(ts, i + 1, depth - 1)
        }
    } else {
        rparen_from(ts, i + 1, depth)
    }
}

// ---------------------------------------------------------------------------
// Intrinsics
// ---------------------------------------------------------------------------
/// A call's value and the arguments it bound, by parameter name.
pub open spec fn arity_error(name: Seq<char>, n: nat, got: nat) -> Seq<char> {
    "Function `"@ + name + "` expected "@ + decimal(n) + " arguments, got "@ + decimal(got) + "."@
}

pub open spec fn intrinsic_call(sym: Seq<char>, name: Seq<char>, args: Seq<Val>) -> Result<(Val, Seq<(Seq<char>, Val)>), Seq<char>> {
    if sym == crate::intrinsics::PRINT_SYMBOL@ {
        if args.len() != 1 {
            Err(arity_error(name, 1, args.len()))
        } else {
            match args[0] {
                Val::Text(_) => Ok((Val::Unit, seq![("text"@, args[0])])),
                _ => Err("Function `"@ + name + "` argument 1 expected Text, got "@ + show(args[0]) + "."@),
            }
        }
    } else if sym == crate::intrinsics::READ_LINE_SYMBOL@ {
        if args.len() != 0 {
            Err(arity_error(name, 0, args.len()))
        } else {
            Ok((Val::Text(seq![]), seq![]))
        }
    } else if sym == crate::intrinsics::LEN_SYMBOL@ {
        if args.len() != 1 {
            Err(arity_error(name, 1, args.len()))
        } else {
            match args[0] {
                Val::List(_, es) => if es.len() <= i64::MAX {
                    Ok((Val::Int(es.len() as int), seq![("list"@, args[0])]))
                } else {
                    Err("Integer overflow."@)
                },
                _ => Err("Function `"@ + name + "` argument 1 expected List<T>, got "@ + show(args[0]) + "."@),
            }
        }
    } else if args.len() != 2 {
        Err(arity_error(name, 2, args.len()))
    } else {
        let list = args[0];
        let value = args[1];
        match list {
            Val::List(et, es) => if sym == crate::intrinsics::CONTAINS_SYMBOL@ {
                if et is Some && !type_accepts(type_of(value), et->0) {
                    Err("Function `"@ + name + "` argument 2 expected "@ + et->0 + ", got "@ + type_of(value) + "."@)
                } else {
                    Ok((Val::Bool(es.contains(value)), seq![("list"@, list), ("value"@, value)]))
                }
            } else {
                if et is Some && !type_accepts(type_of(value), et->0) {
                    Err("Function `"@ + name + "` argument 2 expected "@ + et->0 + ", got "@ + type_of(value) + "."@)
                } else {
                    let t = match et {
                        Some(t) => t,
                        None => type_of(value),
                    };
                    Ok((Val::List(Some(t), es.push(value)), seq![("list"@, list), ("value"@, value)]))
                }
            },
            _ => Err("Function `"@ + name + "` argument 1 expected List<T>, got "@ + show(list) + "."@),
        }
    }
}

/// The symbols of the intrinsics.
pub open spec fn is_intrinsic_symbol(sym: Seq<char>) -> bool {
    sym == crate::intrinsics::PRINT_SYMBOL@ || sym == crate::intrinsics::READ_LINE_SYMBOL@ || sym
        == crate::intrinsics::LEN_SYMBOL@ || sym == crate::intrinsics::CONTAINS_SYMBOL@ || sym
        == crate::intrinsics::PUSH_SYMBOL@
}

/// The function a reference names, or the message of `resolve_function`.
pub open spec fn resolved(fs: Seq<Function>, ins: Seq<Function>, text: Seq<char>) -> Result<Function, Seq<char>> {
    let m = crate::eval::matching(fs, text);
    let im = crate::eval::matching(ins, text);
    if m.len() == 1 {
        Ok(m[0])
    } else if m.len() > 1 {
        Err(crate::eval::ambiguous_message(text, m))
    } else if im.len() == 1 {
        Ok(im[0])
    } else if im.len() > 1 {
        Err(crate::eval::ambiguous_message(text, im))
    } else {
        Err("Unknown function `"@ + text + "`."@)
    }
}


// ---------------------------------------------------------------------------
// Parsing and evaluating in one pass
// ---------------------------------------------------------------------------
/// The names without the last one, as popping it leaves them.
pub open spec fn pop_last(s: Seq<Seq<char>>) -> Seq<Seq<char>> {
    if s.len() > 0 {
        s.drop_last()
    } else {
        s
    }
}

/// A sequence: `let`, `set`, `while`, or an expression, each possibly followed by `;` and
/// the rest of the sequence.
pub open spec fn p_seq(e: Env, ts: Seq<SpecToken>, st: St, fuel: nat) -> Result<(St, Val), Seq<char>>
    decreases fuel, 0nat,
{
    if fuel == 0 {
        Err(out_of_steps())
    } else if at(ts, st, Token::Let) {
        match expect_ident(ts, adv(st)) {
            Err(m) => Err(m),
            Ok((s1, name)) => match expect(ts, s1, Token::Assign) {
                Err(m) => Err(m),
                Ok(s2) => match p_if(e, ts, s2, (fuel - 1) as nat) {
                    Err(m) => Err(m),
                    Ok((s3, value)) => match expect(ts, s3, Token::Semicolon) {
                        Err(m) => Err(m),
                        Ok(s4) => {
                            let previous = var_get(s4.vars, name);
                            let s5 = St { vars: var_put(s4.vars, name, value), assignable: s4.assignable.push(name), ..s4 };
                            match p_seq(e, ts, s5, (fuel - 1) as nat) {
                                Err(m) => Err(m),
                                Ok((s6, v)) => Ok((
                                    St {
                                        vars: match previous {
                                            Some(pv) => var_put(s6.vars, name, pv),
                                            None => var_del(s6.vars, name),
                                        },
                                        assignable: pop_last(s6.assignable),
                                        ..s6
                                    },
                                    v,
                                )),
                            }
                        },
                    },
                },
            },
        }
    } else if at(ts, st, Token::Update) {
        match expect_ident(ts, adv(st)) {
            Err(m) => Err(m),
            Ok((s1, name)) => match expect(ts, s1, Token::Assign) {
                Err(m) => Err(m),
                Ok(s2) => if !s2.assignable.contains(name) {
                    Err("`set` can only update an existing local `let` binding, got `"@ + name + "`."@)
                } else {
                    match p_if(e, ts, s2, (fuel - 1) as nat) {
                        Err(m) => Err(m),
                        Ok((s3, value)) => match var_get(s3.vars, name) {
                            None => Err("Unknown variable `"@ + name + "`."@),
                            Some(current) => if !same_type(current, value) {
                                Err("`set "@ + name + "` expected "@ + type_of(current) + ", got "@ + type_of(value) + "."@)
                            } else {
                                p_after(e, ts, St { vars: var_put(s3.vars, name, value), ..s3 }, Val::Unit, (fuel - 1) as nat)
                            },
                        },
                    }
                },
            },
        }
    } else if at(ts, st, Token::While) {
        let s1 = adv(st);
        match p_seq(e, ts, s1, (fuel - 1) as nat) {
            Err(m) => Err(m),
            Ok((s2, first)) => match expect(ts, s2, Token::Do) {
                Err(m) => Err(m),
                Ok(s3) => match expect(ts, s3, Token::LParen) {
                    Err(m) => Err(m),
                    Ok(s4) => match rparen_from(ts, s4.index, 0) {
                        Err(m) => Err(m),
                        Ok(body_end) => match expect(ts, St { index: body_end, ..s4 }, Token::RParen) {
                            Err(m) => Err(m),
                            Ok(s5) => match while_loop(
                                e,
                                ts.subrange(s1.index, s2.index),
                                ts.subrange(s4.index, body_end),
                                s5.vars,
                                s5.assignable,
                                first,
                                0,
                                (fuel - 1) as nat,
                            ) {
                                Err(m) => Err(m),
                                Ok(vars) => p_after(e, ts, St { vars: vars, ..s5 }, Val::Unit, (fuel - 1) as nat),
                            },
                        },
                    },
                },
            },
        }
    } else {
        match p_if(e, ts, st, (fuel - 1) as nat) {
            Err(m) => Err(m),
            Ok((s1, first)) => p_after(e, ts, s1, first, (fuel - 1) as nat),
        }
    }
}

/// The iterations of a `while` loop from the `it`th on, given the value of the condition:
/// the variables when it ends.
pub open spec fn while_loop(
    e: Env,
    cond: Seq<SpecToken>,
    body: Seq<SpecToken>,
    vars: Seq<(Seq<char>, Val)>,
    assignable: Seq<Seq<char>>,
    c: Val,
    it: nat,
    fuel: nat,
) -> Result<Seq<(Seq<char>, Val)>, Seq<char>>
    decreases fuel, 0nat,
{
    if fuel == 0 {
        Err(out_of_steps())
    } else {
        match c {
            Val::Bool(b) => {
                if !b {
                    Ok(vars)
                } else if it >= WHILE_EVALUATION_LIMIT {
                    Err("While evaluation limit exceeded after 10000 iterations."@)
                } else {
                    match sub_parse(e, body, vars, assignable, (fuel - 1) as nat) {
                        Err(m) => Err(m),
                        Ok((v1, bv)) => {
                            if bv != (Val::Unit) {
                                Err("While body must be Unit, got "@ + show(bv) + "."@)
                            } else {
                                match sub_parse(e, cond, v1, assignable, (fuel - 1) as nat) {
                                    Err(m) => Err(m),
                                    Ok((_, c2)) => while_loop(e, cond, body, v1, assignable, c2, it + 1, (fuel - 1) as nat),
                                }
                            }
                        },
                    }
                }
            },
            _ => Err("While condition must be Bool, got "@ + show(c) + "."@),
        }
    }
}

/// A whole token list parsed as one expression, with a copy of the variables: the
/// variables after it, and its value.
pub open spec fn sub_parse(
    e: Env,
    ts: Seq<SpecToken>,
    vars: Seq<(Seq<char>, Val)>,
    assignable: Seq<Seq<char>>,
    fuel: nat,
) -> Result<(Seq<(Seq<char>, Val)>, Val), Seq<char>>
    decreases fuel, 0nat,
{
    if fuel == 0 {
        Err(out_of_steps())
    } else {
        match p_seq(e, ts, St { index: 0, vars: vars, assignable: assignable }, (fuel - 1) as nat) {
            Err(m) => Err(m),
            Ok((s1, v)) => match expect_end(ts, s1) {
                Err(m) => Err(m),
                Ok(_) => Ok((s1.vars, v)),
            },
        }
    }
}

/// After a first expression: `;` and the rest of the sequence, whose first part must be
/// `unit`, or the first expression alone.
pub open spec fn p_after(e: Env, ts: Seq<SpecToken>, st: St, first: Val, fuel: nat) -> Result<(St, Val), Seq<char>>
    decreases fuel, 0nat,
{
    if fuel == 0 {
        Err(out_of_steps())
    } else if at(ts, st, Token::Semicolon) {
        if first != (Val::Unit) {
            Err("Sequence left expression must be Unit, got "@ + show(first) + "."@)
        } else {
            p_seq(e, ts, adv(st), (fuel - 1) as nat)
        }
    } else {
        Ok((st, first))
    }
}

/// `if c then a else b`, both branches evaluated, or an `or` expression.
pub open spec fn p_if(e: Env, ts: Seq<SpecToken>, st: St, fuel: nat) -> Result<(St, Val), Seq<char>>
    decreases fuel, 0nat,
{
    if fuel == 0 {
        Err(out_of_steps())
    } else if at(ts, st, Token::If) {
        match p_seq(e, ts, adv(st), (fuel - 1) as nat) {
            Err(m) => Err(m),
            Ok((s1, c)) => match expect(ts, s1, Token::Then) {
                Err(m) => Err(m),
                Ok(s2) => match p_seq(e, ts, s2, (fuel - 1) as nat) {
                    Err(m) => Err(m),
                    Ok((s3, a)) => match expect(ts, s3, Token::Else) {
                        Err(m) => Err(m),
                        Ok(s4) => match p_seq(e, ts, s4, (fuel - 1) as nat) {
                            Err(m) => Err(m),
                            Ok((s5, b)) => match c {
                                Val::Bool(true) => Ok((s5, a)),
                                Val::Bool(false) => Ok((s5, b)),
                                _ => Err("If condition must be Bool, got "@ + show(c) + "."@),
                            },
                        },
                    },
                },
            },
        }
    } else {
        p_or(e, ts, st, (fuel - 1) as nat)
    }
}

pub open spec fn p_or(e: Env, ts: Seq<SpecToken>, st: St, fuel: nat) -> Result<(St, Val), Seq<char>>
    decreases fuel, 0nat,
{
    if fuel == 0 {
        Err(out_of_steps())
    } else {
        match p_and(e, ts, st, (fuel - 1) as nat) {
            Err(m) => Err(m),
            Ok((s1, left)) => or_rest(e, ts, s1, left, (fuel - 1) as nat),
        }
    }
}

/// Logical `or` of `left` with each further `or` operand; the right operand is checked
/// only when the left one is false.
pub open spec fn or_rest(e: Env, ts: Seq<SpecToken>, st: St, left: Val, fuel: nat) -> Result<(St, Val), Seq<char>>
    decreases fuel, 0nat,
{
    if fuel == 0 {
        Err(out_of_steps())
    } else if at(ts, st, Token::Or) {
        match p_and(e, ts, adv(st), (fuel - 1) as nat) {
            Err(m) => Err(m),
            Ok((s1, right)) => match as_bool(left) {
                Err(m) => Err(m),
                Ok(true) => or_rest(e, ts, s1, Val::Bool(true), (fuel - 1) as nat),
                Ok(false) => match as_bool(right) {
                    Err(m) => Err(m),
                    Ok(b) => or_rest(e, ts, s1, Val::Bool(b), (fuel - 1) as nat),
                },
            },
        }
    } else {
        Ok((st, left))
    }
}

pub open spec fn p_and(e: Env, ts: Seq<SpecToken>, st: St, fuel: nat) -> Result<(St, Val), Seq<char>>
    decreases fuel, 0nat,
{
    if fuel == 0 {
        Err(out_of_steps())
    } else {
        match p_compare(e, ts, st, (fuel - 1) as nat) {
            Err(m) => Err(m),
            Ok((s1, left)) => and_rest(e, ts, s1, left, (fuel - 1) as nat),
        }
    }
}

/// Logical `and` of `left` with each further `and` operand; the right operand is checked
/// only when the left one is true.
pub open spec fn and_rest(e: Env, ts: Seq<SpecToken>, st: St, left: Val, fuel: nat) -> Result<(St, Val), Seq<char>>
    decreases fuel, 0nat,
{
    if fuel == 0 {
        Err(out_of_steps())
    } else if at(ts, st, Token::And) {
        match p_compare(e, ts, adv(st), (fuel - 1) as nat) {
            Err(m) => Err(m),
            Ok((s1, right)) => match as_bool(left) {
                Err(m) => Err(m),
                Ok(false) => and_rest(e, ts, s1, Val::Bool(false), (fuel - 1) as nat),
                Ok(true) => match as_bool(right) {
                    Err(m) => Err(m),
                    Ok(b) => and_rest(e, ts, s1, Val::Bool(b), (fuel - 1) as nat),
                },
            },
        }
    } else {
        Ok((st, left))
    }
}

/// The comparison operator the next token is.
pub open spec fn compare_op(ts: Seq<SpecToken>, st: St) -> Option<CompareOp> {
    if at(ts, st, Token::EqEq) {
        Some(CompareOp::Eq)
    } else if at(ts, st, Token::NotEq) {
        Some(CompareOp::Ne)
    } else if at(ts, st, Token::LtEq) {
        Some(CompareOp::Le)
    } else if at(ts, st, Token::GtEq) {
        Some(CompareOp::Ge)
    } else if at(ts, st, Token::Lt) {
        Some(CompareOp::Lt)
    } else if at(ts, st, Token::Gt) {
        Some(CompareOp::Gt)
    } else {
        None
    }
}

pub open spec fn p_compare(e: Env, ts: Seq<SpecToken>, st: St, fuel: nat) -> Result<(St, Val), Seq<char>>
    decreases fuel, 0nat,
{
    if fuel == 0 {
        Err(out_of_steps())
    } else {
        match p_add(e, ts, st, (fuel - 1) as nat) {
            Err(m) => Err(m),
            Ok((s1, left)) => compare_rest(e, ts, s1, left, (fuel - 1) as nat),
        }
    }
}

pub open spec fn compare_rest(e: Env, ts: Seq<SpecToken>, st: St, left: Val, fuel: nat) -> Result<(St, Val), Seq<char>>
    decreases fuel, 0nat,
{
    if fuel == 0 {
        Err(out_of_steps())
    } else {
        match compare_op(ts, st) {
            None => Ok((st, left)),
            Some(op) => match p_add(e, ts, adv(st), (fuel - 1) as nat) {
                Err(m) => Err(m),
                Ok((s1, right)) => match compare(left, op, right) {
                    Err(m) => Err(m),
                    Ok(b) => compare_rest(e, ts, s1, Val::Bool(b), (fuel - 1) as nat),
                },
            },
        }
    }
}

pub open spec fn p_add(e: Env, ts: Seq<SpecToken>, st: St, fuel: nat) -> Result<(St, Val), Seq<char>>
    decreases fuel, 0nat,
{
    if fuel == 0 {
        Err(out_of_steps())
    } else {
        match p_mul(e, ts, st, (fuel - 1) as nat) {
            Err(m) => Err(m),
            Ok((s1, left)) => add_rest(e, ts, s1, left, (fuel - 1) as nat),
        }
    }
}

/// `left + right` on integers or texts.
pub open spec fn plus(left: Val, right: Val) -> Result<Val, Seq<char>> {
    match (left, right) {
        (Val::Int(a), Val::Int(b)) => int_result(a + b),
        (Val::Text(a), Val::Text(b)) => Ok(Val::Text(a + b)),
        _ => Err("`+` requires Int+Int or Text+Text."@),
    }
}

/// `left - right` on integers.
pub open spec fn minus(left: Val, right: Val) -> Result<Val, Seq<char>> {
    match as_int(left) {
        Err(m) => Err(m),
        Ok(a) => match as_int(right) {
            Err(m) => Err(m),
            Ok(b) => int_result(a - b),
        },
    }
}

pub open spec fn add_rest(e: Env, ts: Seq<SpecToken>, st: St, left: Val, fuel: nat) -> Result<(St, Val), Seq<char>>
    decreases fuel, 0nat,
{
    if fuel == 0 {
        Err(out_of_steps())
    } else if at(ts, st, Token::Plus) || at(ts, st, Token::Minus) {
        match p_mul(e, ts, adv(st), (fuel - 1) as nat) {
            Err(m) => Err(m),
            Ok((s1, right)) => match (if at(ts, st, Token::Plus) {
                plus(left, right)
            } else {
                minus(left, right)
            }) {
                Err(m) => Err(m),
                Ok(v) => add_rest(e, ts, s1, v, (fuel - 1) as nat),
            },
        }
    } else {
        Ok((st, left))
    }
}

pub open spec fn p_mul(e: Env, ts: Seq<SpecToken>, st: St, fuel: nat) -> Result<(St, Val), Seq<char>>
    decreases fuel, 0nat,
{
    if fuel == 0 {
        Err(out_of_steps())
    } else {
        match p_unary(e, ts, st, (fuel - 1) as nat) {
            Err(m) => Err(m),
            Ok((s1, left)) => mul_rest(e, ts, s1, left, (fuel - 1) as nat),
        }
    }
}

/// `left * right`, `left // right` or `left % right` on integers; the divisor is checked
/// first.
pub open spec fn times(op: Token, left: Val, right: Val) -> Result<Val, Seq<char>> {
    if op == Token::Star {
        match as_int(left) {
            Err(m) => Err(m),
            Ok(a) => match as_int(right) {
                Err(m) => Err(m),
                Ok(b) => int_result(a * b),
            },
        }
    } else {
        match as_int(right) {
            Err(m) => Err(m),
            Ok(b) => if b == 0 {
                if op == Token::SlashSlash {
                    Err("Integer division by zero."@)
                } else {
                    Err("Modulo by zero."@)
                }
            } else {
                match as_int(left) {
                    Err(m) => Err(m),
                    Ok(a) => if op == Token::SlashSlash {
                        int_result(quotient(a, b))
                    } else if a == i64::MIN && b == -1 {
                        Err("Integer overflow."@)
                    } else {
                        int_result(remainder(a, b))
                    },
                }
            },
        }
    }
}

pub open spec fn mul_op(ts: Seq<SpecToken>, st: St) -> Option<Token> {
    if at(ts, st, Token::Star) {
        Some(Token::Star)
    } else if at(ts, st, Token::SlashSlash) {
        Some(Token::SlashSlash)
    } else if at(ts, st, Token::Percent) {
        Some(Token::Percent)
    } else {
        None
    }
}

pub open spec fn mul_rest(e: Env, ts: Seq<SpecToken>, st: St, left: Val, fuel: nat) -> Result<(St, Val), Seq<char>>
    decreases fuel, 0nat,
{
    if fuel == 0 {
        Err(out_of_steps())
    } else {
        match mul_op(ts, st) {
            None => Ok((st, left)),
            Some(op) => match p_unary(e, ts, adv(st), (fuel - 1) as nat) {
                Err(m) => Err(m),
                Ok((s1, right)) => match times(op, left, right) {
                    Err(m) => Err(m),
                    Ok(v) => mul_rest(e, ts, s1, v, (fuel - 1) as nat),
                },
            },
        }
    }
}

pub open spec fn p_unary(e: Env, ts: Seq<SpecToken>, st: St, fuel: nat) -> Result<(St, Val), Seq<char>>
    decreases fuel, 0nat,
{
    if fuel == 0 {
        Err(out_of_steps())
    } else if at(ts, st, Token::Minus) {
        match p_unary(e, ts, adv(st), (fuel - 1) as nat) {
            Err(m) => Err(m),
            Ok((s1, v)) => match as_int(v) {
                Err(m) => Err(m),
                Ok(n) => match int_result(-n) {
                    Err(m) => Err(m),
                    Ok(w) => Ok((s1, w)),
                },
            },
        }
    } else if at(ts, st, Token::Not) {
        match p_unary(e, ts, adv(st), (fuel - 1) as nat) {
            Err(m) => Err(m),
            Ok((s1, v)) => match as_bool(v) {
                Err(m) => Err(m),
                Ok(b) => Ok((s1, Val::Bool(!b))),
            },
        }
    } else {
        match p_primary(e, ts, st, (fuel - 1) as nat) {
            Err(m) => Err(m),
            Ok((s1, v)) => postfix_rest(e, ts, s1, v, (fuel - 1) as nat),
        }
    }
}

/// Field accesses `.f` and record updates `with { .. }` after a primary expression.
pub open spec fn postfix_rest(e: Env, ts: Seq<SpecToken>, st: St, v: Val, fuel: nat) -> Result<(St, Val), Seq<char>>
    decreases fuel, 0nat,
{
    if fuel == 0 {
        Err(out_of_steps())
    } else if at(ts, st, Token::Dot) {
        match expect_ident(ts, adv(st)) {
            Err(m) => Err(m),
            Ok((s1, field)) => match record_field(v, field) {
                Err(m) => Err(m),
                Ok(w) => postfix_rest(e, ts, s1, w, (fuel - 1) as nat),
            },
        }
    } else if at(ts, st, Token::With) {
        match p_update(e, ts, adv(st), v, (fuel - 1) as nat) {
            Err(m) => Err(m),
            Ok((s1, w)) => postfix_rest(e, ts, s1, w, (fuel - 1) as nat),
        }
    } else {
        Ok((st, v))
    }
}

/// The dotted parts of a name after its first part.
pub open spec fn name_parts(ts: Seq<SpecToken>, st: St, parts: Seq<Seq<char>>) -> Result<(St, Seq<Seq<char>>), Seq<char>>
    decreases ts.len() - st.index,
{
    if at(ts, st, Token::Dot) {
        match expect_ident(ts, adv(st)) {
            Err(m) => Err(m),
            Ok((s1, p)) => name_parts(ts, s1, parts.push(p)),
        }
    } else {
        Ok((st, parts))
    }
}

/// A primary expression: a literal, a parenthesized expression, a list, a match, a call,
/// a record construction, a variable, an enum variant, or a variable's fields.
pub open spec fn p_primary(e: Env, ts: Seq<SpecToken>, st: St, fuel: nat) -> Result<(St, Val), Seq<char>>
    decreases fuel, 0nat,
{
    if fuel == 0 {
        Err(out_of_steps())
    } else {
        match peek(ts, st) {
            None => Err("Unexpected end of expression."@),
            Some(SpecToken::Int(n)) => Ok((adv(st), Val::Int(n))),
            Some(SpecToken::Text(t)) => Ok((adv(st), Val::Text(t))),
            Some(SpecToken::Ident(first)) => p_name(e, ts, adv(st), first, (fuel - 1) as nat),
            Some(SpecToken::Plain(t)) => if t == Token::Unit {
                Ok((adv(st), Val::Unit))
            } else if t == Token::True {
                Ok((adv(st), Val::Bool(true)))
            } else if t == Token::False {
                Ok((adv(st), Val::Bool(false)))
            } else if t == Token::Match {
                p_match(e, ts, adv(st), (fuel - 1) as nat)
            } else if t == Token::LParen {
                match p_seq(e, ts, adv(st), (fuel - 1) as nat) {
                    Err(m) => Err(m),
                    Ok((s1, v)) => match expect(ts, s1, Token::RParen) {
                        Err(m) => Err(m),
                        Ok(s2) => Ok((s2, v)),
                    },
                }
            } else if t == Token::LBracket {
                if at(ts, adv(st), Token::RBracket) {
                    Ok((adv(adv(st)), Val::List(None, seq![])))
                } else {
                    list_items(e, ts, adv(st), None, seq![], (fuel - 1) as nat)
                }
            } else {
                Err("Unexpected token "@ + token_debug(SpecToken::Plain(t)) + "."@)
            },
        }
    }
}

/// A name after its first part: a call, a record construction, a variable, an enum
/// variant, or a variable's fields.
pub open spec fn p_name(e: Env, ts: Seq<SpecToken>, st: St, first: Seq<char>, fuel: nat) -> Result<(St, Val), Seq<char>>
    decreases fuel, 0nat,
{
    if fuel == 0 {
        Err(out_of_steps())
    } else {
    match name_parts(ts, st, seq![first]) {
            Err(m) => Err(m),
            Ok((s1, parts)) => {
                let name = crate::text::join_spec(parts, "."@);
                if at(ts, s1, Token::LParen) {
                    match call_args(e, ts, adv(s1), seq![], (fuel - 1) as nat) {
                        Err(m) => Err(m),
                        Ok((s2, args)) => match ev_call(e, name, args, (fuel - 1) as nat) {
                            Err(m) => Err(m),
                            Ok((v, _)) => Ok((s2, v)),
                        },
                    }
                } else if at(ts, s1, Token::LBrace) {
                    if parts.len() != 1 {
                        Err("Record construction requires an unqualified type name, got `"@ + name + "`."@)
                    } else {
                        p_construct(e, ts, adv(s1), name, (fuel - 1) as nat)
                    }
                } else if parts.len() == 1 {
                    match bare_name(e.types, s1.vars, first) {
                        Err(m) => Err(m),
                        Ok(v) => Ok((s1, v)),
                    }
                } else {
                    match var_get(s1.vars, first) {
                        None => Err("Unknown variable `"@ + first + "`."@),
                        Some(v) => match fields_of(v, parts, 1) {
                            Err(m) => Err(m),
                            Ok(w) => Ok((s1, w)),
                        },
                    }
                }
            },
        }
    }
}

/// A name of one part: a local variable, or a variant of the one enum type that declares
/// it, but not both.
pub open spec fn bare_name(types: Seq<TypeDecl>, vars: Seq<(Seq<char>, Val)>, first: Seq<char>) -> Result<Val, Seq<char>> {
    match enum_variant(types, first) {
        Err(m) => Err(m),
        Ok(variant) => match (var_get(vars, first), variant) {
            (Some(_), Some(t)) => Err(
                "Name `"@ + first + "` is ambiguous between a local variable and enum variant `"@ + t + "."@ + first
                    + "`."@,
            ),
            (Some(v), None) => Ok(v),
            (None, Some(t)) => Ok(Val::Enum(t, first)),
            (None, None) => Err("Unknown variable `"@ + first + "`."@),
        },
    }
}

/// The fields named by `parts[i..]`, read one after the other from `v`.
pub open spec fn fields_of(v: Val, parts: Seq<Seq<char>>, i: int) -> Result<Val, Seq<char>>
    decreases parts.len() - i,
{
    if i < 0 || i >= parts.len() {
        Ok(v)
    } else {
        match record_field(v, parts[i]) {
            Err(m) => Err(m),
            Ok(w) => fields_of(w, parts, i + 1),
        }
    }
}

/// The arguments of a call, after its `(`, up to its `)`.
pub open spec fn call_args(e: Env, ts: Seq<SpecToken>, st: St, args: Seq<Val>, fuel: nat) -> Result<(St, Seq<Val>), Seq<char>>
    decreases fuel, 0nat,
{
    if fuel == 0 {
        Err(out_of_steps())
    } else if args.len() == 0 && at(ts, st, Token::RParen) {
        Ok((adv(st), args))
    } else {
        match p_seq(e, ts, st, (fuel - 1) as nat) {
            Err(m) => Err(m),
            Ok((s1, v)) => if at(ts, s1, Token::RParen) {
                Ok((adv(s1), args.push(v)))
            } else {
                match expect(ts, s1, Token::Comma) {
                    Err(m) => Err(m),
                    Ok(s2) => call_args(e, ts, s2, args.push(v), (fuel - 1) as nat),
                }
            },
        }
    }
}

/// The elements of a non-empty list literal, after its `[`.
pub open spec fn list_items(
    e: Env,
    ts: Seq<SpecToken>,
    st: St,
    et: Option<Seq<char>>,
    items: Seq<Val>,
    fuel: nat,
) -> Result<(St, Val), Seq<char>>
    decreases fuel, 0nat,
{
    if fuel == 0 {
        Err(out_of_steps())
    } else {
        match p_seq(e, ts, st, (fuel - 1) as nat) {
            Err(m) => Err(m),
            Ok((s1, v)) => {
                let vt = type_of(v);
                if et is Some && !type_accepts(vt, et->0) {
                    Err("List literal elements must have one type, got "@ + et->0 + " and "@ + vt + "."@)
                } else {
                    let et2 = if et is Some {
                        et
                    } else {
                        Some(vt)
                    };
                    if at(ts, s1, Token::RBracket) {
                        Ok((adv(s1), Val::List(et2, items.push(v))))
                    } else {
                        match expect(ts, s1, Token::Comma) {
                            Err(m) => Err(m),
                            Ok(s2) => list_items(e, ts, s2, et2, items.push(v), (fuel - 1) as nat),
                        }
                    }
                }
            },
        }
    }
}

/// `Name { f: v, .. }` after its `{`: every declared field given once, each value of the
/// declared type; the fields in the order of the declaration.
pub open spec fn p_construct(e: Env, ts: Seq<SpecToken>, st: St, name: Seq<char>, fuel: nat) -> Result<(St, Val), Seq<char>>
    decreases fuel, 0nat,
{
    if fuel == 0 {
        Err(out_of_steps())
    } else {
        match record_decl(e.types, name, 0) {
            None => Err("Unknown record type `"@ + name + "`."@),
            Some(decl) => if at(ts, st, Token::RBrace) {
                finish_record(adv(st), name, decl, seq![])
            } else {
                construct_fields(e, ts, st, name, decl, seq![], (fuel - 1) as nat)
            },
        }
    }
}

/// The given fields checked for the ones declared, and put in the declared order.
pub open spec fn finish_record(st: St, name: Seq<char>, decl: TypeDecl, given: Seq<(Seq<char>, Val)>) -> Result<(St, Val), Seq<char>> {
    match record_value(name, decl, given) {
        Err(m) => Err(m),
        Ok(v) => Ok((st, v)),
    }
}

pub open spec fn record_value(name: Seq<char>, decl: TypeDecl, given: Seq<(Seq<char>, Val)>) -> Result<Val, Seq<char>> {
    let missing = first_missing(decl, given, 0);
    if missing < decl.fields@.len() {
        Err("Record `"@ + name + "` is missing field `"@ + decl.fields@[missing].name@ + "`."@)
    } else {
        Ok(
            Val::Record(
                name,
                Seq::new(
                    decl.fields@.len(),
                    |k: int| (decl.fields@[k].name@, field_get(given, decl.fields@[k].name@, 0)->0),
                ),
            ),
        )
    }
}

/// The first declared field, from position `i` on, that is not given.
pub open spec fn first_missing(decl: TypeDecl, given: Seq<(Seq<char>, Val)>, i: int) -> int
    decreases decl.fields@.len() - i,
{
    if i < 0 || i >= decl.fields@.len() {
        decl.fields@.len() as int
    } else if field_get(given, decl.fields@[i].name@, 0) is None {
        i
    } else {
        first_missing(decl, given, i + 1)
    }
}

pub open spec fn construct_fields(
    e: Env,
    ts: Seq<SpecToken>,
    st: St,
    name: Seq<char>,
    decl: TypeDecl,
    given: Seq<(Seq<char>, Val)>,
    fuel: nat,
) -> Result<(St, Val), Seq<char>>
    decreases fuel, 0nat,
{
    if fuel == 0 {
        Err(out_of_steps())
    } else {
        match expect_ident(ts, st) {
            Err(m) => Err(m),
            Ok((s1, field)) => match expect(ts, s1, Token::Colon) {
                Err(m) => Err(m),
                Ok(s2) => if field_get(given, field, 0) is Some {
                    Err("Record `"@ + name + "` repeats field `"@ + field + "`."@)
                } else {
                    match declared_field(decl, field, 0) {
                        None => Err("Record `"@ + name + "` has unknown field `"@ + field + "`."@),
                        Some(dt) => match p_seq(e, ts, s2, (fuel - 1) as nat) {
                            Err(m) => Err(m),
                            Ok((s3, v)) => if !type_accepts(type_of(v), dt) {
                                Err("Record `"@ + name + "` field `"@ + field + "` expected "@ + dt + ", got "@ + type_of(v) + "."@)
                            } else {
                                match coerced(v, dt) {
                                    Err(m) => Err(m),
                                    Ok(w) => {
                                        let g2 = given.push((field, w));
                                        if at(ts, s3, Token::RBrace) {
                                            finish_record(adv(s3), name, decl, g2)
                                        } else {
                                            match expect(ts, s3, Token::Comma) {
                                                Err(m) => Err(m),
                                                Ok(s4) => construct_fields(e, ts, s4, name, decl, g2, (fuel - 1) as nat),
                                            }
                                        }
                                    },
                                }
                            },
                        },
                    }
                },
            },
        }
    }
}

/// `base with { f: v, .. }` after `with`.
pub open spec fn p_update(e: Env, ts: Seq<SpecToken>, st: St, base: Val, fuel: nat) -> Result<(St, Val), Seq<char>>
    decreases fuel, 0nat,
{
    if fuel == 0 {
        Err(out_of_steps())
    } else {
        match base {
            Val::Record(name, fields) => match record_decl(e.types, name, 0) {
                None => Err("Unknown record type `"@ + name + "`."@),
                Some(decl) => match expect(ts, st, Token::LBrace) {
                    Err(m) => Err(m),
                    Ok(s1) => if at(ts, s1, Token::RBrace) {
                        Ok((adv(s1), base))
                    } else {
                        update_fields(e, ts, s1, name, decl, fields, (fuel - 1) as nat)
                    },
                },
            },
            _ => Err("Record update requires a record value, got "@ + show(base) + "."@),
        }
    }
}

pub open spec fn update_fields(
    e: Env,
    ts: Seq<SpecToken>,
    st: St,
    name: Seq<char>,
    decl: TypeDecl,
    fields: Seq<(Seq<char>, Val)>,
    fuel: nat,
) -> Result<(St, Val), Seq<char>>
    decreases fuel, 0nat,
{
    if fuel == 0 {
        Err(out_of_steps())
    } else {
        match expect_ident(ts, st) {
            Err(m) => Err(m),
            Ok((s1, field)) => match declared_field(decl, field, 0) {
                None => Err("Record `"@ + name + "` has unknown field `"@ + field + "`."@),
                Some(dt) => match expect(ts, s1, Token::Colon) {
                    Err(m) => Err(m),
                    Ok(s2) => match p_seq(e, ts, s2, (fuel - 1) as nat) {
                        Err(m) => Err(m),
                        Ok((s3, v)) => if !type_accepts(type_of(v), dt) {
                            Err("Record `"@ + name + "` update field `"@ + field + "` expected "@ + dt + ", got "@ + type_of(v) + "."@)
                        } else {
                            match coerced(v, dt) {
                                Err(m) => Err(m),
                                Ok(w) => {
                                    let f2 = var_put(fields, field, w);
                                    if at(ts, s3, Token::RBrace) {
                                        Ok((adv(s3), Val::Record(name, f2)))
                                    } else {
                                        match expect(ts, s3, Token::Comma) {
                                            Err(m) => Err(m),
                                            Ok(s4) => update_fields(e, ts, s4, name, decl, f2, (fuel - 1) as nat),
                                        }
                                    }
                                },
                            }
                        },
                    },
                },
            },
        }
    }
}

/// `match x { V -> e, .. }` after `match`: the branch of the variant `x` holds is
/// evaluated; a later branch of the same variant wins.
pub open spec fn p_match(e: Env, ts: Seq<SpecToken>, st: St, fuel: nat) -> Result<(St, Val), Seq<char>>
    decreases fuel, 0nat,
{
    if fuel == 0 {
        Err(out_of_steps())
    } else if !(0 <= st.index <= ts.len()) {
        Err("Expected `{` after match expression."@)
    } else {
        match body_start_from(plains(ts), st.index, 0, 0) {
            Err(m) => Err(m),
            Ok(body_start) => match sub_parse(
                e,
                ts.subrange(st.index, body_start),
                st.vars,
                st.assignable,
                (fuel - 1) as nat,
            ) {
                Err(m) => Err(m),
                Ok((vars, matched)) => match expect(ts, St { index: body_start, vars: vars, ..st }, Token::LBrace) {
                    Err(m) => Err(m),
                    Ok(s1) => match matched {
                        Val::Enum(t, selected) => if at(ts, s1, Token::RBrace) {
                            Err("match on enum `"@ + t + "` has no branches."@)
                        } else {
                            match_branches(e, ts, s1, t, selected, None, 0, (fuel - 1) as nat)
                        },
                        _ => Err("match expression must be an enum, got "@ + show(matched) + "."@),
                    },
                },
            },
        }
    }
}

pub open spec fn match_branches(
    e: Env,
    ts: Seq<SpecToken>,
    st: St,
    t: Seq<char>,
    variant: Seq<char>,
    selected: Option<Val>,
    count: nat,
    fuel: nat,
) -> Result<(St, Val), Seq<char>>
    decreases fuel, 0nat,
{
    if fuel == 0 {
        Err(out_of_steps())
    } else {
        match expect_ident(ts, st) {
            Err(m) => Err(m),
            Ok((s1, branch)) => match expect(ts, s1, Token::Arrow) {
                Err(m) => Err(m),
                Ok(s2) => match branch_end_from(plains(ts), s2.index, 0, 0, 0) {
                    Err(m) => Err(m),
                    Ok(end) => {
                        let r: Result<(Seq<(Seq<char>, Val)>, Option<Val>), Seq<char>> = if branch == variant {
                            match sub_parse(e, ts.subrange(s2.index, end), s2.vars, s2.assignable, (fuel - 1) as nat) {
                                Err(m) => Err(m),
                                Ok((vars, v)) => Ok((vars, Some(v))),
                            }
                        } else {
                            Ok((s2.vars, selected))
                        };
                        match r {
                            Err(m) => Err(m),
                            Ok((vars, sel)) => {
                                let s3 = St { index: end, vars: vars, ..s2 };
                                let n = count + 1;
                                if at(ts, s3, Token::RBrace) {
                                    branches_done(adv(s3), t, variant, sel, n)
                                } else {
                                    match expect(ts, s3, Token::Comma) {
                                        Err(m) => Err(m),
                                        Ok(s4) => if at(ts, s4, Token::RBrace) {
                                            branches_done(adv(s4), t, variant, sel, n)
                                        } else {
                                            match_branches(e, ts, s4, t, variant, sel, n, (fuel - 1) as nat)
                                        },
                                    }
                                }
                            },
                        }
                    },
                },
            },
        }
    }
}

pub open spec fn branches_done(st: St, t: Seq<char>, variant: Seq<char>, sel: Option<Val>, n: nat) -> Result<(St, Val), Seq<char>> {
    match sel {
        Some(v) => Ok((st, v)),
        None => Err(
            "match on enum `"@ + t + "` did not cover variant `"@ + variant + "` across "@ + decimal(n) + " branches."@,
        ),
    }
}

// ---------------------------------------------------------------------------
// Calls and whole expressions
// ---------------------------------------------------------------------------
/// The parameters bound to the arguments, each made to fit its declared type.
pub open spec fn bind_params(ps: Seq<crate::model::Param>, args: Seq<Val>, i: int, vars: Seq<(Seq<char>, Val)>) -> Result<Seq<(Seq<char>, Val)>, Seq<char>>
    decreases args.len() - i,
{
    if i < 0 || i >= args.len() || i >= ps.len() {
        Ok(vars)
    } else {
        match coerced(args[i], ps[i].type_text@) {
            Err(m) => Err(m),
            Ok(v) => bind_params(ps, args, i + 1, var_put(vars, ps[i].name@, v)),
        }
    }
}

/// A call of the function that `name` names with the given arguments: its value and the
/// arguments bound to its parameters.
pub open spec fn ev_call(e: Env, name: Seq<char>, args: Seq<Val>, fuel: nat) -> Result<(Val, Seq<(Seq<char>, Val)>), Seq<char>>
    decreases fuel, 0nat,
{
    if fuel == 0 {
        Err(out_of_steps())
    } else {
        match resolved(e.fs, e.ins, name) {
            Err(m) => Err(m),
            Ok(f) => if is_intrinsic_symbol(symbol_text(f)) {
                intrinsic_call(symbol_text(f), name, args)
            } else {
                match f.implementation {
                    None => Err("Function `"@ + name + "` has no implementation."@),
                    Some(body) => if args.len() != f.params@.len() {
                        Err(arity_error(name, f.params@.len(), args.len()))
                    } else if e.depth > 50 {
                        Err("Evaluation recursion limit exceeded."@)
                    } else {
                        match bind_params(f.params@, args, 0, seq![]) {
                            Err(m) => Err(m),
                            Ok(bindings) => {
                                let inner = Env { depth: e.depth + 1, ..e };
                                match check_requires(inner, name, f.requires@, 0, bindings, (fuel - 1) as nat) {
                                    Err(m) => Err(m),
                                    Ok(_) => match ev_eval(inner, body@, bindings, (fuel - 1) as nat) {
                                        Err(m) => Err(m),
                                        Ok(v) => match coerced(v, f.return_type@) {
                                            Err(m) => Err(m),
                                            Ok(w) => Ok((w, bindings)),
                                        },
                                    },
                                }
                            },
                        }
                    },
                }
            },
        }
    }
}

/// The preconditions from the `i`th on hold of the bound arguments.
pub open spec fn check_requires(
    e: Env,
    name: Seq<char>,
    reqs: Seq<String>,
    i: int,
    bindings: Seq<(Seq<char>, Val)>,
    fuel: nat,
) -> Result<(), Seq<char>>
    decreases fuel, 0nat,
{
    if fuel == 0 {
        Err(out_of_steps())
    } else if i < 0 || i >= reqs.len() {
        Ok(())
    } else {
        match ev_eval(e, reqs[i]@, bindings, (fuel - 1) as nat) {
            Err(m) => Err(m),
            Ok(Val::Bool(true)) => check_requires(e, name, reqs, i + 1, bindings, (fuel - 1) as nat),
            Ok(Val::Bool(false)) => Err("Precondition failed for `"@ + name + "`: `"@ + reqs[i]@ + "`."@),
            Ok(v) => Err("Precondition for `"@ + name + "` must evaluate to Bool, got "@ + show(v) + "."@),
        }
    }
}

/// What an expression evaluates to with the given variables.
pub open spec fn ev_eval(e: Env, text: Seq<char>, vars: Seq<(Seq<char>, Val)>, fuel: nat) -> Result<Val, Seq<char>>
    decreases fuel, 0nat,
{
    if fuel == 0 {
        Err(out_of_steps())
    } else {
        match lex(text) {
            Err(m) => Err(m),
            Ok(ts) => match sub_parse(e, ts, vars, seq![], (fuel - 1) as nat) {
                Err(m) => Err(m),
                Ok((_, v)) => Ok(v),
            },
        }
    }
}


// ---------------------------------------------------------------------------
// Tokens in executable code
// ---------------------------------------------------------------------------
/// The token carries no text or number.
pub open spec fn is_plain(t: Token) -> bool {
    !(t is Int) && !(t is Text) && !(t is Ident)
}

pub fn copy_token(t: &Token) -> (r: Token)
    ensures
        r@ == t@,
{
    match t {
        Token::Int(n) => Token::Int(*n),
        Token::Text(s) => Token::Text(s.clone()),
        Token::Ident(s) => Token::Ident(s.clone()),
        Token::Unit => Token::Unit,
        Token::True => Token::True,
        Token::False => Token::False,
        Token::If => Token::If,
        Token::Then => Token::Then,
        Token::Else => Token::Else,
        Token::Match => Token::Match,
        Token::Let => Token::Let,
        Token::Update => Token::Update,
        Token::While => Token::While,
        Token::Do => Token::Do,
        Token::With => Token::With,
        Token::And => Token::And,
        Token::Or => Token::Or,
        Token::Not => Token::Not,
        Token::Plus => Token::Plus,
        Token::Minus => Token::Minus,
        Token::Star => Token::Star,
        Token::SlashSlash => Token::SlashSlash,
        Token::Percent => Token::Percent,
        Token::EqEq => Token::EqEq,
        Token::NotEq => Token::NotEq,
        Token::Lt => Token::Lt,
        Token::LtEq => Token::LtEq,
        Token::Gt => Token::Gt,
        Token::GtEq => Token::GtEq,
        Token::Arrow => Token::Arrow,
        Token::Assign => Token::Assign,
        Token::Semicolon => Token::Semicolon,
        Token::LParen => Token::LParen,
        Token::RParen => Token::RParen,
        Token::LBracket => Token::LBracket,
        Token::RBracket => Token::RBracket,
        Token::LBrace => Token::LBrace,
        Token::RBrace => Token::RBrace,
        Token::Comma => Token::Comma,
        Token::Colon => Token::Colon,
        Token::Dot => Token::Dot,
    }
}

/// The token is the payload-free token `want`.
pub fn token_is(t: &Token, want: &Token) -> (r: bool)
    requires
        is_plain(*want),
    ensures
        r == (t@ == SpecToken::Plain(*want)),
{
    match (t, want) {
        (Token::Unit, Token::Unit) => true,
        (Token::True, Token::True) => true,
        (Token::False, Token::False) => true,
        (Token::If, Token::If) => true,
        (Token::Then, Token::Then) => true,
        (Token::Else, Token::Else) => true,
        (Token::Match, Token::Match) => true,
        (Token::Let, Token::Let) => true,
        (Token::Update, Token::Update) => true,
        (Token::While, Token::While) => true,
        (Token::Do, Token::Do) => true,
        (Token::With, Token::With) => true,
        (Token::And, Token::And) => true,
        (Token::Or, Token::Or) => true,
        (Token::Not, Token::Not) => true,
        (Token::Plus, Token::Plus) => true,
        (Token::Minus, Token::Minus) => true,
        (Token::Star, Token::Star) => true,
        (Token::SlashSlash, Token::SlashSlash) => true,
        (Token::Percent, Token::Percent) => true,
        (Token::EqEq, Token::EqEq) => true,
        (Token::NotEq, Token::NotEq) => true,
        (Token::Lt, Token::Lt) => true,
        (Token::LtEq, Token::LtEq) => true,
        (Token::Gt, Token::Gt) => true,
        (Token::GtEq, Token::GtEq) => true,
        (Token::Arrow, Token::Arrow) => true,
        (Token::Assign, Token::Assign) => true,
        (Token::Semicolon, Token::Semicolon) => true,
        (Token::LParen, Token::LParen) => true,
        (Token::RParen, Token::RParen) => true,
        (Token::LBracket, Token::LBracket) => true,
        (Token::RBracket, Token::RBracket) => true,
        (Token::LBrace, Token::LBrace) => true,
        (Token::RBrace, Token::RBrace) => true,
        (Token::Comma, Token::Comma) => true,
        (Token::Colon, Token::Colon) => true,
        (Token::Dot, Token::Dot) => true,
        _ => false,
    }
}

pub fn plain_name_text(t: &Token) -> (r: String)
    ensures
        r@ == plain_name(*t),
{
    match t {
        Token::Int(_) => owned("Int"),
        Token::Text(_) => owned("Text"),
        Token::Ident(_) => owned("Ident"),
        Token::Unit => owned("Unit"),
        Token::True => owned("True"),
        Token::False => owned("False"),
        Token::If => owned("If"),
        Token::Then => owned("Then"),
        Token::Else => owned("Else"),
        Token::Match => owned("Match"),
        Token::Let => owned("Let"),
        Token::Update => owned("Set"),
        Token::While => owned("While"),
        Token::Do => owned("Do"),
        Token::With => owned("With"),
        Token::And => owned("And"),
        Token::Or => owned("Or"),
        Token::Not => owned("Not"),
        Token::Plus => owned("Plus"),
        Token::Minus => owned("Minus"),
        Token::Star => owned("Star"),
        Token::SlashSlash => owned("SlashSlash"),
        Token::Percent => owned("Percent"),
        Token::EqEq => owned("EqEq"),
        Token::NotEq => owned("NotEq"),
        Token::Lt => owned("Lt"),
        Token::LtEq => owned("LtEq"),
        Token::Gt => owned("Gt"),
        Token::GtEq => owned("GtEq"),
        Token::Arrow => owned("Arrow"),
        Token::Assign => owned("Assign"),
        Token::Semicolon => owned("Semicolon"),
        Token::LParen => owned("LParen"),
        Token::RParen => owned("RParen"),
        Token::LBracket => owned("LBracket"),
        Token::RBracket => owned("RBracket"),
        Token::LBrace => owned("LBrace"),
        Token::RBrace => owned("RBrace"),
        Token::Comma => owned("Comma"),
        Token::Colon => owned("Colon"),
        Token::Dot => owned("Dot"),
    }
}

pub fn token_debug_text(t: &Token) -> (r: String)
    ensures
        r@ == token_debug(t@),
{
    match t {
        Token::Int(n) => {
            let mut s = owned("Int(");
            let d = crate::text::i64_text(*n);
            s.append(d.as_str());
            s.append(")");
            s
        },
        Token::Text(x) => {
            let mut s = owned("Text(");
            let d = crate::values::debug_quoted(x.as_str());
            s.append(d.as_str());
            s.append(")");
            s
        },
        Token::Ident(x) => {
            let mut s = owned("Ident(");
            let d = crate::values::debug_quoted(x.as_str());
            s.append(d.as_str());
            s.append(")");
            s
        },
        _ => plain_name_text(t),
    }
}


// ---------------------------------------------------------------------------
// The parser in executable code
// ---------------------------------------------------------------------------
/// Tokens being parsed, the next position, the local variables and the names `set` may
/// update.
pub struct ExprParser {
    pub tokens: Vec<Token>,
    pub index: usize,
    pub variables: Vec<(String, Value)>,
    pub assignable: Vec<String>,
}

pub open spec fn vars_view(v: Seq<(String, Value)>) -> Seq<(Seq<char>, Val)> {
    v.map_values(|x: (String, Value)| (x.0@, value_view(x.1)))
}

impl ExprParser {
    pub open spec fn toks(self) -> Seq<SpecToken> {
        crate::eval::token_views(self.tokens@)
    }

    pub open spec fn st(self) -> St {
        St { index: self.index as int, vars: vars_view(self.variables@), assignable: crate::diagnostic::strs(self.assignable@) }
    }

    pub open spec fn wf(self) -> bool {
        self.index <= self.tokens@.len()
    }
}

/// The executable result `res`, with the parser left as `p`, is the outcome `o`.
pub open spec fn outcome(res: Result<Value, String>, p: ExprParser, o: Result<(St, Val), Seq<char>>) -> bool {
    match o {
        Ok((st, v)) => res is Ok && value_view(res->Ok_0) == v && p.st() == st && p.wf(),
        Err(m) => res is Err && res->Err_0@ == m,
    }
}

fn at_tok(p: &ExprParser, t: &Token) -> (r: bool)
    requires
        is_plain(*t),
    ensures
        r == at(p.toks(), p.st(), *t),
        r ==> p.index < p.tokens.len(),
{
    if p.index < p.tokens.len() {
        token_is(&p.tokens[p.index], t)
    } else {
        false
    }
}

fn expect_tok(p: &mut ExprParser, t: &Token) -> (res: Result<(), String>)
    requires
        is_plain(*t),
    ensures
        final(p).tokens == old(p).tokens,
        match expect(old(p).toks(), old(p).st(), *t) {
            Ok(s) => res is Ok && final(p).st() == s && final(p).wf(),
            Err(m) => res is Err && res->Err_0@ == m,
        },
{
    if at_tok(p, t) {
        assert(p.toks().len() == p.tokens@.len());
        p.index = p.index + 1;
        Ok(())
    } else {
        let mut m = owned("Expected token ");
        let n = plain_name_text(t);
        m.append(n.as_str());
        m.append(".");
        Err(m)
    }
}

fn expect_ident_tok(p: &mut ExprParser) -> (res: Result<String, String>)
    ensures
        final(p).tokens == old(p).tokens,
        match expect_ident(old(p).toks(), old(p).st()) {
            Ok((s, n)) => res is Ok && final(p).st() == s && final(p).wf() && res->Ok_0@ == n,
            Err(m) => res is Err && res->Err_0@ == m,
        },
{
    if p.index < p.tokens.len() {
        match &p.tokens[p.index] {
            Token::Ident(n) => {
                let r = n.clone();
                p.index = p.index + 1;
                Ok(r)
            },
            t => {
                let mut m = owned("Expected identifier, got ");
                let d = token_debug_text(t);
                m.append(d.as_str());
                m.append(".");
                Err(m)
            },
        }
    } else {
        Err(owned("Expected identifier, got end of expression."))
    }
}

fn expect_end_tok(p: &ExprParser) -> (res: Result<(), String>)
    ensures
        match expect_end(p.toks(), p.st()) {
            Ok(_) => res is Ok,
            Err(m) => res is Err && res->Err_0@ == m,
        },
{
    if p.index == p.tokens.len() {
        Ok(())
    } else if p.index < p.tokens.len() {
        let mut m = owned("Unexpected trailing token ");
        let d = token_debug_text(&p.tokens[p.index]);
        m.append(d.as_str());
        m.append(".");
        Err(m)
    } else {
        Err(owned("Unexpected trailing token."))
    }
}

// ---------------------------------------------------------------------------
// Local variables in executable code
// ---------------------------------------------------------------------------
proof fn lemma_key_index(vars: Seq<(Seq<char>, Val)>, k: Seq<char>, i: int)
    requires
        0 <= i <= vars.len(),
        forall|j: int| 0 <= j < i ==> vars[j].0 != k,
    ensures
        key_index(vars, k, i) == key_index(vars, k, 0),
    decreases i,
{
    if i > 0 {
        lemma_key_index(vars, k, i - 1);
    }
}

proof fn lemma_key_index_bounds(vars: Seq<(Seq<char>, Val)>, k: Seq<char>, i: int)
    requires
        0 <= i <= vars.len(),
    ensures
        i <= key_index(vars, k, i) <= vars.len(),
        key_index(vars, k, i) < vars.len() ==> vars[key_index(vars, k, i)].0 == k,
    decreases vars.len() - i,
{
    if i < vars.len() {
        lemma_key_index_bounds(vars, k, i + 1);
    }
}

fn key_position(vars: &Vec<(String, Value)>, k: &str) -> (res: usize)
    ensures
        res as int == key_index(vars_view(vars@), k@, 0),
        res <= vars@.len(),
{
    let ghost vv = vars_view(vars@);
    let mut i: usize = 0;
    while i < vars.len()
        invariant
            i <= vars@.len(),
            vv == vars_view(vars@),
            vv.len() == vars@.len(),
            forall|j: int| 0 <= j < i ==> vv[j].0 != k@,
        decreases vars@.len() - i,
    {
        if crate::text::str_eq(vars[i].0.as_str(), k) {
            proof {
                lemma_key_index(vv, k@, i as int);
            }
            return i;
        }
        i += 1;
    }
    proof {
        lemma_key_index(vv, k@, i as int);
    }
    i
}

fn var_lookup(vars: &Vec<(String, Value)>, k: &str) -> (res: Option<Value>)
    ensures
        match var_get(vars_view(vars@), k@) {
            Some(v) => res is Some && value_view(res->0) == v,
            None => res is None,
        },
{
    let i = key_position(vars, k);
    if i < vars.len() {
        Some(vars[i].1.copy())
    } else {
        None
    }
}

fn var_store(vars: &mut Vec<(String, Value)>, k: String, v: Value)
    ensures
        vars_view(final(vars)@) == var_put(vars_view(old(vars)@), k@, value_view(v)),
{
    let i = key_position(vars, k.as_str());
    let ghost kv = k@;
    let ghost vv = value_view(v);
    if i < vars.len() {
        vars.set(i, (k, v));
        proof {
            assert(vars_view(vars@) =~= vars_view(old(vars)@).update(i as int, (kv, vv)));
        }
    } else {
        vars.push((k, v));
        proof {
            assert(vars_view(vars@) =~= vars_view(old(vars)@).push((kv, vv)));
        }
    }
}

/// The value of the variable `k`, if there is one.
pub fn var_lookup_pub(vars: &Vec<(String, Value)>, k: &str) -> (res: Option<Value>)
    ensures
        match var_get(vars_view(vars@), k@) {
            Some(v) => res is Some && value_view(res->0) == v,
            None => res is None,
        },
{
    var_lookup(vars, k)
}

/// Stores the variable `k`, replacing its value when it is there.
pub fn var_store_pub(vars: &mut Vec<(String, Value)>, k: String, v: Value)
    ensures
        vars_view(final(vars)@) == var_put(vars_view(old(vars)@), k@, value_view(v)),
{
    var_store(vars, k, v)
}

fn var_remove(vars: &mut Vec<(String, Value)>, k: &str)
    ensures
        vars_view(final(vars)@) == var_del(vars_view(old(vars)@), k@),
{
    let i = key_position(vars, k);
    if i < vars.len() {
        vars.remove(i);
        proof {
            assert(vars_view(vars@) =~= vars_view(old(vars)@).remove(i as int));
        }
    }
}

fn copy_vars(vars: &Vec<(String, Value)>) -> (res: Vec<(String, Value)>)
    ensures
        vars_view(res@) == vars_view(vars@),
{
    let mut out: Vec<(String, Value)> = Vec::new();
    let mut i: usize = 0;
    while i < vars.len()
        invariant
            i <= vars@.len(),
            out@.len() == i,
            forall|j: int| 0 <= j < i ==> #[trigger] out@[j].0@ == vars@[j].0@ && value_view(out@[j].1) == value_view(vars@[j].1),
        decreases vars@.len() - i,
    {
        let v = vars[i].1.copy();
        out.push((vars[i].0.clone(), v));
        i += 1;
    }
    assert(vars_view(out@) =~= vars_view(vars@));
    out
}

/// A copy of the variables.
pub fn copy_vars_pub(vars: &Vec<(String, Value)>) -> (res: Vec<(String, Value)>)
    ensures
        vars_view(res@) == vars_view(vars@),
{
    copy_vars(vars)
}

fn copy_strings(v: &Vec<String>) -> (res: Vec<String>)
    ensures
        crate::diagnostic::strs(res@) == crate::diagnostic::strs(v@),
{
    let mut out: Vec<String> = Vec::new();
    let mut i: usize = 0;
    while i < v.len()
        invariant
            i <= v@.len(),
            out@.len() == i,
            forall|j: int| 0 <= j < i ==> #[trigger] out@[j]@ == v@[j]@,
        decreases v@.len() - i,
    {
        out.push(v[i].clone());
        i += 1;
    }
    assert(crate::diagnostic::strs(out@) =~= crate::diagnostic::strs(v@));
    out
}

fn copy_tokens(ts: &Vec<Token>, a: usize, b: usize) -> (res: Vec<Token>)
    requires
        a <= b <= ts@.len(),
    ensures
        crate::eval::token_views(res@) == crate::eval::token_views(ts@).subrange(a as int, b as int),
{
    let mut out: Vec<Token> = Vec::new();
    let mut i: usize = a;
    while i < b
        invariant
            a <= i <= b,
            b <= ts@.len(),
            out@.len() == i - a,
            forall|j: int| 0 <= j < i - a ==> #[trigger] out@[j]@ == ts@[a + j]@,
        decreases b - i,
    {
        out.push(copy_token(&ts[i]));
        i += 1;
    }
    assert(crate::eval::token_views(out@) =~= crate::eval::token_views(ts@).subrange(a as int, b as int));
    out
}

fn has_name(v: &Vec<String>, k: &str) -> (res: bool)
    ensures
        res == crate::diagnostic::strs(v@).contains(k@),
{
    let mut i: usize = 0;
    while i < v.len()
        invariant
            i <= v@.len(),
            forall|j: int| 0 <= j < i ==> v@[j]@ != k@,
        decreases v@.len() - i,
    {
        if crate::text::str_eq(v[i].as_str(), k) {
            proof {
                assert(crate::diagnostic::strs(v@)[i as int] == k@);
            }
            return true;
        }
        i += 1;
    }
    proof {
        if crate::diagnostic::strs(v@).contains(k@) {
            let j = choose|j: int| 0 <= j < crate::diagnostic::strs(v@).len() && crate::diagnostic::strs(v@)[j] == k@;
            assert(v@[j]@ == k@);
        }
    }
    false
}


// ---------------------------------------------------------------------------
// Operations on values in executable code
// ---------------------------------------------------------------------------
fn int_of(v: &Value) -> (res: Result<i64, String>)
    ensures
        match as_int(value_view(*v)) {
            Ok(n) => res is Ok && res->Ok_0 as int == n,
            Err(m) => res is Err && res->Err_0@ == m,
        },
{
    match v {
        Value::Int(n) => Ok(*n),
        _ => {
            let mut m = owned("Expected Int, got ");
            let t = v.to_text();
            m.append(t.as_str());
            m.append(".");
            Err(m)
        },
    }
}

fn bool_of(v: &Value) -> (res: Result<bool, String>)
    ensures
        match as_bool(value_view(*v)) {
            Ok(b) => res is Ok && res->Ok_0 == b,
            Err(m) => res is Err && res->Err_0@ == m,
        },
{
    match v {
        Value::Bool(b) => Ok(*b),
        _ => {
            let mut m = owned("Expected Bool, got ");
            let t = v.to_text();
            m.append(t.as_str());
            m.append(".");
            Err(m)
        },
    }
}

/// The outcome of a computation on values.
pub open spec fn value_outcome(res: Result<Value, String>, o: Result<Val, Seq<char>>) -> bool {
    match o {
        Ok(v) => res is Ok && value_view(res->Ok_0) == v,
        Err(m) => res is Err && res->Err_0@ == m,
    }
}

fn int_value(n: i128) -> (res: Result<Value, String>)
    ensures
        value_outcome(res, int_result(n as int)),
{
    if n < -9223372036854775808i128 || n > 9223372036854775807i128 {
        Err(owned("Integer overflow."))
    } else {
        Ok(Value::Int(n as i64))
    }
}

fn plus_values(left: &Value, right: &Value) -> (res: Result<Value, String>)
    ensures
        value_outcome(res, plus(value_view(*left), value_view(*right))),
{
    match (left, right) {
        (Value::Int(a), Value::Int(b)) => int_value(*a as i128 + *b as i128),
        (Value::Text(a), Value::Text(b)) => {
            let mut s = a.clone();
            s.append(b.as_str());
            Ok(Value::Text(s))
        },
        _ => Err(owned("`+` requires Int+Int or Text+Text.")),
    }
}

fn minus_values(left: &Value, right: &Value) -> (res: Result<Value, String>)
    ensures
        value_outcome(res, minus(value_view(*left), value_view(*right))),
{
    let a = match int_of(left) {
        Ok(a) => a,
        Err(m) => return Err(m),
    };
    let b = match int_of(right) {
        Ok(b) => b,
        Err(m) => return Err(m),
    };
    int_value(a as i128 - b as i128)
}

fn times_values(op: &Token, left: &Value, right: &Value) -> (res: Result<Value, String>)
    requires
        *op == Token::Star || *op == Token::SlashSlash || *op == Token::Percent,
    ensures
        value_outcome(res, times(*op, value_view(*left), value_view(*right))),
{
    let is_star = match op {
        Token::Star => true,
        _ => false,
    };
    let is_div = match op {
        Token::SlashSlash => true,
        _ => false,
    };
    if is_star {
        let a = match int_of(left) {
            Ok(a) => a,
            Err(m) => return Err(m),
        };
        let b = match int_of(right) {
            Ok(b) => b,
            Err(m) => return Err(m),
        };
        proof {
            assert((a as int) * (b as int) <= 9223372036854775808int * 9223372036854775808int) by (nonlinear_arith)
                requires
                    -9223372036854775808int <= a <= 9223372036854775807int,
                    -9223372036854775808int <= b <= 9223372036854775807int,
            ;
            assert((a as int) * (b as int) >= -9223372036854775808int * 9223372036854775807int) by (nonlinear_arith)
                requires
                    -9223372036854775808int <= a <= 9223372036854775807int,
                    -9223372036854775808int <= b <= 9223372036854775807int,
            ;
        }
        return int_value(a as i128 * b as i128);
    }
    let b = match int_of(right) {
        Ok(b) => b,
        Err(m) => return Err(m),
    };
    if b == 0 {
        if is_div {
            return Err(owned("Integer division by zero."));
        } else {
            return Err(owned("Modulo by zero."));
        }
    }
    let a = match int_of(left) {
        Ok(a) => a,
        Err(m) => return Err(m),
    };
    let ua: u64 = if a < 0 {
        (0i128 - a as i128) as u64
    } else {
        a as u64
    };
    let ub: u64 = if b < 0 {
        (0i128 - b as i128) as u64
    } else {
        b as u64
    };
    if is_div {
        let q: u64 = ua / ub;
        let r: i128 = if (a < 0) != (b < 0) {
            0i128 - q as i128
        } else {
            q as i128
        };
        int_value(r)
    } else {
        if a == -9223372036854775808i64 && b == -1 {
            return Err(owned("Integer overflow."));
        }
        let m: u64 = ua % ub;
        let r: i128 = if a < 0 {
            0i128 - m as i128
        } else {
            m as i128
        };
        int_value(r)
    }
}

fn compare_values(left: &Value, op: &CompareOp, right: &Value) -> (res: Result<bool, String>)
    ensures
        match compare(value_view(*left), *op, value_view(*right)) {
            Ok(b) => res is Ok && res->Ok_0 == b,
            Err(m) => res is Err && res->Err_0@ == m,
        },
{
    match op {
        CompareOp::Eq => return Ok(crate::values::value_equal(left, right)),
        CompareOp::Ne => return Ok(!crate::values::value_equal(left, right)),
        _ => {},
    }
    let o: i8 = match (left, right) {
        (Value::Int(x), Value::Int(y)) => if *x < *y {
            -1
        } else if *x > *y {
            1
        } else {
            0
        },
        (Value::Text(x), Value::Text(y)) => crate::values::text_order_of(x.as_str(), y.as_str()),
        _ => return Err(owned("Ordered comparisons require matching Int or Text values.")),
    };
    proof {
        let l = value_view(*left);
        let r = value_view(*right);
        if l is Text && r is Text {
            assert(o as int == text_order(l->Text_0, r->Text_0));
        }
    }
    match op {
        CompareOp::Lt => Ok(o < 0),
        CompareOp::Le => Ok(o <= 0),
        CompareOp::Gt => Ok(o > 0),
        _ => Ok(o >= 0),
    }
}

fn field_value(fields: &Vec<(String, Value)>, name: &str) -> (res: Option<Value>)
    ensures
        match field_get(crate::values::field_vals(*fields), name@, 0) {
            Some(v) => res is Some && value_view(res->0) == v,
            None => res is None,
        },
{
    let ghost fv = crate::values::field_vals(*fields);
    proof {
        crate::values::lemma_fields_view(*fields, fields@.len());
    }
    let mut i: usize = 0;
    while i < fields.len()
        invariant
            i <= fields@.len(),
            fv == crate::values::field_vals(*fields),
            fv.len() == fields@.len(),
            forall|k: int| 0 <= k < fields@.len() ==> #[trigger] fv[k] == (fields@[k].0@, value_view(fields@[k].1)),
            field_get(fv, name@, i as int) == field_get(fv, name@, 0),
        decreases fields@.len() - i,
    {
        if crate::text::str_eq(fields[i].0.as_str(), name) {
            return Some(fields[i].1.copy());
        }
        i += 1;
    }
    None
}

fn field_of(v: &Value, field: &str) -> (res: Result<Value, String>)
    ensures
        value_outcome(res, record_field(value_view(*v), field@)),
{
    match v {
        Value::Record { type_text, fields } => match field_value(fields, field) {
            Some(x) => Ok(x),
            None => {
                let mut m = owned("Record `");
                m.append(type_text.as_str());
                m.append("` has no field `");
                m.append(field);
                m.append("`.");
                Err(m)
            },
        },
        _ => {
            let mut m = owned("Field access `.");
            m.append(field);
            m.append("` requires a record, got ");
            let t = v.to_text();
            m.append(t.as_str());
            m.append(".");
            Err(m)
        },
    }
}

fn find_record_decl(types: &Vec<TypeDecl>, name: &str) -> (res: Option<usize>)
    ensures
        match record_decl(types@, name@, 0) {
            Some(d) => res is Some && res->0 < types@.len() && types@[res->0 as int] == d,
            None => res is None,
        },
{
    let mut i: usize = 0;
    while i < types.len()
        invariant
            i <= types@.len(),
            record_decl(types@, name@, i as int) == record_decl(types@, name@, 0),
        decreases types@.len() - i,
    {
        if crate::text::str_eq(types[i].name.as_str(), name) && types[i].is_record() {
            return Some(i);
        }
        i += 1;
    }
    None
}

fn find_declared_field(t: &TypeDecl, name: &str) -> (res: Option<String>)
    ensures
        crate::eval::opt_view(res) == declared_field(*t, name@, 0),
{
    let mut i: usize = 0;
    while i < t.fields.len()
        invariant
            i <= t.fields@.len(),
            declared_field(*t, name@, i as int) == declared_field(*t, name@, 0),
        decreases t.fields@.len() - i,
    {
        if crate::text::str_eq(t.fields[i].name.as_str(), name) {
            return Some(t.fields[i].type_text.clone());
        }
        i += 1;
    }
    None
}

fn find_enum_variant(types: &Vec<TypeDecl>, variant: &str) -> (res: Result<Option<String>, String>)
    ensures
        match enum_variant(types@, variant@) {
            Ok(o) => res is Ok && crate::eval::opt_view(res->Ok_0) == o,
            Err(m) => res is Err && res->Err_0@ == m,
        },
{
    let mut names: Vec<String> = Vec::new();
    let mut i: usize = 0;
    while i < types.len()
        invariant
            i <= types@.len(),
            crate::diagnostic::strs(names@) == enums_with(types@, variant@, i as int),
        decreases types@.len() - i,
    {
        let t = &types[i];
        if t.is_enum() && has_name(&t.variants, variant) {
            names.push(t.name.clone());
            proof {
                assert(crate::diagnostic::strs(names@) =~= enums_with(types@, variant@, i as int).push(t.name@));
            }
        }
        i += 1;
    }
    proof {
        assert(crate::diagnostic::strs(names@).len() == names@.len());
    }
    if names.len() == 0 {
        Ok(None)
    } else if names.len() == 1 {
        Ok(Some(names[0].clone()))
    } else {
        let mut m = owned("Enum variant `");
        m.append(variant);
        m.append("` is ambiguous across enum types: ");
        let j = crate::text::join_strings(names.as_slice(), ", ");
        m.append(j.as_str());
        m.append(".");
        proof {
            assert(names@.map_values(|p: String| p@) =~= crate::diagnostic::strs(names@));
        }
        Err(m)
    }
}

fn rparen_position(p: &ExprParser, start: usize) -> (res: Result<usize, String>)
    ensures
        match rparen_from(p.toks(), start as int, 0) {
            Ok(i) => res is Ok && res->Ok_0 as int == i && i < p.tokens@.len(),
            Err(m) => res is Err && res->Err_0@ == m,
        },
{
    let ghost ts = p.toks();
    let mut depth: usize = 0;
    let mut i: usize = start;
    while i < p.tokens.len()
        invariant
            ts == p.toks(),
            ts.len() == p.tokens@.len(),
            start <= i,
            depth <= i - start,
            rparen_from(ts, i as int, depth as int) == rparen_from(ts, start as int, 0),
        decreases p.tokens@.len() - i,
    {
        if token_is(&p.tokens[i], &Token::LParen) {
            depth = depth + 1;
        } else if token_is(&p.tokens[i], &Token::RParen) {
            if depth == 0 {
                return Ok(i);
            }
            depth = depth - 1;
        }
        i += 1;
    }
    Err(owned("Expected token RParen to close while body."))
}


// ---------------------------------------------------------------------------
// Calls in executable code
// ---------------------------------------------------------------------------
/// What a call returns: its value, and the arguments bound to the parameters' names.
pub struct CallResult {
    pub value: Value,
    pub args: Vec<(String, Value)>,
}

pub open spec fn call_outcome(res: Result<CallResult, String>, o: Result<(Val, Seq<(Seq<char>, Val)>), Seq<char>>) -> bool {
    match o {
        Ok((v, b)) => res is Ok && value_view(res->Ok_0.value) == v && vars_view(res->Ok_0.args@) == b,
        Err(m) => res is Err && res->Err_0@ == m,
    }
}

fn arity_message(name: &str, n: usize, got: usize) -> (res: String)
    ensures
        res@ == arity_error(name@, n as nat, got as nat),
{
    let mut m = owned("Function `");
    m.append(name);
    m.append("` expected ");
    let a = crate::text::usize_text(n);
    m.append(a.as_str());
    m.append(" arguments, got ");
    let b = crate::text::usize_text(got);
    m.append(b.as_str());
    m.append(".");
    m
}

pub open spec fn vals_of(args: Seq<Value>) -> Seq<Val> {
    args.map_values(|v: Value| value_view(v))
}

fn list_arg_error(name: &str, v: &Value) -> (res: String)
    ensures
        res@ == "Function `"@ + name@ + "` argument 1 expected List<T>, got "@ + show(value_view(*v)) + "."@,
{
    let mut m = owned("Function `");
    m.append(name);
    m.append("` argument 1 expected List<T>, got ");
    let t = v.to_text();
    m.append(t.as_str());
    m.append(".");
    m
}

fn call_intrinsic(sym: &str, name: &str, args: Vec<Value>) -> (res: Result<CallResult, String>)
    requires
        is_intrinsic_symbol(sym@),
    ensures
        call_outcome(res, intrinsic_call(sym@, name@, vals_of(args@))),
{
    let ghost av = vals_of(args@);
    let mut args = args;
    if crate::text::str_eq(sym, crate::intrinsics::PRINT_SYMBOL) {
        if args.len() != 1 {
            return Err(arity_message(name, 1, args.len()));
        }
        let v = args.pop().unwrap();
        assert(value_view(v) == av[0]);
        match &v {
            Value::Text(_) => {
                let mut b: Vec<(String, Value)> = Vec::new();
                b.push((owned("text"), v));
                proof {
                    assert(vars_view(b@) =~= seq![("text"@, av[0])]);
                }
                return Ok(CallResult { value: Value::Unit, args: b });
            },
            _ => {
                let mut m = owned("Function `");
                m.append(name);
                m.append("` argument 1 expected Text, got ");
                let t = v.to_text();
                m.append(t.as_str());
                m.append(".");
                return Err(m);
            },
        }
    }
    if crate::text::str_eq(sym, crate::intrinsics::READ_LINE_SYMBOL) {
        if args.len() != 0 {
            return Err(arity_message(name, 0, args.len()));
        }
        let b: Vec<(String, Value)> = Vec::new();
        proof {
            assert(vars_view(b@) =~= Seq::<(Seq<char>, Val)>::empty());
        }
        let r = CallResult { value: Value::Text(String::new()), args: b };
        assert(value_view(r.value) == Val::Text(seq![]));
        return Ok(r);
    }
    if crate::text::str_eq(sym, crate::intrinsics::LEN_SYMBOL) {
        if args.len() != 1 {
            return Err(arity_message(name, 1, args.len()));
        }
        let v = args.pop().unwrap();
        assert(value_view(v) == av[0]);
        let n = match &v {
            Value::List { elements, .. } => {
                proof {
                    crate::values::lemma_values_view(*elements, elements@.len());
                }
                elements.len()
            },
            _ => {
                return Err(list_arg_error(name, &v));
            },
        };
        if (n as u64) > 9223372036854775807u64 {
            return Err(owned("Integer overflow."));
        }
        let mut b: Vec<(String, Value)> = Vec::new();
        b.push((owned("list"), v));
        proof {
            assert(vars_view(b@) =~= seq![("list"@, av[0])]);
        }
        return Ok(CallResult { value: Value::Int(n as i64), args: b });
    }
    if args.len() != 2 {
        return Err(arity_message(name, 2, args.len()));
    }
    let value = args.pop().unwrap();
    let list = args.pop().unwrap();
    assert(value_view(value) == av[1]);
    assert(value_view(list) == av[0]);
    let is_contains = crate::text::str_eq(sym, crate::intrinsics::CONTAINS_SYMBOL);
    let (et, found, extended) = match &list {
        Value::List { element_type, elements } => {
            let vt = crate::values::value_type_text(&value);
            if let Some(t) = element_type {
                if !crate::values::accepts(vt.as_str(), t.as_str()) {
                    let mut m = owned("Function `");
                    m.append(name);
                    m.append("` argument 2 expected ");
                    m.append(t.as_str());
                    m.append(", got ");
                    m.append(vt.as_str());
                    m.append(".");
                    return Err(m);
                }
            }
            proof {
                crate::values::lemma_values_view(*elements, elements@.len());
            }
            if is_contains {
                let mut found = false;
                let mut i: usize = 0;
                while i < elements.len()
                    invariant
                        i <= elements@.len(),
                        crate::values::vals(*elements).len() == elements@.len(),
                        forall|k: int| 0 <= k < elements@.len() ==> #[trigger] crate::values::vals(*elements)[k] == value_view(elements@[k]),
                        found == crate::values::vals(*elements).take(i as int).contains(value_view(value)),
                    decreases elements@.len() - i,
                {
                    let same = crate::values::same_value(&elements[i], &value);
                    proof {
                        let vv = value_view(value);
                        let sq = crate::values::vals(*elements).take(i as int);
                        let tq = crate::values::vals(*elements).take(i + 1);
                        assert(tq =~= sq.push(value_view(elements@[i as int])));
                        if sq.contains(vv) {
                            let j = choose|j: int| 0 <= j < sq.len() && sq[j] == vv;
                            assert(tq[j] == vv);
                        }
                        if same {
                            assert(tq[i as int] == vv);
                        }
                        if tq.contains(vv) && !same {
                            let j = choose|j: int| 0 <= j < tq.len() && tq[j] == vv;
                            assert(j < i);
                            assert(sq[j] == vv);
                        }
                    }
                    if !found && same {
                        found = true;
                    }
                    i += 1;
                }
                proof {
                    assert(crate::values::vals(*elements).take(elements@.len() as int) =~= crate::values::vals(*elements));
                }
                (None, found, Vec::new())
            } else {
                let t = match element_type {
                    Some(t) => t.clone(),
                    None => vt,
                };
                let mut out: Vec<Value> = Vec::new();
                let mut i: usize = 0;
                while i < elements.len()
                    invariant
                        i <= elements@.len(),
                        out@.len() == i,
                        forall|k: int| 0 <= k < i ==> #[trigger] value_view(out@[k]) == value_view(elements@[k]),
                    decreases elements@.len() - i,
                {
                    out.push(elements[i].copy());
                    i += 1;
                }
                out.push(value.copy());
                proof {
                    crate::values::lemma_values_view(out, out@.len());
                    assert(crate::values::vals(out) =~= crate::values::vals(*elements).push(value_view(value)));
                }
                (Some(t), false, out)
            }
        },
        _ => {
            return Err(list_arg_error(name, &list));
        },
    };
    let mut b: Vec<(String, Value)> = Vec::new();
    b.push((owned("list"), list));
    b.push((owned("value"), value));
    proof {
        assert(vars_view(b@) =~= seq![("list"@, av[0]), ("value"@, av[1])]);
    }
    if is_contains {
        Ok(CallResult { value: Value::Bool(found), args: b })
    } else {
        Ok(CallResult { value: Value::List { element_type: et, elements: extended }, args: b })
    }
}

fn bind_arguments(f: &Function, args: Vec<Value>) -> (res: Result<Vec<(String, Value)>, String>)
    requires
        args@.len() == f.params@.len(),
    ensures
        match bind_params(f.params@, vals_of(args@), 0, seq![]) {
            Ok(b) => res is Ok && vars_view(res->Ok_0@) == b,
            Err(m) => res is Err && res->Err_0@ == m,
        },
{
    let ghost av = vals_of(args@);
    let mut out: Vec<(String, Value)> = Vec::new();
    assert(vars_view(out@) =~= Seq::<(Seq<char>, Val)>::empty());
    let mut i: usize = 0;
    while i < f.params.len()
        invariant
            i <= f.params@.len(),
            av == vals_of(args@),
            av.len() == f.params@.len(),
            bind_params(f.params@, av, i as int, vars_view(out@)) == bind_params(f.params@, av, 0, seq![]),
        decreases f.params@.len() - i,
    {
        let v = args[i].copy();
        let c = crate::values::coerce_value_to_type(v, f.params[i].type_text.as_str());
        match c {
            Err(m) => return Err(m),
            Ok(w) => {
                var_store(&mut out, f.params[i].name.clone(), w);
            },
        }
        i += 1;
    }
    Ok(out)
}


// ---------------------------------------------------------------------------
// The scans of match bodies on token views
// ---------------------------------------------------------------------------
proof fn lemma_body_start(ts: Seq<Token>, i: int, pa: int, br: int)
    ensures
        body_start_from(ts, i, pa, br) == body_start_from(plains(crate::eval::token_views(ts)), i, pa, br),
        body_start_from(ts, i, pa, br) is Ok ==> i <= body_start_from(ts, i, pa, br)->Ok_0 < ts.len(),
    decreases ts.len() - i,
{
    let q = plains(crate::eval::token_views(ts));
    assert(q.len() == ts.len());
    if 0 <= i < ts.len() {
        assert(q[i] == plain_of(ts[i]@));
        match ts[i] {
            Token::LParen => lemma_body_start(ts, i + 1, pa + 1, br),
            Token::LBracket => lemma_body_start(ts, i + 1, pa, br + 1),
            Token::RParen => lemma_body_start(ts, i + 1, pa - 1, br),
            Token::RBracket => lemma_body_start(ts, i + 1, pa, br - 1),
            _ => lemma_body_start(ts, i + 1, pa, br),
        }
    }
}

proof fn lemma_branch_end(ts: Seq<Token>, i: int, pa: int, br: int, bc: int)
    ensures
        branch_end_from(ts, i, pa, br, bc) == branch_end_from(plains(crate::eval::token_views(ts)), i, pa, br, bc),
        branch_end_from(ts, i, pa, br, bc) is Ok ==> i <= branch_end_from(ts, i, pa, br, bc)->Ok_0 < ts.len(),
    decreases ts.len() - i,
{
    let q = plains(crate::eval::token_views(ts));
    assert(q.len() == ts.len());
    if 0 <= i < ts.len() {
        assert(q[i] == plain_of(ts[i]@));
        match ts[i] {
            Token::LParen => lemma_branch_end(ts, i + 1, pa + 1, br, bc),
            Token::LBracket => lemma_branch_end(ts, i + 1, pa, br + 1, bc),
            Token::RParen => lemma_branch_end(ts, i + 1, pa - 1, br, bc),
            Token::RBracket => lemma_branch_end(ts, i + 1, pa, br - 1, bc),
            Token::LBrace => lemma_branch_end(ts, i + 1, pa, br, bc + 1),
            Token::RBrace => lemma_branch_end(ts, i + 1, pa, br, bc - 1),
            _ => lemma_branch_end(ts, i + 1, pa, br, bc),
        }
    }
}

// ---------------------------------------------------------------------------
// The evaluator
// ---------------------------------------------------------------------------
/// Evaluates expressions against the functions and types of a program.
pub struct Evaluator {
    functions: Vec<Function>,
    intrinsics: Vec<Function>,
    types: Vec<TypeDecl>,
    call_depth: usize,
}

impl View for Evaluator {
    type V = Env;

    closed spec fn view(&self) -> Env {
        Env { fs: self.functions@, ins: self.intrinsics@, types: self.types@, depth: self.call_depth as int }
    }
}

impl Evaluator {
    pub closed spec fn at_depth(self, depth: int) -> Env {
        Env { depth: depth, ..self@ }
    }

    /// An evaluator for the given functions and types, before any call.
    pub fn new(functions: &[Function], types: &[TypeDecl]) -> (res: Evaluator)
        ensures
            crate::edits::same_functions(res@.fs, functions@),
            res@.types.len() == types@.len(),
            forall|k: int| 0 <= k < types@.len() ==> crate::model::same_type(#[trigger] res@.types[k], types@[k]),
            crate::intrinsics::is_intrinsic_list(res@.ins),
            res@.depth == 0,
    {
        let mut fs: Vec<Function> = Vec::new();
        let mut i: usize = 0;
        while i < functions.len()
            invariant
                i <= functions@.len(),
                fs@.len() == i,
                forall|k: int| 0 <= k < i ==> crate::model::same_function(#[trigger] fs@[k], functions@[k]),
            decreases functions@.len() - i,
        {
            fs.push(functions[i].copy());
            i += 1;
        }
        let mut ts: Vec<TypeDecl> = Vec::new();
        let mut j: usize = 0;
        while j < types.len()
            invariant
                j <= types@.len(),
                ts@.len() == j,
                forall|k: int| 0 <= k < j ==> crate::model::same_type(#[trigger] ts@[k], types@[k]),
            decreases types@.len() - j,
        {
            ts.push(types[j].copy());
            j += 1;
        }
        Evaluator { functions: fs, intrinsics: crate::intrinsics::intrinsic_functions(), types: ts, call_depth: 0 }
    }

    /// Calls the function that `name` names with `args`.
    pub fn call(&mut self, name: &str, args: Vec<Value>) -> (res: Result<CallResult, String>)
        ensures
            final(self)@ == old(self)@,
            call_outcome(res, ev_call(old(self)@, name@, vals_of(args@), u64::MAX as nat)),
    {
        let d = self.call_depth;
        call_function(self, d, name, args, u64::MAX)
    }

    /// Evaluates `expression` with the given local variables.
    pub fn eval(&mut self, expression: &str, variables: &Vec<(String, Value)>) -> (res: Result<Value, String>)
        ensures
            final(self)@ == old(self)@,
            value_outcome(res, eval_spec(old(self)@, expression@, vars_view(variables@))),
    {
        let d = self.call_depth;
        proof {
            reveal(eval_spec);
        }
        eval_text(self, d, expression, variables, u64::MAX)
    }
}

/// What an expression evaluates to, with the given variables.
#[verifier::opaque]
pub open spec fn eval_spec(e: Env, expression: Seq<char>, vars: Seq<(Seq<char>, Val)>) -> Result<Val, Seq<char>> {
    ev_eval(e, expression, vars, u64::MAX as nat)
}

pub open spec fn env_of(ev: Evaluator, depth: usize) -> Env {
    ev.at_depth(depth as int)
}


// ---------------------------------------------------------------------------
// Parsing and evaluating in executable code
// ---------------------------------------------------------------------------
proof fn lemma_field_vals(v: Vec<(String, Value)>)
    ensures
        crate::values::field_vals(v) == vars_view(v@),
{
    crate::values::lemma_fields_view(v, v@.len());
    assert(crate::values::field_vals(v) =~= vars_view(v@));
}

fn parse_seq(p: &mut ExprParser, ev: &Evaluator, depth: usize, fuel: u64) -> (res: Result<Value, String>)
    requires
        old(p).wf(),
    ensures
        final(p).tokens == old(p).tokens,
        res is Ok ==> old(p).index <= final(p).index,
        outcome(res, *final(p), p_seq(env_of(*ev, depth), old(p).toks(), old(p).st(), fuel as nat)),
    decreases fuel, 0nat,
{
    if fuel == 0 {
        return Err(owned("Evaluation ran out of steps."));
    }
    if at_tok(p, &Token::Let) {
        p.index = p.index + 1;
        let name = match expect_ident_tok(p) {
            Ok(n) => n,
            Err(m) => return Err(m),
        };
        match expect_tok(p, &Token::Assign) {
            Ok(_) => {},
            Err(m) => return Err(m),
        }
        let value = match parse_if(p, ev, depth, fuel - 1) {
            Ok(v) => v,
            Err(m) => return Err(m),
        };
        match expect_tok(p, &Token::Semicolon) {
            Ok(_) => {},
            Err(m) => return Err(m),
        }
        let previous = var_lookup(&p.variables, name.as_str());
        let ghost a0 = p.assignable@;
        var_store(&mut p.variables, name.clone(), value);
        p.assignable.push(name.clone());
        proof {
            assert(crate::diagnostic::strs(p.assignable@) =~= crate::diagnostic::strs(a0).push(name@));
        }
        let v = match parse_seq(p, ev, depth, fuel - 1) {
            Ok(v) => v,
            Err(m) => return Err(m),
        };
        let ghost a1 = p.assignable@;
        p.assignable.pop();
        proof {
            assert(crate::diagnostic::strs(p.assignable@) =~= pop_last(crate::diagnostic::strs(a1)));
        }
        match previous {
            Some(pv) => var_store(&mut p.variables, name, pv),
            None => var_remove(&mut p.variables, name.as_str()),
        }
        return Ok(v);
    }
    if at_tok(p, &Token::Update) {
        p.index = p.index + 1;
        let name = match expect_ident_tok(p) {
            Ok(n) => n,
            Err(m) => return Err(m),
        };
        match expect_tok(p, &Token::Assign) {
            Ok(_) => {},
            Err(m) => return Err(m),
        }
        if !has_name(&p.assignable, name.as_str()) {
            let mut m = owned("`set` can only update an existing local `let` binding, got `");
            m.append(name.as_str());
            m.append("`.");
            return Err(m);
        }
        let value = match parse_if(p, ev, depth, fuel - 1) {
            Ok(v) => v,
            Err(m) => return Err(m),
        };
        let current = match var_lookup(&p.variables, name.as_str()) {
            Some(c) => c,
            None => {
                let mut m = owned("Unknown variable `");
                m.append(name.as_str());
                m.append("`.");
                return Err(m);
            },
        };
        if !crate::values::same_value_type(&current, &value) {
            let mut m = owned("`set ");
            m.append(name.as_str());
            m.append("` expected ");
            let a = crate::values::value_type_text(&current);
            m.append(a.as_str());
            m.append(", got ");
            let b = crate::values::value_type_text(&value);
            m.append(b.as_str());
            m.append(".");
            return Err(m);
        }
        var_store(&mut p.variables, name, value);
        return parse_after(p, ev, depth, Value::Unit, fuel - 1);
    }
    if at_tok(p, &Token::While) {
        p.index = p.index + 1;
        let cond_start = p.index;
        let first = match parse_seq(p, ev, depth, fuel - 1) {
            Ok(v) => v,
            Err(m) => return Err(m),
        };
        let cond_end = p.index;
        match expect_tok(p, &Token::Do) {
            Ok(_) => {},
            Err(m) => return Err(m),
        }
        match expect_tok(p, &Token::LParen) {
            Ok(_) => {},
            Err(m) => return Err(m),
        }
        let body_start = p.index;
        let body_end = match rparen_position(p, body_start) {
            Ok(i) => i,
            Err(m) => return Err(m),
        };
        p.index = body_end;
        match expect_tok(p, &Token::RParen) {
            Ok(_) => {},
            Err(m) => return Err(m),
        }
        proof {
            lemma_rparen_from(p.toks(), body_start as int, 0);
        }
        let cond = copy_tokens(&p.tokens, cond_start, cond_end);
        let body = copy_tokens(&p.tokens, body_start, body_end);
        let vars = copy_vars(&p.variables);
        let vars = match while_run(ev, depth, &cond, &body, vars, &p.assignable, first, fuel - 1) {
            Ok(v) => v,
            Err(m) => return Err(m),
        };
        p.variables = vars;
        return parse_after(p, ev, depth, Value::Unit, fuel - 1);
    }
    let first = match parse_if(p, ev, depth, fuel - 1) {
        Ok(v) => v,
        Err(m) => return Err(m),
    };
    parse_after(p, ev, depth, first, fuel - 1)
}

proof fn lemma_rparen_from(ts: Seq<SpecToken>, i: int, d: int)
    ensures
        rparen_from(ts, i, d) is Ok ==> i <= rparen_from(ts, i, d)->Ok_0 < ts.len(),
    decreases ts.len() - i,
{
    if 0 <= i < ts.len() {
        lemma_rparen_from(ts, i + 1, d + 1);
        lemma_rparen_from(ts, i + 1, d - 1);
        lemma_rparen_from(ts, i + 1, d);
    }
}

#[verifier::loop_isolation(false)]
fn while_run(
    ev: &Evaluator,
    depth: usize,
    cond: &Vec<Token>,
    body: &Vec<Token>,
    vars: Vec<(String, Value)>,
    asg: &Vec<String>,
    c: Value,
    fuel: u64,
) -> (res: Result<Vec<(String, Value)>, String>)
    ensures
        match while_loop(
            env_of(*ev, depth),
            crate::eval::token_views(cond@),
            crate::eval::token_views(body@),
            vars_view(vars@),
            crate::diagnostic::strs(asg@),
            value_view(c),
            0,
            fuel as nat,
        ) {
            Ok(v) => res is Ok && vars_view(res->Ok_0@) == v,
            Err(m) => res is Err && res->Err_0@ == m,
        },
    decreases fuel, 0nat,
{
    let ghost target = while_loop(
        env_of(*ev, depth),
        crate::eval::token_views(cond@),
        crate::eval::token_views(body@),
        vars_view(vars@),
        crate::diagnostic::strs(asg@),
        value_view(c),
        0,
        fuel as nat,
    );
    let mut vars = vars;
    let mut c = c;
    let mut it: usize = 0;
    let mut f: u64 = fuel;
    loop
        invariant
            it <= WHILE_EVALUATION_LIMIT,
            f <= fuel,
            while_loop(
                env_of(*ev, depth),
                crate::eval::token_views(cond@),
                crate::eval::token_views(body@),
                vars_view(vars@),
                crate::diagnostic::strs(asg@),
                value_view(c),
                it as nat,
                f as nat,
            ) == target,
        decreases f,
    {
        if f == 0 {
            return Err(owned("Evaluation ran out of steps."));
        }
        let b = match &c {
            Value::Bool(b) => *b,
            _ => {
                let mut m = owned("While condition must be Bool, got ");
                let t = c.to_text();
                m.append(t.as_str());
                m.append(".");
                return Err(m);
            },
        };
        assert(value_view(c) == Val::Bool(b));
        if !b {
            assert(target == Ok::<Seq<(Seq<char>, Val)>, Seq<char>>(vars_view(vars@)));
            return Ok(vars);
        }
        if it >= WHILE_EVALUATION_LIMIT {
            return Err(owned("While evaluation limit exceeded after 10000 iterations."));
        }
        let bt = copy_tokens(body, 0, body.len());
        proof {
            assert(crate::eval::token_views(body@).subrange(0, body@.len() as int) =~= crate::eval::token_views(body@));
        }
        let (v1, bv) = match sub_parse_run(ev, depth, bt, vars, copy_strings(asg), f - 1) {
            Ok(r) => r,
            Err(m) => return Err(m),
        };
        match &bv {
            Value::Unit => {},
            _ => {
                let mut m = owned("While body must be Unit, got ");
                let t = bv.to_text();
                m.append(t.as_str());
                m.append(".");
                return Err(m);
            },
        }
        let ct = copy_tokens(cond, 0, cond.len());
        proof {
            assert(crate::eval::token_views(cond@).subrange(0, cond@.len() as int) =~= crate::eval::token_views(cond@));
        }
        let v1c = copy_vars(&v1);
        let (_, c2) = match sub_parse_run(ev, depth, ct, v1c, copy_strings(asg), f - 1) {
            Ok(r) => r,
            Err(m) => return Err(m),
        };
        vars = v1;
        c = c2;
        it = it + 1;
        f = f - 1;
    }
}

fn sub_parse_run(
    ev: &Evaluator,
    depth: usize,
    ts: Vec<Token>,
    vars: Vec<(String, Value)>,
    asg: Vec<String>,
    fuel: u64,
) -> (res: Result<(Vec<(String, Value)>, Value), String>)
    ensures
        match sub_parse(
            env_of(*ev, depth),
            crate::eval::token_views(ts@),
            vars_view(vars@),
            crate::diagnostic::strs(asg@),
            fuel as nat,
        ) {
            Ok((vs, v)) => res is Ok && vars_view(res->Ok_0.0@) == vs && value_view(res->Ok_0.1) == v,
            Err(m) => res is Err && res->Err_0@ == m,
        },
    decreases fuel, 0nat,
{
    if fuel == 0 {
        return Err(owned("Evaluation ran out of steps."));
    }
    let mut q = ExprParser { tokens: ts, index: 0, variables: vars, assignable: asg };
    let v = match parse_seq(&mut q, ev, depth, fuel - 1) {
        Ok(v) => v,
        Err(m) => return Err(m),
    };
    match expect_end_tok(&q) {
        Ok(_) => {},
        Err(m) => return Err(m),
    }
    Ok((q.variables, v))
}

fn parse_after(p: &mut ExprParser, ev: &Evaluator, depth: usize, first: Value, fuel: u64) -> (res: Result<Value, String>)
    requires
        old(p).wf(),
    ensures
        final(p).tokens == old(p).tokens,
        res is Ok ==> old(p).index <= final(p).index,
        outcome(res, *final(p), p_after(env_of(*ev, depth), old(p).toks(), old(p).st(), value_view(first), fuel as nat)),
    decreases fuel, 0nat,
{
    if fuel == 0 {
        return Err(owned("Evaluation ran out of steps."));
    }
    if at_tok(p, &Token::Semicolon) {
        match &first {
            Value::Unit => {},
            _ => {
                let mut m = owned("Sequence left expression must be Unit, got ");
                let t = first.to_text();
                m.append(t.as_str());
                m.append(".");
                return Err(m);
            },
        }
        p.index = p.index + 1;
        return parse_seq(p, ev, depth, fuel - 1);
    }
    Ok(first)
}

fn parse_if(p: &mut ExprParser, ev: &Evaluator, depth: usize, fuel: u64) -> (res: Result<Value, String>)
    requires
        old(p).wf(),
    ensures
        final(p).tokens == old(p).tokens,
        res is Ok ==> old(p).index <= final(p).index,
        outcome(res, *final(p), p_if(env_of(*ev, depth), old(p).toks(), old(p).st(), fuel as nat)),
    decreases fuel, 0nat,
{
    if fuel == 0 {
        return Err(owned("Evaluation ran out of steps."));
    }
    if at_tok(p, &Token::If) {
        p.index = p.index + 1;
        let c = match parse_seq(p, ev, depth, fuel - 1) {
            Ok(v) => v,
            Err(m) => return Err(m),
        };
        match expect_tok(p, &Token::Then) {
            Ok(_) => {},
            Err(m) => return Err(m),
        }
        let a = match parse_seq(p, ev, depth, fuel - 1) {
            Ok(v) => v,
            Err(m) => return Err(m),
        };
        match expect_tok(p, &Token::Else) {
            Ok(_) => {},
            Err(m) => return Err(m),
        }
        let b = match parse_seq(p, ev, depth, fuel - 1) {
            Ok(v) => v,
            Err(m) => return Err(m),
        };
        return match &c {
            Value::Bool(true) => Ok(a),
            Value::Bool(false) => Ok(b),
            _ => {
                let mut m = owned("If condition must be Bool, got ");
                let t = c.to_text();
                m.append(t.as_str());
                m.append(".");
                Err(m)
            },
        };
    }
    parse_or(p, ev, depth, fuel - 1)
}

fn parse_or(p: &mut ExprParser, ev: &Evaluator, depth: usize, fuel: u64) -> (res: Result<Value, String>)
    requires
        old(p).wf(),
    ensures
        final(p).tokens == old(p).tokens,
        res is Ok ==> old(p).index <= final(p).index,
        outcome(res, *final(p), p_or(env_of(*ev, depth), old(p).toks(), old(p).st(), fuel as nat)),
    decreases fuel, 0nat,
{
    if fuel == 0 {
        return Err(owned("Evaluation ran out of steps."));
    }
    let left = match parse_and(p, ev, depth, fuel - 1) {
        Ok(v) => v,
        Err(m) => return Err(m),
    };
    or_rest_run(p, ev, depth, left, fuel - 1)
}

fn or_rest_run(p: &mut ExprParser, ev: &Evaluator, depth: usize, left: Value, fuel: u64) -> (res: Result<Value, String>)
    requires
        old(p).wf(),
    ensures
        final(p).tokens == old(p).tokens,
        res is Ok ==> old(p).index <= final(p).index,
        outcome(res, *final(p), or_rest(env_of(*ev, depth), old(p).toks(), old(p).st(), value_view(left), fuel as nat)),
    decreases fuel, 0nat,
{
    if fuel == 0 {
        return Err(owned("Evaluation ran out of steps."));
    }
    if at_tok(p, &Token::Or) {
        p.index = p.index + 1;
        let right = match parse_and(p, ev, depth, fuel - 1) {
            Ok(v) => v,
            Err(m) => return Err(m),
        };
        let lb = match bool_of(&left) {
            Ok(b) => b,
            Err(m) => return Err(m),
        };
        if lb {
            return or_rest_run(p, ev, depth, Value::Bool(true), fuel - 1);
        }
        let rb = match bool_of(&right) {
            Ok(b) => b,
            Err(m) => return Err(m),
        };
        return or_rest_run(p, ev, depth, Value::Bool(rb), fuel - 1);
    }
    Ok(left)
}

fn parse_and(p: &mut ExprParser, ev: &Evaluator, depth: usize, fuel: u64) -> (res: Result<Value, String>)
    requires
        old(p).wf(),
    ensures
        final(p).tokens == old(p).tokens,
        res is Ok ==> old(p).index <= final(p).index,
        outcome(res, *final(p), p_and(env_of(*ev, depth), old(p).toks(), old(p).st(), fuel as nat)),
    decreases fuel, 0nat,
{
    if fuel == 0 {
        return Err(owned("Evaluation ran out of steps."));
    }
    let left = match parse_compare(p, ev, depth, fuel - 1) {
        Ok(v) => v,
        Err(m) => return Err(m),
    };
    and_rest_run(p, ev, depth, left, fuel - 1)
}

fn and_rest_run(p: &mut ExprParser, ev: &Evaluator, depth: usize, left: Value, fuel: u64) -> (res: Result<Value, String>)
    requires
        old(p).wf(),
    ensures
        final(p).tokens == old(p).tokens,
        res is Ok ==> old(p).index <= final(p).index,
        outcome(res, *final(p), and_rest(env_of(*ev, depth), old(p).toks(), old(p).st(), value_view(left), fuel as nat)),
    decreases fuel, 0nat,
{
    if fuel == 0 {
        return Err(owned("Evaluation ran out of steps."));
    }
    if at_tok(p, &Token::And) {
        p.index = p.index + 1;
        let right = match parse_compare(p, ev, depth, fuel - 1) {
            Ok(v) => v,
            Err(m) => return Err(m),
        };
        let lb = match bool_of(&left) {
            Ok(b) => b,
            Err(m) => return Err(m),
        };
        if !lb {
            return and_rest_run(p, ev, depth, Value::Bool(false), fuel - 1);
        }
        let rb = match bool_of(&right) {
            Ok(b) => b,
            Err(m) => return Err(m),
        };
        return and_rest_run(p, ev, depth, Value::Bool(rb), fuel - 1);
    }
    Ok(left)
}

fn compare_op_of(p: &ExprParser) -> (res: Option<CompareOp>)
    ensures
        res == compare_op(p.toks(), p.st()),
        res is Some ==> p.index < p.tokens.len(),
{
    if at_tok(p, &Token::EqEq) {
        Some(CompareOp::Eq)
    } else if at_tok(p, &Token::NotEq) {
        Some(CompareOp::Ne)
    } else if at_tok(p, &Token::LtEq) {
        Some(CompareOp::Le)
    } else if at_tok(p, &Token::GtEq) {
        Some(CompareOp::Ge)
    } else if at_tok(p, &Token::Lt) {
        Some(CompareOp::Lt)
    } else if at_tok(p, &Token::Gt) {
        Some(CompareOp::Gt)
    } else {
        None
    }
}

fn parse_compare(p: &mut ExprParser, ev: &Evaluator, depth: usize, fuel: u64) -> (res: Result<Value, String>)
    requires
        old(p).wf(),
    ensures
        final(p).tokens == old(p).tokens,
        res is Ok ==> old(p).index <= final(p).index,
        outcome(res, *final(p), p_compare(env_of(*ev, depth), old(p).toks(), old(p).st(), fuel as nat)),
    decreases fuel, 0nat,
{
    if fuel == 0 {
        return Err(owned("Evaluation ran out of steps."));
    }
    let left = match parse_add(p, ev, depth, fuel - 1) {
        Ok(v) => v,
        Err(m) => return Err(m),
    };
    compare_rest_run(p, ev, depth, left, fuel - 1)
}

fn compare_rest_run(p: &mut ExprParser, ev: &Evaluator, depth: usize, left: Value, fuel: u64) -> (res: Result<Value, String>)
    requires
        old(p).wf(),
    ensures
        final(p).tokens == old(p).tokens,
        res is Ok ==> old(p).index <= final(p).index,
        outcome(res, *final(p), compare_rest(env_of(*ev, depth), old(p).toks(), old(p).st(), value_view(left), fuel as nat)),
    decreases fuel, 0nat,
{
    if fuel == 0 {
        return Err(owned("Evaluation ran out of steps."));
    }
    let op = match compare_op_of(p) {
        None => return Ok(left),
        Some(op) => op,
    };
    p.index = p.index + 1;
    let right = match parse_add(p, ev, depth, fuel - 1) {
        Ok(v) => v,
        Err(m) => return Err(m),
    };
    let b = match compare_values(&left, &op, &right) {
        Ok(b) => b,
        Err(m) => return Err(m),
    };
    compare_rest_run(p, ev, depth, Value::Bool(b), fuel - 1)
}

fn parse_add(p: &mut ExprParser, ev: &Evaluator, depth: usize, fuel: u64) -> (res: Result<Value, String>)
    requires
        old(p).wf(),
    ensures
        final(p).tokens == old(p).tokens,
        res is Ok ==> old(p).index <= final(p).index,
        outcome(res, *final(p), p_add(env_of(*ev, depth), old(p).toks(), old(p).st(), fuel as nat)),
    decreases fuel, 0nat,
{
    if fuel == 0 {
        return Err(owned("Evaluation ran out of steps."));
    }
    let left = match parse_mul(p, ev, depth, fuel - 1) {
        Ok(v) => v,
        Err(m) => return Err(m),
    };
    add_rest_run(p, ev, depth, left, fuel - 1)
}

fn add_rest_run(p: &mut ExprParser, ev: &Evaluator, depth: usize, left: Value, fuel: u64) -> (res: Result<Value, String>)
    requires
        old(p).wf(),
    ensures
        final(p).tokens == old(p).tokens,
        res is Ok ==> old(p).index <= final(p).index,
        outcome(res, *final(p), add_rest(env_of(*ev, depth), old(p).toks(), old(p).st(), value_view(left), fuel as nat)),
    decreases fuel, 0nat,
{
    if fuel == 0 {
        return Err(owned("Evaluation ran out of steps."));
    }
    let is_plus = at_tok(p, &Token::Plus);
    let is_minus = at_tok(p, &Token::Minus);
    if is_plus || is_minus {
        p.index = p.index + 1;
        let right = match parse_mul(p, ev, depth, fuel - 1) {
            Ok(v) => v,
            Err(m) => return Err(m),
        };
        let r = if is_plus {
            plus_values(&left, &right)
        } else {
            minus_values(&left, &right)
        };
        let v = match r {
            Ok(v) => v,
            Err(m) => return Err(m),
        };
        return add_rest_run(p, ev, depth, v, fuel - 1);
    }
    Ok(left)
}

fn mul_op_of(p: &ExprParser) -> (res: Option<Token>)
    ensures
        res == mul_op(p.toks(), p.st()),
        res is Some ==> p.index < p.tokens.len(),
{
    if at_tok(p, &Token::Star) {
        Some(Token::Star)
    } else if at_tok(p, &Token::SlashSlash) {
        Some(Token::SlashSlash)
    } else if at_tok(p, &Token::Percent) {
        Some(Token::Percent)
    } else {
        None
    }
}

fn parse_mul(p: &mut ExprParser, ev: &Evaluator, depth: usize, fuel: u64) -> (res: Result<Value, String>)
    requires
        old(p).wf(),
    ensures
        final(p).tokens == old(p).tokens,
        res is Ok ==> old(p).index <= final(p).index,
        outcome(res, *final(p), p_mul(env_of(*ev, depth), old(p).toks(), old(p).st(), fuel as nat)),
    decreases fuel, 0nat,
{
    if fuel == 0 {
        return Err(owned("Evaluation ran out of steps."));
    }
    let left = match parse_unary(p, ev, depth, fuel - 1) {
        Ok(v) => v,
        Err(m) => return Err(m),
    };
    mul_rest_run(p, ev, depth, left, fuel - 1)
}

fn mul_rest_run(p: &mut ExprParser, ev: &Evaluator, depth: usize, left: Value, fuel: u64) -> (res: Result<Value, String>)
    requires
        old(p).wf(),
    ensures
        final(p).tokens == old(p).tokens,
        res is Ok ==> old(p).index <= final(p).index,
        outcome(res, *final(p), mul_rest(env_of(*ev, depth), old(p).toks(), old(p).st(), value_view(left), fuel as nat)),
    decreases fuel, 0nat,
{
    if fuel == 0 {
        return Err(owned("Evaluation ran out of steps."));
    }
    let op = match mul_op_of(p) {
        None => return Ok(left),
        Some(op) => op,
    };
    p.index = p.index + 1;
    let right = match parse_unary(p, ev, depth, fuel - 1) {
        Ok(v) => v,
        Err(m) => return Err(m),
    };
    let v = match times_values(&op, &left, &right) {
        Ok(v) => v,
        Err(m) => return Err(m),
    };
    mul_rest_run(p, ev, depth, v, fuel - 1)
}

fn parse_unary(p: &mut ExprParser, ev: &Evaluator, depth: usize, fuel: u64) -> (res: Result<Value, String>)
    requires
        old(p).wf(),
    ensures
        final(p).tokens == old(p).tokens,
        res is Ok ==> old(p).index <= final(p).index,
        outcome(res, *final(p), p_unary(env_of(*ev, depth), old(p).toks(), old(p).st(), fuel as nat)),
    decreases fuel, 0nat,
{
    if fuel == 0 {
        return Err(owned("Evaluation ran out of steps."));
    }
    if at_tok(p, &Token::Minus) {
        p.index = p.index + 1;
        let v = match parse_unary(p, ev, depth, fuel - 1) {
            Ok(v) => v,
            Err(m) => return Err(m),
        };
        let n = match int_of(&v) {
            Ok(n) => n,
            Err(m) => return Err(m),
        };
        return int_value(0i128 - n as i128);
    }
    if at_tok(p, &Token::Not) {
        p.index = p.index + 1;
        let v = match parse_unary(p, ev, depth, fuel - 1) {
            Ok(v) => v,
            Err(m) => return Err(m),
        };
        let b = match bool_of(&v) {
            Ok(b) => b,
            Err(m) => return Err(m),
        };
        return Ok(Value::Bool(!b));
    }
    let v = match parse_primary(p, ev, depth, fuel - 1) {
        Ok(v) => v,
        Err(m) => return Err(m),
    };
    postfix_run(p, ev, depth, v, fuel - 1)
}

fn postfix_run(p: &mut ExprParser, ev: &Evaluator, depth: usize, v: Value, fuel: u64) -> (res: Result<Value, String>)
    requires
        old(p).wf(),
    ensures
        final(p).tokens == old(p).tokens,
        res is Ok ==> old(p).index <= final(p).index,
        outcome(res, *final(p), postfix_rest(env_of(*ev, depth), old(p).toks(), old(p).st(), value_view(v), fuel as nat)),
    decreases fuel, 0nat,
{
    if fuel == 0 {
        return Err(owned("Evaluation ran out of steps."));
    }
    if at_tok(p, &Token::Dot) {
        p.index = p.index + 1;
        let field = match expect_ident_tok(p) {
            Ok(f) => f,
            Err(m) => return Err(m),
        };
        let w = match field_of(&v, field.as_str()) {
            Ok(w) => w,
            Err(m) => return Err(m),
        };
        return postfix_run(p, ev, depth, w, fuel - 1);
    }
    if at_tok(p, &Token::With) {
        p.index = p.index + 1;
        let w = match parse_update(p, ev, depth, v, fuel - 1) {
            Ok(w) => w,
            Err(m) => return Err(m),
        };
        return postfix_run(p, ev, depth, w, fuel - 1);
    }
    Ok(v)
}


#[verifier::loop_isolation(false)]
fn name_parts_run(p: &mut ExprParser, parts: Vec<String>) -> (res: Result<Vec<String>, String>)
    requires
        old(p).wf(),
    ensures
        final(p).tokens == old(p).tokens,
        match name_parts(old(p).toks(), old(p).st(), crate::diagnostic::strs(parts@)) {
            Ok((s, ps)) => res is Ok && final(p).st() == s && final(p).wf() && crate::diagnostic::strs(res->Ok_0@) == ps
                && old(p).index <= final(p).index && res->Ok_0@.len() >= parts@.len(),
            Err(m) => res is Err && res->Err_0@ == m,
        },
{
    let ghost target = name_parts(p.toks(), p.st(), crate::diagnostic::strs(parts@));
    let ghost i0 = p.index;
    let ghost n0 = parts@.len();
    let mut parts = parts;
    while at_tok(p, &Token::Dot)
        invariant
            p.wf(),
            p.toks().len() == p.tokens@.len(),
            p.tokens == old(p).tokens,
            i0 <= p.index,
            parts@.len() >= n0,
            name_parts(p.toks(), p.st(), crate::diagnostic::strs(parts@)) == target,
        decreases p.tokens@.len() - p.index,
    {
        p.index = p.index + 1;
        let part = match expect_ident_tok(p) {
            Ok(x) => x,
            Err(m) => return Err(m),
        };
        let ghost before = parts@;
        parts.push(part);
        proof {
            assert(crate::diagnostic::strs(parts@) =~= crate::diagnostic::strs(before).push(parts@.last()@));
        }
    }
    Ok(parts)
}

#[verifier::loop_isolation(false)]
fn fields_run(v: Value, parts: &Vec<String>) -> (res: Result<Value, String>)
    ensures
        value_outcome(res, fields_of(value_view(v), crate::diagnostic::strs(parts@), 1)),
{
    let ghost v0 = value_view(v);
    assert(crate::diagnostic::strs(parts@).len() == parts@.len());
    let mut v = v;
    let mut i: usize = 1;
    if parts.len() == 0 {
        return Ok(v);
    }
    while i < parts.len()
        invariant
            1 <= i <= parts@.len(),
            fields_of(value_view(v), crate::diagnostic::strs(parts@), i as int) == fields_of(
                v0,
                crate::diagnostic::strs(parts@),
                1,
            ),
            crate::diagnostic::strs(parts@).len() == parts@.len(),
        decreases parts@.len() - i,
    {
        assert(crate::diagnostic::strs(parts@)[i as int] == parts@[i as int]@);
        v = match field_of(&v, parts[i].as_str()) {
            Ok(w) => w,
            Err(m) => return Err(m),
        };
        i += 1;
    }
    Ok(v)
}

fn bare_name_run(types: &Vec<TypeDecl>, vars: &Vec<(String, Value)>, first: String) -> (res: Result<Value, String>)
    ensures
        value_outcome(res, bare_name(types@, vars_view(vars@), first@)),
{
    let variant = match find_enum_variant(types, first.as_str()) {
        Ok(v) => v,
        Err(m) => return Err(m),
    };
    let var = var_lookup(vars, first.as_str());
    match (var, variant) {
        (Some(_), Some(t)) => {
            let mut m = owned("Name `");
            m.append(first.as_str());
            m.append("` is ambiguous between a local variable and enum variant `");
            m.append(t.as_str());
            m.append(".");
            m.append(first.as_str());
            m.append("`.");
            Err(m)
        },
        (Some(v), None) => Ok(v),
        (None, Some(t)) => Ok(Value::Enum { type_text: t, variant: first }),
        (None, None) => {
            let mut m = owned("Unknown variable `");
            m.append(first.as_str());
            m.append("`.");
            Err(m)
        },
    }
}

fn name_call_run(p: &mut ExprParser, ev: &Evaluator, depth: usize, name: String, fuel: u64) -> (res: Result<Value, String>)
    requires
        old(p).wf(),
    ensures
        final(p).tokens == old(p).tokens,
        res is Ok ==> old(p).index <= final(p).index,
        outcome(
            res,
            *final(p),
            match call_args(env_of(*ev, depth), old(p).toks(), old(p).st(), seq![], fuel as nat) {
                Err(m) => Err(m),
                Ok((s2, args)) => match ev_call(env_of(*ev, depth), name@, args, fuel as nat) {
                    Err(m) => Err(m),
                    Ok((v, _)) => Ok((s2, v)),
                },
            },
        ),
    decreases fuel, 1nat,
{
    let none: Vec<Value> = Vec::new();
    assert(vals_of(none@) =~= Seq::<Val>::empty());
    let args = match call_args_run(p, ev, depth, none, fuel) {
        Ok(a) => a,
        Err(m) => return Err(m),
    };
    let r = match call_function(ev, depth, name.as_str(), args, fuel) {
        Ok(r) => r,
        Err(m) => return Err(m),
    };
    Ok(r.value)
}

#[verifier::rlimit(100)]
fn parse_name(p: &mut ExprParser, ev: &Evaluator, depth: usize, first: String, fuel: u64) -> (res: Result<Value, String>)
    requires
        old(p).wf(),
    ensures
        final(p).tokens == old(p).tokens,
        res is Ok ==> old(p).index <= final(p).index,
        outcome(res, *final(p), p_name(env_of(*ev, depth), old(p).toks(), old(p).st(), first@, fuel as nat)),
    decreases fuel, 0nat,
{
    if fuel == 0 {
        return Err(owned("Evaluation ran out of steps."));
    }
    let mut parts: Vec<String> = Vec::new();
    parts.push(first.clone());
    proof {
        assert(crate::diagnostic::strs(parts@) =~= seq![first@]);
    }
    let parts = match name_parts_run(p, parts) {
        Ok(x) => x,
        Err(m) => return Err(m),
    };
    let name = crate::text::join_strings(parts.as_slice(), ".");
    proof {
        assert(parts@.map_values(|q: String| q@) =~= crate::diagnostic::strs(parts@));
    }
    if at_tok(p, &Token::LParen) {
        p.index = p.index + 1;
        return name_call_run(p, ev, depth, name, fuel - 1);
    }
    if at_tok(p, &Token::LBrace) {
        if parts.len() != 1 {
            let mut m = owned("Record construction requires an unqualified type name, got `");
            m.append(name.as_str());
            m.append("`.");
            return Err(m);
        }
        p.index = p.index + 1;
        return parse_construct(p, ev, depth, name, fuel - 1);
    }
    if parts.len() == 1 {
        return bare_name_run(&ev.types, &p.variables, first);
    }
    let v = match var_lookup(&p.variables, first.as_str()) {
        Some(v) => v,
        None => {
            let mut m = owned("Unknown variable `");
            m.append(first.as_str());
            m.append("`.");
            return Err(m);
        },
    };
    fields_run(v, &parts)
}

fn parse_primary(p: &mut ExprParser, ev: &Evaluator, depth: usize, fuel: u64) -> (res: Result<Value, String>)
    requires
        old(p).wf(),
    ensures
        final(p).tokens == old(p).tokens,
        res is Ok ==> old(p).index <= final(p).index,
        outcome(res, *final(p), p_primary(env_of(*ev, depth), old(p).toks(), old(p).st(), fuel as nat)),
    decreases fuel, 0nat,
{
    if fuel == 0 {
        return Err(owned("Evaluation ran out of steps."));
    }
    if p.index >= p.tokens.len() {
        return Err(owned("Unexpected end of expression."));
    }
    let t = copy_token(&p.tokens[p.index]);
    match t {
        Token::Int(n) => {
            p.index = p.index + 1;
            Ok(Value::Int(n))
        },
        Token::Text(s) => {
            p.index = p.index + 1;
            Ok(Value::Text(s))
        },
        Token::Ident(first) => {
            p.index = p.index + 1;
            parse_name(p, ev, depth, first, fuel - 1)
        },
        Token::Unit => {
            p.index = p.index + 1;
            Ok(Value::Unit)
        },
        Token::True => {
            p.index = p.index + 1;
            Ok(Value::Bool(true))
        },
        Token::False => {
            p.index = p.index + 1;
            Ok(Value::Bool(false))
        },
        Token::Match => {
            p.index = p.index + 1;
            parse_match(p, ev, depth, fuel - 1)
        },
        Token::LParen => {
            p.index = p.index + 1;
            let v = match parse_seq(p, ev, depth, fuel - 1) {
                Ok(v) => v,
                Err(m) => return Err(m),
            };
            match expect_tok(p, &Token::RParen) {
                Ok(_) => {},
                Err(m) => return Err(m),
            }
            Ok(v)
        },
        Token::LBracket => {
            p.index = p.index + 1;
            if at_tok(p, &Token::RBracket) {
                p.index = p.index + 1;
                let es: Vec<Value> = Vec::new();
                proof {
                    crate::values::lemma_values_view(es, 0);
                }
                return Ok(Value::List { element_type: None, elements: es });
            }
            list_items_run(p, ev, depth, None, Vec::new(), fuel - 1)
        },
        other => {
            let mut m = owned("Unexpected token ");
            let d = token_debug_text(&other);
            m.append(d.as_str());
            m.append(".");
            Err(m)
        },
    }
}

fn call_args_run(p: &mut ExprParser, ev: &Evaluator, depth: usize, args: Vec<Value>, fuel: u64) -> (res: Result<Vec<Value>, String>)
    requires
        old(p).wf(),
    ensures
        final(p).tokens == old(p).tokens,
        match call_args(env_of(*ev, depth), old(p).toks(), old(p).st(), vals_of(args@), fuel as nat) {
            Ok((s, a)) => res is Ok && final(p).st() == s && final(p).wf() && vals_of(res->Ok_0@) == a && old(p).index <= final(p).index,
            Err(m) => res is Err && res->Err_0@ == m,
        },
    decreases fuel, 0nat,
{
    if fuel == 0 {
        return Err(owned("Evaluation ran out of steps."));
    }
    if args.len() == 0 && at_tok(p, &Token::RParen) {
        p.index = p.index + 1;
        return Ok(args);
    }
    let v = match parse_seq(p, ev, depth, fuel - 1) {
        Ok(v) => v,
        Err(m) => return Err(m),
    };
    let mut args = args;
    let ghost before = args@;
    args.push(v);
    proof {
        assert(vals_of(args@) =~= vals_of(before).push(value_view(args@.last())));
    }
    if at_tok(p, &Token::RParen) {
        p.index = p.index + 1;
        return Ok(args);
    }
    match expect_tok(p, &Token::Comma) {
        Ok(_) => {},
        Err(m) => return Err(m),
    }
    call_args_run(p, ev, depth, args, fuel - 1)
}

fn list_items_run(
    p: &mut ExprParser,
    ev: &Evaluator,
    depth: usize,
    et: Option<String>,
    items: Vec<Value>,
    fuel: u64,
) -> (res: Result<Value, String>)
    requires
        old(p).wf(),
    ensures
        final(p).tokens == old(p).tokens,
        res is Ok ==> old(p).index <= final(p).index,
        outcome(res, *final(p), list_items(env_of(*ev, depth), old(p).toks(), old(p).st(), crate::eval::opt_view(et), crate::values::vals(items), fuel as nat)),
    decreases fuel, 0nat,
{
    if fuel == 0 {
        return Err(owned("Evaluation ran out of steps."));
    }
    let v = match parse_seq(p, ev, depth, fuel - 1) {
        Ok(v) => v,
        Err(m) => return Err(m),
    };
    let vt = crate::values::value_type_text(&v);
    if let Some(t) = &et {
        if !crate::values::accepts(vt.as_str(), t.as_str()) {
            let mut m = owned("List literal elements must have one type, got ");
            m.append(t.as_str());
            m.append(" and ");
            m.append(vt.as_str());
            m.append(".");
            return Err(m);
        }
    }
    let et2 = match et {
        Some(t) => Some(t),
        None => Some(vt),
    };
    let mut items = items;
    let ghost before = items;
    proof {
        crate::values::lemma_values_view(before, before@.len());
    }
    items.push(v);
    proof {
        crate::values::lemma_values_view(items, items@.len());
        assert(crate::values::vals(items) =~= crate::values::vals(before).push(value_view(items@.last())));
    }
    if at_tok(p, &Token::RBracket) {
        p.index = p.index + 1;
        return Ok(Value::List { element_type: et2, elements: items });
    }
    match expect_tok(p, &Token::Comma) {
        Ok(_) => {},
        Err(m) => return Err(m),
    }
    list_items_run(p, ev, depth, et2, items, fuel - 1)
}

fn parse_construct(p: &mut ExprParser, ev: &Evaluator, depth: usize, name: String, fuel: u64) -> (res: Result<Value, String>)
    requires
        old(p).wf(),
    ensures
        final(p).tokens == old(p).tokens,
        res is Ok ==> old(p).index <= final(p).index,
        outcome(res, *final(p), p_construct(env_of(*ev, depth), old(p).toks(), old(p).st(), name@, fuel as nat)),
    decreases fuel, 0nat,
{
    if fuel == 0 {
        return Err(owned("Evaluation ran out of steps."));
    }
    let di = match find_record_decl(&ev.types, name.as_str()) {
        Some(i) => i,
        None => {
            let mut m = owned("Unknown record type `");
            m.append(name.as_str());
            m.append("`.");
            return Err(m);
        },
    };
    let given: Vec<(String, Value)> = Vec::new();
    proof {
        assert(vars_view(given@) =~= Seq::<(Seq<char>, Val)>::empty());
    }
    if at_tok(p, &Token::RBrace) {
        p.index = p.index + 1;
        return record_value_run(name, &ev.types[di], &given);
    }
    construct_fields_run(p, ev, depth, name, di, given, fuel - 1)
}

proof fn lemma_first_missing(decl: TypeDecl, given: Seq<(Seq<char>, Val)>, i: int)
    requires
        0 <= i <= decl.fields@.len(),
        forall|k: int| 0 <= k < i ==> field_get(given, #[trigger] decl.fields@[k].name@, 0) is Some,
    ensures
        first_missing(decl, given, i) == first_missing(decl, given, 0),
    decreases i,
{
    if i > 0 {
        lemma_first_missing(decl, given, i - 1);
    }
}

fn record_value_run(name: String, decl: &TypeDecl, given: &Vec<(String, Value)>) -> (res: Result<Value, String>)
    ensures
        value_outcome(res, record_value(name@, *decl, vars_view(given@))),
{
    proof {
        lemma_field_vals(*given);
    }
    let mut out: Vec<(String, Value)> = Vec::new();
    let mut k: usize = 0;
    while k < decl.fields.len()
        invariant
            k <= decl.fields@.len(),
            crate::values::field_vals(*given) == vars_view(given@),
            out@.len() == k,
            forall|j: int| 0 <= j < k ==> field_get(vars_view(given@), #[trigger] decl.fields@[j].name@, 0) is Some,
            forall|j: int|
                0 <= j < k ==> #[trigger] out@[j].0@ == decl.fields@[j].name@ && value_view(out@[j].1) == field_get(
                    vars_view(given@),
                    decl.fields@[j].name@,
                    0,
                )->0,
        decreases decl.fields@.len() - k,
    {
        match field_value(given, decl.fields[k].name.as_str()) {
            Some(v) => {
                out.push((decl.fields[k].name.clone(), v));
            },
            None => {
                proof {
                    lemma_first_missing(*decl, vars_view(given@), k as int);
                }
                let mut m = owned("Record `");
                m.append(name.as_str());
                m.append("` is missing field `");
                m.append(decl.fields[k].name.as_str());
                m.append("`.");
                return Err(m);
            },
        }
        k += 1;
    }
    proof {
        lemma_first_missing(*decl, vars_view(given@), k as int);
        lemma_field_vals(out);
        assert(vars_view(out@) =~= Seq::new(
            decl.fields@.len(),
            |j: int| (decl.fields@[j].name@, field_get(vars_view(given@), decl.fields@[j].name@, 0)->0),
        ));
    }
    Ok(Value::Record { type_text: name, fields: out })
}

fn construct_fields_run(
    p: &mut ExprParser,
    ev: &Evaluator,
    depth: usize,
    name: String,
    di: usize,
    given: Vec<(String, Value)>,
    fuel: u64,
) -> (res: Result<Value, String>)
    requires
        old(p).wf(),
        di < ev.types@.len(),
    ensures
        final(p).tokens == old(p).tokens,
        res is Ok ==> old(p).index <= final(p).index,
        outcome(res, *final(p), construct_fields(env_of(*ev, depth), old(p).toks(), old(p).st(), name@, ev.types@[di as int], vars_view(given@), fuel as nat)),
    decreases fuel, 0nat,
{
    if fuel == 0 {
        return Err(owned("Evaluation ran out of steps."));
    }
    let field = match expect_ident_tok(p) {
        Ok(f) => f,
        Err(m) => return Err(m),
    };
    match expect_tok(p, &Token::Colon) {
        Ok(_) => {},
        Err(m) => return Err(m),
    }
    proof {
        lemma_field_vals(given);
    }
    if field_value(&given, field.as_str()).is_some() {
        let mut m = owned("Record `");
        m.append(name.as_str());
        m.append("` repeats field `");
        m.append(field.as_str());
        m.append("`.");
        return Err(m);
    }
    let dt = match find_declared_field(&ev.types[di], field.as_str()) {
        Some(t) => t,
        None => {
            let mut m = owned("Record `");
            m.append(name.as_str());
            m.append("` has unknown field `");
            m.append(field.as_str());
            m.append("`.");
            return Err(m);
        },
    };
    let v = match parse_seq(p, ev, depth, fuel - 1) {
        Ok(v) => v,
        Err(m) => return Err(m),
    };
    let actual = crate::values::value_type_text(&v);
    if !crate::values::accepts(actual.as_str(), dt.as_str()) {
        let mut m = owned("Record `");
        m.append(name.as_str());
        m.append("` field `");
        m.append(field.as_str());
        m.append("` expected ");
        m.append(dt.as_str());
        m.append(", got ");
        m.append(actual.as_str());
        m.append(".");
        return Err(m);
    }
    let w = match crate::values::coerce_value_to_type(v, dt.as_str()) {
        Ok(w) => w,
        Err(m) => return Err(m),
    };
    let mut given = given;
    let ghost before = given@;
    given.push((field, w));
    proof {
        assert(vars_view(given@) =~= vars_view(before).push((given@.last().0@, value_view(given@.last().1))));
    }
    if at_tok(p, &Token::RBrace) {
        p.index = p.index + 1;
        return record_value_run(name, &ev.types[di], &given);
    }
    match expect_tok(p, &Token::Comma) {
        Ok(_) => {},
        Err(m) => return Err(m),
    }
    construct_fields_run(p, ev, depth, name, di, given, fuel - 1)
}

fn parse_update(p: &mut ExprParser, ev: &Evaluator, depth: usize, base: Value, fuel: u64) -> (res: Result<Value, String>)
    requires
        old(p).wf(),
    ensures
        final(p).tokens == old(p).tokens,
        res is Ok ==> old(p).index <= final(p).index,
        outcome(res, *final(p), p_update(env_of(*ev, depth), old(p).toks(), old(p).st(), value_view(base), fuel as nat)),
    decreases fuel, 0nat,
{
    if fuel == 0 {
        return Err(owned("Evaluation ran out of steps."));
    }
    match base {
        Value::Record { type_text, fields } => {
            proof {
                lemma_field_vals(fields);
            }
            let di = match find_record_decl(&ev.types, type_text.as_str()) {
                Some(i) => i,
                None => {
                    let mut m = owned("Unknown record type `");
                    m.append(type_text.as_str());
                    m.append("`.");
                    return Err(m);
                },
            };
            match expect_tok(p, &Token::LBrace) {
                Ok(_) => {},
                Err(m) => return Err(m),
            }
            if at_tok(p, &Token::RBrace) {
                p.index = p.index + 1;
                return Ok(Value::Record { type_text, fields });
            }
            update_fields_run(p, ev, depth, type_text, di, fields, fuel - 1)
        },
        other => {
            let mut m = owned("Record update requires a record value, got ");
            let t = other.to_text();
            m.append(t.as_str());
            m.append(".");
            Err(m)
        },
    }
}

fn update_fields_run(
    p: &mut ExprParser,
    ev: &Evaluator,
    depth: usize,
    name: String,
    di: usize,
    fields: Vec<(String, Value)>,
    fuel: u64,
) -> (res: Result<Value, String>)
    requires
        old(p).wf(),
        di < ev.types@.len(),
    ensures
        final(p).tokens == old(p).tokens,
        res is Ok ==> old(p).index <= final(p).index,
        outcome(res, *final(p), update_fields(env_of(*ev, depth), old(p).toks(), old(p).st(), name@, ev.types@[di as int], vars_view(fields@), fuel as nat)),
    decreases fuel, 0nat,
{
    if fuel == 0 {
        return Err(owned("Evaluation ran out of steps."));
    }
    let field = match expect_ident_tok(p) {
        Ok(f) => f,
        Err(m) => return Err(m),
    };
    let dt = match find_declared_field(&ev.types[di], field.as_str()) {
        Some(t) => t,
        None => {
            let mut m = owned("Record `");
            m.append(name.as_str());
            m.append("` has unknown field `");
            m.append(field.as_str());
            m.append("`.");
            return Err(m);
        },
    };
    match expect_tok(p, &Token::Colon) {
        Ok(_) => {},
        Err(m) => return Err(m),
    }
    let v = match parse_seq(p, ev, depth, fuel - 1) {
        Ok(v) => v,
        Err(m) => return Err(m),
    };
    let actual = crate::values::value_type_text(&v);
    if !crate::values::accepts(actual.as_str(), dt.as_str()) {
        let mut m = owned("Record `");
        m.append(name.as_str());
        m.append("` update field `");
        m.append(field.as_str());
        m.append("` expected ");
        m.append(dt.as_str());
        m.append(", got ");
        m.append(actual.as_str());
        m.append(".");
        return Err(m);
    }
    let w = match crate::values::coerce_value_to_type(v, dt.as_str()) {
        Ok(w) => w,
        Err(m) => return Err(m),
    };
    let mut fields = fields;
    var_store(&mut fields, field, w);
    if at_tok(p, &Token::RBrace) {
        p.index = p.index + 1;
        proof {
            lemma_field_vals(fields);
        }
        return Ok(Value::Record { type_text: name, fields });
    }
    match expect_tok(p, &Token::Comma) {
        Ok(_) => {},
        Err(m) => return Err(m),
    }
    update_fields_run(p, ev, depth, name, di, fields, fuel - 1)
}

fn parse_match(p: &mut ExprParser, ev: &Evaluator, depth: usize, fuel: u64) -> (res: Result<Value, String>)
    requires
        old(p).wf(),
    ensures
        final(p).tokens == old(p).tokens,
        res is Ok ==> old(p).index <= final(p).index,
        outcome(res, *final(p), p_match(env_of(*ev, depth), old(p).toks(), old(p).st(), fuel as nat)),
    decreases fuel, 0nat,
{
    if fuel == 0 {
        return Err(owned("Evaluation ran out of steps."));
    }
    proof {
        lemma_body_start(p.tokens@, p.index as int, 0, 0);
    }
    let body_start = match crate::eval::find_match_body_start(p.tokens.as_slice(), p.index) {
        Ok(i) => i,
        Err(m) => return Err(m),
    };
    let sub = copy_tokens(&p.tokens, p.index, body_start);
    let vars = copy_vars(&p.variables);
    let (vars, matched) = match sub_parse_run(ev, depth, sub, vars, copy_strings(&p.assignable), fuel - 1) {
        Ok(r) => r,
        Err(m) => return Err(m),
    };
    p.variables = vars;
    p.index = body_start;
    match expect_tok(p, &Token::LBrace) {
        Ok(_) => {},
        Err(m) => return Err(m),
    }
    match matched {
        Value::Enum { type_text, variant } => {
            if at_tok(p, &Token::RBrace) {
                let mut m = owned("match on enum `");
                m.append(type_text.as_str());
                m.append("` has no branches.");
                return Err(m);
            }
            match_branches_run(p, ev, depth, type_text, variant, None, 0, fuel - 1)
        },
        other => {
            let mut m = owned("match expression must be an enum, got ");
            let t = other.to_text();
            m.append(t.as_str());
            m.append(".");
            Err(m)
        },
    }
}

pub open spec fn opt_val(o: Option<Value>) -> Option<Val> {
    match o {
        Some(v) => Some(value_view(v)),
        None => None,
    }
}

fn match_branches_run(
    p: &mut ExprParser,
    ev: &Evaluator,
    depth: usize,
    t: String,
    variant: String,
    selected: Option<Value>,
    count: usize,
    fuel: u64,
) -> (res: Result<Value, String>)
    requires
        old(p).wf(),
        count <= old(p).index,
    ensures
        final(p).tokens == old(p).tokens,
        res is Ok ==> old(p).index <= final(p).index,
        outcome(res, *final(p), match_branches(env_of(*ev, depth), old(p).toks(), old(p).st(), t@, variant@, opt_val(selected), count as nat, fuel as nat)),
    decreases fuel, 0nat,
{
    if fuel == 0 {
        return Err(owned("Evaluation ran out of steps."));
    }
    let branch = match expect_ident_tok(p) {
        Ok(b) => b,
        Err(m) => return Err(m),
    };
    match expect_tok(p, &Token::Arrow) {
        Ok(_) => {},
        Err(m) => return Err(m),
    }
    proof {
        lemma_branch_end(p.tokens@, p.index as int, 0, 0, 0);
    }
    let end = match crate::eval::find_match_branch_end(p.tokens.as_slice(), p.index) {
        Ok(i) => i,
        Err(m) => return Err(m),
    };
    let mut selected = selected;
    if crate::text::str_eq(branch.as_str(), variant.as_str()) {
        let sub = copy_tokens(&p.tokens, p.index, end);
        let vars = copy_vars(&p.variables);
        let (vars, v) = match sub_parse_run(ev, depth, sub, vars, copy_strings(&p.assignable), fuel - 1) {
            Ok(r) => r,
            Err(m) => return Err(m),
        };
        p.variables = vars;
        selected = Some(v);
    }
    p.index = end;
    let n = count + 1;
    if at_tok(p, &Token::RBrace) {
        p.index = p.index + 1;
        return branches_done_run(t, variant, selected, n);
    }
    match expect_tok(p, &Token::Comma) {
        Ok(_) => {},
        Err(m) => return Err(m),
    }
    if at_tok(p, &Token::RBrace) {
        p.index = p.index + 1;
        return branches_done_run(t, variant, selected, n);
    }
    match_branches_run(p, ev, depth, t, variant, selected, n, fuel - 1)
}

fn branches_done_run(t: String, variant: String, selected: Option<Value>, n: usize) -> (res: Result<Value, String>)
    ensures
        match branches_done(St { index: 0, vars: seq![], assignable: seq![] }, t@, variant@, opt_val(selected), n as nat) {
            Ok((_, v)) => res is Ok && value_view(res->Ok_0) == v,
            Err(m) => res is Err && res->Err_0@ == m,
        },
{
    match selected {
        Some(v) => Ok(v),
        None => {
            let mut m = owned("match on enum `");
            m.append(t.as_str());
            m.append("` did not cover variant `");
            m.append(variant.as_str());
            m.append("` across ");
            let c = crate::text::usize_text(n);
            m.append(c.as_str());
            m.append(" branches.");
            Err(m)
        },
    }
}

// ---------------------------------------------------------------------------
// Calls and whole expressions in executable code
// ---------------------------------------------------------------------------
fn call_function(ev: &Evaluator, depth: usize, name: &str, args: Vec<Value>, fuel: u64) -> (res: Result<CallResult, String>)
    ensures
        call_outcome(res, ev_call(env_of(*ev, depth), name@, vals_of(args@), fuel as nat)),
    decreases fuel, 0nat,
{
    if fuel == 0 {
        return Err(owned("Evaluation ran out of steps."));
    }
    let f = match crate::eval::resolve_in(name, ev.functions.as_slice(), ev.intrinsics.as_slice()) {
        Ok(f) => f,
        Err(m) => return Err(m),
    };
    let ghost g = resolved(ev.functions@, ev.intrinsics@, name@)->Ok_0;
    assert(crate::model::same_function(f, g));
    let sym = f.symbol();
    if crate::text::str_eq(sym.as_str(), crate::intrinsics::PRINT_SYMBOL) || crate::text::str_eq(
        sym.as_str(),
        crate::intrinsics::READ_LINE_SYMBOL,
    ) || crate::text::str_eq(sym.as_str(), crate::intrinsics::LEN_SYMBOL) || crate::text::str_eq(
        sym.as_str(),
        crate::intrinsics::CONTAINS_SYMBOL,
    ) || crate::text::str_eq(sym.as_str(), crate::intrinsics::PUSH_SYMBOL) {
        return call_intrinsic(sym.as_str(), name, args);
    }
    let body = match &f.implementation {
        Some(b) => b.clone(),
        None => {
            let mut m = owned("Function `");
            m.append(name);
            m.append("` has no implementation.");
            return Err(m);
        },
    };
    if args.len() != f.params.len() {
        return Err(arity_message(name, f.params.len(), args.len()));
    }
    if depth > 50 {
        return Err(owned("Evaluation recursion limit exceeded."));
    }
    let bindings = match bind_arguments(&f, args) {
        Ok(b) => b,
        Err(m) => return Err(m),
    };
    match check_requires_run(ev, depth + 1, name, &f.requires, 0, &bindings, fuel - 1) {
        Ok(_) => {},
        Err(m) => return Err(m),
    }
    let v = match eval_text(ev, depth + 1, body.as_str(), &bindings, fuel - 1) {
        Ok(v) => v,
        Err(m) => return Err(m),
    };
    let w = match crate::values::coerce_value_to_type(v, f.return_type.as_str()) {
        Ok(w) => w,
        Err(m) => return Err(m),
    };
    Ok(CallResult { value: w, args: bindings })
}

fn check_requires_run(
    ev: &Evaluator,
    depth: usize,
    name: &str,
    reqs: &Vec<String>,
    i: usize,
    bindings: &Vec<(String, Value)>,
    fuel: u64,
) -> (res: Result<(), String>)
    ensures
        match check_requires(env_of(*ev, depth), name@, reqs@, i as int, vars_view(bindings@), fuel as nat) {
            Ok(_) => res is Ok,
            Err(m) => res is Err && res->Err_0@ == m,
        },
    decreases fuel, 0nat,
{
    if fuel == 0 {
        return Err(owned("Evaluation ran out of steps."));
    }
    if i >= reqs.len() {
        return Ok(());
    }
    let v = match eval_text(ev, depth, reqs[i].as_str(), bindings, fuel - 1) {
        Ok(v) => v,
        Err(m) => return Err(m),
    };
    match &v {
        Value::Bool(true) => check_requires_run(ev, depth, name, reqs, i + 1, bindings, fuel - 1),
        Value::Bool(false) => {
            let mut m = owned("Precondition failed for `");
            m.append(name);
            m.append("`: `");
            m.append(reqs[i].as_str());
            m.append("`.");
            Err(m)
        },
        _ => {
            let mut m = owned("Precondition for `");
            m.append(name);
            m.append("` must evaluate to Bool, got ");
            let t = v.to_text();
            m.append(t.as_str());
            m.append(".");
            Err(m)
        },
    }
}

fn eval_text(ev: &Evaluator, depth: usize, text: &str, vars: &Vec<(String, Value)>, fuel: u64) -> (res: Result<Value, String>)
    ensures
        value_outcome(res, ev_eval(env_of(*ev, depth), text@, vars_view(vars@), fuel as nat)),
    decreases fuel, 0nat,
{
    if fuel == 0 {
        return Err(owned("Evaluation ran out of steps."));
    }
    let ts = match crate::eval::tokenize(text) {
        Ok(t) => t,
        Err(m) => return Err(m),
    };
    let vs = copy_vars(vars);
    let asg: Vec<String> = Vec::new();
    proof {
        assert(crate::diagnostic::strs(asg@) =~= Seq::<Seq<char>>::empty());
    }
    match sub_parse_run(ev, depth, ts, vs, asg, fuel - 1) {
        Ok((_, v)) => Ok(v),
        Err(m) => Err(m),
    }
}

} // verus!
