//! Symbolic expressions of math lines: variables, derivatives,
//! simplification and printing.

use crate::math::number::{
    add_spec, div_spec, ipow, lemma_ipow_pos, mul_spec, percent_spec, pow_spec, short_text, sub_spec,
    Rational,
};
use crate::math::quantity::join;
use crate::text::{chars_to_string, equals_str, push_chars, push_str, str_to_chars};
use vstd::prelude::*;

verus! {

broadcast use vstd::std_specs::vec::axiom_vec_index_decreases;

/// A binary operator.
#[derive(Clone, Copy, Debug, PartialEq, Eq, Structural)]
pub enum Op {
    Add,
    Sub,
    Mul,
    Div,
    Pow,
    Mod,
    BitAnd,
    BitOr,
    LShift,
    RShift,
    Eq,
    Ne,
    Less,
    LessEq,
    Greater,
    GreaterEq,
    And,
    Or,
}

/// An expression of a math line.
#[derive(Debug)]
pub enum Expr {
    Number(Rational),
    Quantity(Rational, String),
    Variable(String),
    Percentage(Box<Expr>),
    BinaryOp(Op, Box<Expr>, Box<Expr>),
    FnCall(String, Vec<Expr>),
    Convert(Box<Expr>, String),
    List(Vec<Expr>),
    Not(Box<Expr>),
    BitNot(Box<Expr>),
    Block(Vec<Expr>),
    LocalAssign(String, Box<Expr>),
    IfElse { cond: Box<Expr>, then_expr: Box<Expr>, else_expr: Box<Expr> },
    Switch { val: Box<Expr>, cases: Vec<(Expr, Expr)>, default_case: Option<Box<Expr>> },
    StringLiteral(String),
}

/// The mathematical model of an `Expr`: numbers as fractions, text as
/// character sequences.
pub enum ExprV {
    Number((int, int)),
    Quantity((int, int), Seq<char>),
    Variable(Seq<char>),
    Percentage(Box<ExprV>),
    BinaryOp(Op, Box<ExprV>, Box<ExprV>),
    FnCall(Seq<char>, Seq<ExprV>),
    Convert(Box<ExprV>, Seq<char>),
    List(Seq<ExprV>),
    Not(Box<ExprV>),
    BitNot(Box<ExprV>),
    Block(Seq<ExprV>),
    LocalAssign(Seq<char>, Box<ExprV>),
    IfElse(Box<ExprV>, Box<ExprV>, Box<ExprV>),
    Switch(Box<ExprV>, Seq<(ExprV, ExprV)>, Option<Box<ExprV>>),
    StringLiteral(Seq<char>),
}

/// The model of an expression.
pub open spec fn ev(e: Expr) -> ExprV
    decreases e, 0nat,
{
    match e {
        Expr::Number(n) => ExprV::Number(n@),
        Expr::Quantity(n, u) => ExprV::Quantity(n@, u@),
        Expr::Variable(s) => ExprV::Variable(s@),
        Expr::Percentage(x) => ExprV::Percentage(Box::new(ev(*x))),
        Expr::BinaryOp(op, l, r) => ExprV::BinaryOp(op, Box::new(ev(*l)), Box::new(ev(*r))),
        Expr::FnCall(s, args) => ExprV::FnCall(s@, evs(args@)),
        Expr::Convert(x, u) => ExprV::Convert(Box::new(ev(*x)), u@),
        Expr::List(els) => ExprV::List(evs(els@)),
        Expr::Not(x) => ExprV::Not(Box::new(ev(*x))),
        Expr::BitNot(x) => ExprV::BitNot(Box::new(ev(*x))),
        Expr::Block(els) => ExprV::Block(evs(els@)),
        Expr::LocalAssign(s, x) => ExprV::LocalAssign(s@, Box::new(ev(*x))),
        Expr::IfElse { cond, then_expr, else_expr } => ExprV::IfElse(
            Box::new(ev(*cond)),
            Box::new(ev(*then_expr)),
            Box::new(ev(*else_expr)),
        ),
        Expr::Switch { val, cases, default_case } => ExprV::Switch(
            Box::new(ev(*val)),
            evcases(cases@),
            match default_case {
                Some(d) => Some(Box::new(ev(*d))),
                None => None,
            },
        ),
        Expr::StringLiteral(s) => ExprV::StringLiteral(s@),
    }
}

/// The models of a sequence of expressions.
pub open spec fn evs(s: Seq<Expr>) -> Seq<ExprV>
    decreases s, 1nat,
{
    if s.len() == 0 {
        Seq::empty()
    } else {
        evs(s.drop_last()).push(ev(s.last()))
    }
}

/// The models of the cases of a `switch`.
pub open spec fn evcases(s: Seq<(Expr, Expr)>) -> Seq<(ExprV, ExprV)>
    decreases s, 1nat,
{
    if s.len() == 0 {
        Seq::empty()
    } else {
        evcases(s.drop_last()).push((ev(s.last().0), ev(s.last().1)))
    }
}

impl View for Expr {
    type V = ExprV;

    open spec fn view(&self) -> ExprV {
        ev(*self)
    }
}

/// `evs` maps each expression to its model.
pub proof fn lemma_evs(s: Seq<Expr>)
    ensures
        evs(s).len() == s.len(),
        forall|i: int| 0 <= i < s.len() ==> #[trigger] evs(s)[i] == ev(s[i]),
    decreases s.len(),
{
    if s.len() > 0 {
        lemma_evs(s.drop_last());
        assert forall|i: int| 0 <= i < s.len() implies #[trigger] evs(s)[i] == ev(s[i]) by {
            if i < s.len() - 1 {
                assert(s.drop_last()[i] == s[i]);
            }
        }
    }
}

/// `evcases` maps each case to the models of its pattern and body.
pub proof fn lemma_evcases(s: Seq<(Expr, Expr)>)
    ensures
        evcases(s).len() == s.len(),
        forall|i: int|
            0 <= i < s.len() ==> #[trigger] evcases(s)[i] == (ev(s[i].0), ev(s[i].1)),
    decreases s.len(),
{
    if s.len() > 0 {
        lemma_evcases(s.drop_last());
        assert forall|i: int| 0 <= i < s.len() implies #[trigger] evcases(s)[i] == (
            ev(s[i].0),
            ev(s[i].1),
        ) by {
            if i < s.len() - 1 {
                assert(s.drop_last()[i] == s[i]);
            }
        }
    }
}

/// The binding strength of an operator (higher binds tighter).
pub open spec fn precedence(op: Op) -> nat {
    match op {
        Op::Or => 1,
        Op::And => 2,
        Op::BitOr => 3,
        Op::BitAnd => 4,
        Op::Eq | Op::Ne | Op::Less | Op::LessEq | Op::Greater | Op::GreaterEq => 5,
        Op::LShift | Op::RShift => 6,
        Op::Add | Op::Sub => 7,
        Op::Mul | Op::Div | Op::Mod => 8,
        Op::Pow => 9,
    }
}

/// The name of an operator, as its debug form prints it.
pub open spec fn op_name(op: Op) -> Seq<char> {
    match op {
        Op::Add => "Add"@,
        Op::Sub => "Sub"@,
        Op::Mul => "Mul"@,
        Op::Div => "Div"@,
        Op::Pow => "Pow"@,
        Op::Mod => "Mod"@,
        Op::BitAnd => "BitAnd"@,
        Op::BitOr => "BitOr"@,
        Op::LShift => "LShift"@,
        Op::RShift => "RShift"@,
        Op::Eq => "Eq"@,
        Op::Ne => "Ne"@,
        Op::Less => "Less"@,
        Op::LessEq => "LessEq"@,
        Op::Greater => "Greater"@,
        Op::GreaterEq => "GreaterEq"@,
        Op::And => "And"@,
        Op::Or => "Or"@,
    }
}

/// The text of an operator between its operands.
pub open spec fn op_text(op: Op) -> Seq<char> {
    match op {
        Op::Add => " + "@,
        Op::Sub => " - "@,
        Op::Mul => " * "@,
        Op::Div => " / "@,
        Op::Pow => "^"@,
        Op::Mod => " % "@,
        Op::BitAnd => " & "@,
        Op::BitOr => " | "@,
        Op::LShift => " << "@,
        Op::RShift => " >> "@,
        Op::Eq => " == "@,
        Op::Ne => " != "@,
        Op::Less => " < "@,
        Op::LessEq => " <= "@,
        Op::Greater => " > "@,
        Op::GreaterEq => " >= "@,
        Op::And => " and "@,
        Op::Or => " or "@,
    }
}

/// The variable `var` occurs in `e` (as a variable or as the target of a
/// local assignment).
pub open spec fn contains_var(e: ExprV, var: Seq<char>) -> bool
    decreases e, 0nat,
{
    match e {
        ExprV::Variable(name) => name == var,
        ExprV::Percentage(x) => contains_var(*x, var),
        ExprV::Not(x) => contains_var(*x, var),
        ExprV::BitNot(x) => contains_var(*x, var),
        ExprV::Convert(x, _) => contains_var(*x, var),
        ExprV::BinaryOp(_, l, r) => contains_var(*l, var) || contains_var(*r, var),
        ExprV::FnCall(_, args) => any_contains_var(args, var),
        ExprV::List(args) => any_contains_var(args, var),
        ExprV::Block(args) => any_contains_var(args, var),
        ExprV::Number(_) => false,
        ExprV::Quantity(_, _) => false,
        ExprV::StringLiteral(_) => false,
        ExprV::LocalAssign(name, x) => name == var || contains_var(*x, var),
        ExprV::IfElse(c, t, f) => contains_var(*c, var) || contains_var(*t, var) || contains_var(
            *f,
            var,
        ),
        ExprV::Switch(v, cases, d) => contains_var(*v, var) || cases_contain_var(cases, var) || (
        match d {
            Some(x) => contains_var(*x, var),
            None => false,
        }),
    }
}

/// `var` occurs in one of `s`.
pub open spec fn any_contains_var(s: Seq<ExprV>, var: Seq<char>) -> bool
    decreases s, 1nat,
{
    if s.len() == 0 {
        false
    } else {
        any_contains_var(s.drop_last(), var) || contains_var(s.last(), var)
    }
}

/// `var` occurs in a pattern or a body of one of the cases.
pub open spec fn cases_contain_var(s: Seq<(ExprV, ExprV)>, var: Seq<char>) -> bool
    decreases s, 1nat,
{
    if s.len() == 0 {
        false
    } else {
        cases_contain_var(s.drop_last(), var) || contains_var(s.last().0, var) || contains_var(
            s.last().1,
            var,
        )
    }
}

/// The first variable met in a left-to-right walk through percentages,
/// operators, calls, conversions, lists and negations.
pub open spec fn first_var(e: ExprV) -> Option<Seq<char>>
    decreases e, 0nat,
{
    match e {
        ExprV::Variable(name) => Some(name),
        ExprV::Percentage(x) => first_var(*x),
        ExprV::BinaryOp(_, l, r) => match first_var(*l) {
            Some(v) => Some(v),
            None => first_var(*r),
        },
        ExprV::FnCall(_, args) => first_var_in(args),
        ExprV::Convert(x, _) => first_var(*x),
        ExprV::List(els) => first_var_in(els),
        ExprV::Not(x) => first_var(*x),
        ExprV::BitNot(x) => first_var(*x),
        _ => None,
    }
}

/// The first variable in the first of `s` that has one.
pub open spec fn first_var_in(s: Seq<ExprV>) -> Option<Seq<char>>
    decreases s, 1nat,
{
    if s.len() == 0 {
        None
    } else {
        match first_var_in(s.drop_last()) {
            Some(v) => Some(v),
            None => first_var(s.last()),
        }
    }
}

/// `acc` followed by the variables met in the same walk as `first_var`,
/// each once, in order of first appearance.
pub open spec fn collect_vars(e: ExprV, acc: Seq<Seq<char>>) -> Seq<Seq<char>>
    decreases e, 0nat,
{
    match e {
        ExprV::Variable(name) => if acc.contains(name) {
            acc
        } else {
            acc.push(name)
        },
        ExprV::Percentage(x) => collect_vars(*x, acc),
        ExprV::BinaryOp(_, l, r) => collect_vars(*r, collect_vars(*l, acc)),
        ExprV::FnCall(_, args) => collect_vars_in(args, acc),
        ExprV::Convert(x, _) => collect_vars(*x, acc),
        ExprV::List(els) => collect_vars_in(els, acc),
        ExprV::Not(x) => collect_vars(*x, acc),
        ExprV::BitNot(x) => collect_vars(*x, acc),
        _ => acc,
    }
}

/// `collect_vars` over each of `s` in turn.
pub open spec fn collect_vars_in(s: Seq<ExprV>, acc: Seq<Seq<char>>) -> Seq<Seq<char>>
    decreases s, 1nat,
{
    if s.len() == 0 {
        acc
    } else {
        collect_vars(s.last(), collect_vars_in(s.drop_last(), acc))
    }
}


/// The integer constant `n`.
pub open spec fn num(n: int) -> ExprV {
    ExprV::Number((n, 1))
}

/// `op(l, r)`.
pub open spec fn bin(op: Op, l: ExprV, r: ExprV) -> ExprV {
    ExprV::BinaryOp(op, Box::new(l), Box::new(r))
}

/// A call of `name` on the single argument `u`.
pub open spec fn call1(name: Seq<char>, u: ExprV) -> ExprV {
    ExprV::FnCall(name, seq![u])
}

/// The derivative of `e` with respect to `var`, or why there is none: sums,
/// products, quotients and powers by their rules, `sin`, `cos`, `exp`, `ln`
/// and `log` of one argument by the chain rule; percentages, conversions and
/// lists element by element.
pub open spec fn deriv(e: ExprV, var: Seq<char>) -> Result<ExprV, Seq<char>>
    decreases e, 0nat,
{
    match e {
        ExprV::Number(_) => Ok(num(0)),
        ExprV::Quantity(_, _) => Ok(num(0)),
        ExprV::Variable(name) => Ok(
            if name == var {
                num(1)
            } else {
                num(0)
            },
        ),
        ExprV::Percentage(x) => match deriv(*x, var) {
            Ok(d) => Ok(ExprV::Percentage(Box::new(d))),
            Err(m) => Err(m),
        },
        ExprV::BinaryOp(op, l, r) => {
            let (l, r) = (*l, *r);
            if op == Op::Add || op == Op::Sub || op == Op::Mul || op == Op::Div {
                match deriv(l, var) {
                    Err(m) => Err(m),
                    Ok(dl) => match deriv(r, var) {
                        Err(m) => Err(m),
                        Ok(dr) => Ok(
                            if op == Op::Add {
                                bin(Op::Add, dl, dr)
                            } else if op == Op::Sub {
                                bin(Op::Sub, dl, dr)
                            } else if op == Op::Mul {
                                bin(Op::Add, bin(Op::Mul, dl, r), bin(Op::Mul, l, dr))
                            } else {
                                bin(
                                    Op::Div,
                                    bin(Op::Sub, bin(Op::Mul, dl, r), bin(Op::Mul, l, dr)),
                                    bin(Op::Pow, r, num(2)),
                                )
                            },
                        ),
                    },
                }
            } else if op == Op::Pow {
                let lh = contains_var(l, var);
                let rh = contains_var(r, var);
                if lh && !rh {
                    match deriv(l, var) {
                        Err(m) => Err(m),
                        Ok(du) => Ok(
                            bin(
                                Op::Mul,
                                bin(Op::Mul, r, bin(Op::Pow, l, bin(Op::Sub, r, num(1)))),
                                du,
                            ),
                        ),
                    }
                } else if !lh && rh {
                    match deriv(r, var) {
                        Err(m) => Err(m),
                        Ok(du) => Ok(bin(Op::Mul, bin(Op::Mul, e, call1("ln"@, l)), du)),
                    }
                } else if lh && rh {
                    match deriv(l, var) {
                        Err(m) => Err(m),
                        Ok(du) => match deriv(r, var) {
                            Err(m) => Err(m),
                            Ok(dv) => Ok(
                                bin(
                                    Op::Mul,
                                    e,
                                    bin(
                                        Op::Add,
                                        bin(Op::Mul, dv, call1("ln"@, l)),
                                        bin(Op::Div, bin(Op::Mul, r, du), l),
                                    ),
                                ),
                            ),
                        },
                    }
                } else {
                    Ok(num(0))
                }
            } else {
                Err("Cannot differentiate operation "@ + op_name(op))
            }
        },
        ExprV::FnCall(name, args) => if args.len() != 1 {
            Err("Differentiating multi-argument functions is not supported"@)
        } else {
            let u = args[0];
            match deriv(u, var) {
                Err(m) => Err(m),
                Ok(du) => if name == "sin"@ {
                    Ok(bin(Op::Mul, call1("cos"@, u), du))
                } else if name == "cos"@ {
                    Ok(bin(Op::Mul, bin(Op::Sub, num(0), call1("sin"@, u)), du))
                } else if name == "exp"@ {
                    Ok(bin(Op::Mul, call1("exp"@, u), du))
                } else if name == "ln"@ || name == "log"@ {
                    Ok(bin(Op::Div, du, u))
                } else {
                    Err("Differentiating function '"@ + name + "' is not supported"@)
                },
            }
        },
        ExprV::Convert(x, unit) => match deriv(*x, var) {
            Ok(d) => Ok(ExprV::Convert(Box::new(d), unit)),
            Err(m) => Err(m),
        },
        ExprV::List(els) => match deriv_all(els, var) {
            Ok(ds) => Ok(ExprV::List(ds)),
            Err(m) => Err(m),
        },
        _ => Err("Unsupported expression for differentiation"@),
    }
}

/// The derivatives of each of `s`, or the first failure.
pub open spec fn deriv_all(s: Seq<ExprV>, var: Seq<char>) -> Result<Seq<ExprV>, Seq<char>>
    decreases s, 1nat,
{
    if s.len() == 0 {
        Ok(Seq::empty())
    } else {
        match deriv_all(s.drop_last(), var) {
            Err(m) => Err(m),
            Ok(ds) => match deriv(s.last(), var) {
                Err(m) => Err(m),
                Ok(d) => Ok(ds.push(d)),
            },
        }
    }
}

/// `e` is a number equal to zero.
pub open spec fn is_zero_num(e: ExprV) -> bool {
    e matches ExprV::Number(n) && n.0 == 0
}

/// `e` is a number equal to one.
pub open spec fn is_one_num(e: ExprV) -> bool {
    e matches ExprV::Number(n) && n.0 == n.1
}

/// `e` is `0 - x` for some `x`.
pub open spec fn is_negation(e: ExprV) -> bool {
    e matches ExprV::BinaryOp(op, z, _) && op == Op::Sub && is_zero_num(*z)
}

/// The negated part `x` of `0 - x`.
pub open spec fn negated(e: ExprV) -> ExprV
    recommends
        is_negation(e),
{
    match e {
        ExprV::BinaryOp(_, _, x) => *x,
        _ => e,
    }
}

/// Folds `f` on two numbers when it is defined, else keeps `op(l, r)`.
pub open spec fn fold_or(op: Op, l: ExprV, r: ExprV, f: Option<(int, int)>) -> ExprV {
    match f {
        Some(v) => ExprV::Number(v),
        None => bin(op, l, r),
    }
}

/// One step of simplification of `op(sl, sr)` with simplified operands:
/// neutral and absorbing constants, constant folding (when the exact result
/// fits), and `a + (0 - b)` as `a - b`, `a - (0 - b)` as `a + b`.
pub open spec fn simp_bin(op: Op, sl: ExprV, sr: ExprV) -> ExprV {
    if op == Op::Add {
        if is_zero_num(sl) {
            sr
        } else if is_zero_num(sr) {
            sl
        } else if sl is Number && sr is Number {
            fold_or(op, sl, sr, add_spec(sl->Number_0, sr->Number_0))
        } else if is_negation(sr) {
            bin(Op::Sub, sl, negated(sr))
        } else {
            bin(op, sl, sr)
        }
    } else if op == Op::Sub {
        if is_zero_num(sr) {
            sl
        } else if sl is Number && sr is Number {
            fold_or(op, sl, sr, sub_spec(sl->Number_0, sr->Number_0))
        } else if is_negation(sr) {
            bin(Op::Add, sl, negated(sr))
        } else {
            bin(op, sl, sr)
        }
    } else if op == Op::Mul {
        if is_zero_num(sl) || is_zero_num(sr) {
            num(0)
        } else if is_one_num(sl) {
            sr
        } else if is_one_num(sr) {
            sl
        } else if sl is Number && sr is Number {
            fold_or(op, sl, sr, mul_spec(sl->Number_0, sr->Number_0))
        } else {
            bin(op, sl, sr)
        }
    } else if op == Op::Div {
        if is_zero_num(sl) {
            num(0)
        } else if is_one_num(sr) {
            sl
        } else if sl is Number && sr is Number && !is_zero_num(sr) {
            fold_or(op, sl, sr, div_spec(sl->Number_0, sr->Number_0))
        } else {
            bin(op, sl, sr)
        }
    } else if op == Op::Pow {
        if is_zero_num(sr) {
            num(1)
        } else if is_one_num(sr) {
            sl
        } else if is_one_num(sl) {
            num(1)
        } else if sl is Number && sr is Number {
            fold_or(op, sl, sr, pow_spec(sl->Number_0, sr->Number_0))
        } else {
            bin(op, sl, sr)
        }
    } else {
        bin(op, sl, sr)
    }
}

/// `e` simplified bottom-up through operators, percentages (a number
/// percentage becomes its hundredth) and call arguments; other expressions
/// are kept.
pub open spec fn simp(e: ExprV) -> ExprV
    decreases e, 0nat,
{
    match e {
        ExprV::BinaryOp(op, l, r) => simp_bin(op, simp(*l), simp(*r)),
        ExprV::Percentage(x) => {
            let si = simp(*x);
            match si {
                ExprV::Number(n) => match percent_spec(n) {
                    Some(p) => ExprV::Number(p),
                    None => ExprV::Percentage(Box::new(si)),
                },
                _ => ExprV::Percentage(Box::new(si)),
            }
        },
        ExprV::FnCall(name, args) => ExprV::FnCall(name, simp_all(args)),
        _ => e,
    }
}

/// Each of `s` simplified.
pub open spec fn simp_all(s: Seq<ExprV>) -> Seq<ExprV>
    decreases s, 1nat,
{
    if s.len() == 0 {
        Seq::empty()
    } else {
        simp_all(s.drop_last()).push(simp(s.last()))
    }
}


/// `s` in parentheses.
pub open spec fn paren(s: Seq<char>) -> Seq<char> {
    seq!['('] + s + seq![')']
}

/// The text of an expression, with parentheses only where precedence needs
/// them (`0 - x` printed as `-x`).
pub open spec fn to_text(e: ExprV) -> Seq<char>
    decreases e, 0nat,
{
    match e {
        ExprV::Number(v) => short_text(v),
        ExprV::Quantity(v, unit) => short_text(v) + unit,
        ExprV::Variable(name) => name,
        ExprV::Percentage(x) => to_text(*x) + seq!['%'],
        ExprV::BinaryOp(op, l, r) => if op == Op::Sub && is_zero_num(*l) {
            let rp = match *r {
                ExprV::BinaryOp(rop, _, _) => precedence(rop),
                _ => 100,
            };
            seq!['-'] + if rp < 7 {
                paren(to_text(*r))
            } else {
                to_text(*r)
            }
        } else {
            let pp = precedence(op);
            let ls = match *l {
                ExprV::BinaryOp(lop, _, _) => if precedence(lop) < pp {
                    paren(to_text(*l))
                } else {
                    to_text(*l)
                },
                _ => to_text(*l),
            };
            let rs = match *r {
                ExprV::BinaryOp(rop, _, _) => if precedence(rop) < pp || (precedence(rop) == pp
                    && op != Op::Pow) {
                    paren(to_text(*r))
                } else {
                    to_text(*r)
                },
                _ => to_text(*r),
            };
            ls + op_text(op) + rs
        },
        ExprV::FnCall(name, args) => name + seq!['('] + join(to_texts(args), ", "@) + seq![')'],
        ExprV::Convert(x, unit) => to_text(*x) + " in "@ + unit,
        ExprV::List(els) => seq!['['] + join(to_texts(els), ", "@) + seq![']'],
        ExprV::Not(x) => "not "@ + to_text(*x),
        ExprV::BitNot(x) => seq!['~'] + to_text(*x),
        ExprV::Block(els) => "{\n  "@ + join(to_texts(els), "\n  "@) + "\n}"@,
        ExprV::LocalAssign(name, x) => name + " = "@ + to_text(*x),
        ExprV::IfElse(c, t, f) => "if "@ + to_text(*c) + seq![' '] + to_text(*t) + " else "@
            + to_text(*f),
        ExprV::Switch(v, cases, d) => "switch "@ + to_text(*v) + " {\n  "@ + join(
            case_texts(cases) + match d {
                Some(x) => seq!["default => "@ + to_text(*x)],
                None => Seq::empty(),
            },
            "\n  "@,
        ) + "\n}"@,
        ExprV::StringLiteral(s) => seq!['"'] + s + seq!['"'],
    }
}

/// The texts of each of `s`.
pub open spec fn to_texts(s: Seq<ExprV>) -> Seq<Seq<char>>
    decreases s, 1nat,
{
    if s.len() == 0 {
        Seq::empty()
    } else {
        to_texts(s.drop_last()).push(to_text(s.last()))
    }
}

/// The texts `pattern => body` of each case.
pub open spec fn case_texts(s: Seq<(ExprV, ExprV)>) -> Seq<Seq<char>>
    decreases s, 1nat,
{
    if s.len() == 0 {
        Seq::empty()
    } else {
        case_texts(s.drop_last()).push(to_text(s.last().0) + " => "@ + to_text(s.last().1))
    }
}


impl Expr {
    /// A copy of the expression.
    pub fn duplicate(&self) -> (r: Expr)
        ensures
            r@ == self@,
        decreases self, 0nat,
    {
        match self {
            Expr::Number(n) => Expr::Number(*n),
            Expr::Quantity(n, u) => Expr::Quantity(*n, u.clone()),
            Expr::Variable(s) => Expr::Variable(s.clone()),
            Expr::Percentage(x) => Expr::Percentage(Box::new(x.duplicate())),
            Expr::BinaryOp(op, l, r) => Expr::BinaryOp(
                *op,
                Box::new(l.duplicate()),
                Box::new(r.duplicate()),
            ),
            Expr::FnCall(s, args) => Expr::FnCall(s.clone(), duplicate_all(args)),
            Expr::Convert(x, u) => Expr::Convert(Box::new(x.duplicate()), u.clone()),
            Expr::List(els) => Expr::List(duplicate_all(els)),
            Expr::Not(x) => Expr::Not(Box::new(x.duplicate())),
            Expr::BitNot(x) => Expr::BitNot(Box::new(x.duplicate())),
            Expr::Block(els) => Expr::Block(duplicate_all(els)),
            Expr::LocalAssign(s, x) => Expr::LocalAssign(s.clone(), Box::new(x.duplicate())),
            Expr::IfElse { cond, then_expr, else_expr } => Expr::IfElse {
                cond: Box::new(cond.duplicate()),
                then_expr: Box::new(then_expr.duplicate()),
                else_expr: Box::new(else_expr.duplicate()),
            },
            Expr::Switch { val, cases, default_case } => {
                let d = match default_case {
                    Some(x) => Some(Box::new(x.duplicate())),
                    None => None,
                };
                Expr::Switch {
                    val: Box::new(val.duplicate()),
                    cases: duplicate_cases(cases),
                    default_case: d,
                }
            },
            Expr::StringLiteral(s) => Expr::StringLiteral(s.clone()),
        }
    }
}

/// Copies of the expressions.
pub fn duplicate_all(v: &Vec<Expr>) -> (r: Vec<Expr>)
    ensures
        evs(r@) == evs(v@),
    decreases v, 1nat,
{
    let mut r: Vec<Expr> = Vec::new();
    let mut i: usize = 0;
    while i < v.len()
        invariant
            i <= v@.len(),
            evs(r@) == evs(v@.take(i as int)),
        decreases v.len() - i,
    {
        let ghost before = r@;
        let c = v[i].duplicate();
        r.push(c);
        proof {
            assert(r@.drop_last() =~= before);
            assert(v@.take(i + 1).drop_last() =~= v@.take(i as int));
        }
        i += 1;
    }
    assert(v@.take(v@.len() as int) =~= v@);
    r
}

fn duplicate_cases(v: &Vec<(Expr, Expr)>) -> (r: Vec<(Expr, Expr)>)
    ensures
        evcases(r@) == evcases(v@),
    decreases v, 1nat,
{
    let mut r: Vec<(Expr, Expr)> = Vec::new();
    let mut i: usize = 0;
    while i < v.len()
        invariant
            i <= v@.len(),
            evcases(r@) == evcases(v@.take(i as int)),
        decreases v.len() - i,
    {
        let ghost before = r@;
        let a = v[i].0.duplicate();
        let b = v[i].1.duplicate();
        r.push((a, b));
        proof {
            assert(r@.drop_last() =~= before);
            assert(v@.take(i + 1).drop_last() =~= v@.take(i as int));
        }
        i += 1;
    }
    assert(v@.take(v@.len() as int) =~= v@);
    r
}

/// The binding strength of an operator.
pub fn get_op_precedence(op: &Op) -> (r: u8)
    ensures
        r == precedence(*op),
{
    match op {
        Op::Or => 1,
        Op::And => 2,
        Op::BitOr => 3,
        Op::BitAnd => 4,
        Op::Eq | Op::Ne | Op::Less | Op::LessEq | Op::Greater | Op::GreaterEq => 5,
        Op::LShift | Op::RShift => 6,
        Op::Add | Op::Sub => 7,
        Op::Mul | Op::Div | Op::Mod => 8,
        Op::Pow => 9,
    }
}

/// The text is `var`.
fn is_named(name: &String, var: &str) -> (r: bool)
    ensures
        r == (name@ == var@),
{
    let c = str_to_chars(name.as_str());
    equals_str(c.as_slice(), var)
}

/// The variable `var_name` occurs in the expression.
pub fn expr_contains_var(expr: &Expr, var_name: &str) -> (r: bool)
    ensures
        r == contains_var(expr@, var_name@),
    decreases expr, 0nat,
{
    match expr {
        Expr::Variable(name) => is_named(name, var_name),
        Expr::Percentage(x) | Expr::Not(x) | Expr::BitNot(x) | Expr::Convert(x, _) => {
            expr_contains_var(x, var_name)
        },
        Expr::BinaryOp(_, l, r) => expr_contains_var(l, var_name) || expr_contains_var(r, var_name),
        Expr::FnCall(_, args) | Expr::List(args) | Expr::Block(args) => any_contains(
            args,
            var_name,
        ),
        Expr::Number(_) | Expr::Quantity(_, _) | Expr::StringLiteral(_) => false,
        Expr::LocalAssign(name, x) => is_named(name, var_name) || expr_contains_var(x, var_name),
        Expr::IfElse { cond, then_expr, else_expr } => expr_contains_var(cond, var_name)
            || expr_contains_var(then_expr, var_name) || expr_contains_var(else_expr, var_name),
        Expr::Switch { val, cases, default_case } => {
            if expr_contains_var(val, var_name) {
                return true;
            }
            if cases_contain(cases, var_name) {
                return true;
            }
            match default_case {
                Some(d) => expr_contains_var(d, var_name),
                None => false,
            }
        },
    }
}

fn any_contains(v: &Vec<Expr>, var_name: &str) -> (r: bool)
    ensures
        r == any_contains_var(evs(v@), var_name@),
    decreases v, 1nat,
{
    let mut i: usize = 0;
    while i < v.len()
        invariant
            i <= v@.len(),
            !any_contains_var(evs(v@.take(i as int)), var_name@),
        decreases v.len() - i,
    {
        let found = expr_contains_var(&v[i], var_name);
        proof {
            let t = v@.take(i + 1);
            assert(t.drop_last() =~= v@.take(i as int));
            assert(evs(t).drop_last() =~= evs(v@.take(i as int)));
            assert(evs(t).last() == ev(v@[i as int]));
        }
        if found {
            proof {
                lemma_any_contains_prefix(v@, var_name@, i + 1);
            }
            return true;
        }
        i += 1;
    }
    assert(v@.take(v@.len() as int) =~= v@);
    false
}

/// Once `var` occurs in a prefix of `s`, it occurs in `s`.
proof fn lemma_any_contains_prefix(s: Seq<Expr>, var: Seq<char>, k: int)
    requires
        0 <= k <= s.len(),
        any_contains_var(evs(s.take(k)), var),
    ensures
        any_contains_var(evs(s), var),
    decreases s.len() - k,
{
    if k < s.len() {
        let t = s.take(k + 1);
        assert(t.drop_last() =~= s.take(k));
        assert(evs(t).drop_last() =~= evs(s.take(k)));
        lemma_any_contains_prefix(s, var, k + 1);
    } else {
        assert(s.take(k) =~= s);
    }
}

fn cases_contain(v: &Vec<(Expr, Expr)>, var_name: &str) -> (r: bool)
    ensures
        r == cases_contain_var(evcases(v@), var_name@),
    decreases v, 1nat,
{
    let mut i: usize = 0;
    while i < v.len()
        invariant
            i <= v@.len(),
            !cases_contain_var(evcases(v@.take(i as int)), var_name@),
        decreases v.len() - i,
    {
        let found = expr_contains_var(&v[i].0, var_name) || expr_contains_var(&v[i].1, var_name);
        proof {
            let t = v@.take(i + 1);
            assert(t.drop_last() =~= v@.take(i as int));
            assert(evcases(t).drop_last() =~= evcases(v@.take(i as int)));
        }
        if found {
            proof {
                lemma_cases_contain_prefix(v@, var_name@, i + 1);
            }
            return true;
        }
        i += 1;
    }
    assert(v@.take(v@.len() as int) =~= v@);
    false
}

proof fn lemma_cases_contain_prefix(s: Seq<(Expr, Expr)>, var: Seq<char>, k: int)
    requires
        0 <= k <= s.len(),
        cases_contain_var(evcases(s.take(k)), var),
    ensures
        cases_contain_var(evcases(s), var),
    decreases s.len() - k,
{
    if k < s.len() {
        let t = s.take(k + 1);
        assert(t.drop_last() =~= s.take(k));
        assert(evcases(t).drop_last() =~= evcases(s.take(k)));
        lemma_cases_contain_prefix(s, var, k + 1);
    } else {
        assert(s.take(k) =~= s);
    }
}

/// The view of an optional name.
pub open spec fn opt_text(o: Option<String>) -> Option<Seq<char>> {
    match o {
        Some(s) => Some(s@),
        None => None,
    }
}

/// The first variable of the expression (see `first_var`).
pub fn find_variable_in_expr(expr: &Expr) -> (r: Option<String>)
    ensures
        opt_text(r) == first_var(expr@),
    decreases expr, 0nat,
{
    match expr {
        Expr::Variable(name) => Some(name.clone()),
        Expr::Percentage(x) => find_variable_in_expr(x),
        Expr::BinaryOp(_, l, r) => match find_variable_in_expr(l) {
            Some(v) => Some(v),
            None => find_variable_in_expr(r),
        },
        Expr::FnCall(_, args) => find_variable_in_all(args),
        Expr::Convert(x, _) => find_variable_in_expr(x),
        Expr::List(els) => find_variable_in_all(els),
        Expr::Not(x) => find_variable_in_expr(x),
        Expr::BitNot(x) => find_variable_in_expr(x),
        _ => None,
    }
}

fn find_variable_in_all(v: &Vec<Expr>) -> (r: Option<String>)
    ensures
        opt_text(r) == first_var_in(evs(v@)),
    decreases v, 1nat,
{
    let mut i: usize = 0;
    while i < v.len()
        invariant
            i <= v@.len(),
            first_var_in(evs(v@.take(i as int))) is None,
        decreases v.len() - i,
    {
        let found = find_variable_in_expr(&v[i]);
        proof {
            let t = v@.take(i + 1);
            assert(t.drop_last() =~= v@.take(i as int));
            assert(evs(t).drop_last() =~= evs(v@.take(i as int)));
            assert(evs(t).last() == ev(v@[i as int]));
        }
        if found.is_some() {
            proof {
                lemma_first_var_prefix(v@, i + 1);
            }
            return found;
        }
        i += 1;
    }
    assert(v@.take(v@.len() as int) =~= v@);
    None
}

/// Once a prefix of `s` has a first variable, `s` has the same one.
proof fn lemma_first_var_prefix(s: Seq<Expr>, k: int)
    requires
        0 <= k <= s.len(),
        first_var_in(evs(s.take(k))) is Some,
    ensures
        first_var_in(evs(s)) == first_var_in(evs(s.take(k))),
    decreases s.len() - k,
{
    if k < s.len() {
        let t = s.take(k + 1);
        assert(t.drop_last() =~= s.take(k));
        assert(evs(t).drop_last() =~= evs(s.take(k)));
        lemma_first_var_prefix(s, k + 1);
    } else {
        assert(s.take(k) =~= s);
    }
}

/// The texts of a list of names.
pub open spec fn names_view(v: Seq<String>) -> Seq<Seq<char>> {
    v.map_values(|s: String| s@)
}

/// The list holds a name equal to `name`.
fn holds_name(vars: &Vec<String>, name: &String) -> (r: bool)
    ensures
        r == names_view(vars@).contains(name@),
{
    let mut i: usize = 0;
    while i < vars.len()
        invariant
            i <= vars@.len(),
            forall|j: int| 0 <= j < i ==> vars@[j]@ != name@,
        decreases vars.len() - i,
    {
        if is_named(&vars[i], name.as_str()) {
            proof {
                assert(names_view(vars@)[i as int] == name@);
            }
            return true;
        }
        i += 1;
    }
    proof {
        if names_view(vars@).contains(name@) {
            let j = choose|j: int| 0 <= j < names_view(vars@).len() && names_view(vars@)[j] == name@;
            assert(vars@[j]@ == name@);
        }
    }
    false
}

/// Adds to `vars` the variables of the expression not in it yet, in order of
/// first appearance (see `collect_vars`).
pub fn find_all_variables_in_expr_helper(expr: &Expr, vars: &mut Vec<String>)
    ensures
        names_view(final(vars)@) == collect_vars(expr@, names_view(old(vars)@)),
    decreases expr, 0nat,
{
    match expr {
        Expr::Variable(name) => {
            if !holds_name(vars, name) {
                let ghost before = vars@;
                vars.push(name.clone());
                proof {
                    assert(names_view(vars@) =~= names_view(before).push(name@));
                }
            }
        },
        Expr::Percentage(x) => find_all_variables_in_expr_helper(x, vars),
        Expr::BinaryOp(_, l, r) => {
            find_all_variables_in_expr_helper(l, vars);
            find_all_variables_in_expr_helper(r, vars);
        },
        Expr::FnCall(_, args) => collect_all(args, vars),
        Expr::Convert(x, _) => find_all_variables_in_expr_helper(x, vars),
        Expr::List(els) => collect_all(els, vars),
        Expr::Not(x) => find_all_variables_in_expr_helper(x, vars),
        Expr::BitNot(x) => find_all_variables_in_expr_helper(x, vars),
        _ => {},
    }
}

fn collect_all(v: &Vec<Expr>, vars: &mut Vec<String>)
    ensures
        names_view(final(vars)@) == collect_vars_in(evs(v@), names_view(old(vars)@)),
    decreases v, 1nat,
{
    let mut i: usize = 0;
    while i < v.len()
        invariant
            i <= v@.len(),
            names_view(vars@) == collect_vars_in(evs(v@.take(i as int)), names_view(old(vars)@)),
        decreases v.len() - i,
    {
        find_all_variables_in_expr_helper(&v[i], vars);
        proof {
            let t = v@.take(i + 1);
            assert(t.drop_last() =~= v@.take(i as int));
            assert(evs(t).drop_last() =~= evs(v@.take(i as int)));
            assert(evs(t).last() == ev(v@[i as int]));
        }
        i += 1;
    }
    assert(v@.take(v@.len() as int) =~= v@);
}

/// The variables of the expression, each once, in order of first appearance.
pub fn find_all_variables_in_expr(expr: &Expr) -> (r: Vec<String>)
    ensures
        names_view(r@) == collect_vars(expr@, Seq::empty()),
{
    let mut vars: Vec<String> = Vec::new();
    assert(names_view(vars@) =~= Seq::<Seq<char>>::empty());
    find_all_variables_in_expr_helper(expr, &mut vars);
    vars
}


/// The view of a derivation result.
pub open spec fn res_view(r: Result<Expr, String>) -> Result<ExprV, Seq<char>> {
    match r {
        Ok(e) => Ok(e@),
        Err(m) => Err(m@),
    }
}

fn int_expr(n: i64) -> (e: Expr)
    ensures
        e@ == num(n as int),
{
    Expr::Number(Rational::from_int(n))
}

fn bin_expr(op: Op, l: Expr, r: Expr) -> (e: Expr)
    ensures
        e@ == bin(op, l@, r@),
{
    Expr::BinaryOp(op, Box::new(l), Box::new(r))
}

fn call1_expr(name: &str, u: Expr) -> (e: Expr)
    ensures
        e@ == call1(name@, u@),
{
    let mut args: Vec<Expr> = Vec::new();
    args.push(u);
    proof {
        lemma_evs(args@);
        assert(evs(args@) =~= seq![u@]);
    }
    Expr::FnCall(name.to_string(), args)
}

fn op_name_str(op: Op) -> (r: &'static str)
    ensures
        r@ == op_name(op),
{
    match op {
        Op::Add => "Add",
        Op::Sub => "Sub",
        Op::Mul => "Mul",
        Op::Div => "Div",
        Op::Pow => "Pow",
        Op::Mod => "Mod",
        Op::BitAnd => "BitAnd",
        Op::BitOr => "BitOr",
        Op::LShift => "LShift",
        Op::RShift => "RShift",
        Op::Eq => "Eq",
        Op::Ne => "Ne",
        Op::Less => "Less",
        Op::LessEq => "LessEq",
        Op::Greater => "Greater",
        Op::GreaterEq => "GreaterEq",
        Op::And => "And",
        Op::Or => "Or",
    }
}

/// The derivative of the expression with respect to `var` (see `deriv`), or
/// the reason it has none.
pub fn differentiate(expr: &Expr, var: &str) -> (r: Result<Expr, String>)
    ensures
        res_view(r) == deriv(expr@, var@),
    decreases expr, 0nat,
{
    match expr {
        Expr::Number(_) => Ok(int_expr(0)),
        Expr::Quantity(_, _) => Ok(int_expr(0)),
        Expr::Variable(name) => {
            if is_named(name, var) {
                Ok(int_expr(1))
            } else {
                Ok(int_expr(0))
            }
        },
        Expr::Percentage(x) => {
            let d = differentiate(x, var)?;
            Ok(Expr::Percentage(Box::new(d)))
        },
        Expr::BinaryOp(op, l, r) => {
            let op = *op;
            if op == Op::Add || op == Op::Sub || op == Op::Mul || op == Op::Div {
                let dl = differentiate(l, var)?;
                let dr = differentiate(r, var)?;
                if op == Op::Add {
                    Ok(bin_expr(Op::Add, dl, dr))
                } else if op == Op::Sub {
                    Ok(bin_expr(Op::Sub, dl, dr))
                } else if op == Op::Mul {
                    Ok(
                        bin_expr(
                            Op::Add,
                            bin_expr(Op::Mul, dl, r.duplicate()),
                            bin_expr(Op::Mul, l.duplicate(), dr),
                        ),
                    )
                } else {
                    Ok(
                        bin_expr(
                            Op::Div,
                            bin_expr(
                                Op::Sub,
                                bin_expr(Op::Mul, dl, r.duplicate()),
                                bin_expr(Op::Mul, l.duplicate(), dr),
                            ),
                            bin_expr(Op::Pow, r.duplicate(), int_expr(2)),
                        ),
                    )
                }
            } else if op == Op::Pow {
                let lh = expr_contains_var(l, var);
                let rh = expr_contains_var(r, var);
                if lh && !rh {
                    let du = differentiate(l, var)?;
                    Ok(
                        bin_expr(
                            Op::Mul,
                            bin_expr(
                                Op::Mul,
                                r.duplicate(),
                                bin_expr(
                                    Op::Pow,
                                    l.duplicate(),
                                    bin_expr(Op::Sub, r.duplicate(), int_expr(1)),
                                ),
                            ),
                            du,
                        ),
                    )
                } else if !lh && rh {
                    let du = differentiate(r, var)?;
                    Ok(
                        bin_expr(
                            Op::Mul,
                            bin_expr(Op::Mul, expr.duplicate(), call1_expr("ln", l.duplicate())),
                            du,
                        ),
                    )
                } else if lh && rh {
                    let du = differentiate(l, var)?;
                    let dv = differentiate(r, var)?;
                    let term1 = bin_expr(Op::Mul, dv, call1_expr("ln", l.duplicate()));
                    let term2 = bin_expr(Op::Div, bin_expr(Op::Mul, r.duplicate(), du), l.duplicate());
                    Ok(bin_expr(Op::Mul, expr.duplicate(), bin_expr(Op::Add, term1, term2)))
                } else {
                    Ok(int_expr(0))
                }
            } else {
                let mut m: Vec<char> = Vec::new();
                push_str(&mut m, "Cannot differentiate operation ");
                push_str(&mut m, op_name_str(op));
                Err(chars_to_string(m.as_slice()))
            }
        },
        Expr::FnCall(name, args) => {
            proof {
                lemma_evs(args@);
            }
            if args.len() != 1 {
                return Err("Differentiating multi-argument functions is not supported".to_string());
            }
            let u = &args[0];
            let du = differentiate(u, var)?;
            if is_named(name, "sin") {
                Ok(bin_expr(Op::Mul, call1_expr("cos", u.duplicate()), du))
            } else if is_named(name, "cos") {
                Ok(
                    bin_expr(
                        Op::Mul,
                        bin_expr(Op::Sub, int_expr(0), call1_expr("sin", u.duplicate())),
                        du,
                    ),
                )
            } else if is_named(name, "exp") {
                Ok(bin_expr(Op::Mul, call1_expr("exp", u.duplicate()), du))
            } else if is_named(name, "ln") || is_named(name, "log") {
                Ok(bin_expr(Op::Div, du, u.duplicate()))
            } else {
                let mut m: Vec<char> = Vec::new();
                push_str(&mut m, "Differentiating function '");
                push_str(&mut m, name.as_str());
                push_str(&mut m, "' is not supported");
                Err(chars_to_string(m.as_slice()))
            }
        },
        Expr::Convert(x, unit) => {
            let d = differentiate(x, var)?;
            Ok(Expr::Convert(Box::new(d), unit.clone()))
        },
        Expr::List(els) => {
            let ds = differentiate_all(els, var)?;
            Ok(Expr::List(ds))
        },
        _ => Err("Unsupported expression for differentiation".to_string()),
    }
}

/// The view of a list derivation result.
pub open spec fn res_all_view(r: Result<Vec<Expr>, String>) -> Result<Seq<ExprV>, Seq<char>> {
    match r {
        Ok(v) => Ok(evs(v@)),
        Err(m) => Err(m@),
    }
}

fn differentiate_all(v: &Vec<Expr>, var: &str) -> (r: Result<Vec<Expr>, String>)
    ensures
        res_all_view(r) == deriv_all(evs(v@), var@),
    decreases v, 1nat,
{
    let mut out: Vec<Expr> = Vec::new();
    let mut i: usize = 0;
    while i < v.len()
        invariant
            i <= v@.len(),
            deriv_all(evs(v@.take(i as int)), var@) == Ok::<Seq<ExprV>, Seq<char>>(evs(out@)),
        decreases v.len() - i,
    {
        let d = differentiate(&v[i], var);
        proof {
            let t = v@.take(i + 1);
            assert(t.drop_last() =~= v@.take(i as int));
            assert(evs(t).drop_last() =~= evs(v@.take(i as int)));
            assert(evs(t).last() == ev(v@[i as int]));
        }
        match d {
            Ok(d) => {
                let ghost before = out@;
                out.push(d);
                proof {
                    assert(out@.drop_last() =~= before);
                }
            },
            Err(m) => {
                proof {
                    lemma_deriv_all_err(v@, var@, i + 1);
                }
                return Err(m);
            },
        }
        i += 1;
    }
    assert(v@.take(v@.len() as int) =~= v@);
    Ok(out)
}

/// A failure on a prefix is the failure of the whole sequence.
proof fn lemma_deriv_all_err(s: Seq<Expr>, var: Seq<char>, k: int)
    requires
        0 <= k <= s.len(),
        deriv_all(evs(s.take(k)), var) is Err,
    ensures
        deriv_all(evs(s), var) == deriv_all(evs(s.take(k)), var),
    decreases s.len() - k,
{
    if k < s.len() {
        let t = s.take(k + 1);
        assert(t.drop_last() =~= s.take(k));
        assert(evs(t).drop_last() =~= evs(s.take(k)));
        lemma_deriv_all_err(s, var, k + 1);
    } else {
        assert(s.take(k) =~= s);
    }
}

fn is_zero_expr(e: &Expr) -> (r: bool)
    ensures
        r == is_zero_num(e@),
{
    match e {
        Expr::Number(n) => n.is_zero(),
        _ => false,
    }
}

fn is_one_expr(e: &Expr) -> (r: bool)
    ensures
        r == is_one_num(e@),
{
    match e {
        Expr::Number(n) => n.is_one(),
        _ => false,
    }
}

fn is_negation_expr(e: &Expr) -> (r: bool)
    ensures
        r == is_negation(e@),
{
    match e {
        Expr::BinaryOp(op, z, _) => *op == Op::Sub && is_zero_expr(z),
        _ => false,
    }
}

/// `a` and `b` are both numbers.
fn both_numbers(a: &Expr, b: &Expr) -> (r: Option<(Rational, Rational)>)
    ensures
        r matches Some(p) ==> a@ == ExprV::Number(p.0@) && b@ == ExprV::Number(p.1@),
        r is None ==> !(a@ is Number && b@ is Number),
{
    match (a, b) {
        (Expr::Number(x), Expr::Number(y)) => Some((*x, *y)),
        _ => None,
    }
}

fn fold_or_exec(op: Op, l: Expr, r: Expr, f: Option<Rational>) -> (e: Expr)
    ensures
        e@ == fold_or(
            op,
            l@,
            r@,
            match f {
                Some(x) => Some(x@),
                None => None,
            },
        ),
{
    match f {
        Some(v) => Expr::Number(v),
        None => bin_expr(op, l, r),
    }
}

/// `sl op (0 - x)` rewritten as `sl op2 x`.
fn flip_negation(op2: Op, sl: Expr, sr: Expr) -> (e: Expr)
    requires
        is_negation(sr@),
    ensures
        e@ == bin(op2, sl@, negated(sr@)),
{
    match sr {
        Expr::BinaryOp(_, _, x) => bin_expr(op2, sl, *x),
        other => {
            assert(false);
            other
        },
    }
}

/// One simplification step of `op(sl, sr)` (see `simp_bin`).
fn simplify_bin(op: Op, sl: Expr, sr: Expr) -> (e: Expr)
    ensures
        e@ == simp_bin(op, sl@, sr@),
{
    if op == Op::Add {
        if is_zero_expr(&sl) {
            sr
        } else if is_zero_expr(&sr) {
            sl
        } else if let Some((a, b)) = both_numbers(&sl, &sr) {
            let f = a.checked_add(&b);
            fold_or_exec(op, sl, sr, f)
        } else if is_negation_expr(&sr) {
            flip_negation(Op::Sub, sl, sr)
        } else {
            bin_expr(op, sl, sr)
        }
    } else if op == Op::Sub {
        if is_zero_expr(&sr) {
            sl
        } else if let Some((a, b)) = both_numbers(&sl, &sr) {
            let f = a.checked_sub(&b);
            fold_or_exec(op, sl, sr, f)
        } else if is_negation_expr(&sr) {
            flip_negation(Op::Add, sl, sr)
        } else {
            bin_expr(op, sl, sr)
        }
    } else if op == Op::Mul {
        if is_zero_expr(&sl) || is_zero_expr(&sr) {
            int_expr(0)
        } else if is_one_expr(&sl) {
            sr
        } else if is_one_expr(&sr) {
            sl
        } else if let Some((a, b)) = both_numbers(&sl, &sr) {
            let f = a.checked_mul(&b);
            fold_or_exec(op, sl, sr, f)
        } else {
            bin_expr(op, sl, sr)
        }
    } else if op == Op::Div {
        if is_zero_expr(&sl) {
            int_expr(0)
        } else if is_one_expr(&sr) {
            sl
        } else if let Some((a, b)) = both_numbers(&sl, &sr) {
            if b.is_zero() {
                bin_expr(op, sl, sr)
            } else {
                let f = a.checked_div(&b);
                fold_or_exec(op, sl, sr, f)
            }
        } else {
            bin_expr(op, sl, sr)
        }
    } else if op == Op::Pow {
        if is_zero_expr(&sr) {
            int_expr(1)
        } else if is_one_expr(&sr) {
            sl
        } else if is_one_expr(&sl) {
            int_expr(1)
        } else if let Some((a, b)) = both_numbers(&sl, &sr) {
            let f = a.checked_pow(&b);
            fold_or_exec(op, sl, sr, f)
        } else {
            bin_expr(op, sl, sr)
        }
    } else {
        bin_expr(op, sl, sr)
    }
}

/// The expression simplified (see `simp`).
pub fn simplify(expr: &Expr) -> (r: Expr)
    ensures
        r@ == simp(expr@),
    decreases expr, 0nat,
{
    match expr {
        Expr::BinaryOp(op, l, r) => {
            let sl = simplify(l);
            let sr = simplify(r);
            simplify_bin(*op, sl, sr)
        },
        Expr::Percentage(x) => {
            let si = simplify(x);
            match si {
                Expr::Number(n) => match n.percent() {
                    Some(p) => Expr::Number(p),
                    None => Expr::Percentage(Box::new(Expr::Number(n))),
                },
                other => Expr::Percentage(Box::new(other)),
            }
        },
        Expr::FnCall(name, args) => Expr::FnCall(name.clone(), simplify_all(args)),
        _ => expr.duplicate(),
    }
}

fn simplify_all(v: &Vec<Expr>) -> (r: Vec<Expr>)
    ensures
        evs(r@) == simp_all(evs(v@)),
    decreases v, 1nat,
{
    let mut out: Vec<Expr> = Vec::new();
    let mut i: usize = 0;
    while i < v.len()
        invariant
            i <= v@.len(),
            evs(out@) == simp_all(evs(v@.take(i as int))),
        decreases v.len() - i,
    {
        let ghost before = out@;
        let s = simplify(&v[i]);
        out.push(s);
        proof {
            let t = v@.take(i + 1);
            assert(t.drop_last() =~= v@.take(i as int));
            assert(evs(t).drop_last() =~= evs(v@.take(i as int)));
            assert(evs(t).last() == ev(v@[i as int]));
            assert(out@.drop_last() =~= before);
        }
        i += 1;
    }
    assert(v@.take(v@.len() as int) =~= v@);
    out
}

fn op_text_str(op: Op) -> (r: &'static str)
    ensures
        r@ == op_text(op),
{
    match op {
        Op::Add => " + ",
        Op::Sub => " - ",
        Op::Mul => " * ",
        Op::Div => " / ",
        Op::Pow => "^",
        Op::Mod => " % ",
        Op::BitAnd => " & ",
        Op::BitOr => " | ",
        Op::LShift => " << ",
        Op::RShift => " >> ",
        Op::Eq => " == ",
        Op::Ne => " != ",
        Op::Less => " < ",
        Op::LessEq => " <= ",
        Op::Greater => " > ",
        Op::GreaterEq => " >= ",
        Op::And => " and ",
        Op::Or => " or ",
    }
}

/// The precedence of `e`'s operator, if `e` is an operation.
fn op_precedence_of(e: &Expr) -> (r: Option<u8>)
    ensures
        match e@ {
            ExprV::BinaryOp(op, _, _) => r == Some(precedence(op) as u8),
            _ => r is None,
        },
{
    match e {
        Expr::BinaryOp(op, _, _) => Some(get_op_precedence(op)),
        _ => None,
    }
}

/// Appends the text of `e`, in parentheses when `wrap`.
fn maybe_paren_into(out: &mut Vec<char>, e: &Expr, wrap: bool)
    ensures
        final(out)@ == old(out)@ + if wrap {
            paren(to_text(e@))
        } else {
            to_text(e@)
        },
    decreases e, 2nat,
{
    if wrap {
        out.push('(');
        text_into(out, e);
        out.push(')');
        assert(out@ =~= old(out)@ + paren(to_text(e@)));
    } else {
        text_into(out, e);
    }
}

proof fn lemma_join_push(s: Seq<Seq<char>>, x: Seq<char>, sep: Seq<char>)
    ensures
        join(s.push(x), sep) == if s.len() == 0 {
            x
        } else {
            join(s, sep) + sep + x
        },
{
    assert(s.push(x).drop_last() =~= s);
}

/// Appends the texts of `v` joined with `sep`.
fn texts_into(out: &mut Vec<char>, v: &Vec<Expr>, sep: &str)
    ensures
        final(out)@ == old(out)@ + join(to_texts(evs(v@)), sep@),
    decreases v, 2nat,
{
    let mut i: usize = 0;
    while i < v.len()
        invariant
            i <= v@.len(),
            out@ == old(out)@ + join(to_texts(evs(v@.take(i as int))), sep@),
        decreases v.len() - i,
    {
        if i > 0 {
            push_str(out, sep);
        }
        text_into(out, &v[i]);
        proof {
            let t = v@.take(i + 1);
            assert(t.drop_last() =~= v@.take(i as int));
            assert(evs(t).drop_last() =~= evs(v@.take(i as int)));
            assert(evs(t).last() == ev(v@[i as int]));
            lemma_evs(v@.take(i as int));
            lemma_to_texts_len(evs(v@.take(i as int)));
            assert(to_texts(evs(t)) == to_texts(evs(v@.take(i as int))).push(to_text(ev(v@[i as int]))));
            lemma_join_push(to_texts(evs(v@.take(i as int))), to_text(ev(v@[i as int])), sep@);
            assert(out@ =~= old(out)@ + join(to_texts(evs(t)), sep@));
        }
        i += 1;
    }
    assert(v@.take(v@.len() as int) =~= v@);
}

proof fn lemma_to_texts_len(s: Seq<ExprV>)
    ensures
        to_texts(s).len() == s.len(),
    decreases s.len(),
{
    if s.len() > 0 {
        lemma_to_texts_len(s.drop_last());
    }
}

proof fn lemma_case_texts_len(s: Seq<(ExprV, ExprV)>)
    ensures
        case_texts(s).len() == s.len(),
    decreases s.len(),
{
    if s.len() > 0 {
        lemma_case_texts_len(s.drop_last());
    }
}

/// Appends the `switch` cases, one per line.
fn cases_into(out: &mut Vec<char>, cases: &Vec<(Expr, Expr)>)
    ensures
        final(out)@ == old(out)@ + join(case_texts(evcases(cases@)), "\n  "@),
    decreases cases, 2nat,
{
    let mut i: usize = 0;
    while i < cases.len()
        invariant
            i <= cases@.len(),
            out@ == old(out)@ + join(case_texts(evcases(cases@.take(i as int))), "\n  "@),
        decreases cases.len() - i,
    {
        if i > 0 {
            push_str(out, "\n  ");
        }
        text_into(out, &cases[i].0);
        push_str(out, " => ");
        text_into(out, &cases[i].1);
        proof {
            let t = cases@.take(i + 1);
            assert(t.drop_last() =~= cases@.take(i as int));
            assert(evcases(t).drop_last() =~= evcases(cases@.take(i as int)));
            lemma_evcases(cases@.take(i as int));
            lemma_case_texts_len(evcases(cases@.take(i as int)));
            let x = to_text(ev(cases@[i as int].0)) + " => "@ + to_text(ev(cases@[i as int].1));
            assert(case_texts(evcases(t)) == case_texts(evcases(cases@.take(i as int))).push(x));
            lemma_join_push(case_texts(evcases(cases@.take(i as int))), x, "\n  "@);
            assert(out@ =~= old(out)@ + join(case_texts(evcases(t)), "\n  "@));
        }
        i += 1;
    }
    assert(cases@.take(cases@.len() as int) =~= cases@);
}

/// Appends the text of an operation.
fn binop_into(out: &mut Vec<char>, e: &Expr)
    requires
        e@ is BinaryOp,
    ensures
        final(out)@ == old(out)@ + to_text(e@),
    decreases e, 0nat,
{
    match e {
        Expr::BinaryOp(op, l, r) => {
            let op = *op;
            if op == Op::Sub && is_zero_expr(l) {
                let rp = match op_precedence_of(r) {
                    Some(p) => p,
                    None => 100,
                };
                out.push('-');
                maybe_paren_into(out, r, rp < 7);
                assert(out@ =~= old(out)@ + to_text(e@));
            } else {
                let pp = get_op_precedence(&op);
                let lw = match op_precedence_of(l) {
                    Some(p) => p < pp,
                    None => false,
                };
                let rw = match op_precedence_of(r) {
                    Some(p) => p < pp || (p == pp && op != Op::Pow),
                    None => false,
                };
                maybe_paren_into(out, l, lw);
                push_str(out, op_text_str(op));
                maybe_paren_into(out, r, rw);
                assert(out@ =~= old(out)@ + to_text(e@));
            }
        },
        _ => {},
    }
}

/// Appends the text of a `switch`.
fn switch_into(out: &mut Vec<char>, e: &Expr)
    requires
        e@ is Switch,
    ensures
        final(out)@ == old(out)@ + to_text(e@),
    decreases e, 0nat,
{
    match e {
        Expr::Switch { val, cases, default_case } => {
            push_str(out, "switch ");
            text_into(out, val);
            push_str(out, " {\n  ");
            cases_into(out, cases);
            let ghost cs = case_texts(evcases(cases@));
            match default_case {
                Some(x) => {
                    if cases.len() > 0 {
                        push_str(out, "\n  ");
                    }
                    push_str(out, "default => ");
                    text_into(out, x);
                    proof {
                        lemma_evcases(cases@);
                        lemma_case_texts_len(evcases(cases@));
                        let dx = "default => "@ + to_text(ev(**x));
                        assert(cs + seq![dx] =~= cs.push(dx));
                        lemma_join_push(cs, dx, "\n  "@);
                    }
                },
                None => {
                    assert(cs + Seq::<Seq<char>>::empty() =~= cs);
                },
            }
            push_str(out, "\n}");
            assert(out@ =~= old(out)@ + to_text(e@));
        },
        _ => {},
    }
}

/// Appends the text of `e` (see `to_text`).
fn text_into(out: &mut Vec<char>, e: &Expr)
    ensures
        final(out)@ == old(out)@ + to_text(e@),
    decreases e, 1nat,
{
    match e {
        Expr::Number(v) => {
            let t = v.format_short();
            push_chars(out, t.as_slice());
        },
        Expr::Quantity(v, unit) => {
            let t = v.format_short();
            push_chars(out, t.as_slice());
            push_str(out, unit.as_str());
        },
        Expr::Variable(name) => push_str(out, name.as_str()),
        Expr::Percentage(x) => {
            text_into(out, x);
            out.push('%');
        },
        Expr::BinaryOp(_, _, _) => binop_into(out, e),
        Expr::FnCall(name, args) => {
            push_str(out, name.as_str());
            out.push('(');
            texts_into(out, args, ", ");
            out.push(')');
            assert(out@ =~= old(out)@ + to_text(e@));
        },
        Expr::Convert(x, unit) => {
            text_into(out, x);
            push_str(out, " in ");
            push_str(out, unit.as_str());
        },
        Expr::List(els) => {
            out.push('[');
            texts_into(out, els, ", ");
            out.push(']');
            assert(out@ =~= old(out)@ + to_text(e@));
        },
        Expr::Not(x) => {
            push_str(out, "not ");
            text_into(out, x);
        },
        Expr::BitNot(x) => {
            out.push('~');
            text_into(out, x);
            assert(out@ =~= old(out)@ + to_text(e@));
        },
        Expr::Block(els) => {
            push_str(out, "{\n  ");
            texts_into(out, els, "\n  ");
            push_str(out, "\n}");
        },
        Expr::LocalAssign(name, x) => {
            push_str(out, name.as_str());
            push_str(out, " = ");
            text_into(out, x);
        },
        Expr::IfElse { cond, then_expr, else_expr } => {
            push_str(out, "if ");
            text_into(out, cond);
            out.push(' ');
            text_into(out, then_expr);
            push_str(out, " else ");
            text_into(out, else_expr);
            assert(out@ =~= old(out)@ + to_text(e@));
        },
        Expr::Switch { .. } => switch_into(out, e),
        Expr::StringLiteral(s) => {
            out.push('"');
            push_str(out, s.as_str());
            out.push('"');
            assert(out@ =~= old(out)@ + to_text(e@));
        },
    }
}

/// The text of an expression, with parentheses only where precedence needs
/// them (see `to_text`).
pub fn expr_to_string(expr: &Expr) -> (r: String)
    ensures
        r@ == to_text(expr@),
{
    let mut out: Vec<char> = Vec::new();
    text_into(&mut out, expr);
    assert(out@ =~= to_text(expr@));
    chars_to_string(out.as_slice())
}


/// `e` holds no conversion and no list where differentiation descends.
pub open spec fn without_convert_or_list(e: ExprV) -> bool
    decreases e,
{
    match e {
        ExprV::Convert(_, _) => false,
        ExprV::List(_) => false,
        ExprV::Percentage(x) => without_convert_or_list(*x),
        ExprV::BinaryOp(_, l, r) => without_convert_or_list(*l) && without_convert_or_list(*r),
        ExprV::FnCall(_, args) => args.len() != 1 || without_convert_or_list(args[0]),
        _ => true,
    }
}

/// Two fractions `(num, den)` stand for the same number.
pub open spec fn same_value(a: (int, int), b: (int, int)) -> bool {
    a.0 * b.1 == b.0 * a.1
}

/// The exact value of `op` on two fractions with positive denominators,
/// for `+`, `-`, `*`, `/` (by a nonzero number, the sign moved to the
/// numerator) and `^` (by a whole number at least zero); no value otherwise.
pub open spec fn rat_op(op: Op, a: (int, int), b: (int, int)) -> Option<(int, int)> {
    if op == Op::Add {
        Some((a.0 * b.1 + b.0 * a.1, a.1 * b.1))
    } else if op == Op::Sub {
        Some((a.0 * b.1 - b.0 * a.1, a.1 * b.1))
    } else if op == Op::Mul {
        Some((a.0 * b.0, a.1 * b.1))
    } else if op == Op::Div && b.0 > 0 {
        Some((a.0 * b.1, a.1 * b.0))
    } else if op == Op::Div && b.0 < 0 {
        Some((-(a.0 * b.1), -(a.1 * b.0)))
    } else if op == Op::Pow && b.0 >= 0 && b.0 % b.1 == 0 {
        Some((ipow(a.0, (b.0 / b.1) as nat), ipow(a.1, (b.0 / b.1) as nat)))
    } else {
        None
    }
}

/// The exact value of an arithmetic expression (numbers, variables given
/// by `env`, `+`, `-`, `*`, `/`, and `^` by whole numbers), as a fraction
/// with a positive denominator; none where a divisor is zero, an exponent is
/// no whole number, or another kind of expression occurs.
pub open spec fn exact_value(e: ExprV, env: spec_fn(Seq<char>) -> (int, int)) -> Option<(int, int)>
    decreases e,
{
    match e {
        ExprV::Number(n) => if n.1 > 0 { Some(n) } else { None },
        ExprV::Variable(x) => if env(x).1 > 0 { Some(env(x)) } else { None },
        ExprV::BinaryOp(op, l, r) => match (exact_value(*l, env), exact_value(*r, env)) {
            (Some(a), Some(b)) => rat_op(op, a, b),
            _ => None,
        },
        _ => None,
    }
}

proof fn lemma_value_den(e: ExprV, env: spec_fn(Seq<char>) -> (int, int))
    ensures
        exact_value(e, env) matches Some(v) ==> v.1 > 0,
    decreases e,
{
    if let ExprV::BinaryOp(op, l, r) = e {
        lemma_value_den(*l, env);
        lemma_value_den(*r, env);
        if let (Some(a), Some(b)) = (exact_value(*l, env), exact_value(*r, env)) {
            assert(a.1 * b.1 > 0) by (nonlinear_arith)
                requires
                    a.1 > 0,
                    b.1 > 0,
            ;
            if b.0 > 0 {
                assert(a.1 * b.0 > 0) by (nonlinear_arith)
                    requires
                        a.1 > 0,
                        b.0 > 0,
                ;
            } else if b.0 < 0 {
                assert(-(a.1 * b.0) > 0) by (nonlinear_arith)
                    requires
                        a.1 > 0,
                        b.0 < 0,
                ;
            }
            if b.0 >= 0 && b.0 % b.1 == 0 {
                lemma_ipow_pos(a.1, (b.0 / b.1) as nat);
            }
        }
    }
}

proof fn lemma_same_trans(a: (int, int), b: (int, int), c: (int, int))
    requires
        b.1 != 0,
        same_value(a, b),
        same_value(b, c),
    ensures
        same_value(a, c),
{
    assert((a.0 * c.1 - c.0 * a.1) * b.1 == 0) by (nonlinear_arith)
        requires
            a.0 * b.1 == b.0 * a.1,
            b.0 * c.1 == c.0 * b.1,
    ;
    assert(a.0 * c.1 - c.0 * a.1 == 0) by (nonlinear_arith)
        requires
            (a.0 * c.1 - c.0 * a.1) * b.1 == 0,
            b.1 != 0,
    ;
}

proof fn lemma_regroup(x: int, y: int, m: int, n: int)
    ensures
        (x * y) * (m * n) == (x * m) * (y * n),
{
    assert((x * y) * (m * n) == (x * m) * (y * n)) by (nonlinear_arith);
}

/// Same fractions raised to the same power stand for the same number.
proof fn lemma_ipow_same(a: (int, int), a2: (int, int), k: nat)
    requires
        same_value(a, a2),
    ensures
        same_value((ipow(a.0, k), ipow(a.1, k)), (ipow(a2.0, k), ipow(a2.1, k))),
    decreases k,
{
    if k > 0 {
        let j = (k - 1) as nat;
        lemma_ipow_same(a, a2, j);
        lemma_regroup(a.0, ipow(a.0, j), a2.1, ipow(a2.1, j));
        lemma_regroup(a2.0, ipow(a2.0, j), a.1, ipow(a.1, j));
        vstd::arithmetic::mul::lemma_mul_is_commutative(a.0 * a2.1, ipow(a.0, j) * ipow(a2.1, j));
        vstd::arithmetic::mul::lemma_mul_is_commutative(a2.0 * a.1, ipow(a2.0, j) * ipow(a.1, j));
    }
}

/// A fraction with a positive denominator that is a whole number `k`, and
/// one that stands for the same number, give the same `k`.
proof fn lemma_whole_same(b: (int, int), b2: (int, int))
    requires
        b.1 > 0,
        b2.1 > 0,
        same_value(b, b2),
        b.0 % b.1 == 0,
    ensures
        b2.0 % b2.1 == 0,
        b2.0 / b2.1 == b.0 / b.1,
        b.0 >= 0 <==> b2.0 >= 0,
{
    let k = b.0 / b.1;
    vstd::arithmetic::div_mod::lemma_fundamental_div_mod(b.0, b.1);
    assert(b.0 == b.1 * k);
    assert(b2.0 == k * b2.1) by (nonlinear_arith)
        requires
            b.0 == b.1 * k,
            b.0 * b2.1 == b2.0 * b.1,
            b.1 > 0,
    ;
    vstd::arithmetic::div_mod::lemma_mod_multiples_basic(k, b2.1);
    vstd::arithmetic::div_mod::lemma_div_multiples_vanish(k, b2.1);
    vstd::arithmetic::mul::lemma_mul_is_commutative(k, b2.1);
    assert(b.0 >= 0 <==> b2.0 >= 0) by (nonlinear_arith)
        requires
            b.0 * b2.1 == b2.0 * b.1,
            b.1 > 0,
            b2.1 > 0,
    ;
}

/// `rat_op` gives the same number for operands of the same numbers.
proof fn lemma_rat_op_congruent(op: Op, a: (int, int), b: (int, int), a2: (int, int), b2: (int, int))
    requires
        a.1 > 0,
        b.1 > 0,
        a2.1 > 0,
        b2.1 > 0,
        same_value(a, a2),
        same_value(b, b2),
    ensures
        rat_op(op, a, b) is Some <==> rat_op(op, a2, b2) is Some,
        rat_op(op, a, b) matches Some(u) ==> same_value(u, rat_op(op, a2, b2)->0),
{
    assert(b.0 > 0 <==> b2.0 > 0) by (nonlinear_arith)
        requires
            b.0 * b2.1 == b2.0 * b.1,
            b.1 > 0,
            b2.1 > 0,
    ;
    assert(b.0 < 0 <==> b2.0 < 0) by (nonlinear_arith)
        requires
            b.0 * b2.1 == b2.0 * b.1,
            b.1 > 0,
            b2.1 > 0,
    ;
    if op == Op::Add || op == Op::Sub {
        // Each product of four regroups as (a-part) * (b-part).
        lemma_regroup(a.0, b.1, a2.1, b2.1);
        lemma_regroup(b.0, a.1, b2.1, a2.1);
        lemma_regroup(a2.0, b2.1, a.1, b.1);
        lemma_regroup(b2.0, a2.1, b.1, a.1);
        vstd::arithmetic::mul::lemma_mul_is_distributive_add_other_way(a2.1 * b2.1, a.0 * b.1, b.0 * a.1);
        vstd::arithmetic::mul::lemma_mul_is_distributive_add_other_way(a.1 * b.1, a2.0 * b2.1, b2.0 * a2.1);
        vstd::arithmetic::mul::lemma_mul_is_distributive_sub_other_way(a2.1 * b2.1, a.0 * b.1, b.0 * a.1);
        vstd::arithmetic::mul::lemma_mul_is_distributive_sub_other_way(a.1 * b.1, a2.0 * b2.1, b2.0 * a2.1);
        vstd::arithmetic::mul::lemma_mul_is_commutative(b.1, b2.1);
        vstd::arithmetic::mul::lemma_mul_is_commutative(a.1, a2.1);
        vstd::arithmetic::mul::lemma_mul_is_commutative(a2.1, a.1);
    } else if op == Op::Mul {
        assert((a.0 * b.0) * (a2.1 * b2.1) == (a2.0 * b2.0) * (a.1 * b.1)) by (nonlinear_arith)
            requires
                a.0 * a2.1 == a2.0 * a.1,
                b.0 * b2.1 == b2.0 * b.1,
        ;
    } else if op == Op::Div {
        assert((a.0 * b.1) * (a2.1 * b2.0) == (a2.0 * b2.1) * (a.1 * b.0)) by (nonlinear_arith)
            requires
                a.0 * a2.1 == a2.0 * a.1,
                b.0 * b2.1 == b2.0 * b.1,
        ;
        assert((-(a.0 * b.1)) * (-(a2.1 * b2.0)) == (-(a2.0 * b2.1)) * (-(a.1 * b.0))) by (nonlinear_arith)
            requires
                (a.0 * b.1) * (a2.1 * b2.0) == (a2.0 * b2.1) * (a.1 * b.0),
        ;
    } else if op == Op::Pow {
        if b.0 % b.1 == 0 {
            lemma_whole_same(b, b2);
            lemma_ipow_same(a, a2, (b.0 / b.1) as nat);
        } else if b2.0 % b2.1 == 0 {
            lemma_whole_same(b2, b);
        }
    }
}

/// One simplification step keeps the value of `op(sl, sr)`.
proof fn lemma_simp_bin_value(
    op: Op,
    sl: ExprV,
    sr: ExprV,
    env: spec_fn(Seq<char>) -> (int, int),
    a: (int, int),
    b: (int, int),
)
    requires
        exact_value(sl, env) == Some(a),
        exact_value(sr, env) == Some(b),
        rat_op(op, a, b) is Some,
    ensures
        exact_value(simp_bin(op, sl, sr), env) matches Some(w) && same_value(rat_op(op, a, b)->0, w),
{
    lemma_value_den(sl, env);
    lemma_value_den(sr, env);
    let u = rat_op(op, a, b)->0;
    assert(exact_value(bin(op, sl, sr), env) == Some(u));
    lemma_value_den(bin(op, sl, sr), env);
    assert(same_value(u, u));
    assert(exact_value(num(0), env) == Some((0int, 1int)));
    if op == Op::Add {
        if is_zero_num(sl) {
            assert(a.0 == 0);
            assert(same_value(u, b)) by (nonlinear_arith)
                requires
                    u == (a.0 * b.1 + b.0 * a.1, a.1 * b.1),
                    a.0 == 0,
            ;
            assert(simp_bin(op, sl, sr) == sr);
        } else if is_zero_num(sr) {
            assert(b.0 == 0);
            assert(same_value(u, a)) by (nonlinear_arith)
                requires
                    u == (a.0 * b.1 + b.0 * a.1, a.1 * b.1),
                    b.0 == 0,
            ;
            assert(simp_bin(op, sl, sr) == sl);
        } else if sl is Number && sr is Number {
            assert(same_value(u, u));
        } else if is_negation(sr) {
            let x = negated(sr);
            let d = b.1;
            lemma_value_den(x, env);
            let xv = exact_value(x, env)->0;
            let z = sr->BinaryOp_1;
            assert(exact_value(*z, env) == Some(z->Number_0));
            let dz = z->Number_0.1;
            assert(b == (0 * xv.1 - xv.0 * dz, dz * xv.1));
            let w = (a.0 * xv.1 - xv.0 * a.1, a.1 * xv.1);
            assert(exact_value(simp_bin(op, sl, sr), env) == Some(w));
            assert(u.0 == dz * w.0 && u.1 == dz * w.1) by (nonlinear_arith)
                requires
                    u == (a.0 * b.1 + b.0 * a.1, a.1 * b.1),
                    b == (0 * xv.1 - xv.0 * dz, dz * xv.1),
                    w == (a.0 * xv.1 - xv.0 * a.1, a.1 * xv.1),
            ;
            assert(same_value(u, w)) by (nonlinear_arith)
                requires
                    u.0 == dz * w.0 && u.1 == dz * w.1,
            ;
        }
    } else if op == Op::Sub {
        if is_zero_num(sr) {
            assert(b.0 == 0);
            assert(same_value(u, a)) by (nonlinear_arith)
                requires
                    u == (a.0 * b.1 - b.0 * a.1, a.1 * b.1),
                    b.0 == 0,
            ;
            assert(simp_bin(op, sl, sr) == sl);
        } else if sl is Number && sr is Number {
        } else if is_negation(sr) {
            let x = negated(sr);
            lemma_value_den(x, env);
            let xv = exact_value(x, env)->0;
            let z = sr->BinaryOp_1;
            assert(exact_value(*z, env) == Some(z->Number_0));
            let dz = z->Number_0.1;
            assert(b == (0 * xv.1 - xv.0 * dz, dz * xv.1));
            let w = (a.0 * xv.1 + xv.0 * a.1, a.1 * xv.1);
            assert(exact_value(simp_bin(op, sl, sr), env) == Some(w));
            assert(u.0 == dz * w.0 && u.1 == dz * w.1) by (nonlinear_arith)
                requires
                    u == (a.0 * b.1 - b.0 * a.1, a.1 * b.1),
                    b == (0 * xv.1 - xv.0 * dz, dz * xv.1),
                    w == (a.0 * xv.1 + xv.0 * a.1, a.1 * xv.1),
            ;
            assert(same_value(u, w)) by (nonlinear_arith)
                requires
                    u.0 == dz * w.0 && u.1 == dz * w.1,
            ;
        }
    } else if op == Op::Mul {
        if is_zero_num(sl) || is_zero_num(sr) {
            assert(u.0 == 0) by (nonlinear_arith)
                requires
                    u.0 == a.0 * b.0,
                    a.0 == 0 || b.0 == 0,
            ;
            assert(same_value(u, (0int, 1int))) by (nonlinear_arith)
                requires
                    u.0 == 0,
            ;
            assert(simp_bin(op, sl, sr) == num(0));
        } else if is_one_num(sl) {
            assert(a.0 == a.1);
            assert(same_value(u, b)) by (nonlinear_arith)
                requires
                    u == (a.0 * b.0, a.1 * b.1),
                    a.0 == a.1,
            ;
            assert(simp_bin(op, sl, sr) == sr);
        } else if is_one_num(sr) {
            assert(b.0 == b.1);
            assert(same_value(u, a)) by (nonlinear_arith)
                requires
                    u == (a.0 * b.0, a.1 * b.1),
                    b.0 == b.1,
            ;
            assert(simp_bin(op, sl, sr) == sl);
        } else if sl is Number && sr is Number {
        }
    } else if op == Op::Div {
        if is_zero_num(sl) {
            assert(u.0 == 0) by (nonlinear_arith)
                requires
                    u.0 == a.0 * b.1,
                    a.0 == 0,
            ;
            assert(same_value(u, (0int, 1int))) by (nonlinear_arith)
                requires
                    u.0 == 0,
            ;
            assert(simp_bin(op, sl, sr) == num(0));
        } else if is_one_num(sr) {
            assert(b.0 == b.1);
            assert(same_value(u, a)) by (nonlinear_arith)
                requires
                    u == (a.0 * b.1, a.1 * b.0),
                    b.0 == b.1,
            ;
            assert(simp_bin(op, sl, sr) == sl);
        } else if sl is Number && sr is Number && !is_zero_num(sr) {
        }
    } else if op == Op::Pow {
        let k = (b.0 / b.1) as nat;
        assert(u == (ipow(a.0, k), ipow(a.1, k)));
        lemma_ipow_pos(a.1, k);
        if is_zero_num(sr) {
            assert(b.0 / b.1 == 0);
            assert(u == (1int, 1int));
            assert(simp_bin(op, sl, sr) == num(1));
            assert(exact_value(num(1), env) == Some((1int, 1int)));
        } else if is_one_num(sr) {
            assert(b.0 == b.1);
            vstd::arithmetic::div_mod::lemma_div_multiples_vanish(1, b.1);
            assert(b.0 / b.1 == 1);
            assert(ipow(a.0, 0) == 1 && ipow(a.1, 0) == 1);
            assert(u == (a.0 * 1, a.1 * 1));
            assert(simp_bin(op, sl, sr) == sl);
        } else if is_one_num(sl) {
            assert(a.0 == a.1);
            assert(simp_bin(op, sl, sr) == num(1));
            assert(exact_value(num(1), env) == Some((1int, 1int)));
        } else if sl is Number && sr is Number {
            assert(pow_spec(a, b) matches Some(v) ==> v == u);
        }
    }
}

/// Simplification keeps the exact value of an arithmetic expression:
/// where numbers, variables (valued by `env`), `+`, `-`, `*`, `/` and `^`
/// by whole numbers give `e` a value (no divisor is zero), the simplified
/// expression has a value too, and it is the same number.
pub proof fn lemma_simplify_keeps_value(e: ExprV, env: spec_fn(Seq<char>) -> (int, int))
    ensures
        exact_value(e, env) matches Some(v) ==> (exact_value(simp(e), env) matches Some(w)
            && same_value(v, w)),
    decreases e,
{
    if let ExprV::BinaryOp(op, l, r) = e {
        lemma_simplify_keeps_value(*l, env);
        lemma_simplify_keeps_value(*r, env);
        if let (Some(a), Some(b)) = (exact_value(*l, env), exact_value(*r, env)) {
            if rat_op(op, a, b) is Some {
                let sl = simp(*l);
                let sr = simp(*r);
                let a2 = exact_value(sl, env)->0;
                let b2 = exact_value(sr, env)->0;
                lemma_value_den(*l, env);
                lemma_value_den(*r, env);
                lemma_value_den(sl, env);
                lemma_value_den(sr, env);
                lemma_rat_op_congruent(op, a, b, a2, b2);
                let u2 = rat_op(op, a2, b2)->0;
                assert(exact_value(bin(op, sl, sr), env) == Some(u2));
                lemma_value_den(bin(op, sl, sr), env);
                lemma_simp_bin_value(op, sl, sr, env, a2, b2);
                let w = exact_value(simp_bin(op, sl, sr), env)->0;
                lemma_same_trans(rat_op(op, a, b)->0, u2, w);
            }
        }
    }
}

proof fn lemma_rat_op_den(op: Op, a: (int, int), b: (int, int))
    requires
        a.1 > 0,
        b.1 > 0,
    ensures
        rat_op(op, a, b) matches Some(u) ==> u.1 > 0,
{
    assert(a.1 * b.1 > 0) by (nonlinear_arith)
        requires
            a.1 > 0,
            b.1 > 0,
    ;
    if b.0 > 0 {
        assert(a.1 * b.0 > 0) by (nonlinear_arith)
            requires
                a.1 > 0,
                b.0 > 0,
        ;
    } else if b.0 < 0 {
        assert(-(a.1 * b.0) > 0) by (nonlinear_arith)
            requires
                a.1 > 0,
                b.0 < 0,
        ;
    }
    if b.0 >= 0 && b.0 % b.1 == 0 {
        lemma_ipow_pos(a.1, (b.0 / b.1) as nat);
    }
}

/// A first-order dual number `v + s·ε` (with `ε² = 0`): a value and its
/// rate of change, both fractions.
pub type Dual = ((int, int), (int, int));

/// The value of a dual number.
pub open spec fn dual_val(d: Dual) -> (int, int) {
    d.0
}

/// The rate of change of a dual number.
pub open spec fn dual_rate(d: Dual) -> (int, int) {
    d.1
}

/// `op` on two dual numbers, for `+`, `-`, `*` and `/`: the arithmetic of
/// `v + s·ε` with `ε² = 0`. The quotient `q + t·ε` of `a` by `b` is the
/// dual number that `b` multiplies to `a`: `q = a.v / b.v` and
/// `t = (a.s - q·b.s) / b.v`.
pub open spec fn dual_op(op: Op, a: Dual, b: Dual) -> Option<Dual> {
    if op == Op::Add {
        Some((rat_op(Op::Add, a.0, b.0)->0, rat_op(Op::Add, a.1, b.1)->0))
    } else if op == Op::Sub {
        Some((rat_op(Op::Sub, a.0, b.0)->0, rat_op(Op::Sub, a.1, b.1)->0))
    } else if op == Op::Mul {
        Some(
            (
                rat_op(Op::Mul, a.0, b.0)->0,
                rat_op(Op::Add, rat_op(Op::Mul, a.1, b.0)->0, rat_op(Op::Mul, a.0, b.1)->0)->0,
            ),
        )
    } else if op == Op::Div && dual_val(b).0 != 0 {
        let q = rat_op(Op::Div, a.0, b.0)->0;
        Some((q, rat_op(Op::Div, rat_op(Op::Sub, a.1, rat_op(Op::Mul, q, b.1)->0)->0, b.0)->0))
    } else {
        None
    }
}

/// `d` to the power `k`: `d` multiplied by itself `k` times (one for
/// `k = 0`).
pub open spec fn dual_pow(d: Dual, k: nat) -> Dual
    decreases k,
{
    if k == 0 {
        ((1int, 1int), (0int, 1int))
    } else {
        dual_op(Op::Mul, d, dual_pow(d, (k - 1) as nat))->0
    }
}

/// `a` to the power `b`, where `b` is a whole number at least one that
/// does not change with the variable (`varies` false).
pub open spec fn dual_power(a: Dual, b: Dual, varies: bool) -> Option<Dual> {
    let e = dual_val(b);
    if !varies && e.0 % e.1 == 0 && e.0 / e.1 >= 1 {
        Some(dual_pow(a, (e.0 / e.1) as nat))
    } else {
        None
    }
}

/// `e` evaluated on dual numbers, with variable `var` at `env(var) + ε`
/// and every other variable at a constant: the value of `e` and the rate
/// at which it changes with `var`. Numbers, variables, `+`, `-`, `*`, `/`,
/// and `^` by a whole number, at least one, in which `var` does not occur.
pub open spec fn dual_value(e: ExprV, env: spec_fn(Seq<char>) -> (int, int), var: Seq<char>) -> Option<Dual>
    decreases e,
{
    match e {
        ExprV::Number(n) => if n.1 > 0 { Some((n, (0int, 1int))) } else { None },
        ExprV::Variable(x) => if env(x).1 > 0 {
            Some((env(x), if x == var { (1int, 1int) } else { (0int, 1int) }))
        } else {
            None
        },
        ExprV::BinaryOp(op, l, r) => match (dual_value(*l, env, var), dual_value(*r, env, var)) {
            (Some(a), Some(b)) => if op == Op::Pow {
                dual_power(a, b, contains_var(*r, var))
            } else {
                dual_op(op, a, b)
            },
            _ => None,
        },
        _ => None,
    }
}

proof fn lemma_whole_nonneg(e: (int, int))
    requires
        e.1 > 0,
        e.0 % e.1 == 0,
        e.0 / e.1 >= 0,
    ensures
        e.0 >= 0,
        e.0 == (e.0 / e.1) * e.1,
{
    vstd::arithmetic::div_mod::lemma_fundamental_div_mod(e.0, e.1);
    let q = e.0 / e.1;
    assert(e.0 == e.1 * q);
    assert(e.1 * q >= 0) by (nonlinear_arith)
        requires
            e.1 > 0,
            q >= 0,
    ;
    vstd::arithmetic::mul::lemma_mul_is_commutative(e.1, q);
}

proof fn lemma_dual_pow_parts(d: Dual, k: nat)
    requires
        dual_val(d).1 > 0,
        dual_rate(d).1 > 0,
    ensures
        dual_val(dual_pow(d, k)) == (ipow(dual_val(d).0, k), ipow(dual_val(d).1, k)),
        dual_rate(dual_pow(d, k)).1 > 0,
    decreases k,
{
    if k > 0 {
        let p = dual_pow(d, (k - 1) as nat);
        lemma_dual_pow_parts(d, (k - 1) as nat);
        lemma_ipow_pos(dual_val(d).1, (k - 1) as nat);
        lemma_rat_op_den(Op::Mul, d.1, p.0);
        lemma_rat_op_den(Op::Mul, d.0, p.1);
        lemma_rat_op_den(Op::Add, rat_op(Op::Mul, d.1, p.0)->0, rat_op(Op::Mul, d.0, p.1)->0);
    }
}

proof fn lemma_dual_parts(e: ExprV, env: spec_fn(Seq<char>) -> (int, int), var: Seq<char>)
    ensures
        dual_value(e, env, var) matches Some(d) ==> exact_value(e, env) == Some(dual_val(d)) && dual_val(
            d,
        ).1 > 0 && dual_rate(d).1 > 0,
    decreases e,
{
    lemma_value_den(e, env);
    if let ExprV::BinaryOp(op, l, r) = e {
        lemma_dual_parts(*l, env, var);
        lemma_dual_parts(*r, env, var);
        if let (Some(a), Some(b)) = (dual_value(*l, env, var), dual_value(*r, env, var)) {
            lemma_rat_op_den(Op::Add, a.1, b.1);
            lemma_rat_op_den(Op::Sub, a.1, b.1);
            lemma_rat_op_den(Op::Mul, a.1, b.0);
            lemma_rat_op_den(Op::Mul, a.0, b.1);
            if op == Op::Mul {
                lemma_rat_op_den(Op::Add, rat_op(Op::Mul, a.1, b.0)->0, rat_op(Op::Mul, a.0, b.1)->0);
            }
            if op == Op::Pow {
                let ev = dual_val(b);
                if ev.0 % ev.1 == 0 && ev.0 / ev.1 >= 1 {
                    lemma_dual_pow_parts(a, (ev.0 / ev.1) as nat);
                    lemma_whole_nonneg(ev);
                }
            }
            if op == Op::Div && dual_val(b).0 != 0 {
                let q = rat_op(Op::Div, a.0, b.0)->0;
                lemma_rat_op_den(Op::Div, a.0, b.0);
                lemma_rat_op_den(Op::Mul, q, b.1);
                lemma_rat_op_den(Op::Sub, a.1, rat_op(Op::Mul, q, b.1)->0);
                lemma_rat_op_den(Op::Div, rat_op(Op::Sub, a.1, rat_op(Op::Mul, q, b.1)->0)->0, b.0);
            }
        }
    }
}

proof fn lemma_quotient_algebra(
    n0: int,
    t0: int,
    q0: int,
    q1: int,
    a0: int,
    a1: int,
    b0: int,
    b1: int,
    c0: int,
    c1: int,
    d0: int,
    d1: int,
)
    requires
        q0 * (a1 * b0) == (a0 * b1) * q1,
        n0 == (c0 * b0) * (a1 * d1) - (a0 * d0) * (c1 * b1),
        t0 == c0 * (q1 * d1) - (q0 * d0) * c1,
    ensures
        (n0 * (b1 * b1)) * ((c1 * (q1 * d1)) * b0) == (t0 * b1) * (((c1 * b1) * (a1 * d1)) * (b0 * b0)),
{
    let q = q0 * (a1 * b0);
    vstd::arithmetic::mul::lemma_mul_is_distributive_sub_other_way(a1 * b0, c0 * (q1 * d1), (q0 * d0) * c1);
    assert(((q0 * d0) * c1) * (a1 * b0) == (q0 * (a1 * b0)) * (d0 * c1)) by (nonlinear_arith);
    assert((c0 * (q1 * d1)) * (a1 * b0) == q1 * ((c0 * b0) * (a1 * d1))) by (nonlinear_arith);
    assert(((a0 * b1) * q1) * (d0 * c1) == q1 * ((a0 * d0) * (c1 * b1))) by (nonlinear_arith);
    vstd::arithmetic::mul::lemma_mul_is_distributive_sub(q1, (c0 * b0) * (a1 * d1), (a0 * d0) * (c1 * b1));
    assert(t0 * (a1 * b0) == q1 * n0);
    let k = b1 * b1 * c1 * d1 * b0;
    assert((n0 * (b1 * b1)) * ((c1 * (q1 * d1)) * b0) == (q1 * n0) * k) by (nonlinear_arith)
        requires
            k == b1 * b1 * c1 * d1 * b0,
    ;
    let x = b1 * c1 * d1 * b0;
    assert(((c1 * b1) * (a1 * d1)) * (b0 * b0) == (a1 * b0) * x) by (nonlinear_arith)
        requires
            x == b1 * c1 * d1 * b0,
    ;
    let y = a1 * b0;
    assert((t0 * b1) * (y * x) == (t0 * y) * (b1 * x)) by (nonlinear_arith);
    assert(b1 * x == k) by (nonlinear_arith)
        requires
            x == b1 * c1 * d1 * b0,
            k == b1 * b1 * c1 * d1 * b0,
    ;
}

proof fn lemma_square(x: int)
    ensures
        ipow(x, 2) == x * (x * 1),
        ipow(x, (2int / 1int) as nat) == x * (x * 1),
{
    assert(ipow(x, 0) == 1);
    assert(ipow(x, 1) == x * ipow(x, 0));
    assert(ipow(x, 2) == x * ipow(x, 1));
    assert((2int / 1int) as nat == 2);
}

/// A quotient with its sign kept in the denominator stands for the same
/// number as `rat_op`'s.
proof fn lemma_div_unmoved_sign(x: (int, int), y: (int, int))
    requires
        y.0 != 0,
    ensures
        rat_op(Op::Div, x, y) is Some,
        same_value(rat_op(Op::Div, x, y)->0, (x.0 * y.1, x.1 * y.0)),
{
    assert((-(x.0 * y.1)) * (x.1 * y.0) == (x.0 * y.1) * (-(x.1 * y.0))) by (nonlinear_arith);
}

/// The rate of change of a quotient, as differentiation writes it, is the
/// dual-number one.
proof fn lemma_quotient_slope(av: (int, int), bv: (int, int), as_: (int, int), bs: (int, int))
    requires
        av.1 > 0,
        bv.1 > 0,
        as_.1 > 0,
        bs.1 > 0,
        bv.0 != 0,
    ensures
        ({
            let n = rat_op(Op::Sub, rat_op(Op::Mul, as_, bv)->0, rat_op(Op::Mul, av, bs)->0)->0;
            let p = rat_op(Op::Pow, bv, (2int, 1int))->0;
            rat_op(Op::Div, n, p) is Some && same_value(
                rat_op(Op::Div, n, p)->0,
                dual_rate(dual_op(Op::Div, (av, as_), (bv, bs))->0),
            )
        }),
{
    let n = rat_op(Op::Sub, rat_op(Op::Mul, as_, bv)->0, rat_op(Op::Mul, av, bs)->0)->0;
    assert(2int % 1int == 0 && 2int / 1int == 2);
    let p = rat_op(Op::Pow, bv, (2int, 1int))->0;
    lemma_square(bv.0);
    lemma_square(bv.1);
    assert(p == (bv.0 * bv.0, bv.1 * bv.1));
    assert(bv.0 * bv.0 > 0) by (nonlinear_arith)
        requires
            bv.0 != 0,
    ;
    let w = (n.0 * p.1, n.1 * p.0);
    assert(rat_op(Op::Div, n, p) == Some(w));
    let q = rat_op(Op::Div, av, bv)->0;
    lemma_div_unmoved_sign(av, bv);
    lemma_rat_op_den(Op::Div, av, bv);
    lemma_rat_op_den(Op::Mul, q, bs);
    let t = rat_op(Op::Sub, as_, rat_op(Op::Mul, q, bs)->0)->0;
    lemma_rat_op_den(Op::Sub, as_, rat_op(Op::Mul, q, bs)->0);
    let sl = dual_rate(dual_op(Op::Div, (av, as_), (bv, bs))->0);
    assert(sl == rat_op(Op::Div, t, bv)->0);
    lemma_div_unmoved_sign(t, bv);
    let su = (t.0 * bv.1, t.1 * bv.0);
    lemma_quotient_algebra(
        n.0,
        t.0,
        q.0,
        q.1,
        av.0,
        av.1,
        bv.0,
        bv.1,
        as_.0,
        as_.1,
        bs.0,
        bs.1,
    );
    assert(same_value(w, su));
    assert(su.1 != 0) by (nonlinear_arith)
        requires
            su.1 == t.1 * bv.0,
            t.1 > 0,
            bv.0 != 0,
    ;
    lemma_same_trans(w, su, sl);
}

proof fn lemma_pow_step_algebra(k: int, a: int, b: int, a1: int, b1: int, v0: int, v1: int, s0: int, s1: int)
    requires
        a == v0 * a1,
        b == v1 * b1,
    ensures
        same_value(
            (
                (s0 * a) * (v1 * (b1 * s1)) + (v0 * ((k - 1) * a1 * s0)) * (s1 * b),
                (s1 * b) * (v1 * (b1 * s1)),
            ),
            (k * a * s0, b * s1),
        ),
{
    let x0 = s0 * a;
    let x1 = s1 * b;
    let y0 = v0 * ((k - 1) * a1 * s0);
    let y1 = v1 * (b1 * s1);
    assert(y1 == b * s1) by (nonlinear_arith)
        requires
            y1 == v1 * (b1 * s1),
            b == v1 * b1,
    ;
    assert(y0 == (k - 1) * a * s0) by (nonlinear_arith)
        requires
            y0 == v0 * ((k - 1) * a1 * s0),
            a == v0 * a1,
    ;
    assert(x0 * y1 + y0 * x1 == k * a * s0 * (b * s1)) by (nonlinear_arith)
        requires
            x0 == s0 * a,
            x1 == s1 * b,
            y1 == b * s1,
            y0 == (k - 1) * a * s0,
    ;
    assert((k * a * s0 * (b * s1)) * (b * s1) == (k * a * s0) * ((s1 * b) * (b * s1))) by (nonlinear_arith);
}

/// The rate of change of `d` to the power `k` (at least one) is
/// `k·v^(k-1)·s`, where `v` and `s` are the value and rate of `d`.
proof fn lemma_dual_pow_rate(d: Dual, k: nat)
    requires
        dual_val(d).1 > 0,
        dual_rate(d).1 > 0,
        k >= 1,
    ensures
        same_value(
            dual_rate(dual_pow(d, k)),
            (
                k * ipow(dual_val(d).0, (k - 1) as nat) * dual_rate(d).0,
                ipow(dual_val(d).1, (k - 1) as nat) * dual_rate(d).1,
            ),
        ),
    decreases k,
{
    let v = dual_val(d);
    let sr = dual_rate(d);
    let p = dual_pow(d, (k - 1) as nat);
    lemma_dual_pow_parts(d, (k - 1) as nat);
    assert(dual_pow(d, k) == dual_op(Op::Mul, d, p)->0);
    if k == 1 {
        assert(p == ((1int, 1int), (0int, 1int)));
        assert(ipow(v.0, 0) == 1 && ipow(v.1, 0) == 1);
        let r = dual_rate(dual_pow(d, k));
        assert(r == ((sr.0 * 1) * (v.1 * 1) + (v.0 * 0) * (sr.1 * 1), (sr.1 * 1) * (v.1 * 1)));
        assert(same_value(r, (1 * 1 * sr.0, 1 * sr.1))) by (nonlinear_arith)
            requires
                r == ((sr.0 * 1) * (v.1 * 1) + (v.0 * 0) * (sr.1 * 1), (sr.1 * 1) * (v.1 * 1)),
        ;
    } else {
        let j = (k - 1) as nat;
        let i = (k - 2) as nat;
        lemma_dual_pow_rate(d, j);
        lemma_dual_pow_parts(d, i);
        let a1 = ipow(v.0, i);
        let b1 = ipow(v.1, i);
        let a = ipow(v.0, j);
        let b = ipow(v.1, j);
        assert(a == v.0 * a1 && b == v.1 * b1);
        lemma_ipow_pos(v.1, i);
        lemma_ipow_pos(v.1, j);
        let t1 = ((k - 1) * a1 * sr.0, b1 * sr.1);
        assert(t1.1 > 0) by (nonlinear_arith)
            requires
                t1.1 == b1 * sr.1,
                b1 > 0,
                sr.1 > 0,
        ;
        lemma_rat_op_den(Op::Mul, sr, p.0);
        lemma_rat_op_den(Op::Mul, v, p.1);
        lemma_rat_op_den(Op::Mul, v, t1);
        assert(same_value(v, v));
        assert(same_value(sr, sr));
        lemma_rat_op_congruent(Op::Mul, v, p.1, v, t1);
        let x = rat_op(Op::Mul, sr, p.0)->0;
        let y = rat_op(Op::Mul, v, p.1)->0;
        let y2 = rat_op(Op::Mul, v, t1)->0;
        assert(same_value(x, x));
        lemma_rat_op_congruent(Op::Add, x, y, x, y2);
        let z = rat_op(Op::Add, x, y2)->0;
        lemma_rat_op_den(Op::Add, x, y2);
        lemma_pow_step_algebra(k as int, a, b, a1, b1, v.0, v.1, sr.0, sr.1);
        assert(x == (sr.0 * a, sr.1 * b));
        assert(y2 == (v.0 * ((k - 1) * a1 * sr.0), v.1 * (b1 * sr.1)));
        lemma_same_trans(dual_rate(dual_pow(d, k)), z, (k * a * sr.0, b * sr.1));
    }
}

/// A dual value of an expression without the variable changes at rate zero.
proof fn lemma_constant_rate(e: ExprV, env: spec_fn(Seq<char>) -> (int, int), var: Seq<char>)
    requires
        !contains_var(e, var),
    ensures
        dual_value(e, env, var) matches Some(d) ==> dual_rate(d).0 == 0,
    decreases e,
{
    lemma_dual_parts(e, env, var);
    if let ExprV::BinaryOp(op, l, r) = e {
        lemma_constant_rate(*l, env, var);
        lemma_constant_rate(*r, env, var);
        lemma_dual_parts(*l, env, var);
        lemma_dual_parts(*r, env, var);
        if let (Some(a), Some(b)) = (dual_value(*l, env, var), dual_value(*r, env, var)) {
            if op == Op::Pow {
                let ev = dual_val(b);
                if ev.0 % ev.1 == 0 && ev.0 / ev.1 >= 1 {
                    let k = (ev.0 / ev.1) as nat;
                    lemma_dual_pow_rate(a, k);
                    lemma_ipow_pos(dual_val(a).1, (k - 1) as nat);
                    let rr = dual_rate(dual_pow(a, k));
                    let den = ipow(dual_val(a).1, (k - 1) as nat) * dual_rate(a).1;
                    assert(den > 0) by (nonlinear_arith)
                        requires
                            den == ipow(dual_val(a).1, (k - 1) as nat) * dual_rate(a).1,
                            ipow(dual_val(a).1, (k - 1) as nat) > 0,
                            dual_rate(a).1 > 0,
                    ;
                    assert(k * ipow(dual_val(a).0, (k - 1) as nat) * dual_rate(a).0 == 0) by (nonlinear_arith)
                        requires
                            dual_rate(a).0 == 0,
                    ;
                    assert(rr.0 == 0) by (nonlinear_arith)
                        requires
                            rr.0 * den == 0 * rr.1,
                            den > 0,
                    ;
                    assert(dual_value(e, env, var) == Some(dual_pow(a, k)));
                }
            } else if let Some(c) = dual_op(op, a, b) {
                let (ra, rb) = (dual_rate(a), dual_rate(b));
                let (av, bv) = (dual_val(a), dual_val(b));
                lemma_zero_product(ra.0, rb.1);
                lemma_zero_product(rb.0, ra.1);
                lemma_zero_product(ra.0, bv.1);
                lemma_zero_product(rb.0, av.0);
                if op == Op::Mul {
                    let m1 = rat_op(Op::Mul, ra, bv)->0;
                    let m2 = rat_op(Op::Mul, av, rb)->0;
                    lemma_zero_product(ra.0, bv.0);
                    lemma_zero_product(m1.0, m2.1);
                    lemma_zero_product(m2.0, m1.1);
                } else if op == Op::Div {
                    let q = rat_op(Op::Div, av, bv)->0;
                    let m = rat_op(Op::Mul, q, rb)->0;
                    lemma_zero_product(rb.0, q.0);
                    let n = rat_op(Op::Sub, ra, m)->0;
                    lemma_zero_product(ra.0, m.1);
                    lemma_zero_product(m.0, ra.1);
                    lemma_zero_product(n.0, bv.1);
                }
                assert(dual_value(e, env, var) == Some(c));
                assert(dual_rate(c).0 == 0);
            }
        }
    }
}

proof fn lemma_zero_product(x: int, y: int)
    requires
        x == 0,
    ensures
        x * y == 0,
        y * x == 0,
{
}

proof fn lemma_scale_exponent(e0: int, e1: int, k: int, pa: int, pb: int, s0: int, s1: int)
    requires
        e0 == k * e1,
    ensures
        same_value((e0 * pa * s0, e1 * pb * s1), (k * pa * s0, pb * s1)),
{
    let u = pa * s0;
    let v = pb * s1;
    assert(e0 * pa * s0 == e0 * u) by (nonlinear_arith)
        requires
            u == pa * s0,
    ;
    assert(e1 * pb * s1 == e1 * v) by (nonlinear_arith)
        requires
            v == pb * s1,
    ;
    assert(k * pa * s0 == k * u) by (nonlinear_arith)
        requires
            u == pa * s0,
    ;
    assert((e0 * u) * v == (k * u) * (e1 * v)) by (nonlinear_arith)
        requires
            e0 == k * e1,
    ;
}

/// The power rule, one step: for `u ^ k` with `k` a whole number, at least
/// one, that does not depend on the variable, the derivative of the parts
/// giving their rates makes the derivative of the whole give its rate.
#[verifier::spinoff_prover]
proof fn lemma_pow_derivative_is_rate(l: ExprV, r: ExprV, env: spec_fn(Seq<char>) -> (int, int), var: Seq<char>)
    requires
        dual_value(l, env, var) is Some,
        dual_value(r, env, var) is Some,
        dual_power(dual_value(l, env, var)->0, dual_value(r, env, var)->0, contains_var(r, var)) is Some,
        deriv(l, var) is Ok,
        exact_value(deriv(l, var)->Ok_0, env) is Some,
        same_value(exact_value(deriv(l, var)->Ok_0, env)->0, dual_rate(dual_value(l, env, var)->0)),
    ensures
        ({
            let e = bin(Op::Pow, l, r);
            &&& dual_value(e, env, var) is Some
            &&& deriv(e, var) is Ok
            &&& exact_value(deriv(e, var)->Ok_0, env) is Some
            &&& same_value(exact_value(deriv(e, var)->Ok_0, env)->0, dual_rate(dual_value(e, env, var)->0))
        }),
{
    let e = bin(Op::Pow, l, r);
    let a = dual_value(l, env, var)->0;
    let b = dual_value(r, env, var)->0;
    lemma_dual_parts(l, env, var);
    lemma_dual_parts(r, env, var);
    let av = dual_val(a);
    let s = dual_rate(a);
    let ev = dual_val(b);
    let k = (ev.0 / ev.1) as nat;
    let d = dual_pow(a, k);
    assert(dual_value(e, env, var) == Some(d));
    lemma_whole_nonneg(ev);
    lemma_dual_pow_parts(a, k);
    if contains_var(l, var) {
        let dl = deriv(l, var)->Ok_0;
        let wl = exact_value(dl, env)->0;
        lemma_value_den(dl, env);
        let de = bin(Op::Mul, bin(Op::Mul, r, bin(Op::Pow, l, bin(Op::Sub, r, num(1)))), dl);
        assert(deriv(e, var) == Ok::<ExprV, Seq<char>>(de));
        // the exponent less one is the whole number k - 1
        let km = (k - 1) as int;
        let s1 = (ev.0 * 1 - 1 * ev.1, ev.1 * 1);
        assert(exact_value(num(1), env) == Some((1int, 1int)));
        assert(exact_value(bin(Op::Sub, r, num(1)), env) == Some(s1));
        assert(s1.0 == km * ev.1) by (nonlinear_arith)
            requires
                s1.0 == ev.0 * 1 - 1 * ev.1,
                ev.0 == k * ev.1,
                km == k - 1,
        ;
        vstd::arithmetic::div_mod::lemma_mod_multiples_basic(km, ev.1);
        vstd::arithmetic::div_mod::lemma_div_by_multiple(km, ev.1);
        assert(s1.0 >= 0) by (nonlinear_arith)
            requires
                s1.0 == km * ev.1,
                km >= 0,
                ev.1 > 0,
        ;
        let j = (k - 1) as nat;
        let pa = ipow(av.0, j);
        let pb = ipow(av.1, j);
        assert(exact_value(bin(Op::Pow, l, bin(Op::Sub, r, num(1))), env) == Some((pa, pb)));
        let m1 = (ev.0 * pa, ev.1 * pb);
        assert(exact_value(bin(Op::Mul, r, bin(Op::Pow, l, bin(Op::Sub, r, num(1)))), env) == Some(m1));
        let w = (m1.0 * wl.0, m1.1 * wl.1);
        assert(exact_value(de, env) == Some(w));
        lemma_ipow_pos(av.1, j);
        assert(m1.1 > 0) by (nonlinear_arith)
            requires
                m1.1 == ev.1 * pb,
                ev.1 > 0,
                pb > 0,
        ;
        // replace the derivative of the base by its rate
        assert(same_value(m1, m1));
        lemma_rat_op_congruent(Op::Mul, m1, wl, m1, s);
        let x = (m1.0 * s.0, m1.1 * s.1);
        assert(same_value(w, x));
        // the exponent's numerator is k times its denominator
        let t = (k * pa * s.0, pb * s.1);
        assert(x == (ev.0 * pa * s.0, ev.1 * pb * s.1));
        lemma_scale_exponent(ev.0, ev.1, k as int, pa, pb, s.0, s.1);
        assert(x.1 > 0 && t.1 > 0) by (nonlinear_arith)
            requires
                x.1 == m1.1 * s.1,
                t.1 == pb * s.1,
                m1.1 > 0,
                pb > 0,
                s.1 > 0,
        ;
        lemma_dual_pow_rate(a, k);
        lemma_same_trans(w, x, t);
        lemma_same_trans(w, t, dual_rate(d));
        assert(exact_value(deriv(e, var)->Ok_0, env) == Some(w));
        assert(same_value(w, dual_rate(d)));
    } else {
        assert(!contains_var(e, var));
        assert(deriv(e, var) == Ok::<ExprV, Seq<char>>(num(0)));
        lemma_constant_rate(e, env, var);
        lemma_dual_parts(e, env, var);
        assert(dual_rate(d).0 == 0);
        assert(exact_value(num(0), env) == Some((0int, 1int)));
        let rd = dual_rate(d);
        assert(0 * rd.1 == rd.0 * 1) by (nonlinear_arith)
            requires
                rd.0 == 0,
        ;
        assert(same_value((0int, 1int), rd));
    }
}

/// Differentiation gives the rate of change: wherever `e` (numbers,
/// variables, `+`, `-`, `*`, `/`, and `^` by a whole number, at least one,
/// without the variable in it) has a value with the variables set by
/// `env`, its derivative with respect to `var` has a value too, and it is
/// the rate at which `e` changes with `var` there, as the arithmetic of
/// dual numbers computes it. So the derivative of `1 / x` at `x = 1` is
/// `-1`, and of `u / v` is the `t` with `v·t + v'·(u / v) = u'`.
pub proof fn lemma_derivative_is_rate(e: ExprV, env: spec_fn(Seq<char>) -> (int, int), var: Seq<char>)
    ensures
        dual_value(e, env, var) matches Some(d) ==> (deriv(e, var) matches Ok(de) && exact_value(
            de,
            env,
        ) matches Some(w) && same_value(w, dual_rate(d))),
    decreases e,
{
    lemma_dual_parts(e, env, var);
    if let ExprV::BinaryOp(op, l, r) = e {
        lemma_derivative_is_rate(*l, env, var);
        lemma_derivative_is_rate(*r, env, var);
        lemma_dual_parts(*l, env, var);
        lemma_dual_parts(*r, env, var);
        if let (Some(a), Some(b)) = (dual_value(*l, env, var), dual_value(*r, env, var)) {
            if dual_op(op, a, b) is Some {
                let dl = deriv(*l, var)->Ok_0;
                let dr = deriv(*r, var)->Ok_0;
                let wl = exact_value(dl, env)->0;
                let wr = exact_value(dr, env)->0;
                lemma_value_den(dl, env);
                lemma_value_den(dr, env);
                if op == Op::Add || op == Op::Sub {
                    assert(deriv(e, var) == Ok::<ExprV, Seq<char>>(bin(op, dl, dr)));
                    lemma_rat_op_congruent(op, wl, wr, a.1, b.1);
                    assert(exact_value(bin(op, dl, dr), env) == rat_op(op, wl, wr));
                    assert(dual_rate(dual_op(op, a, b)->0) == rat_op(op, a.1, b.1)->0);
                } else if op == Op::Mul {
                    assert(deriv(e, var) == Ok::<ExprV, Seq<char>>(
                        bin(Op::Add, bin(Op::Mul, dl, *r), bin(Op::Mul, *l, dr)),
                    ));
                    lemma_rat_op_congruent(Op::Mul, wl, b.0, a.1, b.0);
                    lemma_rat_op_congruent(Op::Mul, a.0, wr, a.0, b.1);
                    let m1 = rat_op(Op::Mul, wl, b.0)->0;
                    let m2 = rat_op(Op::Mul, a.0, wr)->0;
                    let m1s = rat_op(Op::Mul, a.1, b.0)->0;
                    let m2s = rat_op(Op::Mul, a.0, b.1)->0;
                    lemma_rat_op_den(Op::Mul, wl, b.0);
                    lemma_rat_op_den(Op::Mul, a.0, wr);
                    lemma_rat_op_den(Op::Mul, a.1, b.0);
                    lemma_rat_op_den(Op::Mul, a.0, b.1);
                    lemma_rat_op_congruent(Op::Add, m1, m2, m1s, m2s);
                    assert(exact_value(bin(Op::Mul, dl, *r), env) == Some(m1));
                    assert(exact_value(bin(Op::Mul, *l, dr), env) == Some(m2));
                    assert(dual_rate(dual_op(op, a, b)->0) == rat_op(Op::Add, m1s, m2s)->0);
                } else {
                    assert(op == Op::Div);
                    let de = bin(
                        Op::Div,
                        bin(Op::Sub, bin(Op::Mul, dl, *r), bin(Op::Mul, *l, dr)),
                        bin(Op::Pow, *r, num(2)),
                    );
                    assert(deriv(e, var) == Ok::<ExprV, Seq<char>>(de));
                    lemma_rat_op_congruent(Op::Mul, wl, b.0, a.1, b.0);
                    lemma_rat_op_congruent(Op::Mul, a.0, wr, a.0, b.1);
                    let m1 = rat_op(Op::Mul, wl, b.0)->0;
                    let m2 = rat_op(Op::Mul, a.0, wr)->0;
                    let m1s = rat_op(Op::Mul, a.1, b.0)->0;
                    let m2s = rat_op(Op::Mul, a.0, b.1)->0;
                    lemma_rat_op_den(Op::Mul, wl, b.0);
                    lemma_rat_op_den(Op::Mul, a.0, wr);
                    lemma_rat_op_den(Op::Mul, a.1, b.0);
                    lemma_rat_op_den(Op::Mul, a.0, b.1);
                    lemma_rat_op_congruent(Op::Sub, m1, m2, m1s, m2s);
                    let nn = rat_op(Op::Sub, m1, m2)->0;
                    let ns = rat_op(Op::Sub, m1s, m2s)->0;
                    lemma_rat_op_den(Op::Sub, m1, m2);
                    lemma_rat_op_den(Op::Sub, m1s, m2s);
                    assert(2int % 1int == 0 && 2int / 1int == 2);
                    let p = rat_op(Op::Pow, b.0, (2int, 1int))->0;
                    lemma_rat_op_den(Op::Pow, b.0, (2int, 1int));
                    assert(exact_value(num(2), env) == Some((2int, 1int)));
                    assert(exact_value(bin(Op::Pow, *r, num(2)), env) == rat_op(Op::Pow, b.0, (2int, 1int)));
                    lemma_quotient_slope(a.0, b.0, a.1, b.1);
                    assert(p.0 != 0) by {
                        let bv = dual_val(b);
                        lemma_square(bv.0);
                        assert(bv.0 * (bv.0 * 1) != 0) by (nonlinear_arith)
                            requires
                                bv.0 != 0,
                        ;
                    }
                    lemma_rat_op_congruent(Op::Div, nn, p, ns, p);
                    let w = rat_op(Op::Div, nn, p)->0;
                    let ws = rat_op(Op::Div, ns, p)->0;
                    lemma_rat_op_den(Op::Div, ns, p);
                    assert(exact_value(bin(Op::Mul, dl, *r), env) == Some(m1));
                    assert(exact_value(bin(Op::Mul, *l, dr), env) == Some(m2));
                    assert(exact_value(bin(Op::Sub, bin(Op::Mul, dl, *r), bin(Op::Mul, *l, dr)), env) == Some(nn));
                    assert(exact_value(de, env) == rat_op(Op::Div, nn, p));
                    assert(same_value(p, p));
                    lemma_same_trans(w, ws, dual_rate(dual_op(op, a, b)->0));
                }
            } else if op == Op::Pow && dual_power(a, b, contains_var(*r, var)) is Some {
                assert(e == bin(Op::Pow, *l, *r));
                lemma_pow_derivative_is_rate(*l, *r, env, var);
            }
        }
    }
}

/// The derivative of the natural logarithm of `u` is the rate of change of
/// `u` divided by the value of `u`: wherever `u` (as in
/// `lemma_derivative_is_rate`) has a nonzero value, the derivative of
/// `ln(u)` has the value `u' / u` there.
pub proof fn lemma_log_derivative_is_rate(u: ExprV, env: spec_fn(Seq<char>) -> (int, int), var: Seq<char>)
    ensures
        dual_value(u, env, var) matches Some(d) ==> (dual_val(d).0 != 0 ==> (deriv(
            call1("ln"@, u),
            var,
        ) matches Ok(de) && exact_value(de, env) matches Some(w) && same_value(
            w,
            (dual_rate(d).0 * dual_val(d).1, dual_rate(d).1 * dual_val(d).0),
        ))),
{
    lemma_derivative_is_rate(u, env, var);
    lemma_dual_parts(u, env, var);
    if let Some(d) = dual_value(u, env, var) {
        let v = dual_val(d);
        let s = dual_rate(d);
        if v.0 != 0 {
            let du = deriv(u, var)->Ok_0;
            let wl = exact_value(du, env)->0;
            lemma_value_den(du, env);
            let e = call1("ln"@, u);
            reveal_strlit("ln");
            reveal_strlit("sin");
            reveal_strlit("cos");
            reveal_strlit("exp");
            assert("ln"@.len() == 2 && "sin"@.len() == 3 && "cos"@.len() == 3 && "exp"@.len() == 3);
            assert("ln"@ != "sin"@ && "ln"@ != "cos"@ && "ln"@ != "exp"@);
            assert(e->FnCall_1.len() == 1 && e->FnCall_1[0] == u);
            assert(deriv(e, var) == Ok::<ExprV, Seq<char>>(bin(Op::Div, du, u)));
            assert(same_value(v, v));
            lemma_rat_op_congruent(Op::Div, wl, v, s, v);
            lemma_rat_op_den(Op::Div, s, v);
            let q = rat_op(Op::Div, s, v)->0;
            let t = (s.0 * v.1, s.1 * v.0);
            assert(same_value(q, t)) by (nonlinear_arith)
                requires
                    q == t || q == (-t.0, -t.1),
            ;
            lemma_same_trans(exact_value(bin(Op::Div, du, u), env)->0, q, t);
        }
    }
}

/// The simplified derivative of `f(x)`, where there is one.
pub open spec fn simp_deriv(e: ExprV, x: Seq<char>) -> ExprV {
    simp(deriv(e, x)->Ok_0)
}

/// Sine and cosine each have minus themselves as second derivative, and the
/// exponential is its own derivative: for every variable `x`, differentiating
/// `sin(x)` twice (simplifying after each step) gives `-sin(x)`, `cos(x)`
/// gives `-cos(x)`, and differentiating `exp(x)` once gives `exp(x)`.
pub proof fn lemma_function_derivative_identities(x: Seq<char>)
    ensures
        ({
            let v = ExprV::Variable(x);
            let s = call1("sin"@, v);
            let c = call1("cos"@, v);
            let ex = call1("exp"@, v);
            &&& deriv(s, x) is Ok && deriv(simp_deriv(s, x), x) is Ok
            &&& simp_deriv(simp_deriv(s, x), x) == bin(Op::Sub, num(0), s)
            &&& deriv(c, x) is Ok && deriv(simp_deriv(c, x), x) is Ok
            &&& simp_deriv(simp_deriv(c, x), x) == bin(Op::Sub, num(0), c)
            &&& deriv(ex, x) is Ok
            &&& simp_deriv(ex, x) == ex
        }),
{
    reveal_strlit("sin");
    reveal_strlit("cos");
    reveal_strlit("exp");
    reveal_strlit("ln");
    reveal_strlit("log");
    assert("sin"@ != "cos"@ && "sin"@ != "exp"@ && "cos"@ != "exp"@) by {
        assert("sin"@[0] == 's' && "cos"@[0] == 'c' && "exp"@[0] == 'e');
    }
    assert("ln"@.len() == 2 && "log"@.len() == 3);
    assert("cos"@ != "log"@ && "sin"@ != "log"@ && "exp"@ != "log"@) by {
        assert("log"@[0] == 'l');
    }
    let v = ExprV::Variable(x);
    let s = call1("sin"@, v);
    let c = call1("cos"@, v);
    let ex = call1("exp"@, v);
    assert(deriv(v, x) == Ok::<ExprV, Seq<char>>(num(1)));
    assert(seq![v].drop_last() =~= Seq::<ExprV>::empty());
    assert(simp_all(Seq::<ExprV>::empty()) =~= Seq::<ExprV>::empty());
    assert(simp(v) == v);
    assert(simp_all(seq![v]) =~= seq![v]);
    assert(simp(s) == s && simp(c) == c && simp(ex) == ex);
    assert(is_one_num(num(1)) && !is_zero_num(num(1)));
    // sin(x)' = cos(x) · 1, which simplifies to cos(x)
    assert(deriv(s, x) == Ok::<ExprV, Seq<char>>(bin(Op::Mul, c, num(1))));
    assert(simp(num(1)) == num(1));
    assert(simp(bin(Op::Mul, c, num(1))) == simp_bin(Op::Mul, c, num(1)));
    assert(simp_bin(Op::Mul, c, num(1)) == c);
    assert(simp_deriv(s, x) == c);
    // cos(x)' = (0 - sin(x)) · 1, which simplifies to 0 - sin(x)
    let ms = bin(Op::Sub, num(0), s);
    assert(deriv(c, x) == Ok::<ExprV, Seq<char>>(bin(Op::Mul, ms, num(1))));
    assert(simp(num(0)) == num(0));
    assert(simp(ms) == ms);
    assert(simp_deriv(c, x) == ms);
    // (0 - sin(x))' = 0 - cos(x) · 1, which simplifies to 0 - cos(x)
    assert(deriv(num(0), x) == Ok::<ExprV, Seq<char>>(num(0)));
    assert(deriv(ms, x) == Ok::<ExprV, Seq<char>>(bin(Op::Sub, num(0), bin(Op::Mul, c, num(1)))));
    assert(simp_deriv(ms, x) == bin(Op::Sub, num(0), c));
    // exp(x)' = exp(x) · 1, which simplifies to exp(x)
    assert(deriv(ex, x) == Ok::<ExprV, Seq<char>>(bin(Op::Mul, ex, num(1))));
}

/// The derivative of an expression in which the variable does not occur
/// simplifies to the number zero (for expressions without conversions and
/// lists, whose derivatives simplification leaves as they are).
pub proof fn lemma_constant_derivative(e: ExprV, var: Seq<char>)
    requires
        !contains_var(e, var),
        without_convert_or_list(e),
        deriv(e, var) is Ok,
    ensures
        is_zero_num(simp(deriv(e, var)->Ok_0)),
    decreases e,
{
    match e {
        ExprV::Percentage(x) => {
            lemma_constant_derivative(*x, var);
            let dx = deriv(*x, var)->Ok_0;
            assert(deriv(e, var) == Ok::<ExprV, Seq<char>>(ExprV::Percentage(Box::new(dx))));
            let si = simp(dx);
            assert(si is Number);
            assert(percent_spec(si->Number_0) == Some((0int, 1int)));
            let pe = ExprV::Percentage(Box::new(dx));
            assert(simp(pe) == ExprV::Number((0int, 1int)));
            assert(deriv(e, var)->Ok_0 == pe);
            assert(is_zero_num(ExprV::Number((0int, 1int))));
            assert(is_zero_num(simp(deriv(e, var)->Ok_0)));
        },
        ExprV::BinaryOp(op, l, r) => {
            if op == Op::Add || op == Op::Sub || op == Op::Mul || op == Op::Div {
                lemma_constant_derivative(*l, var);
                lemma_constant_derivative(*r, var);
                let dl = deriv(*l, var)->Ok_0;
                let dr = deriv(*r, var)->Ok_0;
                if op == Op::Mul || op == Op::Div {
                    let a = bin(Op::Mul, dl, *r);
                    let b = bin(Op::Mul, *l, dr);
                    assert(simp(a) == num(0));
                    assert(simp(b) == num(0));
                    if op == Op::Div {
                        let c = bin(Op::Sub, a, b);
                        assert(simp(c) == num(0));
                        assert(simp(bin(Op::Div, c, bin(Op::Pow, *r, num(2)))) == num(0));
                    }
                }
            }
        },
        ExprV::FnCall(name, args) => {
            let u = args[0];
            assert(args.drop_last() =~= Seq::<ExprV>::empty());
            assert(args.last() == u);
            assert(!any_contains_var(args, var));
            assert(!contains_var(u, var));
            lemma_constant_derivative(u, var);
            assert(is_zero_num(simp(deriv(e, var)->Ok_0)));
        },
        _ => {
            assert(is_zero_num(simp(deriv(e, var)->Ok_0)));
        },
    }
}

/// `collect_vars` keeps `acc` as a prefix and adds, first of all, the
/// variable `first_var` finds (unless `acc` already holds it); with no
/// variable to find it adds nothing.
pub proof fn lemma_collect_first(e: ExprV, acc: Seq<Seq<char>>)
    ensures
        collect_vars(e, acc).len() >= acc.len(),
        collect_vars(e, acc).subrange(0, acc.len() as int) == acc,
        first_var(e) is None ==> collect_vars(e, acc) == acc,
        first_var(e) matches Some(v) ==> (collect_vars(e, acc).contains(v) && (!acc.contains(v)
            ==> collect_vars(e, acc)[acc.len() as int] == v)),
    decreases e, 0nat,
{
    match e {
        ExprV::Variable(name) => {
            if !acc.contains(name) {
                assert(acc.push(name).subrange(0, acc.len() as int) =~= acc);
                assert(acc.push(name)[acc.len() as int] == name);
            } else {
                assert(acc.subrange(0, acc.len() as int) =~= acc);
            }
        },
        ExprV::Percentage(x) => lemma_collect_first(*x, acc),
        ExprV::BinaryOp(_, l, r) => {
            lemma_collect_first(*l, acc);
            let m = collect_vars(*l, acc);
            lemma_collect_first(*r, m);
            let f = collect_vars(*r, m);
            assert(f.subrange(0, acc.len() as int) =~= m.subrange(0, m.len() as int).subrange(
                0,
                acc.len() as int,
            ));
            match first_var(*l) {
                Some(v) => {
                    assert(m.contains(v));
                    let k = choose|k: int| 0 <= k < m.len() && m[k] == v;
                    assert(f[k] == f.subrange(0, m.len() as int)[k]);
                    if !acc.contains(v) {
                        assert(f[acc.len() as int] == f.subrange(0, m.len() as int)[acc.len() as int]);
                    }
                },
                None => {},
            }
        },
        ExprV::FnCall(_, args) => lemma_collect_first_in(args, acc),
        ExprV::Convert(x, _) => lemma_collect_first(*x, acc),
        ExprV::List(els) => lemma_collect_first_in(els, acc),
        ExprV::Not(x) => lemma_collect_first(*x, acc),
        ExprV::BitNot(x) => lemma_collect_first(*x, acc),
        _ => {
            assert(acc.subrange(0, acc.len() as int) =~= acc);
        },
    }
}

proof fn lemma_collect_first_in(s: Seq<ExprV>, acc: Seq<Seq<char>>)
    ensures
        collect_vars_in(s, acc).len() >= acc.len(),
        collect_vars_in(s, acc).subrange(0, acc.len() as int) == acc,
        first_var_in(s) is None ==> collect_vars_in(s, acc) == acc,
        first_var_in(s) matches Some(v) ==> (collect_vars_in(s, acc).contains(v) && (!acc.contains(
            v,
        ) ==> collect_vars_in(s, acc)[acc.len() as int] == v)),
    decreases s, 1nat,
{
    if s.len() == 0 {
        assert(acc.subrange(0, acc.len() as int) =~= acc);
    } else {
        lemma_collect_first_in(s.drop_last(), acc);
        let m = collect_vars_in(s.drop_last(), acc);
        lemma_collect_first(s.last(), m);
        let f = collect_vars(s.last(), m);
        assert(f.subrange(0, acc.len() as int) =~= m.subrange(0, m.len() as int).subrange(
            0,
            acc.len() as int,
        ));
        match first_var_in(s.drop_last()) {
            Some(v) => {
                assert(m.contains(v));
                let k = choose|k: int| 0 <= k < m.len() && m[k] == v;
                assert(f[k] == f.subrange(0, m.len() as int)[k]);
                if !acc.contains(v) {
                    assert(f[acc.len() as int] == f.subrange(0, m.len() as int)[acc.len() as int]);
                }
            },
            None => {},
        }
    }
}

/// The variables that `find_all_variables_in_expr` lists start with the one
/// that `find_variable_in_expr` finds, and there are none exactly when it
/// finds none.
pub proof fn lemma_first_listed_variable(e: ExprV)
    ensures
        first_var(e) is None <==> collect_vars(e, Seq::empty()).len() == 0,
        first_var(e) matches Some(v) ==> collect_vars(e, Seq::empty())[0] == v,
{
    lemma_collect_first(e, Seq::empty());
    match first_var(e) {
        Some(v) => {
            assert(collect_vars(e, Seq::empty()).contains(v));
        },
        None => {},
    }
}

/// No name occurs twice in `s`.
pub open spec fn distinct_names(s: Seq<Seq<char>>) -> bool {
    forall|i: int, j: int| 0 <= i < j < s.len() ==> s[i] != s[j]
}

/// `collect_vars` adds only names not in the list yet.
pub proof fn lemma_collect_distinct(e: ExprV, acc: Seq<Seq<char>>)
    requires
        distinct_names(acc),
    ensures
        distinct_names(collect_vars(e, acc)),
    decreases e, 0nat,
{
    match e {
        ExprV::Variable(name) => {
            if !acc.contains(name) {
                assert forall|i: int, j: int|
                    0 <= i < j < acc.push(name).len() implies acc.push(name)[i] != acc.push(
                    name,
                )[j] by {
                    if j == acc.len() {
                        assert(acc[i] != name);
                    }
                }
            }
        },
        ExprV::Percentage(x) => lemma_collect_distinct(*x, acc),
        ExprV::BinaryOp(_, l, r) => {
            lemma_collect_distinct(*l, acc);
            lemma_collect_distinct(*r, collect_vars(*l, acc));
        },
        ExprV::FnCall(_, args) => lemma_collect_distinct_in(args, acc),
        ExprV::Convert(x, _) => lemma_collect_distinct(*x, acc),
        ExprV::List(els) => lemma_collect_distinct_in(els, acc),
        ExprV::Not(x) => lemma_collect_distinct(*x, acc),
        ExprV::BitNot(x) => lemma_collect_distinct(*x, acc),
        _ => {},
    }
}

proof fn lemma_collect_distinct_in(s: Seq<ExprV>, acc: Seq<Seq<char>>)
    requires
        distinct_names(acc),
    ensures
        distinct_names(collect_vars_in(s, acc)),
    decreases s, 1nat,
{
    if s.len() > 0 {
        lemma_collect_distinct_in(s.drop_last(), acc);
        lemma_collect_distinct(s.last(), collect_vars_in(s.drop_last(), acc));
    }
}

/// `find_all_variables_in_expr` lists each variable once.
pub proof fn lemma_variables_listed_once(e: ExprV)
    ensures
        distinct_names(collect_vars(e, Seq::empty())),
{
    lemma_collect_distinct(e, Seq::empty());
}

} // verus!
