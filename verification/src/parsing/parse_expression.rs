//! Parsing of expressions.
use vstd::prelude::*;

use crate::abstract_syntax_tree::{Expr, Expression, Literal, Operator};
use crate::parsing::{
    advances, comment_end, has_tag, is_ws_char, identifier, skip_ws, spec_identifier, spec_skip_ws, tag, to_chars, ExprV,
    LiteralV, Outcome, ParseError, Parsed,
};

verus! {

/// `l` is the literal `v` as the parser sees it.
pub open spec fn literal_is(l: Literal, v: LiteralV) -> bool {
    match (l, v) {
        (Literal::Bool(a), LiteralV::Bool(b)) => a == b,
        (Literal::Int(a), LiteralV::Int(b)) => a == b,
        (Literal::String(a), LiteralV::String(b)) => a@ == b,
        _ => false,
    }
}

/// `e` is the expression `v` as the parser sees it.
pub open spec fn expr_is(e: Expr, v: ExprV) -> bool
    decreases e,
{
    match e.0 {
        Expression::Literal(l) => match v {
            ExprV::Literal(lv) => literal_is(l, lv),
            _ => false,
        },
        Expression::Var(id) => v == ExprV::Var(id@),
        Expression::BinaryOp(op, a, b) => match v {
            ExprV::BinaryOp(op2, av, bv) => op == op2 && expr_is(*a, *av) && expr_is(*b, *bv),
            _ => false,
        },
        Expression::FunctionCall(id, args) => match v {
            ExprV::FunctionCall(id2, argsv) => id@ == id2 && exprs_are(args@, argsv),
            _ => false,
        },
        Expression::BuiltInFunctionCall(id, args) => match v {
            ExprV::BuiltInFunctionCall(id2, argsv) => id@ == id2 && exprs_are(args@, argsv),
            _ => false,
        },
        _ => false,
    }
}

/// Each of `es` is the expression at its position in `vs`.
pub open spec fn exprs_are(es: Seq<Expr>, vs: Seq<ExprV>) -> bool
    decreases es,
{
    if es.len() == 0 {
        vs.len() == 0
    } else {
        &&& vs.len() == es.len()
        &&& exprs_are(es.drop_last(), vs.drop_last())
        &&& expr_is(es.last(), vs.last())
    }
}

/// An operator and the expression after it.
pub open spec fn pair_is(e: (Operator, Expr), v: (Operator, ExprV)) -> bool {
    e.0 == v.0 && expr_is(e.1, v.1)
}

/// Operators and the expressions after them.
pub open spec fn pairs_are(es: Seq<(Operator, Expr)>, vs: Seq<(Operator, ExprV)>) -> bool {
    &&& es.len() == vs.len()
    &&& forall|i: int| 0 <= i < es.len() ==> #[trigger] pair_is(es[i], vs[i])
}

/// `r` is the outcome `o` of parsing an expression.
pub open spec fn parsed_expr(r: Parsed<Expr>, o: Outcome<ExprV>) -> bool {
    match (r, o) {
        (Parsed::Matched(e, q), Outcome::Matched(v, p)) => q == p && expr_is(e, v),
        (Parsed::NoMatch, Outcome::NoMatch) => true,
        (Parsed::Overflow, Outcome::Overflow) => true,
        _ => false,
    }
}

/// `r` is the outcome `o` of parsing a list of expressions.
pub open spec fn parsed_exprs(r: Parsed<Vec<Expr>>, o: Outcome<Seq<ExprV>>) -> bool {
    match (r, o) {
        (Parsed::Matched(e, q), Outcome::Matched(v, p)) => q == p && exprs_are(e@, v),
        (Parsed::NoMatch, Outcome::NoMatch) => true,
        (Parsed::Overflow, Outcome::Overflow) => true,
        _ => false,
    }
}

/// `r` is the outcome `o` of parsing operators and operands.
pub open spec fn parsed_pairs(r: Parsed<Vec<(Operator, Expr)>>, o: Outcome<Seq<(Operator, ExprV)>>) -> bool {
    match (r, o) {
        (Parsed::Matched(e, q), Outcome::Matched(v, p)) => q == p && pairs_are(e@, v),
        (Parsed::NoMatch, Outcome::NoMatch) => true,
        (Parsed::Overflow, Outcome::Overflow) => true,
        _ => false,
    }
}

/// A position after `p` inside the input, if the parser matched.
pub open spec fn progress<T>(r: Parsed<T>, s: Seq<char>, p: int) -> bool {
    r matches Parsed::Matched(_, q) ==> advances(s, p, q as int)
}

/// A decimal digit.
pub open spec fn is_digit(c: char) -> bool {
    '0' <= c && c <= '9'
}

/// The end of the digits from `i` on.
pub open spec fn digits_end(s: Seq<char>, i: int) -> int
    decreases s.len() - i,
{
    if 0 <= i < s.len() && is_digit(s[i]) {
        digits_end(s, i + 1)
    } else {
        i
    }
}

/// The number that the digits from `i` up to `j` write in decimal.
pub open spec fn digits_value(s: Seq<char>, i: int, j: int) -> nat
    decreases j - i,
{
    if j <= i {
        0
    } else {
        digits_value(s, i, j - 1) * 10 + (s[j - 1] as nat - '0' as nat) as nat
    }
}

/// The character that an escape sequence stands for: `\\`, `\"`, `\n`, `\t`, `\r`.
pub open spec fn escaped(c: char) -> Option<char> {
    if c == '\\' {
        Some('\\')
    } else if c == '"' {
        Some('"')
    } else if c == 'n' {
        Some('\n')
    } else if c == 't' {
        Some('\t')
    } else if c == 'r' {
        Some('\r')
    } else {
        None
    }
}

/// The content of a string literal from `i` on, escapes replaced, and the position of its
/// closing quote; `start` is where the content begins, since an empty string is not read.
pub open spec fn string_content(s: Seq<char>, i: int, start: int) -> Option<(Seq<char>, int)>
    decreases s.len() - i,
{
    if i < 0 || i >= s.len() {
        None
    } else if s[i] == '"' {
        if i == start {
            None
        } else {
            Some((Seq::empty(), i))
        }
    } else if s[i] == '\\' {
        if i + 1 >= s.len() {
            None
        } else {
            match escaped(s[i + 1]) {
                Some(c) => match string_content(s, i + 2, start) {
                    Some((rest, j)) => Some((seq![c] + rest, j)),
                    None => None,
                },
                None => None,
            }
        }
    } else {
        match string_content(s, i + 1, start) {
            Some((rest, j)) => Some((seq![s[i]] + rest, j)),
            None => None,
        }
    }
}

/// A string literal, with optional whitespace in front: its content and the position after it.
pub open spec fn spec_string_literal(s: Seq<char>, i: int) -> Option<(Seq<char>, int)> {
    let a = spec_skip_ws(s, i);
    if has_tag(s, a, seq!['"']) {
        match string_content(s, a + 1, a + 1) {
            Some((content, j)) => Some((content, j + 1)),
            None => None,
        }
    } else {
        None
    }
}

/// 10 to the `n`.
pub open spec fn pow10(n: nat) -> nat
    decreases n,
{
    if n == 0 { 1 } else { 10 * pow10((n - 1) as nat) }
}

/// The number that decimal digits write: each digit times ten to the number of digits
/// after it, summed.
pub open spec fn decimal_value(t: Seq<char>) -> nat
    decreases t.len(),
{
    if t.len() == 0 {
        0
    } else {
        (t[0] as nat - '0' as nat) as nat * pow10((t.len() - 1) as nat) + decimal_value(t.drop_first())
    }
}

/// Writing one more digit after a number multiplies it by ten and adds the digit.
proof fn lemma_decimal_value_push(t: Seq<char>, c: char)
    ensures
        decimal_value(t.push(c)) == decimal_value(t) * 10 + (c as nat - '0' as nat) as nat,
    decreases t.len(),
{
    let d = (c as nat - '0' as nat) as nat;
    let u = t.push(c);
    if t.len() == 0 {
        assert(u.drop_first() =~= Seq::<char>::empty());
        assert(decimal_value(u.drop_first()) == 0);
        assert(pow10(0) == 1);
        assert(u[0] == c);
        assert(decimal_value(u) == d * 1 + 0);
        assert(decimal_value(t) == 0);
    } else {
        let rest = t.drop_first();
        lemma_decimal_value_push(rest, c);
        assert(u.drop_first() =~= rest.push(c));
        assert(u[0] == t[0]);
        let a = (t[0] as nat - '0' as nat) as nat;
        let p = pow10((t.len() - 1) as nat);
        assert(pow10(t.len() as nat) == 10 * p);
        assert(decimal_value(u) == a * pow10(t.len() as nat) + decimal_value(rest.push(c)));
        assert(decimal_value(t) == a * p + decimal_value(rest));
        assert(a * (10 * p) + (decimal_value(rest) * 10 + d) == (a * p + decimal_value(rest)) * 10 + d) by (nonlinear_arith);
    }
}

/// The digits' value as the parser computes it is the decimal value of the digits.
proof fn lemma_digits_value(s: Seq<char>, i: int, j: int)
    requires
        0 <= i <= j <= s.len(),
    ensures
        digits_value(s, i, j) == decimal_value(s.subrange(i, j)),
    decreases j - i,
{
    if j > i {
        lemma_digits_value(s, i, j - 1);
        assert(s.subrange(i, j) =~= s.subrange(i, j - 1).push(s[j - 1]));
        lemma_decimal_value_push(s.subrange(i, j - 1), s[j - 1]);
    } else {
        assert(s.subrange(i, j) =~= Seq::<char>::empty());
    }
}

/// The end of the digits is at or after where they start, and every character up to it is a digit.
proof fn lemma_digits_end(s: Seq<char>, i: int)
    requires
        0 <= i <= s.len(),
    ensures
        i <= digits_end(s, i) <= s.len(),
        forall|k: int| i <= k < digits_end(s, i) ==> is_digit(#[trigger] s[k]),
    decreases s.len() - i,
{
    if i < s.len() && is_digit(s[i]) {
        lemma_digits_end(s, i + 1);
    }
}

/// A literal read where no parenthesis opens is the literal whose text stands there:
/// `True` or `False` for a truth value, and for a number a run of decimal digits whose
/// value it is.
pub proof fn lemma_literal_text(s: Seq<char>, p: int)
    requires
        0 <= p <= s.len(),
        !has_tag(s, p, seq!['(']),
    ensures
        spec_expression_simple(s, p) matches Outcome::Matched(ExprV::Literal(LiteralV::Bool(b)), q) ==> q <= s.len()
            && s.subrange(p, q) == (if b { seq!['T', 'r', 'u', 'e'] } else { seq!['F', 'a', 'l', 's', 'e'] }),
        spec_expression_simple(s, p) matches Outcome::Matched(ExprV::Literal(LiteralV::Int(v)), q) ==> p < q <= s.len()
            && (forall|k: int| p <= k < q ==> is_digit(#[trigger] s[k])) && v == decimal_value(s.subrange(p, q)),
{
    if p < s.len() && is_digit(s[p]) {
        let q = digits_end(s, p);
        lemma_digits_end(s, p);
        lemma_digits_value(s, p, q);
        assert(!is_ws_char(s[p]));
        assert(comment_end(s, p) is None);
        assert(spec_skip_ws(s, p) == p);
        assert(!has_tag(s, p, seq!['"'])) by {
            if has_tag(s, p, seq!['"']) {
                assert(s.subrange(p, p + 1)[0] == s[p]);
            }
        }
        assert(spec_string_literal(s, p) is None);
        lemma_digits_end(s, p + 1);
        assert(q > p);
        assert(!has_tag(s, p, seq!['T', 'r', 'u', 'e'])) by {
            if has_tag(s, p, seq!['T', 'r', 'u', 'e']) {
                assert(s.subrange(p, p + 4)[0] == s[p]);
            }
        }
        assert(!has_tag(s, p, seq!['F', 'a', 'l', 's', 'e'])) by {
            if has_tag(s, p, seq!['F', 'a', 'l', 's', 'e']) {
                assert(s.subrange(p, p + 5)[0] == s[p]);
            }
        }
    }
}

/// The binary operators of a level, in the order in which they are tried; level 1 binds
/// tightest, level 6 is assignment.
pub open spec fn spec_bin_operator(k: nat, s: Seq<char>, i: int) -> Option<(Operator, int)> {
    if k == 1 {
        if has_tag(s, i, seq!['/']) {
            Some((Operator::Division, i + 1))
        } else if has_tag(s, i, seq!['*']) {
            Some((Operator::Multiplication, i + 1))
        } else if has_tag(s, i, seq!['%']) {
            Some((Operator::Modulo, i + 1))
        } else {
            None
        }
    } else if k == 2 {
        if has_tag(s, i, seq!['+']) {
            Some((Operator::Addition, i + 1))
        } else if has_tag(s, i, seq!['-']) {
            Some((Operator::Subtraction, i + 1))
        } else {
            None
        }
    } else if k == 3 {
        if has_tag(s, i, seq!['<', '=']) {
            Some((Operator::LessEq, i + 2))
        } else if has_tag(s, i, seq!['<']) {
            Some((Operator::Less, i + 1))
        } else if has_tag(s, i, seq!['>']) {
            Some((Operator::Greater, i + 1))
        } else if has_tag(s, i, seq!['>', '=']) {
            Some((Operator::GreaterEquals, i + 2))
        } else {
            None
        }
    } else if k == 4 {
        if has_tag(s, i, seq!['=', '=']) {
            Some((Operator::Equals, i + 2))
        } else if has_tag(s, i, seq!['!', '=']) {
            Some((Operator::NotEqual, i + 2))
        } else {
            None
        }
    } else if k == 5 {
        if has_tag(s, i, seq!['&', '&']) {
            Some((Operator::And, i + 2))
        } else if has_tag(s, i, seq!['|', '|']) {
            Some((Operator::Or, i + 2))
        } else {
            None
        }
    } else if k == 6 {
        if has_tag(s, i, seq!['=']) {
            Some((Operator::Assignment, i + 1))
        } else {
            None
        }
    } else {
        None
    }
}

/// How each binary operator is written in the source.
pub open spec fn operator_token(op: Operator) -> Seq<char> {
    match op {
        Operator::Addition => seq!['+'],
        Operator::Subtraction => seq!['-'],
        Operator::Multiplication => seq!['*'],
        Operator::Division => seq!['/'],
        Operator::Modulo => seq!['%'],
        Operator::And => seq!['&', '&'],
        Operator::Or => seq!['|', '|'],
        Operator::LessEq => seq!['<', '='],
        Operator::Less => seq!['<'],
        Operator::GreaterEquals => seq!['>', '='],
        Operator::Greater => seq!['>'],
        Operator::Equals => seq!['=', '='],
        Operator::NotEqual => seq!['!', '='],
        Operator::Assignment => seq!['='],
        Operator::ArraySubScript => seq!['['],
    }
}

/// How tightly each binary operator binds: 1 tightest (`* / %`), then `+ -`, the
/// orderings, the equalities, `&& ||`, and assignment loosest.
pub open spec fn operator_level(op: Operator) -> nat {
    match op {
        Operator::Multiplication | Operator::Division | Operator::Modulo => 1,
        Operator::Addition | Operator::Subtraction => 2,
        Operator::LessEq | Operator::Less | Operator::GreaterEquals | Operator::Greater => 3,
        Operator::Equals | Operator::NotEqual => 4,
        Operator::And | Operator::Or => 5,
        Operator::Assignment => 6,
        Operator::ArraySubScript => 0,
    }
}

/// An operator read at a precedence level is the operator whose token stands in the
/// source there, and belongs to that level: `-` is read as subtraction, `+` as addition,
/// and so on. Distinct operators have distinct tokens, so no two tokens read as the same
/// operator.
pub proof fn lemma_bin_operator_token(k: nat, s: Seq<char>, i: int)
    ensures
        spec_bin_operator(k, s, i) matches Some((op, j)) ==> {
            &&& j == i + operator_token(op).len()
            &&& j <= s.len()
            &&& s.subrange(i, j) == operator_token(op)
            &&& operator_level(op) == k
        },
        forall|a: Operator, b: Operator| a != b ==> #[trigger] operator_token(a) != #[trigger] operator_token(b),
{
    assert forall|a: Operator, b: Operator| a != b implies #[trigger] operator_token(a) != #[trigger] operator_token(b) by {
        if operator_token(a) == operator_token(b) {
            assert(operator_token(a).len() == operator_token(b).len());
            assert(operator_token(a)[0] == operator_token(b)[0]);
            if operator_token(a).len() == 2 {
                assert(operator_token(a)[1] == operator_token(b)[1]);
            }
        }
    }
}

/// `first op1 e1 op2 e2 ...` grouped to the left: `((first op1 e1) op2 e2) ...`.
pub open spec fn fold_left(first: ExprV, rest: Seq<(Operator, ExprV)>) -> ExprV
    decreases rest.len(),
{
    if rest.len() == 0 {
        first
    } else {
        ExprV::BinaryOp(rest.last().0, Box::new(fold_left(first, rest.drop_last())), Box::new(rest.last().1))
    }
}

/// `first op1 e1 op2 e2 ...` grouped to the right: `first op1 (e1 op2 (e2 ...))`.
pub open spec fn fold_right(first: ExprV, rest: Seq<(Operator, ExprV)>) -> ExprV
    decreases rest.len(),
{
    if rest.len() == 0 {
        first
    } else {
        ExprV::BinaryOp(rest[0].0, Box::new(first), Box::new(fold_right(rest[0].1, rest.drop_first())))
    }
}

/// An expression whose operators are of level `k` or tighter; level 0 is a simple
/// expression. Assignment (level 6) groups to the right, all others to the left.
pub open spec fn spec_expr(s: Seq<char>, p: int, k: nat) -> Outcome<ExprV>
    decreases s.len() - p, k, 3nat,
{
    if k == 0 {
        spec_expression_simple(s, p)
    } else {
        match spec_expr(s, p, (k - 1) as nat) {
            Outcome::Matched(first, q) => if advances(s, p, q) {
                match spec_chain(s, q, k) {
                    Outcome::Matched(rest, r) => Outcome::Matched(
                        if k == 6 {
                            fold_right(first, rest)
                        } else {
                            fold_left(first, rest)
                        },
                        r,
                    ),
                    Outcome::NoMatch => Outcome::NoMatch,
                    Outcome::Overflow => Outcome::Overflow,
                }
            } else {
                Outcome::Matched(first, q)
            },
            Outcome::NoMatch => Outcome::NoMatch,
            Outcome::Overflow => Outcome::Overflow,
        }
    }
}

/// The operators of level `k` and the operands after them, as long as both follow.
pub open spec fn spec_chain(s: Seq<char>, q: int, k: nat) -> Outcome<Seq<(Operator, ExprV)>>
    decreases s.len() - q, k, 2nat,
{
    let a = spec_skip_ws(s, q);
    match spec_bin_operator(k, s, a) {
        Some((op, b)) => {
            let c = spec_skip_ws(s, b);
            if advances(s, q, c) && k >= 1 {
                match spec_expr(s, c, (k - 1) as nat) {
                    Outcome::Matched(e, r) => if advances(s, c, r) {
                        match spec_chain(s, r, k) {
                            Outcome::Matched(rest, t) => Outcome::Matched(seq![(op, e)] + rest, t),
                            Outcome::NoMatch => Outcome::NoMatch,
                            Outcome::Overflow => Outcome::Overflow,
                        }
                    } else {
                        Outcome::Matched(Seq::empty(), q)
                    },
                    Outcome::NoMatch => Outcome::Matched(Seq::empty(), q),
                    Outcome::Overflow => Outcome::Overflow,
                }
            } else {
                Outcome::Matched(Seq::empty(), q)
            }
        },
        None => Outcome::Matched(Seq::empty(), q),
    }
}

/// A simple expression: a literal, a call, a variable, or an expression in parentheses.
pub open spec fn spec_expression_simple(s: Seq<char>, p: int) -> Outcome<ExprV>
    decreases s.len() - p, 0nat, 2nat,
{
    if has_tag(s, p, seq!['T', 'r', 'u', 'e']) {
        Outcome::Matched(ExprV::Literal(LiteralV::Bool(true)), p + 4)
    } else if has_tag(s, p, seq!['F', 'a', 'l', 's', 'e']) {
        Outcome::Matched(ExprV::Literal(LiteralV::Bool(false)), p + 5)
    } else {
        match spec_string_literal(s, p) {
            Some((content, q)) => Outcome::Matched(ExprV::Literal(LiteralV::String(content)), q),
            None => if 0 <= p < s.len() && is_digit(s[p]) {
                let q = digits_end(s, p);
                if digits_value(s, p, q) > i64::MAX {
                    Outcome::Overflow
                } else {
                    Outcome::Matched(ExprV::Literal(LiteralV::Int(digits_value(s, p, q) as i64)), q)
                }
            } else {
                match spec_function_call(s, p) {
                    Outcome::NoMatch => match spec_builtin_function_call(s, p) {
                        Outcome::NoMatch => match spec_identifier(s, p) {
                            Some(q) => Outcome::Matched(ExprV::Var(s.subrange(p, q)), q),
                            None => spec_parenthesised_expression(s, p),
                        },
                        other => other,
                    },
                    other => other,
                }
            },
        }
    }
}

/// A call of a function: its name, optional whitespace, its arguments in parentheses.
pub open spec fn spec_function_call(s: Seq<char>, p: int) -> Outcome<ExprV>
    decreases s.len() - p, 0nat, 1nat,
{
    let a = spec_skip_ws(s, p);
    match spec_identifier(s, a) {
        Some(b) => {
            let c = spec_skip_ws(s, b);
            if advances(s, p, c) {
                match spec_call_arguments(s, c) {
                    Outcome::Matched(args, d) => Outcome::Matched(ExprV::FunctionCall(s.subrange(a, b), args), d),
                    Outcome::NoMatch => Outcome::NoMatch,
                    Outcome::Overflow => Outcome::Overflow,
                }
            } else {
                Outcome::NoMatch
            }
        },
        None => Outcome::NoMatch,
    }
}

/// A call of a built in function: its name, `!`, optional whitespace, its arguments in
/// parentheses.
pub open spec fn spec_builtin_function_call(s: Seq<char>, p: int) -> Outcome<ExprV>
    decreases s.len() - p, 0nat, 1nat,
{
    let a = spec_skip_ws(s, p);
    match spec_identifier(s, a) {
        Some(b) => if has_tag(s, b, seq!['!']) {
            let c = spec_skip_ws(s, b + 1);
            if advances(s, p, c) {
                match spec_call_arguments(s, c) {
                    Outcome::Matched(args, d) => Outcome::Matched(
                        ExprV::BuiltInFunctionCall(s.subrange(a, b), args),
                        d,
                    ),
                    Outcome::NoMatch => Outcome::NoMatch,
                    Outcome::Overflow => Outcome::Overflow,
                }
            } else {
                Outcome::NoMatch
            }
        } else {
            Outcome::NoMatch
        },
        None => Outcome::NoMatch,
    }
}

/// An expression in parentheses, with optional whitespace inside them.
pub open spec fn spec_parenthesised_expression(s: Seq<char>, p: int) -> Outcome<ExprV>
    decreases s.len() - p, 0nat, 1nat,
{
    if has_tag(s, p, seq!['(']) {
        let d = spec_skip_ws(s, p + 1);
        if advances(s, p, d) {
            match spec_expr(s, d, 6) {
                Outcome::Matched(e, q) => {
                    let f = spec_skip_ws(s, q);
                    if has_tag(s, f, seq![')']) {
                        Outcome::Matched(e, f + 1)
                    } else {
                        Outcome::NoMatch
                    }
                },
                other => other,
            }
        } else {
            Outcome::NoMatch
        }
    } else {
        Outcome::NoMatch
    }
}

/// The closing parenthesis of an argument list ending at `r`.
pub open spec fn close_arguments_spec(s: Seq<char>, r: int, args: Seq<ExprV>) -> Outcome<Seq<ExprV>> {
    let f = spec_skip_ws(s, r);
    if has_tag(s, f, seq![')']) {
        Outcome::Matched(args, f + 1)
    } else {
        Outcome::NoMatch
    }
}

/// Arguments in parentheses, separated by commas with optional whitespace around them.
pub open spec fn spec_call_arguments(s: Seq<char>, c: int) -> Outcome<Seq<ExprV>>
    decreases s.len() - c, 0nat, 0nat,
{
    if has_tag(s, c, seq!['(']) {
        let d = spec_skip_ws(s, c + 1);
        if advances(s, c, d) {
            match spec_expr(s, d, 6) {
                Outcome::Matched(e, q) => if advances(s, d, q) {
                    match spec_more_arguments(s, q) {
                        Outcome::Matched(rest, r) => close_arguments_spec(s, r, seq![e] + rest),
                        Outcome::NoMatch => Outcome::NoMatch,
                        Outcome::Overflow => Outcome::Overflow,
                    }
                } else {
                    Outcome::NoMatch
                },
                Outcome::NoMatch => close_arguments_spec(s, d, Seq::empty()),
                Outcome::Overflow => Outcome::Overflow,
            }
        } else {
            Outcome::NoMatch
        }
    } else {
        Outcome::NoMatch
    }
}

/// The arguments after the first: a comma and an expression, as long as both follow.
pub open spec fn spec_more_arguments(s: Seq<char>, q: int) -> Outcome<Seq<ExprV>>
    decreases s.len() - q, 0nat, 0nat,
{
    let a = spec_skip_ws(s, q);
    if has_tag(s, a, seq![',']) {
        let b = spec_skip_ws(s, a + 1);
        if advances(s, q, b) {
            match spec_expr(s, b, 6) {
                Outcome::Matched(e, r) => if advances(s, b, r) {
                    match spec_more_arguments(s, r) {
                        Outcome::Matched(rest, t) => Outcome::Matched(seq![e] + rest, t),
                        Outcome::NoMatch => Outcome::NoMatch,
                        Outcome::Overflow => Outcome::Overflow,
                    }
                } else {
                    Outcome::Matched(Seq::empty(), q)
                },
                Outcome::NoMatch => Outcome::Matched(Seq::empty(), q),
                Outcome::Overflow => Outcome::Overflow,
            }
        } else {
            Outcome::Matched(Seq::empty(), q)
        }
    } else {
        Outcome::Matched(Seq::empty(), q)
    }
}

/// A complete expression.
pub open spec fn spec_expression(s: Seq<char>, p: int) -> Outcome<ExprV> {
    spec_expr(s, p, 6)
}

/// A string literal, with optional whitespace in front
fn string_literal(text: &str, s: &Vec<char>, i: usize) -> (r: Option<(String, usize)>)
    requires
        s@ == text@,
        i <= s@.len(),
    ensures
        match (r, spec_string_literal(s@, i as int)) {
            (Some((content, j)), Some((cv, k))) => content@ == cv && j == k && i < j <= s@.len(),
            (None, None) => true,
            _ => false,
        },
{
    let len = s.len();
    let a = skip_ws(s, i);
    let quote: [char; 1] = ['"'];
    proof {
        assert(quote@ =~= seq!['"']);
    }
    if !tag(s, a, &quote) {
        return None;
    }
    let start = a + 1;
    let mut k = start;
    let mut content = String::new();
    proof {
        assert(content@ =~= Seq::<char>::empty());
    }
    loop
        invariant
            start <= k <= len,
            len == s@.len(),
            s@ == text@,
            i <= a < start,
            a == spec_skip_ws(s@, i as int),
            has_tag(s@, a as int, seq!['"']),
            spec_string_literal(s@, i as int) == match string_content(s@, start as int, start as int) {
                Some((c, j)) => Some((c, j + 1)),
                None => None::<(Seq<char>, int)>,
            },
            string_content(s@, start as int, start as int) == match string_content(s@, k as int, start as int) {
                Some((rest, j)) => Some((content@ + rest, j)),
                None => None::<(Seq<char>, int)>,
            },
        decreases len - k,
    {
        if k >= len {
            return None;
        }
        let c = s[k];
        if c == '"' {
            if k == start {
                return None;
            }
            proof {
                assert(content@ + Seq::<char>::empty() =~= content@);
            }
            return Some((content, k + 1));
        } else if c == '\\' {
            if k + 1 >= len {
                return None;
            }
            let e = s[k + 1];
            let ghost before = content@;
            if e == '\\' {
                proof { reveal_strlit("\\"); }
                content.append("\\");
            } else if e == '"' {
                proof { reveal_strlit("\""); }
                content.append("\"");
            } else if e == 'n' {
                proof { reveal_strlit("\n"); }
                content.append("\n");
            } else if e == 't' {
                proof { reveal_strlit("\t"); }
                content.append("\t");
            } else if e == 'r' {
                proof { reveal_strlit("\r"); }
                content.append("\r");
            } else {
                return None;
            }
            proof {
                let x = escaped(e)->0;
                assert(content@ == before + seq![x]);
                match string_content(s@, k + 2, start as int) {
                    Some((rest, j)) => {
                        assert(before + (seq![x] + rest) =~= content@ + rest);
                    },
                    None => {},
                }
            }
            k = k + 2;
        } else {
            let ghost before = content@;
            content.append(text.substring_char(k, k + 1));
            proof {
                assert(text@.subrange(k as int, k + 1) =~= seq![c]);
                match string_content(s@, k + 1, start as int) {
                    Some((rest, j)) => {
                        assert(before + (seq![c] + rest) =~= content@ + rest);
                    },
                    None => {},
                }
            }
            k = k + 1;
        }
    }
}

/// The end of the digits at `p` and the number they write, `None` where it does not fit
/// in an `i64`
fn digits(s: &Vec<char>, p: usize) -> (r: (usize, Option<i64>))
    requires
        p <= s@.len(),
    ensures
        r.0 == digits_end(s@, p as int),
        p <= r.0 <= s@.len(),
        p < s@.len() && is_digit(s@[p as int]) ==> p < r.0,
        r.1 == if digits_value(s@, p as int, r.0 as int) > i64::MAX {
            None::<i64>
        } else {
            Some(digits_value(s@, p as int, r.0 as int) as i64)
        },
{
    let len = s.len();
    let mut j = p;
    let mut acc: u64 = 0;
    let mut overflowed = false;
    while j < len && '0' <= s[j] && s[j] <= '9'
        invariant
            p <= j <= len,
            len == s@.len(),
            digits_end(s@, p as int) == digits_end(s@, j as int),
            overflowed ==> digits_value(s@, p as int, j as int) > i64::MAX,
            !overflowed ==> acc == digits_value(s@, p as int, j as int),
        decreases len - j,
    {
        let d = (s[j] as u32 - '0' as u32) as u64;
        proof {
            assert(digits_value(s@, p as int, j + 1) == digits_value(s@, p as int, j as int) * 10 + d);
        }
        if !overflowed {
            match acc.checked_mul(10) {
                Some(m) => match m.checked_add(d) {
                    Some(v) => {
                        acc = v;
                        if acc > i64::MAX as u64 {
                            overflowed = true;
                        }
                    },
                    None => {
                        overflowed = true;
                    },
                },
                None => {
                    overflowed = true;
                },
            }
        }
        j = j + 1;
    }
    if overflowed {
        (j, None)
    } else if acc > i64::MAX as u64 {
        (j, None)
    } else {
        (j, Some(acc as i64))
    }
}

/// The operator of level `level` at `i`, if there is one
fn bin_operator(level: usize, s: &Vec<char>, i: usize) -> (r: Option<(Operator, usize)>)
    requires
        i <= s@.len(),
    ensures
        match (r, spec_bin_operator(level as nat, s@, i as int)) {
            (Some((op, j)), Some((op2, k))) => op == op2 && j == k && i < j <= s@.len(),
            (None, None) => true,
            _ => false,
        },
{
    let _len = s.len();
    let slash: [char; 1] = ['/'];
    let star: [char; 1] = ['*'];
    let percent: [char; 1] = ['%'];
    let plus: [char; 1] = ['+'];
    let minus: [char; 1] = ['-'];
    let less_eq: [char; 2] = ['<', '='];
    let less: [char; 1] = ['<'];
    let greater: [char; 1] = ['>'];
    let greater_eq: [char; 2] = ['>', '='];
    let equals: [char; 2] = ['=', '='];
    let not_equal: [char; 2] = ['!', '='];
    let and: [char; 2] = ['&', '&'];
    let or: [char; 2] = ['|', '|'];
    let assign: [char; 1] = ['='];
    proof {
        assert(slash@ =~= seq!['/']);
        assert(star@ =~= seq!['*']);
        assert(percent@ =~= seq!['%']);
        assert(plus@ =~= seq!['+']);
        assert(minus@ =~= seq!['-']);
        assert(less_eq@ =~= seq!['<', '=']);
        assert(less@ =~= seq!['<']);
        assert(greater@ =~= seq!['>']);
        assert(greater_eq@ =~= seq!['>', '=']);
        assert(equals@ =~= seq!['=', '=']);
        assert(not_equal@ =~= seq!['!', '=']);
        assert(and@ =~= seq!['&', '&']);
        assert(or@ =~= seq!['|', '|']);
        assert(assign@ =~= seq!['=']);
    }
    if level == 1 {
        if tag(s, i, &slash) {
            Some((Operator::Division, i + 1))
        } else if tag(s, i, &star) {
            Some((Operator::Multiplication, i + 1))
        } else if tag(s, i, &percent) {
            Some((Operator::Modulo, i + 1))
        } else {
            None
        }
    } else if level == 2 {
        if tag(s, i, &plus) {
            Some((Operator::Addition, i + 1))
        } else if tag(s, i, &minus) {
            Some((Operator::Subtraction, i + 1))
        } else {
            None
        }
    } else if level == 3 {
        if tag(s, i, &less_eq) {
            Some((Operator::LessEq, i + 2))
        } else if tag(s, i, &less) {
            Some((Operator::Less, i + 1))
        } else if tag(s, i, &greater) {
            Some((Operator::Greater, i + 1))
        } else if tag(s, i, &greater_eq) {
            Some((Operator::GreaterEquals, i + 2))
        } else {
            None
        }
    } else if level == 4 {
        if tag(s, i, &equals) {
            Some((Operator::Equals, i + 2))
        } else if tag(s, i, &not_equal) {
            Some((Operator::NotEqual, i + 2))
        } else {
            None
        }
    } else if level == 5 {
        if tag(s, i, &and) {
            Some((Operator::And, i + 2))
        } else if tag(s, i, &or) {
            Some((Operator::Or, i + 2))
        } else {
            None
        }
    } else if level == 6 {
        if tag(s, i, &assign) {
            Some((Operator::Assignment, i + 1))
        } else {
            None
        }
    } else {
        None
    }
}

/// How a chain of operators of one level is grouped
enum Associativity {
    Left,
    Right,
}

/// Fold the expressions into a single one using the operators between them
fn fold_ops_exprs(first: Expr, rest: Vec<(Operator, Expr)>, associativity: Associativity) -> (r: Expr)
    ensures
        forall|fv: ExprV, rv: Seq<(Operator, ExprV)>|
            expr_is(first, fv) && pairs_are(rest@, rv) ==> expr_is(
                r,
                match associativity {
                    Associativity::Left => fold_left(fv, rv),
                    Associativity::Right => fold_right(fv, rv),
                },
            ),
{
    match associativity {
        Associativity::Left => {
            let ghost all = rest@;
            let mut acc = first;
            let ghost first_e = first;
            for pair in it: rest.into_iter()
                invariant
                    it.seq() == all,
                    forall|fv: ExprV, rv: Seq<(Operator, ExprV)>|
                        expr_is(first_e, fv) && pairs_are(all, rv) ==> expr_is(
                            acc,
                            fold_left(fv, rv.take(it.index() as int)),
                        ),
            {
                let ghost i = it.index() as int;
                let ghost before = acc;
                let ghost this_pair = pair;
                let (op, e) = pair;
                acc = Expr(Expression::BinaryOp(op, Box::new(acc), Box::new(e)));
                proof {
                    assert forall|fv: ExprV, rv: Seq<(Operator, ExprV)>|
                        expr_is(first_e, fv) && pairs_are(all, rv) implies expr_is(
                            acc,
                            fold_left(fv, rv.take(i + 1)),
                        ) by {
                        assert(rv.take(i + 1).drop_last() =~= rv.take(i));
                        assert(this_pair == all[i]);
                        assert(pair_is(all[i], rv[i]));
                        assert(expr_is(before, fold_left(fv, rv.take(i))));
                    }
                }
            }
            proof {
                assert forall|fv: ExprV, rv: Seq<(Operator, ExprV)>|
                    expr_is(first_e, fv) && pairs_are(all, rv) implies expr_is(acc, fold_left(fv, rv)) by {
                    assert(rv.take(all.len() as int) =~= rv);
                }
            }
            acc
        },
        Associativity::Right => fold_right_ops(first, rest),
    }
}

proof fn lemma_pairs_drop_first(es: Seq<(Operator, Expr)>, vs: Seq<(Operator, ExprV)>)
    requires
        pairs_are(es, vs),
        es.len() > 0,
    ensures
        pairs_are(es.drop_first(), vs.drop_first()),
{
    let e2 = es.drop_first();
    let v2 = vs.drop_first();
    assert forall|i: int| 0 <= i < e2.len() implies #[trigger] pair_is(e2[i], v2[i]) by {
        assert(e2[i] == es[i + 1]);
        assert(v2[i] == vs[i + 1]);
        assert(pair_is(es[i + 1], vs[i + 1]));
    }
}

/// Group the expressions to the right: the first, its operator, and the rest grouped
fn fold_right_ops(first: Expr, rest: Vec<(Operator, Expr)>) -> (r: Expr)
    ensures
        forall|fv: ExprV, rv: Seq<(Operator, ExprV)>|
            expr_is(first, fv) && pairs_are(rest@, rv) ==> expr_is(r, fold_right(fv, rv)),
    decreases rest@.len(),
{
    let mut rest = rest;
    if rest.len() == 0 {
        first
    } else {
        let ghost all = rest@;
        let (op, e) = rest.remove(0);
        let ghost tail_pairs = rest@;
        proof {
            assert(tail_pairs =~= all.drop_first());
        }
        let tail = fold_right_ops(e, rest);
        proof {
            assert forall|fv: ExprV, rv: Seq<(Operator, ExprV)>|
                expr_is(first, fv) && pairs_are(all, rv) implies expr_is(
                    Expr(Expression::BinaryOp(op, Box::new(first), Box::new(tail))),
                    fold_right(fv, rv),
                ) by {
                let rv2 = rv.drop_first();
                lemma_pairs_drop_first(all, rv);
                assert(pair_is(all[0], rv[0]));
                assert(e == all[0].1);
                assert(expr_is(tail, fold_right(rv[0].1, rv2)));
            }
        }
        Expr(Expression::BinaryOp(op, Box::new(first), Box::new(tail)))
    }
}

/// Prepending an expression to a list keeps the lists related.
proof fn lemma_exprs_prepend(e: Expr, v: ExprV, es: Seq<Expr>, vs: Seq<ExprV>)
    requires
        expr_is(e, v),
        exprs_are(es, vs),
    ensures
        exprs_are(seq![e] + es, seq![v] + vs),
    decreases es.len(),
{
    if es.len() == 0 {
        assert((seq![e] + es).drop_last() =~= es);
        assert((seq![v] + vs).drop_last() =~= vs);
    } else {
        lemma_exprs_prepend(e, v, es.drop_last(), vs.drop_last());
        assert((seq![e] + es).drop_last() =~= seq![e] + es.drop_last());
        assert((seq![v] + vs).drop_last() =~= seq![v] + vs.drop_last());
    }
}

/// Prepending an operator and its operand keeps the lists related.
proof fn lemma_pairs_prepend(e: (Operator, Expr), v: (Operator, ExprV), es: Seq<(Operator, Expr)>, vs: Seq<(Operator, ExprV)>)
    requires
        pair_is(e, v),
        pairs_are(es, vs),
    ensures
        pairs_are(seq![e] + es, seq![v] + vs),
{
    let e2 = seq![e] + es;
    let v2 = seq![v] + vs;
    assert forall|i: int| 0 <= i < e2.len() implies #[trigger] pair_is(e2[i], v2[i]) by {
        if i > 0 {
            assert(e2[i] == es[i - 1]);
            assert(v2[i] == vs[i - 1]);
            assert(pair_is(es[i - 1], vs[i - 1]));
        }
    }
}

/// An expression whose operators are of level `level` or tighter; level 0 is a simple
/// expression
pub(crate) fn expression_level(text: &str, s: &Vec<char>, p: usize, level: usize) -> (r: Parsed<Expr>)
    requires
        s@ == text@,
        p <= s@.len(),
        level <= 6,
    ensures
        parsed_expr(r, spec_expr(s@, p as int, level as nat)),
        progress(r, s@, p as int),
    decreases s@.len() - p, level, 3int,
{
    if level == 0 {
        return expression_simple(text, s, p);
    }
    let ghost sv = spec_expr(s@, p as int, (level - 1) as nat);
    let (first, q) = match expression_level(text, s, p, level - 1) {
        Parsed::Matched(e, q) => (e, q),
        Parsed::NoMatch => return Parsed::NoMatch,
        Parsed::Overflow => return Parsed::Overflow,
    };
    let ghost chain = spec_chain(s@, q as int, level as nat);
    let (rest, r) = match accumulate_ops_exprs(text, s, q, level) {
        Parsed::Matched(rest, r) => (rest, r),
        Parsed::NoMatch => return Parsed::NoMatch,
        Parsed::Overflow => return Parsed::Overflow,
    };
    let associativity = if level == 6 {
        Associativity::Right
    } else {
        Associativity::Left
    };
    let ghost assoc = associativity;
    let e = fold_ops_exprs(first, rest, associativity);
    proof {
        let fv = sv->Matched_0;
        let rv = chain->Matched_0;
        assert(expr_is(first, fv));
        assert(pairs_are(rest@, rv));
        if level == 6 {
            assert(expr_is(e, fold_right(fv, rv)));
        } else {
            assert(expr_is(e, fold_left(fv, rv)));
        }
    }
    Parsed::Matched(e, r)
}

/// The operators of level `level` and the operands after them, as long as both follow
fn accumulate_ops_exprs(text: &str, s: &Vec<char>, q: usize, level: usize) -> (r: Parsed<Vec<(Operator, Expr)>>)
    requires
        s@ == text@,
        q <= s@.len(),
        1 <= level <= 6,
    ensures
        parsed_pairs(r, spec_chain(s@, q as int, level as nat)),
        r matches Parsed::Matched(_, t) ==> q <= t <= s@.len(),
    decreases s@.len() - q, level, 2int,
{
    let a = skip_ws(s, q);
    let (op, b) = match bin_operator(level, s, a) {
        Some(x) => x,
        None => return Parsed::Matched(Vec::new(), q),
    };
    let c = skip_ws(s, b);
    let ghost ev = spec_expr(s@, c as int, (level - 1) as nat);
    match expression_level(text, s, c, level - 1) {
        Parsed::Matched(e, r) => {
            let ghost rest_v = spec_chain(s@, r as int, level as nat);
            match accumulate_ops_exprs(text, s, r, level) {
                Parsed::Matched(rest, t) => {
                    let mut rest = rest;
                    let ghost old_rest = rest@;
                    rest.insert(0, (op, e));
                    proof {
                        assert(rest@ =~= seq![(op, e)] + old_rest);
                        lemma_pairs_prepend((op, e), (op, ev->Matched_0), old_rest, rest_v->Matched_0);
                    }
                    Parsed::Matched(rest, t)
                },
                Parsed::NoMatch => Parsed::NoMatch,
                Parsed::Overflow => Parsed::Overflow,
            }
        },
        Parsed::NoMatch => Parsed::Matched(Vec::new(), q),
        Parsed::Overflow => Parsed::Overflow,
    }
}

/// A simple expression: a literal, a call, a variable, or an expression in parentheses
fn expression_simple(text: &str, s: &Vec<char>, p: usize) -> (r: Parsed<Expr>)
    requires
        s@ == text@,
        p <= s@.len(),
    ensures
        parsed_expr(r, spec_expression_simple(s@, p as int)),
        progress(r, s@, p as int),
    decreases s@.len() - p, 0int, 2int,
{
    let len = s.len();
    let true_: [char; 4] = ['T', 'r', 'u', 'e'];
    let false_: [char; 5] = ['F', 'a', 'l', 's', 'e'];
    proof {
        assert(true_@ =~= seq!['T', 'r', 'u', 'e']);
        assert(false_@ =~= seq!['F', 'a', 'l', 's', 'e']);
    }
    if tag(s, p, &true_) {
        return Parsed::Matched(Expr(Expression::Literal(Literal::Bool(true))), p + 4);
    }
    if tag(s, p, &false_) {
        return Parsed::Matched(Expr(Expression::Literal(Literal::Bool(false))), p + 5);
    }
    match string_literal(text, s, p) {
        Some((content, q)) => return Parsed::Matched(Expr(Expression::Literal(Literal::String(content))), q),
        None => {},
    }
    if p < len && '0' <= s[p] && s[p] <= '9' {
        let (q, value) = digits(s, p);
        proof {
            assert(q > p);
        }
        return match value {
            Some(v) => Parsed::Matched(Expr(Expression::Literal(Literal::Int(v))), q),
            None => Parsed::Overflow,
        };
    }
    match parse_function_call(text, s, p) {
        Parsed::NoMatch => {},
        other => return other,
    }
    match parse_builtin_function_call(text, s, p) {
        Parsed::NoMatch => {},
        other => return other,
    }
    match identifier(s, p) {
        Some(q) => {
            let name = String::from_str(text.substring_char(p, q));
            return Parsed::Matched(Expr(Expression::Var(name)), q);
        },
        None => {},
    }
    parenthesised_expression(text, s, p)
}

/// A call of a function: its name, optional whitespace, its arguments in parentheses
fn parse_function_call(text: &str, s: &Vec<char>, p: usize) -> (r: Parsed<Expr>)
    requires
        s@ == text@,
        p <= s@.len(),
    ensures
        parsed_expr(r, spec_function_call(s@, p as int)),
        progress(r, s@, p as int),
    decreases s@.len() - p, 0int, 1int,
{
    let a = skip_ws(s, p);
    let b = match identifier(s, a) {
        Some(b) => b,
        None => return Parsed::NoMatch,
    };
    let c = skip_ws(s, b);
    let ghost argsv = spec_call_arguments(s@, c as int);
    match call_arguments(text, s, c) {
        Parsed::Matched(arguments, d) => {
            let ident = String::from_str(text.substring_char(a, b));
            Parsed::Matched(Expr(Expression::FunctionCall(ident, arguments)), d)
        },
        Parsed::NoMatch => Parsed::NoMatch,
        Parsed::Overflow => Parsed::Overflow,
    }
}

/// A call of a built in function: its name, `!`, optional whitespace, its arguments in
/// parentheses
fn parse_builtin_function_call(text: &str, s: &Vec<char>, p: usize) -> (r: Parsed<Expr>)
    requires
        s@ == text@,
        p <= s@.len(),
    ensures
        parsed_expr(r, spec_builtin_function_call(s@, p as int)),
        progress(r, s@, p as int),
    decreases s@.len() - p, 0int, 1int,
{
    let _len = s.len();
    let a = skip_ws(s, p);
    let b = match identifier(s, a) {
        Some(b) => b,
        None => return Parsed::NoMatch,
    };
    let bang: [char; 1] = ['!'];
    proof {
        assert(bang@ =~= seq!['!']);
    }
    if !tag(s, b, &bang) {
        return Parsed::NoMatch;
    }
    let c = skip_ws(s, b + 1);
    match call_arguments(text, s, c) {
        Parsed::Matched(arguments, d) => {
            let ident = String::from_str(text.substring_char(a, b));
            Parsed::Matched(Expr(Expression::BuiltInFunctionCall(ident, arguments)), d)
        },
        Parsed::NoMatch => Parsed::NoMatch,
        Parsed::Overflow => Parsed::Overflow,
    }
}

/// An expression in parentheses
pub(crate) fn parenthesised_expression(text: &str, s: &Vec<char>, p: usize) -> (r: Parsed<Expr>)
    requires
        s@ == text@,
        p <= s@.len(),
    ensures
        parsed_expr(r, spec_parenthesised_expression(s@, p as int)),
        progress(r, s@, p as int),
    decreases s@.len() - p, 0int, 1int,
{
    let _len = s.len();
    let open: [char; 1] = ['('];
    let close: [char; 1] = [')'];
    proof {
        assert(open@ =~= seq!['(']);
        assert(close@ =~= seq![')']);
    }
    if !tag(s, p, &open) {
        return Parsed::NoMatch;
    }
    let d = skip_ws(s, p + 1);
    match expression_level(text, s, d, 6) {
        Parsed::Matched(e, q) => {
            let f = skip_ws(s, q);
            if tag(s, f, &close) {
                Parsed::Matched(e, f + 1)
            } else {
                Parsed::NoMatch
            }
        },
        Parsed::NoMatch => Parsed::NoMatch,
        Parsed::Overflow => Parsed::Overflow,
    }
}

/// The closing parenthesis of an argument list ending at `r`
fn close_arguments(s: &Vec<char>, r: usize, arguments: Vec<Expr>) -> (res: Parsed<Vec<Expr>>)
    requires
        r <= s@.len(),
    ensures
        forall|argsv: Seq<ExprV>|
            exprs_are(arguments@, argsv) ==> parsed_exprs(res, close_arguments_spec(s@, r as int, argsv)),
        res matches Parsed::Matched(_, t) ==> r < t <= s@.len(),
{
    let _len = s.len();
    let f = skip_ws(s, r);
    let close: [char; 1] = [')'];
    proof {
        assert(close@ =~= seq![')']);
    }
    if tag(s, f, &close) {
        Parsed::Matched(arguments, f + 1)
    } else {
        Parsed::NoMatch
    }
}

/// Arguments in parentheses, separated by commas with optional whitespace around them
fn call_arguments(text: &str, s: &Vec<char>, c: usize) -> (r: Parsed<Vec<Expr>>)
    requires
        s@ == text@,
        c <= s@.len(),
    ensures
        parsed_exprs(r, spec_call_arguments(s@, c as int)),
        progress(r, s@, c as int),
    decreases s@.len() - c, 0int, 0int,
{
    let _len = s.len();
    let open: [char; 1] = ['('];
    proof {
        assert(open@ =~= seq!['(']);
    }
    if !tag(s, c, &open) {
        return Parsed::NoMatch;
    }
    let d = skip_ws(s, c + 1);
    let ghost first_v = spec_expr(s@, d as int, 6);
    match expression_level(text, s, d, 6) {
        Parsed::Matched(e, q) => {
            let ghost rest_v = spec_more_arguments(s@, q as int);
            match more_arguments(text, s, q) {
                Parsed::Matched(rest, r) => {
                    let mut arguments = rest;
                    let ghost old_rest = arguments@;
                    arguments.insert(0, e);
                    proof {
                        assert(arguments@ =~= seq![e] + old_rest);
                        lemma_exprs_prepend(e, first_v->Matched_0, old_rest, rest_v->Matched_0);
                    }
                    close_arguments(s, r, arguments)
                },
                Parsed::NoMatch => Parsed::NoMatch,
                Parsed::Overflow => Parsed::Overflow,
            }
        },
        Parsed::NoMatch => {
            let none: Vec<Expr> = Vec::new();
            proof {
                assert(exprs_are(none@, Seq::empty()));
            }
            close_arguments(s, d, none)
        },
        Parsed::Overflow => Parsed::Overflow,
    }
}

/// The arguments after the first: a comma and an expression, as long as both follow
fn more_arguments(text: &str, s: &Vec<char>, q: usize) -> (r: Parsed<Vec<Expr>>)
    requires
        s@ == text@,
        q <= s@.len(),
    ensures
        parsed_exprs(r, spec_more_arguments(s@, q as int)),
        r matches Parsed::Matched(_, t) ==> q <= t <= s@.len(),
    decreases s@.len() - q, 0int, 0int,
{
    let _len = s.len();
    let comma: [char; 1] = [','];
    proof {
        assert(comma@ =~= seq![',']);
    }
    let a = skip_ws(s, q);
    if !tag(s, a, &comma) {
        return Parsed::Matched(Vec::new(), q);
    }
    let b = skip_ws(s, a + 1);
    let ghost ev = spec_expr(s@, b as int, 6);
    match expression_level(text, s, b, 6) {
        Parsed::Matched(e, r) => {
            let ghost rest_v = spec_more_arguments(s@, r as int);
            match more_arguments(text, s, r) {
                Parsed::Matched(rest, t) => {
                    let mut rest = rest;
                    let ghost old_rest = rest@;
                    rest.insert(0, e);
                    proof {
                        assert(rest@ =~= seq![e] + old_rest);
                        lemma_exprs_prepend(e, ev->Matched_0, old_rest, rest_v->Matched_0);
                    }
                    Parsed::Matched(rest, t)
                },
                Parsed::NoMatch => Parsed::NoMatch,
                Parsed::Overflow => Parsed::Overflow,
            }
        },
        Parsed::NoMatch => Parsed::Matched(Vec::new(), q),
        Parsed::Overflow => Parsed::Overflow,
    }
}

/// Parses an expression at the start of the input: the expression and the rest of the input
pub fn expression<'a>(input: &'a str) -> (r: Result<(&'a str, Expression), ParseError>)
    requires
        !(spec_expression(input@, 0) is Overflow),
    ensures
        match (r, spec_expression(input@, 0)) {
            (Ok((rest, e)), Outcome::Matched(v, q)) => expr_is(Expr(e), v) && rest@ == input@.subrange(q, input@.len() as int),
            (Err(x), Outcome::NoMatch) => x == ParseError::NoMatch,
            _ => false,
        },
{
    let s = to_chars(input);
    match expression_level(input, &s, 0, 6) {
        Parsed::Matched(e, q) => Ok((input.substring_char(q, s.len()), e.0)),
        _ => Err(ParseError::NoMatch),
    }
}

/// Parses a function call at the start of the input: the call and the rest of the input
pub fn function_call<'a>(input: &'a str) -> (r: Result<(&'a str, Expression), ParseError>)
    requires
        !(spec_function_call(input@, 0) is Overflow),
    ensures
        match (r, spec_function_call(input@, 0)) {
            (Ok((rest, e)), Outcome::Matched(v, q)) => expr_is(Expr(e), v) && rest@ == input@.subrange(q, input@.len() as int),
            (Err(x), Outcome::NoMatch) => x == ParseError::NoMatch,
            _ => false,
        },
{
    let s = to_chars(input);
    match parse_function_call(input, &s, 0) {
        Parsed::Matched(e, q) => Ok((input.substring_char(q, s.len()), e.0)),
        _ => Err(ParseError::NoMatch),
    }
}

} // verus!
