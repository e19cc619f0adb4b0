//! Parsing of statements, functions and programs.
use vstd::prelude::*;

use crate::abstract_syntax_tree::{Expr, Function, Program, Statement, Variable};
use crate::parsing::parse_expression::{
    expr_is, expression_level, parenthesised_expression, parsed_expr, spec_expression,
    spec_parenthesised_expression,
};
use crate::parsing::{
    advances, has_tag, identifier, parse_declaration, parse_type, parse_variable, skip_ws,
    spec_declaration, spec_identifier, spec_skip_ws, spec_type, spec_variable, spec_whitespace, tag,
    to_chars, variable_is, whitespace, ExprV, FunctionV, Outcome, ParseError, Parsed, ProgramV,
    StatementV, VariableV,
};

verus! {

/// `st` is the statement `v` as the parser sees it.
pub open spec fn statement_is(st: Statement<Expr>, v: StatementV) -> bool
    decreases st,
{
    match st {
        Statement::Declaration(var) => match v {
            StatementV::Declaration(w) => variable_is(var, w),
            _ => false,
        },
        Statement::Expression(e) => match v {
            StatementV::Expression(ev) => expr_is(e, ev),
            _ => false,
        },
        Statement::If { condition, then_branch, else_branch } => match v {
            StatementV::If { condition: cv, then_branch: tv, else_branch: ev } => expr_is(condition, cv)
                && statements_are(then_branch@, tv) && statements_are(else_branch@, ev),
            _ => false,
        },
        Statement::While { condition, body } => match v {
            StatementV::While { condition: cv, body: bv } => expr_is(condition, cv) && statements_are(body@, bv),
            _ => false,
        },
        Statement::Return(e) => match v {
            StatementV::Return(ev) => expr_is(e, ev),
            _ => false,
        },
    }
}

/// Each of `sts` is the statement at its position in `vs`.
pub open spec fn statements_are(sts: Seq<Statement<Expr>>, vs: Seq<StatementV>) -> bool
    decreases sts,
{
    if sts.len() == 0 {
        vs.len() == 0
    } else {
        &&& vs.len() == sts.len()
        &&& statements_are(sts.drop_last(), vs.drop_last())
        &&& statement_is(sts.last(), vs.last())
    }
}

/// Each of `vars` is the variable at its position in `vs`.
pub open spec fn variables_are(vars: Seq<Variable>, vs: Seq<VariableV>) -> bool {
    &&& vars.len() == vs.len()
    &&& forall|i: int| 0 <= i < vars.len() ==> #[trigger] variable_is(vars[i], vs[i])
}

/// `f` is the function `v` as the parser sees it.
pub open spec fn function_is(f: Function<Expr>, v: FunctionV) -> bool {
    &&& f.return_type == v.return_type
    &&& variables_are(f.arguments@, v.arguments)
    &&& f.indentifier@ == v.identifier
    &&& statements_are(f.body@, v.body)
}

/// `p` is the program `v` as the parser sees it.
pub open spec fn program_is(p: Program<Expr>, v: ProgramV) -> bool {
    &&& p.functions@.len() == v.functions.len()
    &&& forall|i: int| 0 <= i < v.functions.len() ==> #[trigger] function_is(p.functions@[i], v.functions[i])
    &&& variables_are(p.variables@, v.variables)
}

/// `r` is the outcome `o` of parsing a statement.
pub open spec fn parsed_statement(r: Parsed<Statement<Expr>>, o: Outcome<StatementV>) -> bool {
    match (r, o) {
        (Parsed::Matched(st, q), Outcome::Matched(v, p)) => q == p && statement_is(st, v),
        (Parsed::NoMatch, Outcome::NoMatch) => true,
        (Parsed::Overflow, Outcome::Overflow) => true,
        _ => false,
    }
}

/// `r` is the outcome `o` of parsing statements.
pub open spec fn parsed_statements(r: Parsed<Vec<Statement<Expr>>>, o: Outcome<Seq<StatementV>>) -> bool {
    match (r, o) {
        (Parsed::Matched(sts, q), Outcome::Matched(v, p)) => q == p && statements_are(sts@, v),
        (Parsed::NoMatch, Outcome::NoMatch) => true,
        (Parsed::Overflow, Outcome::Overflow) => true,
        _ => false,
    }
}

/// An expression followed by a semicolon.
pub open spec fn spec_expression_stmt(s: Seq<char>, q: int) -> Outcome<ExprV> {
    let a = spec_skip_ws(s, q);
    match spec_expression(s, a) {
        Outcome::Matched(e, b) => {
            let c = spec_skip_ws(s, b);
            if has_tag(s, c, seq![';']) {
                Outcome::Matched(e, c + 1)
            } else {
                Outcome::NoMatch
            }
        },
        other => other,
    }
}

/// `return`, whitespace, an expression and a semicolon.
pub open spec fn spec_return_stmt(s: Seq<char>, q: int) -> Outcome<StatementV> {
    let a = spec_skip_ws(s, q);
    if has_tag(s, a, seq!['r', 'e', 't', 'u', 'r', 'n']) {
        match spec_whitespace(s, a + 6) {
            Some(b) => match spec_expression(s, b) {
                Outcome::Matched(e, c) => {
                    let d = spec_skip_ws(s, c);
                    if has_tag(s, d, seq![';']) {
                        Outcome::Matched(StatementV::Return(e), d + 1)
                    } else {
                        Outcome::NoMatch
                    }
                },
                Outcome::NoMatch => Outcome::NoMatch,
                Outcome::Overflow => Outcome::Overflow,
            },
            None => Outcome::NoMatch,
        }
    } else {
        Outcome::NoMatch
    }
}

/// A block: statements in curly braces.
pub open spec fn spec_block(s: Seq<char>, p: int) -> Outcome<Seq<StatementV>>
    decreases s.len() - p, 3nat,
{
    let a = spec_skip_ws(s, p);
    if has_tag(s, a, seq!['{']) && advances(s, p, a + 1) {
        match spec_statements(s, a + 1) {
            Outcome::Matched(statements, b) => {
                let c = spec_skip_ws(s, b);
                if has_tag(s, c, seq!['}']) {
                    Outcome::Matched(statements, c + 1)
                } else {
                    Outcome::NoMatch
                }
            },
            Outcome::NoMatch => Outcome::NoMatch,
            Outcome::Overflow => Outcome::Overflow,
        }
    } else {
        Outcome::NoMatch
    }
}

/// Statements one after the other, as long as they follow.
pub open spec fn spec_statements(s: Seq<char>, q: int) -> Outcome<Seq<StatementV>>
    decreases s.len() - q, 2nat,
{
    match spec_statement(s, q) {
        Outcome::Matched(st, r) => if advances(s, q, r) {
            match spec_statements(s, r) {
                Outcome::Matched(rest, t) => Outcome::Matched(seq![st] + rest, t),
                Outcome::NoMatch => Outcome::NoMatch,
                Outcome::Overflow => Outcome::Overflow,
            }
        } else {
            Outcome::NoMatch
        },
        Outcome::NoMatch => Outcome::Matched(Seq::empty(), q),
        Outcome::Overflow => Outcome::Overflow,
    }
}

/// A statement: a declaration, an expression, `if`, `while` or `return`, tried in this order.
pub open spec fn spec_statement(s: Seq<char>, q: int) -> Outcome<StatementV>
    decreases s.len() - q, 1nat,
{
    match spec_declaration(s, q) {
        Some((v, r)) => Outcome::Matched(StatementV::Declaration(v), r),
        None => match spec_expression_stmt(s, q) {
            Outcome::Matched(e, r) => Outcome::Matched(StatementV::Expression(e), r),
            Outcome::Overflow => Outcome::Overflow,
            Outcome::NoMatch => match spec_if_stmt(s, q) {
                Outcome::NoMatch => match spec_while_stmt(s, q) {
                    Outcome::NoMatch => spec_return_stmt(s, q),
                    other => other,
                },
                other => other,
            },
        },
    }
}

/// `if`, a condition in parentheses, a block, `else` and a block.
pub open spec fn spec_if_stmt(s: Seq<char>, q: int) -> Outcome<StatementV>
    decreases s.len() - q, 0nat,
{
    let a = spec_skip_ws(s, q);
    if has_tag(s, a, seq!['i', 'f']) {
        let b = spec_skip_ws(s, a + 2);
        match spec_parenthesised_expression(s, b) {
            Outcome::Matched(condition, c) => if advances(s, q, c) {
                match spec_block(s, c) {
                    Outcome::Matched(then_branch, d) => {
                        let e = spec_skip_ws(s, d);
                        if has_tag(s, e, seq!['e', 'l', 's', 'e']) && advances(s, q, e + 4) {
                            match spec_block(s, e + 4) {
                                Outcome::Matched(else_branch, f) => Outcome::Matched(
                                    StatementV::If { condition, then_branch, else_branch },
                                    f,
                                ),
                                Outcome::NoMatch => Outcome::NoMatch,
                                Outcome::Overflow => Outcome::Overflow,
                            }
                        } else {
                            Outcome::NoMatch
                        }
                    },
                    Outcome::NoMatch => Outcome::NoMatch,
                    Outcome::Overflow => Outcome::Overflow,
                }
            } else {
                Outcome::NoMatch
            },
            Outcome::NoMatch => Outcome::NoMatch,
            Outcome::Overflow => Outcome::Overflow,
        }
    } else {
        Outcome::NoMatch
    }
}

/// `while`, a condition in parentheses and a block.
pub open spec fn spec_while_stmt(s: Seq<char>, q: int) -> Outcome<StatementV>
    decreases s.len() - q, 0nat,
{
    let a = spec_skip_ws(s, q);
    if has_tag(s, a, seq!['w', 'h', 'i', 'l', 'e']) {
        let b = spec_skip_ws(s, a + 5);
        match spec_parenthesised_expression(s, b) {
            Outcome::Matched(condition, c) => if advances(s, q, c) {
                match spec_block(s, c) {
                    Outcome::Matched(body, d) => Outcome::Matched(StatementV::While { condition, body }, d),
                    Outcome::NoMatch => Outcome::NoMatch,
                    Outcome::Overflow => Outcome::Overflow,
                }
            } else {
                Outcome::NoMatch
            },
            Outcome::NoMatch => Outcome::NoMatch,
            Outcome::Overflow => Outcome::Overflow,
        }
    } else {
        Outcome::NoMatch
    }
}

/// The arguments of a function after the first: a comma and a variable, as long as both follow.
pub open spec fn spec_more_variables(s: Seq<char>, g: int) -> (Seq<VariableV>, int)
    decreases s.len() - g,
{
    let a = spec_skip_ws(s, g);
    if has_tag(s, a, seq![',']) {
        match spec_variable(s, a + 1) {
            Some((v, h)) => if advances(s, g, h) {
                let (rest, k) = spec_more_variables(s, h);
                (seq![v] + rest, k)
            } else {
                (Seq::empty(), g)
            },
            None => (Seq::empty(), g),
        }
    } else {
        (Seq::empty(), g)
    }
}

/// The arguments of a function: variables separated by commas, maybe none.
pub open spec fn spec_variable_list(s: Seq<char>, f: int) -> (Seq<VariableV>, int) {
    match spec_variable(s, f) {
        Some((v, g)) => {
            let (rest, h) = spec_more_variables(s, g);
            (seq![v] + rest, h)
        },
        None => (Seq::empty(), f),
    }
}

/// A function: return type, whitespace, name, its arguments in parentheses and its body.
pub open spec fn spec_function(s: Seq<char>, p: int) -> Outcome<FunctionV> {
    let a = spec_skip_ws(s, p);
    match spec_type(s, a) {
        Some((return_type, b)) => match spec_whitespace(s, b) {
            Some(c) => match spec_identifier(s, c) {
                Some(d) => {
                    let e = spec_skip_ws(s, d);
                    if has_tag(s, e, seq!['(']) {
                        let f = spec_skip_ws(s, e + 1);
                        let (arguments, g) = spec_variable_list(s, f);
                        let h = spec_skip_ws(s, g);
                        if has_tag(s, h, seq![')']) {
                            match spec_block(s, h + 1) {
                                Outcome::Matched(body, i) => Outcome::Matched(
                                    FunctionV { return_type, arguments, identifier: s.subrange(c, d), body },
                                    i,
                                ),
                                Outcome::NoMatch => Outcome::NoMatch,
                                Outcome::Overflow => Outcome::Overflow,
                            }
                        } else {
                            Outcome::NoMatch
                        }
                    } else {
                        Outcome::NoMatch
                    }
                },
                None => Outcome::NoMatch,
            },
            None => Outcome::NoMatch,
        },
        None => Outcome::NoMatch,
    }
}

/// Variable declarations and functions in any order, as long as they follow: the
/// functions in order, and the variables in order.
pub open spec fn spec_program_contents(s: Seq<char>, p: int) -> Outcome<(Seq<FunctionV>, Seq<VariableV>)>
    decreases s.len() - p,
{
    match spec_declaration(s, p) {
        Some((v, q)) => if advances(s, p, q) {
            match spec_program_contents(s, q) {
                Outcome::Matched((fs, vs), r) => Outcome::Matched((fs, seq![v] + vs), r),
                other => other,
            }
        } else {
            Outcome::NoMatch
        },
        None => match spec_function(s, p) {
            Outcome::Matched(f, q) => if advances(s, p, q) {
                match spec_program_contents(s, q) {
                    Outcome::Matched((fs, vs), r) => Outcome::Matched((seq![f] + fs, vs), r),
                    other => other,
                }
            } else {
                Outcome::NoMatch
            },
            Outcome::NoMatch => Outcome::Matched((Seq::empty(), Seq::empty()), p),
            Outcome::Overflow => Outcome::Overflow,
        },
    }
}

/// A program: its contents and the whitespace after them.
pub open spec fn spec_program(s: Seq<char>, p: int) -> Outcome<ProgramV> {
    match spec_program_contents(s, p) {
        Outcome::Matched((fs, vs), q) => Outcome::Matched(
            ProgramV { functions: fs, variables: vs },
            spec_skip_ws(s, q),
        ),
        Outcome::NoMatch => Outcome::NoMatch,
        Outcome::Overflow => Outcome::Overflow,
    }
}

/// `r` is the outcome `o` of parsing a function.
pub open spec fn parsed_function(r: Parsed<Function<Expr>>, o: Outcome<FunctionV>) -> bool {
    match (r, o) {
        (Parsed::Matched(f, q), Outcome::Matched(v, p)) => q == p && function_is(f, v),
        (Parsed::NoMatch, Outcome::NoMatch) => true,
        (Parsed::Overflow, Outcome::Overflow) => true,
        _ => false,
    }
}

/// `r` is the outcome `o` of parsing the contents of a program.
pub open spec fn parsed_contents(
    r: Parsed<(Vec<Function<Expr>>, Vec<Variable>)>,
    o: Outcome<(Seq<FunctionV>, Seq<VariableV>)>,
) -> bool {
    match (r, o) {
        (Parsed::Matched((fs, vs), q), Outcome::Matched((fv, vv), p)) => q == p && fs@.len() == fv.len()
            && (forall|i: int| 0 <= i < fv.len() ==> #[trigger] function_is(fs@[i], fv[i]))
            && variables_are(vs@, vv),
        (Parsed::NoMatch, Outcome::NoMatch) => true,
        (Parsed::Overflow, Outcome::Overflow) => true,
        _ => false,
    }
}

/// `r` is the outcome `o` of parsing a program.
pub open spec fn parsed_program(r: Parsed<Program<Expr>>, o: Outcome<ProgramV>) -> bool {
    match (r, o) {
        (Parsed::Matched(prog, q), Outcome::Matched(v, p)) => q == p && program_is(prog, v),
        (Parsed::NoMatch, Outcome::NoMatch) => true,
        (Parsed::Overflow, Outcome::Overflow) => true,
        _ => false,
    }
}

proof fn lemma_statements_prepend(st: Statement<Expr>, v: StatementV, sts: Seq<Statement<Expr>>, vs: Seq<StatementV>)
    requires
        statement_is(st, v),
        statements_are(sts, vs),
    ensures
        statements_are(seq![st] + sts, seq![v] + vs),
    decreases sts.len(),
{
    if sts.len() == 0 {
        assert((seq![st] + sts).drop_last() =~= sts);
        assert((seq![v] + vs).drop_last() =~= vs);
    } else {
        lemma_statements_prepend(st, v, sts.drop_last(), vs.drop_last());
        assert((seq![st] + sts).drop_last() =~= seq![st] + sts.drop_last());
        assert((seq![v] + vs).drop_last() =~= seq![v] + vs.drop_last());
    }
}

proof fn lemma_variables_prepend(var: Variable, v: VariableV, vars: Seq<Variable>, vs: Seq<VariableV>)
    requires
        variable_is(var, v),
        variables_are(vars, vs),
    ensures
        variables_are(seq![var] + vars, seq![v] + vs),
{
    let a = seq![var] + vars;
    let b = seq![v] + vs;
    assert forall|i: int| 0 <= i < a.len() implies #[trigger] variable_is(a[i], b[i]) by {
        if i > 0 {
            assert(a[i] == vars[i - 1]);
            assert(b[i] == vs[i - 1]);
            assert(variable_is(vars[i - 1], vs[i - 1]));
        }
    }
}

/// An expression followed by a semicolon
fn expression_stmt(text: &str, s: &Vec<char>, q: usize) -> (r: Parsed<Expr>)
    requires
        s@ == text@,
        q <= s@.len(),
    ensures
        parsed_expr(r, spec_expression_stmt(s@, q as int)),
        r matches Parsed::Matched(_, t) ==> advances(s@, q as int, t as int),
{
    let _len = s.len();
    let a = skip_ws(s, q);
    let semicolon: [char; 1] = [';'];
    proof {
        assert(semicolon@ =~= seq![';']);
    }
    match expression_level(text, s, a, 6) {
        Parsed::Matched(e, b) => {
            let c = skip_ws(s, b);
            if tag(s, c, &semicolon) {
                Parsed::Matched(e, c + 1)
            } else {
                Parsed::NoMatch
            }
        },
        Parsed::NoMatch => Parsed::NoMatch,
        Parsed::Overflow => Parsed::Overflow,
    }
}

/// `return`, whitespace, an expression and a semicolon
fn return_stmt(text: &str, s: &Vec<char>, q: usize) -> (r: Parsed<Statement<Expr>>)
    requires
        s@ == text@,
        q <= s@.len(),
    ensures
        parsed_statement(r, spec_return_stmt(s@, q as int)),
        r matches Parsed::Matched(_, t) ==> advances(s@, q as int, t as int),
{
    let _len = s.len();
    let a = skip_ws(s, q);
    let keyword: [char; 6] = ['r', 'e', 't', 'u', 'r', 'n'];
    let semicolon: [char; 1] = [';'];
    proof {
        assert(keyword@ =~= seq!['r', 'e', 't', 'u', 'r', 'n']);
        assert(semicolon@ =~= seq![';']);
    }
    if !tag(s, a, &keyword) {
        return Parsed::NoMatch;
    }
    let b = match whitespace(s, a + 6) {
        Some(b) => b,
        None => return Parsed::NoMatch,
    };
    match expression_level(text, s, b, 6) {
        Parsed::Matched(e, c) => {
            let d = skip_ws(s, c);
            if tag(s, d, &semicolon) {
                Parsed::Matched(Statement::Return(e), d + 1)
            } else {
                Parsed::NoMatch
            }
        },
        Parsed::NoMatch => Parsed::NoMatch,
        Parsed::Overflow => Parsed::Overflow,
    }
}

/// A block: statements in curly braces
fn block_at(text: &str, s: &Vec<char>, p: usize) -> (r: Parsed<Vec<Statement<Expr>>>)
    requires
        s@ == text@,
        p <= s@.len(),
    ensures
        parsed_statements(r, spec_block(s@, p as int)),
        r matches Parsed::Matched(_, t) ==> advances(s@, p as int, t as int),
    decreases s@.len() - p, 3int,
{
    let _len = s.len();
    let a = skip_ws(s, p);
    let open: [char; 1] = ['{'];
    let close: [char; 1] = ['}'];
    proof {
        assert(open@ =~= seq!['{']);
        assert(close@ =~= seq!['}']);
    }
    if !tag(s, a, &open) {
        return Parsed::NoMatch;
    }
    match statements_at(text, s, a + 1) {
        Parsed::Matched(statements, b) => {
            let c = skip_ws(s, b);
            if tag(s, c, &close) {
                Parsed::Matched(statements, c + 1)
            } else {
                Parsed::NoMatch
            }
        },
        Parsed::NoMatch => Parsed::NoMatch,
        Parsed::Overflow => Parsed::Overflow,
    }
}

/// Statements one after the other, as long as they follow
fn statements_at(text: &str, s: &Vec<char>, q: usize) -> (r: Parsed<Vec<Statement<Expr>>>)
    requires
        s@ == text@,
        q <= s@.len(),
    ensures
        parsed_statements(r, spec_statements(s@, q as int)),
        r matches Parsed::Matched(_, t) ==> q <= t <= s@.len(),
    decreases s@.len() - q, 2int,
{
    let ghost first_v = spec_statement(s@, q as int);
    match statement_at(text, s, q) {
        Parsed::Matched(st, r) => {
            let ghost rest_v = spec_statements(s@, r as int);
            match statements_at(text, s, r) {
                Parsed::Matched(rest, t) => {
                    let mut rest = rest;
                    let ghost old_rest = rest@;
                    rest.insert(0, st);
                    proof {
                        assert(rest@ =~= seq![st] + old_rest);
                        lemma_statements_prepend(st, first_v->Matched_0, old_rest, rest_v->Matched_0);
                    }
                    Parsed::Matched(rest, t)
                },
                Parsed::NoMatch => Parsed::NoMatch,
                Parsed::Overflow => Parsed::Overflow,
            }
        },
        Parsed::NoMatch => Parsed::Matched(Vec::new(), q),
        Parsed::Overflow => Parsed::Overflow,
    }
}

/// A statement: a declaration, an expression, `if`, `while` or `return`
fn statement_at(text: &str, s: &Vec<char>, q: usize) -> (r: Parsed<Statement<Expr>>)
    requires
        s@ == text@,
        q <= s@.len(),
    ensures
        parsed_statement(r, spec_statement(s@, q as int)),
        r matches Parsed::Matched(_, t) ==> advances(s@, q as int, t as int),
    decreases s@.len() - q, 1int,
{
    match parse_declaration(text, s, q) {
        Some((v, r)) => return Parsed::Matched(Statement::Declaration(v), r),
        None => {},
    }
    match expression_stmt(text, s, q) {
        Parsed::Matched(e, r) => return Parsed::Matched(Statement::Expression(e), r),
        Parsed::Overflow => return Parsed::Overflow,
        Parsed::NoMatch => {},
    }
    match if_stmt_at(text, s, q) {
        Parsed::NoMatch => {},
        other => return other,
    }
    match while_stmt_at(text, s, q) {
        Parsed::NoMatch => {},
        other => return other,
    }
    return_stmt(text, s, q)
}

/// `if`, a condition in parentheses, a block, `else` and a block
fn if_stmt_at(text: &str, s: &Vec<char>, q: usize) -> (r: Parsed<Statement<Expr>>)
    requires
        s@ == text@,
        q <= s@.len(),
    ensures
        parsed_statement(r, spec_if_stmt(s@, q as int)),
        r matches Parsed::Matched(_, t) ==> advances(s@, q as int, t as int),
    decreases s@.len() - q, 0int,
{
    let _len = s.len();
    let a = skip_ws(s, q);
    let keyword: [char; 2] = ['i', 'f'];
    let else_keyword: [char; 4] = ['e', 'l', 's', 'e'];
    proof {
        assert(keyword@ =~= seq!['i', 'f']);
        assert(else_keyword@ =~= seq!['e', 'l', 's', 'e']);
    }
    if !tag(s, a, &keyword) {
        return Parsed::NoMatch;
    }
    let b = skip_ws(s, a + 2);
    let (condition, c) = match parenthesised_expression(text, s, b) {
        Parsed::Matched(e, c) => (e, c),
        Parsed::NoMatch => return Parsed::NoMatch,
        Parsed::Overflow => return Parsed::Overflow,
    };
    let (then_branch, d) = match block_at(text, s, c) {
        Parsed::Matched(b, d) => (b, d),
        Parsed::NoMatch => return Parsed::NoMatch,
        Parsed::Overflow => return Parsed::Overflow,
    };
    let e = skip_ws(s, d);
    if !tag(s, e, &else_keyword) {
        return Parsed::NoMatch;
    }
    match block_at(text, s, e + 4) {
        Parsed::Matched(else_branch, f) => Parsed::Matched(Statement::If { condition, then_branch, else_branch }, f),
        Parsed::NoMatch => Parsed::NoMatch,
        Parsed::Overflow => Parsed::Overflow,
    }
}

/// `while`, a condition in parentheses and a block
fn while_stmt_at(text: &str, s: &Vec<char>, q: usize) -> (r: Parsed<Statement<Expr>>)
    requires
        s@ == text@,
        q <= s@.len(),
    ensures
        parsed_statement(r, spec_while_stmt(s@, q as int)),
        r matches Parsed::Matched(_, t) ==> advances(s@, q as int, t as int),
    decreases s@.len() - q, 0int,
{
    let _len = s.len();
    let a = skip_ws(s, q);
    let keyword: [char; 5] = ['w', 'h', 'i', 'l', 'e'];
    proof {
        assert(keyword@ =~= seq!['w', 'h', 'i', 'l', 'e']);
    }
    if !tag(s, a, &keyword) {
        return Parsed::NoMatch;
    }
    let b = skip_ws(s, a + 5);
    let (condition, c) = match parenthesised_expression(text, s, b) {
        Parsed::Matched(e, c) => (e, c),
        Parsed::NoMatch => return Parsed::NoMatch,
        Parsed::Overflow => return Parsed::Overflow,
    };
    match block_at(text, s, c) {
        Parsed::Matched(body, d) => Parsed::Matched(Statement::While { condition, body }, d),
        Parsed::NoMatch => Parsed::NoMatch,
        Parsed::Overflow => Parsed::Overflow,
    }
}

/// The arguments of a function after the first
fn more_variables(text: &str, s: &Vec<char>, g: usize) -> (r: (Vec<Variable>, usize))
    requires
        s@ == text@,
        g <= s@.len(),
    ensures
        variables_are(r.0@, spec_more_variables(s@, g as int).0),
        r.1 == spec_more_variables(s@, g as int).1,
        g <= r.1 <= s@.len(),
    decreases s@.len() - g,
{
    let _len = s.len();
    let a = skip_ws(s, g);
    let comma: [char; 1] = [','];
    proof {
        assert(comma@ =~= seq![',']);
    }
    if !tag(s, a, &comma) {
        return (Vec::new(), g);
    }
    let ghost vv = spec_variable(s@, a + 1);
    match parse_variable(text, s, a + 1) {
        Some((v, h)) => {
            let ghost rest_v = spec_more_variables(s@, h as int);
            let (rest, k) = more_variables(text, s, h);
            let mut rest = rest;
            let ghost old_rest = rest@;
            rest.insert(0, v);
            proof {
                assert(rest@ =~= seq![v] + old_rest);
                lemma_variables_prepend(v, vv.unwrap().0, old_rest, rest_v.0);
            }
            (rest, k)
        },
        None => (Vec::new(), g),
    }
}

/// The arguments of a function: variables separated by commas, maybe none
fn variable_list(text: &str, s: &Vec<char>, f: usize) -> (r: (Vec<Variable>, usize))
    requires
        s@ == text@,
        f <= s@.len(),
    ensures
        variables_are(r.0@, spec_variable_list(s@, f as int).0),
        r.1 == spec_variable_list(s@, f as int).1,
        f <= r.1 <= s@.len(),
{
    let ghost vv = spec_variable(s@, f as int);
    match parse_variable(text, s, f) {
        Some((v, g)) => {
            let ghost rest_v = spec_more_variables(s@, g as int);
            let (rest, h) = more_variables(text, s, g);
            let mut rest = rest;
            let ghost old_rest = rest@;
            rest.insert(0, v);
            proof {
                assert(rest@ =~= seq![v] + old_rest);
                lemma_variables_prepend(v, vv.unwrap().0, old_rest, rest_v.0);
            }
            (rest, h)
        },
        None => (Vec::new(), f),
    }
}

/// A function: return type, whitespace, name, its arguments in parentheses and its body
fn function_at(text: &str, s: &Vec<char>, p: usize) -> (r: Parsed<Function<Expr>>)
    requires
        s@ == text@,
        p <= s@.len(),
    ensures
        parsed_function(r, spec_function(s@, p as int)),
        r matches Parsed::Matched(_, t) ==> advances(s@, p as int, t as int),
{
    let _len = s.len();
    let a = skip_ws(s, p);
    let open: [char; 1] = ['('];
    let close: [char; 1] = [')'];
    proof {
        assert(open@ =~= seq!['(']);
        assert(close@ =~= seq![')']);
    }
    let (return_type, b) = match parse_type(s, a) {
        Some(x) => x,
        None => return Parsed::NoMatch,
    };
    let c = match whitespace(s, b) {
        Some(c) => c,
        None => return Parsed::NoMatch,
    };
    let d = match identifier(s, c) {
        Some(d) => d,
        None => return Parsed::NoMatch,
    };
    let e = skip_ws(s, d);
    if !tag(s, e, &open) {
        return Parsed::NoMatch;
    }
    let f = skip_ws(s, e + 1);
    let (arguments, g) = variable_list(text, s, f);
    let h = skip_ws(s, g);
    if !tag(s, h, &close) {
        return Parsed::NoMatch;
    }
    match block_at(text, s, h + 1) {
        Parsed::Matched(body, i) => {
            let ident = String::from_str(text.substring_char(c, d));
            Parsed::Matched(Function { return_type, arguments, indentifier: ident, body }, i)
        },
        Parsed::NoMatch => Parsed::NoMatch,
        Parsed::Overflow => Parsed::Overflow,
    }
}

/// Variable declarations and functions in any order, as long as they follow
fn program_contents(text: &str, s: &Vec<char>, p: usize) -> (r: Parsed<(Vec<Function<Expr>>, Vec<Variable>)>)
    requires
        s@ == text@,
        p <= s@.len(),
    ensures
        parsed_contents(r, spec_program_contents(s@, p as int)),
        r matches Parsed::Matched(_, t) ==> p <= t <= s@.len(),
    decreases s@.len() - p,
{
    let ghost dv = spec_declaration(s@, p as int);
    match parse_declaration(text, s, p) {
        Some((v, q)) => {
            let ghost rest_v = spec_program_contents(s@, q as int);
            return match program_contents(text, s, q) {
                Parsed::Matched((functions, variables), r) => {
                    let mut variables = variables;
                    let ghost old_vars = variables@;
                    variables.insert(0, v);
                    proof {
                        assert(variables@ =~= seq![v] + old_vars);
                        lemma_variables_prepend(v, dv.unwrap().0, old_vars, rest_v->Matched_0.1);
                    }
                    Parsed::Matched((functions, variables), r)
                },
                Parsed::NoMatch => Parsed::NoMatch,
                Parsed::Overflow => Parsed::Overflow,
            };
        },
        None => {},
    }
    let ghost fv = spec_function(s@, p as int);
    match function_at(text, s, p) {
        Parsed::Matched(f, q) => {
            let ghost rest_v = spec_program_contents(s@, q as int);
            match program_contents(text, s, q) {
                Parsed::Matched((functions, variables), r) => {
                    let mut functions = functions;
                    let ghost old_fs = functions@;
                    functions.insert(0, f);
                    proof {
                        let fvs = rest_v->Matched_0.0;
                        let all_v = seq![fv->Matched_0] + fvs;
                        assert(functions@ =~= seq![f] + old_fs);
                        assert forall|i: int| 0 <= i < all_v.len() implies #[trigger] function_is(
                            functions@[i],
                            all_v[i],
                        ) by {
                            if i > 0 {
                                assert(functions@[i] == old_fs[i - 1]);
                                assert(all_v[i] == fvs[i - 1]);
                                assert(function_is(old_fs[i - 1], fvs[i - 1]));
                            }
                        }
                    }
                    Parsed::Matched((functions, variables), r)
                },
                Parsed::NoMatch => Parsed::NoMatch,
                Parsed::Overflow => Parsed::Overflow,
            }
        },
        Parsed::NoMatch => Parsed::Matched((Vec::new(), Vec::new()), p),
        Parsed::Overflow => Parsed::Overflow,
    }
}

/// A program: its contents and the whitespace after them
pub(crate) fn program_at(text: &str, s: &Vec<char>, p: usize) -> (r: Parsed<Program<Expr>>)
    requires
        s@ == text@,
        p <= s@.len(),
    ensures
        parsed_program(r, spec_program(s@, p as int)),
        r matches Parsed::Matched(_, t) ==> p <= t <= s@.len(),
{
    match program_contents(text, s, p) {
        Parsed::Matched((functions, variables), q) => {
            let r = skip_ws(s, q);
            Parsed::Matched(Program { functions, variables }, r)
        },
        Parsed::NoMatch => Parsed::NoMatch,
        Parsed::Overflow => Parsed::Overflow,
    }
}

/// Parses a program at the start of the input: the program and the rest of the input
pub fn program<'a>(input: &'a str) -> (r: Result<(&'a str, Program<Expr>), ParseError>)
    requires
        !(spec_program(input@, 0) is Overflow),
    ensures
        match (r, spec_program(input@, 0)) {
            (Ok((rest, prog)), Outcome::Matched(v, q)) => program_is(prog, v) && rest@ == input@.subrange(q, input@.len() as int),
            (Err(x), Outcome::NoMatch) => x == ParseError::NoMatch,
            _ => false,
        },
{
    let s = to_chars(input);
    match program_at(input, &s, 0) {
        Parsed::Matched(prog, q) => Ok((input.substring_char(q, s.len()), prog)),
        _ => Err(ParseError::NoMatch),
    }
}

/// Parses a variable declaration followed by a semicolon at the start of the input
pub fn declaration<'a>(input: &'a str) -> (r: Result<(&'a str, Variable), ParseError>)
    ensures
        match (r, spec_declaration(input@, 0)) {
            (Ok((rest, var)), Some((v, q))) => variable_is(var, v) && rest@ == input@.subrange(q, input@.len() as int),
            (Err(x), None) => x == ParseError::NoMatch,
            _ => false,
        },
{
    let s = to_chars(input);
    match parse_declaration(input, &s, 0) {
        Some((var, q)) => Ok((input.substring_char(q, s.len()), var)),
        None => Err(ParseError::NoMatch),
    }
}

/// Parses a function at the start of the input
pub fn function<'a>(input: &'a str) -> (r: Result<(&'a str, Function<Expr>), ParseError>)
    requires
        !(spec_function(input@, 0) is Overflow),
    ensures
        match (r, spec_function(input@, 0)) {
            (Ok((rest, f)), Outcome::Matched(v, q)) => function_is(f, v) && rest@ == input@.subrange(q, input@.len() as int),
            (Err(x), Outcome::NoMatch) => x == ParseError::NoMatch,
            _ => false,
        },
{
    let s = to_chars(input);
    match function_at(input, &s, 0) {
        Parsed::Matched(f, q) => Ok((input.substring_char(q, s.len()), f)),
        _ => Err(ParseError::NoMatch),
    }
}

/// Parses a block at the start of the input
pub fn block<'a>(input: &'a str) -> (r: Result<(&'a str, Vec<Statement<Expr>>), ParseError>)
    requires
        !(spec_block(input@, 0) is Overflow),
    ensures
        match (r, spec_block(input@, 0)) {
            (Ok((rest, b)), Outcome::Matched(v, q)) => statements_are(b@, v) && rest@ == input@.subrange(q, input@.len() as int),
            (Err(x), Outcome::NoMatch) => x == ParseError::NoMatch,
            _ => false,
        },
{
    let s = to_chars(input);
    match block_at(input, &s, 0) {
        Parsed::Matched(b, q) => Ok((input.substring_char(q, s.len()), b)),
        _ => Err(ParseError::NoMatch),
    }
}

/// Parses a statement at the start of the input
pub fn statement<'a>(input: &'a str) -> (r: Result<(&'a str, Statement<Expr>), ParseError>)
    requires
        !(spec_statement(input@, 0) is Overflow),
    ensures
        match (r, spec_statement(input@, 0)) {
            (Ok((rest, st)), Outcome::Matched(v, q)) => statement_is(st, v) && rest@ == input@.subrange(q, input@.len() as int),
            (Err(x), Outcome::NoMatch) => x == ParseError::NoMatch,
            _ => false,
        },
{
    let s = to_chars(input);
    match statement_at(input, &s, 0) {
        Parsed::Matched(st, q) => Ok((input.substring_char(q, s.len()), st)),
        _ => Err(ParseError::NoMatch),
    }
}

/// Parses an if statement at the start of the input
pub fn if_stmt<'a>(input: &'a str) -> (r: Result<(&'a str, Statement<Expr>), ParseError>)
    requires
        !(spec_if_stmt(input@, 0) is Overflow),
    ensures
        match (r, spec_if_stmt(input@, 0)) {
            (Ok((rest, st)), Outcome::Matched(v, q)) => statement_is(st, v) && rest@ == input@.subrange(q, input@.len() as int),
            (Err(x), Outcome::NoMatch) => x == ParseError::NoMatch,
            _ => false,
        },
{
    let s = to_chars(input);
    match if_stmt_at(input, &s, 0) {
        Parsed::Matched(st, q) => Ok((input.substring_char(q, s.len()), st)),
        _ => Err(ParseError::NoMatch),
    }
}

} // verus!
