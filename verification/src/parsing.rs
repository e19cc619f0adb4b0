//! Parsing of the source text into the abstract syntax tree.
//!
//! Each parser is stated as a spec function on the characters of the input and a
//! position in them; it gives what it parsed and the position after it, `NoMatch`
//! where the input there is not what it parses, or `Overflow` where an integer literal
//! that does not fit in an `i64` would have to be read. Alternatives are tried in order
//! and the first that matches wins, as in a PEG. Every parser that matches consumes
//! input; where a definition goes on from what a parser left, it checks that the
//! position moved forward, which makes the progress of the recursion evident.
pub mod parse_expression;
pub mod parse_program;

use vstd::prelude::*;

use crate::abstract_syntax_tree::{Expr, Operator, Program, Type, Variable};
use crate::parsing::parse_program::{program_at, program_is, spec_program};

verus! {

/// A literal as the parser sees it.
pub enum LiteralV {
    Bool(bool),
    Int(i64),
    String(Seq<char>),
}

/// An expression as the parser sees it: names and strings as characters.
pub enum ExprV {
    Literal(LiteralV),
    Var(Seq<char>),
    BinaryOp(Operator, Box<ExprV>, Box<ExprV>),
    FunctionCall(Seq<char>, Seq<ExprV>),
    BuiltInFunctionCall(Seq<char>, Seq<ExprV>),
}

/// A variable as the parser sees it.
pub struct VariableV {
    pub type_: Type,
    pub identifier: Seq<char>,
}

/// A statement as the parser sees it.
pub enum StatementV {
    Declaration(VariableV),
    Expression(ExprV),
    If { condition: ExprV, then_branch: Seq<StatementV>, else_branch: Seq<StatementV> },
    While { condition: ExprV, body: Seq<StatementV> },
    Return(ExprV),
}

/// A function as the parser sees it.
pub struct FunctionV {
    pub return_type: Type,
    pub arguments: Seq<VariableV>,
    pub identifier: Seq<char>,
    pub body: Seq<StatementV>,
}

/// A program as the parser sees it.
pub struct ProgramV {
    pub functions: Seq<FunctionV>,
    pub variables: Seq<VariableV>,
}

/// What a parser makes of the input at a position.
pub enum Outcome<V> {
    /// It parsed this, up to (not including) this position
    Matched(V, int),
    /// The input there is not what it parses
    NoMatch,
    /// An integer literal that does not fit in an `i64` would have to be read
    Overflow,
}

/// The result of a parser.
#[derive(Debug, PartialEq)]
pub enum Parsed<T> {
    /// It parsed this, up to (not including) this position
    Matched(T, usize),
    /// The input there is not what it parses
    NoMatch,
    /// An integer literal that does not fit in an `i64` would have to be read
    Overflow,
}

/// Why a parse failed.
#[derive(Debug, PartialEq, Eq)]
pub enum ParseError {
    /// The input does not start with what was to be parsed
    NoMatch,
    /// A program was read up to this position, counted in characters, and the rest of
    /// the input is not part of it
    TrailingInput(usize),
}

/// `r` is the outcome `o`, its value related to the parsed value by `rel`.
pub open spec fn parsed_as<T, V>(r: Parsed<T>, o: Outcome<V>, rel: spec_fn(T, V) -> bool) -> bool {
    match (r, o) {
        (Parsed::Matched(t, q), Outcome::Matched(v, p)) => q == p && rel(t, v),
        (Parsed::NoMatch, Outcome::NoMatch) => true,
        (Parsed::Overflow, Outcome::Overflow) => true,
        _ => false,
    }
}

/// Position `q` lies after `p` and inside the input.
pub open spec fn advances(s: Seq<char>, p: int, q: int) -> bool {
    p < q && q <= s.len()
}

/// `char::is_lowercase` of std: whether a character has the Unicode property Lowercase.
pub uninterp spec fn is_lowercase_char(c: char) -> bool;

/// `char::is_alphanumeric` of std: whether a character is alphabetic or numeric in Unicode.
pub uninterp spec fn is_alphanumeric_char(c: char) -> bool;

/// Whether a character is lowercase: among ASCII characters exactly `'a'` to `'z'`,
/// otherwise as std's `char::is_lowercase` says.
pub open spec fn lowercase(c: char) -> bool {
    if (c as u32) < 128 {
        'a' as u32 <= c as u32 && c as u32 <= 'z' as u32
    } else {
        is_lowercase_char(c)
    }
}

/// Whether a character is a letter or digit: among ASCII characters exactly the ASCII
/// letters and digits, otherwise as std's `char::is_alphanumeric` says.
pub open spec fn alphanumeric(c: char) -> bool {
    if (c as u32) < 128 {
        ('a' as u32 <= c as u32 && c as u32 <= 'z' as u32) || ('A' as u32 <= c as u32 && c as u32 <= 'Z' as u32)
            || ('0' as u32 <= c as u32 && c as u32 <= '9' as u32)
    } else {
        is_alphanumeric_char(c)
    }
}

/// Calls `char::is_lowercase` of std. The contract names its result and claims that
/// it depends on the character alone, and that among ASCII characters exactly `'a'` to
/// `'z'` are lowercase; which other characters are lowercase (the Unicode tables) is left
/// unsaid.
#[verifier::external_body]
fn char_is_lowercase(c: char) -> (r: bool)
    ensures
        r == is_lowercase_char(c),
        (c as u32) < 128 ==> (r <==> ('a' as u32 <= c as u32 && c as u32 <= 'z' as u32)),
{
    c.is_lowercase()
}

/// Calls `char::is_alphanumeric` of std. The contract names its result and claims that
/// it depends on the character alone, and that among ASCII characters exactly the letters
/// and digits are alphanumeric; which other characters are alphanumeric (the Unicode
/// tables) is left unsaid.
#[verifier::external_body]
fn char_is_alphanumeric(c: char) -> (r: bool)
    ensures
        r == is_alphanumeric_char(c),
        (c as u32) < 128 ==> (r <==> (('a' as u32 <= c as u32 && c as u32 <= 'z' as u32)
            || ('A' as u32 <= c as u32 && c as u32 <= 'Z' as u32) || ('0' as u32 <= c as u32 && c as u32 <= '9' as u32))),
{
    c.is_alphanumeric()
}

/// Space, tab, carriage return or newline.
pub open spec fn is_ws_char(c: char) -> bool {
    c == ' ' || c == '\t' || c == '\r' || c == '\n'
}

/// The position of the first newline at or after `i`, or the end of the input.
pub open spec fn line_end(s: Seq<char>, i: int) -> int
    decreases s.len() - i,
{
    if 0 <= i < s.len() && s[i] != '\n' {
        line_end(s, i + 1)
    } else {
        i
    }
}

pub proof fn lemma_line_end(s: Seq<char>, i: int)
    requires
        0 <= i,
    ensures
        i <= line_end(s, i),
        i <= s.len() ==> line_end(s, i) <= s.len(),
        line_end(s, i) < s.len() ==> s[line_end(s, i)] == '\n',
    decreases s.len() - i,
{
    if 0 <= i < s.len() && s[i] != '\n' {
        lemma_line_end(s, i + 1);
    }
}

/// The end of a comment at `i`: `//`, at least one more character, up to and including
/// the newline that ends the line.
pub open spec fn comment_end(s: Seq<char>, i: int) -> Option<int> {
    if 0 <= i && i + 2 < s.len() && s[i] == '/' && s[i + 1] == '/' && s[i + 2] != '\n' && line_end(s, i + 2)
        < s.len() {
        Some(line_end(s, i + 2) + 1)
    } else {
        None
    }
}

/// The position after the whitespace and comments at `i`.
pub open spec fn spec_skip_ws(s: Seq<char>, i: int) -> int
    decreases s.len() - i,
{
    if 0 <= i < s.len() && is_ws_char(s[i]) {
        spec_skip_ws(s, i + 1)
    } else {
        match comment_end(s, i) {
            Some(e) => {
                proof {
                    lemma_line_end(s, i + 2);
                }
                spec_skip_ws(s, e)
            },
            None => i,
        }
    }
}

pub proof fn lemma_skip_ws(s: Seq<char>, i: int)
    requires
        0 <= i <= s.len(),
    ensures
        i <= spec_skip_ws(s, i) <= s.len(),
    decreases s.len() - i,
{
    if 0 <= i < s.len() && is_ws_char(s[i]) {
        lemma_skip_ws(s, i + 1);
    } else {
        match comment_end(s, i) {
            Some(e) => {
                lemma_line_end(s, i + 2);
                lemma_skip_ws(s, e);
            },
            None => {},
        }
    }
}

/// One or more whitespace characters or comments at `i`, and the position after them.
pub open spec fn spec_whitespace(s: Seq<char>, i: int) -> Option<int> {
    if (0 <= i < s.len() && is_ws_char(s[i])) || comment_end(s, i) is Some {
        Some(spec_skip_ws(s, i))
    } else {
        None
    }
}

/// The input holds `t` at position `i`.
pub open spec fn has_tag(s: Seq<char>, i: int, t: Seq<char>) -> bool {
    0 <= i && i + t.len() <= s.len() && s.subrange(i, i + t.len()) == t
}

/// A character that may appear in an identifier.
pub open spec fn is_ident_char(c: char) -> bool {
    c == '_' || alphanumeric(c)
}

/// The end of the identifier characters from `i` on.
pub open spec fn ident_end(s: Seq<char>, i: int) -> int
    decreases s.len() - i,
{
    if 0 <= i < s.len() && is_ident_char(s[i]) {
        ident_end(s, i + 1)
    } else {
        i
    }
}

pub proof fn lemma_ident_end(s: Seq<char>, i: int)
    requires
        0 <= i <= s.len(),
    ensures
        i <= ident_end(s, i) <= s.len(),
    decreases s.len() - i,
{
    if 0 <= i < s.len() && is_ident_char(s[i]) {
        lemma_ident_end(s, i + 1);
    }
}

/// The end of an identifier at `i`: it starts with a lowercase letter (upper case starts
/// a type) and goes on with letters, digits and underscores.
pub open spec fn spec_identifier(s: Seq<char>, i: int) -> Option<int> {
    if 0 <= i < s.len() && lowercase(s[i]) && is_ident_char(s[i]) {
        Some(ident_end(s, i))
    } else {
        None
    }
}

/// How a type is written: its name, with one `&` in front for each pointer level.
pub open spec fn type_text(t: Type) -> Seq<char>
    decreases t,
{
    match t {
        Type::Bool => seq!['B', 'o', 'o', 'l'],
        Type::Int => seq!['I', 'n', 't'],
        Type::Void => seq!['V', 'o', 'i', 'd'],
        Type::Char => seq!['C', 'h', 'a', 'r'],
        Type::Pointer(inner) => seq!['&'] + type_text(*inner),
    }
}

/// A type read from the source is the type whose text stands there: `Int` is read as
/// `Int`, `&Char` as a pointer to `Char`, and so on.
pub proof fn lemma_type_text(s: Seq<char>, i: int)
    ensures
        spec_type(s, i) matches Some((t, j)) ==> i <= j <= s.len() && s.subrange(i, j) == type_text(t),
    decreases s.len() - i,
{
    if has_tag(s, i, seq!['&']) {
        lemma_type_text(s, i + 1);
        match spec_type(s, i + 1) {
            Some((t, j)) => {
                assert(s.subrange(i, j) =~= seq!['&'] + s.subrange(i + 1, j));
            },
            None => {},
        }
    }
}

/// The type at `i`: `&` before a type for a pointer to it, or `Bool`, `Int`, `Void`, `Char`.
pub open spec fn spec_type(s: Seq<char>, i: int) -> Option<(Type, int)>
    decreases s.len() - i,
{
    if has_tag(s, i, seq!['&']) {
        match spec_type(s, i + 1) {
            Some((t, j)) => Some((Type::Pointer(Box::new(t)), j)),
            None => None,
        }
    } else if has_tag(s, i, seq!['B', 'o', 'o', 'l']) {
        Some((Type::Bool, i + 4))
    } else if has_tag(s, i, seq!['I', 'n', 't']) {
        Some((Type::Int, i + 3))
    } else if has_tag(s, i, seq!['V', 'o', 'i', 'd']) {
        Some((Type::Void, i + 4))
    } else if has_tag(s, i, seq!['C', 'h', 'a', 'r']) {
        Some((Type::Char, i + 4))
    } else {
        None
    }
}

/// A type and an identifier separated by whitespace, with optional whitespace in front.
pub open spec fn spec_variable(s: Seq<char>, i: int) -> Option<(VariableV, int)> {
    let a = spec_skip_ws(s, i);
    match spec_type(s, a) {
        Some((t, b)) => match spec_whitespace(s, b) {
            Some(c) => match spec_identifier(s, c) {
                Some(d) => Some((VariableV { type_: t, identifier: s.subrange(c, d) }, d)),
                None => None,
            },
            None => None,
        },
        None => None,
    }
}

/// A variable declaration followed by a semicolon.
pub open spec fn spec_declaration(s: Seq<char>, i: int) -> Option<(VariableV, int)> {
    match spec_variable(s, i) {
        Some((v, j)) => {
            let k = spec_skip_ws(s, j);
            if has_tag(s, k, seq![';']) {
                Some((v, k + 1))
            } else {
                None
            }
        },
        None => None,
    }
}

/// The characters of a text.
pub fn to_chars(text: &str) -> (r: Vec<char>)
    ensures
        r@ == text@,
{
    let ghost all = text@;
    let mut chars: Vec<char> = Vec::new();
    for c in it: text.chars()
        invariant
            it.seq() == all,
            chars@ == all.take(it.index() as int),
    {
        let ghost i = it.index() as int;
        chars.push(c);
        proof {
            assert(chars@ =~= all.take(i + 1));
        }
    }
    proof {
        assert(all.take(all.len() as int) =~= all);
    }
    chars
}

/// The position after the whitespace and comments at `i`
pub(crate) fn skip_ws(s: &Vec<char>, i: usize) -> (r: usize)
    requires
        i <= s@.len(),
    ensures
        r == spec_skip_ws(s@, i as int),
        i <= r <= s@.len(),
{
    let len = s.len();
    let mut j = i;
    proof {
        lemma_skip_ws(s@, i as int);
    }
    loop
        invariant
            i <= j <= len,
            len == s@.len(),
            spec_skip_ws(s@, i as int) == spec_skip_ws(s@, j as int),
        decreases len - j,
    {
        if j < len && (s[j] == ' ' || s[j] == '\t' || s[j] == '\r' || s[j] == '\n') {
            j = j + 1;
        } else if j < len && len - j > 2 && s[j] == '/' && s[j + 1] == '/' && s[j + 2] != '\n' {
            // a comment runs to the end of the line
            let mut k = j + 2;
            proof {
                lemma_line_end(s@, j + 2);
            }
            while k < len && s[k] != '\n'
                invariant
                    j + 2 <= k <= len,
                    len == s@.len(),
                    line_end(s@, j + 2) == line_end(s@, k as int),
                decreases len - k,
            {
                k = k + 1;
            }
            if k < len {
                j = k + 1;
            } else {
                return j;
            }
        } else {
            return j;
        }
    }
}

/// One or more whitespace characters or comments at `i`
pub(crate) fn whitespace(s: &Vec<char>, i: usize) -> (r: Option<usize>)
    requires
        i <= s@.len(),
    ensures
        match (r, spec_whitespace(s@, i as int)) {
            (Some(j), Some(k)) => j == k,
            (None, None) => true,
            _ => false,
        },
        r matches Some(j) ==> i < j <= s@.len(),
{
    let j = skip_ws(s, i);
    if j > i {
        Some(j)
    } else {
        proof {
            if (0 <= i < s@.len() && is_ws_char(s@[i as int])) || comment_end(s@, i as int) is Some {
                assert(spec_skip_ws(s@, i as int) > i) by {
                    if !(0 <= i < s@.len() && is_ws_char(s@[i as int])) {
                        let e = comment_end(s@, i as int)->0;
                        lemma_line_end(s@, i + 2);
                        lemma_skip_ws(s@, e);
                    } else {
                        lemma_skip_ws(s@, i + 1);
                    }
                }
            }
        }
        None
    }
}

/// Whether the input holds `t` at position `i`
pub(crate) fn tag(s: &Vec<char>, i: usize, t: &[char]) -> (r: bool)
    requires
        i <= s@.len(),
    ensures
        r == has_tag(s@, i as int, t@),
        r ==> i + t@.len() <= s@.len(),
{
    let len = s.len();
    let n = t.len();
    if n > len - i {
        return false;
    }
    let mut k: usize = 0;
    while k < n
        invariant
            k <= n,
            n == t@.len(),
            i + n <= len,
            len == s@.len(),
            forall|m: int| 0 <= m < k ==> s@[i + m] == t@[m],
        decreases n - k,
    {
        if s[i + k] != t[k] {
            proof {
                assert(s@.subrange(i as int, i + n)[k as int] != t@[k as int]);
            }
            return false;
        }
        k = k + 1;
    }
    proof {
        assert(s@.subrange(i as int, i + n) =~= t@);
    }
    true
}

/// The end of an identifier at `i`
pub(crate) fn identifier(s: &Vec<char>, i: usize) -> (r: Option<usize>)
    requires
        i <= s@.len(),
    ensures
        match (r, spec_identifier(s@, i as int)) {
            (Some(j), Some(k)) => j == k,
            (None, None) => true,
            _ => false,
        },
        r matches Some(j) ==> i < j <= s@.len(),
{
    let len = s.len();
    if i >= len {
        return None;
    }
    // First letter should be lowercase
    let first = s[i];
    if !(char_is_lowercase(first) && (first == '_' || char_is_alphanumeric(first))) {
        return None;
    }
    let mut j = i + 1;
    while j < len && (s[j] == '_' || char_is_alphanumeric(s[j]))
        invariant
            i < j <= len,
            len == s@.len(),
            ident_end(s@, i as int) == ident_end(s@, j as int),
        decreases len - j,
    {
        j = j + 1;
    }
    Some(j)
}

/// The type at `i`
pub(crate) fn parse_type(s: &Vec<char>, i: usize) -> (r: Option<(Type, usize)>)
    requires
        i <= s@.len(),
    ensures
        match (r, spec_type(s@, i as int)) {
            (Some((t, j)), Some((t2, k))) => t == t2 && j == k,
            (None, None) => true,
            _ => false,
        },
        r matches Some((_, j)) ==> i < j <= s@.len(),
    decreases s@.len() - i,
{
    let _len = s.len();
    let amp: [char; 1] = ['&'];
    let bool_: [char; 4] = ['B', 'o', 'o', 'l'];
    let int_: [char; 3] = ['I', 'n', 't'];
    let void_: [char; 4] = ['V', 'o', 'i', 'd'];
    let char_: [char; 4] = ['C', 'h', 'a', 'r'];
    proof {
        assert(amp@ =~= seq!['&']);
        assert(bool_@ =~= seq!['B', 'o', 'o', 'l']);
        assert(int_@ =~= seq!['I', 'n', 't']);
        assert(void_@ =~= seq!['V', 'o', 'i', 'd']);
        assert(char_@ =~= seq!['C', 'h', 'a', 'r']);
    }
    if tag(s, i, &amp) {
        match parse_type(s, i + 1) {
            Some((t, j)) => Some((Type::Pointer(Box::new(t)), j)),
            None => None,
        }
    } else if tag(s, i, &bool_) {
        Some((Type::Bool, i + 4))
    } else if tag(s, i, &int_) {
        Some((Type::Int, i + 3))
    } else if tag(s, i, &void_) {
        Some((Type::Void, i + 4))
    } else if tag(s, i, &char_) {
        Some((Type::Char, i + 4))
    } else {
        None
    }
}

/// `v` is the variable `w` as the parser sees it.
pub open spec fn variable_is(v: Variable, w: VariableV) -> bool {
    v.type_ == w.type_ && v.identifier@ == w.identifier
}

/// A type and an identifier separated by whitespace, with optional whitespace in front
pub(crate) fn parse_variable(text: &str, s: &Vec<char>, i: usize) -> (r: Option<(Variable, usize)>)
    requires
        s@ == text@,
        i <= s@.len(),
    ensures
        match (r, spec_variable(s@, i as int)) {
            (Some((v, j)), Some((w, k))) => variable_is(v, w) && j == k && i < j <= s@.len(),
            (None, None) => true,
            _ => false,
        },
{
    let a = skip_ws(s, i);
    let (type_signature, b) = match parse_type(s, a) {
        Some(x) => x,
        None => return None,
    };
    let c = match whitespace(s, b) {
        Some(c) => c,
        None => return None,
    };
    let d = match identifier(s, c) {
        Some(d) => d,
        None => return None,
    };
    let ident = String::from_str(text.substring_char(c, d));
    Some((Variable { type_: type_signature, identifier: ident }, d))
}

/// A variable declaration followed by a semicolon
pub(crate) fn parse_declaration(text: &str, s: &Vec<char>, i: usize) -> (r: Option<(Variable, usize)>)
    requires
        s@ == text@,
        i <= s@.len(),
    ensures
        match (r, spec_declaration(s@, i as int)) {
            (Some((v, j)), Some((w, k))) => variable_is(v, w) && j == k && i < j <= s@.len(),
            (None, None) => true,
            _ => false,
        },
{
    let (var, j) = match parse_variable(text, s, i) {
        Some(x) => x,
        None => return None,
    };
    let k = skip_ws(s, j);
    let _len = s.len();
    let semicolon: [char; 1] = [';'];
    proof {
        assert(semicolon@ =~= seq![';']);
    }
    if tag(s, k, &semicolon) {
        Some((var, k + 1))
    } else {
        None
    }
}

/// Parses one of the supported types at the start of the input
pub fn type_<'a>(input: &'a str) -> (r: Result<(&'a str, Type), ParseError>)
    ensures
        match (r, spec_type(input@, 0)) {
            (Ok((rest, t)), Some((t2, q))) => t == t2 && rest@ == input@.subrange(q, input@.len() as int),
            (Err(x), None) => x == ParseError::NoMatch,
            _ => false,
        },
{
    let s = to_chars(input);
    match parse_type(&s, 0) {
        Some((t, q)) => Ok((input.substring_char(q, s.len()), t)),
        None => Err(ParseError::NoMatch),
    }
}

/// Parses a complete program, or says that it cannot: `None` where the program holds an
/// integer literal that does not fit in an `i64`.
pub fn try_parse(input: &str) -> (r: Option<Result<Program<Expr>, ParseError>>)
    ensures
        match (r, spec_program(input@, 0)) {
            (Some(Ok(prog)), Outcome::Matched(v, q)) => q == input@.len() && program_is(prog, v),
            (Some(Err(ParseError::TrailingInput(t))), Outcome::Matched(v, q)) => q < input@.len() && t == q,
            (Some(Err(ParseError::NoMatch)), Outcome::NoMatch) => true,
            (None, Outcome::Overflow) => true,
            _ => false,
        },
{
    let s = to_chars(input);
    match program_at(input, &s, 0) {
        Parsed::Matched(prog, q) => if q == s.len() {
            Some(Ok(prog))
        } else {
            Some(Err(ParseError::TrailingInput(q)))
        },
        Parsed::NoMatch => Some(Err(ParseError::NoMatch)),
        Parsed::Overflow => None,
    }
}

/// Parses a complete program: the whole input must be a program.
pub fn parse(input: &str) -> (r: Result<Program<Expr>, ParseError>)
    requires
        !(spec_program(input@, 0) is Overflow),
    ensures
        match (r, spec_program(input@, 0)) {
            (Ok(prog), Outcome::Matched(v, q)) => q == input@.len() && program_is(prog, v),
            (Err(ParseError::TrailingInput(t)), Outcome::Matched(v, q)) => q < input@.len() && t == q,
            (Err(ParseError::NoMatch), Outcome::NoMatch) => true,
            _ => false,
        },
{
    try_parse(input).unwrap()
}

} // verus!
