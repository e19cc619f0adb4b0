//! The standard library of the language, added to a program as source text.
use vstd::prelude::*;

use crate::abstract_syntax_tree::{Expr, Program};
use crate::parsing::parse;
use crate::parsing::parse_program::{function_is, spec_program, variables_are};
use crate::parsing::{Outcome, ParseError};

verus! {

/// The library source parses as a whole program.
pub open spec fn library_parses(lib: Seq<char>) -> bool {
    spec_program(lib, 0) matches Outcome::Matched(_, q) && q == lib.len()
}

/// Add library to the program: the functions and global variables of the library
/// source `lib` come after those of the program, in their order in the source.
pub fn add_library(program: &mut Program<Expr>, lib: &str)
    requires
        library_parses(lib@),
    ensures
        match spec_program(lib@, 0) {
            Outcome::Matched(v, _) => {
                let nf = old(program).functions@.len();
                let nv = old(program).variables@.len();
                &&& final(program).functions@.len() == nf + v.functions.len()
                &&& final(program).functions@.take(nf as int) == old(program).functions@
                &&& forall|i: int| 0 <= i < v.functions.len()
                    ==> #[trigger] function_is(final(program).functions@[nf + i], v.functions[i])
                &&& final(program).variables@.take(nv as int) == old(program).variables@
                &&& variables_are(final(program).variables@.skip(nv as int), v.variables)
            },
            _ => false,
        },
{
    let parsed = parse(lib);
    match parsed {
        Ok(lib_program) => {
            let Program { mut functions, mut variables } = lib_program;
            let ghost nf = program.functions@.len();
            let ghost fs = functions@;
            program.functions.append(&mut functions);
            program.variables.append(&mut variables);
            proof {
                assert(program.functions@.take(nf as int) =~= old(program).functions@);
                assert forall|i: int| 0 <= i < fs.len() implies program.functions@[nf + i] == fs[i] by {}
            }
        },
        Err(ParseError::TrailingInput(_)) => {},
        Err(ParseError::NoMatch) => {},
    }
}

} // verus!
