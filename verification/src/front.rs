use vstd::prelude::*;
use vstd::string::StrSliceExecFns;
use crate::error::ErrorReporter;
use crate::grammar::Program;
use crate::grammar::parse_all;
use crate::lexer::Lexer;
use crate::parser::AstPrinter;
use crate::parser::ExprView;
use crate::parser::Parser;
use crate::parser::expr_views;
use crate::parser::printed;
use crate::scan::scan;
use crate::token::Token;
use crate::token::borrowed_views;
use crate::token::token_views;

verus! {

/// What one text comes to: the printed form of each top-level expression,
/// the lexical errors and the syntax errors.
pub struct Outcome {
    pub printed: Vec<String>,
    pub lexical: ErrorReporter,
    pub syntax: ErrorReporter,
}

/// The texts that a vector of strings holds.
pub open spec fn texts(v: Seq<String>) -> Seq<Seq<char>> {
    Seq::new(v.len(), |i: int| v[i]@)
}

/// The printed form of each tree, in order.
pub open spec fn printed_all(exprs: Seq<ExprView>) -> Seq<Seq<char>> {
    Seq::new(exprs.len(), |i: int| printed(exprs[i]))
}

/// The trees and syntax errors of a text: its tokens, parsed.
pub open spec fn parsed_source(source: Seq<char>) -> Program {
    parse_all(scan(source).tokens)
}

/// Scans `source`, parses the tokens and prints every tree. Returns nothing
/// only for a text so long that its lines could not be counted.
pub fn run(source: &str) -> (r: Option<Outcome>)
    ensures
        r.is_some() == (source@.len() < usize::MAX),
        r.is_some() ==> {
            let o = r.unwrap();
            &&& texts(o.printed@) == printed_all(parsed_source(source@).exprs)
            &&& o.lexical.wf() && o.lexical.log() == scan(source@).errors
            &&& o.syntax.wf() && o.syntax.log() == parsed_source(source@).errors
        },
{
    if source.unicode_len() == usize::MAX {
        return None;
    }
    let (tokens, lexical) = Lexer::new(source).tokenize();
    let mut borrowed: Vec<&Token> = Vec::new();
    let mut i: usize = 0;
    while i < tokens.len()
        invariant
            i <= tokens.len(),
            borrowed@.len() == i,
            forall|j: int| 0 <= j < i ==> borrowed@[j]@ == tokens@[j]@,
        decreases tokens.len() - i,
    {
        borrowed.push(&tokens[i]);
        i += 1;
    }
    assert(borrowed_views(borrowed@) =~= token_views(tokens@));
    let mut parser = Parser::new(borrowed);
    let exprs = parser.parse();
    let mut lines: Vec<String> = Vec::new();
    let mut k: usize = 0;
    while k < exprs.len()
        invariant
            k <= exprs.len(),
            lines@.len() == k,
            forall|j: int| 0 <= j < k ==> lines@[j]@ == printed(exprs@[j]@),
        decreases exprs.len() - k,
    {
        lines.push(AstPrinter::print(&exprs[k]));
        k += 1;
    }
    assert(texts(lines@) =~= printed_all(expr_views(exprs@)));
    Some(Outcome { printed: lines, lexical, syntax: parser.err })
}

} // verus!
