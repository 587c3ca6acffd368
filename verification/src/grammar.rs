use vstd::prelude::*;
use crate::error::ReportView;
use crate::parser::ExprView;
use crate::parser::LiteralView;
use crate::scan::end_marker;
use crate::token::TokenKind;
use crate::token::TokenView;
use crate::token::closed;

verus! {

/// The binary rules of the grammar, from the loosest to the tightest.
pub enum Level {
    Equality,
    Comparison,
    Term,
    Factor,
}

impl Level {
    /// How many binary rules bind at least as tightly.
    pub open spec fn height(self) -> int {
        match self {
            Level::Equality => 4,
            Level::Comparison => 3,
            Level::Term => 2,
            Level::Factor => 1,
        }
    }

    /// Whether `kind` is an operator of this rule.
    pub open spec fn has_operator(self, kind: TokenKind) -> bool {
        match self {
            Level::Equality => kind == TokenKind::BangEqual || kind == TokenKind::EqualEqual,
            Level::Comparison => kind == TokenKind::Less || kind == TokenKind::LessEqual || kind
                == TokenKind::Greater || kind == TokenKind::GreaterEqual,
            Level::Term => kind == TokenKind::Plus || kind == TokenKind::Minus,
            Level::Factor => kind == TokenKind::Star || kind == TokenKind::Slash,
        }
    }
}

/// Whether `kind` is a prefix operator.
pub open spec fn is_prefix(kind: TokenKind) -> bool {
    kind == TokenKind::Bang || kind == TokenKind::Minus
}

/// The token at `pos`; past either end, an end marker.
pub open spec fn token_at(toks: Seq<TokenView>, pos: int) -> TokenView {
    if 0 <= pos < toks.len() {
        toks[pos]
    } else {
        end_marker(0)
    }
}

/// The complaint about a token that starts no expression.
pub open spec fn expected_expression() -> Seq<char> {
    "Expected expression."@
}

/// The complaint about a group that is not closed.
pub open spec fn expected_paren() -> Seq<char> {
    "Expected ')' after expression."@
}

/// How an error names the token it complains about.
pub open spec fn location_of(at: TokenView) -> Seq<char> {
    if at.kind == TokenKind::EOF {
        "at end"@
    } else {
        "at '"@ + at.lexeme + "'"@
    }
}

/// A syntax error at the token `at`.
pub open spec fn syntax_error(at: TokenView, message: Seq<char>) -> ReportView {
    ReportView { line: at.line, location: location_of(at), message }
}

/// Outcome of one grammar rule: the tree and the position after it, or the
/// error that stopped it and the position of the token it complains about.
pub enum Parsed {
    Tree(ExprView, int),
    Failed(ReportView, int),
}

/// `primary`: a literal, or an expression in parentheses.
pub open spec fn parse_primary(toks: Seq<TokenView>, pos: int) -> Parsed
    decreases toks.len() - pos, 0int,
{
    let t = token_at(toks, pos);
    match t.kind {
        TokenKind::False => Parsed::Tree(ExprView::Literal(LiteralView::Bool(false)), pos + 1),
        TokenKind::True => Parsed::Tree(ExprView::Literal(LiteralView::Bool(true)), pos + 1),
        TokenKind::Nil => Parsed::Tree(ExprView::Literal(LiteralView::Nil), pos + 1),
        TokenKind::Str(text) => Parsed::Tree(ExprView::Literal(LiteralView::Str(text)), pos + 1),
        TokenKind::Num(text) => Parsed::Tree(ExprView::Literal(LiteralView::Num(text)), pos + 1),
        TokenKind::LeftParen => {
            if 0 <= pos < toks.len() {
                match parse_level(toks, pos + 1, Level::Equality) {
                    Parsed::Failed(e, at) => Parsed::Failed(e, at),
                    Parsed::Tree(inner, next) => if token_at(toks, next).kind
                        == TokenKind::RightParen {
                        Parsed::Tree(ExprView::Grouping(Box::new(inner)), next + 1)
                    } else {
                        Parsed::Failed(syntax_error(token_at(toks, next), expected_paren()), next)
                    },
                }
            } else {
                Parsed::Failed(syntax_error(t, expected_expression()), pos)
            }
        },
        _ => Parsed::Failed(syntax_error(t, expected_expression()), pos),
    }
}

/// `unary`: any number of prefix operators, then a primary.
pub open spec fn parse_unary(toks: Seq<TokenView>, pos: int) -> Parsed
    decreases toks.len() - pos, 1int,
{
    if 0 <= pos < toks.len() && is_prefix(toks[pos].kind) {
        match parse_unary(toks, pos + 1) {
            Parsed::Failed(e, at) => Parsed::Failed(e, at),
            Parsed::Tree(right, next) => Parsed::Tree(
                ExprView::Unary(toks[pos], Box::new(right)),
                next,
            ),
        }
    } else {
        parse_primary(toks, pos)
    }
}

/// The rule one step tighter than `level`, which parses its operands.
pub open spec fn parse_operand(toks: Seq<TokenView>, pos: int, level: Level) -> Parsed
    decreases toks.len() - pos, 2 * level.height() + 1,
{
    match level {
        Level::Equality => parse_level(toks, pos, Level::Comparison),
        Level::Comparison => parse_level(toks, pos, Level::Term),
        Level::Term => parse_level(toks, pos, Level::Factor),
        Level::Factor => parse_unary(toks, pos),
    }
}

/// A binary rule: an operand, then operators and operands as long as an
/// operator of the rule follows, folded to the left.
///
/// An operand always ends after the position where it starts
/// ([`lemma_level_advances`]); the test of that is what shows that the
/// definition is well founded.
pub open spec fn parse_level(toks: Seq<TokenView>, pos: int, level: Level) -> Parsed
    decreases toks.len() - pos, 2 * level.height() + 2,
{
    match parse_operand(toks, pos, level) {
        Parsed::Failed(e, at) => Parsed::Failed(e, at),
        Parsed::Tree(left, next) => if pos < next <= toks.len() {
            parse_tail(toks, next, level, left)
        } else {
            Parsed::Tree(left, next)
        },
    }
}

/// The rest of a binary rule once `left` has been parsed and the cursor is
/// at `pos`.
pub open spec fn parse_tail(toks: Seq<TokenView>, pos: int, level: Level, left: ExprView) -> Parsed
    decreases toks.len() - pos, 0int,
{
    if 0 <= pos < toks.len() && level.has_operator(toks[pos].kind) {
        match parse_operand(toks, pos + 1, level) {
            Parsed::Failed(e, at) => Parsed::Failed(e, at),
            Parsed::Tree(right, next) => {
                let node = ExprView::Binary(Box::new(left), toks[pos], Box::new(right));
                if pos < next <= toks.len() {
                    parse_tail(toks, next, level, node)
                } else {
                    Parsed::Tree(node, next)
                }
            },
        }
    } else {
        Parsed::Tree(left, pos)
    }
}

/// `expression`: the loosest rule.
pub open spec fn parse_expression(toks: Seq<TokenView>, pos: int) -> Parsed {
    parse_level(toks, pos, Level::Equality)
}

/// A primary that parses ends after at least one token and before the
/// last; one that fails complains about a token from its start on.
pub proof fn lemma_primary_advances(toks: Seq<TokenView>, pos: int)
    requires
        closed(toks),
        0 <= pos < toks.len(),
    ensures
        match parse_primary(toks, pos) {
            Parsed::Tree(_, next) => pos < next < toks.len(),
            Parsed::Failed(_, at) => pos <= at < toks.len(),
        },
    decreases toks.len() - pos, 0int,
{
    if toks[pos].kind == TokenKind::LeftParen {
        lemma_level_advances(toks, pos + 1, Level::Equality);
    }
}

/// A unary expression that parses ends after at least one token and before
/// the last; one that fails complains about a token from its start on.
pub proof fn lemma_unary_advances(toks: Seq<TokenView>, pos: int)
    requires
        closed(toks),
        0 <= pos < toks.len(),
    ensures
        match parse_unary(toks, pos) {
            Parsed::Tree(_, next) => pos < next < toks.len(),
            Parsed::Failed(_, at) => pos <= at < toks.len(),
        },
    decreases toks.len() - pos, 1int,
{
    if is_prefix(toks[pos].kind) {
        lemma_unary_advances(toks, pos + 1);
    } else {
        lemma_primary_advances(toks, pos);
    }
}

/// An operand that parses ends after at least one token and before the
/// last; one that fails complains about a token from its start on.
pub proof fn lemma_operand_advances(toks: Seq<TokenView>, pos: int, level: Level)
    requires
        closed(toks),
        0 <= pos < toks.len(),
    ensures
        match parse_operand(toks, pos, level) {
            Parsed::Tree(_, next) => pos < next < toks.len(),
            Parsed::Failed(_, at) => pos <= at < toks.len(),
        },
    decreases toks.len() - pos, 2 * level.height() + 1,
{
    match level {
        Level::Equality => lemma_level_advances(toks, pos, Level::Comparison),
        Level::Comparison => lemma_level_advances(toks, pos, Level::Term),
        Level::Term => lemma_level_advances(toks, pos, Level::Factor),
        Level::Factor => lemma_unary_advances(toks, pos),
    }
}

/// Every rule that parses consumes at least one token and stops before the
/// end marker that closes the sequence; one that fails complains about a
/// token from its start on.
pub proof fn lemma_level_advances(toks: Seq<TokenView>, pos: int, level: Level)
    requires
        closed(toks),
        0 <= pos < toks.len(),
    ensures
        match parse_level(toks, pos, level) {
            Parsed::Tree(_, next) => pos < next < toks.len(),
            Parsed::Failed(_, at) => pos <= at < toks.len(),
        },
    decreases toks.len() - pos, 2 * level.height() + 2,
{
    lemma_operand_advances(toks, pos, level);
    match parse_operand(toks, pos, level) {
        Parsed::Tree(left, next) => lemma_tail_advances(toks, next, level, left),
        Parsed::Failed(_, _) => {},
    }
}

/// The rest of a binary rule never moves the cursor back, nor past the end
/// marker, whether it parses or fails.
pub proof fn lemma_tail_advances(toks: Seq<TokenView>, pos: int, level: Level, left: ExprView)
    requires
        closed(toks),
        0 <= pos < toks.len(),
    ensures
        match parse_tail(toks, pos, level, left) {
            Parsed::Tree(_, next) => pos <= next < toks.len(),
            Parsed::Failed(_, at) => pos <= at < toks.len(),
        },
    decreases toks.len() - pos, 0int,
{
    if level.has_operator(toks[pos].kind) {
        lemma_operand_advances(toks, pos + 1, level);
        match parse_operand(toks, pos + 1, level) {
            Parsed::Tree(right, next) => {
                let node = ExprView::Binary(Box::new(left), toks[pos], Box::new(right));
                lemma_tail_advances(toks, next, level, node);
            },
            Parsed::Failed(_, _) => {},
        }
    }
}

/// Everything a parse produces: the trees of the top-level expressions in
/// source order, and the errors.
pub struct Program {
    pub exprs: Seq<ExprView>,
    pub errors: Seq<ReportView>,
}

/// What a parser does after a syntax error.
pub enum Recovery {
    /// The parse ends at the first error.
    Abort,
    /// The parser skips to the next statement and goes on.
    Resynchronize,
}

/// Whether a statement may start with a token of this kind.
pub open spec fn starts_statement(kind: TokenKind) -> bool {
    kind == TokenKind::Class || kind == TokenKind::Fun || kind == TokenKind::Var || kind
        == TokenKind::For || kind == TokenKind::If || kind == TokenKind::While || kind
        == TokenKind::Print || kind == TokenKind::Return
}

/// The first position from `pos` on where a statement may begin: right
/// after a `;`, at a token that starts a statement, or at the end marker.
pub open spec fn statement_start(toks: Seq<TokenView>, pos: int) -> int
    decreases toks.len() - pos,
{
    if 0 < pos < toks.len() && toks[pos].kind != TokenKind::EOF && toks[pos - 1].kind
        != TokenKind::Semicolon && !starts_statement(toks[pos].kind) {
        statement_start(toks, pos + 1)
    } else {
        pos
    }
}

/// Where parsing resumes after an error at `at`: the offending token is
/// dropped, and then everything up to the next start of a statement. An
/// error at the end marker leaves the cursor there.
pub open spec fn synchronize(toks: Seq<TokenView>, at: int) -> int {
    if token_at(toks, at).kind == TokenKind::EOF {
        at
    } else {
        statement_start(toks, at + 1)
    }
}

/// Outcome of parsing top-level expressions from `pos` on, given what was
/// produced before: one expression after another up to the end marker.
/// A syntax error is recorded; it ends the parse, or the parse resumes at
/// the next statement, as `recovery` says.
pub open spec fn parse_from(
    toks: Seq<TokenView>,
    pos: int,
    recovery: Recovery,
    exprs: Seq<ExprView>,
    errors: Seq<ReportView>,
) -> Program
    decreases toks.len() - pos,
{
    if 0 <= pos < toks.len() && toks[pos].kind != TokenKind::EOF {
        match parse_expression(toks, pos) {
            Parsed::Failed(e, at) => {
                let next = synchronize(toks, at);
                if recovery is Resynchronize && pos < next <= toks.len() {
                    parse_from(toks, next, recovery, exprs, errors.push(e))
                } else {
                    Program { exprs, errors: errors.push(e) }
                }
            },
            Parsed::Tree(expr, next) => if pos < next <= toks.len() {
                parse_from(toks, next, recovery, exprs.push(expr), errors)
            } else {
                Program { exprs: exprs.push(expr), errors }
            },
        }
    } else {
        Program { exprs, errors }
    }
}

/// Outcome of parsing a whole token sequence, resuming after each error.
pub open spec fn parse_all(toks: Seq<TokenView>) -> Program {
    parse_from(
        toks,
        0,
        Recovery::Resynchronize,
        Seq::<ExprView>::empty(),
        Seq::<ReportView>::empty(),
    )
}

/// Resynchronizing stays on a token and never moves back.
pub proof fn lemma_statement_start(toks: Seq<TokenView>, pos: int)
    requires
        closed(toks),
        0 <= pos < toks.len(),
    ensures
        pos <= statement_start(toks, pos) < toks.len(),
    decreases toks.len() - pos,
{
    if 0 < pos && toks[pos].kind != TokenKind::EOF && toks[pos - 1].kind != TokenKind::Semicolon
        && !starts_statement(toks[pos].kind) {
        lemma_statement_start(toks, pos + 1);
    }
}

/// After an error the parser resumes past the offending token, unless that
/// token is the end marker; so a parse that resumes still ends.
pub proof fn lemma_synchronize(toks: Seq<TokenView>, at: int)
    requires
        closed(toks),
        0 <= at < toks.len(),
    ensures
        at <= synchronize(toks, at) < toks.len(),
        toks[at].kind != TokenKind::EOF ==> at < synchronize(toks, at),
{
    if toks[at].kind != TokenKind::EOF {
        lemma_statement_start(toks, at + 1);
    }
}

/// Where a primary fails at a token that is no prefix operator, every
/// binary rule fails there with the same error.
pub proof fn lemma_failure_rises(toks: Seq<TokenView>, pos: int, level: Level)
    requires
        0 <= pos < toks.len(),
        !is_prefix(toks[pos].kind),
        parse_primary(toks, pos) is Failed,
    ensures
        parse_level(toks, pos, level) == parse_primary(toks, pos),
    decreases level.height(),
{
    match level {
        Level::Equality => {
            lemma_failure_rises(toks, pos, Level::Comparison);
            assert(parse_operand(toks, pos, level) == parse_level(toks, pos, Level::Comparison));
        },
        Level::Comparison => {
            lemma_failure_rises(toks, pos, Level::Term);
            assert(parse_operand(toks, pos, level) == parse_level(toks, pos, Level::Term));
        },
        Level::Term => {
            lemma_failure_rises(toks, pos, Level::Factor);
            assert(parse_operand(toks, pos, level) == parse_level(toks, pos, Level::Factor));
        },
        Level::Factor => {
            assert(parse_unary(toks, pos) == parse_primary(toks, pos));
            assert(parse_operand(toks, pos, level) == parse_unary(toks, pos));
        },
    }
}

/// A group that is never closed is a syntax error: where `(` stands at
/// `pos`, an expression follows it, and the token after that expression is
/// no `)`, the expression at `pos` fails with the complaint about the
/// missing `)` at that token.
pub proof fn lemma_unclosed_group(toks: Seq<TokenView>, pos: int, inner: ExprView, next: int)
    requires
        0 <= pos < toks.len(),
        toks[pos].kind == TokenKind::LeftParen,
        parse_expression(toks, pos + 1) == Parsed::Tree(inner, next),
        token_at(toks, next).kind != TokenKind::RightParen,
    ensures
        parse_expression(toks, pos) == Parsed::Failed(
            syntax_error(token_at(toks, next), expected_paren()),
            next,
        ),
{
    lemma_failure_rises(toks, pos, Level::Equality);
}

/// A token that can start no expression is a syntax error: where the token
/// at `pos` is neither a literal, a prefix operator nor `(`, the expression
/// at `pos` fails with the complaint about that token.
pub proof fn lemma_missing_expression(toks: Seq<TokenView>, pos: int)
    requires
        0 <= pos < toks.len(),
        !is_prefix(toks[pos].kind),
        toks[pos].kind != TokenKind::LeftParen,
        toks[pos].kind != TokenKind::True,
        toks[pos].kind != TokenKind::False,
        toks[pos].kind != TokenKind::Nil,
        !(toks[pos].kind is Str),
        !(toks[pos].kind is Num),
    ensures
        parse_expression(toks, pos) == Parsed::Failed(
            syntax_error(toks[pos], expected_expression()),
            pos,
        ),
{
    lemma_failure_rises(toks, pos, Level::Equality);
}

/// `a` is how `b` begins.
pub open spec fn begins<T>(a: Seq<T>, b: Seq<T>) -> bool {
    a.len() <= b.len() && b.subrange(0, a.len() as int) == a
}

/// A parse only adds to what was produced before, and an expression that
/// fails is always reported: its error is the next one in the list.
pub proof fn lemma_parse_extends(
    toks: Seq<TokenView>,
    pos: int,
    recovery: Recovery,
    exprs: Seq<ExprView>,
    errors: Seq<ReportView>,
)
    ensures
        begins(exprs, parse_from(toks, pos, recovery, exprs, errors).exprs),
        begins(errors, parse_from(toks, pos, recovery, exprs, errors).errors),
        0 <= pos < toks.len() && toks[pos].kind != TokenKind::EOF ==> match parse_expression(
            toks,
            pos,
        ) {
            Parsed::Failed(e, _) => begins(
                errors.push(e),
                parse_from(toks, pos, recovery, exprs, errors).errors,
            ),
            Parsed::Tree(expr, _) => begins(
                exprs.push(expr),
                parse_from(toks, pos, recovery, exprs, errors).exprs,
            ),
        },
    decreases toks.len() - pos,
{
    let out = parse_from(toks, pos, recovery, exprs, errors);
    if 0 <= pos < toks.len() && toks[pos].kind != TokenKind::EOF {
        match parse_expression(toks, pos) {
            Parsed::Failed(e, at) => {
                let next = synchronize(toks, at);
                let more = errors.push(e);
                if recovery is Resynchronize && pos < next <= toks.len() {
                    lemma_parse_extends(toks, next, recovery, exprs, more);
                    assert(out.errors.subrange(0, errors.len() as int) =~= out.errors.subrange(
                        0,
                        more.len() as int,
                    ).subrange(0, errors.len() as int));
                    assert(more.subrange(0, errors.len() as int) =~= errors);
                } else {
                    assert(more.subrange(0, more.len() as int) =~= more);
                    assert(more.subrange(0, errors.len() as int) =~= errors);
                    assert(exprs.subrange(0, exprs.len() as int) =~= exprs);
                }
            },
            Parsed::Tree(expr, next) => {
                let more = exprs.push(expr);
                if pos < next <= toks.len() {
                    lemma_parse_extends(toks, next, recovery, more, errors);
                    assert(out.exprs.subrange(0, exprs.len() as int) =~= out.exprs.subrange(
                        0,
                        more.len() as int,
                    ).subrange(0, exprs.len() as int));
                    assert(more.subrange(0, exprs.len() as int) =~= exprs);
                } else {
                    assert(more.subrange(0, more.len() as int) =~= more);
                    assert(more.subrange(0, exprs.len() as int) =~= exprs);
                    assert(errors.subrange(0, errors.len() as int) =~= errors);
                }
            },
        }
    } else {
        assert(exprs.subrange(0, exprs.len() as int) =~= exprs);
        assert(errors.subrange(0, errors.len() as int) =~= errors);
    }
}

/// A parse that aborts reports at most one error.
pub proof fn lemma_abort_reports_once(
    toks: Seq<TokenView>,
    pos: int,
    exprs: Seq<ExprView>,
    errors: Seq<ReportView>,
)
    ensures
        parse_from(toks, pos, Recovery::Abort, exprs, errors).errors.len() <= errors.len() + 1,
    decreases toks.len() - pos,
{
    if 0 <= pos < toks.len() && toks[pos].kind != TokenKind::EOF {
        match parse_expression(toks, pos) {
            Parsed::Failed(_, _) => {},
            Parsed::Tree(expr, next) => {
                if pos < next <= toks.len() {
                    lemma_abort_reports_once(toks, next, exprs.push(expr), errors);
                }
            },
        }
    }
}

/// How loosely the root of a tree binds: the height of the rule of its
/// operator for a binary node, zero for every other node.
pub open spec fn looseness(e: ExprView) -> int {
    match e {
        ExprView::Binary(_, op, _) => if Level::Equality.has_operator(op.kind) {
            4
        } else if Level::Comparison.has_operator(op.kind) {
            3
        } else if Level::Term.has_operator(op.kind) {
            2
        } else if Level::Factor.has_operator(op.kind) {
            1
        } else {
            0
        },
        _ => 0,
    }
}

/// The tree respects precedence and associativity everywhere: a binary
/// node carries a binary operator, its left operand binds no looser than
/// the node and its right operand binds strictly tighter; a unary node
/// carries a prefix operator over an operand that is no bare binary node.
pub open spec fn layered(e: ExprView) -> bool
    decreases e,
{
    match e {
        ExprView::Literal(_) => true,
        ExprView::Grouping(inner) => layered(*inner),
        ExprView::Unary(op, inner) => is_prefix(op.kind) && looseness(*inner) == 0 && layered(
            *inner,
        ),
        ExprView::Binary(left, _, right) => {
            &&& looseness(e) >= 1
            &&& looseness(*left) <= looseness(e)
            &&& looseness(*right) < looseness(e)
            &&& layered(*left)
            &&& layered(*right)
        },
    }
}

/// A tree that a rule may return: layered, and no looser than the rule.
pub open spec fn fits(p: Parsed, height: int) -> bool {
    match p {
        Parsed::Tree(e, _) => layered(e) && looseness(e) <= height,
        Parsed::Failed(_, _) => true,
    }
}

/// A primary is layered and is no bare binary node.
pub proof fn lemma_primary_layered(toks: Seq<TokenView>, pos: int)
    ensures
        fits(parse_primary(toks, pos), 0),
    decreases toks.len() - pos, 0int,
{
    if 0 <= pos < toks.len() && toks[pos].kind == TokenKind::LeftParen {
        lemma_level_layered(toks, pos + 1, Level::Equality);
    }
}

/// A unary expression is layered and is no bare binary node.
pub proof fn lemma_unary_layered(toks: Seq<TokenView>, pos: int)
    ensures
        fits(parse_unary(toks, pos), 0),
    decreases toks.len() - pos, 1int,
{
    if 0 <= pos < toks.len() && is_prefix(toks[pos].kind) {
        lemma_unary_layered(toks, pos + 1);
    } else {
        lemma_primary_layered(toks, pos);
    }
}

/// An operand of a rule is layered and binds strictly tighter than the
/// rule.
pub proof fn lemma_operand_layered(toks: Seq<TokenView>, pos: int, level: Level)
    ensures
        fits(parse_operand(toks, pos, level), level.height() - 1),
    decreases toks.len() - pos, 2 * level.height() + 1,
{
    match level {
        Level::Equality => lemma_level_layered(toks, pos, Level::Comparison),
        Level::Comparison => lemma_level_layered(toks, pos, Level::Term),
        Level::Term => lemma_level_layered(toks, pos, Level::Factor),
        Level::Factor => lemma_unary_layered(toks, pos),
    }
}

/// Precedence and associativity: every tree that a rule returns is layered
/// and binds no looser than the rule. So `*` and `/` never take a bare `+`
/// or `-` as an operand, comparisons never take a bare equality, and a
/// chain of operators of one rule leans to the left.
pub proof fn lemma_level_layered(toks: Seq<TokenView>, pos: int, level: Level)
    ensures
        fits(parse_level(toks, pos, level), level.height()),
    decreases toks.len() - pos, 2 * level.height() + 2,
{
    lemma_operand_layered(toks, pos, level);
    match parse_operand(toks, pos, level) {
        Parsed::Tree(left, next) => {
            if pos < next <= toks.len() {
                lemma_tail_layered(toks, next, level, left);
            }
        },
        Parsed::Failed(_, _) => {},
    }
}

/// The rest of a rule keeps a layered left operand layered.
pub proof fn lemma_tail_layered(toks: Seq<TokenView>, pos: int, level: Level, left: ExprView)
    requires
        layered(left),
        looseness(left) <= level.height(),
    ensures
        fits(parse_tail(toks, pos, level, left), level.height()),
    decreases toks.len() - pos, 0int,
{
    if 0 <= pos < toks.len() && level.has_operator(toks[pos].kind) {
        lemma_operand_layered(toks, pos + 1, level);
        match parse_operand(toks, pos + 1, level) {
            Parsed::Tree(right, next) => {
                let node = ExprView::Binary(Box::new(left), toks[pos], Box::new(right));
                assert(looseness(node) == level.height());
                assert(layered(node));
                if pos < next <= toks.len() {
                    lemma_tail_layered(toks, next, level, node);
                }
            },
            Parsed::Failed(_, _) => {},
        }
    }
}

/// Every tree of the sequence is layered.
pub open spec fn all_layered(exprs: Seq<ExprView>) -> bool {
    forall|i: int| 0 <= i < exprs.len() ==> layered(#[trigger] exprs[i])
}

/// Every tree of a parse is layered.
pub proof fn lemma_parse_layered(
    toks: Seq<TokenView>,
    pos: int,
    recovery: Recovery,
    exprs: Seq<ExprView>,
    errors: Seq<ReportView>,
)
    requires
        all_layered(exprs),
    ensures
        all_layered(parse_from(toks, pos, recovery, exprs, errors).exprs),
    decreases toks.len() - pos,
{
    if 0 <= pos < toks.len() && toks[pos].kind != TokenKind::EOF {
        lemma_level_layered(toks, pos, Level::Equality);
        match parse_expression(toks, pos) {
            Parsed::Failed(e, at) => {
                let next = synchronize(toks, at);
                if recovery is Resynchronize && pos < next <= toks.len() {
                    lemma_parse_layered(toks, next, recovery, exprs, errors.push(e));
                }
            },
            Parsed::Tree(expr, next) => {
                let grown = exprs.push(expr);
                assert(layered(expr));
                assert(all_layered(grown)) by {
                    assert forall|i: int| 0 <= i < grown.len() implies layered(
                        #[trigger] grown[i],
                    ) by {
                        if i < exprs.len() {
                            assert(grown[i] == exprs[i]);
                        }
                    }
                }
                if pos < next <= toks.len() {
                    lemma_parse_layered(toks, next, recovery, grown, errors);
                }
            },
        }
    }
}

} // verus!
