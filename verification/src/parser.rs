use vstd::prelude::*;
use vstd::string::StrSliceExecFns;
use vstd::string::StringExecFns;
use crate::error::ErrorReporter;
use crate::error::ReportView;
use crate::grammar::Level;
use crate::grammar::Parsed;
use crate::grammar::Program;
use crate::grammar::Recovery;
use crate::grammar::lemma_synchronize;
use crate::grammar::parse_all;
use crate::grammar::starts_statement;
use crate::grammar::statement_start;
use crate::grammar::synchronize;
use crate::grammar::syntax_error;
use crate::grammar::is_prefix;
use crate::grammar::lemma_level_advances;
use crate::grammar::lemma_operand_advances;
use crate::grammar::parse_expression;
use crate::grammar::parse_from;
use crate::grammar::parse_level;
use crate::grammar::parse_primary;
use crate::grammar::parse_tail;
use crate::grammar::parse_unary;
use crate::number::decimal;
use crate::number::decimal_text;
use crate::token::Token;
use crate::token::TokenKind;
use crate::token::TokenType;
use crate::token::TokenView;
use crate::token::borrowed_views;
use crate::token::closed;

verus! {

/// A constant of the language. A number is kept as its decimal text,
/// `digits` or `digits.digits`.
pub enum Literal<'a> {
    Num(&'a str),
    Str(&'a str),
    Bool(bool),
    Nil,
}

/// Mathematical model of a [`Literal`].
pub enum LiteralView {
    Num(Seq<char>),
    Str(Seq<char>),
    Bool(bool),
    Nil,
}

impl<'a> View for Literal<'a> {
    type V = LiteralView;

    open spec fn view(&self) -> LiteralView {
        match self {
            Literal::Num(n) => LiteralView::Num(n@),
            Literal::Str(s) => LiteralView::Str(s@),
            Literal::Bool(b) => LiteralView::Bool(*b),
            Literal::Nil => LiteralView::Nil,
        }
    }
}

/// An expression tree. Operators keep their whole token.
pub enum Expr<'a> {
    Literal(Literal<'a>),
    Unary(&'a Token<'a>, Box<Expr<'a>>),
    Binary(Box<Expr<'a>>, &'a Token<'a>, Box<Expr<'a>>),
    Grouping(Box<Expr<'a>>),
}

/// Mathematical model of an [`Expr`].
pub enum ExprView {
    Literal(LiteralView),
    Unary(TokenView, Box<ExprView>),
    Binary(Box<ExprView>, TokenView, Box<ExprView>),
    Grouping(Box<ExprView>),
}

impl<'a> Expr<'a> {
    /// The tree as a mathematical value.
    pub open spec fn model(self) -> ExprView
        decreases self,
    {
        match self {
            Expr::Literal(l) => ExprView::Literal(l@),
            Expr::Unary(op, e) => ExprView::Unary(op@, Box::new((*e).model())),
            Expr::Binary(l, op, r) => ExprView::Binary(
                Box::new((*l).model()),
                op@,
                Box::new((*r).model()),
            ),
            Expr::Grouping(e) => ExprView::Grouping(Box::new((*e).model())),
        }
    }
}

impl<'a> View for Expr<'a> {
    type V = ExprView;

    open spec fn view(&self) -> ExprView {
        self.model()
    }
}

/// Models of trees.
pub open spec fn expr_views(exprs: Seq<Expr>) -> Seq<ExprView> {
    Seq::new(exprs.len(), |i: int| exprs[i]@)
}

/// A literal as the printer writes it: a number in its shortest form, a
/// string as it stands, and the words `true`, `false` and `nil`.
pub open spec fn literal_text(l: LiteralView) -> Seq<char> {
    match l {
        LiteralView::Num(n) => decimal_text(n),
        LiteralView::Str(s) => s,
        LiteralView::Bool(true) => "true"@,
        LiteralView::Bool(false) => "false"@,
        LiteralView::Nil => "nil"@,
    }
}

/// Prefix form of a tree, every node in parentheses but the literals.
pub open spec fn printed(e: ExprView) -> Seq<char>
    decreases e,
{
    match e {
        ExprView::Literal(l) => literal_text(l),
        ExprView::Unary(op, inner) => "("@ + op.lexeme + " "@ + printed(*inner) + ")"@,
        ExprView::Binary(left, op, right) => "("@ + op.lexeme + " "@ + printed(*left) + " "@
            + printed(*right) + ")"@,
        ExprView::Grouping(inner) => "(group "@ + printed(*inner) + ")"@,
    }
}

/// Printer of expression trees.
pub struct AstPrinter {}

impl AstPrinter {
    /// Writes the tree in prefix form.
    pub fn print(expr: &Expr) -> (s: String)
        ensures
            s@ == printed(expr@),
        decreases expr,
    {
        match expr {
            Expr::Literal(literal) => match literal {
                Literal::Num(num) => decimal(num),
                Literal::Str(text) => String::from_str(text),
                Literal::Bool(false) => String::from_str("false"),
                Literal::Bool(true) => String::from_str("true"),
                Literal::Nil => String::from_str("nil"),
            },
            Expr::Unary(op, inner) => {
                let mut s = String::from_str("(");
                s.append(op.lexeme);
                s.append(" ");
                s.append(Self::print(inner).as_str());
                s.append(")");
                s
            },
            Expr::Binary(left, op, right) => {
                let mut s = String::from_str("(");
                s.append(op.lexeme);
                s.append(" ");
                s.append(Self::print(left).as_str());
                s.append(" ");
                s.append(Self::print(right).as_str());
                s.append(")");
                s
            },
            Expr::Grouping(inner) => {
                let mut s = String::from_str("(group ");
                s.append(Self::print(inner).as_str());
                s.append(")");
                s
            },
        }
    }
}

/// Whether some entry of `types` is of the same kind as `kind`.
pub open spec fn listed(types: Seq<TokenType>, kind: TokenKind) -> bool {
    exists|i: int| 0 <= i < types.len() && (#[trigger] types[i])@.same_kind(kind)
}

/// Recursive-descent parser over borrowed tokens. Syntax errors go to
/// `err`; `recovery` says what the parser does after one.
pub struct Parser<'a> {
    pub tokens: Vec<&'a Token<'a>>,
    pub current: usize,
    pub err: ErrorReporter,
    pub recovery: Recovery,
}

/// Whether a statement may start with a token of this kind.
pub fn kind_starts_statement(t: &TokenType) -> (b: bool)
    ensures
        b == starts_statement(t@),
{
    matches!(
        t,
        TokenType::Class | TokenType::Fun | TokenType::Var | TokenType::For | TokenType::If
            | TokenType::While | TokenType::Print | TokenType::Return
    )
}

impl<'a> Parser<'a> {
    /// The tokens as mathematical values.
    pub open spec fn toks(&self) -> Seq<TokenView> {
        borrowed_views(self.tokens@)
    }

    /// The tokens end with an end marker and the cursor is on a token.
    pub open spec fn wf(&self) -> bool {
        &&& closed(self.toks())
        &&& self.current < self.tokens.len()
        &&& self.err.wf()
    }

    /// `self` walks the same tokens as `before`, with the same strategy.
    pub open spec fn same_setup(&self, before: &Parser<'a>) -> bool {
        self.tokens == before.tokens && self.recovery == before.recovery
    }

    /// `self` is `before` after a rule whose outcome is `want` returned
    /// `got`: on success the tree and the cursor are those of `want` and
    /// nothing was reported; on failure nothing is returned, the error of
    /// `want` was reported and the cursor is on the token it complains
    /// about.
    pub open spec fn ruled(&self, before: &Parser<'a>, got: Option<Expr<'a>>, want: Parsed) -> bool {
        &&& self.wf()
        &&& self.same_setup(before)
        &&& match want {
            Parsed::Tree(e, next) => got.is_some() && got.unwrap()@ == e && self.current == next
                && self.err == before.err,
            Parsed::Failed(r, at) => got.is_none() && self.current == at && self.err.log()
                == before.err.log().push(r),
        }
    }

    /// What parsing the rest of the tokens will add to `exprs` and to the
    /// errors recorded so far.
    pub open spec fn pending(&self, exprs: Seq<ExprView>) -> Program {
        parse_from(self.toks(), self.current as int, self.recovery, exprs, self.err.log())
    }

    /// A parser at the first token that resumes after errors.
    pub fn new(tokens: Vec<&'a Token<'a>>) -> (r: Self)
        requires
            closed(borrowed_views(tokens@)),
        ensures
            r.wf(),
            r.tokens == tokens,
            r.current == 0,
            r.recovery == Recovery::Resynchronize,
            !r.err.had_error,
            r.err.log() == Seq::<ReportView>::empty(),
            r.pending(Seq::<ExprView>::empty()) == parse_all(borrowed_views(tokens@)),
    {
        Self { tokens, current: 0, err: ErrorReporter::new(), recovery: Recovery::Resynchronize }
    }

    /// Parses top-level expressions up to the end marker and returns their
    /// trees. A syntax error is recorded in `err`; then the parse ends, or
    /// resumes at the next statement, as `recovery` says.
    pub fn parse(&mut self) -> (r: Vec<Expr<'a>>)
        requires
            old(self).wf(),
        ensures
            final(self).wf(),
            final(self).same_setup(old(self)),
            expr_views(r@) == old(self).pending(Seq::<ExprView>::empty()).exprs,
            final(self).err.log() == old(self).pending(Seq::<ExprView>::empty()).errors,
    {
        let ghost toks = self.toks();
        let ghost goal = self.pending(Seq::<ExprView>::empty());
        let mut expressions: Vec<Expr<'a>> = Vec::new();
        assert(expr_views(expressions@) =~= Seq::<ExprView>::empty());
        while !self.is_eof()
            invariant
                self.wf(),
                self.same_setup(old(self)),
                toks == self.toks(),
                goal == old(self).pending(Seq::<ExprView>::empty()),
                goal == self.pending(expr_views(expressions@)),
            decreases self.tokens@.len() - self.current,
        {
            let ghost done = expr_views(expressions@);
            let ghost pos = self.current as int;
            proof {
                lemma_level_advances(toks, pos, Level::Equality);
            }
            match self.expr() {
                Some(e) => {
                    let ghost model = e@;
                    expressions.push(e);
                    assert(expr_views(expressions@) =~= done.push(model));
                },
                None => {
                    proof {
                        lemma_synchronize(toks, self.current as int);
                    }
                    match self.recovery {
                        Recovery::Abort => {
                            return expressions;
                        },
                        Recovery::Resynchronize => {
                            self.synchronize();
                        },
                    }
                },
            }
        }
        expressions
    }

    /// Drops the offending token and everything up to the next start of a
    /// statement. At the end marker, does nothing.
    fn synchronize(&mut self)
        requires
            old(self).wf(),
        ensures
            final(self).wf(),
            final(self).same_setup(old(self)),
            final(self).err == old(self).err,
            final(self).current == synchronize(old(self).toks(), old(self).current as int),
    {
        if self.is_eof() {
            return ;
        }
        self.current += 1;
        while !self.is_eof() && !self.previous().t.same_kind(&TokenType::Semicolon)
            && !kind_starts_statement(&self.peek().t)
            invariant
                self.wf(),
                self.same_setup(old(self)),
                self.err == old(self).err,
                0 < self.current,
                statement_start(self.toks(), self.current as int) == statement_start(
                    old(self).toks(),
                    old(self).current + 1,
                ),
            decreases self.tokens@.len() - self.current,
        {
            self.current += 1;
        }
    }

    /// `expression`: the loosest rule of the grammar.
    fn expr(&mut self) -> (r: Option<Expr<'a>>)
        requires
            old(self).wf(),
        ensures
            final(self).ruled(
                old(self),
                r,
                parse_expression(old(self).toks(), old(self).current as int),
            ),
        decreases old(self).tokens@.len() - old(self).current, 11int,
    {
        self.equality()
    }

    /// `equality`: comparisons joined by `!=` and `==`.
    fn equality(&mut self) -> (r: Option<Expr<'a>>)
        requires
            old(self).wf(),
        ensures
            final(self).ruled(
                old(self),
                r,
                parse_level(old(self).toks(), old(self).current as int, Level::Equality),
            ),
        decreases old(self).tokens@.len() - old(self).current, 10int,
    {
        let ghost toks = self.toks();
        let ghost goal = parse_level(toks, self.current as int, Level::Equality);
        proof {
            lemma_operand_advances(toks, self.current as int, Level::Equality);
        }
        let mut expr = match self.comparison() {
            Some(e) => e,
            None => {
                return None;
            },
        };
        let ops = [TokenType::BangEqual, TokenType::EqualEqual];
        loop
            invariant
                self.wf(),
                self.same_setup(old(self)),
                self.err == old(self).err,
                toks == self.toks(),
                old(self).current < self.current,
                goal == parse_level(old(self).toks(), old(self).current as int, Level::Equality),
                ops@.len() == 2,
                ops@[0]@ == TokenKind::BangEqual,
                ops@[1]@ == TokenKind::EqualEqual,
                goal == parse_tail(toks, self.current as int, Level::Equality, expr@),
            ensures
                goal == Parsed::Tree(expr@, self.current as int),
            decreases self.tokens@.len() - self.current,
        {
            let ghost kind = toks[self.current as int].kind;
            let found = self.matches(ops.as_slice());
            proof {
                assert(found == Level::Equality.has_operator(kind)) by {
                    if found {
                        let i = choose|i: int| 0 <= i < ops@.len() && (#[trigger] ops@[i])@.same_kind(kind);
                        assert(ops@[i]@.same_kind(kind));
                    } else {
                        assert(!ops@[0]@.same_kind(kind));
                        assert(!ops@[1]@.same_kind(kind));
                    }
                }
            }
            if !found {
                break ;
            }
            let op = self.previous();
            proof {
                lemma_operand_advances(toks, self.current as int, Level::Equality);
            }
            let right = match self.comparison() {
                Some(e) => e,
                None => {
                    return None;
                },
            };
            expr = Expr::Binary(Box::new(expr), op, Box::new(right));
        }
        Some(expr)
    }

    /// `comparison`: terms joined by `<`, `<=`, `>` and `>=`.
    fn comparison(&mut self) -> (r: Option<Expr<'a>>)
        requires
            old(self).wf(),
        ensures
            final(self).ruled(
                old(self),
                r,
                parse_level(old(self).toks(), old(self).current as int, Level::Comparison),
            ),
        decreases old(self).tokens@.len() - old(self).current, 8int,
    {
        let ghost toks = self.toks();
        let ghost goal = parse_level(toks, self.current as int, Level::Comparison);
        proof {
            lemma_operand_advances(toks, self.current as int, Level::Comparison);
        }
        let mut expr = match self.term() {
            Some(e) => e,
            None => {
                return None;
            },
        };
        let ops = [TokenType::Less, TokenType::LessEqual, TokenType::Greater, TokenType::GreaterEqual];
        loop
            invariant
                self.wf(),
                self.same_setup(old(self)),
                self.err == old(self).err,
                toks == self.toks(),
                old(self).current < self.current,
                goal == parse_level(old(self).toks(), old(self).current as int, Level::Comparison),
                ops@.len() == 4,
                ops@[0]@ == TokenKind::Less,
                ops@[1]@ == TokenKind::LessEqual,
                ops@[2]@ == TokenKind::Greater,
                ops@[3]@ == TokenKind::GreaterEqual,
                goal == parse_tail(toks, self.current as int, Level::Comparison, expr@),
            ensures
                goal == Parsed::Tree(expr@, self.current as int),
            decreases self.tokens@.len() - self.current,
        {
            let ghost kind = toks[self.current as int].kind;
            let found = self.matches(ops.as_slice());
            proof {
                assert(found == Level::Comparison.has_operator(kind)) by {
                    if found {
                        let i = choose|i: int| 0 <= i < ops@.len() && (#[trigger] ops@[i])@.same_kind(kind);
                        assert(ops@[i]@.same_kind(kind));
                    } else {
                        assert(!ops@[0]@.same_kind(kind));
                        assert(!ops@[1]@.same_kind(kind));
                        assert(!ops@[2]@.same_kind(kind));
                        assert(!ops@[3]@.same_kind(kind));
                    }
                }
            }
            if !found {
                break ;
            }
            let op = self.previous();
            proof {
                lemma_operand_advances(toks, self.current as int, Level::Comparison);
            }
            let right = match self.term() {
                Some(e) => e,
                None => {
                    return None;
                },
            };
            expr = Expr::Binary(Box::new(expr), op, Box::new(right));
        }
        Some(expr)
    }

    /// `term`: factors joined by `+` and `-`.
    fn term(&mut self) -> (r: Option<Expr<'a>>)
        requires
            old(self).wf(),
        ensures
            final(self).ruled(
                old(self),
                r,
                parse_level(old(self).toks(), old(self).current as int, Level::Term),
            ),
        decreases old(self).tokens@.len() - old(self).current, 6int,
    {
        let ghost toks = self.toks();
        let ghost goal = parse_level(toks, self.current as int, Level::Term);
        proof {
            lemma_operand_advances(toks, self.current as int, Level::Term);
        }
        let mut expr = match self.factor() {
            Some(e) => e,
            None => {
                return None;
            },
        };
        let ops = [TokenType::Plus, TokenType::Minus];
        loop
            invariant
                self.wf(),
                self.same_setup(old(self)),
                self.err == old(self).err,
                toks == self.toks(),
                old(self).current < self.current,
                goal == parse_level(old(self).toks(), old(self).current as int, Level::Term),
                ops@.len() == 2,
                ops@[0]@ == TokenKind::Plus,
                ops@[1]@ == TokenKind::Minus,
                goal == parse_tail(toks, self.current as int, Level::Term, expr@),
            ensures
                goal == Parsed::Tree(expr@, self.current as int),
            decreases self.tokens@.len() - self.current,
        {
            let ghost kind = toks[self.current as int].kind;
            let found = self.matches(ops.as_slice());
            proof {
                assert(found == Level::Term.has_operator(kind)) by {
                    if found {
                        let i = choose|i: int| 0 <= i < ops@.len() && (#[trigger] ops@[i])@.same_kind(kind);
                        assert(ops@[i]@.same_kind(kind));
                    } else {
                        assert(!ops@[0]@.same_kind(kind));
                        assert(!ops@[1]@.same_kind(kind));
                    }
                }
            }
            if !found {
                break ;
            }
            let op = self.previous();
            proof {
                lemma_operand_advances(toks, self.current as int, Level::Term);
            }
            let right = match self.factor() {
                Some(e) => e,
                None => {
                    return None;
                },
            };
            expr = Expr::Binary(Box::new(expr), op, Box::new(right));
        }
        Some(expr)
    }

    /// `factor`: unary expressions joined by `*` and `/`.
    fn factor(&mut self) -> (r: Option<Expr<'a>>)
        requires
            old(self).wf(),
        ensures
            final(self).ruled(
                old(self),
                r,
                parse_level(old(self).toks(), old(self).current as int, Level::Factor),
            ),
        decreases old(self).tokens@.len() - old(self).current, 4int,
    {
        let ghost toks = self.toks();
        let ghost goal = parse_level(toks, self.current as int, Level::Factor);
        proof {
            lemma_operand_advances(toks, self.current as int, Level::Factor);
        }
        let mut expr = match self.unary() {
            Some(e) => e,
            None => {
                return None;
            },
        };
        let ops = [TokenType::Star, TokenType::Slash];
        loop
            invariant
                self.wf(),
                self.same_setup(old(self)),
                self.err == old(self).err,
                toks == self.toks(),
                old(self).current < self.current,
                goal == parse_level(old(self).toks(), old(self).current as int, Level::Factor),
                ops@.len() == 2,
                ops@[0]@ == TokenKind::Star,
                ops@[1]@ == TokenKind::Slash,
                goal == parse_tail(toks, self.current as int, Level::Factor, expr@),
            ensures
                goal == Parsed::Tree(expr@, self.current as int),
            decreases self.tokens@.len() - self.current,
        {
            let ghost kind = toks[self.current as int].kind;
            let found = self.matches(ops.as_slice());
            proof {
                assert(found == Level::Factor.has_operator(kind)) by {
                    if found {
                        let i = choose|i: int| 0 <= i < ops@.len() && (#[trigger] ops@[i])@.same_kind(kind);
                        assert(ops@[i]@.same_kind(kind));
                    } else {
                        assert(!ops@[0]@.same_kind(kind));
                        assert(!ops@[1]@.same_kind(kind));
                    }
                }
            }
            if !found {
                break ;
            }
            let op = self.previous();
            proof {
                lemma_operand_advances(toks, self.current as int, Level::Factor);
            }
            let right = match self.unary() {
                Some(e) => e,
                None => {
                    return None;
                },
            };
            expr = Expr::Binary(Box::new(expr), op, Box::new(right));
        }
        Some(expr)
    }

    /// `unary`: a prefix operator and its operand, or a primary.
    fn unary(&mut self) -> (r: Option<Expr<'a>>)
        requires
            old(self).wf(),
        ensures
            final(self).ruled(old(self), r, parse_unary(old(self).toks(), old(self).current as int)),
        decreases old(self).tokens@.len() - old(self).current, 1int,
    {
        let ghost kind = self.toks()[self.current as int].kind;
        let ops = [TokenType::Bang, TokenType::Minus];
        let found = self.matches(ops.as_slice());
        proof {
            assert(found == is_prefix(kind)) by {
                if found {
                    let i = choose|i: int|
                        0 <= i < ops@.len() && (#[trigger] ops@[i])@.same_kind(kind);
                    assert(ops@[i]@.same_kind(kind));
                } else {
                    assert(!ops@[0]@.same_kind(kind));
                    assert(!ops@[1]@.same_kind(kind));
                }
            }
        }
        if found {
            let op = self.previous();
            match self.unary() {
                Some(right) => Some(Expr::Unary(op, Box::new(right))),
                None => None,
            }
        } else {
            self.primary()
        }
    }

    /// `primary`: a literal, or an expression in parentheses.
    fn primary(&mut self) -> (r: Option<Expr<'a>>)
        requires
            old(self).wf(),
        ensures
            final(self).ruled(
                old(self),
                r,
                parse_primary(old(self).toks(), old(self).current as int),
            ),
        decreases old(self).tokens@.len() - old(self).current, 0int,
    {
        let ghost toks = self.toks();
        let token = self.peek();
        let expr = match &token.t {
            TokenType::False => Expr::Literal(Literal::Bool(false)),
            TokenType::True => Expr::Literal(Literal::Bool(true)),
            TokenType::Nil => Expr::Literal(Literal::Nil),
            TokenType::Str(text) => Expr::Literal(Literal::Str(*text)),
            TokenType::Num(text) => Expr::Literal(Literal::Num(*text)),
            TokenType::LeftParen => {
                self.current += 1;
                proof {
                    lemma_level_advances(toks, self.current as int, Level::Equality);
                }
                let inner = match self.expr() {
                    Some(e) => e,
                    None => {
                        return None;
                    },
                };
                let ghost kind = toks[self.current as int].kind;
                let ops = [TokenType::RightParen];
                let found = self.matches(ops.as_slice());
                proof {
                    assert(found == (kind == TokenKind::RightParen)) by {
                        if found {
                            let i = choose|i: int|
                                0 <= i < ops@.len() && (#[trigger] ops@[i])@.same_kind(kind);
                            assert(ops@[i]@.same_kind(kind));
                        } else {
                            assert(!ops@[0]@.same_kind(kind));
                        }
                    }
                }
                if !found {
                    let here = self.peek();
                    self.complain(here, "Expected ')' after expression.");
                    return None;
                }
                return Some(Expr::Grouping(Box::new(inner)));
            },
            _ => {
                self.complain(token, "Expected expression.");
                return None;
            },
        };
        self.current += 1;
        Some(expr)
    }

    /// Reports a syntax error at `token`, with the token as its location.
    fn complain(&mut self, token: &Token, message: &str)
        requires
            old(self).wf(),
        ensures
            final(self).wf(),
            final(self).same_setup(old(self)),
            final(self).current == old(self).current,
            final(self).err.log() == old(self).err.log().push(syntax_error(token@, message@)),
    {
        if token.t.same_kind(&TokenType::EOF) {
            self.err.report(token.line, "at end", message);
        } else {
            let mut location = String::from_str("at '");
            location.append(token.lexeme);
            location.append("'");
            self.err.report(token.line, location.as_str(), message);
        }
    }

    /// Consumes the token under the cursor where its kind is one of `types`,
    /// whatever its payload. The end marker is never consumed.
    fn matches(&mut self, types: &[TokenType]) -> (b: bool)
        requires
            old(self).wf(),
        ensures
            b == listed(types@, old(self).toks()[old(self).current as int].kind),
            final(self).wf(),
            final(self).same_setup(old(self)),
            final(self).err == old(self).err,
            final(self).current == if b && old(self).toks()[old(self).current as int].kind
                != TokenKind::EOF {
                old(self).current + 1
            } else {
                old(self).current as int
            },
    {
        let mut i: usize = 0;
        while i < types.len()
            invariant
                i <= types@.len(),
                self.wf(),
                *self == *old(self),
                forall|j: int|
                    0 <= j < i ==> !(#[trigger] types@[j])@.same_kind(
                        self.toks()[self.current as int].kind,
                    ),
            decreases types@.len() - i,
        {
            if self.peek().t.same_kind(&types[i]) {
                self.advance();
                return true;
            }
            i += 1;
        }
        false
    }

    /// Moves past the token under the cursor, unless it is the end marker,
    /// and returns that token.
    fn advance(&mut self) -> (t: &'a Token<'a>)
        requires
            old(self).wf(),
        ensures
            final(self).wf(),
            final(self).same_setup(old(self)),
            final(self).err == old(self).err,
            final(self).current == if old(self).toks()[old(self).current as int].kind
                != TokenKind::EOF {
                old(self).current + 1
            } else {
                old(self).current as int
            },
            t == old(self).tokens@[old(self).current as int],
    {
        let t = self.peek();
        if !self.is_eof() {
            self.current += 1;
        }
        t
    }

    /// The token under the cursor.
    fn peek(&self) -> (t: &'a Token<'a>)
        requires
            self.wf(),
        ensures
            t == self.tokens@[self.current as int],
            t@ == self.toks()[self.current as int],
    {
        self.tokens[self.current]
    }

    /// The token before the cursor.
    fn previous(&self) -> (t: &'a Token<'a>)
        requires
            self.wf(),
            self.current > 0,
        ensures
            t == self.tokens@[self.current - 1],
            t@ == self.toks()[self.current - 1],
    {
        self.tokens[self.current - 1]
    }

    /// Whether the cursor is on an end marker.
    fn is_eof(&self) -> (b: bool)
        requires
            self.wf(),
        ensures
            b == (self.toks()[self.current as int].kind == TokenKind::EOF),
    {
        self.peek().t.same_kind(&TokenType::EOF)
    }
}

/// Printing is a function of the tree alone: whatever texts two runs of the
/// printer return for trees with the same model, they are the same text.
pub proof fn lemma_print_deterministic(a: Expr, b: Expr, first: String, second: String)
    requires
        a@ == b@,
        first@ == printed(a@),
        second@ == printed(b@),
    ensures
        first@ == second@,
{
}

} // verus!
