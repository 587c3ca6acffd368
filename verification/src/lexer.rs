use vstd::prelude::*;
use vstd::string::StrSliceExecFns;
use vstd::string::StringExecFns;
use crate::error::ErrorReporter;
use crate::scan::CharClass;
use crate::scan::Scanned;
use crate::scan::Step;
use crate::scan::char_at;
use crate::scan::emit;
use crate::scan::end_marker;
use crate::scan::is_alnum;
use crate::scan::is_alpha;
use crate::scan::is_digit;
use crate::scan::keyword_kind;
use crate::scan::lemma_scan_closed;
use crate::scan::lemma_step_advances;
use crate::scan::newlines;
use crate::scan::number_end;
use crate::scan::push_opt;
use crate::scan::run_end;
use crate::scan::scan;
use crate::scan::scan_from;
use crate::scan::scan_step;
use crate::scan::string_step;
use crate::token::Token;
use crate::token::TokenKind;
use crate::token::TokenType;
use crate::token::TokenView;
use crate::token::closed;
use crate::token::token_views;

verus! {

/// Whether `c` is an ASCII digit.
pub fn char_is_digit(c: char) -> (b: bool)
    ensures
        b == is_digit(c),
{
    '0' <= c && c <= '9'
}

/// Whether `c` is an ASCII letter.
pub fn char_is_alpha(c: char) -> (b: bool)
    ensures
        b == is_alpha(c),
{
    ('a' <= c && c <= 'z') || ('A' <= c && c <= 'Z')
}

/// Whether `c` is an ASCII letter or digit.
pub fn char_is_alnum(c: char) -> (b: bool)
    ensures
        b == is_alnum(c),
{
    char_is_alpha(c) || char_is_digit(c)
}

/// Whether two texts hold the same characters.
pub fn same_text(a: &str, b: &str) -> (r: bool)
    ensures
        r == (a@ == b@),
{
    let n: usize = a.unicode_len();
    if n != b.unicode_len() {
        return false;
    }
    let mut i: usize = 0;
    while i < n
        invariant
            i <= n,
            n == a@.len(),
            n == b@.len(),
            forall|j: int| 0 <= j < i ==> a@[j] == b@[j],
        decreases n - i,
    {
        if a.get_char(i) != b.get_char(i) {
            return false;
        }
        i += 1;
    }
    assert(a@ =~= b@);
    true
}

/// Looks an identifier-shaped lexeme up in the keyword table.
pub fn keyword<'a>(lexeme: &str) -> (t: TokenType<'a>)
    ensures
        t@ == keyword_kind(lexeme@),
{
    if same_text(lexeme, "and") {
        TokenType::And
    } else if same_text(lexeme, "class") {
        TokenType::Class
    } else if same_text(lexeme, "else") {
        TokenType::Else
    } else if same_text(lexeme, "false") {
        TokenType::False
    } else if same_text(lexeme, "for") {
        TokenType::For
    } else if same_text(lexeme, "fun") {
        TokenType::Fun
    } else if same_text(lexeme, "if") {
        TokenType::If
    } else if same_text(lexeme, "nil") {
        TokenType::Nil
    } else if same_text(lexeme, "or") {
        TokenType::Or
    } else if same_text(lexeme, "print") {
        TokenType::Print
    } else if same_text(lexeme, "return") {
        TokenType::Return
    } else if same_text(lexeme, "super") {
        TokenType::Super
    } else if same_text(lexeme, "this") {
        TokenType::This
    } else if same_text(lexeme, "true") {
        TokenType::True
    } else if same_text(lexeme, "var") {
        TokenType::Var
    } else if same_text(lexeme, "while") {
        TokenType::While
    } else {
        TokenType::Id
    }
}

/// Scanner state: the text, the tokens produced so far, the start of the
/// lexeme in progress, the cursor, the line counter and the error sink.
pub struct Lexer<'a> {
    pub source: &'a str,
    pub tokens: Vec<Token<'a>>,
    pub start: usize,
    pub current: usize,
    pub line: usize,
    pub err: ErrorReporter,
}

impl<'a> Lexer<'a> {
    /// The cursor is inside the text or at its end, the lexeme in progress
    /// starts at or before it, and the line counter cannot overflow.
    pub open spec fn wf(&self) -> bool {
        &&& self.start <= self.current <= self.source@.len()
        &&& self.source@.len() < usize::MAX
        &&& self.line <= self.current + 1
        &&& self.err.wf()
    }

    /// What scanning the rest of the text will add to what is already there.
    pub open spec fn pending(&self) -> Scanned {
        scan_from(
            self.source@,
            self.current as int,
            self.line as nat,
            token_views(self.tokens@),
            self.err.log(),
        )
    }

    /// `self` is `before` after the step `s`.
    pub open spec fn stepped(&self, before: &Lexer<'a>, s: Step) -> bool {
        &&& self.wf()
        &&& self.source@ == before.source@
        &&& self.start == before.start
        &&& self.current == s.next
        &&& self.line == s.line
        &&& token_views(self.tokens@) == push_opt(token_views(before.tokens@), s.token)
        &&& self.err.log() == push_opt(before.err.log(), s.error)
    }

    /// `self` is `before` with the cursor at `current`.
    pub open spec fn moved(&self, before: &Lexer<'a>, current: int) -> bool {
        &&& self.source == before.source
        &&& self.tokens == before.tokens
        &&& self.start == before.start
        &&& self.current == current
        &&& self.line == before.line
        &&& self.err == before.err
    }

    /// A scanner at the start of `source`, on line one.
    pub fn new(source: &'a str) -> (r: Self)
        requires
            source@.len() < usize::MAX,
        ensures
            r.wf(),
            r.source@ == source@,
            r.pending() == scan(source@),
    {
        let r = Self {
            source,
            tokens: Vec::new(),
            start: 0,
            current: 0,
            line: 1,
            err: ErrorReporter::new(),
        };
        assert(token_views(r.tokens@) =~= Seq::<TokenView>::empty());
        r
    }

    /// Scans the rest of the text. Returns the tokens, closed by the end
    /// marker, and the sink that holds the lexical errors.
    pub fn tokenize(self) -> (r: (Vec<Token<'a>>, ErrorReporter))
        requires
            self.wf(),
        ensures
            token_views(r.0@) == self.pending().tokens,
            r.1.log() == self.pending().errors,
            r.1.wf(),
            closed(token_views(r.0@)),
    {
        proof {
            lemma_scan_closed(
                self.source@,
                self.current as int,
                self.line as nat,
                token_views(self.tokens@),
                self.err.log(),
            );
        }
        let mut lexer = self;
        while !lexer.is_end_of_file()
            invariant
                lexer.wf(),
                lexer.pending() == self.pending(),
            decreases lexer.source@.len() - lexer.current,
        {
            lexer.start = lexer.current;
            let ghost before = lexer;
            lexer.scan_token();
            proof {
                lemma_step_advances(before.source@, before.current as int, before.line as nat);
            }
        }
        let ghost done = token_views(lexer.tokens@);
        lexer.tokens.push(Token::new(TokenType::EOF, "", lexer.line));
        proof {
            reveal_strlit("");
            assert(""@ =~= Seq::<char>::empty());
            assert(token_views(lexer.tokens@) =~= done.push(end_marker(lexer.line as nat)));
        }
        (lexer.tokens, lexer.err)
    }

    /// Scans one token, comment or blank, or reports one character.
    fn scan_token(&mut self)
        requires
            old(self).wf(),
            old(self).start == old(self).current,
            old(self).current < old(self).source@.len(),
        ensures
            final(self).stepped(
                old(self),
                scan_step(old(self).source@, old(self).start as int, old(self).line as nat),
            ),
    {
        proof {
            lemma_step_advances(self.source@, self.start as int, self.line as nat);
        }
        let c = self.advance();
        if c == '(' {
            self.add_token(TokenType::LeftParen);
        } else if c == ')' {
            self.add_token(TokenType::RightParen);
        } else if c == '{' {
            self.add_token(TokenType::LeftBrace);
        } else if c == '}' {
            self.add_token(TokenType::RightBrace);
        } else if c == ',' {
            self.add_token(TokenType::Comma);
        } else if c == '.' {
            self.add_token(TokenType::Dot);
        } else if c == '-' {
            self.add_token(TokenType::Minus);
        } else if c == '+' {
            self.add_token(TokenType::Plus);
        } else if c == ';' {
            self.add_token(TokenType::Semicolon);
        } else if c == '*' {
            self.add_token(TokenType::Star);
        } else if c == '!' {
            let t = if self.take('=') {
                TokenType::BangEqual
            } else {
                TokenType::Bang
            };
            self.add_token(t);
        } else if c == '=' {
            let t = if self.take('=') {
                TokenType::EqualEqual
            } else {
                TokenType::Equal
            };
            self.add_token(t);
        } else if c == '<' {
            let t = if self.take('=') {
                TokenType::LessEqual
            } else {
                TokenType::Less
            };
            self.add_token(t);
        } else if c == '>' {
            let t = if self.take('=') {
                TokenType::GreaterEqual
            } else {
                TokenType::Greater
            };
            self.add_token(t);
        } else if c == '/' {
            if self.take('/') {
                while self.peek() != '\n' && !self.is_end_of_file()
                    invariant
                        self.wf(),
                        self.moved(old(self), self.current as int),
                        old(self).start + 2 <= self.current,
                        run_end(self.source@, self.current as int, CharClass::NotNewline)
                            == run_end(
                            self.source@,
                            old(self).start + 2,
                            CharClass::NotNewline,
                        ),
                    decreases self.source@.len() - self.current,
                {
                    self.advance();
                }
            } else {
                self.add_token(TokenType::Slash);
            }
        } else if c == '"' {
            self.string();
        } else if char_is_digit(c) {
            self.number();
        } else if char_is_alpha(c) {
            self.identifier();
        } else if c == '\n' {
            self.line += 1;
        } else if c == ' ' || c == '\r' || c == '\t' {
            // Blanks separate tokens and produce none.
        } else {
            let mut msg = String::from_str("unexpected ");
            msg.append(self.source.substring_char(self.start, self.current));
            msg.append(".");
            proof {
                assert(self.source@.subrange(self.start as int, self.current as int) =~= seq![c]);
            }
            self.err.error(self.line, msg.as_str());
        }
    }

    /// Consumes and returns the character under the cursor; at the end of
    /// the text, returns NUL and consumes nothing.
    fn advance(&mut self) -> (c: char)
        requires
            old(self).wf(),
        ensures
            c == char_at(old(self).source@, old(self).current as int),
            final(self).wf(),
            final(self).moved(
                old(self),
                if old(self).current < old(self).source@.len() {
                    old(self).current + 1
                } else {
                    old(self).current as int
                },
            ),
    {
        if self.current < self.source.unicode_len() {
            let c = self.source.get_char(self.current);
            self.current += 1;
            c
        } else {
            '\0'
        }
    }

    /// Consumes the character under the cursor where it is `what`.
    fn take(&mut self, what: char) -> (b: bool)
        requires
            old(self).wf(),
        ensures
            b == (old(self).current < old(self).source@.len() && old(self).source@[old(
                self,
            ).current as int] == what),
            final(self).wf(),
            final(self).moved(
                old(self),
                if b {
                    old(self).current + 1
                } else {
                    old(self).current as int
                },
            ),
    {
        if self.current < self.source.unicode_len() && self.source.get_char(self.current) == what {
            self.current += 1;
            true
        } else {
            false
        }
    }

    /// The character under the cursor, or NUL at the end of the text.
    fn peek(&self) -> (c: char)
        requires
            self.wf(),
        ensures
            c == char_at(self.source@, self.current as int),
    {
        if self.current < self.source.unicode_len() {
            self.source.get_char(self.current)
        } else {
            '\0'
        }
    }

    /// The character after the one under the cursor, or NUL past the end.
    fn peek_next(&self) -> (c: char)
        requires
            self.wf(),
        ensures
            c == char_at(self.source@, self.current + 1),
    {
        if self.current + 1 < self.source.unicode_len() {
            self.source.get_char(self.current + 1)
        } else {
            '\0'
        }
    }

    /// Scans a string literal whose opening quote was just consumed.
    fn string(&mut self)
        requires
            old(self).wf(),
            old(self).start + 1 == old(self).current,
            old(self).line <= old(self).start + 1,
        ensures
            final(self).stepped(
                old(self),
                string_step(old(self).source@, old(self).start as int, old(self).line as nat),
            ),
    {
        let first: usize = self.line;
        while self.peek() != '"' && !self.is_end_of_file()
            invariant
                self.wf(),
                self.source == old(self).source,
                self.tokens == old(self).tokens,
                self.start == old(self).start,
                self.err == old(self).err,
                first == old(self).line,
                old(self).current <= self.current,
                self.line == first + newlines(
                    self.source@,
                    old(self).current as int,
                    self.current as int,
                ),
                self.line <= self.current,
                run_end(self.source@, self.current as int, CharClass::NotQuote) == run_end(
                    self.source@,
                    old(self).current as int,
                    CharClass::NotQuote,
                ),
            decreases self.source@.len() - self.current,
        {
            if self.peek() == '\n' {
                self.line += 1;
            }
            self.advance();
        }
        if self.is_end_of_file() {
            self.err.error(self.line, "Unterminated string.");
            return ;
        }
        self.advance();
        let text = self.source.substring_char(self.start + 1, self.current - 1);
        let lexeme = self.source.substring_char(self.start, self.current);
        let ghost done = token_views(self.tokens@);
        self.tokens.push(Token::new(TokenType::Str(text), lexeme, first));
        proof {
            assert(token_views(self.tokens@) =~= done.push(
                TokenView {
                    kind: TokenKind::Str(text@),
                    lexeme: lexeme@,
                    line: first as nat,
                },
            ));
        }
    }

    /// Scans a number whose first digit was just consumed.
    fn number(&mut self)
        requires
            old(self).wf(),
            old(self).start + 1 == old(self).current,
            is_digit(old(self).source@[old(self).start as int]),
        ensures
            final(self).stepped(
                old(self),
                emit(
                    old(self).source@,
                    old(self).start as int,
                    number_end(old(self).source@, old(self).start as int),
                    old(self).line as nat,
                    TokenKind::Num(
                        old(self).source@.subrange(
                            old(self).start as int,
                            number_end(old(self).source@, old(self).start as int),
                        ),
                    ),
                ),
            ),
    {
        while char_is_digit(self.peek())
            invariant
                self.wf(),
                self.moved(old(self), self.current as int),
                old(self).current <= self.current,
                run_end(self.source@, self.current as int, CharClass::Digit) == run_end(
                    self.source@,
                    old(self).start as int,
                    CharClass::Digit,
                ),
            decreases self.source@.len() - self.current,
        {
            self.advance();
        }
        if self.peek() == '.' && char_is_digit(self.peek_next()) {
            self.advance();
            while char_is_digit(self.peek())
                invariant
                    self.wf(),
                    self.moved(old(self), self.current as int),
                    old(self).current <= self.current,
                    run_end(self.source@, self.current as int, CharClass::Digit) == number_end(
                        self.source@,
                        old(self).start as int,
                    ),
                decreases self.source@.len() - self.current,
            {
                self.advance();
            }
        }
        let lexeme = self.source.substring_char(self.start, self.current);
        self.add_token(TokenType::Num(lexeme));
    }

    /// Scans an identifier or a keyword whose first letter was just consumed.
    fn identifier(&mut self)
        requires
            old(self).wf(),
            old(self).start + 1 == old(self).current,
        ensures
            final(self).stepped(
                old(self),
                emit(
                    old(self).source@,
                    old(self).start as int,
                    run_end(old(self).source@, old(self).start + 1, CharClass::Alnum),
                    old(self).line as nat,
                    keyword_kind(
                        old(self).source@.subrange(
                            old(self).start as int,
                            run_end(old(self).source@, old(self).start + 1, CharClass::Alnum),
                        ),
                    ),
                ),
            ),
    {
        while char_is_alnum(self.peek())
            invariant
                self.wf(),
                self.moved(old(self), self.current as int),
                old(self).current <= self.current,
                run_end(self.source@, self.current as int, CharClass::Alnum) == run_end(
                    self.source@,
                    old(self).start + 1,
                    CharClass::Alnum,
                ),
            decreases self.source@.len() - self.current,
        {
            self.advance();
        }
        let lexeme = self.source.substring_char(self.start, self.current);
        let t = keyword(lexeme);
        let ghost done = token_views(self.tokens@);
        self.tokens.push(Token::new(t, lexeme, self.line));
        proof {
            assert(token_views(self.tokens@) =~= done.push(
                TokenView { kind: t@, lexeme: lexeme@, line: self.line as nat },
            ));
        }
    }

    /// Emits the lexeme in progress as a token of kind `t`.
    fn add_token(&mut self, t: TokenType<'a>)
        requires
            old(self).wf(),
        ensures
            final(self).stepped(
                old(self),
                emit(
                    old(self).source@,
                    old(self).start as int,
                    old(self).current as int,
                    old(self).line as nat,
                    t@,
                ),
            ),
    {
        let lexeme = self.source.substring_char(self.start, self.current);
        let ghost done = token_views(self.tokens@);
        let ghost kind = t@;
        self.tokens.push(Token::new(t, lexeme, self.line));
        proof {
            assert(token_views(self.tokens@) =~= done.push(
                TokenView { kind, lexeme: lexeme@, line: self.line as nat },
            ));
        }
    }

    /// Whether the cursor is at the end of the text.
    fn is_end_of_file(&self) -> (b: bool)
        ensures
            b == (self.current >= self.source@.len()),
    {
        self.current >= self.source.unicode_len()
    }
}

} // verus!
