use vstd::prelude::*;
use crate::error::ReportView;
use crate::token::TokenKind;
use crate::token::TokenView;
use crate::token::closed;

verus! {

/// An ASCII digit.
pub open spec fn is_digit(c: char) -> bool {
    '0' <= c && c <= '9'
}

/// An ASCII letter.
pub open spec fn is_alpha(c: char) -> bool {
    ('a' <= c && c <= 'z') || ('A' <= c && c <= 'Z')
}

/// An ASCII letter or digit.
pub open spec fn is_alnum(c: char) -> bool {
    is_alpha(c) || is_digit(c)
}

/// The classes of characters that the scanner consumes in runs.
pub enum CharClass {
    Digit,
    Alnum,
    NotNewline,
    NotQuote,
}

impl CharClass {
    /// Whether `c` belongs to the class.
    pub open spec fn holds(self, c: char) -> bool {
        match self {
            CharClass::Digit => is_digit(c),
            CharClass::Alnum => is_alnum(c),
            CharClass::NotNewline => c != '\n',
            CharClass::NotQuote => c != '"',
        }
    }
}

/// The character at `i`, or NUL past either end.
pub open spec fn char_at(src: Seq<char>, i: int) -> char {
    if 0 <= i < src.len() {
        src[i]
    } else {
        '\0'
    }
}

/// End of the longest run of `class` characters that starts at `pos`: the
/// first position from `pos` on whose character is outside the class, or the
/// end of the text.
pub open spec fn run_end(src: Seq<char>, pos: int, class: CharClass) -> int
    decreases src.len() - pos,
{
    if 0 <= pos < src.len() && class.holds(src[pos]) {
        run_end(src, pos + 1, class)
    } else {
        pos
    }
}

/// Number of newline characters in `src[from..to]`.
pub open spec fn newlines(src: Seq<char>, from: int, to: int) -> nat
    decreases to - from,
{
    if from >= to {
        0
    } else {
        newlines(src, from, to - 1) + if char_at(src, to - 1) == '\n' {
            1nat
        } else {
            0nat
        }
    }
}

/// End of the number that starts at `start`: a run of digits, then a dot and
/// a second run only where a digit follows the dot.
pub open spec fn number_end(src: Seq<char>, start: int) -> int {
    let whole = run_end(src, start, CharClass::Digit);
    if char_at(src, whole) == '.' && is_digit(char_at(src, whole + 1)) {
        run_end(src, whole + 1, CharClass::Digit)
    } else {
        whole
    }
}

/// Kind of an identifier-shaped lexeme: its keyword, or `Id`.
pub open spec fn keyword_kind(text: Seq<char>) -> TokenKind {
    if text == "and"@ {
        TokenKind::And
    } else if text == "class"@ {
        TokenKind::Class
    } else if text == "else"@ {
        TokenKind::Else
    } else if text == "false"@ {
        TokenKind::False
    } else if text == "for"@ {
        TokenKind::For
    } else if text == "fun"@ {
        TokenKind::Fun
    } else if text == "if"@ {
        TokenKind::If
    } else if text == "nil"@ {
        TokenKind::Nil
    } else if text == "or"@ {
        TokenKind::Or
    } else if text == "print"@ {
        TokenKind::Print
    } else if text == "return"@ {
        TokenKind::Return
    } else if text == "super"@ {
        TokenKind::Super
    } else if text == "this"@ {
        TokenKind::This
    } else if text == "true"@ {
        TokenKind::True
    } else if text == "var"@ {
        TokenKind::Var
    } else if text == "while"@ {
        TokenKind::While
    } else {
        TokenKind::Id
    }
}

/// The complaint about a character that starts no token.
pub open spec fn unexpected_message(c: char) -> Seq<char> {
    "unexpected "@ + seq![c] + "."@
}

/// The complaint about a string that the text's end cuts short.
pub open spec fn unterminated_message() -> Seq<char> {
    "Unterminated string."@
}

/// A lexical error at `line`; such errors carry no location text.
pub open spec fn lexical_error(line: nat, message: Seq<char>) -> ReportView {
    ReportView { line, location: Seq::<char>::empty(), message }
}

/// What one step of the scanner does: where the cursor and the line counter
/// stand afterwards, and the token or the error that the step produced.
pub struct Step {
    pub next: int,
    pub line: nat,
    pub token: Option<TokenView>,
    pub error: Option<ReportView>,
}

/// A step that emits `src[start..end]` as a token of `kind`.
pub open spec fn emit(src: Seq<char>, start: int, end: int, line: nat, kind: TokenKind) -> Step {
    Step {
        next: end,
        line,
        token: Some(TokenView { kind, lexeme: src.subrange(start, end), line }),
        error: None,
    }
}

/// A step that consumes text without producing anything.
pub open spec fn skip(end: int, line: nat) -> Step {
    Step { next: end, line, token: None, error: None }
}

/// An operator that grows by one character where `=` follows.
pub open spec fn with_equal(
    src: Seq<char>,
    start: int,
    line: nat,
    long: TokenKind,
    short: TokenKind,
) -> Step {
    if char_at(src, start + 1) == '=' {
        emit(src, start, start + 2, line, long)
    } else {
        emit(src, start, start + 1, line, short)
    }
}

/// A string literal, whose opening quote is at `start`.
pub open spec fn string_step(src: Seq<char>, start: int, line: nat) -> Step {
    let close = run_end(src, start + 1, CharClass::NotQuote);
    let after = line + newlines(src, start + 1, close);
    if close >= src.len() {
        Step {
            next: close,
            line: after,
            token: None,
            error: Some(lexical_error(after, unterminated_message())),
        }
    } else {
        Step {
            next: close + 1,
            line: after,
            token: Some(
                TokenView {
                    kind: TokenKind::Str(src.subrange(start + 1, close)),
                    lexeme: src.subrange(start, close + 1),
                    line,
                },
            ),
            error: None,
        }
    }
}

/// The step that the scanner takes at `start`, a position inside the text.
pub open spec fn scan_step(src: Seq<char>, start: int, line: nat) -> Step {
    let c = char_at(src, start);
    if c == '(' {
        emit(src, start, start + 1, line, TokenKind::LeftParen)
    } else if c == ')' {
        emit(src, start, start + 1, line, TokenKind::RightParen)
    } else if c == '{' {
        emit(src, start, start + 1, line, TokenKind::LeftBrace)
    } else if c == '}' {
        emit(src, start, start + 1, line, TokenKind::RightBrace)
    } else if c == ',' {
        emit(src, start, start + 1, line, TokenKind::Comma)
    } else if c == '.' {
        emit(src, start, start + 1, line, TokenKind::Dot)
    } else if c == '-' {
        emit(src, start, start + 1, line, TokenKind::Minus)
    } else if c == '+' {
        emit(src, start, start + 1, line, TokenKind::Plus)
    } else if c == ';' {
        emit(src, start, start + 1, line, TokenKind::Semicolon)
    } else if c == '*' {
        emit(src, start, start + 1, line, TokenKind::Star)
    } else if c == '!' {
        with_equal(src, start, line, TokenKind::BangEqual, TokenKind::Bang)
    } else if c == '=' {
        with_equal(src, start, line, TokenKind::EqualEqual, TokenKind::Equal)
    } else if c == '<' {
        with_equal(src, start, line, TokenKind::LessEqual, TokenKind::Less)
    } else if c == '>' {
        with_equal(src, start, line, TokenKind::GreaterEqual, TokenKind::Greater)
    } else if c == '/' {
        if char_at(src, start + 1) == '/' {
            skip(run_end(src, start + 2, CharClass::NotNewline), line)
        } else {
            emit(src, start, start + 1, line, TokenKind::Slash)
        }
    } else if c == '"' {
        string_step(src, start, line)
    } else if is_digit(c) {
        let end = number_end(src, start);
        emit(src, start, end, line, TokenKind::Num(src.subrange(start, end)))
    } else if is_alpha(c) {
        let end = run_end(src, start + 1, CharClass::Alnum);
        emit(src, start, end, line, keyword_kind(src.subrange(start, end)))
    } else if c == '\n' {
        skip(start + 1, line + 1)
    } else if c == ' ' || c == '\r' || c == '\t' {
        skip(start + 1, line)
    } else {
        Step {
            next: start + 1,
            line,
            token: None,
            error: Some(lexical_error(line, unexpected_message(c))),
        }
    }
}

/// The end marker: an empty lexeme at the line where the text ends.
pub open spec fn end_marker(line: nat) -> TokenView {
    TokenView { kind: TokenKind::EOF, lexeme: Seq::<char>::empty(), line }
}

/// `s` with `x` at its end, where there is an `x`.
pub open spec fn push_opt<T>(s: Seq<T>, x: Option<T>) -> Seq<T> {
    match x {
        Some(v) => s.push(v),
        None => s,
    }
}

/// Everything a scan produces: the tokens, end marker included, and the
/// lexical errors, each in source order.
pub struct Scanned {
    pub tokens: Seq<TokenView>,
    pub errors: Seq<ReportView>,
}

/// Outcome of scanning `src` from `pos` on, given what was produced before.
pub open spec fn scan_from(
    src: Seq<char>,
    pos: int,
    line: nat,
    tokens: Seq<TokenView>,
    errors: Seq<ReportView>,
) -> Scanned
    decreases src.len() - pos,
{
    if 0 <= pos < src.len() {
        let s = scan_step(src, pos, line);
        proof {
            lemma_step_advances(src, pos, line);
        }
        scan_from(src, s.next, s.line, push_opt(tokens, s.token), push_opt(errors, s.error))
    } else {
        Scanned { tokens: tokens.push(end_marker(line)), errors }
    }
}

/// Outcome of scanning a whole text.
pub open spec fn scan(src: Seq<char>) -> Scanned {
    scan_from(src, 0, 1, Seq::<TokenView>::empty(), Seq::<ReportView>::empty())
}

/// A run ends inside the text, holds only characters of its class, and
/// cannot be extended.
pub proof fn lemma_run_end(src: Seq<char>, pos: int, class: CharClass)
    requires
        0 <= pos <= src.len(),
    ensures
        pos <= run_end(src, pos, class) <= src.len(),
        forall|i: int| pos <= i < run_end(src, pos, class) ==> class.holds(#[trigger] src[i]),
        !class.holds(char_at(src, run_end(src, pos, class))) || run_end(src, pos, class)
            == src.len(),
    decreases src.len() - pos,
{
    if pos < src.len() && class.holds(src[pos]) {
        lemma_run_end(src, pos + 1, class);
    }
}

/// A range holds no more newlines than characters.
pub proof fn lemma_newlines_bound(src: Seq<char>, from: int, to: int)
    ensures
        newlines(src, from, to) <= if from <= to {
            to - from
        } else {
            0
        },
    decreases to - from,
{
    if from < to {
        lemma_newlines_bound(src, from, to - 1);
    }
}

/// Every step of the scanner consumes at least one character and stays
/// inside the text, so a scan ends after at most as many steps as the text
/// has characters.
pub proof fn lemma_step_advances(src: Seq<char>, pos: int, line: nat)
    requires
        0 <= pos < src.len(),
    ensures
        pos < scan_step(src, pos, line).next <= src.len(),
        scan_step(src, pos, line).line <= line + (scan_step(src, pos, line).next - pos),
{
    let c = src[pos];
    lemma_run_end(src, pos + 1, CharClass::NotQuote);
    lemma_run_end(src, pos + 1, CharClass::Alnum);
    lemma_run_end(src, pos, CharClass::Digit);
    lemma_newlines_bound(src, pos + 1, run_end(src, pos + 1, CharClass::NotQuote));
    if c == '/' && char_at(src, pos + 1) == '/' {
        lemma_run_end(src, pos + 2, CharClass::NotNewline);
    }
    if is_digit(c) {
        let whole = run_end(src, pos, CharClass::Digit);
        assert(whole > pos);
        if char_at(src, whole) == '.' && is_digit(char_at(src, whole + 1)) {
            lemma_run_end(src, whole + 1, CharClass::Digit);
        }
    }
}

/// Whatever the text, a scan ends with the end marker.
pub proof fn lemma_scan_closed(
    src: Seq<char>,
    pos: int,
    line: nat,
    tokens: Seq<TokenView>,
    errors: Seq<ReportView>,
)
    ensures
        closed(scan_from(src, pos, line, tokens, errors).tokens),
    decreases src.len() - pos,
{
    if 0 <= pos < src.len() {
        let s = scan_step(src, pos, line);
        lemma_step_advances(src, pos, line);
        lemma_scan_closed(
            src,
            s.next,
            s.line,
            push_opt(tokens, s.token),
            push_opt(errors, s.error),
        );
    }
}

/// Every character of `s[from..to]` is a digit.
pub open spec fn all_digits(s: Seq<char>, from: int, to: int) -> bool {
    forall|i: int| from <= i < to ==> is_digit(#[trigger] s[i])
}

/// `n` is a number as the language writes one: digits, or digits, a dot and
/// digits.
pub open spec fn is_number(n: Seq<char>) -> bool {
    n.len() > 0 && (all_digits(n, 0, n.len() as int) || exists|d: int|
        0 < d < n.len() - 1 && #[trigger] n[d] == '.' && all_digits(n, 0, d) && all_digits(
            n,
            d + 1,
            n.len() as int,
        ))
}

/// `w` is shaped like an identifier: a letter, then letters and digits.
pub open spec fn is_word(w: Seq<char>) -> bool {
    w.len() > 0 && is_alpha(w[0]) && forall|i: int| 0 <= i < w.len() ==> is_alnum(#[trigger] w[i])
}

/// `s` between two double quotes.
pub open spec fn quoted(s: Seq<char>) -> Seq<char> {
    seq!['"'] + s + seq!['"']
}

/// A stretch of characters of one class that the text's end or a character
/// outside the class closes is the run that starts where it starts.
pub proof fn lemma_run_end_is(src: Seq<char>, pos: int, class: CharClass, end: int)
    requires
        0 <= pos <= end <= src.len(),
        forall|i: int| pos <= i < end ==> class.holds(#[trigger] src[i]),
        end == src.len() || !class.holds(src[end]),
    ensures
        run_end(src, pos, class) == end,
    decreases end - pos,
{
    if pos < end {
        assert(class.holds(src[pos]));
        lemma_run_end_is(src, pos + 1, class, end);
    }
}

/// Scanning a number yields one `Num` token that carries the number's text,
/// then the end marker, and no error.
pub proof fn lemma_scan_number(n: Seq<char>)
    requires
        is_number(n),
    ensures
        scan(n) == (Scanned {
            tokens: seq![
                TokenView { kind: TokenKind::Num(n), lexeme: n, line: 1 },
                end_marker(1),
            ],
            errors: Seq::<ReportView>::empty(),
        }),
{
    let len = n.len() as int;
    if all_digits(n, 0, len) {
        lemma_run_end_is(n, 0, CharClass::Digit, len);
    } else {
        let d = choose|d: int|
            0 < d < n.len() - 1 && #[trigger] n[d] == '.' && all_digits(n, 0, d) && all_digits(
                n,
                d + 1,
                n.len() as int,
            );
        lemma_run_end_is(n, 0, CharClass::Digit, d);
        assert(is_digit(n[d + 1]));
        lemma_run_end_is(n, d + 1, CharClass::Digit, len);
    }
    assert(is_digit(n[0]));
    assert(number_end(n, 0) == len);
    assert(n.subrange(0, len) =~= n);
    let step = scan_step(n, 0, 1);
    assert(step == emit(n, 0, len, 1, TokenKind::Num(n)));
    let first = push_opt(Seq::<TokenView>::empty(), step.token);
    let none = push_opt(Seq::<ReportView>::empty(), step.error);
    assert(scan(n) == scan_from(n, len, 1, first, none)) by {
        reveal_with_fuel(scan_from, 2);
    }
    assert(first.push(end_marker(1)) =~= seq![
        TokenView { kind: TokenKind::Num(n), lexeme: n, line: 1 },
        end_marker(1),
    ]);
}

/// Scanning a quoted text that holds no quote yields one `Str` token that
/// carries the text as it stands, then the end marker, and no error. The
/// token is on the first line; the end marker is as many lines further as
/// the text has newlines.
pub proof fn lemma_scan_string(s: Seq<char>)
    requires
        forall|i: int| 0 <= i < s.len() ==> #[trigger] s[i] != '"',
    ensures
        scan(quoted(s)) == (Scanned {
            tokens: seq![
                TokenView { kind: TokenKind::Str(s), lexeme: quoted(s), line: 1 },
                end_marker(1 + newlines(quoted(s), 1, 1 + s.len() as int)),
            ],
            errors: Seq::<ReportView>::empty(),
        }),
{
    let text = quoted(s);
    let close = 1 + s.len() as int;
    assert(text.len() == close + 1);
    assert(text[0] == '"');
    assert(text[close] == '"');
    assert forall|i: int| 1 <= i < close implies CharClass::NotQuote.holds(#[trigger] text[i]) by {
        assert(text[i] == s[i - 1]);
    }
    lemma_run_end_is(text, 1, CharClass::NotQuote, close);
    assert(text.subrange(1, close) =~= s);
    assert(text.subrange(0, close + 1) =~= text);
    let after = 1 + newlines(text, 1, close);
    let step = scan_step(text, 0, 1);
    assert(step == string_step(text, 0, 1));
    assert(step.next == close + 1);
    assert(step.line == after);
    assert(step.token == Some(TokenView { kind: TokenKind::Str(s), lexeme: text, line: 1 }));
    let first = push_opt(Seq::<TokenView>::empty(), step.token);
    let none = push_opt(Seq::<ReportView>::empty(), step.error);
    assert(scan(text) == scan_from(text, close + 1, after, first, none)) by {
        reveal_with_fuel(scan_from, 2);
    }
    assert(first.push(end_marker(after)) =~= seq![
        TokenView { kind: TokenKind::Str(s), lexeme: text, line: 1 },
        end_marker(after),
    ]);
}

/// Scanning a word yields one token, then the end marker, and no error. The
/// token is the word's keyword where the word is one, else an identifier.
pub proof fn lemma_scan_word(w: Seq<char>)
    requires
        is_word(w),
    ensures
        scan(w) == (Scanned {
            tokens: seq![
                TokenView { kind: keyword_kind(w), lexeme: w, line: 1 },
                end_marker(1),
            ],
            errors: Seq::<ReportView>::empty(),
        }),
{
    let len = w.len() as int;
    assert forall|i: int| 1 <= i < len implies CharClass::Alnum.holds(#[trigger] w[i]) by {
        assert(is_alnum(w[i]));
    }
    lemma_run_end_is(w, 1, CharClass::Alnum, len);
    assert(w.subrange(0, len) =~= w);
    let step = scan_step(w, 0, 1);
    assert(step == emit(w, 0, len, 1, keyword_kind(w)));
    let first = push_opt(Seq::<TokenView>::empty(), step.token);
    let none = push_opt(Seq::<ReportView>::empty(), step.error);
    assert(scan(w) == scan_from(w, len, 1, first, none)) by {
        reveal_with_fuel(scan_from, 2);
    }
    assert(first.push(end_marker(1)) =~= seq![
        TokenView { kind: keyword_kind(w), lexeme: w, line: 1 },
        end_marker(1),
    ]);
}

/// Whether `text` is one of the reserved words.
pub open spec fn is_reserved(text: Seq<char>) -> bool {
    text == "and"@ || text == "class"@ || text == "else"@ || text == "false"@ ||
        text == "for"@ || text == "fun"@ || text == "if"@ || text == "nil"@ || text == "or"@ ||
        text == "print"@ || text == "return"@ || text == "super"@ || text == "this"@ ||
        text == "true"@ || text == "var"@ || text == "while"@
}

/// A lexeme is an identifier exactly where it is no reserved word.
pub proof fn lemma_identifier_unless_reserved(text: Seq<char>)
    ensures
        keyword_kind(text) == TokenKind::Id <==> !is_reserved(text),
{
}

/// Each reserved word is a word and has its own kind; so scanning it yields
/// a token of that kind ([`lemma_scan_word`]), never an identifier.
pub proof fn lemma_keyword_table()
    ensures
        is_word("and"@) && keyword_kind("and"@) == TokenKind::And,
        is_word("class"@) && keyword_kind("class"@) == TokenKind::Class,
        is_word("else"@) && keyword_kind("else"@) == TokenKind::Else,
        is_word("false"@) && keyword_kind("false"@) == TokenKind::False,
        is_word("for"@) && keyword_kind("for"@) == TokenKind::For,
        is_word("fun"@) && keyword_kind("fun"@) == TokenKind::Fun,
        is_word("if"@) && keyword_kind("if"@) == TokenKind::If,
        is_word("nil"@) && keyword_kind("nil"@) == TokenKind::Nil,
        is_word("or"@) && keyword_kind("or"@) == TokenKind::Or,
        is_word("print"@) && keyword_kind("print"@) == TokenKind::Print,
        is_word("return"@) && keyword_kind("return"@) == TokenKind::Return,
        is_word("super"@) && keyword_kind("super"@) == TokenKind::Super,
        is_word("this"@) && keyword_kind("this"@) == TokenKind::This,
        is_word("true"@) && keyword_kind("true"@) == TokenKind::True,
        is_word("var"@) && keyword_kind("var"@) == TokenKind::Var,
        is_word("while"@) && keyword_kind("while"@) == TokenKind::While,
{
    reveal_strlit("and");
    reveal_strlit("class");
    reveal_strlit("else");
    reveal_strlit("false");
    reveal_strlit("for");
    reveal_strlit("fun");
    reveal_strlit("if");
    reveal_strlit("nil");
    reveal_strlit("or");
    reveal_strlit("print");
    reveal_strlit("return");
    reveal_strlit("super");
    reveal_strlit("this");
    reveal_strlit("true");
    reveal_strlit("var");
    reveal_strlit("while");
    assert("class"@[0] != "and"@[0]);
    assert("for"@[0] != "and"@[0]);
    assert("fun"@[1] != "for"@[1] && "fun"@[0] != "and"@[0]);
    assert("nil"@[0] != "and"@[0] && "nil"@[0] != "for"@[0] && "nil"@[0] != "fun"@[0]);
    assert("false"@[0] != "class"@[0]);
    assert("print"@[0] != "class"@[0] && "print"@[0] != "false"@[0]);
    assert("super"@[0] != "class"@[0] && "super"@[0] != "false"@[0] && "super"@[0] != "print"@[0]);
    assert("this"@[0] != "else"@[0]);
    assert("true"@[1] != "this"@[1] && "true"@[0] != "else"@[0]);
    assert("var"@[0] != "and"@[0] && "var"@[0] != "for"@[0] && "var"@[0] != "fun"@[0] && "var"@[0]
        != "nil"@[0]);
    assert("while"@[0] != "class"@[0] && "while"@[0] != "false"@[0] && "while"@[0] != "print"@[0]
        && "while"@[0] != "super"@[0]);
    assert("or"@[0] != "if"@[0]);
}

} // verus!
