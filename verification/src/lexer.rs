//! Tokenization: turns a sequence of characters into tokens with
//! one-character lookahead and maximal-munch scanning.

use vstd::prelude::*;

verus! {

/// The binary operators of the language, each left-associative with a
/// fixed precedence.
#[derive(Clone, Copy, Debug, PartialEq, Eq, Structural)]
pub enum Operator {
    LessThan,
    Plus,
    Minus,
    Times,
}

/// The smallest lexical unit. A numeric literal keeps its source text:
/// the digits-and-dot spelling scanned from the input.
#[derive(Clone, Debug, PartialEq)]
pub enum Token {
    EOF,
    Def,
    Extern,
    Identifier(String),
    Number(String),
    OpenParenthesis,
    CloseParenthesis,
    Comma,
    SemiColon,
    Operator(Operator),
}

/// Mathematical image of a `Token`: strings become character sequences.
pub enum SpecToken {
    EOF,
    Def,
    Extern,
    Identifier(Seq<char>),
    Number(Seq<char>),
    OpenParenthesis,
    CloseParenthesis,
    Comma,
    SemiColon,
    Operator(Operator),
}

impl DeepView for Token {
    type V = SpecToken;

    open spec fn deep_view(&self) -> SpecToken {
        match self {
            Token::EOF => SpecToken::EOF,
            Token::Def => SpecToken::Def,
            Token::Extern => SpecToken::Extern,
            Token::Identifier(s) => SpecToken::Identifier(s@),
            Token::Number(s) => SpecToken::Number(s@),
            Token::OpenParenthesis => SpecToken::OpenParenthesis,
            Token::CloseParenthesis => SpecToken::CloseParenthesis,
            Token::Comma => SpecToken::Comma,
            Token::SemiColon => SpecToken::SemiColon,
            Token::Operator(op) => SpecToken::Operator(*op),
        }
    }
}

/// A failure during tokenization. `InvalidNumber` keeps the malformed
/// numeric text, `UnknownInitial` the character no rule recognizes.
#[derive(Debug, PartialEq)]
pub enum LexerError {
    InvalidNumber(String),
    UnknownInitial(char),
}

/// Mathematical image of a `LexerError`.
pub enum SpecLexerError {
    InvalidNumber(Seq<char>),
    UnknownInitial(char),
}

impl DeepView for LexerError {
    type V = SpecLexerError;

    open spec fn deep_view(&self) -> SpecLexerError {
        match self {
            LexerError::InvalidNumber(s) => SpecLexerError::InvalidNumber(s@),
            LexerError::UnknownInitial(c) => SpecLexerError::UnknownInitial(*c),
        }
    }
}

/// The character classes the scanner runs over.
#[derive(Clone, Copy, Debug, PartialEq, Eq, Structural)]
pub enum CharClass {
    Whitespace,
    Alphanumeric,
    DigitOrDot,
    NotLineBreak,
}

pub open spec fn is_whitespace_char(c: char) -> bool {
    c == ' ' || c == '\t' || c == '\n' || c == '\r' || c == '\x0c'
}

pub open spec fn is_alpha_char(c: char) -> bool {
    ('a' <= c && c <= 'z') || ('A' <= c && c <= 'Z')
}

pub open spec fn is_digit_char(c: char) -> bool {
    '0' <= c && c <= '9'
}

pub open spec fn is_alnum_char(c: char) -> bool {
    is_alpha_char(c) || is_digit_char(c)
}

pub open spec fn is_digit_or_dot_char(c: char) -> bool {
    is_digit_char(c) || c == '.'
}

pub open spec fn class_holds(k: CharClass, c: char) -> bool {
    match k {
        CharClass::Whitespace => is_whitespace_char(c),
        CharClass::Alphanumeric => is_alnum_char(c),
        CharClass::DigitOrDot => is_digit_or_dot_char(c),
        CharClass::NotLineBreak => c != '\n' && c != '\r',
    }
}

/// Length of the longest prefix of `s` whose characters all fall in
/// class `k`.
pub open spec fn run_len(k: CharClass, s: Seq<char>) -> nat
    decreases s.len(),
{
    if s.len() == 0 || !class_holds(k, s[0]) {
        0
    } else {
        1 + run_len(k, s.drop_first())
    }
}

pub proof fn lemma_run_len(k: CharClass, s: Seq<char>)
    ensures
        run_len(k, s) <= s.len(),
        forall|i: int| 0 <= i < run_len(k, s) ==> class_holds(k, #[trigger] s[i]),
        run_len(k, s) < s.len() ==> !class_holds(k, s[run_len(k, s) as int]),
    decreases s.len(),
{
    if s.len() != 0 && class_holds(k, s[0]) {
        lemma_run_len(k, s.drop_first());
        assert forall|i: int| 0 <= i < run_len(k, s) implies class_holds(k, #[trigger] s[i]) by {
            if i > 0 {
                assert(s.drop_first()[i - 1] == s[i]);
            }
        }
        if run_len(k, s) < s.len() {
            assert(s.drop_first()[run_len(k, s) - 1] == s[run_len(k, s) as int]);
        }
    }
}

/// How many characters of `s` are the dot.
pub open spec fn dot_count(s: Seq<char>) -> nat
    decreases s.len(),
{
    if s.len() == 0 {
        0
    } else {
        dot_count(s.drop_last()) + (if s.last() == '.' {
            1nat
        } else {
            0nat
        })
    }
}

/// How many characters of `s` are decimal digits.
pub open spec fn digit_count(s: Seq<char>) -> nat
    decreases s.len(),
{
    if s.len() == 0 {
        0
    } else {
        digit_count(s.drop_last()) + (if is_digit_char(s.last()) {
            1nat
        } else {
            0nat
        })
    }
}

/// A run of digits and dots spells a number when it has at least one
/// digit and at most one dot; `.`, `1.2.3` and the like are malformed.
pub open spec fn is_valid_number(s: Seq<char>) -> bool {
    s.len() > 0 && dot_count(s) <= 1 && digit_count(s) >= 1
}

/// The token an alphanumeric word stands for: the two reserved words,
/// matched exactly, or an identifier.
pub open spec fn word_token(w: Seq<char>) -> SpecToken {
    if w == seq!['d', 'e', 'f'] {
        SpecToken::Def
    } else if w == seq!['e', 'x', 't', 'e', 'r', 'n'] {
        SpecToken::Extern
    } else {
        SpecToken::Identifier(w)
    }
}

/// The token a single structural or operator character stands for, if any.
pub open spec fn punct_token(c: char) -> Option<SpecToken> {
    if c == '(' {
        Some(SpecToken::OpenParenthesis)
    } else if c == ')' {
        Some(SpecToken::CloseParenthesis)
    } else if c == ',' {
        Some(SpecToken::Comma)
    } else if c == ';' {
        Some(SpecToken::SemiColon)
    } else if c == '<' {
        Some(SpecToken::Operator(Operator::LessThan))
    } else if c == '+' {
        Some(SpecToken::Operator(Operator::Plus))
    } else if c == '-' {
        Some(SpecToken::Operator(Operator::Minus))
    } else if c == '*' {
        Some(SpecToken::Operator(Operator::Times))
    } else {
        None
    }
}

/// The token sequence of `s`, or the first failure. Whitespace and line
/// comments vanish; words, numbers and punctuation become tokens by
/// maximal munch; a character no rule covers is the error, as is a
/// malformed number.
pub open spec fn spec_tokenize(s: Seq<char>) -> Result<Seq<SpecToken>, SpecLexerError>
    decreases s.len(),
    via spec_tokenize_decreases
{
    if s.len() == 0 {
        Ok(Seq::empty())
    } else {
        let c = s[0];
        if is_whitespace_char(c) {
            spec_tokenize(s.drop_first())
        } else if is_alpha_char(c) {
            let n = 1 + run_len(CharClass::Alphanumeric, s.drop_first());
            match spec_tokenize(s.skip(n as int)) {
                Ok(ts) => Ok(seq![word_token(s.take(n as int))] + ts),
                Err(e) => Err(e),
            }
        } else if is_digit_or_dot_char(c) {
            let n = 1 + run_len(CharClass::DigitOrDot, s.drop_first());
            let text = s.take(n as int);
            if is_valid_number(text) {
                match spec_tokenize(s.skip(n as int)) {
                    Ok(ts) => Ok(seq![SpecToken::Number(text)] + ts),
                    Err(e) => Err(e),
                }
            } else {
                Err(SpecLexerError::InvalidNumber(text))
            }
        } else if c == '#' {
            let n = 1 + run_len(CharClass::NotLineBreak, s.drop_first());
            spec_tokenize(s.skip(n as int))
        } else {
            match punct_token(c) {
                Some(t) => match spec_tokenize(s.drop_first()) {
                    Ok(ts) => Ok(seq![t] + ts),
                    Err(e) => Err(e),
                },
                None => Err(SpecLexerError::UnknownInitial(c)),
            }
        }
    }
}

#[via_fn]
proof fn spec_tokenize_decreases(s: Seq<char>) {
    if s.len() > 0 {
        lemma_run_len(CharClass::Alphanumeric, s.drop_first());
        lemma_run_len(CharClass::DigitOrDot, s.drop_first());
        lemma_run_len(CharClass::NotLineBreak, s.drop_first());
    }
}

/// Relies on `<str as PartialEq>::eq`: true exactly when the two
/// slices hold the same characters.
#[verifier::external_body]
pub(crate) fn str_eq(a: &str, b: &str) -> (r: bool)
    ensures
        r == (a@ == b@),
{
    a == b
}

/// Relies on `String::push`: appends one character at the end.
#[verifier::external_body]
fn push_char(s: &mut String, c: char)
    ensures
        final(s)@ == old(s)@.push(c),
{
    s.push(c);
}

/// Composes one token onto the outcome of tokenizing the rest of the
/// input: a later failure wins over any earlier token.
pub open spec fn cons_token(
    t: SpecToken,
    rest: Result<Seq<SpecToken>, SpecLexerError>,
) -> Result<Seq<SpecToken>, SpecLexerError> {
    match rest {
        Ok(ts) => Ok(seq![t] + ts),
        Err(e) => Err(e),
    }
}

/// The scanner: one unconsumed lookahead character over a fixed
/// character sequence, advanced token by token.
pub struct Lexer {
    chars: Vec<char>,
    pos: usize,
}

impl Lexer {
    /// The lookahead position never passes the end of the input.
    pub closed spec fn wf(&self) -> bool {
        self.pos <= self.chars@.len()
    }

    /// The characters not yet consumed.
    pub closed spec fn remaining(&self) -> Seq<char> {
        self.chars@.skip(self.pos as int)
    }

    pub fn new(chars: Vec<char>) -> (r: Lexer)
        ensures
            r.wf(),
            r.remaining() == chars@,
    {
        let r = Lexer { chars, pos: 0 };
        proof {
            assert(r.remaining() =~= r.chars@);
        }
        r
    }

    /// The current lookahead character, if any input is left.
    fn peek_char(&self) -> (c: Option<char>)
        requires
            self.wf(),
        ensures
            c == (if self.remaining().len() > 0 {
                Some(self.remaining()[0])
            } else {
                None::<char>
            }),
    {
        if self.pos < self.chars.len() {
            Some(self.chars[self.pos])
        } else {
            None
        }
    }

    /// Drops the current lookahead character; at the end of the input
    /// this changes nothing.
    fn consume_char(&mut self)
        requires
            old(self).wf(),
        ensures
            final(self).wf(),
            final(self).remaining() == if old(self).remaining().len() > 0 {
                old(self).remaining().drop_first()
            } else {
                old(self).remaining()
            },
    {
        if self.pos < self.chars.len() {
            self.pos = self.pos + 1;
            proof {
                assert(self.remaining() =~= old(self).remaining().drop_first());
            }
        }
    }

    /// Takes the current lookahead character and advances past it.
    fn get_char(&mut self) -> (c: Option<char>)
        requires
            old(self).wf(),
        ensures
            final(self).wf(),
            c == (if old(self).remaining().len() > 0 {
                Some(old(self).remaining()[0])
            } else {
                None::<char>
            }),
            final(self).remaining() == if old(self).remaining().len() > 0 {
                old(self).remaining().drop_first()
            } else {
                old(self).remaining()
            },
    {
        let c = self.peek_char();
        self.consume_char();
        c
    }

    /// Tests the current lookahead against a character class.
    fn peek_in_class(&self, k: CharClass) -> (r: bool)
        requires
            self.wf(),
        ensures
            r == (self.remaining().len() > 0 && class_holds(k, self.remaining()[0])),
    {
        match self.peek_char() {
            Some(c) => in_class(k, c),
            None => false,
        }
    }

    /// Skips the longest run of characters in class `k`.
    fn skip_chars(&mut self, k: CharClass)
        requires
            old(self).wf(),
        ensures
            final(self).wf(),
            final(self).remaining() == old(self).remaining().skip(
                run_len(k, old(self).remaining()) as int,
            ),
    {
        proof {
            lemma_run_len(k, self.remaining());
        }
        while self.peek_in_class(k)
            invariant
                self.wf(),
                run_len(k, self.remaining()) <= self.remaining().len(),
                self.remaining().skip(run_len(k, self.remaining()) as int) == old(
                    self,
                ).remaining().skip(run_len(k, old(self).remaining()) as int),
            decreases self.remaining().len(),
        {
            let ghost before = self.remaining();
            self.consume_char();
            proof {
                lemma_run_len(k, self.remaining());
                assert(run_len(k, before) == 1 + run_len(k, before.drop_first()));
                assert(before.skip(run_len(k, before) as int) =~= before.drop_first().skip(
                    run_len(k, before.drop_first()) as int,
                ));
            }
        }
    }

    /// Collects `initial` and then the longest run of characters in
    /// class `k` into one string.
    fn get_chars(&mut self, initial: char, k: CharClass) -> (w: String)
        requires
            old(self).wf(),
        ensures
            final(self).wf(),
            w@ == seq![initial] + old(self).remaining().take(
                run_len(k, old(self).remaining()) as int,
            ),
            final(self).remaining() == old(self).remaining().skip(
                run_len(k, old(self).remaining()) as int,
            ),
    {
        let mut w = String::new();
        push_char(&mut w, initial);
        proof {
            lemma_run_len(k, self.remaining());
        }
        let ghost orig = self.remaining();
        let ghost taken: int = 0;
        while self.peek_in_class(k)
            invariant
                self.wf(),
                0 <= taken <= run_len(k, orig),
                run_len(k, orig) <= orig.len(),
                self.remaining() == orig.skip(taken),
                w@ == seq![initial] + orig.take(taken),
                run_len(k, self.remaining()) == run_len(k, orig) - taken,
            decreases self.remaining().len(),
        {
            let ghost before = self.remaining();
            let c = self.get_char().unwrap();
            push_char(&mut w, c);
            proof {
                taken = taken + 1;
                assert(run_len(k, before) == 1 + run_len(k, before.drop_first()));
                assert(self.remaining() =~= orig.skip(taken));
                assert(w@ =~= seq![initial] + orig.take(taken));
            }
        }
        proof {
            assert(run_len(k, self.remaining()) == 0);
            assert(taken == run_len(k, orig));
        }
        w
    }
}

/// Tokenization is blind to a leading run of whitespace.
proof fn lemma_tokenize_skip_ws(s: Seq<char>)
    ensures
        spec_tokenize(s) == spec_tokenize(s.skip(run_len(CharClass::Whitespace, s) as int)),
    decreases s.len(),
{
    if s.len() > 0 && is_whitespace_char(s[0]) {
        lemma_tokenize_skip_ws(s.drop_first());
        lemma_run_len(CharClass::Whitespace, s.drop_first());
        assert(s.skip(run_len(CharClass::Whitespace, s) as int) =~= s.drop_first().skip(
            run_len(CharClass::Whitespace, s.drop_first()) as int,
        ));
    } else {
        assert(s.skip(0) =~= s);
    }
}

/// Decides `is_valid_number` for the scanned text.
fn check_number(w: &String) -> (r: bool)
    ensures
        r == is_valid_number(w@),
{
    let s = w.as_str();
    let n = s.unicode_len();
    let mut dots: usize = 0;
    let mut digits: usize = 0;
    let mut i: usize = 0;
    while i < n
        invariant
            n == w@.len(),
            s@ == w@,
            0 <= i <= n,
            dots == dot_count(w@.take(i as int)),
            digits == digit_count(w@.take(i as int)),
            dots <= i,
            digits <= i,
        decreases n - i,
    {
        let c = s.get_char(i);
        let ghost pre = w@.take(i as int);
        if c == '.' {
            dots = dots + 1;
        }
        if '0' <= c && c <= '9' {
            digits = digits + 1;
        }
        i = i + 1;
        proof {
            assert(w@.take(i as int).drop_last() =~= pre);
            assert(w@.take(i as int).last() == c);
        }
    }
    proof {
        assert(w@.take(n as int) =~= w@);
    }
    n > 0 && dots <= 1 && digits >= 1
}

impl Lexer {
    /// Produces the next token, consuming exactly its characters plus any
    /// whitespace and comments before it. At the end of the input the
    /// token is `EOF`. The outcome agrees with `spec_tokenize` on the
    /// unconsumed input: the token is its head, or the error is its
    /// failure.
    pub fn get_token(&mut self) -> (r: Result<Token, LexerError>)
        requires
            old(self).wf(),
        ensures
            final(self).wf(),
            final(self).remaining().len() <= old(self).remaining().len(),
            match r {
                Ok(t) => if t.deep_view() is EOF {
                    &&& spec_tokenize(old(self).remaining()) == Ok::<
                        Seq<SpecToken>,
                        SpecLexerError,
                    >(Seq::empty())
                    &&& final(self).remaining().len() == 0
                } else {
                    &&& spec_tokenize(old(self).remaining()) == cons_token(
                        t.deep_view(),
                        spec_tokenize(final(self).remaining()),
                    )
                    &&& final(self).remaining().len() < old(self).remaining().len()
                },
                Err(e) => spec_tokenize(old(self).remaining()) == Err::<
                    Seq<SpecToken>,
                    SpecLexerError,
                >(e.deep_view()),
            },
    {
        loop
            invariant
                self.wf(),
                spec_tokenize(self.remaining()) == spec_tokenize(old(self).remaining()),
                self.remaining().len() <= old(self).remaining().len(),
            decreases self.remaining().len(),
        {
            if self.peek_in_class(CharClass::Whitespace) {
                proof {
                    lemma_tokenize_skip_ws(self.remaining());
                    lemma_run_len(CharClass::Whitespace, self.remaining());
                }
                self.skip_chars(CharClass::Whitespace);
            }
            let ghost s = self.remaining();
            match self.get_char() {
                None => {
                    return Ok(Token::EOF);
                },
                Some(c) => {
                    if ('a' <= c && c <= 'z') || ('A' <= c && c <= 'Z') {
                        let ghost m: int = run_len(CharClass::Alphanumeric, s.drop_first()) as int;
                        let w = self.get_chars(c, CharClass::Alphanumeric);
                        proof {
                            lemma_run_len(CharClass::Alphanumeric, s.drop_first());
                            assert(w@ =~= s.take(1 + m));
                            assert(self.remaining() =~= s.skip(1 + m));
                        }
                        let t = if str_eq(w.as_str(), "def") {
                            Token::Def
                        } else if str_eq(w.as_str(), "extern") {
                            Token::Extern
                        } else {
                            Token::Identifier(w)
                        };
                        proof {
                            reveal_strlit("def");
                            reveal_strlit("extern");
                            assert("def"@ =~= seq!['d', 'e', 'f']);
                            assert("extern"@ =~= seq!['e', 'x', 't', 'e', 'r', 'n']);
                        }
                        return Ok(t);
                    }
                    if ('0' <= c && c <= '9') || c == '.' {
                        let ghost m: int = run_len(CharClass::DigitOrDot, s.drop_first()) as int;
                        let w = self.get_chars(c, CharClass::DigitOrDot);
                        proof {
                            lemma_run_len(CharClass::DigitOrDot, s.drop_first());
                            assert(w@ =~= s.take(1 + m));
                            assert(self.remaining() =~= s.skip(1 + m));
                        }
                        if check_number(&w) {
                            return Ok(Token::Number(w));
                        } else {
                            return Err(LexerError::InvalidNumber(w));
                        }
                    }
                    if c == '#' {
                        let ghost m: int = run_len(CharClass::NotLineBreak, s.drop_first()) as int;
                        self.skip_chars(CharClass::NotLineBreak);
                        proof {
                            lemma_run_len(CharClass::NotLineBreak, s.drop_first());
                            assert(self.remaining() =~= s.skip(1 + m));
                        }
                        match self.peek_char() {
                            None => {
                                return Ok(Token::EOF);
                            },
                            Some(_) => {
                            },
                        }
                    } else {
                        let t = match c {
                            '(' => Some(Token::OpenParenthesis),
                            ')' => Some(Token::CloseParenthesis),
                            ',' => Some(Token::Comma),
                            ';' => Some(Token::SemiColon),
                            '<' => Some(Token::Operator(Operator::LessThan)),
                            '+' => Some(Token::Operator(Operator::Plus)),
                            '-' => Some(Token::Operator(Operator::Minus)),
                            '*' => Some(Token::Operator(Operator::Times)),
                            _ => None,
                        };
                        match t {
                            Some(tok) => {
                                return Ok(tok);
                            },
                            None => {
                                return Err(LexerError::UnknownInitial(c));
                            },
                        }
                    }
                },
            }
        }
    }

    /// Tokenizes everything left: the whole token sequence of the input,
    /// without a trailing `EOF`, or the first failure alone.
    pub fn tokenize(&mut self) -> (r: Result<Vec<Token>, LexerError>)
        requires
            old(self).wf(),
        ensures
            final(self).wf(),
            match r {
                Ok(v) => spec_tokenize(old(self).remaining()) == Ok::<_, SpecLexerError>(
                    v.deep_view(),
                ),
                Err(e) => spec_tokenize(old(self).remaining()) == Err::<Seq<SpecToken>, _>(
                    e.deep_view(),
                ),
            },
    {
        let mut v: Vec<Token> = Vec::new();
        loop
            invariant
                self.wf(),
                spec_tokenize(old(self).remaining()) == (match spec_tokenize(self.remaining()) {
                    Ok(ts) => Ok::<Seq<SpecToken>, SpecLexerError>(v.deep_view() + ts),
                    Err(e) => Err::<Seq<SpecToken>, SpecLexerError>(e),
                }),
            decreases self.remaining().len(),
        {
            let ghost prev = v.deep_view();
            match self.get_token() {
                Ok(t) => {
                    if let Token::EOF = t {
                        proof {
                            assert(prev + Seq::<SpecToken>::empty() =~= prev);
                        }
                        return Ok(v);
                    } else {
                        let ghost tv = t.deep_view();
                        v.push(t);
                        proof {
                            assert(v.deep_view() =~= prev.push(tv));
                            if let Ok(ts) = spec_tokenize(self.remaining()) {
                                assert(prev + (seq![tv] + ts) =~= prev.push(tv) + ts);
                            }
                        }
                    }
                },
                Err(e) => {
                    return Err(e);
                },
            }
        }
    }
}

/// A character that no lexical rule recognizes — not whitespace, not the
/// start of a word or number, not a comment, not punctuation — fails
/// tokenization with exactly that character, whatever follows it.
pub proof fn lemma_unknown_initial(s: Seq<char>, i: int)
    requires
        0 <= i < s.len(),
        forall|j: int| 0 <= j < i ==> is_whitespace_char(#[trigger] s[j]),
        !is_whitespace_char(s[i]),
        !is_alpha_char(s[i]),
        !is_digit_or_dot_char(s[i]),
        s[i] != '#',
        punct_token(s[i]) is None,
    ensures
        spec_tokenize(s) == Err::<Seq<SpecToken>, SpecLexerError>(
            SpecLexerError::UnknownInitial(s[i]),
        ),
    decreases i,
{
    if i > 0 {
        lemma_unknown_initial(s.drop_first(), i - 1);
    }
}

/// Executable test for membership in a character class.
fn in_class(k: CharClass, c: char) -> (r: bool)
    ensures
        r == class_holds(k, c),
{
    match k {
        CharClass::Whitespace => c == ' ' || c == '\t' || c == '\n' || c == '\r' || c == '\x0c',
        CharClass::Alphanumeric => ('a' <= c && c <= 'z') || ('A' <= c && c <= 'Z') || ('0' <= c
            && c <= '9'),
        CharClass::DigitOrDot => ('0' <= c && c <= '9') || c == '.',
        CharClass::NotLineBreak => c != '\n' && c != '\r',
    }
}

} // verus!

