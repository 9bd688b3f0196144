//! The tokenizer: character classes, the scanning rules as a state machine
//! over characters, and the `Lexer` that runs them.
use vstd::prelude::*;

pub mod laws;
pub mod lexemes;

use crate::lexer::laws::lemma_earlier_tokens_stay;
use crate::lexer::lexemes::Lexeme;
use crate::lexer::lexemes::Token;
use crate::text::clear;
use crate::text::push_char;

verus! {

pub open spec fn spec_is_delimiter(c: char) -> bool {
    c == ' ' || c == '\n' || c == '\t' || c == '\r'
}

pub open spec fn spec_is_punctuation(c: char) -> bool {
    c == ',' || c == ';' || c == ':'
}

pub open spec fn spec_is_lexical_quote(c: char) -> bool {
    c == '"' || c == '`'
}

pub open spec fn spec_is_bracket(c: char) -> bool {
    c == '(' || c == ')' || c == '{' || c == '}' || c == '[' || c == ']' || c == '<' || c == '>'
}

pub open spec fn spec_is_operator(c: char) -> bool {
    c == '+' || c == '-' || c == '*' || c == '/' || c == '%' || c == '<' || c == '>' || c == '!'
        || c == '|' || c == '&' || c == '=' || c == '#' || c == '.' || c == '?'
}

/// Space, tab, newline and carriage return separate tokens and are never
/// tokens themselves.
#[verifier::when_used_as_spec(spec_is_delimiter)]
pub fn is_delimiter(c: char) -> (b: bool)
    ensures
        b == spec_is_delimiter(c),
{
    c == ' ' || c == '\n' || c == '\t' || c == '\r'
}

/// Comma, semicolon and colon.
#[verifier::when_used_as_spec(spec_is_punctuation)]
pub fn is_punctuation(c: char) -> (b: bool)
    ensures
        b == spec_is_punctuation(c),
{
    c == ',' || c == ';' || c == ':'
}

/// The two characters that open and close a string literal.
#[verifier::when_used_as_spec(spec_is_lexical_quote)]
pub fn is_lexical_quote(c: char) -> (b: bool)
    ensures
        b == spec_is_lexical_quote(c),
{
    c == '"' || c == '`'
}

/// Round, curly, square and angle brackets.
#[verifier::when_used_as_spec(spec_is_bracket)]
pub fn is_bracket(c: char) -> (b: bool)
    ensures
        b == spec_is_bracket(c),
{
    c == '(' || c == ')' || c == '{' || c == '}' || c == '[' || c == ']' || c == '<' || c == '>'
}

/// The operator characters. The angle brackets are listed here too, but the
/// scanning rules ask for brackets first, so they always come out as brackets.
#[verifier::when_used_as_spec(spec_is_operator)]
pub fn is_operator(c: char) -> (b: bool)
    ensures
        b == spec_is_operator(c),
{
    c == '+' || c == '-' || c == '*' || c == '/' || c == '%' || c == '<' || c == '>' || c == '!'
        || c == '|' || c == '&' || c == '=' || c == '#' || c == '.' || c == '?'
}

/// The line after `line`. The counter stops at the largest `i32` rather than
/// wrapping around.
pub open spec fn next_line(line: i32) -> i32 {
    if line < i32::MAX {
        (line + 1) as i32
    } else {
        line
    }
}

/// The tokenizer's state between two characters.
pub struct Scan {
    /// The tokens produced so far, oldest first.
    pub tokens: Seq<Lexeme>,
    /// The line of the next character.
    pub line: i32,
    /// The characters gathered for the identifier or string literal under way.
    pub word: Seq<char>,
    /// Inside a string literal: the line on which it was opened.
    pub quote: Option<i32>,
}

impl Scan {
    /// A state with no token yet, outside any literal, about to read `line`.
    pub open spec fn fresh(line: i32) -> Scan {
        Scan { tokens: Seq::empty(), line, word: Seq::empty(), quote: None }
    }

    /// The same state with the tokens `earlier` before its own.
    pub open spec fn behind(self, earlier: Seq<Lexeme>) -> Scan {
        Scan { tokens: earlier + self.tokens, ..self }
    }

    /// Appends one token.
    pub open spec fn emit(self, token: Lexeme) -> Scan {
        Scan { tokens: self.tokens.push(token), ..self }
    }

    /// Turns the gathered characters, if any, into an identifier.
    pub open spec fn flush(self) -> Scan {
        if self.word.len() == 0 {
            self
        } else {
            Scan { word: Seq::empty(), ..self.emit(Lexeme::Identifier(self.word, self.line)) }
        }
    }

    /// Adds `c` to the gathered characters.
    pub open spec fn gather(self, c: char) -> Scan {
        Scan { word: self.word.push(c), ..self }
    }

    /// Moves to the next line if `c` ends the current one.
    pub open spec fn count_line(self, c: char) -> Scan {
        if c == '\n' {
            Scan { line: next_line(self.line), ..self }
        } else {
            self
        }
    }

    /// The state after reading one character.
    ///
    /// Inside a string literal a quote character of either kind closes it and
    /// every other character is taken verbatim. Outside, the classes are asked
    /// in a fixed order: delimiter, punctuation, quote, bracket, operator; a
    /// character of none of them joins the identifier under way.
    pub open spec fn step(self, c: char) -> Scan {
        match self.quote {
            Some(opened) => {
                if is_lexical_quote(c) {
                    Scan {
                        word: Seq::empty(),
                        quote: None,
                        ..self.emit(Lexeme::StringLiteral(self.word, opened))
                    }
                } else {
                    self.gather(c).count_line(c)
                }
            },
            None => {
                let flushed = self.flush();
                if is_delimiter(c) {
                    flushed.count_line(c)
                } else if is_punctuation(c) {
                    flushed.emit(Lexeme::Punctuation(c, self.line))
                } else if is_lexical_quote(c) {
                    Scan { quote: Some(self.line), ..flushed }
                } else if is_bracket(c) {
                    flushed.emit(Lexeme::Bracket(c, self.line))
                } else if is_operator(c) {
                    flushed.emit(Lexeme::Operator(c, self.line))
                } else {
                    self.gather(c)
                }
            },
        }
    }

    /// The state after reading `text`, character by character.
    pub open spec fn feed(self, text: Seq<char>) -> Scan
        decreases text.len(),
    {
        if text.len() == 0 {
            self
        } else {
            self.feed(text.drop_last()).step(text.last())
        }
    }

    /// The state once the input has ended: an identifier under way becomes a
    /// token, a string literal that was never closed is dropped.
    pub open spec fn finish(self) -> Scan {
        match self.quote {
            Some(_) => Scan { word: Seq::empty(), quote: None, ..self },
            None => self.flush(),
        }
    }
}

/// What tokenizing `text` from the start of line `line` gives: the tokens, and
/// in `line` the line on which the text ends.
pub open spec fn tokenize(text: Seq<char>, line: i32) -> Scan {
    Scan::fresh(line).feed(text).finish()
}

/// A tokenizer. It keeps its tokens and its line count from one call of
/// `lexify` to the next, so a text may be handed over in pieces that end
/// between tokens.
pub struct Lexer {
    pub toks: Vec<Token>,
    linecnt: i32,
    word: String,
}

impl Lexer {
    /// The tokens read so far, oldest first.
    pub closed spec fn lexemes(&self) -> Seq<Lexeme> {
        self.toks.deep_view()
    }

    /// The line on which the next text starts.
    pub closed spec fn line(&self) -> i32 {
        self.linecnt
    }

    /// Between calls no token is under way. `new` establishes this and
    /// `lexify` keeps it.
    pub closed spec fn wf(&self) -> bool {
        self.word@.len() == 0
    }

    /// The state of the scanning rules that this tokenizer is in; `quote`
    /// says whether a string literal is open, and since which line.
    spec fn scan(&self, quote: Option<i32>) -> Scan {
        Scan { tokens: self.lexemes(), line: self.line(), word: self.word@, quote }
    }

    /// A tokenizer with no tokens, at line 1.
    pub fn new() -> (lexer: Lexer)
        ensures
            lexer.wf(),
            lexer.line() == 1,
            lexer.lexemes() == Seq::<Lexeme>::empty(),
    {
        let lexer = Lexer { toks: Vec::new(), linecnt: 1, word: String::new() };
        assert(lexer.toks.deep_view() =~= Seq::<Lexeme>::empty());
        lexer
    }

    /// The tokens read so far.
    pub fn tokens(&self) -> (toks: &Vec<Token>)
        ensures
            toks.deep_view() == self.lexemes(),
    {
        &self.toks
    }

    /// Appends `t` to the tokens.
    fn add_token(&mut self, t: Token)
        ensures
            final(self).scan(None) == old(self).scan(None).emit(t@),
    {
        self.toks.push(t);
        assert(self.toks.deep_view() =~= old(self).toks.deep_view().push(t@));
    }

    /// Appends the operator `c`, on the current line. Every operator is one
    /// character: two in a row are two tokens.
    fn add_operator(&mut self, c: char)
        ensures
            final(self).scan(None) == old(self).scan(None).emit(Lexeme::Operator(c, old(self).line())),
    {
        self.add_token(Token::Operator(c, self.linecnt));
    }

    /// Turns the characters gathered so far, if any, into an identifier.
    fn parse_word(&mut self)
        ensures
            final(self).scan(None) == old(self).scan(None).flush(),
    {
        if self.word.as_str().is_empty() {
            return ;
        }
        self.add_token(Token::Identifier(self.word.clone(), self.linecnt));
        clear(&mut self.word);
    }

    /// Moves to the next line if `c` ends the current one.
    fn count_line(&mut self, c: char)
        ensures
            final(self).scan(None) == old(self).scan(None).count_line(c),
    {
        if c == '\n' && self.linecnt < i32::MAX {
            self.linecnt += 1;
        }
    }

    /// Reads `src` to its end and appends its tokens to `toks`, by the rules
    /// of `Scan::step`. At the end an identifier under way becomes a token,
    /// and a string literal that was never closed is dropped without a token.
    /// The lines that `src` holds are counted on from the line that the
    /// tokenizer had reached.
    pub fn lexify(&mut self, src: &str)
        requires
            old(self).wf(),
        ensures
            final(self).wf(),
            final(self).lexemes() == old(self).lexemes() + tokenize(src@, old(self).line()).tokens,
            final(self).line() == tokenize(src@, old(self).line()).line,
    {
        let ghost before = self.scan(None);
        proof {
            let fresh = Scan::fresh(self.line()).behind(self.lexemes());
            assert(before.tokens =~= fresh.tokens);
            assert(before.word =~= fresh.word);
            lemma_earlier_tokens_stay(Scan::fresh(self.line()), self.lexemes(), src@);
        }
        let mut quote: Option<i32> = None;
        for c in it: src.chars()
            invariant
                it.seq() == src@,
                self.scan(quote) == before.feed(src@.take(it.index() as int)),
        {
            proof {
                let k = it.index() as int;
                assert(src@.take(k + 1).drop_last() == src@.take(k));
                assert(src@.take(k + 1).last() == c);
            }
            match quote {
                Some(opened) => {
                    if is_lexical_quote(c) {
                        self.add_token(Token::StringLiteral(self.word.clone(), opened));
                        clear(&mut self.word);
                        quote = None;
                    } else {
                        push_char(&mut self.word, c);
                        self.count_line(c);
                    }
                },
                None => {
                    if is_delimiter(c) {
                        self.parse_word();
                        self.count_line(c);
                    } else if is_punctuation(c) {
                        let line = self.linecnt;
                        self.parse_word();
                        self.add_token(Token::Punctuation(c, line));
                    } else if is_lexical_quote(c) {
                        quote = Some(self.linecnt);
                        self.parse_word();
                    } else if is_bracket(c) {
                        let line = self.linecnt;
                        self.parse_word();
                        self.add_token(Token::Bracket(c, line));
                    } else if is_operator(c) {
                        self.parse_word();
                        self.add_operator(c);
                    } else {
                        push_char(&mut self.word, c);
                    }
                },
            }
        }
        assert(src@.take(src@.len() as int) == src@);
        match quote {
            Some(_) => {
                clear(&mut self.word);
            },
            None => {
                self.parse_word();
            },
        }
    }
}

} // verus!
