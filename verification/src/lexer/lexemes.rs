//! Tokens and their mathematical counterparts.
use vstd::prelude::*;

use crate::decimal::decimal;
use crate::decimal::push_decimal;
use crate::text::push_char;

verus! {

/// A classified unit of source text, tagged with the 1-based line it started
/// on.
///
/// `Sentinel` means "no token here". The tokenizer never produces it; it is
/// what a lookup outside the token sequence answers.
#[derive(Debug, PartialEq, Eq)]
pub enum Token {
    StringLiteral(String, i32),
    Identifier(String, i32),
    Punctuation(char, i32),
    Bracket(char, i32),
    Operator(char, i32),
    Sentinel,
}

/// A token as a mathematical value: its text is a sequence of characters.
pub enum Lexeme {
    StringLiteral(Seq<char>, i32),
    Identifier(Seq<char>, i32),
    Punctuation(char, i32),
    Bracket(char, i32),
    Operator(char, i32),
    Sentinel,
}

impl View for Token {
    type V = Lexeme;

    open spec fn view(&self) -> Lexeme {
        match *self {
            Token::StringLiteral(text, line) => Lexeme::StringLiteral(text@, line),
            Token::Identifier(text, line) => Lexeme::Identifier(text@, line),
            Token::Punctuation(symbol, line) => Lexeme::Punctuation(symbol, line),
            Token::Bracket(symbol, line) => Lexeme::Bracket(symbol, line),
            Token::Operator(symbol, line) => Lexeme::Operator(symbol, line),
            Token::Sentinel => Lexeme::Sentinel,
        }
    }
}

impl DeepView for Token {
    type V = Lexeme;

    open spec fn deep_view(&self) -> Lexeme {
        self@
    }
}

impl Clone for Token {
    fn clone(&self) -> (copy: Self)
        ensures
            copy == *self,
    {
        match self {
            Token::StringLiteral(text, line) => Token::StringLiteral(text.clone(), *line),
            Token::Identifier(text, line) => Token::Identifier(text.clone(), *line),
            Token::Punctuation(symbol, line) => Token::Punctuation(*symbol, *line),
            Token::Bracket(symbol, line) => Token::Bracket(*symbol, *line),
            Token::Operator(symbol, line) => Token::Operator(*symbol, *line),
            Token::Sentinel => Token::Sentinel,
        }
    }
}

impl Lexeme {
    /// The line the token started on; the sentinel has none and answers 0.
    pub open spec fn line(self) -> int {
        match self {
            Lexeme::StringLiteral(_, line) => line as int,
            Lexeme::Identifier(_, line) => line as int,
            Lexeme::Punctuation(_, line) => line as int,
            Lexeme::Bracket(_, line) => line as int,
            Lexeme::Operator(_, line) => line as int,
            Lexeme::Sentinel => 0,
        }
    }
}

impl Lexeme {
    /// The token written out: the name of its kind and, in brackets, its text
    /// or symbol and its line; for the sentinel the bare name `None`.
    pub open spec fn written(self) -> Seq<char> {
        match self {
            Lexeme::StringLiteral(text, line) => "StringLiteral("@ + text + ", "@ + decimal(
                line as int,
            ) + ")"@,
            Lexeme::Identifier(text, line) => "Identifier("@ + text + ", "@ + decimal(line as int)
                + ")"@,
            Lexeme::Punctuation(symbol, line) => "Punctuation("@ + seq![symbol] + ", "@ + decimal(
                line as int,
            ) + ")"@,
            Lexeme::Bracket(symbol, line) => "Bracket("@ + seq![symbol] + ", "@ + decimal(
                line as int,
            ) + ")"@,
            Lexeme::Operator(symbol, line) => "Operator("@ + seq![symbol] + ", "@ + decimal(
                line as int,
            ) + ")"@,
            Lexeme::Sentinel => "None"@,
        }
    }
}

impl Token {
    /// The token as text, for a message or a trace.
    pub fn render(&self) -> (text: String)
        ensures
            text@ == self@.written(),
    {
        let mut text = String::new();
        match self {
            Token::StringLiteral(s, i) => {
                text.append("StringLiteral(");
                text.append(s.as_str());
                text.append(", ");
                push_decimal(&mut text, *i);
            },
            Token::Identifier(s, i) => {
                text.append("Identifier(");
                text.append(s.as_str());
                text.append(", ");
                push_decimal(&mut text, *i);
            },
            Token::Punctuation(c, i) => {
                text.append("Punctuation(");
                push_char(&mut text, *c);
                text.append(", ");
                push_decimal(&mut text, *i);
            },
            Token::Bracket(c, i) => {
                text.append("Bracket(");
                push_char(&mut text, *c);
                text.append(", ");
                push_decimal(&mut text, *i);
            },
            Token::Operator(c, i) => {
                text.append("Operator(");
                push_char(&mut text, *c);
                text.append(", ");
                push_decimal(&mut text, *i);
            },
            Token::Sentinel => {
                text.append("None");
                assert(text@ =~= self@.written());
                return text;
            },
        }
        text.append(")");
        assert(text@ =~= self@.written());
        text
    }

    /// Whether this token is punctuation.
    pub fn is_punc(&self) -> (b: bool)
        ensures
            b == (self@ is Punctuation),
    {
        match self {
            Token::Punctuation(_, _) => true,
            _ => false,
        }
    }
}

} // verus!
