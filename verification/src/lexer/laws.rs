//! What holds of the scanning rules on every text.
use vstd::prelude::*;

use crate::lexer::lexemes::Lexeme;
use crate::lexer::spec_is_bracket;
use crate::lexer::spec_is_delimiter;
use crate::lexer::spec_is_lexical_quote;
use crate::lexer::spec_is_operator;
use crate::lexer::spec_is_punctuation;
use crate::lexer::next_line;
use crate::lexer::tokenize;
use crate::lexer::Scan;

verus! {

/// Reading a text in two pieces gives what reading it in one piece gives.
pub proof fn lemma_feed_in_pieces(state: Scan, head: Seq<char>, tail: Seq<char>)
    ensures
        state.feed(head + tail) == state.feed(head).feed(tail),
    decreases tail.len(),
{
    if tail.len() == 0 {
        assert(head + tail =~= head);
    } else {
        assert((head + tail).drop_last() =~= head + tail.drop_last());
        assert((head + tail).last() == tail.last());
        lemma_feed_in_pieces(state, head, tail.drop_last());
    }
}

/// Reading a text is reading its first character and then the rest.
pub proof fn lemma_feed_first(state: Scan, text: Seq<char>)
    requires
        text.len() > 0,
    ensures
        state.feed(text) == state.step(text[0]).feed(text.drop_first()),
{
    let first = seq![text[0]];
    assert(first + text.drop_first() =~= text);
    assert(first.drop_last() =~= Seq::<char>::empty());
    assert(state.feed(first) == state.feed(first.drop_last()).step(first.last()));
    lemma_feed_in_pieces(state, first, text.drop_first());
}

/// The tokens that were there before a text is read are still there after
/// it, in front of the new ones, and have no part in what the text gives.
pub proof fn lemma_earlier_tokens_stay(state: Scan, earlier: Seq<Lexeme>, text: Seq<char>)
    ensures
        state.behind(earlier).feed(text) == state.feed(text).behind(earlier),
        state.behind(earlier).feed(text).finish() == state.feed(text).finish().behind(earlier),
    decreases text.len(),
{
    if text.len() == 0 {
    } else {
        lemma_earlier_tokens_stay(state, earlier, text.drop_last());
        let before = state.feed(text.drop_last());
        lemma_step_behind(before, earlier, text.last());
    }
    let read = state.feed(text);
    assert(read.behind(earlier).finish() =~= read.finish().behind(earlier)) by {
        lemma_flush_behind(read, earlier);
    }
}

proof fn lemma_flush_behind(state: Scan, earlier: Seq<Lexeme>)
    ensures
        state.behind(earlier).flush() == state.flush().behind(earlier),
{
    assert(state.behind(earlier).flush().tokens =~= state.flush().behind(earlier).tokens);
}

proof fn lemma_step_behind(state: Scan, earlier: Seq<Lexeme>, c: char)
    ensures
        state.behind(earlier).step(c) == state.step(c).behind(earlier),
{
    lemma_flush_behind(state, earlier);
    assert(state.behind(earlier).step(c).tokens =~= state.step(c).behind(earlier).tokens);
}

/// A character that belongs to no class and so can only be part of an
/// identifier.
pub open spec fn is_word_char(c: char) -> bool {
    !spec_is_delimiter(c) && !spec_is_punctuation(c) && !spec_is_lexical_quote(c)
        && !spec_is_bracket(c) && !spec_is_operator(c)
}

/// Text made of identifier characters and delimiters alone.
pub open spec fn is_plain(text: Seq<char>) -> bool {
    forall|i: int| 0 <= i < text.len() ==> spec_is_delimiter(#[trigger] text[i]) || is_word_char(text[i])
}

/// The length of the longest start of `text` that holds no delimiter.
pub open spec fn run_length(text: Seq<char>) -> nat
    decreases text.len(),
{
    if text.len() == 0 || spec_is_delimiter(text[0]) {
        0
    } else {
        1 + run_length(text.drop_first())
    }
}

/// The longest start of `text` without a delimiter is a start of `text`.
pub proof fn lemma_run_length_bounded(text: Seq<char>)
    ensures
        run_length(text) <= text.len(),
    decreases text.len(),
{
    if text.len() == 0 || spec_is_delimiter(text[0]) {
    } else {
        lemma_run_length_bounded(text.drop_first());
    }
}

/// The words of `text`, which starts on line `line`: its longest runs of
/// characters between delimiters, in the order of the text, each as an
/// identifier with the line it stands on.
pub open spec fn words(text: Seq<char>, line: i32) -> Seq<Lexeme>
    decreases text.len(),
{
    if text.len() == 0 {
        Seq::empty()
    } else if spec_is_delimiter(text[0]) {
        words(
            text.drop_first(),
            if text[0] == '\n' {
                next_line(line)
            } else {
                line
            },
        )
    } else {
        let n = run_length(text) as int;
        proof {
            lemma_run_length_bounded(text);
        }
        seq![Lexeme::Identifier(text.take(n), line)] + words(text.skip(n), line)
    }
}

/// The tokens that the rest of a plain text gives when the characters `word`
/// have been gathered already.
spec fn words_behind(word: Seq<char>, text: Seq<char>, line: i32) -> Seq<Lexeme> {
    let n = run_length(text) as int;
    let first = word + text.take(n);
    if first.len() == 0 {
        words(text.skip(n), line)
    } else {
        seq![Lexeme::Identifier(first, line)] + words(text.skip(n), line)
    }
}

proof fn lemma_words_behind_nothing(text: Seq<char>, line: i32)
    ensures
        words_behind(Seq::empty(), text, line) == words(text, line),
{
    lemma_run_length_bounded(text);
    let n = run_length(text) as int;
    assert(Seq::<char>::empty() + text.take(n) =~= text.take(n));
    if n == 0 {
        assert(text.skip(0) =~= text);
        if text.len() > 0 {
            assert(spec_is_delimiter(text[0]));
        }
    }
}

proof fn lemma_plain_text_from(state: Scan, text: Seq<char>)
    requires
        is_plain(text),
        state.quote is None,
    ensures
        state.feed(text).finish().tokens == state.tokens + words_behind(
            state.word,
            text,
            state.line,
        ),
    decreases text.len(),
{
    if text.len() == 0 {
        assert(state.word + text.take(0) =~= state.word);
        assert(text.skip(0) =~= text);
        assert(state.finish().tokens =~= state.tokens + words_behind(state.word, text, state.line));
    } else {
        let c = text[0];
        let rest = text.drop_first();
        lemma_feed_first(state, text);
        lemma_run_length_bounded(text);
        lemma_run_length_bounded(rest);
        assert(is_plain(rest)) by {
            assert forall|i: int| 0 <= i < rest.len() implies spec_is_delimiter(#[trigger] rest[i])
                || is_word_char(rest[i]) by {
                assert(rest[i] == text[i + 1]);
            }
        }
        let next = state.step(c);
        lemma_plain_text_from(next, rest);
        if spec_is_delimiter(c) {
            lemma_words_behind_nothing(rest, next.line);
            assert(state.word + text.take(0) =~= state.word);
            assert(text.skip(0) =~= text);
            assert(state.feed(text).finish().tokens =~= state.tokens + words_behind(
                state.word,
                text,
                state.line,
            ));
        } else {
            assert(is_word_char(c));
            let n = run_length(text) as int;
            assert(next.word + rest.take(n - 1) =~= state.word + text.take(n));
            assert(rest.skip(n - 1) =~= text.skip(n));
        }
    }
}

/// Text without quote characters, brackets, operators and punctuation gives
/// exactly its words: one identifier for each longest run of characters
/// between delimiters, in the order of the text, with the line it stands on.
pub proof fn lemma_plain_text_gives_its_words(text: Seq<char>, line: i32)
    requires
        is_plain(text),
    ensures
        tokenize(text, line).tokens == words(text, line),
{
    lemma_plain_text_from(Scan::fresh(line), text);
    lemma_words_behind_nothing(text, line);
    assert(Seq::<Lexeme>::empty() + words(text, line) =~= words(text, line));
}

/// Inside a string literal, text without a quote character is gathered as it
/// is, and no token comes of it.
proof fn lemma_feed_inside_literal(state: Scan, text: Seq<char>)
    requires
        state.quote is Some,
        forall|i: int| 0 <= i < text.len() ==> !spec_is_lexical_quote(#[trigger] text[i]),
    ensures
        state.feed(text).tokens == state.tokens,
        state.feed(text).word == state.word + text,
        state.feed(text).quote == state.quote,
    decreases text.len(),
{
    if text.len() == 0 {
        assert(state.word + text =~= state.word);
    } else {
        let start = text.drop_last();
        assert forall|i: int| 0 <= i < start.len() implies !spec_is_lexical_quote(
            #[trigger] start[i],
        ) by {
            assert(start[i] == text[i]);
        }
        lemma_feed_inside_literal(state, start);
        assert(!spec_is_lexical_quote(text[text.len() - 1]));
        assert(state.word + start.push(text.last()) =~= state.word + text);
        assert(start.push(text.last()) =~= text);
    }
}

/// Text between two quote characters, with no quote character in it, gives
/// one string literal: the text as it is, with the line of the opening quote.
pub proof fn lemma_quoted_text_is_one_literal(
    open: char,
    text: Seq<char>,
    close: char,
    line: i32,
)
    requires
        spec_is_lexical_quote(open),
        spec_is_lexical_quote(close),
        forall|i: int| 0 <= i < text.len() ==> !spec_is_lexical_quote(#[trigger] text[i]),
    ensures
        tokenize(seq![open] + text + seq![close], line).tokens == seq![
            Lexeme::StringLiteral(text, line),
        ],
{
    let fresh = Scan::fresh(line);
    let opened = fresh.step(open);
    lemma_feed_in_pieces(fresh, seq![open] + text, seq![close]);
    lemma_feed_in_pieces(fresh, seq![open], text);
    lemma_feed_first(fresh, seq![open]);
    assert(seq![open].drop_first() =~= Seq::<char>::empty());
    assert(fresh.feed(seq![open]) == opened);
    lemma_feed_inside_literal(opened, text);
    let inside = opened.feed(text);
    assert(Seq::<char>::empty() + text =~= text);
    lemma_feed_first(inside, seq![close]);
    assert(seq![close].drop_first() =~= Seq::<char>::empty());
    let closed = inside.step(close);
    assert(closed.tokens =~= seq![Lexeme::StringLiteral(text, line)]);
}

/// What every state that the scanning rules reach has kept: no token is the
/// sentinel, the lines of the tokens never decrease, none lies before
/// `first` or behind the line that the state is at, and the line on which an
/// open string literal began lies behind no token and before no later line.
spec fn in_order(state: Scan, first: i32) -> bool {
    &&& first <= state.line
    &&& state.quote matches Some(opened) ==> {
        &&& first <= opened <= state.line
        &&& forall|i: int|
            0 <= i < state.tokens.len() ==> (#[trigger] state.tokens[i]).line() <= opened
    }
    &&& forall|i: int|
        0 <= i < state.tokens.len() ==> !((#[trigger] state.tokens[i]) is Sentinel) && first
            <= state.tokens[i].line() <= state.line
    &&& forall|i: int, j: int|
        0 <= i <= j < state.tokens.len() ==> (#[trigger] state.tokens[i]).line() <= (
        #[trigger] state.tokens[j]).line()
}

proof fn lemma_emit_in_order(state: Scan, first: i32, token: Lexeme)
    requires
        in_order(state, first),
        state.quote is None,
        !(token is Sentinel),
        first <= token.line() <= state.line,
        forall|i: int| 0 <= i < state.tokens.len() ==> (#[trigger] state.tokens[i]).line() <= token.line(),
    ensures
        in_order(state.emit(token), first),
{
}

proof fn lemma_step_in_order(state: Scan, first: i32, c: char)
    requires
        in_order(state, first),
    ensures
        in_order(state.step(c), first),
{
    match state.quote {
        Some(opened) => {
            if spec_is_lexical_quote(c) {
                let outside = Scan { quote: None, ..state };
                lemma_emit_in_order(outside, first, Lexeme::StringLiteral(state.word, opened));
                assert(state.step(c).tokens == outside.emit(
                    Lexeme::StringLiteral(state.word, opened),
                ).tokens);
            }
        },
        None => {
            let flushed = state.flush();
            if state.word.len() > 0 {
                lemma_emit_in_order(state, first, Lexeme::Identifier(state.word, state.line));
            }
            assert(in_order(flushed, first));
            if spec_is_delimiter(c) {
            } else if spec_is_punctuation(c) {
                lemma_emit_in_order(flushed, first, Lexeme::Punctuation(c, state.line));
            } else if spec_is_lexical_quote(c) {
            } else if spec_is_bracket(c) {
                lemma_emit_in_order(flushed, first, Lexeme::Bracket(c, state.line));
            } else if spec_is_operator(c) {
                lemma_emit_in_order(flushed, first, Lexeme::Operator(c, state.line));
            }
        },
    }
}

proof fn lemma_feed_in_order(state: Scan, first: i32, text: Seq<char>)
    requires
        in_order(state, first),
    ensures
        in_order(state.feed(text), first),
        in_order(state.feed(text).finish(), first),
    decreases text.len(),
{
    if text.len() > 0 {
        lemma_feed_in_order(state, first, text.drop_last());
        lemma_step_in_order(state.feed(text.drop_last()), first, text.last());
    }
    let read = state.feed(text);
    if read.quote is None && read.word.len() > 0 {
        lemma_emit_in_order(read, first, Lexeme::Identifier(read.word, read.line));
    }
}

/// The tokenizer never produces the sentinel.
pub proof fn lemma_no_sentinel(text: Seq<char>, line: i32)
    ensures
        forall|i: int|
            0 <= i < tokenize(text, line).tokens.len() ==> !((#[trigger] tokenize(
                text,
                line,
            ).tokens[i]) is Sentinel),
{
    lemma_feed_in_order(Scan::fresh(line), line, text);
}

/// Tokens come in the order of their lines: a later token never has an
/// earlier line, and every line lies between the line on which the text
/// starts and the line on which it ends.
pub proof fn lemma_lines_never_decrease(text: Seq<char>, line: i32)
    ensures
        forall|i: int, j: int|
            0 <= i <= j < tokenize(text, line).tokens.len() ==> (#[trigger] tokenize(
                text,
                line,
            ).tokens[i]).line() <= (#[trigger] tokenize(text, line).tokens[j]).line(),
        forall|i: int|
            0 <= i < tokenize(text, line).tokens.len() ==> line <= (#[trigger] tokenize(
                text,
                line,
            ).tokens[i]).line() <= tokenize(text, line).line,
{
    lemma_feed_in_order(Scan::fresh(line), line, text);
}

/// The number of line ends in `text`.
pub open spec fn newlines(text: Seq<char>) -> nat
    decreases text.len(),
{
    if text.len() == 0 {
        0
    } else {
        newlines(text.drop_last()) + if text.last() == '\n' {
            1nat
        } else {
            0nat
        }
    }
}

/// The line that lies `n` lines behind `line`, or the last line that can be
/// counted.
pub open spec fn line_after(line: i32, n: nat) -> i32 {
    if line + n <= i32::MAX {
        (line + n) as i32
    } else {
        i32::MAX
    }
}

proof fn lemma_feed_counts_lines(state: Scan, text: Seq<char>)
    ensures
        state.feed(text).line == line_after(state.line, newlines(text)),
        state.feed(text).finish().line == line_after(state.line, newlines(text)),
    decreases text.len(),
{
    if text.len() > 0 {
        lemma_feed_counts_lines(state, text.drop_last());
    }
}

/// Every line end moves the line count on by one, inside a string literal
/// as outside, whatever tokens the text gives.
pub proof fn lemma_lines_are_counted(text: Seq<char>, line: i32)
    ensures
        tokenize(text, line).line == line_after(line, newlines(text)),
{
    lemma_feed_counts_lines(Scan::fresh(line), text);
}

} // verus!
