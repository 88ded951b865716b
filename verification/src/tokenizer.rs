//! The tokenizer: from characters to tokens.
//!
//! What the tokenizer does is fixed by two functions of a text and a position
//! in it: the token that begins there ([`lexeme_at`]) and the position behind
//! that token ([`lexeme_end`]).  The stream of lexemes of a text ([`lex`])
//! follows from the two.

use crate::error::{Found, FoundView, ParseError, ParseErrorView};
use crate::number::{
    has_digit, has_point, is_digit, is_digit_char, is_number_char, is_number_run, is_number_text,
    lemma_run_push, NumLit,
};
use crate::token::{Token, TokenView};
use vstd::prelude::*;

verus! {

/// What one step of the tokenizer yields: a token, or the reason why the
/// characters at hand form none.
pub type Lexeme = Result<TokenView, ParseErrorView>;

/// The lexeme of a token.
pub open spec fn tok(t: TokenView) -> Lexeme {
    Ok(t)
}

/// The lexeme of the number written as `text`.
pub open spec fn num(text: Seq<char>) -> Lexeme {
    Ok(TokenView::Num(text))
}

/// The mathematical value of what [`Tokenizer::next_token`] returns.
pub open spec fn lexeme_view(r: Result<Token, ParseError>) -> Lexeme {
    match r {
        Ok(t) => Ok(t@),
        Err(e) => Err(e@),
    }
}

/// The token that a single character stands for, if it stands for one.
pub open spec fn symbol(c: char) -> Option<TokenView> {
    if c == '+' {
        Some(TokenView::Add)
    } else if c == '-' {
        Some(TokenView::Subtract)
    } else if c == '*' {
        Some(TokenView::Multiply)
    } else if c == '/' {
        Some(TokenView::Divide)
    } else if c == '^' {
        Some(TokenView::Caret)
    } else if c == '(' {
        Some(TokenView::LeftParen)
    } else if c == ')' {
        Some(TokenView::RightParen)
    } else {
        None
    }
}

/// Where the greedy scan of a number stops, when it stands at `i` and
/// `seen_point` says whether a decimal point lies behind it: at the first
/// character that is neither a digit nor a first decimal point, or at the end
/// of the text.
pub open spec fn number_end(text: Seq<char>, i: int, seen_point: bool) -> int
    decreases text.len() - i,
{
    if 0 <= i < text.len() && is_digit(text[i]) {
        number_end(text, i + 1, seen_point)
    } else if 0 <= i < text.len() && text[i] == '.' && !seen_point {
        number_end(text, i + 1, true)
    } else {
        i
    }
}

/// The token that begins at position `i` of `text`.
///
/// Behind the last character stands the end of input.  A digit or a point
/// begins a number, which runs as far as [`number_end`] says and is malformed
/// if it holds no digit.  Each of `+ - * / ^ ( )` is a token by itself.  No
/// other character begins a token.
pub open spec fn lexeme_at(text: Seq<char>, i: int) -> Lexeme {
    if !(0 <= i < text.len()) {
        tok(TokenView::EOF)
    } else if is_number_char(text[i]) {
        let run = text.subrange(i, number_end(text, i, false));
        if has_digit(run) {
            num(run)
        } else {
            Err(ParseErrorView::MalformedNumber { context: run })
        }
    } else {
        match symbol(text[i]) {
            Some(t) => Ok(t),
            None => Err(
                ParseErrorView::UnexpectedToken { expected: None, found: FoundView::Char(text[i]) },
            ),
        }
    }
}

/// The position behind the token that begins at position `i` of `text`.
pub open spec fn lexeme_end(text: Seq<char>, i: int) -> int {
    if !(0 <= i < text.len()) {
        i
    } else if is_number_char(text[i]) {
        number_end(text, i, false)
    } else {
        i + 1
    }
}

/// Whether nothing follows this lexeme: it is an error or the end of input.
pub open spec fn is_final(l: Lexeme) -> bool {
    l is Err || l == tok(TokenView::EOF)
}

/// The scan of a number never goes back, and never leaves the text.
pub proof fn lemma_number_end_bounds(text: Seq<char>, i: int, seen_point: bool)
    requires
        0 <= i <= text.len(),
    ensures
        i <= number_end(text, i, seen_point) <= text.len(),
    decreases text.len() - i,
{
    if i < text.len() && is_digit(text[i]) {
        lemma_number_end_bounds(text, i + 1, seen_point);
    } else if i < text.len() && text[i] == '.' && !seen_point {
        lemma_number_end_bounds(text, i + 1, true);
    }
}

/// Every token inside the text takes at least one character, and none
/// reaches beyond the text.
pub proof fn lemma_lexeme_end_bounds(text: Seq<char>, i: int)
    requires
        0 <= i < text.len(),
    ensures
        i < lexeme_end(text, i) <= text.len(),
{
    if is_number_char(text[i]) {
        if is_digit(text[i]) {
            lemma_number_end_bounds(text, i + 1, false);
        } else {
            lemma_number_end_bounds(text, i + 1, true);
        }
    }
}

/// The lexemes of `text` from position `i` on, up to and including the first
/// one that is an error or the end of input.
pub open spec fn lex_from(text: Seq<char>, i: int) -> Seq<Lexeme>
    decreases text.len() - i,
{
    let first = lexeme_at(text, i);
    if is_final(first) {
        seq![first]
    } else {
        proof {
            lemma_lexeme_end_bounds(text, i);
        }
        seq![first] + lex_from(text, lexeme_end(text, i))
    }
}

/// The stream of lexemes of a text.
pub open spec fn lex(text: Seq<char>) -> Seq<Lexeme> {
    lex_from(text, 0)
}

/// The stream of a text is finite and ends where it should: it has at most
/// one lexeme for each character and one more, its last lexeme is an error or
/// the end of input, and no lexeme before the last is either.
pub proof fn lemma_lex_shape(text: Seq<char>, i: int)
    requires
        0 <= i <= text.len(),
    ensures
        1 <= lex_from(text, i).len() <= text.len() - i + 1,
        is_final(lex_from(text, i).last()),
        forall|j: int|
            0 <= j < lex_from(text, i).len() - 1 ==> !is_final(#[trigger] lex_from(text, i)[j]),
    decreases text.len() - i,
{
    let first = lexeme_at(text, i);
    if !is_final(first) {
        lemma_lexeme_end_bounds(text, i);
        let next = lexeme_end(text, i);
        lemma_lex_shape(text, next);
        let rest = lex_from(text, next);
        let all = lex_from(text, i);
        assert(all == seq![first] + rest);
        assert(all.last() == rest.last());
        assert forall|j: int| 0 <= j < all.len() - 1 implies !is_final(#[trigger] all[j]) by {
            if j > 0 {
                assert(all[j] == rest[j - 1]);
            }
        }
    }
}

/// The scan of a number, seen from a position inside the number: it goes on
/// to the end of the longest run of digits with at most one point.
proof fn lemma_number_end_is_longest(text: Seq<char>, start: int, i: int, seen_point: bool)
    requires
        0 <= start <= i <= text.len(),
        is_number_run(text.subrange(start, i)),
        seen_point <==> has_point(text.subrange(start, i)),
    ensures
        i <= number_end(text, i, seen_point) <= text.len(),
        is_number_run(text.subrange(start, number_end(text, i, seen_point))),
        number_end(text, i, seen_point) < text.len() ==> !is_number_run(
            text.subrange(start, number_end(text, i, seen_point) + 1),
        ),
    decreases text.len() - i,
{
    let run = text.subrange(start, i);
    if i < text.len() {
        let c = text[i];
        lemma_run_push(run, c);
        assert(text.subrange(start, i + 1) =~= run.push(c));
        if is_digit(c) {
            lemma_number_end_is_longest(text, start, i + 1, seen_point);
        } else if c == '.' && !seen_point {
            lemma_number_end_is_longest(text, start, i + 1, true);
        }
    }
}

/// The scan of a number is greedy: the characters that it takes are the
/// longest run of digits with at most one point that begins at the position,
/// and one character more would not be such a run.  If the run holds a digit
/// it is a number text; if not, it is a point that stands alone.
pub proof fn lemma_number_is_longest_run(text: Seq<char>, i: int)
    requires
        0 <= i < text.len(),
        is_number_char(text[i]),
    ensures
        i < lexeme_end(text, i) <= text.len(),
        is_number_run(text.subrange(i, lexeme_end(text, i))),
        lexeme_end(text, i) < text.len() ==> !is_number_run(
            text.subrange(i, lexeme_end(text, i) + 1),
        ),
        lexeme_at(text, i) matches Ok(TokenView::Num(run)) ==> is_number_text(run),
        lexeme_at(text, i) matches Err(ParseErrorView::MalformedNumber { context }) ==> context
            == seq!['.'],
        lexeme_at(text, i) is Ok <==> has_digit(text.subrange(i, lexeme_end(text, i))),
{
    let c = text[i];
    let empty = text.subrange(i, i);
    lemma_run_push(empty, c);
    assert(text.subrange(i, i + 1) =~= empty.push(c));
    lemma_number_end_is_longest(text, i, i + 1, c == '.');
    let run = text.subrange(i, lexeme_end(text, i));
    if !has_digit(run) {
        assert(run[0] == '.');
        if run.len() > 1 {
            assert(is_number_char(run[1]));
            assert(run[1] == '.');
        }
        assert(run =~= seq!['.']);
    }
}

/// The characters that a token is written with.
pub open spec fn written(t: TokenView) -> Seq<char> {
    match t {
        TokenView::Add => seq!['+'],
        TokenView::Subtract => seq!['-'],
        TokenView::Multiply => seq!['*'],
        TokenView::Divide => seq!['/'],
        TokenView::Caret => seq!['^'],
        TokenView::LeftParen => seq!['('],
        TokenView::RightParen => seq![')'],
        TokenView::Num(run) => run,
        TokenView::EOF => seq![],
    }
}

/// The characters that the tokens of a stream are written with, one token
/// behind the other.
pub open spec fn written_all(stream: Seq<Lexeme>) -> Seq<char>
    decreases stream.len(),
{
    if stream.len() == 0 {
        seq![]
    } else {
        match stream[0] {
            Ok(t) => written(t) + written_all(stream.drop_first()),
            Err(_) => written_all(stream.drop_first()),
        }
    }
}

/// The tokenizer skips nothing and adds nothing: where a text has no fault,
/// its tokens, written one behind the other, are the text.
pub proof fn lemma_tokens_spell_the_text(text: Seq<char>, i: int)
    requires
        0 <= i <= text.len(),
        lex_from(text, i).last() is Ok,
    ensures
        written_all(lex_from(text, i)) == text.skip(i),
    decreases text.len() - i,
{
    let first = lexeme_at(text, i);
    let stream = lex_from(text, i);
    if is_final(first) {
        assert(stream[0] == first);
        assert(i == text.len());
        assert(written_all(stream.drop_first()) =~= seq![]);
        assert(written_all(stream) =~= text.skip(i));
    } else {
        lemma_lexeme_end_bounds(text, i);
        let end = lexeme_end(text, i);
        let rest = lex_from(text, end);
        assert(stream.last() == rest.last());
        assert(stream.drop_first() =~= rest);
        lemma_tokens_spell_the_text(text, end);
        assert(written(first->Ok_0) =~= text.subrange(i, end));
        assert(written_all(stream) =~= text.skip(i));
    }
}

/// The lexemes that stand for the given tokens, none of them an error.
pub open spec fn lexemes_of(tokens: Seq<Token>) -> Seq<Lexeme> {
    Seq::new(tokens.len(), |i: int| tok(tokens[i]@))
}

/// A cursor over the characters of an expression, which hands out one token
/// at a time.
pub struct Tokenizer {
    chars: Vec<char>,
    pos: usize,
}

impl Tokenizer {
    #[verifier::type_invariant]
    spec fn in_bounds(&self) -> bool {
        self.pos <= self.chars.len()
    }

    /// The whole text that is being cut into tokens.
    pub closed spec fn text(&self) -> Seq<char> {
        self.chars@
    }

    /// The number of characters that have been consumed.
    pub closed spec fn position(&self) -> int {
        self.pos as int
    }

    /// The lexemes that are still to come.
    pub open spec fn pending(&self) -> Seq<Lexeme> {
        lex_from(self.text(), self.position())
    }

    /// A tokenizer at the start of `expr`.
    pub fn new(expr: &str) -> (t: Tokenizer)
        ensures
            t.text() == expr@,
            t.position() == 0,
    {
        let mut chars: Vec<char> = Vec::new();
        for c in it: expr.chars()
            invariant
                it.seq() == expr@,
                chars@ == expr@.take(it.index()),
        {
            chars.push(c);
        }
        assert(chars@ == expr@);
        Tokenizer { chars, pos: 0 }
    }

    /// Scans the token at the cursor and moves the cursor behind it.
    ///
    /// At the end of the text the token is `EOF`, and the cursor stays.
    pub fn next_token(&mut self) -> (r: Result<Token, ParseError>)
        ensures
            lexeme_view(r) == lexeme_at(old(self).text(), old(self).position()),
            final(self).text() == old(self).text(),
            final(self).position() == lexeme_end(old(self).text(), old(self).position()),
            0 <= old(self).position() <= final(self).position() <= old(self).text().len(),
            old(self).position() < old(self).text().len() ==> old(self).position() < final(self)
                .position(),
    {
        proof {
            use_type_invariant(&*self);
            if self.pos < self.chars.len() {
                lemma_lexeme_end_bounds(self.chars@, self.pos as int);
            }
        }
        if self.pos >= self.chars.len() {
            return Ok(Token::EOF);
        }
        let c = self.chars[self.pos];
        if is_digit_char(c) || c == '.' {
            return self.scan_number();
        }
        self.pos = self.pos + 1;
        if c == '+' {
            Ok(Token::Add)
        } else if c == '-' {
            Ok(Token::Subtract)
        } else if c == '*' {
            Ok(Token::Multiply)
        } else if c == '/' {
            Ok(Token::Divide)
        } else if c == '^' {
            Ok(Token::Caret)
        } else if c == '(' {
            Ok(Token::LeftParen)
        } else if c == ')' {
            Ok(Token::RightParen)
        } else {
            Err(ParseError::UnexpectedToken { expected: None, found: Found::Char(c) })
        }
    }

    /// Scans the number that begins at the cursor.
    fn scan_number(&mut self) -> (r: Result<Token, ParseError>)
        requires
            old(self).position() < old(self).text().len(),
            is_number_char(old(self).text()[old(self).position()]),
        ensures
            lexeme_view(r) == lexeme_at(old(self).text(), old(self).position()),
            final(self).text() == old(self).text(),
            final(self).position() == lexeme_end(old(self).text(), old(self).position()),
    {
        proof {
            use_type_invariant(&*self);
        }
        let start = self.pos;
        let mut i = start;
        let mut seen_point = false;
        let mut seen_digit = false;
        let mut scanning = true;
        let mut run: Vec<char> = Vec::new();
        let chars = &self.chars;
        assert(run@ =~= chars@.subrange(start as int, i as int));
        while scanning && i < chars.len()
            invariant
                start <= i <= chars.len(),
                run@ == chars@.subrange(start as int, i as int),
                is_number_run(run@),
                seen_point <==> has_point(run@),
                seen_digit <==> has_digit(run@),
                number_end(chars@, start as int, false) == number_end(chars@, i as int, seen_point),
                !scanning ==> number_end(chars@, i as int, seen_point) == i,
            decreases chars.len() - i + (if scanning { 1int } else { 0int }),
        {
            let c = chars[i];
            if is_digit_char(c) || (c == '.' && !seen_point) {
                proof {
                    lemma_run_push(run@, c);
                    assert(chars@.subrange(start as int, i + 1) =~= run@.push(c));
                }
                if c == '.' {
                    seen_point = true;
                } else {
                    seen_digit = true;
                }
                run.push(c);
                i = i + 1;
            } else {
                scanning = false;
            }
        }
        self.pos = i;
        if seen_digit {
            Ok(Token::Num(NumLit::from_chars(run)))
        } else {
            Err(ParseError::MalformedNumber { context: run })
        }
    }
}

/// Cuts a whole text into tokens.
///
/// The result holds every token of the text, the closing `EOF` included.  The
/// first character run that forms no token makes the whole text fail, with
/// the error of that run.
pub fn tokenize(expr: &str) -> (r: Result<Vec<Token>, ParseError>)
    ensures
        match r {
            Ok(tokens) => lex(expr@) == lexemes_of(tokens@),
            Err(e) => lex(expr@).last() == Err::<TokenView, ParseErrorView>(e@),
        },
{
    let mut tokenizer = Tokenizer::new(expr);
    let mut tokens: Vec<Token> = Vec::new();
    assert(lexemes_of(tokens@) + tokenizer.pending() =~= lex(expr@));
    loop
        invariant
            tokenizer.text() == expr@,
            0 <= tokenizer.position() <= expr@.len(),
            lex(expr@) == lexemes_of(tokens@) + tokenizer.pending(),
        decreases expr@.len() - tokenizer.position(),
    {
        let ghost before = lexemes_of(tokens@);
        let ghost pending = tokenizer.pending();
        match tokenizer.next_token() {
            Err(e) => {
                assert(pending == seq![Err::<TokenView, ParseErrorView>(e@)]);
                assert((before + pending).last() == pending.last());
                return Err(e);
            },
            Ok(token) => {
                let done = match token {
                    Token::EOF => true,
                    _ => false,
                };
                let ghost first: Lexeme = Ok(token@);
                tokens.push(token);
                assert(lexemes_of(tokens@) =~= before + seq![first]);
                if done {
                    assert(pending == seq![first]);
                    return Ok(tokens);
                }
                assert(pending == seq![first] + tokenizer.pending());
                assert(lexemes_of(tokens@) + tokenizer.pending() =~= before + pending);
            },
        }
    }
}

} // verus!
