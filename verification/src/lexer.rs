use crate::numeric::{float_of_decimal, is_plain_decimal, parse_float};
use crate::token::{Token, TokenView};
use vstd::prelude::*;

verus! {

/// An error of the lexer: an input character (or numeric literal) that does
/// not fit any token.
#[derive(Debug, Clone, PartialEq)]
pub enum LexerError {
    InvalidInputChar(String),
}

/// The mathematical shape of a lexer error.
pub enum LexerErrorView {
    InvalidInputChar(Seq<char>),
}

impl View for LexerError {
    type V = LexerErrorView;

    open spec fn view(&self) -> LexerErrorView {
        match self {
            LexerError::InvalidInputChar(s) => LexerErrorView::InvalidInputChar(s@),
        }
    }
}

/// What `char::is_numeric` holds of a character.
pub uninterp spec fn char_is_numeric(c: char) -> bool;

/// What `char::is_alphabetic` holds of a character.
pub uninterp spec fn char_is_alphabetic(c: char) -> bool;

/// An ASCII decimal digit.
pub open spec fn is_ascii_digit_char(c: char) -> bool {
    48 <= c as u32 && c as u32 <= 57
}

/// An ASCII letter.
pub open spec fn is_ascii_alpha_char(c: char) -> bool {
    (65 <= c as u32 && c as u32 <= 90) || (97 <= c as u32 && c as u32 <= 122)
}

/// Relies on `char::is_numeric`: a function of the character alone; on
/// ASCII it holds exactly of the ten digits.
pub assume_specification[ char::is_numeric ](c: char) -> (r: bool)
    ensures
        r == char_is_numeric(c),
        is_ascii_digit_char(c) ==> r,
        ((c as u32) < 128 && !is_ascii_digit_char(c)) ==> !r,
;

/// Relies on `char::is_alphabetic`: a function of the character alone; on
/// ASCII it holds exactly of the letters.
pub assume_specification[ char::is_alphabetic ](c: char) -> (r: bool)
    ensures
        r == char_is_alphabetic(c),
        is_ascii_alpha_char(c) ==> r,
        ((c as u32) < 128 && !is_ascii_alpha_char(c)) ==> !r,
;

/// Where the run of numeric characters beginning at `i` ends.
pub open spec fn numeric_run_end(s: Seq<char>, i: int) -> int
    decreases s.len() - i,
{
    if i < s.len() && char_is_numeric(s[i]) {
        numeric_run_end(s, i + 1)
    } else {
        i
    }
}

/// Where the run of alphabetic characters beginning at `i` ends.
pub open spec fn alpha_run_end(s: Seq<char>, i: int) -> int
    decreases s.len() - i,
{
    if i < s.len() && char_is_alphabetic(s[i]) {
        alpha_run_end(s, i + 1)
    } else {
        i
    }
}

/// A run of numeric characters never ends before it starts nor past the end
/// of the text.
pub proof fn lemma_numeric_run_end(s: Seq<char>, i: int)
    requires
        0 <= i <= s.len(),
    ensures
        i <= numeric_run_end(s, i) <= s.len(),
    decreases s.len() - i,
{
    if i < s.len() && char_is_numeric(s[i]) {
        lemma_numeric_run_end(s, i + 1);
    }
}

/// A run of alphabetic characters never ends before it starts nor past the
/// end of the text.
pub proof fn lemma_alpha_run_end(s: Seq<char>, i: int)
    requires
        0 <= i <= s.len(),
    ensures
        i <= alpha_run_end(s, i) <= s.len(),
    decreases s.len() - i,
{
    if i < s.len() && char_is_alphabetic(s[i]) {
        lemma_alpha_run_end(s, i + 1);
    }
}

/// Where the numeric literal beginning at `start` ends: the digits, then,
/// if a dot follows them, the dot and the digits after it. The character at
/// `start` itself is part of the literal whatever it is.
pub open spec fn numeric_literal_end(s: Seq<char>, start: int) -> int {
    let d1 = numeric_run_end(s, start + 1);
    if d1 < s.len() && s[d1] == '.' {
        numeric_run_end(s, d1 + 1)
    } else {
        d1
    }
}

/// The value of a sequence of ASCII decimal digits.
pub open spec fn decimal_value(s: Seq<char>) -> int
    decreases s.len(),
{
    if s.len() == 0 {
        0
    } else {
        decimal_value(s.drop_last()) * 10 + (s.last() as u32 - 48)
    }
}

/// Whether every character of `s` is an ASCII decimal digit.
pub open spec fn all_ascii_digits(s: Seq<char>) -> bool {
    forall|i: int| 0 <= i < s.len() ==> is_ascii_digit_char(#[trigger] s[i])
}

/// What token a numeric literal denotes: with a dot it is a float literal,
/// rounded to the nearest binary32 value (a literal ending in the dot means
/// the same as with a zero appended); without a dot it is an integer
/// literal, whose value must be ASCII digits within the `i32` range.
/// Anything else — a digit beyond ASCII, or an oversized integer — is
/// rejected.
pub open spec fn numeric_literal_token(lit: Seq<char>) -> Result<TokenView, LexerErrorView> {
    if lit.contains('.') {
        let norm = if lit.last() == '.' {
            lit.push('0')
        } else {
            lit
        };
        if is_plain_decimal(norm) {
            Ok(TokenView::F32(float_of_decimal(norm)))
        } else {
            Err(LexerErrorView::InvalidInputChar(lit))
        }
    } else {
        if lit.len() > 0 && all_ascii_digits(lit) && decimal_value(lit) <= i32::MAX as int {
            Ok(TokenView::I32(decimal_value(lit) as i32))
        } else {
            Err(LexerErrorView::InvalidInputChar(lit))
        }
    }
}

/// The tokens of the text from position `i` on, appended to `acc`: spaces
/// and line breaks are skipped, single characters denote the operator and
/// parenthesis tokens, a numeric character opens a numeric literal, and any
/// other character opens a word, which is the `let` keyword or an
/// identifier.
pub open spec fn lex_from(s: Seq<char>, i: int, acc: Seq<TokenView>) -> Result<
    Seq<TokenView>,
    LexerErrorView,
>
    decreases s.len() - i,
{
    if i < 0 || i >= s.len() {
        Ok(acc)
    } else {
        let c = s[i];
        if c == ' ' || c == '\n' || c == '\r' {
            lex_from(s, i + 1, acc)
        } else if c == '+' {
            lex_from(s, i + 1, acc.push(TokenView::Plus))
        } else if c == '-' {
            lex_from(s, i + 1, acc.push(TokenView::Minus))
        } else if c == '*' {
            lex_from(s, i + 1, acc.push(TokenView::Star))
        } else if c == '/' {
            lex_from(s, i + 1, acc.push(TokenView::Slash))
        } else if c == '(' {
            lex_from(s, i + 1, acc.push(TokenView::OpenParen))
        } else if c == ')' {
            lex_from(s, i + 1, acc.push(TokenView::CloseParen))
        } else if c == '^' {
            lex_from(s, i + 1, acc.push(TokenView::Caret))
        } else if c == '=' {
            lex_from(s, i + 1, acc.push(TokenView::Assign))
        } else if char_is_numeric(c) {
            let end = clamp_to(numeric_literal_end(s, i), i + 1, s.len() as int);
            match numeric_literal_token(s.subrange(i, end)) {
                Ok(t) => lex_from(s, end, acc.push(t)),
                Err(e) => Err(e),
            }
        } else {
            let end = clamp_to(alpha_run_end(s, i + 1), i + 1, s.len() as int);
            let word = s.subrange(i, end);
            if word == seq!['l', 'e', 't'] {
                lex_from(s, end, acc.push(TokenView::Let))
            } else {
                lex_from(s, end, acc.push(TokenView::Ident(word)))
            }
        }
    }
}

/// Keeps an index inside the bounds; the run ends the lexer computes are
/// already inside them, so this only serves the termination measure.
pub open spec fn clamp_to(x: int, lo: int, hi: int) -> int {
    if x < lo {
        lo
    } else if x > hi {
        hi
    } else {
        x
    }
}

/// What tokenizing a whole line yields.
pub open spec fn lex_spec(s: Seq<char>) -> Result<Seq<TokenView>, LexerErrorView> {
    lex_from(s, 0, Seq::<TokenView>::empty())
}

/// Reads one numeric literal: the character at `start`, the numeric
/// characters after it, and, if a dot follows them, the dot and the numeric
/// characters after the dot. Returns the literal and the position just past
/// it.
pub fn read_numeric(line: &str, start: usize) -> (res: (String, usize))
    requires
        start < line@.len(),
    ensures
        res.1 == clamp_to(numeric_literal_end(line@, start as int), start as int + 1, line@.len() as int),
        res.0@ == line@.subrange(start as int, res.1 as int),
        start < res.1 <= line@.len(),
{
    let line_len = line.unicode_len();
    let mut i: usize = start + 1;
    proof {
        lemma_numeric_run_end(line@, start as int + 1);
    }
    while i < line_len && line.get_char(i).is_numeric()
        invariant
            start + 1 <= i <= line_len,
            line_len == line@.len(),
            numeric_run_end(line@, start as int + 1) == numeric_run_end(line@, i as int),
        decreases line_len - i,
    {
        i = i + 1;
    }
    if i < line_len && line.get_char(i) == '.' {
        i = i + 1;
        proof {
            lemma_numeric_run_end(line@, i as int);
        }
        while i < line_len && line.get_char(i).is_numeric()
            invariant
                i <= line_len,
                line_len == line@.len(),
                numeric_run_end(line@, numeric_run_end(line@, start as int + 1) + 1)
                    == numeric_run_end(line@, i as int),
            decreases line_len - i,
        {
            i = i + 1;
        }
    }
    let lit = line.substring_char(start, i).to_owned();
    (lit, i)
}

/// Reads one word: the character at `start` and the alphabetic characters
/// after it. Returns the word and the position just past it.
pub fn read_keyword_or_identifier(line: &str, start: usize) -> (res: (Option<String>, usize))
    requires
        start < line@.len(),
    ensures
        res.1 == clamp_to(alpha_run_end(line@, start as int + 1), start as int + 1, line@.len() as int),
        res.0 is Some && res.0->0@ == line@.subrange(start as int, res.1 as int),
        start < res.1 <= line@.len(),
{
    let line_len = line.unicode_len();
    let mut i: usize = start + 1;
    proof {
        lemma_alpha_run_end(line@, start as int + 1);
    }
    while i < line_len && line.get_char(i).is_alphabetic()
        invariant
            start + 1 <= i <= line_len,
            line_len == line@.len(),
            alpha_run_end(line@, start as int + 1) == alpha_run_end(line@, i as int),
        decreases line_len - i,
    {
        i = i + 1;
    }
    let word = line.substring_char(start, i).to_owned();
    (Some(word), i)
}

/// The value of a literal of ASCII decimal digits, if it is one and fits an
/// `i32`.
fn parse_int_literal(lit: &str) -> (res: Option<i32>)
    ensures
        match res {
            Some(v) => lit@.len() > 0 && all_ascii_digits(lit@) && decimal_value(lit@)
                <= i32::MAX as int && v == decimal_value(lit@),
            None => !(lit@.len() > 0 && all_ascii_digits(lit@) && decimal_value(lit@)
                <= i32::MAX as int),
        },
{
    let len = lit.unicode_len();
    if len == 0 {
        return None;
    }
    let mut acc: u64 = 0;
    let mut too_big = false;
    let mut i: usize = 0;
    proof {
        assert(lit@.subrange(0, 0) =~= Seq::<char>::empty());
    }
    while i < len
        invariant
            i <= len,
            len == lit@.len(),
            all_ascii_digits(lit@.subrange(0, i as int)),
            !too_big ==> acc == decimal_value(lit@.subrange(0, i as int)) && acc
                <= i32::MAX as u64,
            too_big ==> decimal_value(lit@.subrange(0, i as int)) > i32::MAX as int,
        decreases len - i,
    {
        let c = lit.get_char(i);
        let cv = c as u32;
        if !(48 <= cv && cv <= 57) {
            return None;
        }
        proof {
            assert(lit@.subrange(0, i as int + 1).drop_last() =~= lit@.subrange(0, i as int));
            assert(lit@.subrange(0, i as int + 1).last() == lit@[i as int]);
        }
        if too_big {
            i = i + 1;
            continue ;
        }
        let next: u64 = acc * 10 + (cv - 48) as u64;
        if next > i32::MAX as u64 {
            too_big = true;
        } else {
            acc = next;
        }
        i = i + 1;
    }
    proof {
        assert(lit@.subrange(0, len as int) =~= lit@);
    }
    if too_big {
        None
    } else {
        Some(acc as i32)
    }
}

/// Splits a line of text into the token sequence the parser consumes.
/// Spaces and line breaks separate tokens and are dropped; every other
/// character opens an operator or parenthesis token, a numeric literal, or
/// a word.
pub fn extract_token_stream(line: String) -> (result: Result<Vec<Token>, LexerError>)
    ensures
        match result {
            Ok(tokens) => lex_spec(line@) == Ok::<_, LexerErrorView>(tokens.deep_view()),
            Err(e) => lex_spec(line@) == Err::<Seq<TokenView>, _>(e@),
        },
{
    let line_len = line.as_str().unicode_len();
    let mut tokens: Vec<Token> = Vec::new();
    let mut i: usize = 0;

    proof {
        assert(tokens.deep_view() =~= Seq::<TokenView>::empty());
    }

    while i < line_len
        invariant
            i <= line_len,
            line_len == line@.len(),
            lex_spec(line@) == lex_from(line@, i as int, tokens.deep_view()),
        decreases line_len - i,
    {
        let c = line.as_str().get_char(i);
        let ghost toks0 = tokens.deep_view();
        if c == ' ' || c == '\n' || c == '\r' {
            i = i + 1;
            continue ;
        }
        if c == '+' {
            tokens.push(Token::Plus);
        } else if c == '-' {
            tokens.push(Token::Minus);
        } else if c == '*' {
            tokens.push(Token::Star);
        } else if c == '/' {
            tokens.push(Token::Slash);
        } else if c == '(' {
            tokens.push(Token::OpenParen);
        } else if c == ')' {
            tokens.push(Token::CloseParen);
        } else if c == '^' {
            tokens.push(Token::Caret);
        } else if c == '=' {
            tokens.push(Token::Assign);
        } else if c.is_numeric() {
            let (lit, end) = read_numeric(line.as_str(), i);
            let has_dot = literal_has_dot(&lit);
            if has_dot {
                let mut norm = lit.clone();
                if norm.as_str().get_char(norm.as_str().unicode_len() - 1) == '.' {
                    norm.append("0");
                    proof {
                        reveal_strlit("0");
                        assert(norm@ =~= lit@.push('0'));
                    }
                }
                if is_plain_decimal_text(norm.as_str()) {
                    match parse_float(norm.as_str()) {
                        Some(bits) => {
                            tokens.push(Token::F32(bits));
                        },
                        None => {
                            proof {
                                assert(false);
                            }
                            return Err(LexerError::InvalidInputChar(lit));
                        },
                    }
                } else {
                    return Err(LexerError::InvalidInputChar(lit));
                }
            } else {
                match parse_int_literal(lit.as_str()) {
                    Some(value) => {
                        tokens.push(Token::I32(value));
                    },
                    None => {
                        return Err(LexerError::InvalidInputChar(lit));
                    },
                }
            }
            proof {
                assert(tokens.deep_view() =~= toks0.push(
                    numeric_literal_token(line@.subrange(i as int, end as int))->Ok_0,
                ));
            }
            i = end;
            continue ;
        } else {
            let (word_opt, end) = read_keyword_or_identifier(line.as_str(), i);
            let word = match word_opt {
                Some(w) => w,
                None => {
                    proof {
                        assert(false);
                    }
                    return Err(LexerError::InvalidInputChar(String::from_str("")));
                },
            };
            let wlen = word.as_str().unicode_len();
            let is_let = wlen == 3 && word.as_str().get_char(0) == 'l' && word.as_str().get_char(1)
                == 'e' && word.as_str().get_char(2) == 't';
            proof {
                if is_let {
                    assert(word@ =~= seq!['l', 'e', 't']);
                } else {
                    assert(!(word@ =~= seq!['l', 'e', 't']));
                }
            }
            if is_let {
                tokens.push(Token::Let);
            } else {
                tokens.push(Token::Ident(word));
            }
            proof {
                assert(tokens.deep_view() =~= toks0.push(
                    if line@.subrange(i as int, end as int) == seq!['l', 'e', 't'] {
                        TokenView::Let
                    } else {
                        TokenView::Ident(line@.subrange(i as int, end as int))
                    },
                ));
            }
            i = end;
            continue ;
        }
        proof {
            assert(tokens.deep_view() =~= toks0.push(tokens.deep_view().last()));
        }
        i = i + 1;
    }
    Ok(tokens)
}

/// Whether a literal holds a dot.
fn literal_has_dot(lit: &String) -> (r: bool)
    ensures
        r == lit@.contains('.'),
{
    let len = lit.as_str().unicode_len();
    let mut i: usize = 0;
    while i < len
        invariant
            i <= len,
            len == lit@.len(),
            forall|j: int| 0 <= j < i ==> lit@[j] != '.',
        decreases len - i,
    {
        if lit.as_str().get_char(i) == '.' {
            proof {
                assert(lit@.contains('.'));
            }
            return true;
        }
        i = i + 1;
    }
    proof {
        assert(forall|j: int| 0 <= j < lit@.len() ==> lit@[j] != '.');
        assert(!lit@.contains('.'));
    }
    false
}

/// Whether the text is a non-empty run of ASCII digits with at most one
/// dot, holding at least one digit.
fn is_plain_decimal_text(s: &str) -> (r: bool)
    ensures
        r == is_plain_decimal(s@),
{
    let len = s.unicode_len();
    if len == 0 {
        return false;
    }
    let mut dots: usize = 0;
    let mut digits: usize = 0;
    let mut i: usize = 0;
    while i < len
        invariant
            i <= len,
            len == s@.len(),
            dots <= i,
            digits <= i,
            forall|j: int|
                0 <= j < i ==> (is_ascii_digit_char(#[trigger] s@[j]) || s@[j] == '.'),
            (digits > 0) == (exists|j: int| 0 <= j < i && is_ascii_digit_char(#[trigger] s@[j])),
            dots == 0 ==> (forall|j: int| 0 <= j < i ==> #[trigger] s@[j] != '.'),
            dots == 1 ==> (exists|j: int| 0 <= j < i && #[trigger] s@[j] == '.') && (forall|
                j1: int,
                j2: int,
            |
                0 <= j1 < j2 < i && #[trigger] s@[j1] == '.' && #[trigger] s@[j2] == '.'
                    ==> false),
            dots <= 1,
        decreases len - i,
    {
        let c = s.get_char(i);
        let cv = c as u32;
        if 48 <= cv && cv <= 57 {
            proof {
                assert(is_ascii_digit_char(s@[i as int]));
            }
            digits = digits + 1;
        } else if c == '.' {
            proof {
                assert(s@[i as int] == '.');
            }
            if dots == 1 {
                proof {
                    let j1 = choose|j: int| 0 <= j < i && #[trigger] s@[j] == '.';
                    assert(s@[j1] == '.' && s@[i as int] == '.' && j1 < i as int);
                    assert(!is_plain_decimal(s@));
                }
                return false;
            }
            dots = dots + 1;
        } else {
            proof {
                assert(!(is_ascii_digit_char(s@[i as int]) || s@[i as int] == '.'));
                assert(!is_plain_decimal(s@));
            }
            return false;
        }
        i = i + 1;
    }
    if digits > 0 {
        proof {
            assert(s@.len() > 0);
            assert(forall|j1: int, j2: int|
                0 <= j1 < j2 < s@.len() && #[trigger] s@[j1] == '.' && #[trigger] s@[j2] == '.'
                    ==> false);
            assert(is_plain_decimal(s@));
        }
        true
    } else {
        proof {
            assert(!(exists|j: int| 0 <= j < s@.len() && is_ascii_digit_char(#[trigger] s@[j])));
            assert(!is_plain_decimal(s@));
        }
        false
    }
}

} // verus!
