use vstd::prelude::*;

verus! {

/// A lexical unit of the expression language, as handed over by the lexer.
///
/// A float literal is carried as the bit pattern of an IEEE-754 binary32
/// number, so that every token is made of plain values.
#[derive(Debug, PartialEq)]
pub enum Token {
    Ident(String),
    F32(u32),
    I32(i32),
    Plus,
    Minus,
    Star,
    Slash,
    OpenParen,
    CloseParen,
    Caret,
    Let,
    Assign,
}

/// The mathematical shape of a token: an identifier is a sequence of
/// characters, every other variant carries plain values already.
pub enum TokenView {
    Ident(Seq<char>),
    F32(u32),
    I32(i32),
    Plus,
    Minus,
    Star,
    Slash,
    OpenParen,
    CloseParen,
    Caret,
    Let,
    Assign,
}

impl View for Token {
    type V = TokenView;

    open spec fn view(&self) -> TokenView {
        match self {
            Token::Ident(s) => TokenView::Ident(s@),
            Token::F32(bits) => TokenView::F32(*bits),
            Token::I32(v) => TokenView::I32(*v),
            Token::Plus => TokenView::Plus,
            Token::Minus => TokenView::Minus,
            Token::Star => TokenView::Star,
            Token::Slash => TokenView::Slash,
            Token::OpenParen => TokenView::OpenParen,
            Token::CloseParen => TokenView::CloseParen,
            Token::Caret => TokenView::Caret,
            Token::Let => TokenView::Let,
            Token::Assign => TokenView::Assign,
        }
    }
}

impl DeepView for Token {
    type V = TokenView;

    open spec fn deep_view(&self) -> TokenView {
        self.view()
    }
}

impl Clone for Token {
    /// A clone denotes the same token.
    fn clone(&self) -> (res: Self)
        ensures
            res@ == self@,
    {
        match self {
            Token::Ident(s) => Token::Ident(s.clone()),
            Token::F32(bits) => Token::F32(*bits),
            Token::I32(v) => Token::I32(*v),
            Token::Plus => Token::Plus,
            Token::Minus => Token::Minus,
            Token::Star => Token::Star,
            Token::Slash => Token::Slash,
            Token::OpenParen => Token::OpenParen,
            Token::CloseParen => Token::CloseParen,
            Token::Caret => Token::Caret,
            Token::Let => Token::Let,
            Token::Assign => Token::Assign,
        }
    }
}

} // verus!
