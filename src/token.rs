use vstd::prelude::*;

verus! {

/// The class of one input character, and the kind of a token.
#[derive(Debug, Clone, Copy, PartialEq, Eq, Structural)]
pub enum Type {
    Whitespace,
    Integer,
    Minus,
    Plus,
    Mul,
    Div,
    Eof,
}

/// The class of `c`, or `None` when `c` is outside the accepted alphabet.
pub open spec fn char_class(c: char) -> Option<Type> {
    if '0' <= c && c <= '9' {
        Some(Type::Integer)
    } else if c == ' ' {
        Some(Type::Whitespace)
    } else if c == '-' {
        Some(Type::Minus)
    } else if c == '+' {
        Some(Type::Plus)
    } else if c == '*' {
        Some(Type::Mul)
    } else if c == '/' {
        Some(Type::Div)
    } else if c == '\n' {
        Some(Type::Eof)
    } else {
        None
    }
}

/// A classified run of input characters: its kind and the text that produced it.
pub struct Token {
    pub kind: Type,
    pub value: Option<String>,
}

/// What a token is, mathematically: its kind and the characters of its text.
pub type TokenView = (Type, Option<Seq<char>>);

impl View for Token {
    type V = TokenView;

    open spec fn view(&self) -> TokenView {
        (
            self.kind,
            match self.value {
                Some(s) => Some(s@),
                None => None,
            },
        )
    }
}

/// Whether a token kind is one of the four arithmetic operators.
pub open spec fn is_operator(t: Type) -> bool {
    t == Type::Minus || t == Type::Plus || t == Type::Mul || t == Type::Div
}

impl Token {
    /// Whether this token is an operator.
    pub fn is_ops(&self) -> (r: bool)
        ensures
            r == is_operator(self.kind),
    {
        match self.kind {
            Type::Minus | Type::Plus | Type::Mul | Type::Div => true,
            _ => false,
        }
    }

    /// Whether this token marks the end of input.
    pub fn is_eof(&self) -> (r: bool)
        ensures
            r == (self.kind == Type::Eof),
    {
        self.kind == Type::Eof
    }
}

/// Classifies one character.
pub fn detect_char_type(item: &char) -> (r: Option<Type>)
    ensures
        r == char_class(*item),
{
    let c = *item;
    if '0' <= c && c <= '9' {
        Some(Type::Integer)
    } else if c == ' ' {
        Some(Type::Whitespace)
    } else if c == '-' {
        Some(Type::Minus)
    } else if c == '+' {
        Some(Type::Plus)
    } else if c == '*' {
        Some(Type::Mul)
    } else if c == '/' {
        Some(Type::Div)
    } else if c == '\n' {
        Some(Type::Eof)
    } else {
        None
    }
}

/// The characters of `text`, in order.
pub(crate) fn chars_of(text: &str) -> (r: Vec<char>)
    ensures
        r@ == text@,
{
    let mut out: Vec<char> = Vec::new();
    for c in it: text.chars()
        invariant
            out@ == it.seq().take(it.index() as int),
            it.seq() == text@,
    {
        out.push(c);
    }
    out
}

} // verus!
