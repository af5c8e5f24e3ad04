use vstd::prelude::*;

verus! {

/// Keywords of the language.
#[derive(Clone, Copy, Debug, PartialEq, Eq, Structural)]
pub enum Keyword {
    Int,
    Return,
    If,
    Else,
    While,
    Do,
    For,
    Break,
    Continue,
}

/// A lexical token.
#[derive(Clone, Debug)]
pub enum Token {
    Lbrace,
    Rbrace,
    Lparen,
    Rparen,
    Semicolon,
    Comma,
    Colon,
    QuestionMark,
    Keyword(Keyword),
    Identifier(String),
    IntLiteral(u64),
    Minus,
    Plus,
    Not,
    Complement,
    Increment,
    Decrement,
    Multiplication,
    Division,
    Remainder,
    LeftShift,
    RightShift,
    Less,
    Greater,
    LessEqual,
    GreaterEqual,
    Equal,
    NotEqual,
    BitwiseAnd,
    BitwiseXor,
    BitwiseOr,
    LogicalAnd,
    LogicalOr,
    Assignment,
    AdditionAssignment,
    SubtractionAssignment,
    MultiplicationAssignment,
    DivisionAssignment,
    RemainderAssignment,
    BitwiseXorAssignment,
    BitwiseOrAssignment,
    BitwiseAndAssignment,
    LeftShiftAssignment,
    RightShiftAssignment,
}

/// A token together with its location (offset) in the source text.
#[derive(Clone, Debug)]
pub struct TokNLoc {
    pub token: Token,
    pub location: usize,
}

/// Calls `String::push`: the string grows by the one character at its end.
#[verifier::external_body]
fn push_char(s: &mut String, c: char)
    ensures
        final(s)@ == old(s)@.push(c),
{
    s.push(c)
}

/// The decimal digit character for `d` (below ten).
pub open spec fn digit_char(d: nat) -> char {
    (48 + d) as char
}

/// The decimal notation of `v`, without leading zeros.
pub open spec fn decimal_text(v: nat) -> Seq<char>
    decreases v,
{
    if v < 10 {
        seq![digit_char(v)]
    } else {
        decimal_text(v / 10).push(digit_char(v % 10))
    }
}

/// Appends the decimal notation of `v` to `s`.
pub fn append_decimal(s: &mut String, v: u64)
    ensures
        final(s)@ == old(s)@ + decimal_text(v as nat),
    decreases v,
{
    if v >= 10 {
        append_decimal(s, v / 10);
    }
    let d: u8 = (v % 10) as u8;
    let c: char = (48u8 + d) as char;
    push_char(s, c);
    assert(final(s)@ =~= old(s)@ + decimal_text(v as nat));
}

/// The source text of a keyword.
pub open spec fn keyword_text(k: Keyword) -> Seq<char> {
    match k {
        Keyword::Int => "int"@,
        Keyword::Return => "return"@,
        Keyword::If => "if"@,
        Keyword::Else => "else"@,
        Keyword::While => "while"@,
        Keyword::Do => "do"@,
        Keyword::For => "for"@,
        Keyword::Break => "break"@,
        Keyword::Continue => "continue"@,
    }
}

/// The source text of a token: how it is shown in error messages.
pub open spec fn token_text(t: Token) -> Seq<char> {
    match t {
        Token::Lbrace => "{"@,
        Token::Rbrace => "}"@,
        Token::Lparen => "("@,
        Token::Rparen => ")"@,
        Token::Semicolon => ";"@,
        Token::Comma => ","@,
        Token::Colon => ":"@,
        Token::QuestionMark => "?"@,
        Token::Keyword(k) => keyword_text(k),
        Token::Identifier(id) => id@,
        Token::IntLiteral(v) => decimal_text(v as nat),
        Token::Minus => "-"@,
        Token::Plus => "+"@,
        Token::Not => "!"@,
        Token::Complement => "~"@,
        Token::Increment => "++"@,
        Token::Decrement => "--"@,
        Token::Multiplication => "*"@,
        Token::Division => "/"@,
        Token::Remainder => "%"@,
        Token::LeftShift => "<<"@,
        Token::RightShift => ">>"@,
        Token::Less => "<"@,
        Token::Greater => ">"@,
        Token::LessEqual => "<="@,
        Token::GreaterEqual => ">="@,
        Token::Equal => "=="@,
        Token::NotEqual => "!="@,
        Token::BitwiseAnd => "&"@,
        Token::BitwiseXor => "^"@,
        Token::BitwiseOr => "|"@,
        Token::LogicalAnd => "&&"@,
        Token::LogicalOr => "||"@,
        Token::Assignment => "="@,
        Token::AdditionAssignment => "+="@,
        Token::SubtractionAssignment => "-="@,
        Token::MultiplicationAssignment => "*="@,
        Token::DivisionAssignment => "/="@,
        Token::RemainderAssignment => "%="@,
        Token::BitwiseXorAssignment => "^="@,
        Token::BitwiseOrAssignment => "|="@,
        Token::BitwiseAndAssignment => "&="@,
        Token::LeftShiftAssignment => "<<="@,
        Token::RightShiftAssignment => ">>="@,
    }
}

impl Keyword {
    /// The source text of the keyword.
    pub fn to_text(&self) -> (s: String)
        ensures
            s@ == keyword_text(*self),
    {
        match self {
            Keyword::Int => String::from_str("int"),
            Keyword::Return => String::from_str("return"),
            Keyword::If => String::from_str("if"),
            Keyword::Else => String::from_str("else"),
            Keyword::While => String::from_str("while"),
            Keyword::Do => String::from_str("do"),
            Keyword::For => String::from_str("for"),
            Keyword::Break => String::from_str("break"),
            Keyword::Continue => String::from_str("continue"),
        }
    }
}

impl Token {
    /// The source text of the token, as error messages show it.
    pub fn to_text(&self) -> (s: String)
        ensures
            s@ == token_text(*self),
    {
        match self {
            Token::Lbrace => String::from_str("{"),
            Token::Rbrace => String::from_str("}"),
            Token::Lparen => String::from_str("("),
            Token::Rparen => String::from_str(")"),
            Token::Semicolon => String::from_str(";"),
            Token::Comma => String::from_str(","),
            Token::Colon => String::from_str(":"),
            Token::QuestionMark => String::from_str("?"),
            Token::Keyword(k) => k.to_text(),
            Token::Identifier(id) => id.clone(),
            Token::IntLiteral(v) => {
                let mut s = String::new();
                append_decimal(&mut s, *v);
                assert(s@ =~= decimal_text(*v as nat));
                s
            },
            Token::Minus => String::from_str("-"),
            Token::Plus => String::from_str("+"),
            Token::Not => String::from_str("!"),
            Token::Complement => String::from_str("~"),
            Token::Increment => String::from_str("++"),
            Token::Decrement => String::from_str("--"),
            Token::Multiplication => String::from_str("*"),
            Token::Division => String::from_str("/"),
            Token::Remainder => String::from_str("%"),
            Token::LeftShift => String::from_str("<<"),
            Token::RightShift => String::from_str(">>"),
            Token::Less => String::from_str("<"),
            Token::Greater => String::from_str(">"),
            Token::LessEqual => String::from_str("<="),
            Token::GreaterEqual => String::from_str(">="),
            Token::Equal => String::from_str("=="),
            Token::NotEqual => String::from_str("!="),
            Token::BitwiseAnd => String::from_str("&"),
            Token::BitwiseXor => String::from_str("^"),
            Token::BitwiseOr => String::from_str("|"),
            Token::LogicalAnd => String::from_str("&&"),
            Token::LogicalOr => String::from_str("||"),
            Token::Assignment => String::from_str("="),
            Token::AdditionAssignment => String::from_str("+="),
            Token::SubtractionAssignment => String::from_str("-="),
            Token::MultiplicationAssignment => String::from_str("*="),
            Token::DivisionAssignment => String::from_str("/="),
            Token::RemainderAssignment => String::from_str("%="),
            Token::BitwiseXorAssignment => String::from_str("^="),
            Token::BitwiseOrAssignment => String::from_str("|="),
            Token::BitwiseAndAssignment => String::from_str("&="),
            Token::LeftShiftAssignment => String::from_str("<<="),
            Token::RightShiftAssignment => String::from_str(">>="),
        }
    }
}

} // verus!
