//! The tokens of the Side language.

use vstd::prelude::*;
use vstd::string::*;

verus! {

/// A token of a Side program.
pub enum Token {
    Proc,
    Form,
    Link,
    SetKeyword,
    Fix,
    Check,
    Else,
    Loop,
    Wait,
    Stop,
    Give,
    Trap,
    Entry,
    New,
    Call,
    Log,
    And,
    Or,
    Not,
    As,
    Start,
    End,
    Whole(i64),
    /// A fraction literal, as the bits of the binary64 number it denotes.
    Fraction(u64),
    String(String),
    True,
    False,
    /// The `none` literal.
    Nil,
    Identifier(String),
    Plus,
    Minus,
    Star,
    Slash,
    Percent,
    Assign,
    Equal,
    NotEqual,
    Greater,
    Less,
    GreaterEqual,
    LessEqual,
    Dot,
    Comma,
    Colon,
    DoubleColon,
    LParen,
    RParen,
    LBracket,
    RBracket,
    /// Blanks; skipped by the lexer and never produced.
    Whitespace,
    /// `#` comments; skipped by the lexer and never produced.
    Comment,
    /// Text that is no token.
    Error,
}

/// The mathematical content of a [`Token`].
pub enum Tok {
    Proc,
    Form,
    Link,
    SetKeyword,
    Fix,
    Check,
    Else,
    Loop,
    Wait,
    Stop,
    Give,
    Trap,
    Entry,
    New,
    Call,
    Log,
    And,
    Or,
    Not,
    As,
    Start,
    End,
    Whole(i64),
    Fraction(u64),
    Str(Seq<char>),
    True,
    False,
    Nil,
    Identifier(Seq<char>),
    Plus,
    Minus,
    Star,
    Slash,
    Percent,
    Assign,
    Equal,
    NotEqual,
    Greater,
    Less,
    GreaterEqual,
    LessEqual,
    Dot,
    Comma,
    Colon,
    DoubleColon,
    LParen,
    RParen,
    LBracket,
    RBracket,
    Whitespace,
    Comment,
    Error,
}

impl View for Token {
    type V = Tok;

    open spec fn view(&self) -> Tok {
        match self {
            Token::Proc => Tok::Proc,
            Token::Form => Tok::Form,
            Token::Link => Tok::Link,
            Token::SetKeyword => Tok::SetKeyword,
            Token::Fix => Tok::Fix,
            Token::Check => Tok::Check,
            Token::Else => Tok::Else,
            Token::Loop => Tok::Loop,
            Token::Wait => Tok::Wait,
            Token::Stop => Tok::Stop,
            Token::Give => Tok::Give,
            Token::Trap => Tok::Trap,
            Token::Entry => Tok::Entry,
            Token::New => Tok::New,
            Token::Call => Tok::Call,
            Token::Log => Tok::Log,
            Token::And => Tok::And,
            Token::Or => Tok::Or,
            Token::Not => Tok::Not,
            Token::As => Tok::As,
            Token::Start => Tok::Start,
            Token::End => Tok::End,
            Token::True => Tok::True,
            Token::False => Tok::False,
            Token::Nil => Tok::Nil,
            Token::Plus => Tok::Plus,
            Token::Minus => Tok::Minus,
            Token::Star => Tok::Star,
            Token::Slash => Tok::Slash,
            Token::Percent => Tok::Percent,
            Token::Assign => Tok::Assign,
            Token::Equal => Tok::Equal,
            Token::NotEqual => Tok::NotEqual,
            Token::Greater => Tok::Greater,
            Token::Less => Tok::Less,
            Token::GreaterEqual => Tok::GreaterEqual,
            Token::LessEqual => Tok::LessEqual,
            Token::Dot => Tok::Dot,
            Token::Comma => Tok::Comma,
            Token::Colon => Tok::Colon,
            Token::DoubleColon => Tok::DoubleColon,
            Token::LParen => Tok::LParen,
            Token::RParen => Tok::RParen,
            Token::LBracket => Tok::LBracket,
            Token::RBracket => Tok::RBracket,
            Token::Whitespace => Tok::Whitespace,
            Token::Comment => Tok::Comment,
            Token::Error => Tok::Error,
            Token::Whole(n) => Tok::Whole(*n),
            Token::Fraction(b) => Tok::Fraction(*b),
            Token::String(s) => Tok::Str(s@),
            Token::Identifier(s) => Tok::Identifier(s@),
        }
    }
}

pub open spec fn toks(ts: Seq<Token>) -> Seq<Tok> {
    ts.map_values(|t: Token| t@)
}

/// The keyword spelled by an identifier-shaped word, if any.
pub open spec fn keyword(w: Seq<char>) -> Option<Tok> {
    if w == "proc"@ {
        Some(Tok::Proc)
    } else if w == "form"@ {
        Some(Tok::Form)
    } else if w == "link"@ {
        Some(Tok::Link)
    } else if w == "set"@ {
        Some(Tok::SetKeyword)
    } else if w == "fix"@ {
        Some(Tok::Fix)
    } else if w == "check"@ {
        Some(Tok::Check)
    } else if w == "else"@ {
        Some(Tok::Else)
    } else if w == "loop"@ {
        Some(Tok::Loop)
    } else if w == "wait"@ {
        Some(Tok::Wait)
    } else if w == "stop"@ {
        Some(Tok::Stop)
    } else if w == "give"@ {
        Some(Tok::Give)
    } else if w == "trap"@ {
        Some(Tok::Trap)
    } else if w == "entry"@ {
        Some(Tok::Entry)
    } else if w == "new"@ {
        Some(Tok::New)
    } else if w == "call"@ {
        Some(Tok::Call)
    } else if w == "log"@ {
        Some(Tok::Log)
    } else if w == "and"@ {
        Some(Tok::And)
    } else if w == "or"@ {
        Some(Tok::Or)
    } else if w == "not"@ {
        Some(Tok::Not)
    } else if w == "as"@ {
        Some(Tok::As)
    } else if w == "start"@ {
        Some(Tok::Start)
    } else if w == "end"@ {
        Some(Tok::End)
    } else if w == "true"@ {
        Some(Tok::True)
    } else if w == "false"@ {
        Some(Tok::False)
    } else if w == "none"@ {
        Some(Tok::Nil)
    } else {
        None
    }
}

/// The keyword token spelled by `w`, if any.
pub fn keyword_token(w: &str) -> (res: Option<Token>)
    ensures
        match res {
            Some(t) => keyword(w@) == Some(t@),
            None => keyword(w@) is None,
        },
{
    if crate::text::text_eq(w, "proc") {
        Some(Token::Proc)
    } else if crate::text::text_eq(w, "form") {
        Some(Token::Form)
    } else if crate::text::text_eq(w, "link") {
        Some(Token::Link)
    } else if crate::text::text_eq(w, "set") {
        Some(Token::SetKeyword)
    } else if crate::text::text_eq(w, "fix") {
        Some(Token::Fix)
    } else if crate::text::text_eq(w, "check") {
        Some(Token::Check)
    } else if crate::text::text_eq(w, "else") {
        Some(Token::Else)
    } else if crate::text::text_eq(w, "loop") {
        Some(Token::Loop)
    } else if crate::text::text_eq(w, "wait") {
        Some(Token::Wait)
    } else if crate::text::text_eq(w, "stop") {
        Some(Token::Stop)
    } else if crate::text::text_eq(w, "give") {
        Some(Token::Give)
    } else if crate::text::text_eq(w, "trap") {
        Some(Token::Trap)
    } else if crate::text::text_eq(w, "entry") {
        Some(Token::Entry)
    } else if crate::text::text_eq(w, "new") {
        Some(Token::New)
    } else if crate::text::text_eq(w, "call") {
        Some(Token::Call)
    } else if crate::text::text_eq(w, "log") {
        Some(Token::Log)
    } else if crate::text::text_eq(w, "and") {
        Some(Token::And)
    } else if crate::text::text_eq(w, "or") {
        Some(Token::Or)
    } else if crate::text::text_eq(w, "not") {
        Some(Token::Not)
    } else if crate::text::text_eq(w, "as") {
        Some(Token::As)
    } else if crate::text::text_eq(w, "start") {
        Some(Token::Start)
    } else if crate::text::text_eq(w, "end") {
        Some(Token::End)
    } else if crate::text::text_eq(w, "true") {
        Some(Token::True)
    } else if crate::text::text_eq(w, "false") {
        Some(Token::False)
    } else if crate::text::text_eq(w, "none") {
        Some(Token::Nil)
    } else {
        None
    }
}

impl Token {
    /// A copy of the token.
    pub fn duplicate(&self) -> (res: Token)
        ensures
            res == *self,
    {
        match self {
            Token::Proc => Token::Proc,
            Token::Form => Token::Form,
            Token::Link => Token::Link,
            Token::SetKeyword => Token::SetKeyword,
            Token::Fix => Token::Fix,
            Token::Check => Token::Check,
            Token::Else => Token::Else,
            Token::Loop => Token::Loop,
            Token::Wait => Token::Wait,
            Token::Stop => Token::Stop,
            Token::Give => Token::Give,
            Token::Trap => Token::Trap,
            Token::Entry => Token::Entry,
            Token::New => Token::New,
            Token::Call => Token::Call,
            Token::Log => Token::Log,
            Token::And => Token::And,
            Token::Or => Token::Or,
            Token::Not => Token::Not,
            Token::As => Token::As,
            Token::Start => Token::Start,
            Token::End => Token::End,
            Token::True => Token::True,
            Token::False => Token::False,
            Token::Nil => Token::Nil,
            Token::Plus => Token::Plus,
            Token::Minus => Token::Minus,
            Token::Star => Token::Star,
            Token::Slash => Token::Slash,
            Token::Percent => Token::Percent,
            Token::Assign => Token::Assign,
            Token::Equal => Token::Equal,
            Token::NotEqual => Token::NotEqual,
            Token::Greater => Token::Greater,
            Token::Less => Token::Less,
            Token::GreaterEqual => Token::GreaterEqual,
            Token::LessEqual => Token::LessEqual,
            Token::Dot => Token::Dot,
            Token::Comma => Token::Comma,
            Token::Colon => Token::Colon,
            Token::DoubleColon => Token::DoubleColon,
            Token::LParen => Token::LParen,
            Token::RParen => Token::RParen,
            Token::LBracket => Token::LBracket,
            Token::RBracket => Token::RBracket,
            Token::Whitespace => Token::Whitespace,
            Token::Comment => Token::Comment,
            Token::Error => Token::Error,
            Token::Whole(n) => Token::Whole(*n),
            Token::Fraction(b) => Token::Fraction(*b),
            Token::String(s) => Token::String(s.clone()),
            Token::Identifier(s) => Token::Identifier(s.clone()),
        }
    }

    /// Whether two tokens are of the same kind (`mem::discriminant`).
    pub fn same_kind(&self, other: &Token) -> (res: bool)
        ensures
            res == same_kind(self@, other@),
    {
        match (self, other) {
            (Token::Proc, Token::Proc) => true,
            (Token::Form, Token::Form) => true,
            (Token::Link, Token::Link) => true,
            (Token::SetKeyword, Token::SetKeyword) => true,
            (Token::Fix, Token::Fix) => true,
            (Token::Check, Token::Check) => true,
            (Token::Else, Token::Else) => true,
            (Token::Loop, Token::Loop) => true,
            (Token::Wait, Token::Wait) => true,
            (Token::Stop, Token::Stop) => true,
            (Token::Give, Token::Give) => true,
            (Token::Trap, Token::Trap) => true,
            (Token::Entry, Token::Entry) => true,
            (Token::New, Token::New) => true,
            (Token::Call, Token::Call) => true,
            (Token::Log, Token::Log) => true,
            (Token::And, Token::And) => true,
            (Token::Or, Token::Or) => true,
            (Token::Not, Token::Not) => true,
            (Token::As, Token::As) => true,
            (Token::Start, Token::Start) => true,
            (Token::End, Token::End) => true,
            (Token::True, Token::True) => true,
            (Token::False, Token::False) => true,
            (Token::Nil, Token::Nil) => true,
            (Token::Plus, Token::Plus) => true,
            (Token::Minus, Token::Minus) => true,
            (Token::Star, Token::Star) => true,
            (Token::Slash, Token::Slash) => true,
            (Token::Percent, Token::Percent) => true,
            (Token::Assign, Token::Assign) => true,
            (Token::Equal, Token::Equal) => true,
            (Token::NotEqual, Token::NotEqual) => true,
            (Token::Greater, Token::Greater) => true,
            (Token::Less, Token::Less) => true,
            (Token::GreaterEqual, Token::GreaterEqual) => true,
            (Token::LessEqual, Token::LessEqual) => true,
            (Token::Dot, Token::Dot) => true,
            (Token::Comma, Token::Comma) => true,
            (Token::Colon, Token::Colon) => true,
            (Token::DoubleColon, Token::DoubleColon) => true,
            (Token::LParen, Token::LParen) => true,
            (Token::RParen, Token::RParen) => true,
            (Token::LBracket, Token::LBracket) => true,
            (Token::RBracket, Token::RBracket) => true,
            (Token::Whitespace, Token::Whitespace) => true,
            (Token::Comment, Token::Comment) => true,
            (Token::Error, Token::Error) => true,
            (Token::Whole(_), Token::Whole(_)) => true,
            (Token::Fraction(_), Token::Fraction(_)) => true,
            (Token::String(_), Token::String(_)) => true,
            (Token::Identifier(_), Token::Identifier(_)) => true,
            _ => false,
        }
    }
}

/// Same variant, payloads aside.
pub open spec fn same_kind(a: Tok, b: Tok) -> bool {
    match (a, b) {
        (Tok::Proc, Tok::Proc) => true,
        (Tok::Form, Tok::Form) => true,
        (Tok::Link, Tok::Link) => true,
        (Tok::SetKeyword, Tok::SetKeyword) => true,
        (Tok::Fix, Tok::Fix) => true,
        (Tok::Check, Tok::Check) => true,
        (Tok::Else, Tok::Else) => true,
        (Tok::Loop, Tok::Loop) => true,
        (Tok::Wait, Tok::Wait) => true,
        (Tok::Stop, Tok::Stop) => true,
        (Tok::Give, Tok::Give) => true,
        (Tok::Trap, Tok::Trap) => true,
        (Tok::Entry, Tok::Entry) => true,
        (Tok::New, Tok::New) => true,
        (Tok::Call, Tok::Call) => true,
        (Tok::Log, Tok::Log) => true,
        (Tok::And, Tok::And) => true,
        (Tok::Or, Tok::Or) => true,
        (Tok::Not, Tok::Not) => true,
        (Tok::As, Tok::As) => true,
        (Tok::Start, Tok::Start) => true,
        (Tok::End, Tok::End) => true,
        (Tok::True, Tok::True) => true,
        (Tok::False, Tok::False) => true,
        (Tok::Nil, Tok::Nil) => true,
        (Tok::Plus, Tok::Plus) => true,
        (Tok::Minus, Tok::Minus) => true,
        (Tok::Star, Tok::Star) => true,
        (Tok::Slash, Tok::Slash) => true,
        (Tok::Percent, Tok::Percent) => true,
        (Tok::Assign, Tok::Assign) => true,
        (Tok::Equal, Tok::Equal) => true,
        (Tok::NotEqual, Tok::NotEqual) => true,
        (Tok::Greater, Tok::Greater) => true,
        (Tok::Less, Tok::Less) => true,
        (Tok::GreaterEqual, Tok::GreaterEqual) => true,
        (Tok::LessEqual, Tok::LessEqual) => true,
        (Tok::Dot, Tok::Dot) => true,
        (Tok::Comma, Tok::Comma) => true,
        (Tok::Colon, Tok::Colon) => true,
        (Tok::DoubleColon, Tok::DoubleColon) => true,
        (Tok::LParen, Tok::LParen) => true,
        (Tok::RParen, Tok::RParen) => true,
        (Tok::LBracket, Tok::LBracket) => true,
        (Tok::RBracket, Tok::RBracket) => true,
        (Tok::Whitespace, Tok::Whitespace) => true,
        (Tok::Comment, Tok::Comment) => true,
        (Tok::Error, Tok::Error) => true,
        (Tok::Whole(_), Tok::Whole(_)) => true,
        (Tok::Fraction(_), Tok::Fraction(_)) => true,
        (Tok::Str(_), Tok::Str(_)) => true,
        (Tok::Identifier(_), Tok::Identifier(_)) => true,
        _ => false,
    }
}

/// The derived `Debug` text of a token without payload (its variant name).
pub open spec fn unit_debug(t: Tok) -> Seq<char> {
    match t {
        Tok::Proc => "Proc"@,
        Tok::Form => "Form"@,
        Tok::Link => "Link"@,
        Tok::SetKeyword => "Set"@,
        Tok::Fix => "Fix"@,
        Tok::Check => "Check"@,
        Tok::Else => "Else"@,
        Tok::Loop => "Loop"@,
        Tok::Wait => "Wait"@,
        Tok::Stop => "Stop"@,
        Tok::Give => "Give"@,
        Tok::Trap => "Trap"@,
        Tok::Entry => "Entry"@,
        Tok::New => "New"@,
        Tok::Call => "Call"@,
        Tok::Log => "Log"@,
        Tok::And => "And"@,
        Tok::Or => "Or"@,
        Tok::Not => "Not"@,
        Tok::As => "As"@,
        Tok::Start => "Start"@,
        Tok::End => "End"@,
        Tok::True => "True"@,
        Tok::False => "False"@,
        Tok::Plus => "Plus"@,
        Tok::Minus => "Minus"@,
        Tok::Star => "Star"@,
        Tok::Slash => "Slash"@,
        Tok::Percent => "Percent"@,
        Tok::Assign => "Assign"@,
        Tok::Equal => "Equal"@,
        Tok::NotEqual => "NotEqual"@,
        Tok::Greater => "Greater"@,
        Tok::Less => "Less"@,
        Tok::GreaterEqual => "GreaterEqual"@,
        Tok::LessEqual => "LessEqual"@,
        Tok::Dot => "Dot"@,
        Tok::Comma => "Comma"@,
        Tok::Colon => "Colon"@,
        Tok::DoubleColon => "DoubleColon"@,
        Tok::LParen => "LParen"@,
        Tok::RParen => "RParen"@,
        Tok::LBracket => "LBracket"@,
        Tok::RBracket => "RBracket"@,
        Tok::Whitespace => "Whitespace"@,
        Tok::Comment => "Comment"@,
        Tok::Error => "Error"@,
        Tok::Nil => "None"@,
        _ => Seq::empty(),
    }
}

/// The variant name of a token without payload.
pub fn unit_debug_text(t: &Token) -> (res: String)
    ensures
        res@ == unit_debug(t@),
{
    match t {
        Token::Proc => "Proc".to_owned(),
        Token::Form => "Form".to_owned(),
        Token::Link => "Link".to_owned(),
        Token::SetKeyword => "Set".to_owned(),
        Token::Fix => "Fix".to_owned(),
        Token::Check => "Check".to_owned(),
        Token::Else => "Else".to_owned(),
        Token::Loop => "Loop".to_owned(),
        Token::Wait => "Wait".to_owned(),
        Token::Stop => "Stop".to_owned(),
        Token::Give => "Give".to_owned(),
        Token::Trap => "Trap".to_owned(),
        Token::Entry => "Entry".to_owned(),
        Token::New => "New".to_owned(),
        Token::Call => "Call".to_owned(),
        Token::Log => "Log".to_owned(),
        Token::And => "And".to_owned(),
        Token::Or => "Or".to_owned(),
        Token::Not => "Not".to_owned(),
        Token::As => "As".to_owned(),
        Token::Start => "Start".to_owned(),
        Token::End => "End".to_owned(),
        Token::True => "True".to_owned(),
        Token::False => "False".to_owned(),
        Token::Plus => "Plus".to_owned(),
        Token::Minus => "Minus".to_owned(),
        Token::Star => "Star".to_owned(),
        Token::Slash => "Slash".to_owned(),
        Token::Percent => "Percent".to_owned(),
        Token::Assign => "Assign".to_owned(),
        Token::Equal => "Equal".to_owned(),
        Token::NotEqual => "NotEqual".to_owned(),
        Token::Greater => "Greater".to_owned(),
        Token::Less => "Less".to_owned(),
        Token::GreaterEqual => "GreaterEqual".to_owned(),
        Token::LessEqual => "LessEqual".to_owned(),
        Token::Dot => "Dot".to_owned(),
        Token::Comma => "Comma".to_owned(),
        Token::Colon => "Colon".to_owned(),
        Token::DoubleColon => "DoubleColon".to_owned(),
        Token::LParen => "LParen".to_owned(),
        Token::RParen => "RParen".to_owned(),
        Token::LBracket => "LBracket".to_owned(),
        Token::RBracket => "RBracket".to_owned(),
        Token::Whitespace => "Whitespace".to_owned(),
        Token::Comment => "Comment".to_owned(),
        Token::Error => "Error".to_owned(),
        Token::Nil => "None".to_owned(),
        _ => String::new(),
    }
}

} // verus!
