//! The token vocabulary shared by the lexer and the parser.

use vstd::prelude::*;
use crate::decimal::Decimal;
use crate::text::{spec_upper, to_upper_string};

verus! {

/// One lexical token. Numeric literals carry an exact [`Decimal`]; dates
/// keep their original `YYYY-MM-DD` text; symbols carry namespace and name
/// in original case.
#[derive(Debug, PartialEq, Clone)]
pub enum Token {
    // Literals
    Date(String),
    Number(Decimal),
    String(String),
    Identifier(String),
    Symbol(String, String),
    Comment(String),
    // Keywords
    Plan,
    Define,
    Portfolio,
    End,
    Trade,
    Mark,
    Schedule,
    Start,
    EndDate,
    Alias,
    Target,
    Return,
    Assets,
    Into,
    Value,
    Note,
    // Frequency keywords
    Daily,
    Weekly,
    Monthly,
    Quarterly,
    Yearly,
    // Operators
    Plus,
    Minus,
    At,
    // Punctuation
    Colon,
    Comma,
    LeftParen,
    RightParen,
    LeftBrace,
    RightBrace,
    // Special
    Newline,
    Eof,
    Invalid(String),
}

/// The mathematical shape of a [`Token`]: strings become character
/// sequences, everything else is carried over unchanged.
pub enum TokenV {
    Date(Seq<char>),
    Number(Decimal),
    StrLit(Seq<char>),
    Identifier(Seq<char>),
    Symbol(Seq<char>, Seq<char>),
    Comment(Seq<char>),
    Plan,
    Define,
    Portfolio,
    End,
    Trade,
    Mark,
    Schedule,
    Start,
    EndDate,
    Alias,
    Target,
    Return,
    Assets,
    Into,
    Value,
    Note,
    Daily,
    Weekly,
    Monthly,
    Quarterly,
    Yearly,
    Plus,
    Minus,
    At,
    Colon,
    Comma,
    LeftParen,
    RightParen,
    LeftBrace,
    RightBrace,
    Newline,
    Eof,
    Invalid(Seq<char>),
}

impl View for Token {
    type V = TokenV;

    open spec fn view(&self) -> TokenV {
        match self {
            Token::Date(s) => TokenV::Date(s@),
            Token::Number(d) => TokenV::Number(*d),
            Token::String(s) => TokenV::StrLit(s@),
            Token::Identifier(s) => TokenV::Identifier(s@),
            Token::Symbol(ns, n) => TokenV::Symbol(ns@, n@),
            Token::Comment(s) => TokenV::Comment(s@),
            Token::Plan => TokenV::Plan,
            Token::Define => TokenV::Define,
            Token::Portfolio => TokenV::Portfolio,
            Token::End => TokenV::End,
            Token::Trade => TokenV::Trade,
            Token::Mark => TokenV::Mark,
            Token::Schedule => TokenV::Schedule,
            Token::Start => TokenV::Start,
            Token::EndDate => TokenV::EndDate,
            Token::Alias => TokenV::Alias,
            Token::Target => TokenV::Target,
            Token::Return => TokenV::Return,
            Token::Assets => TokenV::Assets,
            Token::Into => TokenV::Into,
            Token::Value => TokenV::Value,
            Token::Note => TokenV::Note,
            Token::Daily => TokenV::Daily,
            Token::Weekly => TokenV::Weekly,
            Token::Monthly => TokenV::Monthly,
            Token::Quarterly => TokenV::Quarterly,
            Token::Yearly => TokenV::Yearly,
            Token::Plus => TokenV::Plus,
            Token::Minus => TokenV::Minus,
            Token::At => TokenV::At,
            Token::Colon => TokenV::Colon,
            Token::Comma => TokenV::Comma,
            Token::LeftParen => TokenV::LeftParen,
            Token::RightParen => TokenV::RightParen,
            Token::LeftBrace => TokenV::LeftBrace,
            Token::RightBrace => TokenV::RightBrace,
            Token::Newline => TokenV::Newline,
            Token::Eof => TokenV::Eof,
            Token::Invalid(s) => TokenV::Invalid(s@),
        }
    }
}

/// The view of an optional token.
pub open spec fn spec_opt_token_view(o: Option<Token>) -> Option<TokenV> {
    match o {
        Some(t) => Some(t@),
        None => None,
    }
}

/// The fixed keyword table, after ASCII-upper-casing the looked-up word.
pub open spec fn spec_keyword(w: Seq<char>) -> Option<TokenV> {
    let u = spec_upper(w);
    if u == "PLAN"@ {
        Some(TokenV::Plan)
    } else if u == "DEFINE"@ {
        Some(TokenV::Define)
    } else if u == "PORTFOLIO"@ {
        Some(TokenV::Portfolio)
    } else if u == "END"@ {
        Some(TokenV::End)
    } else if u == "TRADE"@ {
        Some(TokenV::Trade)
    } else if u == "MARK"@ {
        Some(TokenV::Mark)
    } else if u == "SCHEDULE"@ {
        Some(TokenV::Schedule)
    } else if u == "START"@ {
        Some(TokenV::Start)
    } else if u == "END_DATE"@ {
        Some(TokenV::EndDate)
    } else if u == "ALIAS"@ {
        Some(TokenV::Alias)
    } else if u == "TARGET"@ {
        Some(TokenV::Target)
    } else if u == "RETURN"@ {
        Some(TokenV::Return)
    } else if u == "ASSETS"@ {
        Some(TokenV::Assets)
    } else if u == "INTO"@ {
        Some(TokenV::Into)
    } else if u == "VALUE"@ {
        Some(TokenV::Value)
    } else if u == "NOTE"@ {
        Some(TokenV::Note)
    } else if u == "DAILY"@ {
        Some(TokenV::Daily)
    } else if u == "WEEKLY"@ {
        Some(TokenV::Weekly)
    } else if u == "MONTHLY"@ {
        Some(TokenV::Monthly)
    } else if u == "QUARTERLY"@ {
        Some(TokenV::Quarterly)
    } else if u == "YEARLY"@ {
        Some(TokenV::Yearly)
    } else {
        None
    }
}

/// Whether the token is one of the five frequency keywords.
pub open spec fn spec_is_frequency(t: TokenV) -> bool {
    t is Daily || t is Weekly || t is Monthly || t is Quarterly || t is Yearly
}

impl Token {
    /// Looks the word up in the fixed keyword table, case-insensitively
    /// (ASCII case folding); `None` for everything else.
    pub fn from_keyword(word: &str) -> (r: Option<Token>)
        ensures
            spec_opt_token_view(r) == spec_keyword(word@),
    {
        let up = to_upper_string(word);
        if up == "PLAN".to_owned() {
            Some(Token::Plan)
        } else if up == "DEFINE".to_owned() {
            Some(Token::Define)
        } else if up == "PORTFOLIO".to_owned() {
            Some(Token::Portfolio)
        } else if up == "END".to_owned() {
            Some(Token::End)
        } else if up == "TRADE".to_owned() {
            Some(Token::Trade)
        } else if up == "MARK".to_owned() {
            Some(Token::Mark)
        } else if up == "SCHEDULE".to_owned() {
            Some(Token::Schedule)
        } else if up == "START".to_owned() {
            Some(Token::Start)
        } else if up == "END_DATE".to_owned() {
            Some(Token::EndDate)
        } else if up == "ALIAS".to_owned() {
            Some(Token::Alias)
        } else if up == "TARGET".to_owned() {
            Some(Token::Target)
        } else if up == "RETURN".to_owned() {
            Some(Token::Return)
        } else if up == "ASSETS".to_owned() {
            Some(Token::Assets)
        } else if up == "INTO".to_owned() {
            Some(Token::Into)
        } else if up == "VALUE".to_owned() {
            Some(Token::Value)
        } else if up == "NOTE".to_owned() {
            Some(Token::Note)
        } else if up == "DAILY".to_owned() {
            Some(Token::Daily)
        } else if up == "WEEKLY".to_owned() {
            Some(Token::Weekly)
        } else if up == "MONTHLY".to_owned() {
            Some(Token::Monthly)
        } else if up == "QUARTERLY".to_owned() {
            Some(Token::Quarterly)
        } else if up == "YEARLY".to_owned() {
            Some(Token::Yearly)
        } else {
            None
        }
    }

    /// Whether this token is one of the five frequency keywords.
    pub fn is_frequency(&self) -> (r: bool)
        ensures
            r == spec_is_frequency(self@),
    {
        matches!(
            self,
            Token::Daily | Token::Weekly | Token::Monthly | Token::Quarterly | Token::Yearly
        )
    }
}

} // verus!
