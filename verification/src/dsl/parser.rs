//! Recursive-descent parsing: consumes the token sequence and produces a
//! typed [`Program`] tree, with one token of lookahead and no backtracking.
//!
//! The grammar, informally:
//!
//! ```text
//! program    := (comment)* statement*
//! statement  := record | plan | define | portfolio
//! record     := DATE action details note?
//! action     := TRADE | MARK
//! trade_det  := symbol signed_number identifier ('@' number)?
//! mark_det   := symbol 'VALUE' number identifier
//! note       := 'NOTE' string
//! plan       := 'PLAN' string plan_rule* 'END'
//! plan_rule  := 'SCHEDULE' frequency number identifier 'INTO' symbol
//!             | 'START' date | 'END_DATE' date
//! define     := 'DEFINE' symbol ('ALIAS' string | 'TARGET' 'RETURN' number)* 'END'
//! portfolio  := 'PORTFOLIO' string
//!               ('ASSETS' symbol (',' symbol)* | 'TARGET' 'RETURN' number)* 'END'
//! ```
//!
//! The first unmet expectation aborts the whole parse with the offending
//! token's position; there is no error recovery and no partial tree. The
//! whole parse is specified by [`spec_parse`]; `Parser::parse` returns
//! exactly what that function describes.

use vstd::prelude::*;
use crate::decimal::Decimal;
use super::ast::{
    Action, Define, DefineV, Details, DetailsV, MarkDetails, MarkDetailsV, Plan, PlanRule,
    PlanRuleV, PlanV, Portfolio, PortfolioV, Program, Record, RecordV, Schedule, ScheduleV, Sign,
    SignedAmount, Statement, StatementV, Symbol, SymbolV, TradeDetails, TradeDetailsV,
};
use super::token::{Token, TokenV};

verus! {

/// A fatal parsing failure: a human-readable message and the index of the
/// offending token.
#[derive(Debug)]
pub struct ParseError {
    pub message: String,
    pub position: usize,
}

/// The token at `i`, or `Eof` at or past the end.
pub open spec fn spec_peek_tok(toks: Seq<TokenV>, i: nat) -> TokenV {
    if i < toks.len() {
        toks[i as int]
    } else {
        TokenV::Eof
    }
}

/// Whether the parser is out of tokens at `i`.
pub open spec fn spec_tok_at_end(toks: Seq<TokenV>, i: nat) -> bool {
    spec_peek_tok(toks, i) is Eof
}

/// The first position at or after `i` whose token is not a comment.
pub open spec fn spec_skip_comments(toks: Seq<TokenV>, i: nat) -> nat
    decreases toks.len() - i,
{
    if i < toks.len() && spec_peek_tok(toks, i) is Comment {
        spec_skip_comments(toks, i + 1)
    } else {
        i
    }
}

/// The first position at or after `i` whose token is neither a comment nor
/// a line break.
pub open spec fn spec_skip_comments_and_newlines(toks: Seq<TokenV>, i: nat) -> nat
    decreases toks.len() - i,
{
    if i < toks.len() && (spec_peek_tok(toks, i) is Comment || spec_peek_tok(toks, i)
        is Newline) {
        spec_skip_comments_and_newlines(toks, i + 1)
    } else {
        i
    }
}

/// One symbol token.
pub open spec fn spec_parse_symbol(toks: Seq<TokenV>, i: nat) -> Result<(SymbolV, nat), nat> {
    match spec_peek_tok(toks, i) {
        TokenV::Symbol(ns, n) => Ok((SymbolV { namespace: ns, name: n }, i + 1)),
        _ => Err(i),
    }
}

/// One number token.
pub open spec fn spec_parse_number(toks: Seq<TokenV>, i: nat) -> Result<(Decimal, nat), nat> {
    match spec_peek_tok(toks, i) {
        TokenV::Number(d) => Ok((d, i + 1)),
        _ => Err(i),
    }
}

/// One string token.
pub open spec fn spec_parse_string(toks: Seq<TokenV>, i: nat) -> Result<(Seq<char>, nat), nat> {
    match spec_peek_tok(toks, i) {
        TokenV::StrLit(s) => Ok((s, i + 1)),
        _ => Err(i),
    }
}

/// One identifier token.
pub open spec fn spec_parse_identifier(toks: Seq<TokenV>, i: nat) -> Result<
    (Seq<char>, nat),
    nat,
> {
    match spec_peek_tok(toks, i) {
        TokenV::Identifier(s) => Ok((s, i + 1)),
        _ => Err(i),
    }
}

/// One date token.
pub open spec fn spec_parse_date(toks: Seq<TokenV>, i: nat) -> Result<(Seq<char>, nat), nat> {
    match spec_peek_tok(toks, i) {
        TokenV::Date(d) => Ok((d, i + 1)),
        _ => Err(i),
    }
}

/// An optional `+`/`-` sign (positive when omitted) followed by a number.
pub open spec fn spec_parse_signed_amount(toks: Seq<TokenV>, i: nat) -> Result<
    (SignedAmount, nat),
    nat,
> {
    let (sign, j) = if spec_peek_tok(toks, i) is Plus {
        (Sign::Positive, i + 1)
    } else if spec_peek_tok(toks, i) is Minus {
        (Sign::Negative, i + 1)
    } else {
        (Sign::Positive, i)
    };
    match spec_parse_number(toks, j) {
        Ok((n, k)) => Ok((SignedAmount { sign, value: n }, k)),
        Err(p) => Err(p),
    }
}

/// `TRADE` or `MARK`.
pub open spec fn spec_parse_action(toks: Seq<TokenV>, i: nat) -> Result<(Action, nat), nat> {
    match spec_peek_tok(toks, i) {
        TokenV::Trade => Ok((Action::Trade, i + 1)),
        TokenV::Mark => Ok((Action::Mark, i + 1)),
        _ => Err(i),
    }
}

/// One of the five frequency keywords.
pub open spec fn spec_parse_frequency(toks: Seq<TokenV>, i: nat) -> Result<
    (super::ast::Frequency, nat),
    nat,
> {
    match spec_peek_tok(toks, i) {
        TokenV::Daily => Ok((super::ast::Frequency::Daily, i + 1)),
        TokenV::Weekly => Ok((super::ast::Frequency::Weekly, i + 1)),
        TokenV::Monthly => Ok((super::ast::Frequency::Monthly, i + 1)),
        TokenV::Quarterly => Ok((super::ast::Frequency::Quarterly, i + 1)),
        TokenV::Yearly => Ok((super::ast::Frequency::Yearly, i + 1)),
        _ => Err(i),
    }
}

/// Trade details: symbol, signed amount, unit, optional `@ price`.
pub open spec fn spec_parse_trade_details(toks: Seq<TokenV>, i: nat) -> Result<
    (TradeDetailsV, nat),
    nat,
> {
    match spec_parse_symbol(toks, i) {
        Err(p) => Err(p),
        Ok((symbol, j)) => match spec_parse_signed_amount(toks, j) {
            Err(p) => Err(p),
            Ok((signed_amount, k)) => match spec_parse_identifier(toks, k) {
                Err(p) => Err(p),
                Ok((unit, l)) => {
                    if spec_peek_tok(toks, l) is At {
                        match spec_parse_number(toks, l + 1) {
                            Err(p) => Err(p),
                            Ok((price, m)) => Ok(
                                (
                                    TradeDetailsV {
                                        symbol,
                                        signed_amount,
                                        unit,
                                        price: Some(price),
                                    },
                                    m,
                                ),
                            ),
                        }
                    } else {
                        Ok((TradeDetailsV { symbol, signed_amount, unit, price: None }, l))
                    }
                },
            },
        },
    }
}

/// Mark details: symbol, `VALUE`, number, unit.
pub open spec fn spec_parse_mark_details(toks: Seq<TokenV>, i: nat) -> Result<
    (MarkDetailsV, nat),
    nat,
> {
    match spec_parse_symbol(toks, i) {
        Err(p) => Err(p),
        Ok((symbol, j)) => {
            if spec_peek_tok(toks, j) is Value {
                match spec_parse_number(toks, j + 1) {
                    Err(p) => Err(p),
                    Ok((value, k)) => match spec_parse_identifier(toks, k) {
                        Err(p) => Err(p),
                        Ok((unit, l)) => Ok((MarkDetailsV { symbol, value, unit }, l)),
                    },
                }
            } else {
                Err(j)
            }
        },
    }
}

/// Details according to the record's action.
pub open spec fn spec_parse_details(toks: Seq<TokenV>, i: nat, action: Action) -> Result<
    (DetailsV, nat),
    nat,
> {
    match action {
        Action::Trade => match spec_parse_trade_details(toks, i) {
            Ok((t, j)) => Ok((DetailsV::Trade(t), j)),
            Err(p) => Err(p),
        },
        Action::Mark => match spec_parse_mark_details(toks, i) {
            Ok((m, j)) => Ok((DetailsV::Mark(m), j)),
            Err(p) => Err(p),
        },
    }
}

/// An optional `NOTE "text"` suffix.
pub open spec fn spec_parse_opt_note(toks: Seq<TokenV>, i: nat) -> Result<
    (Option<Seq<char>>, nat),
    nat,
> {
    if spec_peek_tok(toks, i) is Note {
        match spec_parse_string(toks, i + 1) {
            Ok((s, j)) => Ok((Some(s), j)),
            Err(p) => Err(p),
        }
    } else {
        Ok((None, i))
    }
}

/// A record statement: date, action, details, optional note.
pub open spec fn spec_parse_record(toks: Seq<TokenV>, i: nat) -> Result<(RecordV, nat), nat> {
    match spec_peek_tok(toks, i) {
        TokenV::Date(date) => match spec_parse_action(toks, i + 1) {
            Err(p) => Err(p),
            Ok((action, j)) => match spec_parse_details(toks, j, action) {
                Err(p) => Err(p),
                Ok((details, k)) => match spec_parse_opt_note(toks, k) {
                    Err(p) => Err(p),
                    Ok((note, l)) => Ok((RecordV { date, action, details, note }, l)),
                },
            },
        },
        _ => Err(i),
    }
}

/// `SCHEDULE` body: frequency, amount, unit, `INTO`, target symbol.
pub open spec fn spec_parse_schedule(toks: Seq<TokenV>, i: nat) -> Result<(ScheduleV, nat), nat> {
    match spec_parse_frequency(toks, i) {
        Err(p) => Err(p),
        Ok((frequency, j)) => match spec_parse_number(toks, j) {
            Err(p) => Err(p),
            Ok((amount, k)) => match spec_parse_identifier(toks, k) {
                Err(p) => Err(p),
                Ok((unit, l)) => {
                    if spec_peek_tok(toks, l) is Into {
                        match spec_parse_symbol(toks, l + 1) {
                            Err(p) => Err(p),
                            Ok((target, m)) => Ok(
                                (ScheduleV { frequency, amount, unit, target }, m),
                            ),
                        }
                    } else {
                        Err(l)
                    }
                },
            },
        },
    }
}

/// One plan rule: a schedule, a start date, or an end date.
pub open spec fn spec_parse_plan_rule(toks: Seq<TokenV>, i: nat) -> Result<(PlanRuleV, nat), nat> {
    match spec_peek_tok(toks, i) {
        TokenV::Schedule => match spec_parse_schedule(toks, i + 1) {
            Ok((s, j)) => Ok((PlanRuleV::Schedule(s), j)),
            Err(p) => Err(p),
        },
        TokenV::Start => match spec_parse_date(toks, i + 1) {
            Ok((d, j)) => Ok((PlanRuleV::StartDate(d), j)),
            Err(p) => Err(p),
        },
        TokenV::EndDate => match spec_parse_date(toks, i + 1) {
            Ok((d, j)) => Ok((PlanRuleV::EndDate(d), j)),
            Err(p) => Err(p),
        },
        _ => Err(i),
    }
}

/// Plan rules up to the closing `END` (or the end of input, which the
/// caller then reports).
pub open spec fn spec_parse_plan_body(toks: Seq<TokenV>, i: nat) -> Result<
    (Seq<PlanRuleV>, nat),
    nat,
>
    decreases toks.len() - i,
{
    if spec_peek_tok(toks, i) is End || spec_peek_tok(toks, i) is Eof {
        Ok((Seq::<PlanRuleV>::empty(), i))
    } else {
        match spec_parse_plan_rule(toks, i) {
            Err(p) => Err(p),
            Ok((rule, j)) => {
                if i < j <= toks.len() {
                    match spec_parse_plan_body(toks, j) {
                        Err(p) => Err(p),
                        Ok((rest, k)) => Ok((seq![rule] + rest, k)),
                    }
                } else {
                    // A parsed rule always advances, so this branch is
                    // never taken.
                    Err(toks.len() + 1)
                }
            },
        }
    }
}

/// A plan statement: `PLAN "name" rule* END`.
pub open spec fn spec_parse_plan(toks: Seq<TokenV>, i: nat) -> Result<(PlanV, nat), nat> {
    if spec_peek_tok(toks, i) is Plan {
        match spec_parse_string(toks, i + 1) {
            Err(p) => Err(p),
            Ok((name, j)) => match spec_parse_plan_body(toks, j) {
                Err(p) => Err(p),
                Ok((rules, k)) => {
                    if spec_peek_tok(toks, k) is End {
                        Ok((PlanV { name, rules }, k + 1))
                    } else {
                        Err(k)
                    }
                },
            },
        }
    } else {
        Err(i)
    }
}

/// Define fields (`ALIAS`, `TARGET RETURN`) up to the closing `END`; later
/// occurrences of a field overwrite earlier ones. Any other token stops the
/// field list (the caller then expects `END` there).
pub open spec fn spec_parse_define_body(
    toks: Seq<TokenV>,
    i: nat,
    alias: Option<Seq<char>>,
    target_return: Option<Decimal>,
) -> Result<((Option<Seq<char>>, Option<Decimal>), nat), nat>
    decreases toks.len() - i,
{
    if spec_peek_tok(toks, i) is Alias {
        match spec_parse_string(toks, i + 1) {
            Err(p) => Err(p),
            Ok((a, j)) => {
                if i < j <= toks.len() {
                    spec_parse_define_body(toks, j, Some(a), target_return)
                } else {
                    Err(toks.len() + 1)
                }
            },
        }
    } else if spec_peek_tok(toks, i) is Target {
        if spec_peek_tok(toks, i + 1) is Return {
            match spec_parse_number(toks, i + 2) {
                Err(p) => Err(p),
                Ok((n, j)) => {
                    if i < j <= toks.len() {
                        spec_parse_define_body(toks, j, alias, Some(n))
                    } else {
                        Err(toks.len() + 1)
                    }
                },
            }
        } else {
            Err(i + 1)
        }
    } else {
        Ok(((alias, target_return), i))
    }
}

/// A define statement: `DEFINE symbol field* END`.
pub open spec fn spec_parse_define(toks: Seq<TokenV>, i: nat) -> Result<(DefineV, nat), nat> {
    if spec_peek_tok(toks, i) is Define {
        match spec_parse_symbol(toks, i + 1) {
            Err(p) => Err(p),
            Ok((symbol, j)) => match spec_parse_define_body(toks, j, None, None) {
                Err(p) => Err(p),
                Ok(((alias, target_return), k)) => {
                    if spec_peek_tok(toks, k) is End {
                        Ok((DefineV { symbol, alias, target_return }, k + 1))
                    } else {
                        Err(k)
                    }
                },
            },
        }
    } else {
        Err(i)
    }
}

/// The symbols after the first in an `ASSETS` list: `(',' symbol)*`.
pub open spec fn spec_parse_symbol_list_rest(toks: Seq<TokenV>, i: nat, acc: Seq<SymbolV>) -> Result<
    (Seq<SymbolV>, nat),
    nat,
>
    decreases toks.len() - i,
{
    if spec_peek_tok(toks, i) is Comma {
        match spec_parse_symbol(toks, i + 1) {
            Err(p) => Err(p),
            Ok((sym, j)) => {
                if i < j <= toks.len() {
                    spec_parse_symbol_list_rest(toks, j, acc.push(sym))
                } else {
                    Err(toks.len() + 1)
                }
            },
        }
    } else {
        Ok((acc, i))
    }
}

/// A comma-separated, non-empty symbol list.
pub open spec fn spec_parse_symbol_list(toks: Seq<TokenV>, i: nat) -> Result<
    (Seq<SymbolV>, nat),
    nat,
> {
    match spec_parse_symbol(toks, i) {
        Err(p) => Err(p),
        Ok((first, j)) => spec_parse_symbol_list_rest(toks, j, seq![first]),
    }
}

/// Portfolio fields (`ASSETS`, `TARGET RETURN`) up to the closing `END`; a
/// later `ASSETS` list replaces an earlier one.
pub open spec fn spec_parse_portfolio_body(
    toks: Seq<TokenV>,
    i: nat,
    assets: Seq<SymbolV>,
    target_return: Option<Decimal>,
) -> Result<((Seq<SymbolV>, Option<Decimal>), nat), nat>
    decreases toks.len() - i,
{
    if spec_peek_tok(toks, i) is Assets {
        match spec_parse_symbol_list(toks, i + 1) {
            Err(p) => Err(p),
            Ok((syms, j)) => {
                if i < j <= toks.len() {
                    spec_parse_portfolio_body(toks, j, syms, target_return)
                } else {
                    Err(toks.len() + 1)
                }
            },
        }
    } else if spec_peek_tok(toks, i) is Target {
        if spec_peek_tok(toks, i + 1) is Return {
            match spec_parse_number(toks, i + 2) {
                Err(p) => Err(p),
                Ok((n, j)) => {
                    if i < j <= toks.len() {
                        spec_parse_portfolio_body(toks, j, assets, Some(n))
                    } else {
                        Err(toks.len() + 1)
                    }
                },
            }
        } else {
            Err(i + 1)
        }
    } else {
        Ok(((assets, target_return), i))
    }
}

/// A portfolio statement: `PORTFOLIO "name" field* END`.
pub open spec fn spec_parse_portfolio(toks: Seq<TokenV>, i: nat) -> Result<(PortfolioV, nat), nat> {
    if spec_peek_tok(toks, i) is Portfolio {
        match spec_parse_string(toks, i + 1) {
            Err(p) => Err(p),
            Ok((name, j)) => match spec_parse_portfolio_body(
                toks,
                j,
                Seq::<SymbolV>::empty(),
                None,
            ) {
                Err(p) => Err(p),
                Ok(((assets, target_return), k)) => {
                    if spec_peek_tok(toks, k) is End {
                        Ok((PortfolioV { name, assets, target_return }, k + 1))
                    } else {
                        Err(k)
                    }
                },
            },
        }
    } else {
        Err(i)
    }
}

/// One statement, after skipping leading comments: dispatched on the first
/// token. `Eof` or anything unexpected is an error at that token.
pub open spec fn spec_parse_statement(toks: Seq<TokenV>, i: nat) -> Result<
    (StatementV, nat),
    nat,
> {
    let j = spec_skip_comments(toks, i);
    match spec_peek_tok(toks, j) {
        TokenV::Date(_) => match spec_parse_record(toks, j) {
            Ok((r, k)) => Ok((StatementV::Record(r), k)),
            Err(p) => Err(p),
        },
        TokenV::Plan => match spec_parse_plan(toks, j) {
            Ok((p_, k)) => Ok((StatementV::Plan(p_), k)),
            Err(p) => Err(p),
        },
        TokenV::Define => match spec_parse_define(toks, j) {
            Ok((d, k)) => Ok((StatementV::Define(d), k)),
            Err(p) => Err(p),
        },
        TokenV::Portfolio => match spec_parse_portfolio(toks, j) {
            Ok((p_, k)) => Ok((StatementV::Portfolio(p_), k)),
            Err(p) => Err(p),
        },
        _ => Err(j),
    }
}

/// The whole program: comments and stray line breaks are skipped between
/// statements; the list ends at `Eof`. The first unmet expectation aborts
/// the parse with its position.
pub open spec fn spec_parse(toks: Seq<TokenV>, i: nat) -> Result<Seq<StatementV>, nat>
    decreases toks.len() - i,
{
    let j = spec_skip_comments_and_newlines(toks, i);
    if spec_tok_at_end(toks, j) {
        Ok(Seq::<StatementV>::empty())
    } else {
        match spec_parse_statement(toks, j) {
            Err(p) => Err(p),
            Ok((st, k)) => {
                if i <= j && j < k <= toks.len() {
                    match spec_parse(toks, k) {
                        Err(p) => Err(p),
                        Ok(rest) => Ok(seq![st] + rest),
                    }
                } else {
                    // A parsed statement always advances, so this branch
                    // is never taken.
                    Err(toks.len() + 1)
                }
            },
        }
    }
}

/// The token views of a token vector.
pub open spec fn spec_toks_of(tokens: Seq<Token>) -> Seq<TokenV> {
    tokens.map_values(|t: Token| t@)
}

/// The recursive-descent parser: a token vector and a cursor into it.
pub struct Parser {
    pub tokens: Vec<Token>,
    pub current: usize,
}

impl Parser {
    /// A fresh parser over `tokens`, at the first token.
    pub fn new(tokens: Vec<Token>) -> (r: Parser)
        ensures
            r.tokens@ == tokens@,
            r.current == 0,
    {
        Parser { tokens, current: 0 }
    }

    /// One symbol token.
    fn parse_symbol(&mut self) -> (r: Result<Symbol, ParseError>)
        requires
            old(self).current <= old(self).tokens@.len(),
        ensures
            final(self).tokens == old(self).tokens,
            old(self).current <= final(self).current <= final(self).tokens@.len(),
            match r {
                Ok(v) => spec_parse_symbol(spec_toks_of(old(self).tokens@), old(self).current as nat)
                    matches Ok((vv, k)) && vv == v@ && k == final(self).current
                    && old(self).current < final(self).current,
                Err(e) => spec_parse_symbol(spec_toks_of(old(self).tokens@), old(self).current as nat)
                    matches Err(p) && e.position == p,
            },
    {
        let n = self.tokens.len();
        if self.current < n {
            match &self.tokens[self.current] {
                Token::Symbol(ns, name) => {
                    let sym = Symbol { namespace: ns.clone(), name: name.clone() };
                    self.current = self.current + 1;
                    return Ok(sym);
                },
                _ => {},
            }
        }
        Err(ParseError { message: "Expected symbol".to_owned(), position: self.current })
    }

    /// One number token.
    fn parse_number(&mut self) -> (r: Result<Decimal, ParseError>)
        requires
            old(self).current <= old(self).tokens@.len(),
        ensures
            final(self).tokens == old(self).tokens,
            old(self).current <= final(self).current <= final(self).tokens@.len(),
            match r {
                Ok(v) => spec_parse_number(spec_toks_of(old(self).tokens@), old(self).current as nat)
                    matches Ok((vv, k)) && vv == v && k == final(self).current
                    && old(self).current < final(self).current,
                Err(e) => spec_parse_number(spec_toks_of(old(self).tokens@), old(self).current as nat)
                    matches Err(p) && e.position == p,
            },
    {
        let n = self.tokens.len();
        if self.current < n {
            match &self.tokens[self.current] {
                Token::Number(d) => {
                    let v = *d;
                    self.current = self.current + 1;
                    return Ok(v);
                },
                _ => {},
            }
        }
        Err(ParseError { message: "Expected number".to_owned(), position: self.current })
    }

    /// One string token.
    fn parse_string(&mut self) -> (r: Result<String, ParseError>)
        requires
            old(self).current <= old(self).tokens@.len(),
        ensures
            final(self).tokens == old(self).tokens,
            old(self).current <= final(self).current <= final(self).tokens@.len(),
            match r {
                Ok(v) => spec_parse_string(spec_toks_of(old(self).tokens@), old(self).current as nat)
                    matches Ok((vv, k)) && vv == v@ && k == final(self).current
                    && old(self).current < final(self).current,
                Err(e) => spec_parse_string(spec_toks_of(old(self).tokens@), old(self).current as nat)
                    matches Err(p) && e.position == p,
            },
    {
        let n = self.tokens.len();
        if self.current < n {
            match &self.tokens[self.current] {
                Token::String(s) => {
                    let v = s.clone();
                    self.current = self.current + 1;
                    return Ok(v);
                },
                _ => {},
            }
        }
        Err(ParseError { message: "Expected string".to_owned(), position: self.current })
    }

    /// One identifier token.
    fn parse_identifier(&mut self) -> (r: Result<String, ParseError>)
        requires
            old(self).current <= old(self).tokens@.len(),
        ensures
            final(self).tokens == old(self).tokens,
            old(self).current <= final(self).current <= final(self).tokens@.len(),
            match r {
                Ok(v) => spec_parse_identifier(
                    spec_toks_of(old(self).tokens@),
                    old(self).current as nat,
                ) matches Ok((vv, k)) && vv == v@ && k == final(self).current
                    && old(self).current < final(self).current,
                Err(e) => spec_parse_identifier(
                    spec_toks_of(old(self).tokens@),
                    old(self).current as nat,
                ) matches Err(p) && e.position == p,
            },
    {
        let n = self.tokens.len();
        if self.current < n {
            match &self.tokens[self.current] {
                Token::Identifier(s) => {
                    let v = s.clone();
                    self.current = self.current + 1;
                    return Ok(v);
                },
                _ => {},
            }
        }
        Err(ParseError { message: "Expected identifier".to_owned(), position: self.current })
    }

    /// One date token.
    fn parse_date(&mut self) -> (r: Result<String, ParseError>)
        requires
            old(self).current <= old(self).tokens@.len(),
        ensures
            final(self).tokens == old(self).tokens,
            old(self).current <= final(self).current <= final(self).tokens@.len(),
            match r {
                Ok(v) => spec_parse_date(spec_toks_of(old(self).tokens@), old(self).current as nat)
                    matches Ok((vv, k)) && vv == v@ && k == final(self).current
                    && old(self).current < final(self).current,
                Err(e) => spec_parse_date(spec_toks_of(old(self).tokens@), old(self).current as nat)
                    matches Err(p) && e.position == p,
            },
    {
        let n = self.tokens.len();
        if self.current < n {
            match &self.tokens[self.current] {
                Token::Date(d) => {
                    let v = d.clone();
                    self.current = self.current + 1;
                    return Ok(v);
                },
                _ => {},
            }
        }
        Err(ParseError { message: "Expected date".to_owned(), position: self.current })
    }

    /// An optional `+`/`-` sign (positive when omitted) followed by a
    /// number.
    fn parse_signed_amount(&mut self) -> (r: Result<SignedAmount, ParseError>)
        requires
            old(self).current <= old(self).tokens@.len(),
        ensures
            final(self).tokens == old(self).tokens,
            old(self).current <= final(self).current <= final(self).tokens@.len(),
            match r {
                Ok(v) => spec_parse_signed_amount(
                    spec_toks_of(old(self).tokens@),
                    old(self).current as nat,
                ) matches Ok((vv, k)) && vv == v && k == final(self).current
                    && old(self).current < final(self).current,
                Err(e) => spec_parse_signed_amount(
                    spec_toks_of(old(self).tokens@),
                    old(self).current as nat,
                ) matches Err(p) && e.position == p,
            },
    {
        let n = self.tokens.len();
        let mut sign = Sign::Positive;
        if self.current < n {
            match &self.tokens[self.current] {
                Token::Plus => {
                    self.current = self.current + 1;
                },
                Token::Minus => {
                    sign = Sign::Negative;
                    self.current = self.current + 1;
                },
                _ => {},
            }
        }
        match self.parse_number() {
            Ok(value) => Ok(SignedAmount { sign, value }),
            Err(e) => Err(e),
        }
    }

    /// `TRADE` or `MARK`.
    fn parse_action(&mut self) -> (r: Result<Action, ParseError>)
        requires
            old(self).current <= old(self).tokens@.len(),
        ensures
            final(self).tokens == old(self).tokens,
            old(self).current <= final(self).current <= final(self).tokens@.len(),
            match r {
                Ok(v) => spec_parse_action(spec_toks_of(old(self).tokens@), old(self).current as nat)
                    matches Ok((vv, k)) && vv == v && k == final(self).current
                    && old(self).current < final(self).current,
                Err(e) => spec_parse_action(spec_toks_of(old(self).tokens@), old(self).current as nat)
                    matches Err(p) && e.position == p,
            },
    {
        let n = self.tokens.len();
        if self.current < n {
            match &self.tokens[self.current] {
                Token::Trade => {
                    self.current = self.current + 1;
                    return Ok(Action::Trade);
                },
                Token::Mark => {
                    self.current = self.current + 1;
                    return Ok(Action::Mark);
                },
                _ => {},
            }
        }
        Err(ParseError { message: "Expected TRADE or MARK".to_owned(), position: self.current })
    }

    /// One of the five frequency keywords.
    fn parse_frequency(&mut self) -> (r: Result<super::ast::Frequency, ParseError>)
        requires
            old(self).current <= old(self).tokens@.len(),
        ensures
            final(self).tokens == old(self).tokens,
            old(self).current <= final(self).current <= final(self).tokens@.len(),
            match r {
                Ok(v) => spec_parse_frequency(
                    spec_toks_of(old(self).tokens@),
                    old(self).current as nat,
                ) matches Ok((vv, k)) && vv == v && k == final(self).current
                    && old(self).current < final(self).current,
                Err(e) => spec_parse_frequency(
                    spec_toks_of(old(self).tokens@),
                    old(self).current as nat,
                ) matches Err(p) && e.position == p,
            },
    {
        let n = self.tokens.len();
        if self.current < n {
            match &self.tokens[self.current] {
                Token::Daily => {
                    self.current = self.current + 1;
                    return Ok(super::ast::Frequency::Daily);
                },
                Token::Weekly => {
                    self.current = self.current + 1;
                    return Ok(super::ast::Frequency::Weekly);
                },
                Token::Monthly => {
                    self.current = self.current + 1;
                    return Ok(super::ast::Frequency::Monthly);
                },
                Token::Quarterly => {
                    self.current = self.current + 1;
                    return Ok(super::ast::Frequency::Quarterly);
                },
                Token::Yearly => {
                    self.current = self.current + 1;
                    return Ok(super::ast::Frequency::Yearly);
                },
                _ => {},
            }
        }
        Err(ParseError { message: "Expected frequency".to_owned(), position: self.current })
    }

    /// Trade details: symbol, signed amount, unit, optional `@ price`.
    fn parse_trade_details(&mut self) -> (r: Result<TradeDetails, ParseError>)
        requires
            old(self).current <= old(self).tokens@.len(),
        ensures
            final(self).tokens == old(self).tokens,
            old(self).current <= final(self).current <= final(self).tokens@.len(),
            match r {
                Ok(v) => spec_parse_trade_details(
                    spec_toks_of(old(self).tokens@),
                    old(self).current as nat,
                ) matches Ok((vv, k)) && vv == v@ && k == final(self).current
                    && old(self).current < final(self).current,
                Err(e) => spec_parse_trade_details(
                    spec_toks_of(old(self).tokens@),
                    old(self).current as nat,
                ) matches Err(p) && e.position == p,
            },
    {
        let symbol = match self.parse_symbol() {
            Ok(s) => s,
            Err(e) => {
                return Err(e);
            },
        };
        let signed_amount = match self.parse_signed_amount() {
            Ok(a) => a,
            Err(e) => {
                return Err(e);
            },
        };
        let unit = match self.parse_identifier() {
            Ok(u) => u,
            Err(e) => {
                return Err(e);
            },
        };
        let n = self.tokens.len();
        let mut has_at = false;
        if self.current < n {
            match &self.tokens[self.current] {
                Token::At => {
                    has_at = true;
                },
                _ => {},
            }
        }
        if has_at {
            self.current = self.current + 1;
            let price = match self.parse_number() {
                Ok(p) => p,
                Err(e) => {
                    return Err(e);
                },
            };
            Ok(TradeDetails { symbol, signed_amount, unit, price: Some(price) })
        } else {
            Ok(TradeDetails { symbol, signed_amount, unit, price: None })
        }
    }

    /// Mark details: symbol, `VALUE`, number, unit.
    fn parse_mark_details(&mut self) -> (r: Result<MarkDetails, ParseError>)
        requires
            old(self).current <= old(self).tokens@.len(),
        ensures
            final(self).tokens == old(self).tokens,
            old(self).current <= final(self).current <= final(self).tokens@.len(),
            match r {
                Ok(v) => spec_parse_mark_details(
                    spec_toks_of(old(self).tokens@),
                    old(self).current as nat,
                ) matches Ok((vv, k)) && vv == v@ && k == final(self).current
                    && old(self).current < final(self).current,
                Err(e) => spec_parse_mark_details(
                    spec_toks_of(old(self).tokens@),
                    old(self).current as nat,
                ) matches Err(p) && e.position == p,
            },
    {
        let symbol = match self.parse_symbol() {
            Ok(s) => s,
            Err(e) => {
                return Err(e);
            },
        };
        let n = self.tokens.len();
        let mut has_value = false;
        if self.current < n {
            match &self.tokens[self.current] {
                Token::Value => {
                    has_value = true;
                },
                _ => {},
            }
        }
        if !has_value {
            return Err(ParseError { message: "Expected VALUE".to_owned(), position: self.current });
        }
        self.current = self.current + 1;
        let value = match self.parse_number() {
            Ok(v) => v,
            Err(e) => {
                return Err(e);
            },
        };
        let unit = match self.parse_identifier() {
            Ok(u) => u,
            Err(e) => {
                return Err(e);
            },
        };
        Ok(MarkDetails { symbol, value, unit })
    }

    /// Details according to the record's action.
    fn parse_details(&mut self, action: &Action) -> (r: Result<Details, ParseError>)
        requires
            old(self).current <= old(self).tokens@.len(),
        ensures
            final(self).tokens == old(self).tokens,
            old(self).current <= final(self).current <= final(self).tokens@.len(),
            match r {
                Ok(v) => spec_parse_details(
                    spec_toks_of(old(self).tokens@),
                    old(self).current as nat,
                    *action,
                ) matches Ok((vv, k)) && vv == v@ && k == final(self).current
                    && old(self).current < final(self).current,
                Err(e) => spec_parse_details(
                    spec_toks_of(old(self).tokens@),
                    old(self).current as nat,
                    *action,
                ) matches Err(p) && e.position == p,
            },
    {
        match action {
            Action::Trade => match self.parse_trade_details() {
                Ok(t) => Ok(Details::Trade(t)),
                Err(e) => Err(e),
            },
            Action::Mark => match self.parse_mark_details() {
                Ok(m) => Ok(Details::Mark(m)),
                Err(e) => Err(e),
            },
        }
    }

    /// An optional `NOTE "text"` suffix.
    fn parse_optional_note(&mut self) -> (r: Result<Option<String>, ParseError>)
        requires
            old(self).current <= old(self).tokens@.len(),
        ensures
            final(self).tokens == old(self).tokens,
            old(self).current <= final(self).current <= final(self).tokens@.len(),
            match r {
                Ok(v) => spec_parse_opt_note(
                    spec_toks_of(old(self).tokens@),
                    old(self).current as nat,
                ) matches Ok((vv, k)) && vv == (match v {
                    Some(ref s) => Some(s@),
                    None => None,
                }) && k == final(self).current,
                Err(e) => spec_parse_opt_note(
                    spec_toks_of(old(self).tokens@),
                    old(self).current as nat,
                ) matches Err(p) && e.position == p,
            },
    {
        let n = self.tokens.len();
        let mut has_note = false;
        if self.current < n {
            match &self.tokens[self.current] {
                Token::Note => {
                    has_note = true;
                },
                _ => {},
            }
        }
        if has_note {
            self.current = self.current + 1;
            match self.parse_string() {
                Ok(s) => Ok(Some(s)),
                Err(e) => Err(e),
            }
        } else {
            Ok(None)
        }
    }

    /// A record statement: date, action, details, optional note.
    fn parse_record(&mut self) -> (r: Result<Record, ParseError>)
        requires
            old(self).current <= old(self).tokens@.len(),
        ensures
            final(self).tokens == old(self).tokens,
            old(self).current <= final(self).current <= final(self).tokens@.len(),
            match r {
                Ok(v) => spec_parse_record(spec_toks_of(old(self).tokens@), old(self).current as nat)
                    matches Ok((vv, k)) && vv == v@ && k == final(self).current
                    && old(self).current < final(self).current,
                Err(e) => spec_parse_record(spec_toks_of(old(self).tokens@), old(self).current as nat)
                    matches Err(p) && e.position == p,
            },
    {
        let n = self.tokens.len();
        let mut date_opt: Option<String> = None;
        if self.current < n {
            match &self.tokens[self.current] {
                Token::Date(d) => {
                    date_opt = Some(d.clone());
                },
                _ => {},
            }
        }
        let date = match date_opt {
            Some(d) => d,
            None => {
                return Err(
                    ParseError { message: "Expected date".to_owned(), position: self.current },
                );
            },
        };
        self.current = self.current + 1;
        let action = match self.parse_action() {
            Ok(a) => a,
            Err(e) => {
                return Err(e);
            },
        };
        let details = match self.parse_details(&action) {
            Ok(d) => d,
            Err(e) => {
                return Err(e);
            },
        };
        let note = match self.parse_optional_note() {
            Ok(nt) => nt,
            Err(e) => {
                return Err(e);
            },
        };
        Ok(Record { date, action, details, note })
    }

    /// `SCHEDULE` body: frequency, amount, unit, `INTO`, target symbol.
    fn parse_schedule(&mut self) -> (r: Result<Schedule, ParseError>)
        requires
            old(self).current <= old(self).tokens@.len(),
        ensures
            final(self).tokens == old(self).tokens,
            old(self).current <= final(self).current <= final(self).tokens@.len(),
            match r {
                Ok(v) => spec_parse_schedule(
                    spec_toks_of(old(self).tokens@),
                    old(self).current as nat,
                ) matches Ok((vv, k)) && vv == v@ && k == final(self).current
                    && old(self).current < final(self).current,
                Err(e) => spec_parse_schedule(
                    spec_toks_of(old(self).tokens@),
                    old(self).current as nat,
                ) matches Err(p) && e.position == p,
            },
    {
        let frequency = match self.parse_frequency() {
            Ok(f) => f,
            Err(e) => {
                return Err(e);
            },
        };
        let amount = match self.parse_number() {
            Ok(a) => a,
            Err(e) => {
                return Err(e);
            },
        };
        let unit = match self.parse_identifier() {
            Ok(u) => u,
            Err(e) => {
                return Err(e);
            },
        };
        let n = self.tokens.len();
        let mut has_into = false;
        if self.current < n {
            match &self.tokens[self.current] {
                Token::Into => {
                    has_into = true;
                },
                _ => {},
            }
        }
        if !has_into {
            return Err(ParseError { message: "Expected INTO".to_owned(), position: self.current });
        }
        self.current = self.current + 1;
        let target = match self.parse_symbol() {
            Ok(t) => t,
            Err(e) => {
                return Err(e);
            },
        };
        Ok(Schedule { frequency, amount, unit, target })
    }

    /// One plan rule: a schedule, a start date, or an end date.
    fn parse_plan_rule(&mut self) -> (r: Result<PlanRule, ParseError>)
        requires
            old(self).current <= old(self).tokens@.len(),
        ensures
            final(self).tokens == old(self).tokens,
            old(self).current <= final(self).current <= final(self).tokens@.len(),
            match r {
                Ok(v) => spec_parse_plan_rule(
                    spec_toks_of(old(self).tokens@),
                    old(self).current as nat,
                ) matches Ok((vv, k)) && vv == v@ && k == final(self).current
                    && old(self).current < final(self).current,
                Err(e) => spec_parse_plan_rule(
                    spec_toks_of(old(self).tokens@),
                    old(self).current as nat,
                ) matches Err(p) && e.position == p,
            },
    {
        let n = self.tokens.len();
        let mut kind: u8 = 0;
        if self.current < n {
            match &self.tokens[self.current] {
                Token::Schedule => {
                    kind = 1;
                },
                Token::Start => {
                    kind = 2;
                },
                Token::EndDate => {
                    kind = 3;
                },
                _ => {},
            }
        }
        if kind == 1 {
            self.current = self.current + 1;
            match self.parse_schedule() {
                Ok(s) => Ok(PlanRule::Schedule(s)),
                Err(e) => Err(e),
            }
        } else if kind == 2 {
            self.current = self.current + 1;
            match self.parse_date() {
                Ok(d) => Ok(PlanRule::StartDate(d)),
                Err(e) => Err(e),
            }
        } else if kind == 3 {
            self.current = self.current + 1;
            match self.parse_date() {
                Ok(d) => Ok(PlanRule::EndDate(d)),
                Err(e) => Err(e),
            }
        } else {
            Err(
                ParseError {
                    message: "Expected SCHEDULE, START, or END_DATE".to_owned(),
                    position: self.current,
                },
            )
        }
    }

    /// Plan rules up to the closing `END` (or the end of input).
    #[verifier::loop_isolation(false)]
    fn parse_plan_body(&mut self) -> (r: Result<Vec<PlanRule>, ParseError>)
        requires
            old(self).current <= old(self).tokens@.len(),
        ensures
            final(self).tokens == old(self).tokens,
            old(self).current <= final(self).current <= final(self).tokens@.len(),
            match r {
                Ok(v) => spec_parse_plan_body(
                    spec_toks_of(old(self).tokens@),
                    old(self).current as nat,
                ) matches Ok((vv, k)) && vv == v@.map_values(|x: PlanRule| x@)
                    && k == final(self).current,
                Err(e) => spec_parse_plan_body(
                    spec_toks_of(old(self).tokens@),
                    old(self).current as nat,
                ) matches Err(p) && e.position == p,
            },
    {
        let ghost t = spec_toks_of(old(self).tokens@);
        let ghost pos0 = old(self).current as nat;
        let mut rules: Vec<PlanRule> = Vec::new();
        loop
            invariant
                self.tokens == old(self).tokens,
                pos0 <= self.current <= t.len(),
                match spec_parse_plan_body(t, self.current as nat) {
                    Ok((rest, k)) => spec_parse_plan_body(t, pos0) matches Ok((all, k2)) && all
                        == rules@.map_values(|x: PlanRule| x@) + rest && k2 == k,
                    Err(p) => spec_parse_plan_body(t, pos0) matches Err(p2) && p2 == p,
                },
            decreases t.len() - self.current,
        {
            let n = self.tokens.len();
            let mut stop = self.current >= n;
            if self.current < n {
                match &self.tokens[self.current] {
                    Token::End => {
                        stop = true;
                    },
                    Token::Eof => {
                        stop = true;
                    },
                    _ => {},
                }
            }
            if stop {
                proof {
                    assert(spec_parse_plan_body(t, self.current as nat) == Ok::<
                        (Seq<PlanRuleV>, nat),
                        nat,
                    >((Seq::<PlanRuleV>::empty(), self.current as nat)));
                    assert(rules@.map_values(|x: PlanRule| x@) + Seq::<PlanRuleV>::empty()
                        =~= rules@.map_values(|x: PlanRule| x@));
                }
                return Ok(rules);
            }
            let ghost rules_pre = rules@;
            let rule = match self.parse_plan_rule() {
                Ok(ru) => ru,
                Err(e) => {
                    return Err(e);
                },
            };
            rules.push(rule);
            proof {
                assert(rules@.map_values(|x: PlanRule| x@) =~= rules_pre.map_values(
                    |x: PlanRule| x@,
                ).push(rule@));
                match spec_parse_plan_body(t, self.current as nat) {
                    Ok(pr) => {
                        assert(rules_pre.map_values(|x: PlanRule| x@) + (seq![rule@] + pr.0)
                            =~= rules@.map_values(|x: PlanRule| x@) + pr.0);
                    },
                    Err(_) => {},
                }
            }
        }
    }

    /// A plan statement: `PLAN "name" rule* END`.
    fn parse_plan(&mut self) -> (r: Result<Plan, ParseError>)
        requires
            old(self).current <= old(self).tokens@.len(),
        ensures
            final(self).tokens == old(self).tokens,
            old(self).current <= final(self).current <= final(self).tokens@.len(),
            match r {
                Ok(v) => spec_parse_plan(spec_toks_of(old(self).tokens@), old(self).current as nat)
                    matches Ok((vv, k)) && vv == v@ && k == final(self).current
                    && old(self).current < final(self).current,
                Err(e) => spec_parse_plan(spec_toks_of(old(self).tokens@), old(self).current as nat)
                    matches Err(p) && e.position == p,
            },
    {
        let n = self.tokens.len();
        let mut has_plan = false;
        if self.current < n {
            match &self.tokens[self.current] {
                Token::Plan => {
                    has_plan = true;
                },
                _ => {},
            }
        }
        if !has_plan {
            return Err(ParseError { message: "Expected PLAN".to_owned(), position: self.current });
        }
        self.current = self.current + 1;
        let name = match self.parse_string() {
            Ok(s) => s,
            Err(e) => {
                return Err(e);
            },
        };
        let rules = match self.parse_plan_body() {
            Ok(rs) => rs,
            Err(e) => {
                return Err(e);
            },
        };
        let mut has_end = false;
        if self.current < n {
            match &self.tokens[self.current] {
                Token::End => {
                    has_end = true;
                },
                _ => {},
            }
        }
        if !has_end {
            return Err(ParseError { message: "Expected END".to_owned(), position: self.current });
        }
        self.current = self.current + 1;
        Ok(Plan { name, rules })
    }

    /// A define statement: `DEFINE symbol field* END`.
    #[verifier::loop_isolation(false)]
    fn parse_define(&mut self) -> (r: Result<Define, ParseError>)
        requires
            old(self).current <= old(self).tokens@.len(),
        ensures
            final(self).tokens == old(self).tokens,
            old(self).current <= final(self).current <= final(self).tokens@.len(),
            match r {
                Ok(v) => spec_parse_define(spec_toks_of(old(self).tokens@), old(self).current as nat)
                    matches Ok((vv, k)) && vv == v@ && k == final(self).current
                    && old(self).current < final(self).current,
                Err(e) => spec_parse_define(spec_toks_of(old(self).tokens@), old(self).current as nat)
                    matches Err(p) && e.position == p,
            },
    {
        let ghost t = spec_toks_of(old(self).tokens@);
        let n = self.tokens.len();
        let mut has_define = false;
        if self.current < n {
            match &self.tokens[self.current] {
                Token::Define => {
                    has_define = true;
                },
                _ => {},
            }
        }
        if !has_define {
            return Err(
                ParseError { message: "Expected DEFINE".to_owned(), position: self.current },
            );
        }
        self.current = self.current + 1;
        let symbol = match self.parse_symbol() {
            Ok(s) => s,
            Err(e) => {
                return Err(e);
            },
        };
        let ghost body0 = self.current as nat;
        let mut alias: Option<String> = None;
        let mut target_return: Option<Decimal> = None;
        loop
            invariant
                self.tokens == old(self).tokens,
                body0 <= self.current <= t.len(),
                spec_parse_define_body(t, body0, None, None) == spec_parse_define_body(
                    t,
                    self.current as nat,
                    match alias {
                        Some(ref a) => Some(a@),
                        None => None,
                    },
                    target_return,
                ),
            decreases t.len() - self.current,
        {
            let mut kind: u8 = 0;
            if self.current < n {
                match &self.tokens[self.current] {
                    Token::Alias => {
                        kind = 1;
                    },
                    Token::Target => {
                        kind = 2;
                    },
                    _ => {},
                }
            }
            if kind == 1 {
                self.current = self.current + 1;
                match self.parse_string() {
                    Ok(a) => {
                        alias = Some(a);
                    },
                    Err(e) => {
                        return Err(e);
                    },
                }
            } else if kind == 2 {
                let mut has_return = false;
                if self.current + 1 < n {
                    match &self.tokens[self.current + 1] {
                        Token::Return => {
                            has_return = true;
                        },
                        _ => {},
                    }
                }
                if !has_return {
                    return Err(
                        ParseError {
                            message: "Expected RETURN after TARGET".to_owned(),
                            position: self.current + 1,
                        },
                    );
                }
                self.current = self.current + 2;
                match self.parse_number() {
                    Ok(v) => {
                        target_return = Some(v);
                    },
                    Err(e) => {
                        return Err(e);
                    },
                }
            } else {
                break ;
            }
        }
        let mut has_end = false;
        if self.current < n {
            match &self.tokens[self.current] {
                Token::End => {
                    has_end = true;
                },
                _ => {},
            }
        }
        if !has_end {
            return Err(ParseError { message: "Expected END".to_owned(), position: self.current });
        }
        self.current = self.current + 1;
        Ok(Define { symbol, alias, target_return })
    }

    /// A comma-separated, non-empty symbol list.
    #[verifier::loop_isolation(false)]
    fn parse_symbol_list(&mut self) -> (r: Result<Vec<Symbol>, ParseError>)
        requires
            old(self).current <= old(self).tokens@.len(),
        ensures
            final(self).tokens == old(self).tokens,
            old(self).current <= final(self).current <= final(self).tokens@.len(),
            match r {
                Ok(v) => spec_parse_symbol_list(
                    spec_toks_of(old(self).tokens@),
                    old(self).current as nat,
                ) matches Ok((vv, k)) && vv == v@.map_values(|x: Symbol| x@)
                    && k == final(self).current && old(self).current < final(self).current,
                Err(e) => spec_parse_symbol_list(
                    spec_toks_of(old(self).tokens@),
                    old(self).current as nat,
                ) matches Err(p) && e.position == p,
            },
    {
        let ghost t = spec_toks_of(old(self).tokens@);
        let first = match self.parse_symbol() {
            Ok(s) => s,
            Err(e) => {
                return Err(e);
            },
        };
        let mut symbols: Vec<Symbol> = Vec::new();
        symbols.push(first);
        proof {
            assert(symbols@.map_values(|x: Symbol| x@) =~= seq![symbols@[0]@]);
        }
        let n = self.tokens.len();
        loop
            invariant
                self.tokens == old(self).tokens,
                self.current <= t.len(),
                n == t.len(),
                symbols@.len() > 0,
                spec_parse_symbol_list(t, old(self).current as nat) == spec_parse_symbol_list_rest(
                    t,
                    self.current as nat,
                    symbols@.map_values(|x: Symbol| x@),
                ),
                old(self).current < self.current,
            decreases t.len() - self.current,
        {
            let mut has_comma = false;
            if self.current < n {
                match &self.tokens[self.current] {
                    Token::Comma => {
                        has_comma = true;
                    },
                    _ => {},
                }
            }
            if !has_comma {
                break ;
            }
            self.current = self.current + 1;
            let ghost syms_pre = symbols@;
            let sym = match self.parse_symbol() {
                Ok(s) => s,
                Err(e) => {
                    return Err(e);
                },
            };
            symbols.push(sym);
            proof {
                assert(symbols@.map_values(|x: Symbol| x@) =~= syms_pre.map_values(
                    |x: Symbol| x@,
                ).push(sym@));
            }
        }
        Ok(symbols)
    }

    /// A portfolio statement: `PORTFOLIO "name" field* END`.
    #[verifier::loop_isolation(false)]
    fn parse_portfolio(&mut self) -> (r: Result<Portfolio, ParseError>)
        requires
            old(self).current <= old(self).tokens@.len(),
        ensures
            final(self).tokens == old(self).tokens,
            old(self).current <= final(self).current <= final(self).tokens@.len(),
            match r {
                Ok(v) => spec_parse_portfolio(
                    spec_toks_of(old(self).tokens@),
                    old(self).current as nat,
                ) matches Ok((vv, k)) && vv == v@ && k == final(self).current
                    && old(self).current < final(self).current,
                Err(e) => spec_parse_portfolio(
                    spec_toks_of(old(self).tokens@),
                    old(self).current as nat,
                ) matches Err(p) && e.position == p,
            },
    {
        let ghost t = spec_toks_of(old(self).tokens@);
        let n = self.tokens.len();
        let mut has_kw = false;
        if self.current < n {
            match &self.tokens[self.current] {
                Token::Portfolio => {
                    has_kw = true;
                },
                _ => {},
            }
        }
        if !has_kw {
            return Err(
                ParseError { message: "Expected PORTFOLIO".to_owned(), position: self.current },
            );
        }
        self.current = self.current + 1;
        let name = match self.parse_string() {
            Ok(s) => s,
            Err(e) => {
                return Err(e);
            },
        };
        let ghost body0 = self.current as nat;
        let mut assets: Vec<Symbol> = Vec::new();
        let mut target_return: Option<Decimal> = None;
        proof {
            assert(assets@.map_values(|x: Symbol| x@) =~= Seq::<SymbolV>::empty());
        }
        loop
            invariant
                self.tokens == old(self).tokens,
                body0 <= self.current <= t.len(),
                spec_parse_portfolio_body(t, body0, Seq::<SymbolV>::empty(), None)
                    == spec_parse_portfolio_body(
                    t,
                    self.current as nat,
                    assets@.map_values(|x: Symbol| x@),
                    target_return,
                ),
            decreases t.len() - self.current,
        {
            let mut kind: u8 = 0;
            if self.current < n {
                match &self.tokens[self.current] {
                    Token::Assets => {
                        kind = 1;
                    },
                    Token::Target => {
                        kind = 2;
                    },
                    _ => {},
                }
            }
            if kind == 1 {
                self.current = self.current + 1;
                match self.parse_symbol_list() {
                    Ok(syms) => {
                        assets = syms;
                    },
                    Err(e) => {
                        return Err(e);
                    },
                }
            } else if kind == 2 {
                let mut has_return = false;
                if self.current + 1 < n {
                    match &self.tokens[self.current + 1] {
                        Token::Return => {
                            has_return = true;
                        },
                        _ => {},
                    }
                }
                if !has_return {
                    return Err(
                        ParseError {
                            message: "Expected RETURN after TARGET".to_owned(),
                            position: self.current + 1,
                        },
                    );
                }
                self.current = self.current + 2;
                match self.parse_number() {
                    Ok(v) => {
                        target_return = Some(v);
                    },
                    Err(e) => {
                        return Err(e);
                    },
                }
            } else {
                break ;
            }
        }
        let mut has_end = false;
        if self.current < n {
            match &self.tokens[self.current] {
                Token::End => {
                    has_end = true;
                },
                _ => {},
            }
        }
        if !has_end {
            return Err(ParseError { message: "Expected END".to_owned(), position: self.current });
        }
        self.current = self.current + 1;
        Ok(Portfolio { name, assets, target_return })
    }

    /// One statement, after skipping leading comments.
    #[verifier::loop_isolation(false)]
    fn parse_statement(&mut self) -> (r: Result<Statement, ParseError>)
        requires
            old(self).current <= old(self).tokens@.len(),
        ensures
            final(self).tokens == old(self).tokens,
            old(self).current <= final(self).current <= final(self).tokens@.len(),
            match r {
                Ok(v) => spec_parse_statement(
                    spec_toks_of(old(self).tokens@),
                    old(self).current as nat,
                ) matches Ok((vv, k)) && vv == v@ && k == final(self).current
                    && old(self).current < final(self).current,
                Err(e) => spec_parse_statement(
                    spec_toks_of(old(self).tokens@),
                    old(self).current as nat,
                ) matches Err(p) && e.position == p,
            },
    {
        let ghost t = spec_toks_of(old(self).tokens@);
        let ghost pos0 = old(self).current as nat;
        let n = self.tokens.len();
        loop
            invariant
                self.tokens == old(self).tokens,
                pos0 <= self.current <= t.len(),
                n == t.len(),
                spec_skip_comments(t, self.current as nat) == spec_skip_comments(t, pos0),
            decreases t.len() - self.current,
        {
            let mut is_comment = false;
            if self.current < n {
                match &self.tokens[self.current] {
                    Token::Comment(_) => {
                        is_comment = true;
                    },
                    _ => {},
                }
            }
            if !is_comment {
                break ;
            }
            self.current = self.current + 1;
        }
        let mut kind: u8 = 0;
        if self.current < n {
            match &self.tokens[self.current] {
                Token::Date(_) => {
                    kind = 1;
                },
                Token::Plan => {
                    kind = 2;
                },
                Token::Define => {
                    kind = 3;
                },
                Token::Portfolio => {
                    kind = 4;
                },
                Token::Eof => {
                    kind = 5;
                },
                _ => {},
            }
        }
        if kind == 1 {
            match self.parse_record() {
                Ok(rec) => Ok(Statement::Record(rec)),
                Err(e) => Err(e),
            }
        } else if kind == 2 {
            match self.parse_plan() {
                Ok(p) => Ok(Statement::Plan(p)),
                Err(e) => Err(e),
            }
        } else if kind == 3 {
            match self.parse_define() {
                Ok(d) => Ok(Statement::Define(d)),
                Err(e) => Err(e),
            }
        } else if kind == 4 {
            match self.parse_portfolio() {
                Ok(p) => Ok(Statement::Portfolio(p)),
                Err(e) => Err(e),
            }
        } else if kind == 5 {
            Err(
                ParseError {
                    message: "Unexpected end of input".to_owned(),
                    position: self.current,
                },
            )
        } else {
            Err(ParseError { message: "Expected statement".to_owned(), position: self.current })
        }
    }

    /// The whole token sequence as a program, or the first parse error.
    #[verifier::loop_isolation(false)]
    pub fn parse(&mut self) -> (r: Result<Program, ParseError>)
        requires
            old(self).current <= old(self).tokens@.len(),
        ensures
            final(self).tokens == old(self).tokens,
            match r {
                Ok(prog) => spec_parse(spec_toks_of(old(self).tokens@), old(self).current as nat)
                    matches Ok(sts) && prog@ == sts,
                Err(e) => spec_parse(spec_toks_of(old(self).tokens@), old(self).current as nat)
                    matches Err(p) && e.position == p,
            },
    {
        let ghost t = spec_toks_of(old(self).tokens@);
        let ghost pos0 = old(self).current as nat;
        let n = self.tokens.len();
        let mut program = Program::new();
        loop
            invariant
                self.tokens == old(self).tokens,
                self.current <= t.len(),
                n == t.len(),
                match spec_parse(t, self.current as nat) {
                    Ok(rest) => spec_parse(t, pos0) matches Ok(all) && all == program@ + rest,
                    Err(p) => spec_parse(t, pos0) matches Err(p2) && p2 == p,
                },
            decreases t.len() - self.current,
        {
            let ghost pre = self.current as nat;
            // Skip comments and stray line breaks between statements.
            loop
                invariant
                    self.tokens == old(self).tokens,
                    pre <= self.current <= t.len(),
                    n == t.len(),
                    spec_skip_comments_and_newlines(t, self.current as nat)
                        == spec_skip_comments_and_newlines(t, pre),
                decreases t.len() - self.current,
            {
                let mut skippable = false;
                if self.current < n {
                    match &self.tokens[self.current] {
                        Token::Comment(_) => {
                            skippable = true;
                        },
                        Token::Newline => {
                            skippable = true;
                        },
                        _ => {},
                    }
                }
                if !skippable {
                    break ;
                }
                self.current = self.current + 1;
            }
            proof {
                lemma_skip_cn_bounds(t, pre);
                lemma_skip_cn_idem(t, pre);
                lemma_skip_comments_of_non_comment(t, self.current as nat);
                assert(spec_parse(t, pre) == spec_parse(t, self.current as nat));
            }
            let mut at_end = self.current >= n;
            if self.current < n {
                match &self.tokens[self.current] {
                    Token::Eof => {
                        at_end = true;
                    },
                    _ => {},
                }
            }
            if at_end {
                proof {
                    assert(spec_parse(t, self.current as nat) == Ok::<Seq<StatementV>, nat>(
                        Seq::<StatementV>::empty(),
                    ));
                    match spec_parse(t, pos0) {
                        Ok(all) => {
                            assert(program@ + Seq::<StatementV>::empty() =~= program@);
                        },
                        Err(_) => {},
                    }
                }
                return Ok(program);
            }
            let ghost prog_pre = program@;
            let st = match self.parse_statement() {
                Ok(st) => st,
                Err(e) => {
                    return Err(e);
                },
            };
            program.add_statement(st);
            proof {
                match spec_parse(t, self.current as nat) {
                    Ok(rest) => {
                        assert(prog_pre + (seq![st@] + rest) =~= program@ + rest);
                    },
                    Err(_) => {},
                }
            }
        }
    }
}

/// Bounds for the comment-and-newline skip.
pub proof fn lemma_skip_cn_bounds(toks: Seq<TokenV>, i: nat)
    requires
        i <= toks.len(),
    ensures
        i <= spec_skip_comments_and_newlines(toks, i) <= toks.len(),
    decreases toks.len() - i,
{
    if i < toks.len() && (spec_peek_tok(toks, i) is Comment || spec_peek_tok(toks, i)
        is Newline) {
        lemma_skip_cn_bounds(toks, i + 1);
    }
}

/// Skipping comments and line breaks twice is the same as skipping once.
pub proof fn lemma_skip_cn_idem(toks: Seq<TokenV>, i: nat)
    requires
        i <= toks.len(),
    ensures
        spec_skip_comments_and_newlines(toks, spec_skip_comments_and_newlines(toks, i))
            == spec_skip_comments_and_newlines(toks, i),
    decreases toks.len() - i,
{
    if i < toks.len() && (spec_peek_tok(toks, i) is Comment || spec_peek_tok(toks, i)
        is Newline) {
        lemma_skip_cn_idem(toks, i + 1);
    }
}

/// At a non-comment position the comment skip stands still.
pub proof fn lemma_skip_comments_of_non_comment(toks: Seq<TokenV>, i: nat)
    requires
        !(spec_peek_tok(toks, i) is Comment),
    ensures
        spec_skip_comments(toks, i) == i,
{
}

} // verus!
