//! Round trips between the canonical textual forms and the tree: lexing
//! then parsing a canonically written statement reproduces the statement
//! value, and a symbol's display form lexes back to the same symbol.

use invest_dsl::decimal::Decimal;
use invest_dsl::dsl::ast::{
    Action, Define, Details, Frequency, MarkDetails, Plan, PlanRule, Portfolio, Program, Record,
    Schedule, SignedAmount, Statement, Symbol, TradeDetails,
};
use invest_dsl::dsl::lexer::Lexer;
use invest_dsl::dsl::parser::Parser;
use invest_dsl::dsl::token::Token;

fn parse(input: &str) -> Program {
    let mut lexer = Lexer::new(input);
    let tokens = lexer.tokenize().unwrap();
    let mut parser = Parser::new(tokens);
    parser.parse().unwrap()
}

fn sym(ns: &str, name: &str) -> Symbol {
    Symbol::new(ns.to_string(), name.to_string())
}

#[test]
fn symbol_display_round_trips_through_lexer() {
    let symbol = sym("ETF", "510300");
    let text = symbol.to_string();
    let mut lexer = Lexer::new(&text);
    let tokens = lexer.tokenize().unwrap();
    assert_eq!(
        tokens,
        vec![
            Token::Symbol("ETF".to_string(), "510300".to_string()),
            Token::Eof,
        ]
    );
}

#[test]
fn record_round_trips_from_canonical_text() {
    let program = parse("2024-01-01 TRADE ETF:510300 +5000 CNY @ 4.56 NOTE \"first\"");
    let expected = Statement::Record(Record {
        date: "2024-01-01".to_string(),
        action: Action::Trade,
        details: Details::Trade(TradeDetails {
            symbol: sym("ETF", "510300"),
            signed_amount: SignedAmount::positive(Decimal::new(5000, 0)),
            unit: "CNY".to_string(),
            price: Some(Decimal::new(456, 2)),
        }),
        note: Some("first".to_string()),
    });
    assert_eq!(program.statements, vec![expected]);
}

#[test]
fn mark_round_trips_from_canonical_text() {
    let program = parse("2024-03-31 MARK ETF:510300 VALUE 7200 CNY");
    let expected = Statement::Record(Record {
        date: "2024-03-31".to_string(),
        action: Action::Mark,
        details: Details::Mark(MarkDetails {
            symbol: sym("ETF", "510300"),
            value: Decimal::new(7200, 0),
            unit: "CNY".to_string(),
        }),
        note: None,
    });
    assert_eq!(program.statements, vec![expected]);
}

#[test]
fn plan_round_trips_from_canonical_text() {
    let program = parse(
        "PLAN \"Savings\" SCHEDULE MONTHLY 3000 CNY INTO ETF:510300 START 2024-01-01 END_DATE 2024-12-31 END",
    );
    let expected = Statement::Plan(Plan {
        name: "Savings".to_string(),
        rules: vec![
            PlanRule::Schedule(Schedule {
                frequency: Frequency::Monthly,
                amount: Decimal::new(3000, 0),
                unit: "CNY".to_string(),
                target: sym("ETF", "510300"),
            }),
            PlanRule::StartDate("2024-01-01".to_string()),
            PlanRule::EndDate("2024-12-31".to_string()),
        ],
    });
    assert_eq!(program.statements, vec![expected]);
}

#[test]
fn define_round_trips_from_canonical_text() {
    let program = parse("DEFINE ETF:510300 ALIAS \"CSI 300 ETF\" TARGET RETURN 0.09 END");
    let expected = Statement::Define(Define {
        symbol: sym("ETF", "510300"),
        alias: Some("CSI 300 ETF".to_string()),
        target_return: Some(Decimal::new(9, 2)),
    });
    assert_eq!(program.statements, vec![expected]);
}

#[test]
fn portfolio_round_trips_from_canonical_text() {
    let program = parse("PORTFOLIO \"Core\" ASSETS ETF:510300, ETF:159915 TARGET RETURN 0.09 END");
    let expected = Statement::Portfolio(Portfolio {
        name: "Core".to_string(),
        assets: vec![sym("ETF", "510300"), sym("ETF", "159915")],
        target_return: Some(Decimal::new(9, 2)),
    });
    assert_eq!(program.statements, vec![expected]);
}
