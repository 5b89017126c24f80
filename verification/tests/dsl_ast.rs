use invest_dsl::decimal::{Decimal, SignedDecimal};
use invest_dsl::dsl::ast::{
    Action, Details, Frequency, Plan, PlanRule, Program, Record, Schedule, Sign, SignedAmount,
    Statement, Symbol, TradeDetails,
};

#[test]
fn test_symbol_display() {
    let symbol = Symbol::new("ETF".to_string(), "510300".to_string());
    assert_eq!(symbol.to_string(), "ETF:510300");
}

#[test]
fn test_signed_amount() {
    let positive = SignedAmount::positive(Decimal::new(100, 0));
    assert_eq!(positive.to_signed_decimal(), Some(SignedDecimal::new(100, 0)));

    let negative = SignedAmount::negative(Decimal::new(50, 0));
    assert_eq!(negative.to_signed_decimal(), Some(SignedDecimal::new(-50, 0)));
}

#[test]
fn test_program_creation() {
    let mut program = Program::new();

    let record = Record {
        date: "2024-01-01".to_string(),
        action: Action::Trade,
        details: Details::Trade(TradeDetails {
            symbol: Symbol::new("ETF".to_string(), "510300".to_string()),
            signed_amount: SignedAmount::positive(Decimal::new(5000, 0)),
            unit: "CNY".to_string(),
            price: Some(Decimal::new(456, 2)),
        }),
        note: Some("Test trade".to_string()),
    };

    program.add_statement(Statement::Record(record));
    assert_eq!(program.statements.len(), 1);
}

#[test]
fn test_plan_creation() {
    let plan = Plan {
        name: "Test Plan".to_string(),
        rules: vec![
            PlanRule::Schedule(Schedule {
                frequency: Frequency::Monthly,
                amount: Decimal::new(3000, 0),
                unit: "CNY".to_string(),
                target: Symbol::new("ETF".to_string(), "510300".to_string()),
            }),
            PlanRule::StartDate("2024-01-01".to_string()),
            PlanRule::EndDate("2024-12-31".to_string()),
        ],
    };

    assert_eq!(plan.rules.len(), 3);
    assert_eq!(plan.name, "Test Plan");
}

#[test]
fn test_define_creation() {
    let define = invest_dsl::dsl::ast::Define {
        symbol: Symbol::new("ETF".to_string(), "510300".to_string()),
        alias: Some("沪深300ETF".to_string()),
        target_return: Some(Decimal::new(9, 2)),
    };

    assert_eq!(define.symbol.namespace, "ETF");
    assert_eq!(define.symbol.name, "510300");
    assert_eq!(define.alias, Some("沪深300ETF".to_string()));
    assert_eq!(define.target_return, Some(Decimal::new(9, 2)));
}

#[test]
fn test_portfolio_creation() {
    let portfolio = invest_dsl::dsl::ast::Portfolio {
        name: "ETF Portfolio".to_string(),
        assets: vec![
            Symbol::new("ETF".to_string(), "510300".to_string()),
            Symbol::new("ETF".to_string(), "159915".to_string()),
        ],
        target_return: Some(Decimal::new(9, 2)),
    };

    assert_eq!(portfolio.assets.len(), 2);
    assert_eq!(portfolio.name, "ETF Portfolio");
    assert_eq!(portfolio.target_return, Some(Decimal::new(9, 2)));
}

#[test]
fn sign_defaults_and_accessors() {
    let amount = SignedAmount::new(Sign::Positive, Decimal::new(1, 0));
    assert_eq!(amount.sign, Sign::Positive);
    assert_eq!(amount.value, Decimal::new(1, 0));
    let zero = Decimal::zero();
    assert_eq!(zero, Decimal::new(0, 0));
    let szero = SignedDecimal::zero();
    assert_eq!(szero, SignedDecimal::new(0, 0));
}
