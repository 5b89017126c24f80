use invest_dsl::decimal::{Decimal, SignedDecimal};
use invest_dsl::dsl::ast::Program;
use invest_dsl::dsl::lexer::Lexer;
use invest_dsl::dsl::parser::Parser;
use invest_dsl::evaluator::engine::{AnalysisReport, Engine};

fn parse(input: &str) -> Program {
    let mut lexer = Lexer::new(input);
    let tokens = lexer.tokenize().unwrap();
    let mut parser = Parser::new(tokens);
    parser.parse().unwrap()
}

fn evaluate(input: &str) -> AnalysisReport {
    let mut engine = Engine::new();
    engine.evaluate(parse(input)).unwrap()
}

#[test]
fn trade_then_mark_metrics() {
    // Buy 5000, then an authoritative mark of 7200: the purchase total
    // stays 5000, the sale total 0, the value becomes exactly 7200 and
    // the profit 7200 - 5000 + 0 = 2200.
    let report = evaluate(
        "2024-01-01 TRADE ETF:510300 +5000 CNY @ 4.56\n\
         2024-03-31 MARK ETF:510300 VALUE 7200 CNY",
    );
    let days = report.daily_for(&"ETF:510300".to_string()).unwrap();
    assert_eq!(days.len(), 2);
    assert_eq!(days[0].date, "2024-01-01");
    assert_eq!(days[1].date, "2024-03-31");
    let last = &days[1].snapshots[0];
    assert_eq!(last.total_purchase, Decimal::new(5000, 0));
    assert_eq!(last.total_sale, Decimal::new(0, 0));
    assert_eq!(last.value, SignedDecimal::new(7200, 0));
    assert_eq!(last.profit, SignedDecimal::new(2200, 0));
}

#[test]
fn define_before_portfolio_resolves() {
    // A definition issued before the portfolio statement shows up in the
    // materialized portfolio's asset copy.
    let report = evaluate(
        "DEFINE ETF:510300 ALIAS \"CSI 300 ETF\" TARGET RETURN 0.09 END\n\
         PORTFOLIO \"Core\" ASSETS ETF:510300 END",
    );
    assert_eq!(report.portfolios.len(), 1);
    let member = &report.portfolios[0].assets[0];
    assert_eq!(member.symbol, "ETF:510300");
    assert_eq!(member.alias, Some("CSI 300 ETF".to_string()));
    assert_eq!(member.target_return, Some(Decimal::new(9, 2)));
}

#[test]
fn define_after_portfolio_updates_member() {
    // A definition issued after the portfolio statement must update the
    // portfolio's stored asset copy (the upsert-sync propagation rule).
    let report = evaluate(
        "PORTFOLIO \"Core\" ASSETS ETF:510300 END\n\
         DEFINE ETF:510300 ALIAS \"CSI 300 ETF\" TARGET RETURN 0.09 END",
    );
    assert_eq!(report.portfolios.len(), 1);
    let member = &report.portfolios[0].assets[0];
    assert_eq!(member.symbol, "ETF:510300");
    assert_eq!(member.alias, Some("CSI 300 ETF".to_string()));
    assert_eq!(member.target_return, Some(Decimal::new(9, 2)));
}

#[test]
fn records_replay_in_date_order() {
    // Records arrive out of chronological order; the daily snapshots come
    // out grouped and ordered by ascending date, and the two same-day
    // records keep their original relative order.
    let report = evaluate(
        "2024-02-01 TRADE ETF:510300 +300 CNY\n\
         2024-01-01 TRADE ETF:510300 +100 CNY\n\
         2024-02-01 TRADE ETF:510300 +500 CNY",
    );
    let days = report.daily_for(&"ETF:510300".to_string()).unwrap();
    assert_eq!(days.len(), 2);
    assert_eq!(days[0].date, "2024-01-01");
    assert_eq!(days[1].date, "2024-02-01");
    assert_eq!(days[0].snapshots.len(), 1);
    assert_eq!(days[1].snapshots.len(), 2);
    // The 2024-01-01 record applied first: purchase total 100.
    assert_eq!(days[0].snapshots[0].total_purchase, Decimal::new(100, 0));
    // Same-day records keep authoring order: +300 first, then +500.
    assert_eq!(days[1].snapshots[0].total_purchase, Decimal::new(400, 0));
    assert_eq!(days[1].snapshots[1].total_purchase, Decimal::new(900, 0));
}

#[test]
fn evaluation_is_repeatable() {
    // Evaluating the same program twice, each time with a fresh engine,
    // yields identical report contents.
    let input = "DEFINE ETF:510300 ALIAS \"x\" END\n\
                 PORTFOLIO \"Core\" ASSETS ETF:510300, STOCK:AAPL TARGET RETURN 0.05 END\n\
                 2024-02-01 TRADE ETF:510300 +300 CNY\n\
                 2024-01-01 MARK STOCK:AAPL VALUE 12.5 USD";
    let r1 = evaluate(input);
    let r2 = evaluate(input);
    assert_eq!(r1.assets, r2.assets);
    assert_eq!(r1.portfolios, r2.portfolios);
    assert_eq!(r1.daily_snapshot, r2.daily_snapshot);
}

#[test]
fn pure_trades_accumulate_componentwise() {
    // Purchases sum the positive amounts, sales the negative magnitudes,
    // value the signed sum; profit collapses to zero for pure trades.
    let report = evaluate(
        "2024-01-01 TRADE ETF:510300 +5000 CNY\n\
         2024-01-02 TRADE ETF:510300 -2000 CNY\n\
         2024-01-03 TRADE ETF:510300 +100.5 CNY",
    );
    let days = report.daily_for(&"ETF:510300".to_string()).unwrap();
    let last = &days[2].snapshots[0];
    assert_eq!(last.total_purchase, Decimal::new(51005, 1));
    assert_eq!(last.total_sale, Decimal::new(2000, 0));
    assert_eq!(last.value, SignedDecimal::new(31005, 1));
    assert_eq!(last.profit, SignedDecimal::new(0, 1));
}

#[test]
fn mark_keeps_totals() {
    // A mark replaces value only; both flow totals carry forward.
    let report = evaluate(
        "2024-01-01 TRADE ETF:510300 +5000 CNY\n\
         2024-01-02 TRADE ETF:510300 -1000 CNY\n\
         2024-01-03 MARK ETF:510300 VALUE 9.75 CNY",
    );
    let days = report.daily_for(&"ETF:510300".to_string()).unwrap();
    let last = &days[2].snapshots[0];
    assert_eq!(last.total_purchase, Decimal::new(5000, 0));
    assert_eq!(last.total_sale, Decimal::new(1000, 0));
    assert_eq!(last.value, SignedDecimal::new(975, 2));
}

#[test]
fn value_can_go_negative() {
    let report = evaluate(
        "2024-01-01 TRADE ETF:510300 +100 CNY\n\
         2024-01-02 TRADE ETF:510300 -300 CNY",
    );
    let days = report.daily_for(&"ETF:510300".to_string()).unwrap();
    let last = &days[1].snapshots[0];
    assert_eq!(last.value, SignedDecimal::new(-200, 0));
    assert_eq!(last.profit, SignedDecimal::new(0, 0));
}

#[test]
fn plans_have_no_effect() {
    let report = evaluate(
        "PLAN \"Monthly savings\"\n\
           SCHEDULE MONTHLY 3000 CNY INTO ETF:510300\n\
           START 2024-01-01\n\
         END",
    );
    assert!(report.assets.is_empty());
    assert!(report.portfolios.is_empty());
    assert!(report.daily_snapshot.is_empty());
}

#[test]
fn unknown_portfolio_member_gets_placeholder() {
    let report = evaluate("PORTFOLIO \"Core\" ASSETS ETF:510300 TARGET RETURN 0.07 END");
    let p = &report.portfolios[0];
    assert_eq!(p.name, "Core");
    assert_eq!(p.target_return, Decimal::new(7, 2));
    assert_eq!(p.assets[0].symbol, "ETF:510300");
    assert_eq!(p.assets[0].alias, None);
    assert_eq!(p.assets[0].target_return, None);
}

#[test]
fn portfolio_target_defaults_to_zero() {
    let report = evaluate("PORTFOLIO \"Core\" ASSETS A:B END");
    assert_eq!(report.portfolios[0].target_return, Decimal::new(0, 0));
}

#[test]
fn record_upsert_propagates_into_portfolio() {
    // A record after the portfolio statement re-syncs the stored copy
    // with the registry entry current at that time.
    let report = evaluate(
        "DEFINE ETF:510300 ALIAS \"old name\" END\n\
         PORTFOLIO \"Core\" ASSETS ETF:510300 END\n\
         DEFINE ETF:510300 ALIAS \"new name\" END\n\
         2024-01-01 TRADE ETF:510300 +1 CNY",
    );
    let member = &report.portfolios[0].assets[0];
    assert_eq!(member.alias, Some("new name".to_string()));
}

#[test]
fn overflowing_replay_is_an_engine_error() {
    // A magnitude beyond the signed mantissa range cannot be applied to
    // the running value: evaluation reports an engine error.
    let mut engine = Engine::new();
    let program = parse("2024-01-01 TRADE A:B +200000000000000000000000000000000000000 CNY");
    assert!(engine.evaluate(program).is_err());
}

#[test]
fn report_registry_lists_all_symbols() {
    let report = evaluate(
        "2024-01-01 TRADE ETF:510300 +1 CNY\n\
         2024-01-02 MARK STOCK:AAPL VALUE 5 USD\n\
         DEFINE FUND:X ALIAS \"fund\" END",
    );
    let symbols: Vec<&str> = report.assets.iter().map(|a| a.symbol.as_str()).collect();
    assert_eq!(symbols, vec!["FUND:X", "ETF:510300", "STOCK:AAPL"]);
}
