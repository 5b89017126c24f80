use invest_dsl::decimal::{Decimal, SignedDecimal};
use invest_dsl::dsl::ast::{
    Action, Details, Frequency, PlanRule, Program, Statement,
};
use invest_dsl::dsl::lexer::Lexer;
use invest_dsl::dsl::parser::{ParseError, Parser};

fn parse_input(input: &str) -> Result<Program, ParseError> {
    let mut lexer = Lexer::new(input);
    let tokens = lexer.tokenize().unwrap();
    let mut parser = Parser::new(tokens);
    parser.parse()
}

#[test]
fn test_parse_simple_trade() {
    let input = r#"2024-01-01 TRADE ETF:510300 +5000 CNY @ 4.56"#;
    let program = parse_input(input).unwrap();

    assert_eq!(program.statements.len(), 1);

    if let Statement::Record(record) = &program.statements[0] {
        assert_eq!(record.date, "2024-01-01");
        assert_eq!(record.action, Action::Trade);

        if let Details::Trade(details) = &record.details {
            assert_eq!(details.symbol.namespace, "ETF");
            assert_eq!(details.symbol.name, "510300");
            assert_eq!(
                details.signed_amount.to_signed_decimal(),
                Some(SignedDecimal::new(5000, 0))
            );
            assert_eq!(details.unit, "CNY");
            assert_eq!(details.price, Some(Decimal::new(456, 2)));
        } else {
            panic!("Expected trade details");
        }
    } else {
        panic!("Expected record statement");
    }
}

#[test]
fn test_parse_mark_statement() {
    let input = r#"2024-03-31 MARK ETF:510300 VALUE 7200 CNY"#;
    let program = parse_input(input).unwrap();

    assert_eq!(program.statements.len(), 1);

    if let Statement::Record(record) = &program.statements[0] {
        assert_eq!(record.date, "2024-03-31");
        assert_eq!(record.action, Action::Mark);

        if let Details::Mark(details) = &record.details {
            assert_eq!(details.symbol.namespace, "ETF");
            assert_eq!(details.symbol.name, "510300");
            assert_eq!(details.value, Decimal::new(7200, 0));
            assert_eq!(details.unit, "CNY");
        } else {
            panic!("Expected mark details");
        }
    } else {
        panic!("Expected record statement");
    }
}

#[test]
fn test_parse_plan() {
    let input = r#"
        PLAN "Investment Plan 2024"
            SCHEDULE MONTHLY 3000 CNY INTO ETF:510300
            SCHEDULE MONTHLY 1000 CNY INTO ETF:159915
            START 2024-01-01
            END_DATE 2024-12-31
        END
        "#;

    let program = parse_input(input).unwrap();
    assert_eq!(program.statements.len(), 1);

    if let Statement::Plan(plan) = &program.statements[0] {
        assert_eq!(plan.name, "Investment Plan 2024");
        assert_eq!(plan.rules.len(), 4);

        if let PlanRule::Schedule(schedule) = &plan.rules[0] {
            assert_eq!(schedule.frequency, Frequency::Monthly);
            assert_eq!(schedule.amount, Decimal::new(3000, 0));
            assert_eq!(schedule.unit, "CNY");
            assert_eq!(schedule.target.namespace, "ETF");
            assert_eq!(schedule.target.name, "510300");
        } else {
            panic!("Expected schedule rule");
        }
    } else {
        panic!("Expected plan statement");
    }
}

#[test]
fn test_parse_define() {
    let input = r#"
        DEFINE ETF:510300
            ALIAS "CSI 300 ETF"
            TARGET RETURN 0.09
        END
        "#;

    let program = parse_input(input).unwrap();
    assert_eq!(program.statements.len(), 1);

    if let Statement::Define(define) = &program.statements[0] {
        assert_eq!(define.symbol.namespace, "ETF");
        assert_eq!(define.symbol.name, "510300");
        assert_eq!(define.alias, Some("CSI 300 ETF".to_string()));
        assert_eq!(define.target_return, Some(Decimal::new(9, 2)));
    } else {
        panic!("Expected define statement");
    }
}

#[test]
fn test_parse_portfolio() {
    let input = r#"
        PORTFOLIO "Long Term ETF Investment"
            ASSETS ETF:510300, ETF:159915
            TARGET RETURN 0.09
        END
        "#;

    let program = parse_input(input).unwrap();
    assert_eq!(program.statements.len(), 1);

    if let Statement::Portfolio(portfolio) = &program.statements[0] {
        assert_eq!(portfolio.name, "Long Term ETF Investment");
        assert_eq!(portfolio.assets.len(), 2);
        assert_eq!(portfolio.assets[0].namespace, "ETF");
        assert_eq!(portfolio.assets[0].name, "510300");
        assert_eq!(portfolio.assets[1].namespace, "ETF");
        assert_eq!(portfolio.assets[1].name, "159915");
        assert_eq!(portfolio.target_return, Some(Decimal::new(9, 2)));
    } else {
        panic!("Expected portfolio statement");
    }
}

#[test]
fn test_parse_with_note() {
    let input = r#"2024-01-01 TRADE ETF:510300 +5000 CNY @ 4.56
        NOTE "First investment of the year""#;

    let program = parse_input(input).unwrap();
    assert_eq!(program.statements.len(), 1);

    if let Statement::Record(record) = &program.statements[0] {
        assert_eq!(
            record.note,
            Some("First investment of the year".to_string())
        );
    } else {
        panic!("Expected record statement");
    }
}

#[test]
fn test_parse_negative_amount() {
    let input = r#"2024-03-01 TRADE ETF:510300 -2000 CNY @ 4.65"#;
    let program = parse_input(input).unwrap();

    if let Statement::Record(record) = &program.statements[0] {
        if let Details::Trade(details) = &record.details {
            assert_eq!(
                details.signed_amount.to_signed_decimal(),
                Some(SignedDecimal::new(-2000, 0))
            );
        } else {
            panic!("Expected trade details");
        }
    } else {
        panic!("Expected record statement");
    }
}

#[test]
fn parse_halts_on_first_error() {
    // The first unmet expectation aborts the whole parse: nothing after
    // the offending token is considered.
    let input = "2024-01-01 TRADE ETF:510300 +5000 CNY\nBOGUS\n2024-01-02 TRADE ETF:510300 +1 CNY";
    let err = parse_input(input).unwrap_err();
    // Tokens: Date TRADE Symbol + Number Identifier | Identifier(BOGUS) ...
    // The parser stops at the stray identifier, token index 6.
    assert_eq!(err.position, 6);
}

#[test]
fn parse_error_on_unexpected_end() {
    let input = "2024-01-01";
    let err = parse_input(input).unwrap_err();
    assert!(err.message.contains("Expected TRADE or MARK"));
}

#[test]
fn parse_error_on_missing_end() {
    let input = r#"DEFINE ETF:510300 ALIAS "x""#;
    let err = parse_input(input).unwrap_err();
    assert!(err.message.contains("Expected END"));
}

#[test]
fn parse_skips_comments_between_statements() {
    let input = "# leading comment\n2024-01-01 TRADE ETF:510300 +1 CNY\n# trailing comment";
    let program = parse_input(input).unwrap();
    assert_eq!(program.statements.len(), 1);
}

#[test]
fn parse_sign_defaults_to_positive() {
    let input = "2024-01-01 TRADE ETF:510300 5000 CNY";
    let program = parse_input(input).unwrap();
    if let Statement::Record(record) = &program.statements[0] {
        if let Details::Trade(details) = &record.details {
            assert_eq!(
                details.signed_amount.to_signed_decimal(),
                Some(SignedDecimal::new(5000, 0))
            );
            assert_eq!(details.price, None);
        } else {
            panic!("Expected trade details");
        }
    } else {
        panic!("Expected record statement");
    }
}
