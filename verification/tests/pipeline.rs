use calculator::CalcError;
use calculator::EvalStep;
use calculator::LexError;
use calculator::LexItem;
use calculator::Message;
use calculator::ParseError;
use calculator::ParseNode;
use calculator::RateTable;
use calculator::matching;
use calculator::parse;

/// A deterministic rate table: one currency whose rate clearly exceeds 1.01.
fn table() -> RateTable {
    RateTable { entries: vec![("JPY".to_string(), "130.25".to_string())] }
}

/// Runs an evaluation schedule on an f64 stack, exactly as the schedule's
/// documentation prescribes: the first value popped is the left operand.
fn run_schedule(steps: &[EvalStep]) -> f64 {
    let mut stack: Vec<f64> = Vec::new();
    for step in steps {
        match step {
            EvalStep::Push(t) => stack.push(t.parse::<f64>().unwrap()),
            EvalStep::Add => {
                let x = stack.pop().unwrap();
                let y = stack.pop().unwrap();
                stack.push(y + x);
            }
            EvalStep::Multiply => {
                let x = stack.pop().unwrap();
                let y = stack.pop().unwrap();
                stack.push(y * x);
            }
            EvalStep::Divide => {
                let x = stack.pop().unwrap();
                let y = stack.pop().unwrap();
                stack.push(x / y);
            }
            EvalStep::Power => {
                let x = stack.pop().unwrap();
                let y = stack.pop().unwrap();
                stack.push(x.powf(y));
            }
        }
    }
    assert_eq!(stack.len(), 1);
    stack.pop().unwrap()
}

fn eval(expr: &str) -> f64 {
    run_schedule(&parse(expr, &table()).unwrap().calculate())
}

#[test]
fn test_calulate() {
    let res = eval("1 + 1");
    println!("{}", res);
    let res = eval("1+1");
    println!("{}", res);
    let res = eval("1 + 1 * 3"); // 4
    println!("{}", res);
    let _res = eval("(1 + 1) * 3"); // 6

    assert_eq!(eval("10/5"), 2.0);
    assert_eq!(eval("1 + 1 * 3"), 4.0);
    assert_eq!(eval("(1 + 1) * 3"), 6.0);
    assert_eq!(eval("2^10"), 1024.0);
    assert_eq!(eval("10*1.5"), 15.0);

    let conversion = eval("100*JPY");
    assert_eq!(conversion > 101.0, true);
}

#[test]
fn whitespace_insensitive() {
    let spaced = parse("1 + 1", &table()).unwrap();
    let dense = parse("1+1", &table()).unwrap();
    assert_eq!(spaced, dense);
    assert_eq!(run_schedule(&spaced.calculate()), 2.0);
    assert_eq!(run_schedule(&dense.calculate()), 2.0);
}

#[test]
fn precedence() {
    assert_eq!(eval("1 + 1 * 3"), 4.0);
    assert_eq!(eval("(1 + 1) * 3"), 6.0);
    assert_eq!(eval("1 + 6 / 2"), 4.0);
}

#[test]
fn power_is_right_associative() {
    assert_eq!(eval("2^10"), 1024.0);
    assert_eq!(eval("2^3^2"), 512.0); // 2^(3^2), not (2^3)^2 = 64
}

#[test]
fn decimal_literals() {
    assert_eq!(eval("10*1.5"), 15.0);
    assert_eq!(eval("0.5+0.25"), 0.75);
}

#[test]
fn two_term_division_is_exact() {
    assert_eq!(eval("10/5"), 2.0);
}

#[test]
fn division_chain_keeps_right_nesting() {
    // A preserved trait of this calculator: a/b/c reduces as a/(b/c).
    assert_eq!(eval("8/4/2"), 4.0);
}

#[test]
fn division_schedule_order() {
    // The schedule itself fixes the order: right subtree first, then the
    // left operand, then the operation.
    let steps = parse("10/5", &table()).unwrap().calculate();
    assert_eq!(
        steps,
        vec![
            EvalStep::Push("5".to_string()),
            EvalStep::Push("10".to_string()),
            EvalStep::Divide,
        ]
    );
}

#[test]
fn currency_substitution() {
    let conversion = eval("100*JPY");
    assert!(conversion > 101.0);
    assert_eq!(conversion, 13025.0);
}

#[test]
fn unknown_currency_fails() {
    let r = parse("100*XXX", &table());
    assert_eq!(
        r.unwrap_err(),
        CalcError::Lex(LexError::UnknownCurrency("XXX".to_string()))
    );
}

#[test]
fn currency_alone_is_its_rate() {
    assert_eq!(eval("JPY"), 130.25);
}

#[test]
fn first_table_entry_wins() {
    let t = RateTable {
        entries: vec![
            ("JPY".to_string(), "130.25".to_string()),
            ("JPY".to_string(), "999".to_string()),
        ],
    };
    assert_eq!(t.lookup(&"JPY".to_string()), Some("130.25".to_string()));
}

#[test]
fn spaces_everywhere() {
    assert_eq!(eval(" 2 * ( 3 + 4 ) "), 14.0);
}

#[test]
fn rate_lookup() {
    let t = table();
    assert_eq!(t.lookup(&"JPY".to_string()), Some("130.25".to_string()));
    assert_eq!(t.lookup(&"USD".to_string()), None);
}

#[test]
fn unmatched_opening_bracket_fails() {
    let r = parse("(1+1", &table());
    assert_eq!(
        r.unwrap_err(),
        CalcError::Parse(ParseError::UnexpectedEndOfInput)
    );
}

#[test]
fn mismatched_bracket_styles_fail() {
    let r = parse("(1+1]", &table());
    assert_eq!(
        r.unwrap_err(),
        CalcError::Parse(ParseError::BracketMismatch(')', ']', 4))
    );
}

#[test]
fn bracket_styles_nest() {
    assert_eq!(eval("{1+[2*3]}"), 7.0);
}

#[test]
fn empty_input_fails() {
    let r = parse("", &table());
    assert_eq!(
        r.unwrap_err(),
        CalcError::Parse(ParseError::UnexpectedEndOfInput)
    );
}

#[test]
fn operator_where_term_expected_fails() {
    let r = parse("1+*2", &table());
    assert_eq!(r.unwrap_err(), CalcError::Parse(ParseError::UnexpectedToken));
}

#[test]
fn trailing_input_fails() {
    let r = parse("1 1", &table());
    assert_eq!(
        r.unwrap_err(),
        CalcError::Parse(ParseError::TrailingInput(
            LexItem::Num("1".to_string()),
            1
        ))
    );
}

#[test]
fn malformed_literal_fails() {
    let r = parse("1.2.3", &table());
    assert_eq!(
        r.unwrap_err(),
        CalcError::Lex(LexError::UnexpectedCharacter('.'))
    );
}

#[test]
fn stray_character_fails() {
    let r = parse("1&1", &table());
    assert_eq!(
        r.unwrap_err(),
        CalcError::Lex(LexError::UnexpectedCharacter('&'))
    );
}

#[test]
fn parse_is_idempotent() {
    let first = parse("2^(1+1)*3.5", &table()).unwrap();
    let second = parse("2^(1+1)*3.5", &table()).unwrap();
    assert_eq!(first, second);
    assert_eq!(first.calculate(), second.calculate());
    assert_eq!(
        run_schedule(&first.calculate()),
        run_schedule(&second.calculate())
    );
}

#[test]
fn matching_pairs_brackets() {
    assert_eq!(matching('('), ')');
    assert_eq!(matching(')'), '(');
    assert_eq!(matching('['), ']');
    assert_eq!(matching(']'), '[');
    assert_eq!(matching('{'), '}');
    assert_eq!(matching('}'), '{');
}

#[test]
fn fresh_node_is_empty_group() {
    let n = ParseNode::new();
    assert_eq!(n.children.len(), 0);
    assert!(matches!(n.entry, calculator::GrammarItem::Paren));
}

#[test]
fn message_carries_input() {
    let m = Message::InputChanged("1+1".to_string());
    match m {
        Message::InputChanged(text) => assert_eq!(text, "1+1"),
        Message::CreateTask | Message::EventOccurred => panic!("wrong event"),
    }
}
