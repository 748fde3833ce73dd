use symbolar::{Expression, ParseError, UnknownValue};

fn numbers(var: &str) -> Option<u32> {
    var.parse::<u32>().ok()
}

#[test]
fn test_grouping() {
    let expr1 = Expression::new("a") + Expression::new("b") * Expression::new("c");
    assert_eq!("(a + (b * c))", expr1.to_string());

    let expr2 =
        Expression::new("a") * Expression::new("b") + Expression::new("c") * Expression::new("d");
    assert_eq!("((a * b) + (c * d))", expr2.to_string());

    let expr3 = Expression::new("a") + Expression::new("b") + Expression::new("c");
    assert_eq!("((a + b) + c)", expr3.to_string());

    let expr4 = (Expression::new("a") + Expression::new("b")) * Expression::new("c");
    assert_eq!("((a + b) * c)", expr4.to_string());
}

#[test]
fn test_commutativity() {
    let expr1 = Expression::new("a") + Expression::new("b");
    let expr2 = Expression::new("b") + Expression::new("a");
    assert_eq!(expr1, expr1);
    assert_eq!(expr1, expr2);
}

#[test]
fn test_evaluation() {
    let expr = Expression::new("1") + Expression::new("2") * Expression::new("3");
    let result = expr
        .evaluate(|var: &str| var.parse::<u32>().ok())
        .unwrap();
    assert_eq!(result, 1 + 2 * 3);
}

#[test]
fn test_evaluation_invalid() {
    let expr = Expression::new("1") + Expression::new("a") * Expression::new("3");
    assert_eq!(
        expr.evaluate(|var: &str| var.parse::<u32>().ok()),
        Err(UnknownValue::from("a"))
    );
}

#[test]
fn test_parsing() {
    assert_eq!(
        "abc".parse::<Expression>().map(|expr| expr.to_string()),
        Ok("abc".to_string())
    );

    assert_eq!(
        "1 + 2".parse::<Expression>().map(|expr| expr.to_string()),
        Ok("(1 + 2)".to_string())
    );

    assert_eq!(
        "1 * 2".parse::<Expression>().map(|expr| expr.to_string()),
        Ok("(1 * 2)".to_string())
    );

    assert_eq!(
        "1 + 2 * 3".parse::<Expression>().map(|expr| expr.to_string()),
        Ok("(1 + (2 * 3))".to_string())
    );

    assert_eq!(
        "(1 + 2) * 3".parse::<Expression>().map(|expr| expr.to_string()),
        Ok("((1 + 2) * 3)".to_string())
    );

    assert_eq!(
        "(( abc + def ) *    ghi) )"
            .parse::<Expression>()
            .map(|expr| expr.to_string()),
        Ok("((abc + def) * ghi)".to_string())
    );
}

#[test]
fn test_parsing_invalid() {
    assert_eq!("1 +".parse::<Expression>(), Err(ParseError::InvalidExpression));
    assert_eq!(
        "1 * (2 + 3".parse::<Expression>(),
        Err(ParseError::MismatchedParentheses)
    );
    assert_eq!(
        "1 + * 2".parse::<Expression>(),
        Err(ParseError::UnexpectedToken("*".to_string()))
    );
}

#[test]
fn evaluation_of_a_product_of_sums() {
    let expr: Expression = "(1 + 2) * (3 + 4)".parse().unwrap();
    assert_eq!(expr.evaluate(numbers), Ok(21));
}

#[test]
fn evaluation_wraps_around() {
    let expr: Expression = "4294967295 + 2".parse().unwrap();
    assert_eq!(expr.evaluate(numbers), Ok(1));
}

#[test]
fn evaluation_reports_the_first_unknown_name() {
    let expr: Expression = "x * (1 + y)".parse().unwrap();
    assert_eq!(expr.evaluate(numbers), Err(UnknownValue::from("x")));
    let expr: Expression = "1 * (y + x)".parse().unwrap();
    assert_eq!(expr.evaluate(numbers), Err(UnknownValue::from("y")));
}

#[test]
fn rendering_then_parsing_gives_the_expression_back() {
    let expr = (Expression::new("alpha") + Expression::new("beta")) * Expression::new("gamma")
        + Expression::new("delta");
    let text = expr.to_string();
    let parsed: Expression = text.parse().unwrap();
    assert_eq!(parsed.to_string(), text);
    assert_eq!(parsed, expr);
}

#[test]
fn commutativity_is_checked_at_every_level() {
    let a: Expression = "(a * b) + (c * d)".parse().unwrap();
    let b: Expression = "(d * c) + (b * a)".parse().unwrap();
    let c: Expression = "(a * c) + (b * d)".parse().unwrap();
    assert_eq!(a, b);
    assert_ne!(a, c);
    assert!(Expression::new("a").is_value());
    assert!(!(Expression::new("a") + Expression::new("b")).is_value());
}

#[test]
fn parse_errors_are_distinguished() {
    assert_eq!("".parse::<Expression>(), Err(ParseError::InvalidExpression));
    assert_eq!(
        "a + )".parse::<Expression>(),
        Err(ParseError::UnexpectedToken(")".to_string()))
    );
    assert_eq!("(a".parse::<Expression>(), Err(ParseError::MismatchedParentheses));
    assert_eq!(ParseError::InvalidExpression.to_string().is_empty(), false);
}

#[test]
fn a_chain_of_sums_is_one_sum_and_parentheses_group() {
    let flat: Expression = "a + b + c".parse().expect("valid expression");
    assert_eq!(flat.to_string(), "(a + b + c)");
    let grouped: Expression = "(a + b) + c".parse().expect("valid expression");
    assert_eq!(grouped.to_string(), "((a + b) + c)");
    assert!(flat != grouped);
}

#[test]
fn whitespace_next_to_symbols_does_not_change_the_parse() {
    let a: Expression = "((abc+def)*ghi)".parse().expect("valid expression");
    let b: Expression = "(( abc + def ) *    ghi)  ".parse().expect("valid expression");
    assert_eq!(a.to_string(), b.to_string());
}
