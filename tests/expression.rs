use rum::context::Context;
use rum::error::Error;
use rum::expression::{evaluate, evaluate_default, Expression};
use rum::lexer::tokenize;
use rum::op::Op;
use rum::term::Term;
use rum::token::{Token, TokenStream, TokenWithContext};
use rum::value::{Decimal, Value};

fn parse_block(source: &str) -> Result<(Expression, TokenStream), Error> {
    let tokens = tokenize(source)?;
    let mut iter = TokenStream::new(tokens[1..].to_vec());
    let expr = Expression::parse(&mut iter)?;
    Ok((expr, iter))
}

#[test]
fn test_if_const() -> Result<(), Error> {
    let t1 = tokenize(r#"<% 1 == 2 %>"#)?;
    let mut iter = TokenStream::new(t1[1..].to_vec());
    let expr = Expression::parse(&mut iter)?;
    let value = expr.evaluate(&Context::default())?;
    assert_eq!(value, Value::Boolean(false));

    let t2 = tokenize("<% 1 && 1 %>")?;
    let mut iter = TokenStream::new(t2[1..].to_vec());
    let expr = Expression::parse(&mut iter)?;
    let value = expr.evaluate(&Context::default())?;
    assert_eq!(value, Value::Boolean(true));

    Ok(())
}

#[test]
fn test_list() -> Result<(), Error> {
    let t1 = tokenize(r#"<% [1, 2, "hello", 3.13, variable] %>"#)?;
    let mut iter = TokenStream::new(t1[1..].to_vec());
    let _ast = Expression::parse(&mut iter)?;

    assert_eq!(iter.next().unwrap().token(), &Token::BlockEnd);
    assert!(iter.next().is_none());

    Ok(())
}

#[test]
fn test_op_precendence() -> Result<(), Error> {
    let t1 = tokenize(r#"<% 2 * 2 + 3 * 5 %>"#)?;
    let mut iter = TokenStream::new(t1[1..].to_vec());
    let ast = Expression::parse(&mut iter)?;
    let context = Context::default();
    let result = ast.evaluate(&context)?;
    assert_eq!(result, Value::Integer(19));
    Ok(())
}

#[test]
fn test_unary() -> Result<(), Error> {
    assert_eq!(
        evaluate_default("<% !false == true && true %>")?,
        Value::Boolean(true)
    );
    Ok(())
}

#[test]
fn test_parenthesis() -> Result<(), Error> {
    let t1 = "<% ((1 + 2) + (-1 - -1)) * 5 + (25 - 5) %>";
    assert_eq!(evaluate_default(t1)?, Value::Integer(35));

    Ok(())
}

#[test]
fn list_values_keep_order_and_resolve_variables() {
    let mut context = Context::new();
    context.set("variable", Value::String("bound".to_string()));
    let value = evaluate(r#"<% [1, 2, "hello", 3.13, variable] %>"#, &context).unwrap();
    assert_eq!(
        value,
        Value::List(vec![
            Value::Integer(1),
            Value::Integer(2),
            Value::String("hello".to_string()),
            Value::Float(Decimal { digits: 313, scale: 2 }),
            Value::String("bound".to_string()),
        ])
    );
}

#[test]
fn list_with_unbound_variable_fails() {
    let result = evaluate_default("<% [1, missing] %>");
    assert_eq!(result, Err(Error::UndefinedVariable("missing".to_string())));
}

#[test]
fn unbound_variable_is_an_error() {
    let result = evaluate_default("<% logged_in == true %>");
    assert_eq!(result, Err(Error::UndefinedVariable("logged_in".to_string())));
    let term = Term::variable("x".to_string());
    assert_eq!(
        term.evaluate(&Context::new()),
        Err(Error::UndefinedVariable("x".to_string()))
    );
}

#[test]
fn evaluation_repeats_identically() {
    let (ast, _) = parse_block("<% (4 - 10) * 3 % 5 %>").unwrap();
    let context = Context::new();
    let first = ast.evaluate(&context);
    let second = ast.evaluate(&context);
    assert_eq!(first, second);
    assert_eq!(first, Ok(Value::Integer(-3)));
}

#[test]
fn equals_and_not_equals_complement() {
    let pairs = vec![
        (Value::Integer(1), Value::Integer(1)),
        (Value::Integer(1), Value::Integer(2)),
        (Value::String("a".to_string()), Value::String("a".to_string())),
        (Value::Boolean(true), Value::Boolean(false)),
        (
            Value::List(vec![Value::Integer(1)]),
            Value::List(vec![Value::Integer(1)]),
        ),
    ];
    for (l, r) in pairs {
        let eq = Op::Equals.evaluate_binary(&l, &r).unwrap();
        let ne = Op::NotEquals.evaluate_binary(&l, &r).unwrap();
        assert_ne!(eq, ne);
    }
    assert_eq!(
        Op::Equals.evaluate_binary(&Value::Integer(1), &Value::Boolean(true)),
        Ok(Value::Boolean(false))
    );
}

#[test]
fn unbalanced_parenthesis_fails() {
    let result = parse_block("<% (1 + 2 %>");
    assert!(matches!(result, Err(Error::ExpressionSyntax(_))));
    let result = parse_block("<% (1 + 2");
    assert!(matches!(result, Err(Error::Eof)));
}

#[test]
fn trailing_operator_fails() {
    let result = parse_block("<% 1 + %>");
    assert!(matches!(result, Err(Error::ExpressionSyntax(_))));
    let result = parse_block("<% 1 +");
    assert!(matches!(result, Err(Error::Eof)));
}

#[test]
fn unterminated_list_fails() {
    let result = parse_block("<% [1, 2 %>");
    assert!(matches!(result, Err(Error::ExpressionSyntax(_))));
    let result = parse_block("<% [1, 2");
    assert!(matches!(result, Err(Error::Eof)));
}

#[test]
fn trailing_garbage_fails() {
    let result = parse_block("<% 1 2 %>");
    match result {
        Err(Error::ExpressionSyntax(t)) => assert_eq!(t.token, Token::Value(Value::Integer(2))),
        _ => panic!("expected a syntax error"),
    }
}

#[test]
fn failed_parse_leaves_stream_in_place() {
    let tokens = tokenize("<% 1 + %>").unwrap();
    let mut iter = TokenStream::new(tokens[1..].to_vec());
    assert!(Expression::parse(&mut iter).is_err());
    assert_eq!(iter.next().unwrap().token(), &Token::Value(Value::Integer(1)));
}

#[test]
fn precedence_groups_left_to_right() {
    assert_eq!(evaluate_default("<% 10 - 4 - 3 %>"), Ok(Value::Integer(3)));
    assert_eq!(evaluate_default("<% 1 + 2 * 3 - 4 / 2 %>"), Ok(Value::Integer(5)));
    assert_eq!(evaluate_default("<% 1 < 2 == true || false && false %>"), Ok(Value::Boolean(true)));
}

#[test]
fn arithmetic_errors() {
    assert_eq!(evaluate_default("<% 1 / 0 %>"), Err(Error::DivisionByZero));
    assert_eq!(evaluate_default("<% 1 % 0 %>"), Err(Error::DivisionByZero));
    assert_eq!(evaluate_default("<% 9223372036854775807 + 1 %>"), Err(Error::Overflow));
    assert_eq!(evaluate_default("<% 1 + true %>"), Err(Error::TypeError));
    assert_eq!(evaluate_default("<% [1] < [2] %>"), Err(Error::TypeError));
    assert_eq!(evaluate_default("<% -true %>"), Err(Error::TypeError));
    assert_eq!(evaluate_default("<% -7 / 2 %>"), Ok(Value::Integer(-3)));
    assert_eq!(evaluate_default("<% -7 % 2 %>"), Ok(Value::Integer(-1)));
}

#[test]
fn unsupported_operations() {
    assert_eq!(
        Op::Not.evaluate_binary(&Value::Integer(1), &Value::Integer(1)),
        Err(Error::UnsupportedOperation)
    );
    assert_eq!(Op::Mult.evaluate_unary(&Value::Integer(1)), Err(Error::UnsupportedOperation));
    assert_eq!(Op::Add.evaluate_unary(&Value::Integer(4)), Ok(Value::Integer(4)));
}

#[test]
fn truthiness_rules() {
    assert!(!Value::Integer(0).truthy());
    assert!(Value::Integer(-2).truthy());
    assert!(!Value::String(String::new()).truthy());
    assert!(Value::String("x".to_string()).truthy());
    assert!(!Value::List(vec![]).truthy());
    assert!(!Value::Float(Decimal { digits: 0, scale: 1 }).truthy());
    assert_eq!(evaluate_default("<% \"\" || 0 %>"), Ok(Value::Boolean(false)));
    assert_eq!(evaluate_default("<% !\"\" %>"), Ok(Value::Boolean(true)));
}

#[test]
fn ordering_comparisons() {
    assert_eq!(evaluate_default("<% \"abc\" < \"abd\" %>"), Ok(Value::Boolean(true)));
    assert_eq!(evaluate_default("<% \"ab\" >= \"abc\" %>"), Ok(Value::Boolean(false)));
    assert_eq!(evaluate_default("<% false < true %>"), Ok(Value::Boolean(true)));
    assert_eq!(evaluate_default("<% 3 <= 3 %>"), Ok(Value::Boolean(true)));
    assert_eq!(evaluate_default("<% 3 > 3 %>"), Ok(Value::Boolean(false)));
    assert_eq!(evaluate_default("<% 1.5 < 2 %>"), Ok(Value::Boolean(true)));
    assert_eq!(evaluate_default("<% 2.50 == 2.5 %>"), Ok(Value::Boolean(true)));
    assert_eq!(evaluate_default("<% 3 == 3.0 %>"), Ok(Value::Boolean(true)));
    assert_eq!(evaluate_default("<% 3 != 3.1 %>"), Ok(Value::Boolean(true)));
    assert_eq!(evaluate_default("<% [1.0, \"a\"] == [1, \"a\"] %>"), Ok(Value::Boolean(true)));
    assert_eq!(evaluate_default("<% [1, 2] == [1] %>"), Ok(Value::Boolean(false)));
    assert_eq!(evaluate_default("<% 2.50 >= 2.5 && 2.50 <= 2.5 %>"), Ok(Value::Boolean(true)));
    assert_eq!(evaluate_default("<% 0.00000000000000000001 > 9223372036854775807 %>"), Ok(Value::Boolean(false)));
    assert_eq!(evaluate_default("<% 92233720368547758.07 > -1 %>"), Ok(Value::Boolean(true)));
}

#[test]
fn context_later_binding_wins() {
    let mut context = Context::new();
    context.set("a", Value::Integer(1));
    context.set("a", Value::Integer(2));
    assert_eq!(context.get("a"), Some(Value::Integer(2)));
    assert_eq!(context.get("b"), None);
    assert_eq!(evaluate("<% a * 10 %>", &context), Ok(Value::Integer(20)));
}

#[test]
fn lexer_reports_positions_and_errors() {
    let tokens = tokenize("<% x != 10 %>").unwrap();
    let kinds: Vec<Token> = tokens.iter().map(|t| t.token.clone()).collect();
    assert_eq!(
        kinds,
        vec![
            Token::BlockStart,
            Token::Variable("x".to_string()),
            Token::NotEquals,
            Token::Value(Value::Integer(10)),
            Token::BlockEnd,
        ]
    );
    let positions: Vec<usize> = tokens.iter().map(|t| t.position).collect();
    assert_eq!(positions, vec![0, 3, 5, 8, 11]);
    assert_eq!(tokenize("<% \"open %>"), Err(Error::Lexical(3)));
    assert_eq!(tokenize("<% # %>"), Err(Error::Lexical(3)));
    assert_eq!(
        tokens[1],
        TokenWithContext::new(Token::Variable("x".to_string()), 3)
    );
}

#[test]
fn empty_source_is_eof() {
    assert_eq!(evaluate_default(""), Err(Error::Eof));
    assert_eq!(evaluate_default("<%"), Err(Error::Eof));
    assert_eq!(evaluate_default("<% %>"), Err(Error::ExpressionSyntax(TokenWithContext::new(Token::BlockEnd, 3))));
}

#[test]
fn operator_tokens_map_to_ops() {
    assert_eq!(Op::from_token(&Token::Plus), Some(Op::Add));
    assert_eq!(Op::from_token(&Token::Comma), None);
    assert!(!Op::Not.binary());
    assert!(Op::Mod.binary());
    assert!(Op::Mult.precedence() > Op::Add.precedence());
    assert!(Op::And.precedence() > Op::Or.precedence());
}

#[test]
fn constant_and_variable_builders() {
    assert_eq!(
        Expression::constant(Value::Integer(5)),
        Expression::Term { term: Term::Constant(Value::Integer(5)) }
    );
    assert_eq!(
        Expression::variable("v".to_string()).evaluate(&Context::new()),
        Err(Error::UndefinedVariable("v".to_string()))
    );
}

#[test]
fn decimal_arithmetic_promotes_integers() {
    let d = |digits: i64, scale: u32| Ok(Value::Float(Decimal { digits, scale }));
    assert_eq!(evaluate_default("<% 1.5 + 2 %>"), d(35, 1));
    assert_eq!(evaluate_default("<% 2 - 0.25 %>"), d(175, 2));
    assert_eq!(evaluate_default("<% 1.5 * 1.5 %>"), d(225, 2));
    assert_eq!(evaluate_default("<% 7.5 / 2.5 %>"), d(30, 1));
    assert_eq!(evaluate_default("<% 1.0 / 3 %>"), d(3, 1));
    assert_eq!(evaluate_default("<% 5.5 % 2 %>"), d(15, 1));
    assert_eq!(evaluate_default("<% -1.5 %>"), d(-15, 1));
    assert_eq!(evaluate_default("<% 1.5 / 0 %>"), Err(Error::DivisionByZero));
    assert_eq!(evaluate_default("<% 1.5 % 0.0 %>"), Err(Error::DivisionByZero));
    assert_eq!(
        evaluate_default("<% 0.00000000000000000001 + 1 %>"),
        Err(Error::Overflow)
    );
    assert_eq!(evaluate_default("<% 1.5 + \"a\" %>"), Err(Error::TypeError));
}

#[test]
fn evaluate_tokens_skips_block_start() {
    let tokens = tokenize("<% 6 / 4 %>").unwrap();
    assert_eq!(
        rum::expression::evaluate_tokens(tokens, &Context::new()),
        Ok(Value::Integer(1))
    );
    assert_eq!(
        rum::expression::evaluate_tokens(vec![], &Context::new()),
        Err(Error::Eof)
    );
}

#[test]
fn syntax_errors_name_the_offending_token() {
    let block_end = |p: usize| Err(Error::ExpressionSyntax(TokenWithContext::new(Token::BlockEnd, p)));
    assert_eq!(parse_block("<% (1 == 2 %>").map(|(e, _)| e), block_end(11));
    assert_eq!(parse_block("<% [1, 2 %>").map(|(e, _)| e), block_end(9));
    assert_eq!(parse_block("<% 1 == %>").map(|(e, _)| e), block_end(8));
    assert_eq!(
        parse_block("<% 1 == 2 3 %>").map(|(e, _)| e),
        Err(Error::ExpressionSyntax(TokenWithContext::new(Token::Value(Value::Integer(3)), 10)))
    );
    assert_eq!(
        parse_block("<% [1, == ] %>").map(|(e, _)| e),
        Err(Error::ExpressionSyntax(TokenWithContext::new(Token::Equals, 7)))
    );
    assert_eq!(parse_block("<% - - %>").map(|(e, _)| e), block_end(7));
    assert_eq!(parse_block("<% 1 ==").map(|(e, _)| e), Err(Error::Eof));
}

#[test]
fn groups_parse_their_contents_on_their_own() {
    assert_eq!(parse_block("<% (1 + ) %>").map(|(e, _)| e), Err(Error::Eof));
    assert_eq!(parse_block("<% () %>").map(|(e, _)| e), Err(Error::Eof));
    assert_eq!(parse_block("<% (-) %>").map(|(e, _)| e), Err(Error::Eof));
    assert_eq!(
        parse_block("<% ([1, 2) %>").map(|(e, _)| e),
        Err(Error::Eof)
    );
    assert_eq!(
        parse_block("<% (1 2) %>").map(|(e, _)| e),
        Err(Error::ExpressionSyntax(TokenWithContext::new(Token::Value(Value::Integer(2)), 6)))
    );
    assert_eq!(evaluate_default("<% ((2)) * (3 + (4)) %>"), Ok(Value::Integer(14)));
    let (_, mut rest) = parse_block("<% (1 + 2) %>").unwrap();
    assert_eq!(rest.next().unwrap().token(), &Token::BlockEnd);
}

#[test]
fn unbound_variable_inside_tree_fails() {
    assert_eq!(
        evaluate_default("<% 1 + (2 * -missing) %>"),
        Err(Error::UndefinedVariable("missing".to_string()))
    );
    assert_eq!(evaluate_default("<% (1 + true) + missing %>"), Err(Error::TypeError));
}
