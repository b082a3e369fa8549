use jnk::context::MathContext;
use jnk::error::Error;
use jnk::Integer;

#[test]
fn arithmetic_precedence() {
    let mut ctx = MathContext::new();
    assert_eq!(ctx.eval("2 + 3 * 4").unwrap().value, Integer::from_u64(14));
}

#[test]
fn parenthesized_grouping() {
    let mut ctx = MathContext::new();
    assert_eq!(ctx.eval("(2 + 3) * 4").unwrap().value, Integer::from_u64(20));
}

#[test]
fn exponent_power() {
    let mut ctx = MathContext::new();
    assert_eq!(ctx.eval("2 ^ 10").unwrap().value, Integer::from_u64(1024));
}

#[test]
fn left_assoc_subtraction() {
    let mut ctx = MathContext::new();
    assert_eq!(ctx.eval("10 - 3 - 2").unwrap().value, Integer::from_u64(5));
}

#[test]
fn left_assoc_division() {
    let mut ctx = MathContext::new();
    assert_eq!(ctx.eval("100 / 10 / 2").unwrap().value, Integer::from_u64(5));
}

#[test]
fn negative_exponent_zero() {
    let mut ctx = MathContext::new();
    assert_eq!(ctx.eval("2 ^ (0 - 1)").unwrap().value, Integer::from_u64(0));
}

#[test]
fn negative_exponent_one() {
    let mut ctx = MathContext::new();
    assert_eq!(ctx.eval("1 ^ (0 - 1)").unwrap().value, Integer::from_u64(1));
}

#[test]
fn exponent_overflow() {
    let mut ctx = MathContext::new();
    let err = ctx.eval("2 ^ 4294967296").unwrap_err();
    match err {
        Error::ExponentOverflow(e) => assert_eq!(e, Integer::from_u64(4294967296)),
        other => panic!("wrong error: {:?}", other),
    }
}

#[test]
fn negative_exponent_overflow() {
    let mut ctx = MathContext::new();
    let err = ctx.eval("2 ^ (0 - 4294967296)").unwrap_err();
    assert!(matches!(err, Error::ExponentOverflow(_)));
}

#[test]
fn divide_by_zero() {
    let mut ctx = MathContext::new();
    let err = ctx.eval("1 / 0").unwrap_err();
    assert!(matches!(err, Error::DivideByZero));
}

#[test]
fn negative_power_of_zero() {
    let mut ctx = MathContext::new();
    let err = ctx.eval("0 ^ (0 - 2)").unwrap_err();
    assert!(matches!(err, Error::DivideByZero));
}

#[test]
fn var_not_found() {
    let mut ctx = MathContext::new();
    let err = ctx.eval("y + 1").unwrap_err();
    match err {
        Error::VarNotFound(name) => assert_eq!(name, "y"),
        other => panic!("wrong error: {:?}", other),
    }
}

#[test]
fn name_validation() {
    let mut ctx = MathContext::new();
    let v = Integer::from_u64(7);
    assert!(matches!(
        ctx.var_set("1bad".to_string(), v.dup()),
        Err(Error::NotValidVar(_))
    ));
    assert!(matches!(
        ctx.var_set("%$".to_string(), v.dup()),
        Err(Error::NotValidVar(_))
    ));
    assert!(ctx.var_set("a1".to_string(), v.dup()).is_ok());
    assert!(ctx.var_set("_".to_string(), v.dup()).is_ok());
    // writing to `_` is discarded: the last value stays zero
    assert_eq!(ctx.last(), &Integer::from_u64(0));
    assert_eq!(ctx.var_get("a1").unwrap(), &v);
}

#[test]
fn underscore_reads_last() {
    let mut ctx = MathContext::new();
    assert_eq!(ctx.var_get("_").unwrap(), &Integer::from_u64(0));
    ctx.eval("2 + 2").unwrap();
    assert_eq!(ctx.var_get("_").unwrap(), &Integer::from_u64(4));
    assert_eq!(ctx.eval("_ + 1").unwrap().value, Integer::from_u64(5));
}

#[test]
fn parse_error_dangling_operator() {
    let mut ctx = MathContext::new();
    ctx.eval("x = 3").unwrap();
    let err = ctx.eval("2 +").unwrap_err();
    match err {
        Error::ParseError { line, .. } => assert_eq!(line, "2 +"),
        other => panic!("wrong error: {:?}", other),
    }
    // the environment is left unmodified
    assert_eq!(ctx.var_get("x").unwrap(), &Integer::from_u64(3));
    assert_eq!(ctx.last(), &Integer::from_u64(3));
}

#[test]
fn empty_line_is_parse_error() {
    let mut ctx = MathContext::new();
    assert!(matches!(ctx.eval(""), Err(Error::ParseError { .. })));
    assert!(matches!(ctx.eval("   # only a comment"), Err(Error::ParseError { .. })));
}

#[test]
fn readonly_eval_leaves_state_alone() {
    let ctx = MathContext::new();
    let v = ctx.eval_disregard("x = 5").unwrap();
    assert_eq!(v, Integer::from_u64(5));
    assert!(ctx.var_get("x").is_none());
    assert_eq!(ctx.last(), &Integer::from_u64(0));
}

#[test]
fn unary_negation() {
    let mut ctx = MathContext::new();
    let a = ctx.eval("-5 + 3").unwrap().value;
    let b = ctx.eval("0 - 2").unwrap().value;
    assert_eq!(a, b);
    assert_eq!(ctx.eval("--5").unwrap().value, Integer::from_u64(5));
}

#[test]
fn comment_and_whitespace() {
    let mut ctx = MathContext::new();
    assert_eq!(ctx.eval("  7 # lucky number").unwrap().value, Integer::from_u64(7));
    assert_eq!(ctx.eval("\t 1 + 1 \n").unwrap().value, Integer::from_u64(2));
}

#[test]
fn assignment_overwrites() {
    let mut ctx = MathContext::new();
    ctx.eval("x = 1").unwrap();
    ctx.eval("x = 2").unwrap();
    assert_eq!(ctx.var_get("x").unwrap(), &Integer::from_u64(2));
}

#[test]
fn variable_reference() {
    let mut ctx = MathContext::new();
    ctx.eval("x = 4").unwrap();
    assert_eq!(ctx.eval("x * x").unwrap().value, Integer::from_u64(16));
}

#[test]
fn big_literals() {
    let mut ctx = MathContext::new();
    ctx.eval("x = 123456789012345678901234567890").unwrap();
    assert_eq!(ctx.eval("x / x").unwrap().value, Integer::from_u64(1));
    assert_eq!(ctx.eval("x - x").unwrap().value, Integer::from_u64(0));
    // ten to the thirtieth, built by exponentiation, matches the literal
    assert_eq!(
        ctx.eval("10 ^ 30 - 1000000000000000000000000000000").unwrap().value,
        Integer::from_u64(0)
    );
}

#[test]
fn invalid_assignment_target() {
    let mut ctx = MathContext::new();
    let err = ctx.eval("x_y = 1").unwrap_err();
    match err {
        Error::NotValidVar(name) => assert_eq!(name, "x_y"),
        other => panic!("wrong error: {:?}", other),
    }
    assert_eq!(ctx.last(), &Integer::from_u64(0));
}

#[test]
fn validity_predicate() {
    assert!(MathContext::var_valid("a1"));
    assert!(MathContext::var_valid("_"));
    assert!(MathContext::var_valid("Zz9"));
    assert!(!MathContext::var_valid(""));
    assert!(!MathContext::var_valid("1bad"));
    assert!(!MathContext::var_valid("%$"));
    assert!(!MathContext::var_valid("x_y"));
    assert!(!MathContext::var_valid("__"));
}

#[test]
fn exponent_chain_left_assoc() {
    let mut ctx = MathContext::new();
    // a left-associative exponent chain: (2 ^ 3) ^ 2, not 2 ^ (3 ^ 2)
    assert_eq!(ctx.eval("2 ^ 3 ^ 2").unwrap().value, Integer::from_u64(64));
}

#[test]
fn truncating_division() {
    let mut ctx = MathContext::new();
    assert_eq!(ctx.eval("7 / 2").unwrap().value, Integer::from_u64(3));
    let a = ctx.eval("(0 - 7) / 2").unwrap().value;
    let b = ctx.eval("0 - 3").unwrap().value;
    assert_eq!(a, b);
}

#[test]
fn script_splitting() {
    let lines = jnk::script::script_lines("x = 1\n  # a comment\n\n  x + 1  \r\nlast # note\n");
    assert_eq!(
        lines,
        vec!["x = 1".to_string(), "x + 1".to_string(), "last # note".to_string()]
    );
    let mut ctx = MathContext::new();
    ctx.eval(&lines[0]).unwrap();
    assert_eq!(ctx.eval(&lines[1]).unwrap().value, Integer::from_u64(2));
}

#[test]
fn decimal_rendering() {
    let mut ctx = MathContext::new();
    assert_eq!(Integer::from_u64(0).to_decimal(), "0");
    assert_eq!(Integer::from_u64(1234).to_decimal(), "1234");
    assert_eq!(ctx.eval("0 - 45").unwrap().value.to_decimal(), "-45");
    assert_eq!(ctx.eval("10 ^ 20").unwrap().value.to_decimal(), "100000000000000000000");
}

#[test]
fn integer_equality() {
    assert_eq!(Integer::from_u64(5), Integer::from_u64(5));
    assert!(Integer::from_u64(5) != Integer::from_u64(6));
    assert!(Integer::from_u64(0) != Integer::from_u64(u64::MAX));
}
