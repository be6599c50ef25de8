use std::sync::Arc;
use wirerust::{
    ComparisonOp, ExprVisitor, FieldType, FilterExpr, FilterParser, FilterSchema,
    FilterSchemaBuilder, LiteralValue, LogicalOp, WirerustError,
};

fn schema() -> FilterSchema {
    FilterSchemaBuilder::new().field("foo", FieldType::Int).field("bar", FieldType::Bytes).build()
}

fn bytes(text: &str) -> LiteralValue {
    LiteralValue::Bytes(Arc::new(text.as_bytes().to_vec()))
}

fn name(text: &str) -> FilterExpr {
    FilterExpr::Value(bytes(text))
}

fn parse(text: &str) -> Result<FilterExpr, WirerustError> {
    FilterParser::parse(text, &schema())
}

fn parse_error(text: &str) -> String {
    match parse(text) {
        Err(WirerustError::ParseError(message)) => message,
        Err(other) => panic!("expected a parse error, got {}", other.message()),
        Ok(expr) => panic!("expected a parse error, got {:?}", expr),
    }
}

#[test]
fn test_parse_comparison() {
    let expr = FilterParser::parse("foo == 42", &schema()).unwrap();
    match expr {
        FilterExpr::Comparison { left, op, right } => {
            assert_eq!(*left, FilterExpr::Value(LiteralValue::Bytes(Arc::new(b"foo".to_vec()))));
            assert_eq!(op, ComparisonOp::Eq);
            assert_eq!(*right, FilterExpr::Value(LiteralValue::Int(42)));
        }
        _ => panic!("Expected comparison expr"),
    }
}

#[test]
fn test_parse_comparison_word_operators() {
    let sch = schema();
    let eq = FilterParser::parse("foo eq 42", &sch).unwrap();
    match eq {
        FilterExpr::Comparison { op, .. } => assert_eq!(op, ComparisonOp::Eq),
        _ => panic!("Expected eq comparison"),
    }
    let ne = FilterParser::parse("foo ne 42", &sch).unwrap();
    match ne {
        FilterExpr::Comparison { op, .. } => assert_eq!(op, ComparisonOp::Neq),
        _ => panic!("Expected ne comparison"),
    }
    let lt = FilterParser::parse("foo lt 42", &sch).unwrap();
    match lt {
        FilterExpr::Comparison { op, .. } => assert_eq!(op, ComparisonOp::Lt),
        _ => panic!("Expected lt comparison"),
    }
    let le = FilterParser::parse("foo le 42", &sch).unwrap();
    match le {
        FilterExpr::Comparison { op, .. } => assert_eq!(op, ComparisonOp::Lte),
        _ => panic!("Expected le comparison"),
    }
    let gt = FilterParser::parse("foo gt 42", &sch).unwrap();
    match gt {
        FilterExpr::Comparison { op, .. } => assert_eq!(op, ComparisonOp::Gt),
        _ => panic!("Expected gt comparison"),
    }
    let ge = FilterParser::parse("foo ge 42", &sch).unwrap();
    match ge {
        FilterExpr::Comparison { op, .. } => assert_eq!(op, ComparisonOp::Gte),
        _ => panic!("Expected ge comparison"),
    }
}

#[test]
fn test_parse_logical_and() {
    let expr = FilterParser::parse("foo == 1 && bar == \"baz\"", &schema()).unwrap();
    match expr {
        FilterExpr::LogicalOp { op, .. } => assert_eq!(op, LogicalOp::And),
        _ => panic!("Expected logical op"),
    }
    let expr_word = FilterParser::parse("foo == 1 and bar == \"baz\"", &schema()).unwrap();
    match expr_word {
        FilterExpr::LogicalOp { op, .. } => assert_eq!(op, LogicalOp::And),
        _ => panic!("Expected logical op for 'and'"),
    }
}

#[test]
fn test_parse_logical_or() {
    let expr = FilterParser::parse("foo == 1 || bar == \"baz\"", &schema()).unwrap();
    match expr {
        FilterExpr::LogicalOp { op, .. } => assert_eq!(op, LogicalOp::Or),
        _ => panic!("Expected logical op"),
    }
    let expr_word = FilterParser::parse("foo == 1 or bar == \"baz\"", &schema()).unwrap();
    match expr_word {
        FilterExpr::LogicalOp { op, .. } => assert_eq!(op, LogicalOp::Or),
        _ => panic!("Expected logical op for 'or'"),
    }
}

#[test]
fn test_parse_not() {
    let expr = FilterParser::parse("not foo == 0", &schema()).unwrap();
    match expr {
        FilterExpr::Not(inner) => match *inner {
            FilterExpr::Comparison { .. } => {}
            _ => panic!("Expected comparison inside not"),
        },
        _ => panic!("Expected not expr"),
    }
}

#[test]
fn test_parse_parens() {
    let expr =
        FilterParser::parse("(foo == 1 || bar == \"baz\") && foo != 0", &schema()).unwrap();
    match expr {
        FilterExpr::LogicalOp { op: LogicalOp::And, .. } => {}
        _ => panic!("Expected top-level and"),
    }
}

#[test]
fn test_parse_function_call() {
    let expr = FilterParser::parse("myfunc(foo, 42)", &schema()).unwrap();
    match expr {
        FilterExpr::FunctionCall { name, args } => {
            assert_eq!(name, "myfunc");
            assert_eq!(args.len(), 2);
        }
        _ => panic!("Expected function call expr"),
    }
}

#[test]
fn test_parse_list_literal() {
    let expr = FilterParser::parse("foo in {1 2 3}", &schema()).unwrap();
    match expr {
        FilterExpr::Comparison { op, right, .. } => {
            assert_eq!(op, ComparisonOp::In);
            match *right {
                FilterExpr::Value(LiteralValue::Array(ref arr)) => {
                    assert_eq!(arr.len(), 3);
                }
                _ => panic!("Expected array literal"),
            }
        }
        _ => panic!("Expected comparison expr with list literal"),
    }
}

#[test]
fn test_parse_wildcard_operators() {
    let sch = schema();
    let wc = FilterParser::parse("bar wildcard \"foo*bar\"", &sch).unwrap();
    match wc {
        FilterExpr::Comparison { op, .. } => assert_eq!(op, ComparisonOp::Wildcard),
        _ => panic!("Expected wildcard comparison"),
    }
    let swc = FilterParser::parse("bar strict wildcard \"foo*bar\"", &sch).unwrap();
    match swc {
        FilterExpr::Comparison { op, .. } => assert_eq!(op, ComparisonOp::StrictWildcard),
        _ => panic!("Expected strict wildcard comparison"),
    }
}

#[test]
fn test_parse_contains_operator() {
    let sch = schema();
    let expr = FilterParser::parse("bar contains \"foo\"", &sch).unwrap();
    match expr {
        FilterExpr::Comparison { op, .. } => assert_eq!(op, ComparisonOp::Contains),
        _ => panic!("Expected contains comparison"),
    }
}

fn comparison(left: FilterExpr, op: ComparisonOp, right: FilterExpr) -> FilterExpr {
    FilterExpr::Comparison { left: Box::new(left), op, right: Box::new(right) }
}

fn logical(op: LogicalOp, left: FilterExpr, right: FilterExpr) -> FilterExpr {
    FilterExpr::LogicalOp { op, left: Box::new(left), right: Box::new(right) }
}

#[test]
fn test_parse_exact_trees() {
    assert_eq!(parse("foo").unwrap(), name("foo"));
    assert_eq!(parse("  http.method_1  ").unwrap(), name("http.method_1"));
    assert_eq!(
        parse("a == 1 && b != \"x y\" || not c").unwrap(),
        logical(
            LogicalOp::Or,
            logical(
                LogicalOp::And,
                comparison(name("a"), ComparisonOp::Eq, FilterExpr::Value(LiteralValue::Int(1))),
                comparison(name("b"), ComparisonOp::Neq, FilterExpr::Value(bytes("x y"))),
            ),
            FilterExpr::Not(Box::new(name("c"))),
        )
    );
    // Chains group to the left.
    assert_eq!(
        parse("a or b or c").unwrap(),
        logical(LogicalOp::Or, logical(LogicalOp::Or, name("a"), name("b")), name("c"))
    );
    assert_eq!(
        parse("not not a").unwrap(),
        FilterExpr::Not(Box::new(FilterExpr::Not(Box::new(name("a")))))
    );
    assert_eq!(
        parse("f()").unwrap(),
        FilterExpr::FunctionCall { name: "f".to_string(), args: vec![] }
    );
    assert_eq!(
        parse("f( a , \"s\" , -3 , (b) )").unwrap(),
        FilterExpr::FunctionCall {
            name: "f".to_string(),
            args: vec![
                name("a"),
                FilterExpr::Value(bytes("s")),
                FilterExpr::Value(LiteralValue::Int(-3)),
                name("b"),
            ],
        }
    );
    // An argument that starts with a name is that name: `true` is no literal here.
    assert_eq!(
        parse("f(true)").unwrap(),
        FilterExpr::FunctionCall { name: "f".to_string(), args: vec![name("true")] }
    );
    assert_eq!(
        parse("x == true").unwrap(),
        comparison(name("x"), ComparisonOp::Eq, FilterExpr::Value(LiteralValue::Bool(true)))
    );
    assert_eq!(
        parse("x == y").unwrap(),
        comparison(name("x"), ComparisonOp::Eq, name("y"))
    );
}

#[test]
fn test_parse_operator_tokens() {
    let cases = [
        ("==", ComparisonOp::Eq),
        ("eq", ComparisonOp::Eq),
        ("!=", ComparisonOp::Neq),
        ("ne", ComparisonOp::Neq),
        ("<=", ComparisonOp::Lte),
        ("le", ComparisonOp::Lte),
        (">=", ComparisonOp::Gte),
        ("ge", ComparisonOp::Gte),
        ("<", ComparisonOp::Lt),
        ("lt", ComparisonOp::Lt),
        (">", ComparisonOp::Gt),
        ("gt", ComparisonOp::Gt),
        ("in", ComparisonOp::In),
        ("not in", ComparisonOp::NotIn),
        ("matches", ComparisonOp::Matches),
        ("wildcard", ComparisonOp::Wildcard),
        ("strict wildcard", ComparisonOp::StrictWildcard),
        ("contains", ComparisonOp::Contains),
    ];
    for (token, op) in cases {
        let text = format!("a {} 1", token);
        assert_eq!(
            parse(&text).unwrap(),
            comparison(name("a"), op, FilterExpr::Value(LiteralValue::Int(1))),
            "{}",
            text
        );
    }
    // No space is needed around symbols.
    assert_eq!(
        parse("a<=1").unwrap(),
        comparison(name("a"), ComparisonOp::Lte, FilterExpr::Value(LiteralValue::Int(1)))
    );
}

#[test]
fn test_parse_list_literals() {
    let list = LiteralValue::Array(Arc::new(vec![
        LiteralValue::Int(80),
        bytes("a b"),
        LiteralValue::Bool(true),
        LiteralValue::Bool(false),
        LiteralValue::Int(-1),
    ]));
    assert_eq!(
        parse("p in { 80 \"a b\" true false -1 }").unwrap(),
        comparison(name("p"), ComparisonOp::In, FilterExpr::Value(list))
    );
    assert_eq!(
        parse("p in {}").unwrap(),
        comparison(
            name("p"),
            ComparisonOp::In,
            FilterExpr::Value(LiteralValue::Array(Arc::new(vec![])))
        )
    );
    // A list literal can stand alone.
    assert_eq!(
        parse("{1 2}").unwrap(),
        FilterExpr::List(vec![LiteralValue::Int(1), LiteralValue::Int(2)])
    );
    assert_eq!(parse_error("p in {1 2"), "Failed to parse expression at position 9: Parse error: Expected literal at position 9");
    assert_eq!(parse_error("p in {1, 2}"), "Failed to parse expression at position 7: Parse error: Expected literal at position 7");
}

#[test]
fn test_parse_integer_literals() {
    let int = |text: &str| match parse(&format!("a == {}", text)) {
        Ok(FilterExpr::Comparison { right, .. }) => match *right {
            FilterExpr::Value(LiteralValue::Int(n)) => Some(n),
            _ => None,
        },
        _ => None,
    };
    assert_eq!(int("0"), Some(0));
    assert_eq!(int("-0"), Some(0));
    assert_eq!(int("007"), Some(7));
    assert_eq!(int("9223372036854775807"), Some(i64::MAX));
    assert_eq!(int("-9223372036854775808"), Some(i64::MIN));
    assert_eq!(int("9223372036854775808"), None);
    assert_eq!(int("-9223372036854775809"), None);
    assert_eq!(int("99999999999999999999999999999999999999999999"), None);
    assert_eq!(
        parse_error("a == 9223372036854775808"),
        "Failed to parse expression at position 5: Parse error: Expected expression or value at position 5"
    );
    assert_eq!(
        parse_error("a == -"),
        "Failed to parse expression at position 5: Parse error: Expected expression or value at position 5"
    );
    assert_eq!(
        parse_error("a in {-}"),
        "Failed to parse expression at position 7: Parse error: Invalid integer literal at position 6"
    );
}

#[test]
fn test_parse_failures() {
    assert_eq!(
        parse_error(""),
        "Failed to parse expression at position 0: Parse error: Expected identifier at position 0"
    );
    assert_eq!(
        parse_error("   "),
        "Failed to parse expression at position 3: Parse error: Expected identifier at position 3"
    );
    assert_eq!(
        parse_error("(a == 1"),
        "Failed to parse expression at position 7: Parse error: Expected ')' at position 7"
    );
    assert_eq!(
        parse_error("f(a"),
        "Failed to parse expression at position 3: Parse error: Expected ')' after function call at position 3"
    );
    assert_eq!(
        parse_error("a == \"abc"),
        "Failed to parse expression at position 5: Parse error: Expected expression or value at position 5"
    );
    assert_eq!(
        parse_error("a in {\"abc}"),
        "Failed to parse expression at position 11: Parse error: Unterminated string literal at position 11"
    );
    assert_eq!(
        parse_error("a == "),
        "Failed to parse expression at position 5: Parse error: Expected expression or value at position 5"
    );
    assert_eq!(
        parse_error("a &&"),
        "Failed to parse expression at position 4: Parse error: Expected identifier at position 4"
    );
    assert_eq!(parse_error("a b"), "Unexpected input at position 2");
    assert_eq!(parse_error("a == 1 )"), "Unexpected input at position 7");
    // A name starts with a letter or an underscore.
    assert_eq!(
        parse_error("42 == a"),
        "Failed to parse expression at position 0: Parse error: Expected identifier at position 0"
    );
    assert_eq!(
        parse_error("\u{e9}t\u{e9} == 1"),
        "Failed to parse expression at position 0: Parse error: Expected identifier at position 0"
    );
    assert_eq!(parse("_a1.b == 1").is_ok(), true);
}

#[test]
fn test_a_name_before_parentheses_is_a_call() {
    let call = |name: &str, args: Vec<FilterExpr>| FilterExpr::FunctionCall {
        name: name.to_string(),
        args,
    };
    // On the left, on the right and as an argument.
    assert_eq!(
        parse("f(x) == g(y, 1)").unwrap(),
        comparison(
            call("f", vec![name("x")]),
            ComparisonOp::Eq,
            call("g", vec![name("y"), FilterExpr::Value(LiteralValue::Int(1))])
        )
    );
    assert_eq!(
        parse("f(g(h()), k (a) )").unwrap(),
        call("f", vec![call("g", vec![call("h", vec![])]), call("k", vec![name("a")])])
    );
    assert_eq!(
        parse("a in f()").unwrap(),
        comparison(name("a"), ComparisonOp::In, call("f", vec![]))
    );
    assert_eq!(
        parse_error("a == f(x"),
        "Failed to parse expression at position 8: Parse error: Expected ')' after function call at position 8"
    );
    // In parentheses an argument can be any expression.
    assert_eq!(
        parse("f((a == 1), (not b))").unwrap(),
        call(
            "f",
            vec![
                comparison(name("a"), ComparisonOp::Eq, FilterExpr::Value(LiteralValue::Int(1))),
                FilterExpr::Not(Box::new(name("b"))),
            ]
        )
    );
    // After a literal no call begins.
    assert_eq!(parse_error("a == true(x)"), "Unexpected input at position 9");
}

#[test]
fn test_arguments_are_expressions() {
    let call = |name: &str, args: Vec<FilterExpr>| FilterExpr::FunctionCall {
        name: name.to_string(),
        args,
    };
    let one = || FilterExpr::Value(LiteralValue::Int(1));
    assert_eq!(
        parse("f(a == 1, b and c or not d, e in {1})").unwrap(),
        call(
            "f",
            vec![
                comparison(name("a"), ComparisonOp::Eq, one()),
                logical(
                    LogicalOp::Or,
                    logical(LogicalOp::And, name("b"), name("c")),
                    FilterExpr::Not(Box::new(name("d"))),
                ),
                comparison(
                    name("e"),
                    ComparisonOp::In,
                    FilterExpr::Value(LiteralValue::Array(Arc::new(vec![LiteralValue::Int(1)])))
                ),
            ]
        )
    );
    assert_eq!(
        parse("f(g(x) > 1 && h())").unwrap(),
        call(
            "f",
            vec![logical(
                LogicalOp::And,
                comparison(call("g", vec![name("x")]), ComparisonOp::Gt, one()),
                call("h", vec![]),
            )]
        )
    );
    // A name is read before any keyword: `notes` and `not` are names here.
    assert_eq!(parse("len(notes)").unwrap(), call("len", vec![name("notes")]));
    assert_eq!(parse("f(not)").unwrap(), call("f", vec![name("not")]));
    assert_eq!(
        parse_error("f(not a)"),
        "Failed to parse expression at position 6: Parse error: Expected ')' after function call at position 6"
    );
    // A literal is an argument by itself.
    assert_eq!(
        parse_error("f(1 == a)"),
        "Failed to parse expression at position 4: Parse error: Expected ')' after function call at position 4"
    );
    assert_eq!(parse("f((not a))").unwrap(), call("f", vec![FilterExpr::Not(Box::new(name("a")))]));
}

struct NameCounter(usize);

impl ExprVisitor for NameCounter {
    fn visit(&mut self, expr: &FilterExpr) {
        match expr {
            FilterExpr::LogicalOp { left, right, .. } | FilterExpr::Comparison { left, right, .. } => {
                self.visit(left);
                self.visit(right);
            }
            FilterExpr::Not(inner) => self.visit(inner),
            FilterExpr::Value(LiteralValue::Bytes(_)) => self.0 += 1,
            FilterExpr::FunctionCall { args, .. } => {
                for arg in args {
                    self.visit(arg);
                }
            }
            _ => {}
        }
    }
}

#[test]
fn test_visitor_walks_a_tree() {
    let tree = parse("f(a, 1) == b && not (c or d == \"e\")").unwrap();
    let mut counter = NameCounter(0);
    counter.visit(&tree);
    assert_eq!(counter.0, 5);
}

#[test]
fn test_parse_whitespace() {
    let expected = comparison(name("a"), ComparisonOp::Eq, FilterExpr::Value(LiteralValue::Int(1)));
    assert_eq!(parse("a==1").unwrap(), expected);
    assert_eq!(parse("\t\na \r == \u{b}\u{c} 1 ").unwrap(), expected);
    // Whitespace of two and of three bytes.
    assert_eq!(parse("\u{a0}a\u{85}==\u{2003}1\u{3000}\u{1680}\u{205f}\u{2028}").unwrap(), expected);
    // A zero-width space is no whitespace.
    assert!(parse("a == 1\u{200b}").is_err());
    assert_eq!(parse_error("a == 1 \u{200b}"), "Unexpected input at position 7");
}

#[test]
fn test_keyword_operators_are_prefixes() {
    // An identifier is read greedily, so `portion` and `order` are names.
    assert_eq!(
        parse("portion == 1").unwrap(),
        comparison(name("portion"), ComparisonOp::Eq, FilterExpr::Value(LiteralValue::Int(1)))
    );
    assert_eq!(parse("order").unwrap(), name("order"));
    // `not` is tried before a name is read.
    assert_eq!(parse("nothing").unwrap(), FilterExpr::Not(Box::new(name("hing"))));
    // After an operand a keyword is matched without a look at what follows.
    assert_eq!(parse("a origin").unwrap(), logical(LogicalOp::Or, name("a"), name("igin")));
    assert_eq!(
        parse("a inside").unwrap(),
        comparison(name("a"), ComparisonOp::In, name("side"))
    );
}
