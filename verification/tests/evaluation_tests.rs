// Tests of the evaluator on hand-made and compiled programs.

use std::sync::Arc;
use wirerust::{
    call_arguments, finish_call, register_builtins, BuiltinFunctionId, Callable, CompiledFilter,
    CustomFunction,
    DefaultCompiler, FieldType, FilterContext, FilterExpr, FilterFunction, FilterParser,
    FilterSchema, FilterSchemaBuilder, FunctionRegistry, Instruction, IpAddress,
    IrCompiledFilter, LenFunction, LiteralValue, ValueMap, WirerustError,
};

fn schema() -> FilterSchema {
    FilterSchemaBuilder::new()
        .field("name", FieldType::Bytes)
        .field("port", FieldType::Int)
        .field("on", FieldType::Bool)
        .field("tags", FieldType::Array(Box::new(FieldType::Bytes)))
        .field("addr", FieldType::Ip)
        .build()
}

fn bytes(text: &[u8]) -> LiteralValue {
    LiteralValue::Bytes(Arc::new(text.to_vec()))
}

fn array(items: Vec<LiteralValue>) -> LiteralValue {
    LiteralValue::Array(Arc::new(items))
}

fn builtins() -> FunctionRegistry {
    let mut functions = FunctionRegistry::new();
    register_builtins(&mut functions);
    functions
}

fn program(bytecode: Vec<Instruction>, functions: FunctionRegistry) -> IrCompiledFilter {
    IrCompiledFilter { bytecode, schema: Arc::new(schema()), functions: Arc::new(functions) }
}

fn run(bytecode: Vec<Instruction>) -> Result<bool, WirerustError> {
    program(bytecode, builtins()).execute(&FilterContext::new())
}

fn eval_with(text: &str, ctx: &FilterContext, functions: FunctionRegistry) -> Result<bool, WirerustError> {
    let sch = schema();
    let expr = FilterParser::parse(text, &sch).expect("parse");
    CompiledFilter::new(expr, Arc::new(sch), Arc::new(functions)).execute(ctx)
}

fn eval(text: &str, ctx: &FilterContext) -> bool {
    match eval_with(text, ctx, builtins()) {
        Ok(b) => b,
        Err(e) => panic!("{}: {}", text, e.message()),
    }
}

fn context() -> FilterContext {
    let sch = schema();
    let mut ctx = FilterContext::new();
    ctx.set("name", bytes(b"Hello World"), &sch).unwrap();
    ctx.set("port", LiteralValue::Int(443), &sch).unwrap();
    ctx.set("on", LiteralValue::Bool(true), &sch).unwrap();
    ctx.set("tags", array(vec![bytes(b"a"), bytes(b"b")]), &sch).unwrap();
    ctx.set("addr", LiteralValue::Ip(IpAddress::V4(0x0a00_0001)), &sch).unwrap();
    ctx
}

fn execution_error(r: Result<bool, WirerustError>) -> String {
    match r {
        Err(WirerustError::ExecutionError(message)) => message,
        Err(other) => panic!("expected an execution error, got {}", other.message()),
        Ok(b) => panic!("expected an execution error, got {}", b),
    }
}

fn function_error(r: Result<bool, WirerustError>) -> String {
    match r {
        Err(WirerustError::FunctionError(message)) => message,
        Err(other) => panic!("expected a function error, got {}", other.message()),
        Ok(b) => panic!("expected a function error, got {}", b),
    }
}

#[test]
fn test_empty_program_is_an_execution_error() {
    assert_eq!(execution_error(run(vec![])), "Empty stack after execution");
}

#[test]
fn test_stack_underflow_is_an_execution_error() {
    assert_eq!(execution_error(run(vec![Instruction::LogicalNot])), "Stack underflow");
    assert_eq!(execution_error(run(vec![Instruction::CompareEq])), "Stack underflow");
    assert_eq!(
        execution_error(run(vec![
            Instruction::LoadLiteral(LiteralValue::Int(1)),
            Instruction::LogicalAnd,
        ])),
        "Stack underflow"
    );
    assert_eq!(
        execution_error(run(vec![
            Instruction::LoadLiteral(LiteralValue::Int(1)),
            Instruction::CompareWildcard { strict: true },
        ])),
        "Stack underflow"
    );
    // A call that wants more arguments than the stack holds.
    assert_eq!(
        execution_error(run(vec![
            Instruction::LoadLiteral(array(vec![])),
            Instruction::CallFunction(0, 2),
        ])),
        "Stack underflow"
    );
}

#[test]
fn test_result_is_the_truth_value_of_the_top() {
    let top = |v: LiteralValue| run(vec![Instruction::LoadLiteral(v)]).unwrap();
    assert!(top(LiteralValue::Bool(true)));
    assert!(!top(LiteralValue::Bool(false)));
    assert!(top(LiteralValue::Int(-1)));
    assert!(!top(LiteralValue::Int(0)));
    assert!(top(bytes(b"")));
    assert!(top(LiteralValue::Ip(IpAddress::V6(0))));
    assert!(!top(array(vec![])));
    assert!(top(array(vec![LiteralValue::Bool(false)])));
    assert!(!top(LiteralValue::Mapping(Arc::new(ValueMap::new()))));
    let mut map = ValueMap::new();
    map.insert("k", LiteralValue::Int(0));
    assert!(top(LiteralValue::Mapping(Arc::new(map))));
    // Values below the top are left alone.
    assert!(run(vec![
        Instruction::LoadLiteral(LiteralValue::Bool(false)),
        Instruction::LoadLiteral(LiteralValue::Bool(true)),
    ])
    .unwrap());
}

#[test]
fn test_load_field_reads_absent_slots_as_false() {
    let filter = program(vec![Instruction::LoadField(7)], builtins());
    assert!(!filter.execute(&FilterContext::new()).unwrap());
    let mut ctx = FilterContext::new();
    ctx.set_by_id(7, LiteralValue::Int(5));
    assert!(filter.execute(&ctx).unwrap());
    ctx.set_by_id(9, LiteralValue::Int(5));
    let other = program(vec![Instruction::LoadField(8)], builtins());
    assert!(!other.execute(&ctx).unwrap());
}

#[test]
fn test_logical_instructions() {
    let logic = |a: LiteralValue, b: LiteralValue, op: Instruction| {
        run(vec![Instruction::LoadLiteral(a), Instruction::LoadLiteral(b), op]).unwrap()
    };
    let t = || LiteralValue::Int(3);
    let f = || array(vec![]);
    assert!(logic(t(), t(), Instruction::LogicalAnd));
    assert!(!logic(t(), f(), Instruction::LogicalAnd));
    assert!(!logic(f(), t(), Instruction::LogicalAnd));
    assert!(!logic(f(), f(), Instruction::LogicalAnd));
    assert!(logic(t(), t(), Instruction::LogicalOr));
    assert!(logic(t(), f(), Instruction::LogicalOr));
    assert!(logic(f(), t(), Instruction::LogicalOr));
    assert!(!logic(f(), f(), Instruction::LogicalOr));
    assert!(run(vec![Instruction::LoadLiteral(f()), Instruction::LogicalNot]).unwrap());
    assert!(!run(vec![Instruction::LoadLiteral(t()), Instruction::LogicalNot]).unwrap());
}

#[test]
fn test_unknown_function_id() {
    let expected = format!("Function ID {} not found", usize::MAX);
    assert_eq!(function_error(eval_with("nope(port)", &context(), builtins())), expected);
    assert_eq!(
        function_error(run(vec![Instruction::CallFunction(6, 0)])),
        "Function ID 6 not found"
    );
    assert_eq!(
        function_error(program(vec![Instruction::CallFunction(0, 0)], FunctionRegistry::new())
            .execute(&FilterContext::new())),
        "Function ID 0 not found"
    );
}

struct Echo;

impl FilterFunction for Echo {
    fn call(&self, args: &[LiteralValue]) -> Option<LiteralValue> {
        args.first().cloned()
    }
}

struct Join;

impl FilterFunction for Join {
    fn call(&self, args: &[LiteralValue]) -> Option<LiteralValue> {
        let mut out = Vec::new();
        for a in args {
            match a {
                LiteralValue::Bytes(b) => out.extend_from_slice(b),
                _ => return None,
            }
        }
        Some(LiteralValue::Bytes(Arc::new(out)))
    }
}

#[test]
fn test_function_failures() {
    assert_eq!(
        function_error(eval_with("len(port)", &context(), builtins())),
        "Builtin function call failed for len"
    );
    assert_eq!(
        function_error(eval_with("starts_with(name)", &context(), builtins())),
        "Builtin function call failed for starts_with"
    );
    let mut functions = builtins();
    functions.register("echo", CustomFunction(Arc::new(Echo)));
    functions.register("count", LenFunction);
    assert_eq!(
        function_error(eval_with("echo()", &context(), functions.clone())),
        "Function call failed for ID 6"
    );
    assert_eq!(
        function_error(eval_with("count(port)", &context(), functions.clone())),
        "Function call failed for ID 7"
    );
    assert!(eval_with("count(tags) == 2", &context(), functions.clone()).unwrap());
    assert!(eval_with("echo(on)", &context(), functions).unwrap());
}

#[test]
fn test_builtin_name_wins_over_registered_function() {
    let mut functions = FunctionRegistry::new();
    functions.register("len", CustomFunction(Arc::new(Echo)));
    functions.register("upper", Callable::Builtin(BuiltinFunctionId::Lower));
    // The functions are called by name: `len` counts and `upper` raises.
    assert!(eval_with("len(tags) == 2", &context(), functions.clone()).unwrap());
    assert!(eval_with("upper(name) == \"HELLO WORLD\"", &context(), functions.clone()).unwrap());
    // Reached directly, the registered functions are themselves.
    assert_eq!(
        functions.get("len").unwrap().call(&[LiteralValue::Int(1)]),
        Some(LiteralValue::Int(1))
    );
    assert_eq!(functions.get("upper").unwrap().call(&[bytes(b"Ab")]), Some(bytes(b"ab")));
}

#[test]
fn test_arguments_are_passed_in_order() {
    let mut functions = builtins();
    functions.register("join", CustomFunction(Arc::new(Join)));
    assert!(eval_with(
        "join(\"a\", name, \"z\") == \"aHello Worldz\"",
        &context(),
        functions.clone()
    )
    .unwrap());
    assert!(eval_with("join() == \"\"", &context(), functions.clone()).unwrap());
    assert!(eval_with("starts_with(name, \"Hello\")", &context(), functions.clone()).unwrap());
    assert!(!eval_with("starts_with(\"Hello\", name)", &context(), functions.clone()).unwrap());
    assert!(eval_with("ends_with(name, \"World\")", &context(), functions.clone()).unwrap());
    assert!(eval_with("len(tags) == sum({1 1})", &context(), functions.clone()).unwrap());
    assert!(eval_with("upper(join(\"a\", lower(name))) == \"AHELLO WORLD\"", &context(), functions)
        .unwrap());
}

#[test]
fn test_comparisons_of_mismatched_types_are_false() {
    let ctx = context();
    assert!(!eval("port == \"443\"", &ctx));
    assert!(eval("port != \"443\"", &ctx));
    assert!(!eval("name < 5", &ctx));
    assert!(!eval("name >= 5", &ctx));
    assert!(!eval("on <= 1", &ctx));
    assert!(!eval("port in 443", &ctx));
    assert!(eval("port not in 443", &ctx));
    assert!(!eval("port contains 4", &ctx));
    assert!(!eval("name contains 1", &ctx));
    assert!(!eval("port matches \"4\"", &ctx));
    assert!(!eval("port wildcard \"4*\"", &ctx));
    assert!(!eval("tags wildcard \"*\"", &ctx));
    assert!(!eval("addr == \"10.0.0.1\"", &ctx));
    assert!(!eval("addr in {\"10.0.0.1\"}", &ctx));
}

#[test]
fn test_order_comparisons() {
    let ctx = context();
    assert!(eval("port < 444 && port <= 443 && port > 442 && port >= 443", &ctx));
    assert!(!eval("port < 443", &ctx));
    assert!(!eval("port > 443", &ctx));
    assert!(eval("port > -9223372036854775808 && port < 9223372036854775807", &ctx));
    assert!(eval("port lt 444 and port le 443 and port gt 442 and port ge 443", &ctx));
}

#[test]
fn test_membership_and_containment() {
    let ctx = context();
    assert!(eval("port in {80 443}", &ctx));
    assert!(!eval("port in {80 8080}", &ctx));
    assert!(!eval("port in {}", &ctx));
    assert!(eval("port not in {}", &ctx));
    assert!(eval("name in {\"x\" \"Hello World\"}", &ctx));
    assert!(eval("on in {1 true}", &ctx));
    assert!(eval("tags contains \"b\"", &ctx));
    assert!(!eval("tags contains \"c\"", &ctx));
    assert!(eval("name contains \"lo Wo\"", &ctx));
    assert!(eval("name contains \"\"", &ctx));
    assert!(!eval("name contains \"hello\"", &ctx));
}

#[test]
fn test_text_comparisons_need_utf8() {
    let sch = schema();
    let mut ctx = FilterContext::new();
    ctx.set("name", bytes(&[b'a', 0xff, b'b']), &sch).unwrap();
    assert!(!eval("name contains \"a\"", &ctx));
    assert!(!eval("name matches \"a\"", &ctx));
    assert!(!eval("name wildcard \"a*\"", &ctx));
    assert!(!eval("name strict wildcard \"*\"", &ctx));
    // Equality compares bytes and needs no text.
    assert!(eval("name != \"ab\"", &ctx));
    assert!(eval("upper(name) == upper(name)", &ctx));
    ctx.set("name", bytes("gr\u{fc}n".as_bytes()), &sch).unwrap();
    assert!(eval("name contains \"\u{fc}\"", &ctx));
    assert!(eval("name matches \"^gr.n$\"", &ctx));
    assert!(eval("name wildcard \"GR\u{dc}*\"", &ctx));
    assert!(!eval("name strict wildcard \"GR\u{dc}*\"", &ctx));
}

#[test]
fn test_matches_is_a_regular_expression_search() {
    let ctx = context();
    assert!(eval("name matches \"World\"", &ctx));
    assert!(eval("name matches \"^Hello\"", &ctx));
    assert!(eval("name matches \"o W\"", &ctx));
    assert!(eval("name matches \"^H.*d$\"", &ctx));
    assert!(!eval("name matches \"^World\"", &ctx));
    assert!(eval("name matches \"\"", &ctx));
    assert!(eval("name matches \"[A-Z][a-z]+ [A-Z]\"", &ctx));
    // A pattern that is no regular expression matches nothing.
    assert!(!eval("name matches \"(\"", &ctx));
    assert!(!eval("name matches \"[a-\"", &ctx));
    assert!(!eval("name matches \"*\"", &ctx));
}

#[test]
fn test_missing_fields_read_as_false() {
    let empty = FilterContext::new();
    for text in [
        "port == 80",
        "port < 80",
        "port <= 80",
        "port > 80",
        "port >= 80",
        "port in {80 443}",
        "name matches \".*\"",
        "name wildcard \"*\"",
        "name strict wildcard \"*\"",
        "name contains \"\"",
        "tags contains \"a\"",
        "on",
        "on == true",
        "on && on",
        "on || port",
    ] {
        assert!(!eval(text, &empty), "{}", text);
    }
    // What is absent is equal to `false`, and unequal to everything else.
    for text in ["on == false", "port == false", "port != 80", "port not in {80}", "not on", "port in {false}"] {
        assert!(eval(text, &empty), "{}", text);
    }
}

#[test]
fn test_compiled_code() {
    let sch = schema();
    let functions = builtins();
    let compile = |text: &str| {
        let expr = FilterParser::parse(text, &sch).unwrap();
        DefaultCompiler::compile(expr, Arc::new(sch.clone()), Arc::new(functions.clone())).bytecode
    };
    // Field ids follow the order of the names: addr, name, on, port, tags.
    assert_eq!(
        compile("port == 80"),
        vec![
            Instruction::LoadField(3),
            Instruction::LoadLiteral(LiteralValue::Int(80)),
            Instruction::CompareEq,
        ]
    );
    assert_eq!(
        compile("not (name wildcard \"a*\" || other strict wildcard tags)"),
        vec![
            Instruction::LoadField(1),
            Instruction::LoadLiteral(bytes(b"a*")),
            Instruction::CompareWildcard { strict: false },
            Instruction::LoadLiteral(bytes(b"other")),
            Instruction::LoadField(4),
            Instruction::CompareWildcard { strict: true },
            Instruction::LogicalOr,
            Instruction::LogicalNot,
        ]
    );
    assert_eq!(
        compile("sum(tags, 1, \"x\") and nope()"),
        vec![
            Instruction::LoadField(4),
            Instruction::LoadLiteral(LiteralValue::Int(1)),
            Instruction::LoadLiteral(bytes(b"x")),
            Instruction::CallFunction(3, 3),
            Instruction::CallFunction(usize::MAX, 0),
            Instruction::LogicalAnd,
        ]
    );
    assert_eq!(
        compile("{1 \"a\"}"),
        vec![Instruction::LoadLiteral(array(vec![LiteralValue::Int(1), bytes(b"a")]))]
    );
    assert_eq!(
        compile("a != 1 && b in {2} && c not in {} && d matches e && f contains g"),
        vec![
            Instruction::LoadLiteral(bytes(b"a")),
            Instruction::LoadLiteral(LiteralValue::Int(1)),
            Instruction::CompareNeq,
            Instruction::LoadLiteral(bytes(b"b")),
            Instruction::LoadLiteral(array(vec![LiteralValue::Int(2)])),
            Instruction::CompareIn,
            Instruction::LogicalAnd,
            Instruction::LoadLiteral(bytes(b"c")),
            Instruction::LoadLiteral(array(vec![])),
            Instruction::CompareNotIn,
            Instruction::LogicalAnd,
            Instruction::LoadLiteral(bytes(b"d")),
            Instruction::LoadLiteral(bytes(b"e")),
            Instruction::CompareMatches,
            Instruction::LogicalAnd,
            Instruction::LoadLiteral(bytes(b"f")),
            Instruction::LoadLiteral(bytes(b"g")),
            Instruction::CompareContains,
            Instruction::LogicalAnd,
        ]
    );
    assert_eq!(
        compile("a < 1 || a <= 1 || a > 1 || a >= 1")
            .into_iter()
            .filter(|i| !matches!(i, Instruction::LoadLiteral(_) | Instruction::LogicalOr))
            .collect::<Vec<_>>(),
        vec![
            Instruction::CompareLt,
            Instruction::CompareLte,
            Instruction::CompareGt,
            Instruction::CompareGte,
        ]
    );
}

#[test]
fn test_a_string_that_names_a_field_is_the_field() {
    let ctx = context();
    // `"port"` and `port` are one tree, so both load the field.
    assert!(eval("port == \"port\"", &ctx));
    assert!(!eval("name == \"name.\"", &ctx));
    let sch = schema();
    let expr = FilterParser::parse("name == \"port\"", &sch).unwrap();
    let filter = DefaultCompiler::compile(expr, Arc::new(sch), Arc::new(builtins()));
    assert_eq!(
        filter.bytecode,
        vec![Instruction::LoadField(1), Instruction::LoadField(3), Instruction::CompareEq]
    );
}

#[test]
fn test_compiled_filters_never_give_an_execution_error() {
    let mut functions = builtins();
    functions.register("echo", CustomFunction(Arc::new(Echo)));
    let texts = [
        "port",
        "not port",
        "port == 1 || name",
        "len(tags) > 1 && sum(tags) == 0",
        "echo() || echo(port, name) && nope(1, 2, 3)",
        "upper(lower(name)) == lower(upper(name))",
        "(((port))) in {1 2 3} and not not on",
        "{1 2 3}",
        "f({1} , {2})",
        "a == (b == (c == d))",
        "len(port)",
    ];
    for text in texts {
        for ctx in [FilterContext::new(), context()] {
            match eval_with(text, &ctx, functions.clone()) {
                Ok(_) | Err(WirerustError::FunctionError(_)) => {}
                Err(other) => panic!("{}: {}", text, other.message()),
            }
        }
    }
}

#[test]
fn test_call_steps() {
    let mut stack = vec![LiteralValue::Int(1), LiteralValue::Int(2), LiteralValue::Int(3)];
    assert_eq!(call_arguments(&mut stack, 4), None);
    assert_eq!(stack.len(), 3);
    assert_eq!(
        call_arguments(&mut stack, 2),
        Some(vec![LiteralValue::Int(2), LiteralValue::Int(3)])
    );
    assert_eq!(stack, vec![LiteralValue::Int(1)]);
    assert_eq!(call_arguments(&mut stack, 0), Some(vec![]));
    assert!(finish_call(&mut stack, 5, Some(LiteralValue::Bool(true))).is_ok());
    assert_eq!(stack, vec![LiteralValue::Int(1), LiteralValue::Bool(true)]);
    match finish_call(&mut stack, 5, None) {
        Err(WirerustError::FunctionError(m)) => assert_eq!(m, "Function call failed for ID 5"),
        _ => panic!("expected a function error"),
    }
    assert_eq!(stack.len(), 2);
}

#[test]
fn test_shared_buffers_are_not_copied() {
    let sch = schema();
    let ctx = context();
    let one = ctx.get_array("tags", &sch).unwrap();
    let two = ctx.get_array("tags", &sch).unwrap();
    assert!(Arc::ptr_eq(&one, &two));
    let value = array(vec![LiteralValue::Int(1)]);
    let copy = value.clone();
    match (&value, &copy) {
        (LiteralValue::Array(a), LiteralValue::Array(b)) => assert!(Arc::ptr_eq(a, b)),
        _ => panic!("expected arrays"),
    }
    let expr = FilterExpr::Value(bytes(b"x"));
    assert_eq!(expr.clone(), expr);
}
